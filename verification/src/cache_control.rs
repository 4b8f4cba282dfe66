//! The cache-control model: reading directives from response headers,
//! merging them across entries, deciding what may be stored and used, and
//! writing them back.

use crate::headers::first_value_of;
use crate::headers::values_of;
use crate::headers::with_header;
use crate::headers::without_name;
use crate::headers::HeaderList;
use crate::headers::HeaderSeq;
use crate::headers::AGE;
use crate::headers::CACHE_CONTROL;
use crate::text::bytes_equal;
use crate::text::bytes_of;
use vstd::prelude::*;
use vstd::slice::slice_subrange;
use vstd::string::*;

verus! {

/// What is known of the freshness of a response, or of several merged.
#[derive(Debug, Clone, Copy, PartialEq, Eq)]
pub struct CacheControl {
    /// The response must not be stored.
    pub no_store: bool,
    /// The response is for one user only.
    pub private: bool,
    /// A stale response must not be used without asking again.
    pub must_revalidate: bool,
    /// Seconds for which the response is fresh, counted from its origin.
    pub max_age: Option<u64>,
    /// As `max_age`, for shared caches; where present it takes precedence.
    pub s_maxage: Option<u64>,
    /// Seconds for which a stale response may be served while it is refreshed.
    pub stale_while_revalidate: Option<u64>,
    /// Seconds since the response left its origin.
    pub age: u64,
}

/// Why a `Cache-Control` or `Age` header could not be read.
#[derive(Debug, Clone, Copy, PartialEq, Eq)]
pub enum ParseError {
    /// A directive has no name, or more than one `=`.
    Malformed,
    /// A directive that takes seconds has no value.
    MissingValue,
    /// A directive that takes no value has one.
    UnexpectedValue,
    /// The value of a directive is not a decimal number of seconds that fits.
    InvalidNumber,
    /// The `Age` header is not a decimal number of seconds that fits.
    InvalidAge,
}

/// One directive of a `Cache-Control` header.
#[derive(Debug, Clone, Copy, PartialEq, Eq)]
pub enum Directive {
    MaxAge(u64),
    SMaxage(u64),
    StaleWhileRevalidate(u64),
    NoStore,
    MustRevalidate,
    Private,
    /// A well-formed directive that this model does not hold.
    Unrecognized,
}

/// The bytes of the name `max-age`.
pub open spec fn name_max_age() -> Seq<u8> {
    bytes_of("max-age"@)
}

/// The bytes of the name `s-maxage`.
pub open spec fn name_s_maxage() -> Seq<u8> {
    bytes_of("s-maxage"@)
}

/// The bytes of the name `stale-while-revalidate`.
pub open spec fn name_stale_while_revalidate() -> Seq<u8> {
    bytes_of("stale-while-revalidate"@)
}

/// The bytes of the name `no-store`.
pub open spec fn name_no_store() -> Seq<u8> {
    bytes_of("no-store"@)
}

/// The bytes of the name `must-revalidate`.
pub open spec fn name_must_revalidate() -> Seq<u8> {
    bytes_of("must-revalidate"@)
}

/// The bytes of the name `private`.
pub open spec fn name_private() -> Seq<u8> {
    bytes_of("private"@)
}

/// The smaller of two optional numbers, an absent one setting no bound.
pub open spec fn least(a: Option<u64>, b: Option<u64>) -> Option<u64> {
    match (a, b) {
        (None, None) => None,
        (Some(x), None) => Some(x),
        (None, Some(y)) => Some(y),
        (Some(x), Some(y)) => Some(if x <= y { x } else { y }),
    }
}

/// `a - b`, or zero where `b` is the larger.
pub open spec fn minus(a: u64, b: u64) -> u64 {
    if a >= b {
        (a - b) as u64
    } else {
        0
    }
}

/// `a + b`, or the largest number where the sum does not fit.
pub open spec fn plus(a: u64, b: u64) -> u64 {
    if a + b <= u64::MAX {
        (a + b) as u64
    } else {
        u64::MAX
    }
}

/// A space or a tab.
pub open spec fn is_space(b: u8) -> bool {
    b == 32 || b == 9
}

/// The first position from `i` on that holds no space; the length if none.
pub open spec fn lead_from(s: Seq<u8>, i: int) -> int
    decreases s.len() - i,
{
    if 0 <= i < s.len() && is_space(s[i]) {
        lead_from(s, i + 1)
    } else {
        i
    }
}

/// The end of `s` without the spaces that stand before `j`, not below `lo`.
pub open spec fn trail_to(s: Seq<u8>, lo: int, j: int) -> int
    decreases j,
{
    if 0 <= lo < j <= s.len() && is_space(s[j - 1]) {
        trail_to(s, lo, j - 1)
    } else {
        j
    }
}

/// `s` without the spaces and tabs at its two ends.
pub open spec fn trimmed(s: Seq<u8>) -> Seq<u8> {
    let a = lead_from(s, 0);
    s.subrange(a, trail_to(s, a, s.len() as int))
}

/// The first position from `i` on that holds `b`; the length if none does.
pub open spec fn index_from(s: Seq<u8>, b: u8, i: int) -> int
    decreases s.len() - i,
{
    if i < 0 || i >= s.len() {
        s.len() as int
    } else if s[i] == b {
        i
    } else {
        index_from(s, b, i + 1)
    }
}

/// The first position of `b` in `s`; the length of `s` if it holds none.
pub open spec fn first_index(s: Seq<u8>, b: u8) -> int {
    index_from(s, b, 0)
}

/// A decimal digit.
pub open spec fn is_digit(b: u8) -> bool {
    48 <= b <= 57
}

/// Every byte of `s` is a decimal digit.
pub open spec fn all_digits(s: Seq<u8>) -> bool {
    forall|i: int| 0 <= i < s.len() ==> is_digit(#[trigger] s[i])
}

/// The number that the digits of `s` write in base ten.
pub open spec fn decimal_value(s: Seq<u8>) -> nat
    decreases s.len(),
{
    if s.len() == 0 {
        0
    } else {
        (decimal_value(s.drop_last()) * 10 + (s.last() - 48)) as nat
    }
}

/// The number of seconds that `s` writes: one digit or more, and no more
/// than fits.
pub open spec fn number_of(s: Seq<u8>) -> Option<u64> {
    if s.len() > 0 && all_digits(s) && decimal_value(s) <= u64::MAX {
        Some(decimal_value(s) as u64)
    } else {
        None
    }
}

/// The digits of `n` in base ten, without leading zeros.
pub open spec fn decimal_digits(n: nat) -> Seq<u8>
    decreases n,
{
    if n < 10 {
        seq![(48 + n) as u8]
    } else {
        decimal_digits(n / 10).push((48 + n % 10) as u8)
    }
}

/// The seconds of a directive that takes a number.
pub open spec fn seconds_of(value: Option<Seq<u8>>) -> Result<u64, ParseError> {
    match value {
        None => Err(ParseError::MissingValue),
        Some(v) => match number_of(v) {
            Some(n) => Ok(n),
            None => Err(ParseError::InvalidNumber),
        },
    }
}

/// The directive that one item of a comma-separated header value holds.
pub open spec fn directive_of(token: Seq<u8>) -> Result<Directive, ParseError> {
    let t = trimmed(token);
    let e = first_index(t, 61);
    let name = t.take(e);
    let value = if e < t.len() {
        Some(t.skip(e + 1))
    } else {
        None
    };
    if name.len() == 0 {
        Err(ParseError::Malformed)
    } else if value is Some && first_index(value->0, 61) < value->0.len() {
        Err(ParseError::Malformed)
    } else if name == name_max_age() {
        match seconds_of(value) {
            Ok(n) => Ok(Directive::MaxAge(n)),
            Err(e) => Err(e),
        }
    } else if name == name_s_maxage() {
        match seconds_of(value) {
            Ok(n) => Ok(Directive::SMaxage(n)),
            Err(e) => Err(e),
        }
    } else if name == name_stale_while_revalidate() {
        match seconds_of(value) {
            Ok(n) => Ok(Directive::StaleWhileRevalidate(n)),
            Err(e) => Err(e),
        }
    } else if name == name_no_store() {
        if value is None {
            Ok(Directive::NoStore)
        } else {
            Err(ParseError::UnexpectedValue)
        }
    } else if name == name_must_revalidate() {
        if value is None {
            Ok(Directive::MustRevalidate)
        } else {
            Err(ParseError::UnexpectedValue)
        }
    } else if name == name_private() {
        if value is None {
            Ok(Directive::Private)
        } else {
            Err(ParseError::UnexpectedValue)
        }
    } else {
        Ok(Directive::Unrecognized)
    }
}

/// `c` after one more directive was read.
pub open spec fn applied(c: CacheControl, d: Directive) -> CacheControl {
    match d {
        Directive::MaxAge(n) => CacheControl { max_age: Some(n), ..c },
        Directive::SMaxage(n) => CacheControl { s_maxage: Some(n), ..c },
        Directive::StaleWhileRevalidate(n) => CacheControl { stale_while_revalidate: Some(n), ..c },
        Directive::NoStore => CacheControl { no_store: true, ..c },
        Directive::MustRevalidate => CacheControl { must_revalidate: true, ..c },
        Directive::Private => CacheControl { private: true, ..c },
        Directive::Unrecognized => c,
    }
}

/// `c` after the directives of one header value were read, from left to
/// right; the first directive that cannot be read decides the error.
pub open spec fn value_into(s: Seq<u8>, c: CacheControl) -> Result<CacheControl, ParseError>
    decreases s.len(),
{
    let j = first_index(s, 44);
    match directive_of(s.take(j)) {
        Err(e) => Err(e),
        Ok(d) => if 0 <= j < s.len() {
            value_into(s.skip(j + 1), applied(c, d))
        } else {
            Ok(applied(c, d))
        },
    }
}

/// `c` after the header values from position `k` on were read, in order.
pub open spec fn values_into(values: Seq<Seq<u8>>, k: int, c: CacheControl) -> Result<
    CacheControl,
    ParseError,
>
    decreases values.len() - k,
{
    if k < 0 || k >= values.len() {
        Ok(c)
    } else {
        match value_into(values[k], c) {
            Err(e) => Err(e),
            Ok(next) => values_into(values, k + 1, next),
        }
    }
}

/// What the headers `h` say, with `fallback` seconds of freshness where they
/// give no `max-age`. Without any `Cache-Control` header the response is not
/// to be stored.
pub open spec fn parsed_headers(h: HeaderSeq, fallback: Option<u64>) -> Result<
    CacheControl,
    ParseError,
> {
    let values = values_of(h, CACHE_CONTROL@);
    let start = CacheControl { max_age: fallback, ..CacheControl::empty() };
    match values_into(values, 0, start) {
        Err(e) => Err(e),
        Ok(c) => {
            let read = if values.len() == 0 {
                CacheControl { no_store: true, ..c }
            } else {
                c
            };
            match first_value_of(h, AGE@) {
                None => Ok(read),
                Some(a) => match number_of(trimmed(a)) {
                    Some(n) => Ok(CacheControl { age: n, ..read }),
                    None => Err(ParseError::InvalidAge),
                },
            }
        },
    }
}

/// The age that the headers of a response tell: the seconds of its first
/// `Age` header; zero where it has none, or one that cannot be read.
pub open spec fn told_age(h: HeaderSeq) -> u64 {
    match first_value_of(h, AGE@) {
        Some(a) => match number_of(trimmed(a)) {
            Some(n) => n,
            None => 0,
        },
        None => 0,
    }
}

/// `text` with one more item, after a comma where it is not the first.
pub open spec fn with_token(text: Seq<u8>, token: Seq<u8>) -> Seq<u8> {
    if text.len() == 0 {
        token
    } else {
        text + seq![44u8] + token
    }
}

/// `text` with the item `name=seconds` where `seconds` is given.
pub open spec fn with_seconds(text: Seq<u8>, name: Seq<u8>, seconds: Option<u64>) -> Seq<u8> {
    match seconds {
        Some(n) => with_token(text, name + seq![61u8] + decimal_digits(n as nat)),
        None => text,
    }
}

/// `text` with the item `name` where `set` holds.
pub open spec fn with_flag(text: Seq<u8>, name: Seq<u8>, set: bool) -> Seq<u8> {
    if set {
        with_token(text, name)
    } else {
        text
    }
}



/// The slice without the spaces and tabs at its two ends.
pub fn trim(s: &[u8]) -> (t: &[u8])
    ensures
        t@ == trimmed(s@),
{
    let mut a: usize = 0;
    while a < s.len() && (s[a] == 32 || s[a] == 9)
        invariant
            a <= s.len(),
            lead_from(s@, 0) == lead_from(s@, a as int),
        decreases s.len() - a,
    {
        a += 1;
    }
    let mut b: usize = s.len();
    while a < b && (s[b - 1] == 32 || s[b - 1] == 9)
        invariant
            a <= b <= s.len(),
            trail_to(s@, a as int, s@.len() as int) == trail_to(s@, a as int, b as int),
        decreases b,
    {
        b -= 1;
    }
    slice_subrange(s, a, b)
}

/// The first position of `b` in `s`; the length of `s` if it holds none.
pub fn find_byte(s: &[u8], b: u8) -> (i: usize)
    ensures
        i == first_index(s@, b),
        i <= s@.len(),
{
    let mut i: usize = 0;
    while i < s.len() && s[i] != b
        invariant
            i <= s.len(),
            first_index(s@, b) == index_from(s@, b, i as int),
        decreases s.len() - i,
    {
        i += 1;
    }
    i
}

/// The value of a longer run of digits is no smaller.
proof fn lemma_decimal_value_grows(s: Seq<u8>, k: int)
    requires
        all_digits(s),
        0 <= k <= s.len(),
    ensures
        decimal_value(s.take(k)) <= decimal_value(s),
    decreases s.len() - k,
{
    if k < s.len() {
        lemma_decimal_value_grows(s, k + 1);
        assert(s.take(k + 1).drop_last() =~= s.take(k));
        assert(is_digit(s[k]));
    } else {
        assert(s.take(k) =~= s);
    }
}

/// Reads a decimal number of seconds.
pub fn parse_number(s: &[u8]) -> (n: Option<u64>)
    ensures
        n == number_of(s@),
{
    if s.len() == 0 {
        return None;
    }
    let mut acc: u64 = 0;
    let mut i: usize = 0;
    assert(s@.take(0) =~= Seq::<u8>::empty());
    while i < s.len()
        invariant
            i <= s.len(),
            all_digits(s@.take(i as int)),
            acc == decimal_value(s@.take(i as int)),
        decreases s.len() - i,
    {
        let b = s[i];
        if b < 48 || b > 57 {
            assert(!is_digit(s@[i as int]));
            return None;
        }
        proof {
            assert(s@.take(i + 1).drop_last() =~= s@.take(i as int));
            assert(s@.take(i + 1).last() == b);
            assert forall|k: int| 0 <= k < i + 1 implies is_digit(#[trigger] s@.take(i + 1)[k]) by {
                if k < i {
                    assert(s@.take(i as int)[k] == s@.take(i + 1)[k]);
                }
            }
            if all_digits(s@) {
                lemma_decimal_value_grows(s@, i + 1);
            }
        }
        if acc > (u64::MAX - (b - 48) as u64) / 10 {
            return None;
        }
        acc = acc * 10 + (b - 48) as u64;
        i += 1;
    }
    assert(s@.take(i as int) =~= s@);
    Some(acc)
}

/// Reads one item of a comma-separated `Cache-Control` value.
pub fn parse_directive(token: &[u8]) -> (d: Result<Directive, ParseError>)
    ensures
        d == directive_of(token@),
{
    let t = trim(token);
    let e = find_byte(t, 61);
    let name = slice_subrange(t, 0, e);
    if e == 0 {
        return Err(ParseError::Malformed);
    }
    let value: Option<&[u8]> = if e < t.len() {
        Some(slice_subrange(t, e + 1, t.len()))
    } else {
        None
    };
    let ghost spec_value: Option<Seq<u8>> = if e < t@.len() {
        Some(t@.skip(e + 1))
    } else {
        None
    };
    assert(match value {
        Some(v) => spec_value == Some(v@),
        None => spec_value is None,
    });
    match value {
        Some(v) => {
            if find_byte(v, 61) < v.len() {
                return Err(ParseError::Malformed);
            }
        },
        None => {},
    }
    if bytes_equal(name, "max-age".as_bytes()) {
        match read_seconds(value) {
            Ok(n) => Ok(Directive::MaxAge(n)),
            Err(e) => Err(e),
        }
    } else if bytes_equal(name, "s-maxage".as_bytes()) {
        match read_seconds(value) {
            Ok(n) => Ok(Directive::SMaxage(n)),
            Err(e) => Err(e),
        }
    } else if bytes_equal(name, "stale-while-revalidate".as_bytes()) {
        match read_seconds(value) {
            Ok(n) => Ok(Directive::StaleWhileRevalidate(n)),
            Err(e) => Err(e),
        }
    } else if bytes_equal(name, "no-store".as_bytes()) {
        if value.is_none() {
            Ok(Directive::NoStore)
        } else {
            Err(ParseError::UnexpectedValue)
        }
    } else if bytes_equal(name, "must-revalidate".as_bytes()) {
        if value.is_none() {
            Ok(Directive::MustRevalidate)
        } else {
            Err(ParseError::UnexpectedValue)
        }
    } else if bytes_equal(name, "private".as_bytes()) {
        if value.is_none() {
            Ok(Directive::Private)
        } else {
            Err(ParseError::UnexpectedValue)
        }
    } else {
        Ok(Directive::Unrecognized)
    }
}

fn read_seconds(value: Option<&[u8]>) -> (n: Result<u64, ParseError>)
    ensures
        n == seconds_of(
            match value {
                Some(v) => Some(v@),
                None => None,
            },
        ),
{
    match value {
        None => Err(ParseError::MissingValue),
        Some(v) => match parse_number(v) {
            Some(n) => Ok(n),
            None => Err(ParseError::InvalidNumber),
        },
    }
}

/// Notes one directive in `c`.
pub fn apply(c: CacheControl, d: Directive) -> (next: CacheControl)
    ensures
        next == applied(c, d),
{
    let mut next = c;
    match d {
        Directive::MaxAge(n) => {
            next.max_age = Some(n);
        },
        Directive::SMaxage(n) => {
            next.s_maxage = Some(n);
        },
        Directive::StaleWhileRevalidate(n) => {
            next.stale_while_revalidate = Some(n);
        },
        Directive::NoStore => {
            next.no_store = true;
        },
        Directive::MustRevalidate => {
            next.must_revalidate = true;
        },
        Directive::Private => {
            next.private = true;
        },
        Directive::Unrecognized => {},
    }
    next
}

/// Reads the directives of one `Cache-Control` value into `c`.
pub fn parse_value(s: &[u8], c: CacheControl) -> (read: Result<CacheControl, ParseError>)
    ensures
        read == value_into(s@, c),
{
    let mut acc = c;
    let mut rest: &[u8] = s;
    loop
        invariant
            value_into(s@, c) == value_into(rest@, acc),
        decreases rest@.len(),
    {
        let j = find_byte(rest, 44);
        let token = slice_subrange(rest, 0, j);
        assert(token@ == rest@.take(j as int));
        match parse_directive(token) {
            Err(e) => {
                return Err(e);
            },
            Ok(d) => {
                acc = apply(acc, d);
                if j < rest.len() {
                    rest = slice_subrange(rest, j + 1, rest.len());
                } else {
                    return Ok(acc);
                }
            },
        }
    }
}

/// Appends the bytes of `s`.
pub fn put_bytes(out: &mut Vec<u8>, s: &[u8])
    ensures
        final(out)@ == old(out)@ + s@,
{
    let mut i: usize = 0;
    while i < s.len()
        invariant
            i <= s.len(),
            out@ == old(out)@ + s@.take(i as int),
        decreases s.len() - i,
    {
        out.push(s[i]);
        i += 1;
        assert(out@ =~= old(out)@ + s@.take(i as int));
    }
    assert(s@.take(i as int) =~= s@);
}

/// Appends `n` in decimal digits.
pub fn put_decimal(out: &mut Vec<u8>, n: u64)
    ensures
        final(out)@ == old(out)@ + decimal_digits(n as nat),
    decreases n,
{
    if n >= 10 {
        put_decimal(out, n / 10);
    }
    let digit: u8 = (n % 10) as u8;
    out.push(48 + digit);
    assert(out@ =~= old(out)@ + decimal_digits(n as nat));
}

fn put_separator(out: &mut Vec<u8>)
    ensures
        final(out)@ == if old(out)@.len() == 0 {
            old(out)@
        } else {
            old(out)@.push(44u8)
        },
{
    if out.len() > 0 {
        out.push(44);
    }
}

fn put_seconds(out: &mut Vec<u8>, name: &str, seconds: Option<u64>)
    ensures
        final(out)@ == with_seconds(old(out)@, bytes_of(name@), seconds),
{
    match seconds {
        Some(n) => {
            put_separator(out);
            put_bytes(out, name.as_bytes());
            out.push(61);
            put_decimal(out, n);
            assert(out@ =~= with_seconds(old(out)@, bytes_of(name@), seconds));
        },
        None => {},
    }
}

fn put_flag(out: &mut Vec<u8>, name: &str, set: bool)
    ensures
        final(out)@ == with_flag(old(out)@, bytes_of(name@), set),
{
    if set {
        put_separator(out);
        put_bytes(out, name.as_bytes());
        assert(out@ =~= with_flag(old(out)@, bytes_of(name@), set));
    }
}

fn less_or_zero(a: u64, b: u64) -> (d: u64)
    ensures
        d == minus(a, b),
{
    if a >= b {
        a - b
    } else {
        0
    }
}

fn sum_or_most(a: u64, b: u64) -> (s: u64)
    ensures
        s == plus(a, b),
{
    if a > u64::MAX - b {
        u64::MAX
    } else {
        a + b
    }
}

fn smaller(a: Option<u64>, b: Option<u64>) -> (m: Option<u64>)
    ensures
        m == least(a, b),
{
    match (a, b) {
        (None, None) => None,
        (Some(x), None) => Some(x),
        (None, Some(y)) => Some(y),
        (Some(x), Some(y)) => Some(if x <= y { x } else { y }),
    }
}

/// The age that the headers of a response tell.
pub fn age_told(headers: &HeaderList) -> (told: u64)
    ensures
        told == told_age(headers@),
{
    let ages = headers.values(AGE);
    if ages.len() > 0 {
        assert(ages@[0]@ == values_of(headers@, AGE@)[0]);
        match parse_number(trim(ages[0].as_slice())) {
            Some(n) => n,
            None => 0,
        }
    } else {
        0
    }
}

impl Default for CacheControl {
    /// No directive at all, and no age.
    fn default() -> (c: CacheControl)
        ensures
            c == CacheControl::empty(),
    {
        CacheControl {
            no_store: false,
            private: false,
            must_revalidate: false,
            max_age: None,
            s_maxage: None,
            stale_while_revalidate: None,
            age: 0,
        }
    }
}

impl CacheControl {
    /// No directive at all, and no age.
    pub open spec fn empty() -> CacheControl {
        CacheControl {
            no_store: false,
            private: false,
            must_revalidate: false,
            max_age: None,
            s_maxage: None,
            stale_while_revalidate: None,
            age: 0,
        }
    }

    /// `no-store` and nothing else.
    pub open spec fn spec_no_store() -> CacheControl {
        CacheControl { no_store: true, ..CacheControl::empty() }
    }

    /// The freshness lifetime: `s_maxage` where present, else `max_age`.
    pub open spec fn effective_max_age(self) -> Option<u64> {
        match self.s_maxage {
            Some(s) => Some(s),
            None => self.max_age,
        }
    }

    /// The seconds of freshness that are left: the lifetime less the age.
    pub open spec fn spec_ttl(&self) -> Option<u64> {
        match self.effective_max_age() {
            Some(m) => Some(minus(m, self.age)),
            None => None,
        }
    }

    pub open spec fn spec_should_store(&self) -> bool {
        !self.no_store
    }

    /// Fresh: the age is below the lifetime. Without a lifetime nothing
    /// speaks against the entry, and the store's own expiry bounds its use.
    pub open spec fn spec_can_use(&self) -> bool {
        match self.effective_max_age() {
            Some(m) => self.age < m,
            None => true,
        }
    }

    /// The same directives seen `seconds` later.
    pub open spec fn spec_aged(&self, seconds: u64) -> CacheControl {
        CacheControl { age: plus(self.age, seconds), ..*self }
    }

    /// The directives as they are written for a reader who is told an age of
    /// `told` seconds beside them: the lifetimes are less the seconds of the
    /// age that the reader is not told, so that what the reader finds left
    /// of them is what is left of them.
    pub open spec fn beside(self, told: u64) -> CacheControl {
        CacheControl {
            max_age: match self.max_age {
                Some(m) => Some(minus(m, minus(self.age, told))),
                None => None,
            },
            s_maxage: match self.s_maxage {
                Some(m) => Some(minus(m, minus(self.age, told))),
                None => None,
            },
            age: 0,
            ..self
        }
    }

    /// The directives as a reader of the written header sees them who is
    /// told no age: the lifetimes are what is left of them, and the age
    /// starts anew.
    pub open spec fn rebased(self) -> CacheControl {
        CacheControl {
            max_age: match self.max_age {
                Some(m) => Some(minus(m, self.age)),
                None => None,
            },
            s_maxage: match self.s_maxage {
                Some(m) => Some(minus(m, self.age)),
                None => None,
            },
            age: 0,
            ..self
        }
    }

    /// The two merged: `no-store` on either side leaves `no-store` alone;
    /// otherwise the flags are or-ed, the age is the larger one, the
    /// freshness left is the smaller one, and so is `stale-while-revalidate`.
    pub open spec fn spec_merge(&self, other: &CacheControl) -> CacheControl {
        if self.no_store || other.no_store {
            CacheControl::spec_no_store()
        } else {
            let age = if self.age >= other.age {
                self.age
            } else {
                other.age
            };
            CacheControl {
                no_store: false,
                private: self.private || other.private,
                must_revalidate: self.must_revalidate || other.must_revalidate,
                max_age: match least(self.spec_ttl(), other.spec_ttl()) {
                    Some(left) => Some(plus(left, age)),
                    None => None,
                },
                s_maxage: None,
                stale_while_revalidate: least(
                    self.stale_while_revalidate,
                    other.stale_while_revalidate,
                ),
                age,
            }
        }
    }

    /// There is no directive to write.
    pub open spec fn is_silent(self) -> bool {
        &&& !self.no_store
        &&& !self.private
        &&& !self.must_revalidate
        &&& self.max_age is None
        &&& self.s_maxage is None
        &&& self.stale_while_revalidate is None
    }

    /// The value of the `Cache-Control` header that says what `self` holds:
    /// the directives in a fixed order, separated by commas, the lifetimes
    /// written as the seconds that are left of them.
    pub open spec fn rendered(self) -> Seq<u8> {
        let r = self.rebased();
        let t1 = with_seconds(Seq::empty(), name_max_age(), r.max_age);
        let t2 = with_seconds(t1, name_s_maxage(), r.s_maxage);
        let t3 = with_seconds(t2, name_stale_while_revalidate(), r.stale_while_revalidate);
        let t4 = with_flag(t3, name_no_store(), r.no_store);
        let t5 = with_flag(t4, name_must_revalidate(), r.must_revalidate);
        with_flag(t5, name_private(), r.private)
    }

    /// The value of the `Cache-Control` header that says what `self` holds
    /// to a reader who is told an age of `told` seconds beside it.
    pub open spec fn rendered_beside(self, told: u64) -> Seq<u8> {
        let r = self.beside(told);
        let t1 = with_seconds(Seq::empty(), name_max_age(), r.max_age);
        let t2 = with_seconds(t1, name_s_maxage(), r.s_maxage);
        let t3 = with_seconds(t2, name_stale_while_revalidate(), r.stale_while_revalidate);
        let t4 = with_flag(t3, name_no_store(), r.no_store);
        let t5 = with_flag(t4, name_must_revalidate(), r.must_revalidate);
        with_flag(t5, name_private(), r.private)
    }

    /// What `to_headers` makes of a header list: the one `Cache-Control`
    /// header that says what `self` holds, or none where there is nothing to
    /// say. The other headers stay as they are, the `Age` header among them:
    /// the lifetimes are written for a reader who is told that age.
    pub open spec fn written(self, h: HeaderSeq) -> HeaderSeq {
        if self.is_silent() {
            without_name(h, CACHE_CONTROL@)
        } else {
            with_header(h, CACHE_CONTROL@, self.rendered_beside(told_age(h)))
        }
    }

    /// `no-store` and nothing else.
    #[verifier::when_used_as_spec(spec_no_store)]
    pub fn no_store() -> (c: CacheControl)
        ensures
            c == CacheControl::spec_no_store(),
    {
        CacheControl {
            no_store: true,
            private: false,
            must_revalidate: false,
            max_age: None,
            s_maxage: None,
            stale_while_revalidate: None,
            age: 0,
        }
    }

    /// Whether the response is for one user only.
    pub fn private(&self) -> (yes: bool)
        ensures
            yes == self.private,
    {
        self.private
    }

    /// The seconds of freshness that are left, where a lifetime is known.
    #[verifier::when_used_as_spec(spec_ttl)]
    pub fn ttl(&self) -> (left: Option<u64>)
        ensures
            left == self.spec_ttl(),
    {
        match self.s_maxage {
            Some(s) => Some(less_or_zero(s, self.age)),
            None => match self.max_age {
                Some(m) => Some(less_or_zero(m, self.age)),
                None => None,
            },
        }
    }

    /// Whether a response with these directives may be stored.
    #[verifier::when_used_as_spec(spec_should_store)]
    pub fn should_store(&self) -> (yes: bool)
        ensures
            yes == self.spec_should_store(),
            yes == !self.no_store,
    {
        !self.no_store
    }

    /// Whether a stored response with these directives is still fresh.
    #[verifier::when_used_as_spec(spec_can_use)]
    pub fn can_use(&self) -> (yes: bool)
        ensures
            yes == self.spec_can_use(),
    {
        match self.s_maxage {
            Some(s) => self.age < s,
            None => match self.max_age {
                Some(m) => self.age < m,
                None => true,
            },
        }
    }

    /// The same directives seen `seconds` later.
    #[verifier::when_used_as_spec(spec_aged)]
    pub fn aged(&self, seconds: u64) -> (later: CacheControl)
        ensures
            later == self.spec_aged(seconds),
    {
        let mut later = *self;
        later.age = sum_or_most(self.age, seconds);
        later
    }

    /// Merges the directives of two responses into those of the response
    /// that is made of both.
    #[verifier::when_used_as_spec(spec_merge)]
    pub fn merge(&self, other: &CacheControl) -> (merged: CacheControl)
        ensures
            merged == self.spec_merge(other),
    {
        if self.no_store || other.no_store {
            return CacheControl::no_store();
        }
        let age = if self.age >= other.age {
            self.age
        } else {
            other.age
        };
        let max_age = match smaller(self.ttl(), other.ttl()) {
            Some(left) => Some(sum_or_most(left, age)),
            None => None,
        };
        CacheControl {
            no_store: false,
            private: self.private || other.private,
            must_revalidate: self.must_revalidate || other.must_revalidate,
            max_age,
            s_maxage: None,
            stale_while_revalidate: smaller(
                self.stale_while_revalidate,
                other.stale_while_revalidate,
            ),
            age,
        }
    }

    /// Reads the `Cache-Control` and `Age` headers of a response, and says
    /// which header could not be read where one could not.
    pub fn parse(headers: &HeaderList, fallback_ttl: Option<u64>) -> (read: Result<
        CacheControl,
        ParseError,
    >)
        ensures
            read == parsed_headers(headers@, fallback_ttl),
    {
        let values = headers.values(CACHE_CONTROL);
        let ghost spec_values = values_of(headers@, CACHE_CONTROL@);
        let mut c = CacheControl::default();
        c.max_age = fallback_ttl;
        let ghost start = c;
        let mut k: usize = 0;
        while k < values.len()
            invariant
                k <= values@.len(),
                values@.len() == spec_values.len(),
                forall|i: int| 0 <= i < values@.len() ==> (#[trigger] values@[i])@ == spec_values[i],
                values_into(spec_values, 0, start) == values_into(spec_values, k as int, c),
                spec_values == values_of(headers@, CACHE_CONTROL@),
                start == (CacheControl { max_age: fallback_ttl, ..CacheControl::empty() }),
            decreases values@.len() - k,
        {
            assert(values@[k as int]@ == spec_values[k as int]);
            match parse_value(values[k].as_slice(), c) {
                Err(e) => {
                    return Err(e);
                },
                Ok(next) => {
                    c = next;
                },
            }
            k += 1;
        }
        if values.len() == 0 {
            c.no_store = true;
        }
        let ages = headers.values(AGE);
        if ages.len() > 0 {
            assert(ages@[0]@ == values_of(headers@, AGE@)[0]);
            match parse_number(trim(ages[0].as_slice())) {
                Some(n) => {
                    c.age = n;
                },
                None => {
                    return Err(ParseError::InvalidAge);
                },
            }
        }
        Ok(c)
    }

    /// Reads the `Cache-Control` and `Age` headers of a response. Headers
    /// that cannot be read count as `no-store`.
    pub fn from_headers(headers: &HeaderList, fallback_ttl: Option<u64>) -> (c: CacheControl)
        ensures
            c == match parsed_headers(headers@, fallback_ttl) {
                Ok(read) => read,
                Err(_) => CacheControl::spec_no_store(),
            },
    {
        match CacheControl::parse(headers, fallback_ttl) {
            Ok(read) => read,
            Err(_) => CacheControl::no_store(),
        }
    }

    /// The value of the `Cache-Control` header that says what `self` holds
    /// to a reader who is told no age beside it.
    pub fn header_value(&self) -> (value: Vec<u8>)
        ensures
            value@ == self.rendered(),
            value@ == self.rendered_beside(0),
    {
        self.header_value_beside(0)
    }

    /// The value of the `Cache-Control` header that says what `self` holds
    /// to a reader who is told an age of `told` seconds beside it.
    pub fn header_value_beside(&self, told: u64) -> (value: Vec<u8>)
        ensures
            value@ == self.rendered_beside(told),
    {
        let mut out: Vec<u8> = Vec::new();
        let untold = less_or_zero(self.age, told);
        let max_age = match self.max_age {
            Some(m) => Some(less_or_zero(m, untold)),
            None => None,
        };
        let s_maxage = match self.s_maxage {
            Some(m) => Some(less_or_zero(m, untold)),
            None => None,
        };
        put_seconds(&mut out, "max-age", max_age);
        put_seconds(&mut out, "s-maxage", s_maxage);
        put_seconds(&mut out, "stale-while-revalidate", self.stale_while_revalidate);
        put_flag(&mut out, "no-store", self.no_store);
        put_flag(&mut out, "must-revalidate", self.must_revalidate);
        put_flag(&mut out, "private", self.private);
        out
    }

    /// Whether there is no directive to write.
    pub fn silent(&self) -> (yes: bool)
        ensures
            yes == self.is_silent(),
    {
        !self.no_store && !self.private && !self.must_revalidate && self.max_age.is_none()
            && self.s_maxage.is_none() && self.stale_while_revalidate.is_none()
    }

    /// Writes the directives into a response's headers, in place of any
    /// `Cache-Control` header that is there. The other headers stay; where
    /// an `Age` header is among them, the lifetimes are written so that a
    /// reader who takes that age off finds what is left of them.
    pub fn to_headers(&self, headers: &mut HeaderList)
        ensures
            final(headers)@ == self.written(old(headers)@),
    {
        if self.silent() {
            headers.remove(CACHE_CONTROL);
        } else {
            let told = age_told(headers);
            headers.set(String::from_str(CACHE_CONTROL), self.header_value_beside(told));
        }
    }
}

/// Merging does not depend on the order of its two arguments.
pub proof fn lemma_merge_commutative(a: CacheControl, b: CacheControl)
    ensures
        a.spec_merge(&b) == b.spec_merge(&a),
{
}

/// Merging three sets of directives gives the same whichever two are merged
/// first.
pub proof fn lemma_merge_associative(a: CacheControl, b: CacheControl, c: CacheControl)
    ensures
        a.spec_merge(&b).spec_merge(&c) == a.spec_merge(&b.spec_merge(&c)),
{
}

/// Merged with anything, `no-store` stays `no-store` and nothing else.
pub proof fn lemma_merge_no_store(x: CacheControl)
    ensures
        CacheControl::spec_no_store().spec_merge(&x) == CacheControl::spec_no_store(),
        x.spec_merge(&CacheControl::spec_no_store()) == CacheControl::spec_no_store(),
{
}

/// What a merge leaves of the freshness is the smaller of what the two had
/// left, as far as the sum with the larger age still fits; the merge is
/// private or not to be stored as soon as one of the two is.
pub proof fn lemma_merge_keeps_least(a: CacheControl, b: CacheControl)
    requires
        !a.no_store,
        !b.no_store,
    ensures
        a.spec_merge(&b).private == (a.private || b.private),
        a.spec_merge(&b).age >= a.age,
        a.spec_merge(&b).age >= b.age,
        match least(a.spec_ttl(), b.spec_ttl()) {
            None => a.spec_merge(&b).spec_ttl() is None,
            Some(left) => a.spec_merge(&b).spec_ttl() == Some(
                if left + a.spec_merge(&b).age <= u64::MAX {
                    left
                } else {
                    minus(u64::MAX, a.spec_merge(&b).age)
                },
            ),
        },
{
}

} // verus!
