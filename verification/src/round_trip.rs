//! Reading back what was written: the `Cache-Control` value that the cache
//! writes for a set of directives is read as those directives.

use crate::cache_control::all_digits;
use crate::cache_control::applied;
use crate::cache_control::decimal_digits;
use crate::cache_control::decimal_value;
use crate::cache_control::directive_of;
use crate::cache_control::first_index;
use crate::cache_control::index_from;
use crate::cache_control::is_digit;
use crate::cache_control::is_space;
use crate::cache_control::lead_from;
use crate::cache_control::name_max_age;
use crate::cache_control::name_must_revalidate;
use crate::cache_control::name_no_store;
use crate::cache_control::name_private;
use crate::cache_control::name_s_maxage;
use crate::cache_control::name_stale_while_revalidate;
use crate::cache_control::number_of;
use crate::cache_control::parsed_headers;
use crate::cache_control::told_age;
use crate::cache_control::trail_to;
use crate::cache_control::trimmed;
use crate::cache_control::value_into;
use crate::cache_control::values_into;
use crate::cache_control::with_flag;
use crate::cache_control::with_seconds;
use crate::cache_control::with_token;
use crate::cache_control::CacheControl;
use crate::cache_control::Directive;
use crate::cache_control::ParseError;
use crate::headers::first_value_of;
use crate::headers::same_but_case;
use crate::headers::same_name;
use crate::headers::values_of;
use crate::headers::with_header;
use crate::headers::without_name;
use crate::headers::HeaderSeq;
use crate::headers::AGE;
use crate::headers::CACHE_CONTROL;
use crate::text::bytes_of;
use vstd::prelude::*;
use vstd::utf8::is_ascii_chars;
use vstd::utf8::is_ascii_chars_encode_utf8;

verus! {

/// An item without comma, `=`, space or tab, and not empty.
pub open spec fn plain(k: Seq<u8>) -> bool {
    k.len() > 0 && forall|i: int|
        0 <= i < k.len() ==> (#[trigger] k[i]) != 44 && k[i] != 61 && !is_space(k[i])
}

/// The bytes of the names of the directives.
proof fn lemma_name_bytes()
    ensures
        name_max_age() == seq![109u8, 97, 120, 45, 97, 103, 101],
        name_s_maxage() == seq![115u8, 45, 109, 97, 120, 97, 103, 101],
        name_stale_while_revalidate() == seq![
            115u8,
            116,
            97,
            108,
            101,
            45,
            119,
            104,
            105,
            108,
            101,
            45,
            114,
            101,
            118,
            97,
            108,
            105,
            100,
            97,
            116,
            101,
        ],
        name_no_store() == seq![110u8, 111, 45, 115, 116, 111, 114, 101],
        name_must_revalidate() == seq![
            109u8,
            117,
            115,
            116,
            45,
            114,
            101,
            118,
            97,
            108,
            105,
            100,
            97,
            116,
            101,
        ],
        name_private() == seq![112u8, 114, 105, 118, 97, 116, 101],
{
    reveal_strlit("max-age");
    reveal_strlit("s-maxage");
    reveal_strlit("stale-while-revalidate");
    reveal_strlit("no-store");
    reveal_strlit("must-revalidate");
    reveal_strlit("private");
    assert(is_ascii_chars("max-age"@));
    assert(is_ascii_chars("s-maxage"@));
    assert(is_ascii_chars("stale-while-revalidate"@));
    assert(is_ascii_chars("no-store"@));
    assert(is_ascii_chars("must-revalidate"@));
    assert(is_ascii_chars("private"@));
    is_ascii_chars_encode_utf8("max-age"@);
    is_ascii_chars_encode_utf8("s-maxage"@);
    is_ascii_chars_encode_utf8("stale-while-revalidate"@);
    is_ascii_chars_encode_utf8("no-store"@);
    is_ascii_chars_encode_utf8("must-revalidate"@);
    is_ascii_chars_encode_utf8("private"@);
    assert(name_max_age() =~= seq![109u8, 97, 120, 45, 97, 103, 101]);
    assert(name_s_maxage() =~= seq![115u8, 45, 109, 97, 120, 97, 103, 101]);
    assert(name_stale_while_revalidate() =~= seq![
        115u8,
        116,
        97,
        108,
        101,
        45,
        119,
        104,
        105,
        108,
        101,
        45,
        114,
        101,
        118,
        97,
        108,
        105,
        100,
        97,
        116,
        101,
    ]);
    assert(name_no_store() =~= seq![110u8, 111, 45, 115, 116, 111, 114, 101]);
    assert(name_must_revalidate() =~= seq![
        109u8,
        117,
        115,
        116,
        45,
        114,
        101,
        118,
        97,
        108,
        105,
        100,
        97,
        116,
        101,
    ]);
    assert(name_private() =~= seq![112u8, 114, 105, 118, 97, 116, 101]);
}

/// A byte that does not occur from `i` on is not found.
proof fn lemma_index_absent(s: Seq<u8>, x: u8, i: int)
    requires
        0 <= i,
        forall|k: int| i <= k < s.len() ==> #[trigger] s[k] != x,
    ensures
        index_from(s, x, i) == s.len(),
    decreases s.len() - i,
{
    if i < s.len() {
        lemma_index_absent(s, x, i + 1);
    }
}

/// What is found is in range and holds the byte; what comes before does not.
proof fn lemma_index_found(s: Seq<u8>, x: u8, i: int)
    requires
        0 <= i <= s.len(),
    ensures
        i <= index_from(s, x, i) <= s.len(),
        index_from(s, x, i) < s.len() ==> s[index_from(s, x, i)] == x,
        forall|k: int| i <= k < index_from(s, x, i) ==> #[trigger] s[k] != x,
    decreases s.len() - i,
{
    if i < s.len() && s[i] != x {
        lemma_index_found(s, x, i + 1);
    }
}

/// A search in the second of two joined texts.
proof fn lemma_index_shifted(a: Seq<u8>, b: Seq<u8>, x: u8, m: int)
    requires
        0 <= m <= b.len(),
    ensures
        index_from(a + b, x, a.len() + m) == a.len() + index_from(b, x, m),
    decreases b.len() - m,
{
    if m < b.len() {
        assert((a + b)[a.len() + m] == b[m]);
        if b[m] != x {
            lemma_index_shifted(a, b, x, m + 1);
        }
    }
}

/// A search that finds nothing in the first of two joined texts goes on in
/// the second.
proof fn lemma_index_after(a: Seq<u8>, b: Seq<u8>, x: u8, i: int)
    requires
        0 <= i <= a.len(),
        forall|k: int| i <= k < a.len() ==> #[trigger] a[k] != x,
    ensures
        index_from(a + b, x, i) == a.len() + index_from(b, x, 0),
    decreases a.len() - i,
{
    if i < a.len() {
        assert((a + b)[i] == a[i]);
        lemma_index_after(a, b, x, i + 1);
    } else {
        lemma_index_shifted(a, b, x, 0);
    }
}

/// A search that finds the byte in the first of two joined texts finds it
/// there in the joined text.
proof fn lemma_index_in_first(a: Seq<u8>, b: Seq<u8>, x: u8, i: int)
    requires
        0 <= i <= a.len(),
        index_from(a, x, i) < a.len(),
    ensures
        index_from(a + b, x, i) == index_from(a, x, i),
    decreases a.len() - i,
{
    if i < a.len() {
        assert((a + b)[i] == a[i]);
        if a[i] != x {
            lemma_index_in_first(a, b, x, i + 1);
        }
    }
}

/// A text that neither begins nor ends with a space is trimmed already.
proof fn lemma_trimmed_already(t: Seq<u8>)
    requires
        t.len() > 0,
        !is_space(t[0]),
        !is_space(t.last()),
    ensures
        trimmed(t) == t,
{
    assert(lead_from(t, 0) == 0);
    assert(trail_to(t, 0, t.len() as int) == t.len());
    assert(t.subrange(0, t.len() as int) =~= t);
}

/// The digits of a number are digits, and write that number.
proof fn lemma_decimal_digits(n: nat)
    ensures
        decimal_digits(n).len() > 0,
        all_digits(decimal_digits(n)),
        decimal_value(decimal_digits(n)) == n,
    decreases n,
{
    if n < 10 {
        let d = decimal_digits(n);
        assert(d.drop_last() =~= Seq::<u8>::empty());
        assert(decimal_value(d.drop_last()) == 0);
    } else {
        lemma_decimal_digits(n / 10);
        let d = decimal_digits(n);
        assert(d.drop_last() =~= decimal_digits(n / 10));
        assert forall|i: int| 0 <= i < d.len() implies is_digit(#[trigger] d[i]) by {
            if i < d.len() - 1 {
                assert(d[i] == decimal_digits(n / 10)[i]);
            }
        }
    }
}

/// The item `name=seconds` is read as the name and the seconds.
proof fn lemma_seconds_item(name: Seq<u8>, n: u64)
    requires
        plain(name),
    ensures
        ({
            let item = name + seq![61u8] + decimal_digits(n as nat);
            &&& item.len() > 0
            &&& forall|i: int| 0 <= i < item.len() ==> #[trigger] item[i] != 44
            &&& trimmed(item) == item
            &&& first_index(item, 61) == name.len()
            &&& item.take(name.len() as int) == name
            &&& item.skip(name.len() as int + 1) == decimal_digits(n as nat)
            &&& first_index(decimal_digits(n as nat), 61) == decimal_digits(n as nat).len()
            &&& number_of(decimal_digits(n as nat)) == Some(n)
        }),
{
    let digits = decimal_digits(n as nat);
    let item = name + seq![61u8] + digits;
    lemma_decimal_digits(n as nat);
    assert forall|i: int| 0 <= i < item.len() implies #[trigger] item[i] != 44 by {
        if i < name.len() {
            assert(item[i] == name[i]);
        } else if i > name.len() {
            assert(item[i] == digits[i - name.len() - 1]);
            assert(is_digit(digits[i - name.len() - 1]));
        }
    }
    assert(item[0] == name[0]);
    assert(item.last() == digits.last());
    assert(is_digit(digits[digits.len() - 1]));
    lemma_trimmed_already(item);
    assert(item =~= name + (seq![61u8] + digits));
    lemma_index_after(name, seq![61u8] + digits, 61, 0);
    assert((seq![61u8] + digits)[0] == 61u8);
    assert(item.take(name.len() as int) =~= name);
    assert(item.skip(name.len() as int + 1) =~= digits);
    assert forall|k: int| 0 <= k < digits.len() implies #[trigger] digits[k] != 61 by {
        assert(is_digit(digits[k]));
    }
    lemma_index_absent(digits, 61, 0);
}

/// The item `name` is read as the name, without a value.
proof fn lemma_flag_item(name: Seq<u8>)
    requires
        plain(name),
    ensures
        trimmed(name) == name,
        first_index(name, 61) == name.len(),
        name.take(name.len() as int) == name,
{
    assert(!is_space(name[0]));
    assert(!is_space(name[name.len() - 1]));
    lemma_trimmed_already(name);
    lemma_index_absent(name, 61, 0);
    assert(name.take(name.len() as int) =~= name);
}

/// The names of the directives are plain.
proof fn lemma_names_plain()
    ensures
        plain(name_max_age()),
        plain(name_s_maxage()),
        plain(name_stale_while_revalidate()),
        plain(name_no_store()),
        plain(name_must_revalidate()),
        plain(name_private()),
{
    lemma_name_bytes();
}

/// What each written item is read as.
proof fn lemma_items_read(n: u64)
    ensures
        directive_of(name_max_age() + seq![61u8] + decimal_digits(n as nat)) == Ok::<
            Directive,
            ParseError,
        >(Directive::MaxAge(n)),
        directive_of(name_s_maxage() + seq![61u8] + decimal_digits(n as nat)) == Ok::<
            Directive,
            ParseError,
        >(Directive::SMaxage(n)),
        directive_of(name_stale_while_revalidate() + seq![61u8] + decimal_digits(n as nat)) == Ok::<
            Directive,
            ParseError,
        >(Directive::StaleWhileRevalidate(n)),
        directive_of(name_no_store()) == Ok::<Directive, ParseError>(Directive::NoStore),
        directive_of(name_must_revalidate()) == Ok::<Directive, ParseError>(
            Directive::MustRevalidate,
        ),
        directive_of(name_private()) == Ok::<Directive, ParseError>(Directive::Private),
{
    lemma_name_bytes();
    lemma_names_plain();
    lemma_seconds_item(name_max_age(), n);
    lemma_seconds_item(name_s_maxage(), n);
    lemma_seconds_item(name_stale_while_revalidate(), n);
    lemma_flag_item(name_no_store());
    lemma_flag_item(name_must_revalidate());
    lemma_flag_item(name_private());
    assert(name_s_maxage() != name_max_age());
    assert(name_stale_while_revalidate() != name_max_age());
    assert(name_stale_while_revalidate() != name_s_maxage());
    assert(name_no_store()[0] != name_s_maxage()[0]);
    assert(name_private()[0] != name_max_age()[0]);
}

/// A value without any item cannot be read.
proof fn lemma_empty_value_fails(c: CacheControl)
    ensures
        value_into(Seq::<u8>::empty(), c) is Err,
{
    let s = Seq::<u8>::empty();
    assert(first_index(s, 44) == 0);
    assert(s.take(0) =~= s);
    assert(lead_from(s, 0) == 0);
    assert(trail_to(s, 0, 0) == 0);
    assert(trimmed(s) =~= s);
    assert(first_index(s, 61) == 0);
    assert(s.take(0).len() == 0);
}

/// An item without a comma is read on its own.
proof fn lemma_single_item(k: Seq<u8>, c: CacheControl)
    requires
        forall|i: int| 0 <= i < k.len() ==> #[trigger] k[i] != 44,
    ensures
        value_into(k, c) == match directive_of(k) {
            Ok(d) => Ok::<CacheControl, ParseError>(applied(c, d)),
            Err(e) => Err(e),
        },
{
    lemma_index_absent(k, 44, 0);
    assert(k.take(k.len() as int) =~= k);
}

/// A value that was read, with one more item after a comma, is read as
/// before, and then the item.
proof fn lemma_one_more_item(t: Seq<u8>, k: Seq<u8>, c: CacheControl, read: CacheControl)
    requires
        t.len() > 0,
        value_into(t, c) == Ok::<CacheControl, ParseError>(read),
        forall|i: int| 0 <= i < k.len() ==> #[trigger] k[i] != 44,
    ensures
        value_into(t + seq![44u8] + k, c) == match directive_of(k) {
            Ok(d) => Ok::<CacheControl, ParseError>(applied(read, d)),
            Err(e) => Err(e),
        },
    decreases t.len(),
{
    let s = t + seq![44u8] + k;
    let j = first_index(t, 44);
    lemma_index_found(t, 44, 0);
    assert(s =~= t + (seq![44u8] + k));
    if j < t.len() {
        lemma_index_in_first(t, seq![44u8] + k, 44, 0);
        assert(first_index(s, 44) == j);
        assert(s.take(j) =~= t.take(j));
        let rest = t.skip(j + 1);
        assert(s.skip(j + 1) =~= rest + seq![44u8] + k);
        let d0 = directive_of(t.take(j));
        assert(d0 is Ok);
        let next = applied(c, d0->Ok_0);
        assert(value_into(t, c) == value_into(rest, next));
        if rest.len() == 0 {
            assert(rest =~= Seq::<u8>::empty());
            lemma_empty_value_fails(next);
        } else {
            lemma_one_more_item(rest, k, next, read);
        }
    } else {
        lemma_index_after(t, seq![44u8] + k, 44, 0);
        assert((seq![44u8] + k)[0] == 44u8);
        assert(first_index(s, 44) == t.len());
        assert(s.take(t.len() as int) =~= t);
        assert(t.take(t.len() as int) =~= t);
        assert(s.skip(t.len() as int + 1) =~= k);
        lemma_single_item(k, read);
    }
}

/// What was read of a text so far: nothing yet of an empty text.
pub open spec fn read_so_far(t: Seq<u8>, start: CacheControl, state: CacheControl) -> bool {
    if t.len() == 0 {
        state == start
    } else {
        value_into(t, start) == Ok::<CacheControl, ParseError>(state)
    }
}

/// One more item is read after what was read so far.
proof fn lemma_item_added(
    t: Seq<u8>,
    k: Seq<u8>,
    start: CacheControl,
    state: CacheControl,
    d: Directive,
)
    requires
        read_so_far(t, start, state),
        k.len() > 0,
        forall|i: int| 0 <= i < k.len() ==> #[trigger] k[i] != 44,
        directive_of(k) == Ok::<Directive, ParseError>(d),
    ensures
        read_so_far(with_token(t, k), start, applied(state, d)),
        with_token(t, k).len() > 0,
{
    if t.len() == 0 {
        lemma_single_item(k, start);
    } else {
        lemma_one_more_item(t, k, start, state);
    }
}

/// One more item of seconds is read after what was read so far.
proof fn lemma_seconds_added(
    t: Seq<u8>,
    name: Seq<u8>,
    seconds: Option<u64>,
    start: CacheControl,
    state: CacheControl,
    d: Directive,
)
    requires
        read_so_far(t, start, state),
        plain(name),
        seconds is Some ==> directive_of(name + seq![61u8] + decimal_digits(seconds->0 as nat))
            == Ok::<Directive, ParseError>(d),
    ensures
        read_so_far(
            with_seconds(t, name, seconds),
            start,
            if seconds is Some {
                applied(state, d)
            } else {
                state
            },
        ),
        seconds is Some ==> with_seconds(t, name, seconds).len() > 0,
        seconds is None ==> with_seconds(t, name, seconds) == t,
{
    if seconds is Some {
        let n = seconds->0;
        lemma_seconds_item(name, n);
        lemma_item_added(t, name + seq![61u8] + decimal_digits(n as nat), start, state, d);
    }
}

/// One more flag is read after what was read so far.
proof fn lemma_flag_added(
    t: Seq<u8>,
    name: Seq<u8>,
    set: bool,
    start: CacheControl,
    state: CacheControl,
    d: Directive,
)
    requires
        read_so_far(t, start, state),
        plain(name),
        directive_of(name) == Ok::<Directive, ParseError>(d),
    ensures
        read_so_far(
            with_flag(t, name, set),
            start,
            if set {
                applied(state, d)
            } else {
                state
            },
        ),
        set ==> with_flag(t, name, set).len() > 0,
        !set ==> with_flag(t, name, set) == t,
{
    if set {
        lemma_item_added(t, name, start, state, d);
    }
}

/// The value that is written for a set of directives, for a reader who is
/// told an age beside it, is read as these directives as they were written
/// for that reader.
pub proof fn lemma_rendered_beside_reads_back(c: CacheControl, told: u64)
    requires
        !c.is_silent(),
    ensures
        value_into(c.rendered_beside(told), CacheControl::empty()) == Ok::<CacheControl, ParseError>(
            c.beside(told),
        ),
        c.rendered_beside(told).len() > 0,
{
    let r = c.beside(told);
    let start = CacheControl::empty();
    lemma_names_plain();
    let seconds1: u64 = if r.max_age is Some { r.max_age->0 } else { 0 };
    let seconds2: u64 = if r.s_maxage is Some { r.s_maxage->0 } else { 0 };
    let seconds3: u64 = if r.stale_while_revalidate is Some { r.stale_while_revalidate->0 } else { 0 };
    lemma_items_read(seconds1);
    lemma_items_read(seconds2);
    lemma_items_read(seconds3);
    let text0 = Seq::<u8>::empty();
    let text1 = with_seconds(text0, name_max_age(), r.max_age);
    let read1 = if r.max_age is Some { applied(start, Directive::MaxAge(seconds1)) } else { start };
    lemma_seconds_added(text0, name_max_age(), r.max_age, start, start, Directive::MaxAge(seconds1));
    let text2 = with_seconds(text1, name_s_maxage(), r.s_maxage);
    let read2 = if r.s_maxage is Some { applied(read1, Directive::SMaxage(seconds2)) } else { read1 };
    lemma_seconds_added(text1, name_s_maxage(), r.s_maxage, start, read1, Directive::SMaxage(seconds2));
    let text3 = with_seconds(text2, name_stale_while_revalidate(), r.stale_while_revalidate);
    let read3 = if r.stale_while_revalidate is Some {
        applied(read2, Directive::StaleWhileRevalidate(seconds3))
    } else {
        read2
    };
    lemma_seconds_added(
        text2,
        name_stale_while_revalidate(),
        r.stale_while_revalidate,
        start,
        read2,
        Directive::StaleWhileRevalidate(seconds3),
    );
    let text4 = with_flag(text3, name_no_store(), r.no_store);
    let read4 = if r.no_store { applied(read3, Directive::NoStore) } else { read3 };
    lemma_flag_added(text3, name_no_store(), r.no_store, start, read3, Directive::NoStore);
    let text5 = with_flag(text4, name_must_revalidate(), r.must_revalidate);
    let read5 = if r.must_revalidate { applied(read4, Directive::MustRevalidate) } else { read4 };
    lemma_flag_added(text4, name_must_revalidate(), r.must_revalidate, start, read4, Directive::MustRevalidate);
    let text6 = with_flag(text5, name_private(), r.private);
    let read6 = if r.private { applied(read5, Directive::Private) } else { read5 };
    lemma_flag_added(text5, name_private(), r.private, start, read5, Directive::Private);
    assert(text6 == c.rendered_beside(told));
    assert(read6 == r);
    assert(text6.len() > 0);
}

/// The value that is written for a set of directives is read as these
/// directives, as they stand for a reader who is told no age: with the
/// lifetimes that are left, and no age.
pub proof fn lemma_rendered_reads_back(c: CacheControl)
    requires
        !c.is_silent(),
    ensures
        value_into(c.rendered(), CacheControl::empty()) == Ok::<CacheControl, ParseError>(
            c.rebased(),
        ),
        c.rendered().len() > 0,
{
    lemma_rendered_beside_reads_back(c, 0);
    assert(c.beside(0) == c.rebased());
    assert(c.rendered_beside(0) == c.rendered());
}

/// Reading a header value changes no age.
pub proof fn lemma_value_keeps_age(text: Seq<u8>, start: CacheControl)
    ensures
        value_into(text, start) matches Ok(read) ==> read.age == start.age,
    decreases text.len(),
{
    let j = first_index(text, 44);
    lemma_index_found(text, 44, 0);
    match directive_of(text.take(j)) {
        Err(_) => {},
        Ok(d) => {
            if 0 <= j < text.len() {
                lemma_value_keeps_age(text.skip(j + 1), applied(start, d));
            }
        },
    }
}

/// Reading header values changes no age.
pub proof fn lemma_values_keep_age(values: Seq<Seq<u8>>, k: int, start: CacheControl)
    ensures
        values_into(values, k, start) matches Ok(read) ==> read.age == start.age,
    decreases values.len() - k,
{
    if 0 <= k < values.len() {
        lemma_value_keeps_age(values[k], start);
        match value_into(values[k], start) {
            Err(_) => {},
            Ok(next) => {
                lemma_values_keep_age(values, k + 1, next);
            },
        }
    }
}

/// The names of the two headers differ in length.
proof fn lemma_header_names_differ()
    ensures
        bytes_of(CACHE_CONTROL@).len() != bytes_of(AGE@).len(),
        !same_name(CACHE_CONTROL@, AGE@),
{
    reveal_strlit("cache-control");
    reveal_strlit("age");
    assert(is_ascii_chars(CACHE_CONTROL@));
    assert(is_ascii_chars(AGE@));
    is_ascii_chars_encode_utf8(CACHE_CONTROL@);
    is_ascii_chars_encode_utf8(AGE@);
}

/// What a reader makes of directives and the `Age` header that stands
/// beside them: the directives with that age; an error where the header
/// cannot be read.
pub open spec fn with_age_of(c: CacheControl, h: HeaderSeq) -> Result<CacheControl, ParseError> {
    match first_value_of(h, AGE@) {
        None => Ok(c),
        Some(a) => match number_of(trimmed(a)) {
            Some(n) => Ok(CacheControl { age: n, ..c }),
            None => Err(ParseError::InvalidAge),
        },
    }
}

/// The header that the cache writes for a set of directives is read as
/// these directives, as they were written for a reader who is told the age
/// of the response's `Age` header, and with that age. Every other header of
/// the response stays as it was.
pub proof fn lemma_written_headers_read_back(h: HeaderSeq, c: CacheControl)
    requires
        !c.is_silent(),
    ensures
        parsed_headers(c.written(h), None) == with_age_of(c.beside(told_age(h)), h),
        first_value_of(h, AGE@) is None ==> parsed_headers(c.written(h), None) == Ok::<
            CacheControl,
            ParseError,
        >(c.rebased()),
        without_name(c.written(h), CACHE_CONTROL@) == without_name(h, CACHE_CONTROL@),
{
    let told = told_age(h);
    let text = c.rendered_beside(told);
    let w = c.written(h);
    let rest = without_name(h, CACHE_CONTROL@);
    lemma_rendered_beside_reads_back(c, told);
    crate::headers::lemma_set_header_value(h, CACHE_CONTROL@, text);
    let values = values_of(w, CACHE_CONTROL@);
    assert(values == seq![text]);
    assert(values[0] == text);
    assert(values_into(values, 1, c.beside(told)) == Ok::<CacheControl, ParseError>(c.beside(told)));
    assert(values_into(values, 0, CacheControl::empty()) == Ok::<CacheControl, ParseError>(
        c.beside(told),
    ));
    lemma_header_names_differ();
    crate::headers::lemma_removal_keeps_other_values(h, CACHE_CONTROL@, AGE@);
    assert(rest.push((CACHE_CONTROL@, text)).drop_last() =~= rest);
    assert(values_of(w, AGE@) == values_of(h, AGE@));
    crate::headers::lemma_set_keeps_other_headers(h, CACHE_CONTROL@, text);
    if first_value_of(h, AGE@) is None {
        assert(c.beside(0) == c.rebased());
    }
}

/// What the cache reads from the headers of a response, writes to them and
/// reads again is what it read: every directive with the value it had, and
/// the age. Every other header of the response stays as it was. This holds
/// for every response whose headers say anything at all.
pub proof fn lemma_read_written_read(h: HeaderSeq, fallback: Option<u64>, c: CacheControl)
    requires
        parsed_headers(h, fallback) == Ok::<CacheControl, ParseError>(c),
        !c.is_silent(),
    ensures
        parsed_headers(c.written(h), None) == Ok::<CacheControl, ParseError>(c),
        without_name(c.written(h), CACHE_CONTROL@) == without_name(h, CACHE_CONTROL@),
{
    lemma_written_headers_read_back(h, c);
    let values = values_of(h, CACHE_CONTROL@);
    let start = CacheControl { max_age: fallback, ..CacheControl::empty() };
    lemma_values_keep_age(values, 0, start);
    assert(c.age == told_age(h));
    assert(c.beside(c.age).max_age == c.max_age);
    assert(c.beside(c.age).s_maxage == c.s_maxage);
}

} // verus!
