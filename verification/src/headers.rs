//! HTTP header lists as plain values.
//!
//! A response's headers reach the cache as a list of name and value pairs in
//! the order in which they stood in the response. Names are matched without
//! regard to ASCII case; values are bytes.

use crate::text::bytes_of;
use vstd::prelude::*;
use vstd::slice::slice_to_vec;
use vstd::string::*;

verus! {

/// The name of the header that carries cache-control directives.
pub const CACHE_CONTROL: &'static str = "cache-control";

/// The name of the header that tells how old a response is, in seconds.
pub const AGE: &'static str = "age";

/// The name of the header that lists the request headers a response varies on.
pub const VARY: &'static str = "vary";

/// One header line.
#[derive(Clone, Debug, PartialEq, Eq)]
pub struct Header {
    pub name: String,
    pub value: Vec<u8>,
}

/// The headers of one message, in order.
#[derive(Clone, Debug, PartialEq, Eq)]
pub struct HeaderList {
    pub entries: Vec<Header>,
}

/// A header list as a sequence of name and value pairs.
pub type HeaderSeq = Seq<(Seq<char>, Seq<u8>)>;

impl View for Header {
    type V = (Seq<char>, Seq<u8>);

    open spec fn view(&self) -> (Seq<char>, Seq<u8>) {
        (self.name@, self.value@)
    }
}

impl View for HeaderList {
    type V = HeaderSeq;

    open spec fn view(&self) -> HeaderSeq {
        Seq::new(self.entries@.len(), |i: int| self.entries@[i]@)
    }
}

/// An ASCII capital letter as its small letter; any other byte as itself.
pub open spec fn lower(b: u8) -> u8 {
    if 65 <= b <= 90 {
        (b + 32) as u8
    } else {
        b
    }
}

/// Two byte strings are the same but for ASCII case.
pub open spec fn same_but_case(a: Seq<u8>, b: Seq<u8>) -> bool {
    a.len() == b.len() && forall|i: int| 0 <= i < a.len() ==> lower(#[trigger] a[i]) == lower(b[i])
}

/// Two header names are the same but for ASCII case.
pub open spec fn same_name(a: Seq<char>, b: Seq<char>) -> bool {
    same_but_case(bytes_of(a), bytes_of(b))
}

/// The values of the headers named `name`, in order.
pub open spec fn values_of(h: HeaderSeq, name: Seq<char>) -> Seq<Seq<u8>>
    decreases h.len(),
{
    if h.len() == 0 {
        Seq::empty()
    } else if same_name(h.last().0, name) {
        values_of(h.drop_last(), name).push(h.last().1)
    } else {
        values_of(h.drop_last(), name)
    }
}

/// The headers that are not named `name`, in order.
pub open spec fn without_name(h: HeaderSeq, name: Seq<char>) -> HeaderSeq
    decreases h.len(),
{
    if h.len() == 0 {
        Seq::empty()
    } else if same_name(h.last().0, name) {
        without_name(h.drop_last(), name)
    } else {
        without_name(h.drop_last(), name).push(h.last())
    }
}

/// The header list in which `name` has the one value `value`: what was named
/// so is gone, and the new header stands last.
pub open spec fn with_header(h: HeaderSeq, name: Seq<char>, value: Seq<u8>) -> HeaderSeq {
    without_name(h, name).push((name, value))
}

/// The first value of the headers named `name`, if there is one.
pub open spec fn first_value_of(h: HeaderSeq, name: Seq<char>) -> Option<Seq<u8>> {
    if values_of(h, name).len() > 0 {
        Some(values_of(h, name)[0])
    } else {
        None
    }
}

fn lower_byte(b: u8) -> (l: u8)
    ensures
        l == lower(b),
{
    if 65 <= b && b <= 90 {
        b + 32
    } else {
        b
    }
}

/// Whether two byte strings are the same but for ASCII case.
pub fn bytes_match_ignoring_case(a: &[u8], b: &[u8]) -> (same: bool)
    ensures
        same == same_but_case(a@, b@),
{
    if a.len() != b.len() {
        return false;
    }
    let mut i: usize = 0;
    while i < a.len()
        invariant
            i <= a.len(),
            a.len() == b.len(),
            forall|k: int| 0 <= k < i ==> lower(#[trigger] a@[k]) == lower(b@[k]),
        decreases a.len() - i,
    {
        if lower_byte(a[i]) != lower_byte(b[i]) {
            return false;
        }
        i += 1;
    }
    true
}

/// Whether two header names are the same but for ASCII case.
pub fn names_match(a: &str, b: &str) -> (same: bool)
    ensures
        same == same_name(a@, b@),
{
    bytes_match_ignoring_case(a.as_bytes(), b.as_bytes())
}

impl HeaderList {
    /// A list without headers.
    pub fn new() -> (list: HeaderList)
        ensures
            list@ == HeaderSeq::empty(),
    {
        let list = HeaderList { entries: Vec::new() };
        assert(list@ =~= HeaderSeq::empty());
        list
    }

    /// The number of headers.
    pub fn len(&self) -> (n: usize)
        ensures
            n == self@.len(),
    {
        self.entries.len()
    }

    /// Adds a header at the end, whatever headers of that name there are.
    pub fn append(&mut self, name: String, value: Vec<u8>)
        ensures
            final(self)@ == old(self)@.push((name@, value@)),
    {
        self.entries.push(Header { name, value });
        assert(self@ =~= old(self)@.push((name@, value@)));
    }

    /// The values of the headers named `name`, in order.
    pub fn values(&self, name: &str) -> (out: Vec<Vec<u8>>)
        ensures
            out@.len() == values_of(self@, name@).len(),
            forall|i: int| 0 <= i < out@.len() ==> (#[trigger] out@[i])@ == values_of(self@, name@)[i],
    {
        let mut out: Vec<Vec<u8>> = Vec::new();
        let mut i: usize = 0;
        while i < self.entries.len()
            invariant
                i <= self.entries@.len(),
                out@.len() == values_of(self@.take(i as int), name@).len(),
                forall|k: int|
                    0 <= k < out@.len() ==> (#[trigger] out@[k])@ == values_of(
                        self@.take(i as int),
                        name@,
                    )[k],
            decreases self.entries@.len() - i,
        {
            proof {
                let next = self@.take(i as int + 1);
                assert(next.drop_last() =~= self@.take(i as int));
                assert(next.last() == self@[i as int]);
            }
            if names_match(self.entries[i].name.as_str(), name) {
                out.push(slice_to_vec(self.entries[i].value.as_slice()));
            }
            i += 1;
        }
        assert(self@.take(i as int) =~= self@);
        out
    }

    /// Whether a header named `name` is there.
    pub fn contains(&self, name: &str) -> (yes: bool)
        ensures
            yes == (values_of(self@, name@).len() > 0),
    {
        let mut i: usize = 0;
        while i < self.entries.len()
            invariant
                i <= self.entries@.len(),
                values_of(self@.take(i as int), name@).len() == 0,
            decreases self.entries@.len() - i,
        {
            proof {
                let next = self@.take(i as int + 1);
                assert(next.drop_last() =~= self@.take(i as int));
                assert(next.last() == self@[i as int]);
                lemma_values_grow(self@, name@, i as int + 1);
            }
            if names_match(self.entries[i].name.as_str(), name) {
                return true;
            }
            i += 1;
        }
        assert(self@.take(i as int) =~= self@);
        false
    }

    /// Takes out every header named `name`.
    pub fn remove(&mut self, name: &str)
        ensures
            final(self)@ == without_name(old(self)@, name@),
    {
        let ghost before = self@;
        let ghost j: int = 0;
        let mut i: usize = 0;
        assert(self@ =~= without_name(before.take(0), name@) + before.skip(0));
        while i < self.entries.len()
            invariant
                0 <= j <= before.len(),
                i == without_name(before.take(j), name@).len(),
                self@ == without_name(before.take(j), name@) + before.skip(j),
            decreases before.len() - j,
        {
            let ghost current = self@;
            proof {
                assert(current[i as int] == before.skip(j)[0]);
                let next = before.take(j + 1);
                assert(next.drop_last() =~= before.take(j));
                assert(next.last() == before[j]);
            }
            if names_match(self.entries[i].name.as_str(), name) {
                self.entries.remove(i);
                proof {
                    assert(self@ =~= current.remove(i as int));
                    assert(self@ =~= without_name(before.take(j + 1), name@) + before.skip(j + 1));
                }
            } else {
                proof {
                    assert(self@ =~= without_name(before.take(j + 1), name@) + before.skip(j + 1));
                }
                i += 1;
            }
            proof {
                j = j + 1;
            }
        }
        proof {
            assert(before.skip(j) =~= HeaderSeq::empty());
            assert(before.take(j) =~= before);
            assert(self@ =~= without_name(before, name@));
        }
    }

    /// Gives `name` the one value `value`: headers of that name are taken
    /// out, and the new header is added at the end.
    pub fn set(&mut self, name: String, value: Vec<u8>)
        ensures
            final(self)@ == with_header(old(self)@, name@, value@),
    {
        self.remove(name.as_str());
        let ghost middle = self@;
        self.entries.push(Header { name, value });
        assert(self@ =~= middle.push((name@, value@)));
    }
}

/// A longer prefix of a header list has at least the values of a shorter one.
pub proof fn lemma_values_grow(h: HeaderSeq, name: Seq<char>, n: int)
    requires
        0 <= n <= h.len(),
    ensures
        values_of(h.take(n), name).len() <= values_of(h, name).len(),
    decreases h.len() - n,
{
    if n < h.len() {
        lemma_values_grow(h, name, n + 1);
        let next = h.take(n + 1);
        assert(next.drop_last() =~= h.take(n));
    } else {
        assert(h.take(n) =~= h);
    }
}

/// After the headers of a name were taken out, the name has no value.
pub proof fn lemma_removed_has_no_value(h: HeaderSeq, name: Seq<char>)
    ensures
        values_of(without_name(h, name), name).len() == 0,
    decreases h.len(),
{
    if h.len() > 0 {
        lemma_removed_has_no_value(h.drop_last(), name);
        if !same_name(h.last().0, name) {
            let rest = without_name(h.drop_last(), name);
            assert(rest.push(h.last()).drop_last() =~= rest);
        }
    }
}

/// A header that was set has the one value that it was given.
pub proof fn lemma_set_header_value(h: HeaderSeq, name: Seq<char>, value: Seq<u8>)
    ensures
        values_of(with_header(h, name, value), name) == seq![value],
{
    lemma_removed_has_no_value(h, name);
    let rest = without_name(h, name);
    assert(rest.push((name, value)).drop_last() =~= rest);
    assert(values_of(rest, name) =~= Seq::<Seq<u8>>::empty());
    assert(values_of(with_header(h, name, value), name) =~= seq![value]);
}

/// Taking out the headers of one name leaves the values of a name of
/// another length as they are.
pub proof fn lemma_removal_keeps_other_values(h: HeaderSeq, removed: Seq<char>, name: Seq<char>)
    requires
        bytes_of(removed).len() != bytes_of(name).len(),
    ensures
        values_of(without_name(h, removed), name) == values_of(h, name),
    decreases h.len(),
{
    if h.len() > 0 {
        lemma_removal_keeps_other_values(h.drop_last(), removed, name);
        if !same_name(h.last().0, removed) {
            let rest = without_name(h.drop_last(), removed);
            assert(rest.push(h.last()).drop_last() =~= rest);
        }
    }
}

/// Taking out the headers of a name twice is taking them out once.
pub proof fn lemma_removal_is_idempotent(h: HeaderSeq, name: Seq<char>)
    ensures
        without_name(without_name(h, name), name) == without_name(h, name),
    decreases h.len(),
{
    if h.len() > 0 {
        lemma_removal_is_idempotent(h.drop_last(), name);
        if !same_name(h.last().0, name) {
            let rest = without_name(h.drop_last(), name);
            assert(rest.push(h.last()).drop_last() =~= rest);
        }
    }
}

/// Setting a header leaves the headers of every other name as they were,
/// and in their order.
pub proof fn lemma_set_keeps_other_headers(h: HeaderSeq, name: Seq<char>, value: Seq<u8>)
    ensures
        without_name(with_header(h, name, value), name) == without_name(h, name),
{
    let rest = without_name(h, name);
    lemma_removal_is_idempotent(h, name);
    assert(rest.push((name, value)).drop_last() =~= rest);
    assert(same_name(name, name));
}

} // verus!
