//! The queries that are known to give private responses.

use crate::text::same_text;
use vstd::prelude::*;
use vstd::string::*;

verus! {

/// The set of queries that were seen to give a private response. It starts
/// empty, and a query that was added stays. The queries are kept in a list
/// in which no query stands twice.
#[derive(Debug)]
pub struct PrivateQueries {
    queries: Vec<String>,
}

impl View for PrivateQueries {
    type V = Set<Seq<char>>;

    closed spec fn view(&self) -> Set<Seq<char>> {
        Set::new(|q: Seq<char>| exists|i: int| 0 <= i < self.queries@.len() && (#[trigger] self.queries@[i])@ == q)
    }
}

impl PrivateQueries {
    /// The empty set.
    pub fn new() -> (set: PrivateQueries)
        ensures
            set@ == Set::<Seq<char>>::empty(),
    {
        let set = PrivateQueries { queries: Vec::new() };
        assert(set@ =~= Set::<Seq<char>>::empty());
        set
    }

    /// Whether `query` is known to be private.
    pub fn contains(&self, query: &str) -> (known: bool)
        ensures
            known == self@.contains(query@),
    {
        let mut i: usize = 0;
        while i < self.queries.len()
            invariant
                i <= self.queries@.len(),
                forall|k: int| 0 <= k < i ==> (#[trigger] self.queries@[k])@ != query@,
            decreases self.queries@.len() - i,
        {
            if same_text(self.queries[i].as_str(), query) {
                return true;
            }
            i += 1;
        }
        false
    }

    /// Notes that `query` gives private responses. Says whether this was
    /// news.
    pub fn insert(&mut self, query: String) -> (added: bool)
        ensures
            final(self)@ == old(self)@.insert(query@),
            added == !old(self)@.contains(query@),
    {
        proof {
            use_type_invariant(&*self);
        }
        if self.contains(query.as_str()) {
            assert(self@ =~= old(self)@.insert(query@));
            false
        } else {
            let ghost before = self.queries@;
            let mut list: Vec<String> = Vec::new();
            core::mem::swap(&mut list, &mut self.queries);
            list.push(query);
            proof {
                assert forall|a: int, b: int| 0 <= a < b < list@.len() implies (#[trigger] list@[a])@
                    != (#[trigger] list@[b])@ by {
                    if b < before.len() {
                        assert(before[a]@ != before[b]@);
                    } else {
                        assert(before[a]@ != query@);
                    }
                }
            }
            core::mem::swap(&mut list, &mut self.queries);
            assert forall|q: Seq<char>| self@.contains(q) == old(self)@.insert(query@).contains(q) by {
                if self@.contains(q) {
                    let i = choose|i: int| 0 <= i < self.queries@.len() && (#[trigger] self.queries@[i])@ == q;
                    if i < before.len() {
                        assert(before[i]@ == q);
                    }
                }
                if old(self)@.contains(q) {
                    let i = choose|i: int| 0 <= i < before.len() && (#[trigger] before[i])@ == q;
                    assert(self.queries@[i]@ == q);
                }
                if q == query@ {
                    assert(self.queries@[before.len() as int]@ == q);
                }
            }
            assert(self@ =~= old(self)@.insert(query@));
            true
        }
    }

    #[verifier::type_invariant]
    spec fn well_formed(self) -> bool {
        forall|i: int, j: int|
            0 <= i < j < self.queries@.len() ==> (#[trigger] self.queries@[i])@ != (#[trigger] self.queries@[j])@
    }
}

} // verus!
