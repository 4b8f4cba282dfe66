//! Counting hits and misses by type, for the metrics of a request.

use crate::entity::intermediate_view;
use crate::entity::IntermediateResult;
use crate::entity::IntermediateView;
use crate::text::same_text;
use vstd::prelude::*;
use vstd::string::*;

verus! {

/// How many entities of a type came from the store, and how many did not.
#[derive(Debug, Clone, Copy, PartialEq, Eq)]
pub struct CacheHitMiss {
    pub hit: usize,
    pub miss: usize,
}

/// The counts of one type.
#[derive(Clone, Debug, PartialEq, Eq)]
pub struct TypeCount {
    pub typename: String,
    pub counts: CacheHitMiss,
}

/// The counts of a request to a subgraph, by type; no type stands twice.
#[derive(Clone, Debug, PartialEq, Eq)]
pub struct CacheSubgraph(pub Vec<TypeCount>);

/// The number of hits among the first `n` entities that are of type `t`.
pub open spec fn hits_of(r: Seq<IntermediateView>, t: Seq<char>, n: int) -> nat
    decreases n,
{
    if n <= 0 || n > r.len() {
        0
    } else if r[n - 1].typename == t && r[n - 1].cache_entry is Some {
        hits_of(r, t, n - 1) + 1
    } else {
        hits_of(r, t, n - 1)
    }
}

/// The number of misses among the first `n` entities that are of type `t`.
pub open spec fn misses_of(r: Seq<IntermediateView>, t: Seq<char>, n: int) -> nat
    decreases n,
{
    if n <= 0 || n > r.len() {
        0
    } else if r[n - 1].typename == t && r[n - 1].cache_entry is None {
        misses_of(r, t, n - 1) + 1
    } else {
        misses_of(r, t, n - 1)
    }
}

/// The counts are those of the first `n` entities: every type among them
/// stands once, with its hits and its misses, and no other type stands.
pub open spec fn counts_of(counts: Seq<TypeCount>, r: Seq<IntermediateView>, n: int) -> bool {
    &&& forall|i: int|
        0 <= i < counts.len() ==> {
            &&& (#[trigger] counts[i]).counts.hit == hits_of(r, counts[i].typename@, n)
            &&& counts[i].counts.miss == misses_of(r, counts[i].typename@, n)
            &&& counts[i].counts.hit + counts[i].counts.miss > 0
        }
    &&& forall|i: int, j: int|
        0 <= i < j < counts.len() ==> (#[trigger] counts[i]).typename@ != (#[trigger] counts[j]).typename@
    &&& forall|k: int|
        0 <= k < n ==> exists|i: int|
            0 <= i < counts.len() && (#[trigger] counts[i]).typename@ == (#[trigger] r[k]).typename
}

/// There are no more hits and misses than entities.
pub proof fn lemma_counts_bounded(r: Seq<IntermediateView>, t: Seq<char>, n: int)
    requires
        0 <= n <= r.len(),
    ensures
        hits_of(r, t, n) + misses_of(r, t, n) <= n,
    decreases n,
{
    if n > 0 {
        lemma_counts_bounded(r, t, n - 1);
    }
}

/// The counts of a root query: one hit or one miss, under the type `Query`.
pub fn count_root(hit: bool) -> (counts: CacheSubgraph)
    ensures
        counts.0@.len() == 1,
        counts.0@[0].typename@ == "Query"@,
        counts.0@[0].counts == if hit {
            CacheHitMiss { hit: 1, miss: 0 }
        } else {
            CacheHitMiss { hit: 0, miss: 1 }
        },
{
    let mut list: Vec<TypeCount> = Vec::new();
    let counts = if hit {
        CacheHitMiss { hit: 1, miss: 0 }
    } else {
        CacheHitMiss { hit: 0, miss: 1 }
    };
    list.push(TypeCount { typename: String::from_str("Query"), counts });
    CacheSubgraph(list)
}

fn find_type(list: &Vec<TypeCount>, typename: &str) -> (place: Option<usize>)
    ensures
        match place {
            Some(i) => i < list@.len() && list@[i as int].typename@ == typename@,
            None => forall|j: int| 0 <= j < list@.len() ==> (#[trigger] list@[j]).typename@ != typename@,
        },
{
    let mut i: usize = 0;
    while i < list.len()
        invariant
            i <= list@.len(),
            forall|j: int| 0 <= j < i ==> (#[trigger] list@[j]).typename@ != typename@,
        decreases list@.len() - i,
    {
        if same_text(list[i].typename.as_str(), typename) {
            return Some(i);
        }
        i += 1;
    }
    None
}

/// Counts the hits and the misses of an `_entities` request by type.
pub fn count_entities(result: &Vec<IntermediateResult>) -> (counts: CacheSubgraph)
    ensures
        counts_of(counts.0@, intermediate_view(result@), result@.len() as int),
{
    let ghost r = intermediate_view(result@);
    let mut list: Vec<TypeCount> = Vec::new();
    let mut k: usize = 0;
    while k < result.len()
        invariant
            k <= result@.len(),
            r == intermediate_view(result@),
            counts_of(list@, r, k as int),
        decreases result@.len() - k,
    {
        let item = &result[k];
        assert(r[k as int] == item@);
        let is_hit = item.cache_entry.is_some();
        let ghost t = item.typename@;
        let ghost before = list@;
        let place = find_type(&list, item.typename.as_str());
        if let Some(i) = place {
            let old = list[i].counts;
            proof {
                lemma_counts_bounded(r, t, k as int);
            }
            let counts = if is_hit {
                CacheHitMiss { hit: old.hit + 1, miss: old.miss }
            } else {
                CacheHitMiss { hit: old.hit, miss: old.miss + 1 }
            };
            let typename = list[i].typename.clone();
            list.set(i, TypeCount { typename, counts });
            proof {
                assert forall|j: int| 0 <= j < list@.len() implies {
                    &&& (#[trigger] list@[j]).counts.hit == hits_of(r, list@[j].typename@, k + 1)
                    &&& list@[j].counts.miss == misses_of(r, list@[j].typename@, k + 1)
                    &&& list@[j].counts.hit + list@[j].counts.miss > 0
                } by {
                    if j != i {
                        assert(list@[j] == before[j]);
                        assert(before[j].typename@ != before[i as int].typename@);
                    }
                }
                assert forall|a: int, b: int| 0 <= a < b < list@.len() implies (#[trigger] list@[a]).typename@
                    != (#[trigger] list@[b]).typename@ by {
                    assert(list@[a].typename@ == before[a].typename@);
                    assert(list@[b].typename@ == before[b].typename@);
                }
                assert forall|m: int| 0 <= m < k + 1 implies exists|j: int|
                    0 <= j < list@.len() && (#[trigger] list@[j]).typename@ == (#[trigger] r[m]).typename by {
                    if m < k {
                        let j = choose|j: int|
                            0 <= j < before.len() && (#[trigger] before[j]).typename@ == r[m].typename;
                        assert(list@[j].typename@ == r[m].typename);
                    } else {
                        assert(list@[i as int].typename@ == r[m].typename);
                    }
                }
            }
        } else {
            let counts = if is_hit {
                CacheHitMiss { hit: 1, miss: 0 }
            } else {
                CacheHitMiss { hit: 0, miss: 1 }
            };
            proof {
                lemma_unseen_rest(r, list@, t, k as int);
            }
            list.push(TypeCount { typename: item.typename.clone(), counts });
            proof {
                assert forall|j: int| 0 <= j < list@.len() implies {
                    &&& (#[trigger] list@[j]).counts.hit == hits_of(r, list@[j].typename@, k + 1)
                    &&& list@[j].counts.miss == misses_of(r, list@[j].typename@, k + 1)
                    &&& list@[j].counts.hit + list@[j].counts.miss > 0
                } by {
                    if j < before.len() {
                        assert(list@[j] == before[j]);
                    }
                }
                assert forall|a: int, b: int| 0 <= a < b < list@.len() implies (#[trigger] list@[a]).typename@
                    != (#[trigger] list@[b]).typename@ by {
                    assert(list@[a] == before[a]);
                    if b < before.len() {
                        assert(list@[b] == before[b]);
                    }
                }
                assert forall|m: int| 0 <= m < k + 1 implies exists|j: int|
                    0 <= j < list@.len() && (#[trigger] list@[j]).typename@ == (#[trigger] r[m]).typename by {
                    if m < k {
                        let j = choose|j: int|
                            0 <= j < before.len() && (#[trigger] before[j]).typename@ == r[m].typename;
                        assert(list@[j] == before[j]);
                    } else {
                        assert(list@[before.len() as int].typename@ == r[m].typename);
                    }
                }
            }
        }
        k += 1;
    }
    CacheSubgraph(list)
}

/// A type that differs from those of the first `n` entities has neither a
/// hit nor a miss among them.
proof fn lemma_unseen_rest(r: Seq<IntermediateView>, counts: Seq<TypeCount>, t: Seq<char>, n: int)
    requires
        0 <= n <= r.len(),
        forall|k: int|
            0 <= k < n ==> exists|i: int|
                0 <= i < counts.len() && (#[trigger] counts[i]).typename@ == (#[trigger] r[k]).typename,
        forall|j: int| 0 <= j < counts.len() ==> (#[trigger] counts[j]).typename@ != t,
    ensures
        hits_of(r, t, n) == 0,
        misses_of(r, t, n) == 0,
    decreases n,
{
    if n > 0 {
        let j = choose|j: int|
            0 <= j < counts.len() && (#[trigger] counts[j]).typename@ == r[n - 1].typename;
        assert(r[n - 1].typename != t);
        lemma_unseen_rest(r, counts, t, n - 1);
    }
}

} // verus!
