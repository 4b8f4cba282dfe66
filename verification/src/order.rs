//! The stable order of a list: the order in which a stable sort leaves the
//! positions of its items.

use vstd::prelude::*;

verus! {

/// A list of positions with `x` put in its place: behind the last position
/// that does not come after it.
pub open spec fn insert_by(sorted: Seq<int>, x: int, le: spec_fn(int, int) -> bool) -> Seq<int>
    decreases sorted.len(),
{
    if sorted.len() == 0 {
        seq![x]
    } else if le(sorted.last(), x) {
        sorted.push(x)
    } else {
        insert_by(sorted.drop_last(), x, le).push(sorted.last())
    }
}

/// The positions `0` to `n - 1` in stable order: a position stands before
/// another where `le` does not put it behind; positions that `le` puts on a
/// par keep the order they had.
pub open spec fn order_of(n: nat, le: spec_fn(int, int) -> bool) -> Seq<int>
    decreases n,
{
    if n == 0 {
        Seq::empty()
    } else {
        insert_by(order_of((n - 1) as nat, le), n - 1, le)
    }
}

/// A list of positions, as numbers.
pub open spec fn positions(order: Seq<usize>) -> Seq<int> {
    Seq::new(order.len(), |i: int| order[i] as int)
}

/// Putting a position in its place makes the list one longer, and adds no
/// position but that one.
pub proof fn lemma_insert_by_shape(sorted: Seq<int>, x: int, le: spec_fn(int, int) -> bool)
    ensures
        insert_by(sorted, x, le).len() == sorted.len() + 1,
        forall|k: int|
            0 <= k < insert_by(sorted, x, le).len() ==> #[trigger] insert_by(sorted, x, le)[k] == x
                || sorted.contains(insert_by(sorted, x, le)[k]),
    decreases sorted.len(),
{
    if sorted.len() > 0 && !le(sorted.last(), x) {
        lemma_insert_by_shape(sorted.drop_last(), x, le);
        let rest = insert_by(sorted.drop_last(), x, le);
        assert forall|k: int| 0 <= k < insert_by(sorted, x, le).len() implies #[trigger] insert_by(
            sorted,
            x,
            le,
        )[k] == x || sorted.contains(insert_by(sorted, x, le)[k]) by {
            if k < rest.len() {
                if rest[k] != x {
                    let j = choose|j: int| 0 <= j < sorted.drop_last().len() && sorted.drop_last()[j] == rest[k];
                    assert(sorted[j] == rest[k]);
                }
            } else {
                assert(sorted[sorted.len() - 1] == sorted.last());
            }
        }
    } else if sorted.len() > 0 {
        assert forall|k: int| 0 <= k < insert_by(sorted, x, le).len() implies #[trigger] insert_by(
            sorted,
            x,
            le,
        )[k] == x || sorted.contains(insert_by(sorted, x, le)[k]) by {
            if k < sorted.len() {
                assert(sorted[k] == insert_by(sorted, x, le)[k]);
            }
        }
    }
}

/// The stable order of `n` positions has `n` positions, all below `n`.
pub proof fn lemma_order_shape(n: nat, le: spec_fn(int, int) -> bool)
    ensures
        order_of(n, le).len() == n,
        forall|k: int| 0 <= k < n ==> 0 <= #[trigger] order_of(n, le)[k] < n,
    decreases n,
{
    if n > 0 {
        lemma_order_shape((n - 1) as nat, le);
        let before = order_of((n - 1) as nat, le);
        lemma_insert_by_shape(before, n - 1, le);
        assert forall|k: int| 0 <= k < n implies 0 <= #[trigger] order_of(n, le)[k] < n by {
            let v = order_of(n, le)[k];
            if v != n - 1 {
                let j = choose|j: int| 0 <= j < before.len() && before[j] == v;
                assert(0 <= before[j] < n - 1);
            }
        }
    }
}

/// Puts the positions `0` to `n - 1` in stable order.
pub(crate) fn stable_order<F: Fn(usize, usize) -> bool>(
    n: usize,
    le: F,
    Ghost(rel): Ghost<spec_fn(int, int) -> bool>,
) -> (order: Vec<usize>)
    requires
        forall|i: usize, j: usize| i < n && j < n ==> call_requires(le, (i, j)),
        forall|i: usize, j: usize, r: bool|
            i < n && j < n && call_ensures(le, (i, j), r) ==> r == rel(i as int, j as int),
    ensures
        positions(order@) == order_of(n as nat, rel),
        order@.len() == n,
        forall|k: int| 0 <= k < n ==> #[trigger] order@[k] < n,
{
    let mut order: Vec<usize> = Vec::new();
    let mut next: usize = 0;
    assert(positions(order@) =~= order_of(0, rel));
    while next < n
        invariant
            next <= n,
            order@.len() == next,
            positions(order@) == order_of(next as nat, rel),
            forall|k: int| 0 <= k < next ==> #[trigger] order@[k] < next,
            forall|i: usize, j: usize| i < n && j < n ==> call_requires(le, (i, j)),
            forall|i: usize, j: usize, r: bool|
                i < n && j < n && call_ensures(le, (i, j), r) ==> r == rel(i as int, j as int),
        decreases n - next,
    {
        let ghost before = positions(order@);
        let mut place: usize = order.len();
        assert(before.take(place as int) =~= before);
        assert(before.skip(place as int) =~= Seq::<int>::empty());
        assert(insert_by(before, next as int, rel) =~= insert_by(
            before.take(place as int),
            next as int,
            rel,
        ) + before.skip(place as int));
        loop
            invariant
                place <= order@.len(),
                order@.len() == next,
                next < n,
                before == positions(order@),
                forall|k: int| 0 <= k < next ==> #[trigger] order@[k] < next,
                forall|i: usize, j: usize| i < n && j < n ==> call_requires(le, (i, j)),
                forall|i: usize, j: usize, r: bool|
                    i < n && j < n && call_ensures(le, (i, j), r) ==> r == rel(i as int, j as int),
                insert_by(before, next as int, rel) == insert_by(
                    before.take(place as int),
                    next as int,
                    rel,
                ) + before.skip(place as int),
            ensures
                place <= order@.len(),
                insert_by(before, next as int, rel) == before.take(place as int).push(next as int)
                    + before.skip(place as int),
            decreases place,
        {
            if place == 0 {
                assert(before.take(0) =~= Seq::<int>::empty());
                break ;
            }
            let last = order[place - 1];
            let ghost head = before.take(place as int);
            assert(head.last() == last as int);
            let fits = le(last, next);
            if fits {
                break ;
            }
            proof {
                assert(head.drop_last() =~= before.take(place - 1));
                assert(insert_by(head, next as int, rel) == insert_by(
                    before.take(place - 1),
                    next as int,
                    rel,
                ).push(last as int));
                assert(before.skip(place - 1) =~= seq![last as int] + before.skip(place as int));
                assert(insert_by(before.take(place - 1), next as int, rel).push(last as int)
                    + before.skip(place as int) =~= insert_by(
                    before.take(place - 1),
                    next as int,
                    rel,
                ) + before.skip(place - 1));
            }
            place -= 1;
        }
        order.insert(place, next);
        proof {
            assert(positions(order@) =~= before.take(place as int).push(next as int) + before.skip(
                place as int,
            ));
            assert forall|k: int| 0 <= k < next + 1 implies #[trigger] order@[k] < next + 1 by {
                if k < place {
                    assert(order@[k] as int == before[k]);
                } else if k > place {
                    assert(order@[k] as int == before[k - 1]);
                }
            }
        }
        next += 1;
    }
    order
}

} // verus!
