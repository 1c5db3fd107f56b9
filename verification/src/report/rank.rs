//! A stable ranking of positions, for the renderers that order cases.
//!
//! Positions are ranked by inserting each in turn before the first position it must precede, so
//! positions that no rule separates keep the order they arrived in.

use vstd::prelude::*;

verus! {

/// `order` with `i` inserted before the first position `i` must precede.
pub open spec fn insert_by(precedes: spec_fn(int, int) -> bool, i: int, order: Seq<int>) -> Seq<int>
    decreases order.len(),
{
    if order.len() == 0 {
        seq![i]
    } else if precedes(i, order[0]) {
        seq![i] + order
    } else {
        seq![order[0]] + insert_by(precedes, i, order.drop_first())
    }
}

/// The positions `0..n`, ranked by `precedes`, ties in arrival order.
pub open spec fn ranked_by(precedes: spec_fn(int, int) -> bool, n: int) -> Seq<int>
    decreases n,
{
    if n <= 0 {
        Seq::empty()
    } else {
        insert_by(precedes, n - 1, ranked_by(precedes, n - 1))
    }
}

/// Inserting at `p` is inserting before the first position `i` must precede.
pub proof fn lemma_insert_at(precedes: spec_fn(int, int) -> bool, i: int, order: Seq<int>, p: int)
    requires
        0 <= p <= order.len(),
        forall|j: int| 0 <= j < p ==> !precedes(i, #[trigger] order[j]),
        p < order.len() ==> precedes(i, order[p]),
    ensures
        insert_by(precedes, i, order) == order.take(p) + seq![i] + order.skip(p),
    decreases order.len(),
{
    if order.len() == 0 {
        assert(order.take(p) + seq![i] + order.skip(p) =~= seq![i]);
    } else if p == 0 {
        assert(order.take(p) + seq![i] + order.skip(p) =~= seq![i] + order);
    } else {
        let rest = order.drop_first();
        assert forall|j: int| 0 <= j < p - 1 implies !precedes(i, #[trigger] rest[j]) by {
            assert(rest[j] == order[j + 1]);
        }
        if p - 1 < rest.len() {
            assert(rest[p - 1] == order[p]);
        }
        lemma_insert_at(precedes, i, rest, p - 1);
        assert(order.take(p) + seq![i] + order.skip(p) =~= seq![order[0]] + (rest.take(p - 1) + seq![i]
            + rest.skip(p - 1)));
    }
}

/// Inserting adds exactly one position, and only `i`.
pub proof fn lemma_insert_contents(precedes: spec_fn(int, int) -> bool, i: int, order: Seq<int>)
    ensures
        insert_by(precedes, i, order).len() == order.len() + 1,
        insert_by(precedes, i, order).to_multiset() == order.to_multiset().insert(i),
    decreases order.len(),
{
    broadcast use vstd::seq_lib::group_to_multiset_ensures;
    if order.len() > 0 {
        let rest = order.drop_first();
        lemma_insert_contents(precedes, i, rest);
        if precedes(i, order[0]) {
            assert(seq![i] + order =~= order.insert(0, i));
        } else {
            assert(order =~= seq![order[0]] + rest);
            assert(seq![order[0]] + insert_by(precedes, i, rest) =~= insert_by(precedes, i, rest).insert(
                0,
                order[0],
            ));
            assert(order =~= rest.insert(0, order[0]));
        }
    } else {
        assert(seq![i] =~= order.insert(0, i));
    }
}

/// The ranking holds each position of `0..n` exactly once.
pub proof fn lemma_ranked_contents(precedes: spec_fn(int, int) -> bool, n: int)
    requires
        0 <= n,
    ensures
        ranked_by(precedes, n).len() == n,
        forall|j: int| 0 <= j < n ==> 0 <= #[trigger] ranked_by(precedes, n)[j] < n,
        forall|k: int| 0 <= k < n ==> ranked_by(precedes, n).to_multiset().count(k) == 1,
    decreases n,
{
    broadcast use vstd::seq_lib::group_to_multiset_ensures;
    if n > 0 {
        let before = ranked_by(precedes, n - 1);
        lemma_ranked_contents(precedes, n - 1);
        lemma_insert_contents(precedes, n - 1, before);
        let after = ranked_by(precedes, n);
        assert forall|j: int| 0 <= j < n implies 0 <= #[trigger] after[j] < n by {
            assert(after.to_multiset().count(after[j]) > 0);
            if !(0 <= after[j] < n - 1) && after[j] != n - 1 {
                assert(before.to_multiset().count(after[j]) == 0) by {
                    if before.to_multiset().count(after[j]) > 0 {
                        assert(before.contains(after[j]));
                    }
                }
            }
        }
        assert forall|k: int| 0 <= k < n implies after.to_multiset().count(k) == 1 by {
            if k < n - 1 {
                assert(before.to_multiset().count(k) == 1);
            } else {
                assert(before.to_multiset().count(k) == 0) by {
                    if before.to_multiset().count(k) > 0 {
                        assert(before.contains(k));
                        let w = choose|w: int| 0 <= w < before.len() && before[w] == k;
                        assert(before[w] < n - 1);
                    }
                }
            }
        }
    }
}

/// No position of `order` must precede one that comes before it.
pub open spec fn sorted_by(precedes: spec_fn(int, int) -> bool, order: Seq<int>) -> bool {
    forall|j: int, k: int| 0 <= j < k < order.len() ==> !precedes(#[trigger] order[k], #[trigger] order[j])
}

/// `precedes` is a strict order: nothing precedes itself, and preceding carries over.
pub open spec fn strict(precedes: spec_fn(int, int) -> bool) -> bool {
    &&& forall|a: int| !#[trigger] precedes(a, a)
    &&& forall|a: int, b: int, c: int| #[trigger] precedes(a, b) && #[trigger] precedes(b, c) ==> precedes(a, c)
}

proof fn lemma_insert_sorted(precedes: spec_fn(int, int) -> bool, i: int, order: Seq<int>)
    requires
        strict(precedes),
        sorted_by(precedes, order),
    ensures
        sorted_by(precedes, insert_by(precedes, i, order)),
    decreases order.len(),
{
    broadcast use vstd::seq_lib::group_to_multiset_ensures;
    let r = insert_by(precedes, i, order);
    if order.len() == 0 {
    } else if precedes(i, order[0]) {
        assert forall|j: int, k: int| 0 <= j < k < r.len() implies !precedes(#[trigger] r[k], #[trigger] r[j]) by {
            if j == 0 {
                let x = order[k - 1];
                assert(r[k] == x);
                if precedes(x, i) {
                    assert(precedes(x, order[0]));
                    if k - 1 > 0 {
                        assert(!precedes(order[k - 1], order[0]));
                    }
                }
            } else {
                assert(r[j] == order[j - 1]);
                assert(r[k] == order[k - 1]);
            }
        }
    } else {
        let rest = order.drop_first();
        assert forall|j: int, k: int| 0 <= j < k < rest.len() implies !precedes(#[trigger] rest[k], #[trigger] rest[j]) by {
            assert(rest[k] == order[k + 1]);
            assert(rest[j] == order[j + 1]);
        }
        lemma_insert_sorted(precedes, i, rest);
        lemma_insert_contents(precedes, i, rest);
        let tail = insert_by(precedes, i, rest);
        assert forall|j: int, k: int| 0 <= j < k < r.len() implies !precedes(#[trigger] r[k], #[trigger] r[j]) by {
            if j == 0 {
                let y = tail[k - 1];
                assert(r[k] == y);
                assert(tail.to_multiset().count(y) > 0);
                if y != i {
                    assert(rest.to_multiset().count(y) > 0);
                    assert(rest.contains(y));
                    let w = choose|w: int| 0 <= w < rest.len() && rest[w] == y;
                    assert(order[w + 1] == y);
                }
            } else {
                assert(r[j] == tail[j - 1]);
                assert(r[k] == tail[k - 1]);
            }
        }
    }
}

/// A ranking by a strict order is sorted: no position ever comes after one it must precede.
pub proof fn law_ranking_is_sorted(precedes: spec_fn(int, int) -> bool, n: int)
    requires
        strict(precedes),
    ensures
        sorted_by(precedes, ranked_by(precedes, n)),
    decreases n,
{
    if n > 0 {
        law_ranking_is_sorted(precedes, n - 1);
        lemma_insert_sorted(precedes, n - 1, ranked_by(precedes, n - 1));
    }
}

} // verus!
