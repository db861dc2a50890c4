//! Stable ranking of the items of a sequence.
//!
//! A ranking orders the positions of a sequence: a position stands before
//! another where its item goes first, and between items of which neither
//! goes first the earlier position stands first. This is a total order on
//! positions, so the ranking of a sequence is unique.

use vstd::prelude::*;
use vstd::relations::{sorted_by, total_ordering};
use vstd::seq_lib::{group_to_multiset_ensures, lemma_multiset_commutative, lemma_sorted_unique};

verus! {

/// A way to decide which of two items goes first.
pub trait Precedence<T> {
    /// Whether `a` goes strictly before `b`.
    spec fn before(a: T, b: T) -> bool;

    /// No two items go before each other.
    proof fn lemma_asymmetric(a: T, b: T)
        requires
            Self::before(a, b),
        ensures
            !Self::before(b, a),
    ;

    /// Going before carries over.
    proof fn lemma_transitive(a: T, b: T, c: T)
        requires
            Self::before(a, b),
            Self::before(b, c),
        ensures
            Self::before(a, c),
    ;

    /// Not going before carries over.
    proof fn lemma_ties_carry_over(a: T, b: T, c: T)
        requires
            !Self::before(a, b),
            !Self::before(b, c),
        ensures
            !Self::before(a, c),
    ;

    /// Decide whether `a` goes strictly before `b`.
    fn is_before(a: &T, b: &T) -> (r: bool)
        ensures
            r == Self::before(*a, *b),
    ;
}

/// Whether position `i` stands at or before position `j` in the ranking of
/// `items`. Positions outside the sequence stand behind all others.
pub open spec fn stands_before<T, P: Precedence<T>>(items: Seq<T>, i: usize, j: usize) -> bool {
    if i < items.len() && j < items.len() {
        P::before(items[i as int], items[j as int]) || (!P::before(
            items[j as int],
            items[i as int],
        ) && i <= j)
    } else if i < items.len() {
        true
    } else if j < items.len() {
        false
    } else {
        i <= j
    }
}

/// The order in which the positions of `items` are ranked.
pub open spec fn position_order<T, P: Precedence<T>>(items: Seq<T>) -> spec_fn(usize, usize) -> bool {
    |i: usize, j: usize| stands_before::<T, P>(items, i, j)
}

/// The positions of a sequence of `n` items, in order.
pub open spec fn positions(n: nat) -> Seq<usize> {
    Seq::new(n, |i: int| i as usize)
}

/// The positions of `items`, ranked.
pub open spec fn ranking<T, P: Precedence<T>>(items: Seq<T>) -> Seq<usize> {
    positions(items.len()).sort_by(position_order::<T, P>(items))
}

/// The items at the given positions.
pub open spec fn picked<T>(items: Seq<T>, at: Seq<usize>) -> Seq<T> {
    Seq::new(at.len(), |k: int| items[at[k] as int])
}

/// The items of a sequence, ranked.
pub open spec fn ranked<T, P: Precedence<T>>(items: Seq<T>) -> Seq<T> {
    picked(items, ranking::<T, P>(items))
}

/// The order of positions is a total order.
pub proof fn lemma_position_order_is_total<T, P: Precedence<T>>(items: Seq<T>)
    ensures
        total_ordering(position_order::<T, P>(items)),
{
    let order = position_order::<T, P>(items);
    assert forall|x: usize, y: usize| #[trigger] order(x, y) && #[trigger] order(y, x) implies x
        == y by {
        if x < items.len() && y < items.len() {
            if P::before(items[x as int], items[y as int]) {
                P::lemma_asymmetric(items[x as int], items[y as int]);
            }
            if P::before(items[y as int], items[x as int]) {
                P::lemma_asymmetric(items[y as int], items[x as int]);
            }
        }
    }
    assert forall|x: usize, y: usize, z: usize| #[trigger] order(x, y) && #[trigger] order(
        y,
        z,
    ) implies order(x, z) by {
        if x < items.len() && y < items.len() && z < items.len() {
            let a = items[x as int];
            let b = items[y as int];
            let c = items[z as int];
            if P::before(a, b) {
                if P::before(b, c) {
                    P::lemma_transitive(a, b, c);
                } else {
                    if !P::before(a, c) {
                        P::lemma_ties_carry_over(a, c, b);
                    }
                }
            } else {
                if P::before(b, c) {
                    if !P::before(a, c) {
                        P::lemma_ties_carry_over(b, a, c);
                    }
                } else {
                    P::lemma_ties_carry_over(c, b, a);
                }
            }
        }
    }
    assert forall|x: usize, y: usize| #[trigger] order(x, y) || #[trigger] order(y, x) by {
        if x < items.len() && y < items.len() {
            if P::before(items[x as int], items[y as int]) {
                P::lemma_asymmetric(items[x as int], items[y as int]);
            }
        }
    }
    assert forall|x: usize| #[trigger] order(x, x) by {
        if x < items.len() {
            if P::before(items[x as int], items[x as int]) {
                P::lemma_asymmetric(items[x as int], items[x as int]);
            }
        }
    }
}

/// The ranking of a sequence holds every position once, and holds them in
/// order.
pub proof fn lemma_ranking_is_an_ordered_permutation<T, P: Precedence<T>>(items: Seq<T>)
    ensures
        ranking::<T, P>(items).to_multiset() == positions(items.len()).to_multiset(),
        ranking::<T, P>(items).len() == items.len(),
        sorted_by(ranking::<T, P>(items), position_order::<T, P>(items)),
        forall|k: int|
            0 <= k < items.len() ==> (#[trigger] ranking::<T, P>(items)[k]) < items.len(),
        forall|p: usize| p < items.len() ==> ranking::<T, P>(items).contains(p),
{
    broadcast use group_to_multiset_ensures;

    let order = position_order::<T, P>(items);
    let all = positions(items.len());
    let ranks = ranking::<T, P>(items);
    lemma_position_order_is_total::<T, P>(items);
    all.lemma_sort_by_ensures(order);
    assert(ranks.to_multiset() =~= all.to_multiset());
    assert(ranks.len() == ranks.to_multiset().len());
    assert(all.len() == all.to_multiset().len());
    assert forall|k: int| 0 <= k < items.len() implies (#[trigger] ranks[k]) < items.len() by {
        let p = ranks[k];
        assert(ranks.contains(p));
        if !all.contains(p) {
            assert(!ranks.contains(p));
        }
        let i = choose|i: int| 0 <= i < all.len() && all[i] == p;
        assert(all[i] == i as usize);
    }
    assert forall|p: usize| p < items.len() implies ranks.contains(p) by {
        assert(all[p as int] == p);
        assert(all.contains(p));
        assert(all.to_multiset().count(p) > 0);
    }
}

/// Ranked items are in order, and items of which neither goes first keep
/// the order in which they came.
pub proof fn lemma_ranked_is_ordered_and_stable<T, P: Precedence<T>>(items: Seq<T>, a: int, b: int)
    requires
        items.len() <= usize::MAX,
        0 <= a < b < items.len(),
    ensures
        ranked::<T, P>(items).len() == items.len(),
        !P::before(ranked::<T, P>(items)[b], ranked::<T, P>(items)[a]),
        !P::before(ranked::<T, P>(items)[a], ranked::<T, P>(items)[b]) ==> ranking::<T, P>(
            items,
        )[a] < ranking::<T, P>(items)[b],
{
    lemma_ranking_is_an_ordered_permutation::<T, P>(items);
    lemma_ranking_has_no_twins::<T, P>(items, a, b);
    let ranks = ranking::<T, P>(items);
    let order = position_order::<T, P>(items);
    assert(order(ranks[a], ranks[b]));
    assert(ranks[a] < items.len());
    assert(ranks[b] < items.len());
    if P::before(items[ranks[a] as int], items[ranks[b] as int]) {
        P::lemma_asymmetric(items[ranks[a] as int], items[ranks[b] as int]);
    }
}

/// No position occurs twice in a ranking.
pub proof fn lemma_ranking_has_no_twins<T, P: Precedence<T>>(items: Seq<T>, a: int, b: int)
    requires
        items.len() <= usize::MAX,
        0 <= a < b < items.len(),
    ensures
        ranking::<T, P>(items)[a] != ranking::<T, P>(items)[b],
{
    broadcast use group_to_multiset_ensures;

    lemma_ranking_is_an_ordered_permutation::<T, P>(items);
    let ranks = ranking::<T, P>(items);
    let all = positions(items.len());
    if ranks[a] == ranks[b] {
        let p = ranks[a];
        lemma_positions_are_distinct(items.len(), p);
        let shorter = ranks.remove(b);
        assert(shorter[a] == p);
        assert(shorter.contains(p));
        assert(shorter.to_multiset().count(p) > 0);
        assert(shorter.to_multiset() =~= ranks.to_multiset().remove(p));
        assert(ranks.to_multiset().count(p) >= 2);
    }
}

proof fn lemma_positions_are_distinct(n: nat, p: usize)
    requires
        n <= usize::MAX,
    ensures
        positions(n).to_multiset().count(p) <= 1,
    decreases n,
{
    broadcast use group_to_multiset_ensures;

    if n == 0 {
        assert(!positions(n).contains(p));
    } else {
        let shorter = positions((n - 1) as nat);
        lemma_positions_are_distinct((n - 1) as nat, p);
        assert(positions(n) =~= shorter.push((n - 1) as usize));
        if p == (n - 1) as usize {
            if shorter.contains(p) {
                let i = choose|i: int| 0 <= i < shorter.len() && shorter[i] == p;
                assert(shorter[i] == i as usize);
            }
            assert(shorter.to_multiset().count(p) == 0);
        }
    }
}

fn stands_at_or_before<T, P: Precedence<T>>(items: &Vec<T>, i: usize, j: usize) -> (r: bool)
    requires
        i < items.len(),
        j < items.len(),
    ensures
        r == stands_before::<T, P>(items@, i, j),
{
    if P::is_before(&items[i], &items[j]) {
        true
    } else if P::is_before(&items[j], &items[i]) {
        false
    } else {
        i <= j
    }
}

fn merge_positions<T, P: Precedence<T>>(items: &Vec<T>, left: &Vec<usize>, right: &Vec<usize>) -> (out:
    Vec<usize>)
    requires
        sorted_by(left@, position_order::<T, P>(items@)),
        sorted_by(right@, position_order::<T, P>(items@)),
        forall|k: int| 0 <= k < left.len() ==> (#[trigger] left[k]) < items.len(),
        forall|k: int| 0 <= k < right.len() ==> (#[trigger] right[k]) < items.len(),
    ensures
        sorted_by(out@, position_order::<T, P>(items@)),
        out@.to_multiset() == left@.to_multiset().add(right@.to_multiset()),
        forall|k: int| 0 <= k < out.len() ==> (#[trigger] out[k]) < items.len(),
{
    broadcast use group_to_multiset_ensures;
    broadcast use vstd::multiset::group_multiset_axioms;

    let ghost order = position_order::<T, P>(items@);
    proof {
        lemma_position_order_is_total::<T, P>(items@);
    }
    let mut out: Vec<usize> = Vec::new();
    let mut i: usize = 0;
    let mut j: usize = 0;
    assert(left@.take(0) =~= Seq::<usize>::empty());
    assert(right@.take(0) =~= Seq::<usize>::empty());
    assert(out@.to_multiset() =~= left@.take(0).to_multiset().add(right@.take(0).to_multiset()));
    while i < left.len() || j < right.len()
        invariant
            i <= left.len(),
            j <= right.len(),
            order == position_order::<T, P>(items@),
            total_ordering(order),
            sorted_by(left@, order),
            sorted_by(right@, order),
            sorted_by(out@, order),
            forall|k: int| 0 <= k < left.len() ==> (#[trigger] left[k]) < items.len(),
            forall|k: int| 0 <= k < right.len() ==> (#[trigger] right[k]) < items.len(),
            forall|k: int| 0 <= k < out.len() ==> (#[trigger] out[k]) < items.len(),
            forall|k: int, m: int|
                0 <= k < out.len() && i <= m < left.len() ==> order(
                    #[trigger] out[k],
                    #[trigger] left[m],
                ),
            forall|k: int, m: int|
                0 <= k < out.len() && j <= m < right.len() ==> order(
                    #[trigger] out[k],
                    #[trigger] right[m],
                ),
            out@.to_multiset() == left@.take(i as int).to_multiset().add(
                right@.take(j as int).to_multiset(),
            ),
        decreases left.len() - i + right.len() - j,
    {
        let from_left = if i == left.len() {
            false
        } else if j == right.len() {
            true
        } else {
            stands_at_or_before::<T, P>(items, left[i], right[j])
        };
        if from_left {
            let p = left[i];
            assert forall|m: int| j <= m < right.len() implies order(p, #[trigger] right[m]) by {
                assert(order(p, right[j as int]) == stands_before::<T, P>(
                    items@,
                    p,
                    right[j as int],
                ));
                assert(order(p, right[j as int]));
                if m > j {
                    assert(order(right[j as int], right[m]));
                }
            }
            assert forall|m: int| i + 1 <= m < left.len() implies order(p, #[trigger] left[m]) by {
                assert(order(left[i as int], left[m]));
            }
            assert(left@.take(i + 1) =~= left@.take(i as int).push(p));
            let ghost before = out@;
            out.push(p);
            i += 1;
            proof {
                vstd::seq_lib::to_multiset_build(before, p);
                vstd::seq_lib::to_multiset_build(left@.take(i - 1), p);
                assert(out@ =~= before.push(p));
                assert(left@.take(i as int) =~= left@.take(i - 1).push(p));
            }
            assert(out@.to_multiset() =~= left@.take(i as int).to_multiset().add(
                right@.take(j as int).to_multiset(),
            ));
        } else {
            let p = right[j];
            assert forall|m: int| i <= m < left.len() implies order(p, #[trigger] left[m]) by {
                assert(order(left[i as int], p) == stands_before::<T, P>(
                    items@,
                    left[i as int],
                    p,
                ));
                assert(!order(left[i as int], p));
                assert(order(p, left[i as int]));
                if m > i {
                    assert(order(left[i as int], left[m]));
                }
            }
            assert forall|m: int| j + 1 <= m < right.len() implies order(p, #[trigger] right[m]) by {
                assert(order(right[j as int], right[m]));
            }
            assert(right@.take(j + 1) =~= right@.take(j as int).push(p));
            let ghost before = out@;
            out.push(p);
            j += 1;
            proof {
                vstd::seq_lib::to_multiset_build(before, p);
                vstd::seq_lib::to_multiset_build(right@.take(j - 1), p);
                assert(out@ =~= before.push(p));
                assert(right@.take(j as int) =~= right@.take(j - 1).push(p));
            }
            assert(out@.to_multiset() =~= left@.take(i as int).to_multiset().add(
                right@.take(j as int).to_multiset(),
            ));
        }
    }
    assert(left@.take(i as int) =~= left@);
    assert(right@.take(j as int) =~= right@);
    out
}

/// The positions from `lo` up to `hi`, in order.
pub open spec fn span(lo: usize, hi: usize) -> Seq<usize> {
    Seq::new((hi - lo) as nat, |k: int| (lo + k) as usize)
}

fn rank_span<T, P: Precedence<T>>(items: &Vec<T>, lo: usize, hi: usize) -> (out: Vec<usize>)
    requires
        lo <= hi <= items.len(),
    ensures
        sorted_by(out@, position_order::<T, P>(items@)),
        out@.to_multiset() == span(lo, hi).to_multiset(),
        forall|k: int| 0 <= k < out.len() ==> (#[trigger] out[k]) < items.len(),
    decreases hi - lo,
{
    broadcast use group_to_multiset_ensures;

    if hi - lo == 0 {
        let out: Vec<usize> = Vec::new();
        assert(out@ =~= span(lo, hi));
        out
    } else if hi - lo == 1 {
        let mut out: Vec<usize> = Vec::new();
        out.push(lo);
        assert(out@ =~= span(lo, hi));
        out
    } else {
        let mid = lo + (hi - lo) / 2;
        let left = rank_span::<T, P>(items, lo, mid);
        let right = rank_span::<T, P>(items, mid, hi);
        let out = merge_positions::<T, P>(items, &left, &right);
        proof {
            assert(span(lo, hi) =~= span(lo, mid) + span(mid, hi));
            lemma_multiset_commutative(span(lo, mid), span(mid, hi));
        }
        out
    }
}

/// Rank the positions of `items`: positions whose items go first stand
/// first, and positions of items of which neither goes first stay in the
/// order in which they came.
pub fn rank_positions<T, P: Precedence<T>>(items: &Vec<T>) -> (out: Vec<usize>)
    ensures
        out@ == ranking::<T, P>(items@),
        out@.len() == items@.len(),
        forall|k: int| 0 <= k < out.len() ==> (#[trigger] out[k]) < items.len(),
{
    let out = rank_span::<T, P>(items, 0, items.len());
    proof {
        let order = position_order::<T, P>(items@);
        lemma_position_order_is_total::<T, P>(items@);
        lemma_ranking_is_an_ordered_permutation::<T, P>(items@);
        assert(span(0, items.len()) =~= positions(items@.len()));
        lemma_sorted_unique(out@, ranking::<T, P>(items@), order);
    }
    out
}

} // verus!
