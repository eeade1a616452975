//! Sorting by a total order: a merge sort, for whatever can be ranked.

use vstd::prelude::*;
use vstd::relations::{sorted_by, total_ordering};
use vstd::seq_lib::{
    group_to_multiset_ensures, lemma_multiset_commutative, lemma_sorted_unique, to_multiset_build,
};

verus! {

/// Values that are compared by a rank, and whose ranks are totally ordered.
pub trait Ranked: Sized {
    /// What a value is compared by.
    type Rank;

    /// The rank of a value.
    spec fn rank(&self) -> Self::Rank;

    /// The order of ranks: `order()(a, b)` says that `a` does not come
    /// after `b`.
    spec fn order() -> spec_fn(Self::Rank, Self::Rank) -> bool;

    /// The order of ranks is total.
    proof fn lemma_order_total()
        ensures
            total_ordering(Self::order()),
    ;

    /// Whether this value does not come after the other.
    fn not_after(&self, other: &Self) -> (first: bool)
        ensures
            first == Self::order()(self.rank(), other.rank()),
    ;

    /// A value of the same rank.
    fn duplicate(&self) -> (copy: Self)
        ensures
            copy.rank() == self.rank(),
    ;
}

/// The ranks of a list of values, one for one.
pub open spec fn ranks<T: Ranked>(items: Seq<T>) -> Seq<T::Rank> {
    items.map_values(|item: T| item.rank())
}

/// Merges two sorted lists into one.
fn merge<T: Ranked>(left: &Vec<T>, right: &Vec<T>) -> (out: Vec<T>)
    requires
        sorted_by(ranks(left@), T::order()),
        sorted_by(ranks(right@), T::order()),
        left.len() + right.len() <= usize::MAX,
    ensures
        sorted_by(ranks(out@), T::order()),
        ranks(out@).to_multiset() == ranks(left@).to_multiset().add(ranks(right@).to_multiset()),
        out.len() == left.len() + right.len(),
{
    broadcast use {vstd::multiset::group_multiset_axioms, group_to_multiset_ensures};

    let ghost le = T::order();
    let ghost l = ranks(left@);
    let ghost r = ranks(right@);
    proof {
        T::lemma_order_total();
    }
    let mut out: Vec<T> = Vec::new();
    let mut i: usize = 0;
    let mut j: usize = 0;
    assert(l.take(0) =~= Seq::<T::Rank>::empty());
    assert(r.take(0) =~= Seq::<T::Rank>::empty());
    assert(ranks(out@) =~= Seq::<T::Rank>::empty());
    while i < left.len() || j < right.len()
        invariant
            i <= left.len(),
            j <= right.len(),
            left.len() + right.len() <= usize::MAX,
            le == T::order(),
            total_ordering(le),
            l == ranks(left@),
            r == ranks(right@),
            sorted_by(l, le),
            sorted_by(r, le),
            out.len() == i + j,
            sorted_by(ranks(out@), le),
            ranks(out@).to_multiset() == l.take(i as int).to_multiset().add(
                r.take(j as int).to_multiset(),
            ),
            forall|k: int, p: int|
                0 <= k < out.len() && i <= p < l.len() ==> #[trigger] le(ranks(out@)[k], l[p]),
            forall|k: int, q: int|
                0 <= k < out.len() && j <= q < r.len() ==> #[trigger] le(ranks(out@)[k], r[q]),
        decreases left.len() - i + right.len() - j,
    {
        let from_left = if j >= right.len() {
            true
        } else if i >= left.len() {
            false
        } else {
            left[i].not_after(&right[j])
        };
        let ghost before = ranks(out@);
        let ghost taken_left = l.take(i as int).to_multiset();
        let ghost taken_right = r.take(j as int).to_multiset();
        if from_left {
            let item = left[i].duplicate();
            proof {
                let x = l[i as int];
                assert(ranks(out@.push(item)) =~= before.push(x));
                assert(l.take(i + 1) =~= l.take(i as int).push(x));
                to_multiset_build(l.take(i as int), x);
                to_multiset_build(before, x);
                assert(taken_left.insert(x).add(taken_right) =~= taken_left.add(
                    taken_right,
                ).insert(x));
                assert forall|p: int| i < p < l.len() implies le(x, #[trigger] l[p]) by {}
                assert forall|q: int| j <= q < r.len() implies le(x, #[trigger] r[q]) by {
                    assert(le(x, r[j as int]));
                    assert(le(r[j as int], r[q]));
                }
            }
            out.push(item);
            i += 1;
        } else {
            let item = right[j].duplicate();
            proof {
                let x = r[j as int];
                assert(ranks(out@.push(item)) =~= before.push(x));
                assert(r.take(j + 1) =~= r.take(j as int).push(x));
                to_multiset_build(r.take(j as int), x);
                to_multiset_build(before, x);
                assert(taken_left.add(taken_right.insert(x)) =~= taken_left.add(
                    taken_right,
                ).insert(x));
                assert forall|q: int| j < q < r.len() implies le(x, #[trigger] r[q]) by {}
                assert forall|p: int| i <= p < l.len() implies le(x, #[trigger] l[p]) by {
                    assert(le(l[i as int], x) || le(x, l[i as int]));
                    assert(le(l[i as int], l[p]));
                }
            }
            out.push(item);
            j += 1;
        }
    }
    assert(l.take(i as int) =~= l);
    assert(r.take(j as int) =~= r);
    out
}

/// Sorts the items at positions `lo` up to `hi` into a new list.
fn sort_range<T: Ranked>(items: &Vec<T>, lo: usize, hi: usize) -> (out: Vec<T>)
    requires
        lo <= hi <= items.len(),
    ensures
        sorted_by(ranks(out@), T::order()),
        ranks(out@).to_multiset() == ranks(items@).subrange(lo as int, hi as int).to_multiset(),
        out.len() == hi - lo,
    decreases hi - lo,
{
    broadcast use {vstd::multiset::group_multiset_axioms, group_to_multiset_ensures};

    let ghost all = ranks(items@);
    let mut out: Vec<T> = Vec::new();
    if hi - lo == 0 {
        assert(ranks(out@) =~= all.subrange(lo as int, hi as int));
        out
    } else if hi - lo == 1 {
        out.push(items[lo].duplicate());
        assert(ranks(out@) =~= all.subrange(lo as int, hi as int));
        out
    } else {
        let mid: usize = lo + (hi - lo) / 2;
        let left = sort_range(items, lo, mid);
        let right = sort_range(items, mid, hi);
        proof {
            assert(all.subrange(lo as int, hi as int) =~= all.subrange(lo as int, mid as int)
                + all.subrange(mid as int, hi as int));
            lemma_multiset_commutative(
                all.subrange(lo as int, mid as int),
                all.subrange(mid as int, hi as int),
            );
        }
        merge(&left, &right)
    }
}

/// A sorted list of the items: the one list in which no rank comes after a
/// later one and which holds each rank as often as `items` does.
pub fn sort<T: Ranked>(items: &Vec<T>) -> (out: Vec<T>)
    ensures
        ranks(out@) == ranks(items@).sort_by(T::order()),
{
    let out = sort_range(items, 0, items.len());
    proof {
        let all = ranks(items@);
        assert(all.subrange(0, items.len() as int) =~= all);
        T::lemma_order_total();
        all.lemma_sort_by_ensures(T::order());
        lemma_sorted_unique(ranks(out@), all.sort_by(T::order()), T::order());
    }
    out
}

} // verus!
