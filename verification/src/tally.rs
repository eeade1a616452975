//! Counting labels with a `counter::Counter`.
//!
//! Nothing here is proved: each function holds one call into the `counter`
//! crate, and its contract says what that crate's source shows of the call.

use counter::Counter;
use std::hash::RandomState;
use vstd::multiset::Multiset;
use vstd::prelude::*;

verus! {

#[verifier::external_type_specification]
#[verifier::external_body]
#[verifier::reject_recursive_types(T)]
#[verifier::reject_recursive_types(N)]
#[verifier::reject_recursive_types(S)]
pub struct ExCounter<T, N, S>(Counter<T, N, S>);

/// What a counter holds: each label as often as it was counted. A label
/// that the counter has no entry for, or an entry of zero, is not in it.
pub uninterp spec fn tally_contents(tally: Counter<String, usize, RandomState>) -> Multiset<Seq<char>>;

/// `Counter::new`: a counter without entries.
#[verifier::external_body]
pub(crate) fn tally_new() -> (tally: Counter<String, usize, RandomState>)
    ensures
        tally_contents(tally) == Multiset::<Seq<char>>::empty(),
{
    Counter::new()
}

/// `Counter`'s `Index::index`: the count in the label's entry, and zero
/// where the counter has no entry for the label.
#[verifier::external_body]
pub(crate) fn tally_count(tally: &Counter<String, usize, RandomState>, label: &String) -> (count: usize)
    ensures
        count == tally_contents(*tally).count(label@),
{
    tally[label]
}

/// `Counter::update` with one label: the label's entry, made with zero
/// where there was none, goes up by one, and no other entry changes. The
/// count must have room to go up.
#[verifier::external_body]
pub(crate) fn tally_add(tally: &mut Counter<String, usize, RandomState>, label: String)
    requires
        tally_contents(*old(tally)).count(label@) < usize::MAX,
    ensures
        tally_contents(*final(tally)) == tally_contents(*old(tally)).insert(label@),
{
    tally.update([label]);
}

} // verus!
