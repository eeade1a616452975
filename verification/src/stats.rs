//! Counting keys by the structure of their names.

use vstd::prelude::*;
use vstd::relations::*;
use vstd::seq_lib::*;

use crate::classify::{chars_of, classify, classify_key};
use crate::keys::{key_views, lemma_key_views_push};
use crate::sorting::{ranks, sort, Ranked};
use crate::tally::{tally_add, tally_contents, tally_count, tally_new};

verus! {

/// The labels of the keys that start with the prefix, in the order of the
/// keys.
pub open spec fn labels_of(keys: Seq<Seq<char>>, prefix: Seq<char>, delimiter: Seq<char>) -> Seq<
    Seq<char>,
>
    decreases keys.len(),
{
    if keys.len() == 0 {
        Seq::empty()
    } else {
        let before = labels_of(keys.drop_last(), prefix, delimiter);
        match classify(keys.last(), prefix, delimiter) {
            Some(label) => before.push(label),
            None => before,
        }
    }
}

/// The number of keys that do not start with the prefix.
pub open spec fn unmatched_count(keys: Seq<Seq<char>>, prefix: Seq<char>) -> nat
    decreases keys.len(),
{
    if keys.len() == 0 {
        0
    } else if prefix.is_prefix_of(keys.last()) {
        unmatched_count(keys.drop_last(), prefix)
    } else {
        unmatched_count(keys.drop_last(), prefix) + 1
    }
}

/// The labels without their repetitions, each where it was first seen.
pub open spec fn first_seen(labels: Seq<Seq<char>>) -> Seq<Seq<char>>
    decreases labels.len(),
{
    if labels.len() == 0 {
        Seq::empty()
    } else {
        let before = first_seen(labels.drop_last());
        if before.contains(labels.last()) {
            before
        } else {
            before.push(labels.last())
        }
    }
}

/// How often a label occurs among the labels.
pub open spec fn occurrences(labels: Seq<Seq<char>>, label: Seq<char>) -> nat {
    labels.to_multiset().count(label)
}

/// One slot for each group: its count, and its place in first-seen order.
pub open spec fn slots(labels: Seq<Seq<char>>) -> Seq<(int, int)> {
    let seen = first_seen(labels);
    Seq::new(seen.len(), |place: int| (occurrences(labels, seen[place]) as int, place))
}

/// A slot stands before another in the ranking when its count is higher, or
/// the counts are equal and it was seen first.
pub open spec fn outranks(a: (int, int), b: (int, int)) -> bool {
    a.0 > b.0 || (a.0 == b.0 && a.1 <= b.1)
}

/// `outranks` as a relation.
pub open spec fn rank_order() -> spec_fn((int, int), (int, int)) -> bool {
    |a: (int, int), b: (int, int)| outranks(a, b)
}

/// The slots in ranking order.
pub open spec fn ranking(labels: Seq<Seq<char>>) -> Seq<(int, int)> {
    slots(labels).sort_by(rank_order())
}

/// The groups of a report: label and count, in ranking order.
pub open spec fn ranked_groups(labels: Seq<Seq<char>>) -> Seq<(Seq<char>, nat)> {
    let seen = first_seen(labels);
    ranking(labels).map_values(|slot: (int, int)| (seen[slot.1], slot.0 as nat))
}

/// The sum of the counts of a list of groups.
pub open spec fn count_total(groups: Seq<(Seq<char>, nat)>) -> nat
    decreases groups.len(),
{
    if groups.len() == 0 {
        0
    } else {
        count_total(groups.drop_last()) + groups.last().1
    }
}

spec fn slot_total(slots: Seq<(int, int)>) -> int
    decreases slots.len(),
{
    if slots.len() == 0 {
        0
    } else {
        slot_total(slots.drop_last()) + slots.last().0
    }
}

spec fn seen_total(seen: Seq<Seq<char>>, labels: Seq<Seq<char>>) -> int
    decreases seen.len(),
{
    if seen.len() == 0 {
        0
    } else {
        seen_total(seen.drop_last(), labels) + occurrences(labels, seen.last())
    }
}

/// The ranking order is a total order of slots.
pub proof fn lemma_rank_order_total()
    ensures
        total_ordering(rank_order()),
{
    let r = rank_order();
    assert forall|x: (int, int)| #[trigger] r(x, x) by {}
    assert forall|x: (int, int), y: (int, int)| #[trigger] r(x, y) && #[trigger] r(y, x) implies x
        == y by {}
    assert forall|x: (int, int), y: (int, int), z: (int, int)| #[trigger]
        r(x, y) && #[trigger] r(y, z) implies r(x, z) by {}
    assert forall|x: (int, int), y: (int, int)| #[trigger] r(x, y) || #[trigger] r(y, x) by {}
}

/// First-seen order holds each label that occurs, once.
pub proof fn lemma_first_seen(labels: Seq<Seq<char>>)
    ensures
        first_seen(labels).no_duplicates(),
        first_seen(labels).len() <= labels.len(),
        forall|label: Seq<char>| first_seen(labels).contains(label) <==> labels.contains(label),
    decreases labels.len(),
{
    if labels.len() > 0 {
        let front = labels.drop_last();
        lemma_first_seen(front);
        let before = first_seen(front);
        assert forall|label: Seq<char>| first_seen(labels).contains(label) <==> labels.contains(
            label,
        ) by {
            if labels.contains(label) {
                let i = choose|i: int| 0 <= i < labels.len() && labels[i] == label;
                if i < front.len() {
                    assert(front[i] == label);
                    assert(front.contains(label));
                    assert(before.contains(label));
                    let j = choose|j: int| 0 <= j < before.len() && before[j] == label;
                    assert(first_seen(labels)[j] == label);
                } else if !before.contains(label) {
                    assert(first_seen(labels)[before.len() as int] == label);
                }
            }
            if first_seen(labels).contains(label) {
                let j = choose|j: int| 0 <= j < first_seen(labels).len() && first_seen(labels)[j]
                    == label;
                if j < before.len() {
                    assert(before[j] == label);
                    assert(front.contains(label));
                    let i = choose|i: int| 0 <= i < front.len() && front[i] == label;
                    assert(labels[i] == label);
                } else {
                    assert(labels[labels.len() - 1] == label);
                }
            }
        }
    }
}

proof fn lemma_occurrences_push(labels: Seq<Seq<char>>, last: Seq<char>, label: Seq<char>)
    ensures
        occurrences(labels.push(last), label) == occurrences(labels, label) + (if label == last {
            1int
        } else {
            0int
        }),
        labels.contains(label) <==> occurrences(labels, label) > 0,
{
    broadcast use vstd::multiset::group_multiset_axioms;

    to_multiset_build(labels, last);
    to_multiset_contains(labels, label);
}

proof fn lemma_seen_total_push(seen: Seq<Seq<char>>, labels: Seq<Seq<char>>, last: Seq<char>)
    requires
        seen.no_duplicates(),
    ensures
        seen_total(seen, labels.push(last)) == seen_total(seen, labels) + (if seen.contains(last) {
            1int
        } else {
            0int
        }),
    decreases seen.len(),
{
    if seen.len() > 0 {
        let front = seen.drop_last();
        lemma_seen_total_push(front, labels, last);
        lemma_occurrences_push(labels, last, seen.last());
        if seen.last() == last {
            if front.contains(last) {
                let i = choose|i: int| 0 <= i < front.len() && front[i] == last;
                assert(seen[i] == seen[seen.len() - 1]);
            }
            assert(seen[seen.len() - 1] == last);
        } else {
            if seen.contains(last) {
                let i = choose|i: int| 0 <= i < seen.len() && seen[i] == last;
                assert(front[i] == last);
            }
            if front.contains(last) {
                let i = choose|i: int| 0 <= i < front.len() && front[i] == last;
                assert(seen[i] == last);
            }
        }
    }
}

proof fn lemma_seen_total(labels: Seq<Seq<char>>)
    ensures
        seen_total(first_seen(labels), labels) == labels.len(),
    decreases labels.len(),
{
    if labels.len() > 0 {
        let front = labels.drop_last();
        let last = labels.last();
        let before = first_seen(front);
        assert(labels =~= front.push(last));
        lemma_seen_total(front);
        lemma_first_seen(front);
        lemma_seen_total_push(before, front, last);
        if !before.contains(last) {
            lemma_occurrences_push(front, last, last);
            assert(before.push(last).drop_last() =~= before);
        }
    }
}

proof fn lemma_slot_total_seen(labels: Seq<Seq<char>>, n: int)
    requires
        0 <= n <= first_seen(labels).len(),
    ensures
        slot_total(slots(labels).take(n)) == seen_total(first_seen(labels).take(n), labels),
    decreases n,
{
    if n > 0 {
        lemma_slot_total_seen(labels, n - 1);
        assert(slots(labels).take(n).drop_last() =~= slots(labels).take(n - 1));
        assert(first_seen(labels).take(n).drop_last() =~= first_seen(labels).take(n - 1));
    }
}

proof fn lemma_slot_total_remove(slots: Seq<(int, int)>, k: int)
    requires
        0 <= k < slots.len(),
    ensures
        slot_total(slots) == slot_total(slots.remove(k)) + slots[k].0,
    decreases slots.len(),
{
    if k == slots.len() - 1 {
        assert(slots.remove(k) =~= slots.drop_last());
    } else {
        lemma_slot_total_remove(slots.drop_last(), k);
        assert(slots.remove(k).drop_last() =~= slots.drop_last().remove(k));
    }
}

proof fn lemma_slot_total_permuted(a: Seq<(int, int)>, b: Seq<(int, int)>)
    requires
        a.to_multiset() == b.to_multiset(),
    ensures
        slot_total(a) == slot_total(b),
    decreases a.len(),
{
    broadcast use vstd::multiset::group_multiset_axioms;

    to_multiset_len(a);
    to_multiset_len(b);
    if a.len() > 0 {
        let x = a.last();
        to_multiset_contains(a, x);
        to_multiset_contains(b, x);
        assert(a[a.len() - 1] == x);
        let k = choose|k: int| 0 <= k < b.len() && b[k] == x;
        to_multiset_remove(a, a.len() - 1);
        to_multiset_remove(b, k);
        assert(a.remove(a.len() - 1) =~= a.drop_last());
        lemma_slot_total_permuted(a.drop_last(), b.remove(k));
        lemma_slot_total_remove(b, k);
    }
}

proof fn lemma_count_total_slots(ranked: Seq<(int, int)>, seen: Seq<Seq<char>>)
    requires
        forall|i: int| 0 <= i < ranked.len() ==> (#[trigger] ranked[i]).0 >= 0,
    ensures
        count_total(ranked.map_values(|slot: (int, int)| (seen[slot.1], slot.0 as nat)))
            == slot_total(ranked),
    decreases ranked.len(),
{
    let f = |slot: (int, int)| (seen[slot.1], slot.0 as nat);
    if ranked.len() > 0 {
        lemma_count_total_slots(ranked.drop_last(), seen);
        assert(ranked.map_values(f).drop_last() =~= ranked.drop_last().map_values(f));
        assert(ranked[ranked.len() - 1].0 >= 0);
    }
}

/// What the ranking is made of: the slots, each once, in ranking order.
pub proof fn lemma_ranking(labels: Seq<Seq<char>>)
    ensures
        ranking(labels).len() == first_seen(labels).len(),
        ranking(labels).to_multiset() == slots(labels).to_multiset(),
        sorted_by(ranking(labels), rank_order()),
        forall|i: int|
            0 <= i < ranking(labels).len() ==> {
                let slot = #[trigger] ranking(labels)[i];
                &&& 0 <= slot.1 < first_seen(labels).len()
                &&& slot.0 == occurrences(labels, first_seen(labels)[slot.1])
            },
{
    lemma_rank_order_total();
    let all = slots(labels);
    all.lemma_sort_by_ensures(rank_order());
    to_multiset_len(all);
    to_multiset_len(ranking(labels));
    assert forall|i: int| 0 <= i < ranking(labels).len() implies {
        let slot = #[trigger] ranking(labels)[i];
        &&& 0 <= slot.1 < first_seen(labels).len()
        &&& slot.0 == occurrences(labels, first_seen(labels)[slot.1])
    } by {
        let slot = ranking(labels)[i];
        assert(ranking(labels).contains(slot));
        assert(all.contains(slot));
        let k = choose|k: int| 0 <= k < all.len() && all[k] == slot;
        assert(all[k] == slot);
    }
}

/// Every key is counted once: the counts of the groups and the number of
/// keys without the prefix add up to the number of keys.
pub proof fn lemma_counts_add_up(keys: Seq<Seq<char>>, prefix: Seq<char>, delimiter: Seq<char>)
    ensures
        count_total(ranked_groups(labels_of(keys, prefix, delimiter))) + unmatched_count(
            keys,
            prefix,
        ) == keys.len(),
{
    let labels = labels_of(keys, prefix, delimiter);
    lemma_labels_and_unmatched(keys, prefix, delimiter);
    lemma_ranking(labels);
    lemma_count_total_slots(ranking(labels), first_seen(labels));
    lemma_slot_total_permuted(ranking(labels), slots(labels));
    lemma_slot_total_seen(labels, first_seen(labels).len() as int);
    assert(slots(labels).take(first_seen(labels).len() as int) =~= slots(labels));
    assert(first_seen(labels).take(first_seen(labels).len() as int) =~= first_seen(labels));
    lemma_seen_total(labels);
}

proof fn lemma_labels_and_unmatched(keys: Seq<Seq<char>>, prefix: Seq<char>, delimiter: Seq<char>)
    ensures
        labels_of(keys, prefix, delimiter).len() + unmatched_count(keys, prefix) == keys.len(),
    decreases keys.len(),
{
    if keys.len() > 0 {
        lemma_labels_and_unmatched(keys.drop_last(), prefix, delimiter);
    }
}

/// The groups stand in descending order of their counts, and groups of
/// equal count in the order in which their labels were first seen. Each
/// label that occurs has one group, whose count is the number of its
/// occurrences.
pub proof fn lemma_groups_ranked(labels: Seq<Seq<char>>)
    ensures
        ranked_groups(labels).len() == first_seen(labels).len(),
        forall|i: int|
            0 <= i < ranked_groups(labels).len() ==> {
                let group = #[trigger] ranked_groups(labels)[i];
                &&& group.0 == first_seen(labels)[ranking(labels)[i].1]
                &&& group.1 == occurrences(labels, group.0)
                &&& group.1 > 0
            },
        forall|i: int, j: int|
            0 <= i < j < ranked_groups(labels).len() ==> {
                let first = #[trigger] ranked_groups(labels)[i];
                let second = #[trigger] ranked_groups(labels)[j];
                &&& first.1 >= second.1
                &&& first.1 == second.1 ==> ranking(labels)[i].1 < ranking(labels)[j].1
                &&& first.0 != second.0
            },
{
    let seen = first_seen(labels);
    let ranked = ranking(labels);
    let groups = ranked_groups(labels);
    lemma_ranking(labels);
    lemma_first_seen(labels);
    assert forall|i: int| 0 <= i < groups.len() implies {
        let group = #[trigger] groups[i];
        &&& group.0 == seen[ranked[i].1]
        &&& group.1 == occurrences(labels, group.0)
        &&& group.1 > 0
    } by {
        let slot = ranked[i];
        assert(seen.contains(seen[slot.1]));
        lemma_occurrences_push(labels, seen[slot.1], seen[slot.1]);
    }
    assert forall|i: int, j: int| 0 <= i < j < groups.len() implies {
        let first = #[trigger] groups[i];
        let second = #[trigger] groups[j];
        &&& first.1 >= second.1
        &&& first.1 == second.1 ==> ranked[i].1 < ranked[j].1
        &&& first.0 != second.0
    } by {
        let r = rank_order();
        assert(r(ranked[i], ranked[j]));
        lemma_slots_distinct(labels, i, j);
    }
}

proof fn lemma_slots_distinct(labels: Seq<Seq<char>>, i: int, j: int)
    requires
        0 <= i < j < ranking(labels).len(),
    ensures
        ranking(labels)[i].1 != ranking(labels)[j].1,
{
    let all = slots(labels);
    let ranked = ranking(labels);
    lemma_ranking(labels);
    assert(all.no_duplicates());
    all.lemma_multiset_has_no_duplicates();
    ranked.lemma_multiset_has_no_duplicates_conv();
    if ranked[i].1 == ranked[j].1 {
        assert(ranked[i] == ranked[j]);
    }
}

/// One group on its way into the ranking: its count, and its place in
/// first-seen order.
struct Slot {
    count: usize,
    place: usize,
}

impl Ranked for Slot {
    type Rank = (int, int);

    closed spec fn rank(&self) -> (int, int) {
        (self.count as int, self.place as int)
    }

    open spec fn order() -> spec_fn((int, int), (int, int)) -> bool {
        rank_order()
    }

    proof fn lemma_order_total() {
        lemma_rank_order_total();
    }

    fn not_after(&self, other: &Self) -> (first: bool) {
        self.count > other.count || (self.count == other.count && self.place <= other.place)
    }

    fn duplicate(&self) -> (copy: Self) {
        Slot { count: self.count, place: self.place }
    }
}

/// One group of keys: its label, and how many keys bear it.
#[derive(Debug, Clone, PartialEq, Eq)]
pub struct KeyGroup {
    pub label: String,
    pub count: usize,
}

/// The census of a list of keys: the groups, the most frequent first, and the
/// number of keys that do not start with the prefix.
#[derive(Debug, Clone, PartialEq, Eq)]
pub struct StatsReport {
    pub groups: Vec<KeyGroup>,
    pub unmatched: usize,
}

/// Label and count of each group, in their order.
pub open spec fn group_views(groups: Seq<KeyGroup>) -> Seq<(Seq<char>, nat)> {
    groups.map_values(|group: KeyGroup| (group.label@, group.count as nat))
}

impl KeyGroup {
    /// The label as it is shown: with the prefix put back in front of it.
    pub fn display_label(&self, prefix: &str) -> (shown: String)
        ensures
            shown@ == prefix@ + self.label@,
    {
        let mut shown = prefix.to_owned();
        shown.append(self.label.as_str());
        shown
    }
}

impl StatsReport {
    /// The number of keys without the prefix, where it is worth a line of
    /// its own: not when it is zero.
    pub fn unmatched_notice(&self) -> (notice: Option<usize>)
        ensures
            notice == (if self.unmatched > 0 {
                Some(self.unmatched)
            } else {
                None
            }),
    {
        if self.unmatched > 0 {
            Some(self.unmatched)
        } else {
            None
        }
    }
}

/// Counts the keys by group. A key that does not start with `prefix` is
/// counted as unmatched. Of any other key, what stands between the prefix
/// and the first `delimiter` after it is the label of its group; where no
/// delimiter follows, the label is `other`. The groups come in descending
/// order of their counts, and groups of equal count in the order in which
/// their labels were first met.
pub fn compute_stats(keys: &Vec<String>, delimiter: &str, prefix: &str) -> (report: StatsReport)
    ensures
        group_views(report.groups@) == ranked_groups(
            labels_of(key_views(keys@), prefix@, delimiter@),
        ),
        report.unmatched == unmatched_count(key_views(keys@), prefix@),
        count_total(group_views(report.groups@)) + report.unmatched == keys.len(),
{
    broadcast use {vstd::multiset::group_multiset_axioms, group_to_multiset_ensures};

    let prefix_chars = chars_of(prefix);
    let delimiter_chars = chars_of(delimiter);
    let ghost all = key_views(keys@);
    let ghost mut labels: Seq<Seq<char>> = Seq::empty();
    let mut tally = tally_new();
    let mut order: Vec<String> = Vec::new();
    let mut unmatched: usize = 0;
    let mut at: usize = 0;
    assert(all.take(0) =~= Seq::<Seq<char>>::empty());
    assert(key_views(order@) =~= Seq::<Seq<char>>::empty());
    assert(labels.to_multiset() =~= vstd::multiset::Multiset::<Seq<char>>::empty());
    while at < keys.len()
        invariant
            at <= keys.len(),
            all == key_views(keys@),
            prefix_chars@ == prefix@,
            delimiter_chars@ == delimiter@,
            labels == labels_of(all.take(at as int), prefix@, delimiter@),
            unmatched == unmatched_count(all.take(at as int), prefix@),
            labels.len() + unmatched == at,
            tally_contents(tally) == labels.to_multiset(),
            key_views(order@) == first_seen(labels),
        decreases keys.len() - at,
    {
        let label = classify_key(keys[at].as_str(), &prefix_chars, &delimiter_chars);
        proof {
            assert(all.take(at + 1).drop_last() =~= all.take(at as int));
            assert(all.take(at + 1).last() == keys[at as int]@);
        }
        match label {
            None => {
                unmatched = unmatched + 1;
            },
            Some(text) => {
                proof {
                    let next = labels.push(text@);
                    assert(next.drop_last() =~= labels);
                    lemma_first_seen(labels);
                    lemma_occurrences_push(labels, text@, text@);
                    to_multiset_len(labels);
                    to_multiset_build(labels, text@);
                    lemma_key_views_push(order@, text);
                }
                if tally_count(&tally, &text) == 0 {
                    order.push(text.clone());
                }
                tally_add(&mut tally, text);
                proof {
                    labels = labels.push(text@);
                }
            },
        }
        at += 1;
    }
    assert(all.take(at as int) =~= all);
    proof {
        lemma_first_seen(labels);
    }
    let mut slots: Vec<Slot> = Vec::new();
    let mut place: usize = 0;
    assert(ranks(slots@) =~= self::slots(labels).take(0));
    while place < order.len()
        invariant
            place <= order.len(),
            key_views(order@) == first_seen(labels),
            tally_contents(tally) == labels.to_multiset(),
            ranks(slots@) == self::slots(labels).take(place as int),
        decreases order.len() - place,
    {
        let count = tally_count(&tally, &order[place]);
        proof {
            let every = self::slots(labels);
            assert(order@[place as int]@ == key_views(order@)[place as int]);
            assert(every[place as int] == (count as int, place as int));
            assert(every.take(place + 1) =~= every.take(place as int).push(every[place as int]));
            assert(ranks(slots@.push(Slot { count, place })) =~= ranks(slots@).push(
                (count as int, place as int),
            ));
        }
        slots.push(Slot { count, place });
        place += 1;
    }
    assert(self::slots(labels).take(place as int) =~= self::slots(labels));
    let ranked = sort(&slots);
    proof {
        lemma_ranking(labels);
    }
    let mut groups: Vec<KeyGroup> = Vec::new();
    let mut rank: usize = 0;
    assert(group_views(groups@) =~= ranked_groups(labels).take(0));
    while rank < ranked.len()
        invariant
            rank <= ranked.len(),
            key_views(order@) == first_seen(labels),
            ranks(ranked@) == ranking(labels),
            ranking(labels).len() == first_seen(labels).len(),
            forall|i: int|
                0 <= i < ranking(labels).len() ==> 0 <= (#[trigger] ranking(labels)[i]).1
                    < first_seen(labels).len(),
            group_views(groups@) == ranked_groups(labels).take(rank as int),
        decreases ranked.len() - rank,
    {
        let slot = &ranked[rank];
        proof {
            assert(ranks(ranked@)[rank as int] == (slot.count as int, slot.place as int));
            assert(0 <= ranking(labels)[rank as int].1 < first_seen(labels).len());
        }
        let group = KeyGroup { label: order[slot.place].clone(), count: slot.count };
        proof {
            let every = ranked_groups(labels);
            assert(order@[slot.place as int]@ == key_views(order@)[slot.place as int]);
            assert(every[rank as int] == (group.label@, group.count as nat));
            assert(every.take(rank + 1) =~= every.take(rank as int).push(every[rank as int]));
            assert(group_views(groups@.push(group)) =~= group_views(groups@).push(
                (group.label@, group.count as nat),
            ));
        }
        groups.push(group);
        rank += 1;
    }
    assert(ranked_groups(labels).take(rank as int) =~= ranked_groups(labels));
    proof {
        lemma_counts_add_up(all, prefix@, delimiter@);
    }
    StatsReport { groups, unmatched }
}

} // verus!
