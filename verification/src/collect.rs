//! Draining a scan into one list of keys.

use vstd::prelude::*;

use crate::error::StoreError;
use crate::keys::{key_views, lemma_key_views_concat};
use crate::order::{arrange, arranged};
use crate::scan::{pages_keys, ScanPage, Scanned};

verus! {

/// Gathers the batches of one scan, in the order in which they come. Sorting
/// and reversing wait for the end of the scan: they need the whole list.
pub struct KeyCollector {
    sorted: bool,
    reversed: bool,
    gathered: Vec<String>,
}

/// Where a collection stands after one answer of the stream.
pub enum CollectStep {
    /// The scan goes on: ask the stream for its next item.
    More(KeyCollector),
    /// The scan is over, and this is the list.
    Finished(Vec<String>),
    /// The scan failed. No part of the list is handed out.
    Failed(StoreError),
}

impl KeyCollector {
    /// The keys gathered so far.
    pub closed spec fn gathered(self) -> Seq<Seq<char>> {
        key_views(self.gathered@)
    }

    /// Whether the list is sorted at the end.
    pub closed spec fn sorted(self) -> bool {
        self.sorted
    }

    /// Whether the list is reversed at the end, after any sorting.
    pub closed spec fn reversed(self) -> bool {
        self.reversed
    }

    /// A collector that has seen no page yet.
    pub fn new(sorted: bool, reversed: bool) -> (collector: Self)
        ensures
            collector.gathered() == Seq::<Seq<char>>::empty(),
            collector.sorted() == sorted,
            collector.reversed() == reversed,
    {
        let gathered: Vec<String> = Vec::new();
        assert(key_views(gathered@) =~= Seq::<Seq<char>>::empty());
        KeyCollector { sorted, reversed, gathered }
    }

    /// Adds the keys of one batch behind those gathered before, none merged
    /// and none left out.
    pub fn add_batch(&mut self, batch: Vec<String>)
        ensures
            final(self).gathered() == old(self).gathered() + key_views(batch@),
            final(self).sorted() == old(self).sorted(),
            final(self).reversed() == old(self).reversed(),
    {
        let mut batch = batch;
        proof {
            lemma_key_views_concat(self.gathered@, batch@);
        }
        self.gathered.append(&mut batch);
    }

    /// Ends the collection: the keys gathered, arranged as asked.
    pub fn finish(self) -> (list: Vec<String>)
        ensures
            key_views(list@) == arranged(self.gathered(), self.sorted(), self.reversed()),
    {
        arrange(self.gathered, self.sorted, self.reversed)
    }

    /// Takes what the scan yielded. A batch adds its keys and the scan goes
    /// on. The end of the scan hands out the list. A failure ends the
    /// collection with the scan's error and without a list: the keys
    /// gathered before it are dropped.
    pub fn accept(self, yielded: Scanned) -> (step: CollectStep)
        ensures
            match yielded {
                Scanned::Batch(batch) => step matches CollectStep::More(next) && next.gathered()
                    == self.gathered() + key_views(batch@) && next.sorted() == self.sorted()
                    && next.reversed() == self.reversed(),
                Scanned::Done => step matches CollectStep::Finished(list) && key_views(list@)
                    == arranged(self.gathered(), self.sorted(), self.reversed()),
                Scanned::Failed(error) => step == CollectStep::Failed(error),
            },
    {
        match yielded {
            Scanned::Batch(batch) => {
                let mut collector = self;
                collector.add_batch(batch);
                CollectStep::More(collector)
            },
            Scanned::Done => CollectStep::Finished(self.finish()),
            Scanned::Failed(error) => CollectStep::Failed(error),
        }
    }
}

/// Collects a scan whose pages all came: the keys of the pages, page after
/// page, arranged as asked. With neither sorting nor reversing asked for,
/// that is the scan's own sequence of keys, unchanged.
pub fn collect_keys(pages: Vec<ScanPage>, sorted: bool, reversed: bool) -> (list: Vec<String>)
    ensures
        key_views(list@) == arranged(pages_keys(pages@), sorted, reversed),
        !sorted && !reversed ==> key_views(list@) == pages_keys(pages@),
{
    let ghost all = pages@;
    let mut collector = KeyCollector::new(sorted, reversed);
    assert(all.take(0) =~= Seq::<ScanPage>::empty());
    for page in it: pages
        invariant
            it.seq() == all,
            collector.gathered() == pages_keys(all.take(it.index() as int)),
            collector.sorted() == sorted,
            collector.reversed() == reversed,
    {
        assert(all.take(it.index() + 1).drop_last() =~= all.take(it.index() as int));
        collector.add_batch(page.into_keys());
    }
    assert(all.take(all.len() as int) =~= all);
    collector.finish()
}

} // verus!
