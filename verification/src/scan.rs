//! What a scan is asked for, how it is dispatched, and what it yields.

use vstd::prelude::*;

use crate::error::StoreError;
use crate::keys::{key_views, present, present_texts};

verus! {

/// The page size that a scan asks the store for: large, so that a keyspace
/// takes few round trips, and bounded, so that one page stays small.
pub const PAGE_SIZE_HINT: u32 = 10_000;

/// What a scan is asked for: a glob pattern, and how many keys the store
/// should look at for one page. The hint is never zero.
pub struct ScanRequest {
    pattern: String,
    page_size_hint: u32,
}

impl ScanRequest {
    #[verifier::type_invariant]
    spec fn positive_hint(self) -> bool {
        self.page_size_hint > 0
    }

    /// The glob pattern.
    pub closed spec fn pattern_text(self) -> Seq<char> {
        self.pattern@
    }

    /// The page size hint.
    pub closed spec fn page_size(self) -> int {
        self.page_size_hint as int
    }

    /// A request for `pattern` with the usual page size.
    pub fn new(pattern: String) -> (request: Self)
        ensures
            request.pattern_text() == pattern@,
            request.page_size() == PAGE_SIZE_HINT,
    {
        ScanRequest { pattern, page_size_hint: PAGE_SIZE_HINT }
    }

    /// A request for `pattern` with a page size of one's own, which must not
    /// be zero.
    pub fn with_page_size(pattern: String, page_size_hint: u32) -> (request: Option<Self>)
        ensures
            request is None <==> page_size_hint == 0,
            request matches Some(r) ==> r.pattern_text() == pattern@ && r.page_size()
                == page_size_hint,
    {
        if page_size_hint == 0 {
            None
        } else {
            Some(ScanRequest { pattern, page_size_hint })
        }
    }

    /// The glob pattern.
    pub fn pattern(&self) -> (pattern: &String)
        ensures
            pattern@ == self.pattern_text(),
    {
        &self.pattern
    }

    /// The page size hint, which is at least one.
    pub fn page_size_hint(&self) -> (hint: u32)
        ensures
            hint == self.page_size(),
            hint > 0,
    {
        proof {
            use_type_invariant(self);
        }
        self.page_size_hint
    }
}

/// How a scan reaches the whole keyspace.
#[derive(Debug, Clone, Copy, PartialEq, Eq, Structural)]
pub enum ScanStrategy {
    /// One node holds every key: one cursor chain covers it.
    SingleNode,
    /// The keys are spread over shards: each shard's cursor chain is
    /// followed to its end, and the scan is over when all of them are.
    Cluster,
}

impl ScanStrategy {
    /// The strategy for a connection, chosen once from what the connection
    /// says of itself.
    pub fn select(clustered: bool) -> (strategy: Self)
        ensures
            strategy == (if clustered {
                ScanStrategy::Cluster
            } else {
                ScanStrategy::SingleNode
            }),
    {
        if clustered {
            ScanStrategy::Cluster
        } else {
            ScanStrategy::SingleNode
        }
    }
}

/// One page of a scan, as the store's stream hands it over. A page may come
/// without a result set, and may be empty though the scan goes on. An entry
/// is absent where the store's key is not text.
#[derive(Debug, Clone, PartialEq, Eq)]
pub struct ScanPage {
    pub entries: Option<Vec<Option<String>>>,
}

impl ScanPage {
    /// The keys that the page yields: its text entries, in their order.
    pub open spec fn keys(self) -> Seq<Seq<char>> {
        match self.entries {
            Some(entries) => present_texts(entries@),
            None => Seq::empty(),
        }
    }

    /// The keys that the page yields.
    pub fn into_keys(self) -> (batch: Vec<String>)
        ensures
            key_views(batch@) == self.keys(),
    {
        match self.entries {
            Some(entries) => present(entries),
            None => {
                let batch: Vec<String> = Vec::new();
                assert(key_views(batch@) =~= Seq::<Seq<char>>::empty());
                batch
            },
        }
    }
}

/// The keys of a run of pages, page after page.
pub open spec fn pages_keys(pages: Seq<ScanPage>) -> Seq<Seq<char>>
    decreases pages.len(),
{
    if pages.len() == 0 {
        Seq::empty()
    } else {
        pages_keys(pages.drop_last()) + pages.last().keys()
    }
}

/// What the store's stream answers when it is asked for its next item.
#[derive(Debug, Clone, PartialEq, Eq)]
pub enum ScanEvent {
    /// The next page.
    Page(ScanPage),
    /// Nothing more: every cursor is exhausted.
    End,
    /// The page could not be had; the text is the store's message.
    Failure(String),
}

/// Where a scan stands.
#[derive(Debug, Clone, Copy, PartialEq, Eq, Structural)]
pub enum ScanState {
    /// Pages may still come.
    Pending,
    /// Every cursor is exhausted, or a page has failed: nothing comes any
    /// more.
    Done,
}

/// What a scan yields when it is advanced.
pub enum Scanned {
    /// The keys of one page; there may be none though the scan goes on.
    Batch(Vec<String>),
    /// Nothing: the scan is over.
    Done,
    /// The scan has failed, and is over.
    Failed(StoreError),
}

/// One scan of the keyspace. It turns what the store's stream answers into
/// batches of keys, one page at a time, is over when the stream ends or a
/// page fails, and does not start again: a second scan is a new scanner. It
/// keeps no keys, so a key that the store hands out twice comes out twice.
pub struct CursorScanner {
    request: ScanRequest,
    strategy: ScanStrategy,
    state: ScanState,
}

impl CursorScanner {
    /// Where the scan stands.
    pub closed spec fn state(self) -> ScanState {
        self.state
    }

    /// How the scan reaches the keyspace.
    pub closed spec fn chosen(self) -> ScanStrategy {
        self.strategy
    }

    /// What the scan is asked for.
    pub closed spec fn asked(self) -> ScanRequest {
        self.request
    }

    /// A scan that has not seen a page yet, on a connection that is
    /// clustered or not.
    pub fn start(request: ScanRequest, clustered: bool) -> (scanner: Self)
        ensures
            scanner.state() == ScanState::Pending,
            scanner.asked() == request,
            scanner.chosen() == (if clustered {
                ScanStrategy::Cluster
            } else {
                ScanStrategy::SingleNode
            }),
    {
        CursorScanner { request, strategy: ScanStrategy::select(clustered), state: ScanState::Pending }
    }

    /// What the scan is asked for.
    pub fn request(&self) -> (request: &ScanRequest)
        ensures
            *request == self.asked(),
    {
        &self.request
    }

    /// How the scan reaches the keyspace.
    pub fn strategy(&self) -> (strategy: ScanStrategy)
        ensures
            strategy == self.chosen(),
    {
        self.strategy
    }

    /// Whether the scan is over.
    pub fn is_done(&self) -> (done: bool)
        ensures
            done == (self.state() == ScanState::Done),
    {
        match self.state {
            ScanState::Done => true,
            ScanState::Pending => false,
        }
    }

    /// Advances the scan by one answer of the store's stream. While the
    /// scan is pending, a page yields its keys and leaves the scan pending,
    /// the end of the stream ends the scan, and a failure ends it with the
    /// store's message. Once the scan is over it yields nothing, whatever
    /// it is handed.
    pub fn advance(&mut self, answer: ScanEvent) -> (yielded: Scanned)
        ensures
            final(self).asked() == old(self).asked(),
            final(self).chosen() == old(self).chosen(),
            old(self).state() == ScanState::Done ==> yielded is Done && final(self).state()
                == ScanState::Done,
            old(self).state() == ScanState::Pending ==> match answer {
                ScanEvent::Page(page) => {
                    &&& yielded matches Scanned::Batch(batch)
                    &&& key_views(batch@) == page.keys()
                    &&& final(self).state() == ScanState::Pending
                },
                ScanEvent::End => yielded is Done && final(self).state() == ScanState::Done,
                ScanEvent::Failure(message) => {
                    &&& yielded == Scanned::Failed(StoreError::Scan(message))
                    &&& final(self).state() == ScanState::Done
                },
            },
    {
        match self.state {
            ScanState::Done => Scanned::Done,
            ScanState::Pending => match answer {
                ScanEvent::Page(page) => Scanned::Batch(page.into_keys()),
                ScanEvent::End => {
                    self.state = ScanState::Done;
                    Scanned::Done
                },
                ScanEvent::Failure(message) => {
                    self.state = ScanState::Done;
                    Scanned::Failed(StoreError::Scan(message))
                },
            },
        }
    }
}

} // verus!
