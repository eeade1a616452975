//! Reading the values of a list of keys, one pipelined request for each chunk.

use vstd::prelude::*;

use crate::chunk::{chunk_at, chunk_count, chunk_of, count_chunks};
use crate::error::StoreError;
use crate::keys::{key_views, lemma_key_views_push};

verus! {

/// The keys that are read under a limit: the first `limit` of them, or all
/// where there is no limit or the list is no longer than it.
pub open spec fn limited(keys: Seq<Seq<char>>, limit: Option<usize>) -> Seq<Seq<char>> {
    match limit {
        Some(n) => if n < keys.len() {
            keys.take(n as int)
        } else {
            keys
        },
        None => keys,
    }
}

/// Cuts a list down to its first `limit` keys.
pub fn apply_limit(keys: Vec<String>, limit: Option<usize>) -> (kept: Vec<String>)
    ensures
        key_views(kept@) == limited(key_views(keys@), limit),
{
    let mut kept = keys;
    if let Some(n) = limit {
        if n < kept.len() {
            kept.truncate(n);
            assert(key_views(kept@) =~= key_views(keys@).take(n as int));
        }
    }
    kept
}

/// What became of the read of one key.
#[derive(Debug, Clone, PartialEq, Eq)]
pub enum Fetched {
    /// The key holds this string.
    Value(String),
    /// The key does not exist.
    Absent,
    /// The key holds something that is not a string.
    NotAString,
    /// The read did not get through; the text is the store's message.
    Failed(String),
}

/// The store's message of the first read that did not get through.
pub open spec fn first_failure(reply: Seq<Fetched>) -> Option<Seq<char>>
    decreases reply.len(),
{
    if reply.len() == 0 {
        None
    } else {
        match first_failure(reply.drop_last()) {
            Some(message) => Some(message),
            None => match reply.last() {
                Fetched::Failed(message) => Some(message@),
                _ => None,
            },
        }
    }
}

/// The values that a reply holds, in the order of the keys. A key that does
/// not exist, or does not hold a string, has none.
pub open spec fn fetched_values(reply: Seq<Fetched>) -> Seq<Seq<char>>
    decreases reply.len(),
{
    if reply.len() == 0 {
        Seq::empty()
    } else {
        let before = fetched_values(reply.drop_last());
        match reply.last() {
            Fetched::Value(text) => before.push(text@),
            _ => before,
        }
    }
}

/// A bulk read in progress. It goes through the chunks of its keys in their
/// order, one request out at a time, and stops for good at the first request
/// that fails.
pub struct BulkRead {
    keys: Vec<String>,
    position: usize,
    halted: bool,
}

impl BulkRead {
    #[verifier::type_invariant]
    spec fn within_chunks(self) -> bool {
        self.position <= chunk_count(self.keys.len() as nat)
    }

    /// The keys that are read.
    pub closed spec fn keys(self) -> Seq<Seq<char>> {
        key_views(self.keys@)
    }

    /// How many chunks have been answered.
    pub closed spec fn position(self) -> nat {
        self.position as nat
    }

    /// Whether a request has failed.
    pub closed spec fn halted(self) -> bool {
        self.halted
    }

    /// Whether a chunk is waiting for its values.
    pub open spec fn awaiting(self) -> bool {
        !self.halted() && self.position() < chunk_count(self.keys().len())
    }

    /// A read of `keys`, cut down to `limit` where there is one.
    pub fn new(keys: Vec<String>, limit: Option<usize>) -> (run: Self)
        ensures
            run.keys() == limited(key_views(keys@), limit),
            run.position() == 0,
            !run.halted(),
    {
        BulkRead { keys: apply_limit(keys, limit), position: 0, halted: false }
    }

    /// The keys of the next pipelined request: those of the chunk that comes
    /// after the answered ones. There is none once every chunk has been
    /// answered, or one request has failed.
    pub fn next_request(&self) -> (request: Option<Vec<String>>)
        ensures
            request is Some <==> self.awaiting(),
            request matches Some(chunk) ==> key_views(chunk@) == chunk_at(
                self.keys(),
                self.position() as int,
            ),
    {
        if self.halted || self.position >= count_chunks(self.keys.len()) {
            None
        } else {
            Some(chunk_of(&self.keys, self.position))
        }
    }

    /// Takes the answer to the request that is out: what became of each key
    /// of the chunk, in the order of the keys. Where every read got through,
    /// hands back the values, in that order, and moves on to the next chunk;
    /// a key that does not exist, or does not hold a string, has no value
    /// and fails nothing. Where a read did not get through, the whole read
    /// is over: no value of this chunk is handed back, and the error carries
    /// the store's message of the first such read. With no request out,
    /// nothing is handed back and nothing changes.
    pub fn on_reply(&mut self, reply: Vec<Fetched>) -> (lines: Result<Vec<String>, StoreError>)
        ensures
            final(self).keys() == old(self).keys(),
            !old(self).awaiting() ==> {
                &&& lines matches Ok(values)
                &&& values@.len() == 0
                &&& final(self).position() == old(self).position()
                &&& final(self).halted() == old(self).halted()
            },
            old(self).awaiting() ==> match first_failure(reply@) {
                Some(message) => {
                    &&& lines matches Err(StoreError::BatchOperation(text))
                    &&& text@ == message
                    &&& final(self).halted()
                    &&& final(self).position() == old(self).position()
                },
                None => {
                    &&& lines matches Ok(values)
                    &&& key_views(values@) == fetched_values(reply@)
                    &&& !final(self).halted()
                    &&& final(self).position() == old(self).position() + 1
                },
            },
    {
        proof {
            use_type_invariant(&*self);
        }
        if self.halted || self.position >= count_chunks(self.keys.len()) {
            return Ok(Vec::new());
        }
        let ghost all = reply@;
        let mut values: Vec<String> = Vec::new();
        let mut failure: Option<String> = None;
        assert(key_views(values@) =~= Seq::<Seq<char>>::empty());
        for fetched in it: reply
            invariant
                it.seq() == all,
                key_views(values@) == fetched_values(all.take(it.index() as int)),
                match failure {
                    Some(text) => first_failure(all.take(it.index() as int)) == Some(text@),
                    None => first_failure(all.take(it.index() as int)) is None,
                },
        {
            assert(all.take(it.index() + 1).drop_last() =~= all.take(it.index() as int));
            match fetched {
                Fetched::Value(text) => {
                    proof {
                        lemma_key_views_push(values@, text);
                    }
                    values.push(text);
                },
                Fetched::Failed(message) => {
                    if failure.is_none() {
                        failure = Some(message);
                    }
                },
                _ => {},
            }
        }
        assert(all.take(all.len() as int) =~= all);
        match failure {
            Some(message) => {
                self.halted = true;
                Err(StoreError::BatchOperation(message))
            },
            None => {
                self.position = self.position + 1;
                Ok(values)
            },
        }
    }

    /// Takes the failure of the request as a whole: the read is over, the
    /// chunks after this one are not asked for, and what was handed back
    /// before stands. The error carries the store's message.
    pub fn on_failure(&mut self, message: String) -> (error: StoreError)
        ensures
            error == StoreError::BatchOperation(message),
            final(self).halted(),
            !final(self).awaiting(),
            final(self).keys() == old(self).keys(),
            final(self).position() == old(self).position(),
    {
        proof {
            use_type_invariant(&*self);
        }
        self.halted = true;
        StoreError::BatchOperation(message)
    }
}

} // verus!
