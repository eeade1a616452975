//! Deleting a list of keys chunk by chunk, with a pause between chunks.

use vstd::prelude::*;

use crate::chunk::{chunk_at, chunk_count, chunk_of, count_chunks, covered, CHUNK_SIZE};
use crate::error::StoreError;
use crate::keys::key_views;

verus! {

/// The pause between two deletes, in milliseconds. It bounds the load on the
/// store; it is no retry.
pub const COOL_DOWN_MILLIS: u64 = 1000;

/// What a delete command comes to.
pub enum DeletePlan {
    /// Nothing is deleted: only the number of keys that would be is told.
    DryRun { would_delete: usize },
    /// The keys are deleted, by the run held here.
    Live(ThrottledDelete),
}

/// What a live delete asks for next.
#[derive(Debug, Clone, PartialEq, Eq)]
pub enum DeleteRequest {
    /// Delete these keys in one call.
    Delete(Vec<String>),
    /// Wait this many milliseconds.
    Wait(u64),
    /// Nothing: every chunk is deleted, or a delete has failed.
    Stop,
}

/// A live delete in progress. It goes through the chunks of its keys in their
/// order: one delete, then, where a chunk is left, one pause. A delete that
/// fails ends it; the chunks deleted before stay deleted.
pub struct ThrottledDelete {
    keys: Vec<String>,
    done: usize,
    cooling: bool,
    failed: bool,
    removed: u64,
}

/// Plans a delete. A dry run holds no run at all, so nothing in it can ask
/// for a delete; it tells how many keys a live run would be given.
pub fn plan(keys: Vec<String>, dry_run: bool) -> (plan: DeletePlan)
    ensures
        dry_run ==> plan == (DeletePlan::DryRun { would_delete: keys.len() }),
        !dry_run ==> (plan matches DeletePlan::Live(run) && run.keys() == key_views(keys@)
            && run.done_chunks() == 0 && run.removed() == 0 && !run.cooling() && !run.failed()),
{
    if dry_run {
        DeletePlan::DryRun { would_delete: keys.len() }
    } else {
        DeletePlan::Live(ThrottledDelete { keys, done: 0, cooling: false, failed: false, removed: 0 })
    }
}

impl ThrottledDelete {
    #[verifier::type_invariant]
    spec fn consistent(self) -> bool {
        &&& self.done <= chunk_count(self.keys.len() as nat)
        &&& self.cooling ==> 0 < self.done < chunk_count(self.keys.len() as nat)
        &&& self.removed <= covered(self.keys.len() as nat, self.done as nat)
    }

    /// The keys that are deleted.
    pub closed spec fn keys(self) -> Seq<Seq<char>> {
        key_views(self.keys@)
    }

    /// How many chunks have been deleted.
    pub closed spec fn done_chunks(self) -> nat {
        self.done as nat
    }

    /// Whether a pause is due before the next delete.
    pub closed spec fn cooling(self) -> bool {
        self.cooling
    }

    /// Whether a delete has failed.
    pub closed spec fn failed(self) -> bool {
        self.failed
    }

    /// How many keys the store has removed, by its own count.
    pub closed spec fn removed(self) -> nat {
        self.removed as nat
    }

    /// Whether a chunk is waiting to be deleted.
    pub open spec fn awaiting_delete(self) -> bool {
        !self.failed() && !self.cooling() && self.done_chunks() < chunk_count(self.keys().len())
    }

    /// What to do next. The answer changes only when the run is told what
    /// came of it.
    pub fn next_request(&self) -> (request: DeleteRequest)
        ensures
            match request {
                DeleteRequest::Delete(chunk) => self.awaiting_delete() && key_views(chunk@)
                    == chunk_at(self.keys(), self.done_chunks() as int),
                DeleteRequest::Wait(millis) => !self.failed() && self.cooling() && millis
                    == COOL_DOWN_MILLIS,
                DeleteRequest::Stop => self.failed() || (!self.cooling() && self.done_chunks()
                    == chunk_count(self.keys().len())),
            },
    {
        proof {
            use_type_invariant(self);
        }
        if self.failed {
            DeleteRequest::Stop
        } else if self.cooling {
            DeleteRequest::Wait(COOL_DOWN_MILLIS)
        } else if self.done < count_chunks(self.keys.len()) {
            DeleteRequest::Delete(chunk_of(&self.keys, self.done))
        } else {
            DeleteRequest::Stop
        }
    }

    /// Takes the store's answer to the delete that is out: the number of
    /// keys that it removed. Hands back the size of the chunk, by which
    /// progress moves on. The count is added to the total, up to the size of
    /// the chunk: a key that was gone before the delete is no error and
    /// counts for nothing. A pause is due next where a chunk is left, and
    /// none after the last chunk. With no delete out, nothing changes.
    pub fn on_deleted(&mut self, removed: u64) -> (progressed: usize)
        ensures
            final(self).keys() == old(self).keys(),
            final(self).failed() == old(self).failed(),
            old(self).awaiting_delete() ==> {
                &&& progressed == chunk_at(old(self).keys(), old(self).done_chunks() as int).len()
                &&& final(self).done_chunks() == old(self).done_chunks() + 1
                &&& final(self).removed() == old(self).removed() + (if removed <= progressed {
                    removed as nat
                } else {
                    progressed as nat
                })
                &&& final(self).cooling() == (final(self).done_chunks() < chunk_count(
                    old(self).keys().len(),
                ))
            },
            !old(self).awaiting_delete() ==> {
                &&& progressed == 0
                &&& final(self).done_chunks() == old(self).done_chunks()
                &&& final(self).removed() == old(self).removed()
                &&& final(self).cooling() == old(self).cooling()
            },
    {
        proof {
            use_type_invariant(&*self);
        }
        let count = count_chunks(self.keys.len());
        if self.failed || self.cooling || self.done >= count {
            return 0;
        }
        let start: usize = self.done * CHUNK_SIZE;
        let size: usize = if self.keys.len() - start > CHUNK_SIZE {
            CHUNK_SIZE
        } else {
            self.keys.len() - start
        };
        let counted: u64 = if removed <= size as u64 {
            removed
        } else {
            size as u64
        };
        self.done = self.done + 1;
        self.removed = self.removed + counted;
        self.cooling = self.done < count;
        size
    }

    /// Takes the end of the pause that is out. With no pause out, nothing
    /// changes.
    pub fn on_waited(&mut self)
        ensures
            final(self).keys() == old(self).keys(),
            final(self).failed() == old(self).failed(),
            final(self).done_chunks() == old(self).done_chunks(),
            final(self).removed() == old(self).removed(),
            final(self).cooling() == (old(self).cooling() && old(self).failed()),
    {
        proof {
            use_type_invariant(&*self);
        }
        if !self.failed {
            self.cooling = false;
        }
    }

    /// Takes the failure of the delete that is out: the run is over, and
    /// the chunks after this one are not deleted. The error carries the
    /// store's message.
    pub fn on_failure(&mut self, message: String) -> (error: StoreError)
        ensures
            error == StoreError::BatchOperation(message),
            final(self).failed(),
            final(self).keys() == old(self).keys(),
            final(self).done_chunks() == old(self).done_chunks(),
            final(self).removed() == old(self).removed(),
            final(self).cooling() == old(self).cooling(),
    {
        proof {
            use_type_invariant(&*self);
        }
        self.failed = true;
        StoreError::BatchOperation(message)
    }

    /// How many keys the deletes done so far were given.
    pub fn progress(&self) -> (keys: usize)
        ensures
            keys == covered(self.keys().len(), self.done_chunks()),
            keys <= self.keys().len(),
    {
        proof {
            use_type_invariant(self);
        }
        if self.done >= count_chunks(self.keys.len()) {
            self.keys.len()
        } else {
            self.done * CHUNK_SIZE
        }
    }

    /// How many keys the store has removed, by its own count: never more
    /// than the deletes done so far were given, so never more than the list
    /// holds.
    pub fn removed_total(&self) -> (total: u64)
        ensures
            total == self.removed(),
            total <= covered(self.keys().len(), self.done_chunks()),
            total <= self.keys().len(),
    {
        proof {
            use_type_invariant(self);
        }
        self.removed
    }
}

} // verus!
