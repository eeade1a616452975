//! Engine for bulk inspection and maintenance of a key-value store: collecting
//! the keys that a scan yields, ordering them, cutting them into chunks for
//! pipelined reads and throttled deletes, and counting them by name structure.
//!
//! The store itself is never touched here. Each operation that needs the
//! store is a state machine: it says which request to issue next, and is told
//! what came back.

pub mod chunk;
pub mod classify;
pub mod collect;
pub mod delete;
pub mod error;
pub mod keys;
pub mod order;
pub mod read;
pub mod scan;
pub mod sorting;
pub mod stats;
pub mod tally;
