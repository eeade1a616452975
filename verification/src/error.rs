//! The failures that end a command.

use vstd::prelude::*;
use vstd::string::*;

verus! {

/// What went wrong at the store, told apart by the stage that met it. Each
/// carries the store's own message, word for word.
#[derive(Debug, Clone, PartialEq, Eq)]
pub enum StoreError {
    /// The connection could not be opened, or was lost.
    Connection(String),
    /// A page of a scan could not be had; the scan is over.
    Scan(String),
    /// A pipelined read or a delete failed on one chunk; the chunks after it
    /// are not tried.
    BatchOperation(String),
}

impl StoreError {
    /// The store's message.
    pub open spec fn message_text(self) -> Seq<char> {
        match self {
            StoreError::Connection(m) => m@,
            StoreError::Scan(m) => m@,
            StoreError::BatchOperation(m) => m@,
        }
    }

    /// The words that name the stage.
    pub open spec fn stage_text(self) -> Seq<char> {
        match self {
            StoreError::Connection(_) => "connection failed: "@,
            StoreError::Scan(_) => "scan failed: "@,
            StoreError::BatchOperation(_) => "batch operation failed: "@,
        }
    }

    /// The store's message.
    pub fn message(&self) -> (m: &String)
        ensures
            m@ == self.message_text(),
    {
        match self {
            StoreError::Connection(m) => m,
            StoreError::Scan(m) => m,
            StoreError::BatchOperation(m) => m,
        }
    }

    /// One line for the operator: the stage, then the store's message.
    pub fn describe(&self) -> (line: String)
        ensures
            line@ == self.stage_text() + self.message_text(),
    {
        let stage = match self {
            StoreError::Connection(_) => "connection failed: ",
            StoreError::Scan(_) => "scan failed: ",
            StoreError::BatchOperation(_) => "batch operation failed: ",
        };
        let mut line = stage.to_owned();
        line.append(self.message().as_str());
        line
    }
}

} // verus!
