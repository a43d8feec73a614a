//! The errors a stream writer surfaces. All of them are returned
//! synchronously from the call that triggered them; none is retried or
//! swallowed.

use vstd::prelude::*;

verus! {

/// Why a writer call failed.
#[derive(Clone, Copy, PartialEq, Eq, Structural, Debug)]
pub enum StreamError {
    /// `write` or `finish` was called before `start`.
    NotStarted,
    /// `start` was called on a stream that had already started.
    AlreadyStarted,
    /// `write` or `finish` was called after `finish`; the stream is terminal
    /// and only a new stream can recover.
    TerminalStream,
    /// A dictionary changed while the tracker was configured to forbid
    /// replacement; the stream must be abandoned by the caller.
    DictionaryReplacementRejected,
    /// The chunk does not conform to the declared mapping: wrong column
    /// count, a column kind that contradicts its field, unequal row counts,
    /// or a section too large for its four-byte length prefix.
    InvalidChunk,
}

impl StreamError {
    /// A short description, one per variant.
    pub fn describe(&self) -> &'static str {
        match self {
            StreamError::NotStarted => "stream has not been started",
            StreamError::AlreadyStarted => "stream was already started",
            StreamError::TerminalStream => "cannot write to a finished stream",
            StreamError::DictionaryReplacementRejected => "dictionary replacement is not allowed",
            StreamError::InvalidChunk => "chunk does not conform to the schema mapping",
        }
    }
}

} // verus!
