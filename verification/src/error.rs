//! The error taxonomy of the wait primitive.
//!
//! Native-call failures carry the raw native result code; callback-reported
//! failures carry the callback's message; cancellation and send failures carry
//! nothing. Conversions from native representations are explicit mapping
//! functions, never implicit coercions.

use vstd::prelude::*;

verus! {

/// What can go wrong while waiting for an asynchronous result.
#[derive(Debug)]
pub enum Error {
    /// The native message-retrieval mechanism reported an unrecoverable fault;
    /// the payload is the thread's native result code.
    WindowsError(i32),
    /// An asynchronous callback reported a failure of its own.
    CallbackError(String),
    /// A clean termination request arrived before any value did.
    TaskCanceled,
    /// A value could not be placed on the channel.
    SendError,
}

impl Error {
    /// Maps a native result code to the error that surfaces it to callers.
    pub fn from_hresult(code: i32) -> (e: Error)
        ensures
            e == Error::WindowsError(code),
    {
        Error::WindowsError(code)
    }
}

} // verus!
