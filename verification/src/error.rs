//! Failure kinds that the worker surfaces to its callers.

use vstd::prelude::*;

verus! {

/// The kind of resource that a request named and the worker does not know.
#[derive(Clone, Copy, Debug, PartialEq, Eq, Structural)]
pub enum Missing {
    Task,
    Buffer,
    Pool,
}

/// A condition that a caller of the worker gets to see.
#[derive(Clone, Copy, Debug, PartialEq, Eq, Structural)]
pub enum WorkerError {
    /// The request named a task, buffer or pool that does not exist.
    NotFound(Missing),
    /// A consumer asked for a token below the low watermark: that data has
    /// been acknowledged and evicted.
    TokenOutOfRange,
    /// Granting the reservation would push the pool past its limit.
    PoolExhausted,
    /// The request body could not be decoded.
    DeserializationFailure,
}

} // verus!
