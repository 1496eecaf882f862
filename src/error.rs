//! Outcomes of handing a message on.
use vstd::prelude::*;

verus! {

/// Why a message was not delivered.
#[derive(Debug, Clone, Copy, PartialEq, Eq, Structural)]
pub enum BncError {
    /// The consumer is gone: nothing receives from the channel any more.
    DataTransmitError,
    /// A gate turned the message down: stale, duplicate or out of sequence.
    DataRejected,
}

pub type BncResult<T> = Result<T, BncError>;

} // verus!
