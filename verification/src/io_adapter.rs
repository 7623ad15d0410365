//! The blocking-socket-to-cooperative-I/O decision rules.
//!
//! The transport exposes a synchronous non-blocking interface, so every
//! read, write or flush attempt comes back as a count, a "would block"
//! condition, or a genuine error.  The adapter's rule is fixed: "would
//! block" becomes a suspension that requests an immediate re-poll —
//! never an error — and any other failure surfaces at once and is
//! fatal to the connection.  The process edge performs the socket
//! calls and maps their outcomes through these functions.

use vstd::prelude::*;

verus! {

/// How one transport attempt failed.
#[derive(Clone, Copy, Debug, PartialEq, Eq, Structural)]
pub enum TransportError {
    /// The operation would have blocked; nothing is wrong.
    WouldBlock,
    /// A genuine transport error.
    Fatal,
}

/// What the cooperative scheduler is told after a read or write
/// attempt.
#[derive(Clone, Copy, Debug, PartialEq, Eq, Structural)]
pub enum IoPoll {
    /// The attempt moved this many bytes.
    Ready(usize),
    /// Suspend and request an immediate re-poll.
    Pending,
    /// Surface the error; the connection is torn down.
    Fault,
}

/// What the cooperative scheduler is told after a flush attempt.
#[derive(Clone, Copy, Debug, PartialEq, Eq, Structural)]
pub enum FlushPoll {
    /// The flush completed.
    Flushed,
    /// Suspend and request an immediate re-poll.
    Pending,
    /// Surface the error; the connection is torn down.
    Fault,
}

/// Classifies one read or write attempt: a byte count is ready, "would
/// block" suspends, anything else is a fault.
pub fn classify_io_result(result: Result<usize, TransportError>) -> (r: IoPoll)
    ensures
        result matches Ok(n) ==> r == IoPoll::Ready(n),
        result == Err::<usize, TransportError>(TransportError::WouldBlock) ==> r
            == IoPoll::Pending,
        result == Err::<usize, TransportError>(TransportError::Fatal) ==> r == IoPoll::Fault,
{
    match result {
        Ok(n) => IoPoll::Ready(n),
        Err(TransportError::WouldBlock) => IoPoll::Pending,
        Err(TransportError::Fatal) => IoPoll::Fault,
    }
}

/// Classifies one flush attempt under the same rule.
pub fn classify_flush_result(result: Result<(), TransportError>) -> (r: FlushPoll)
    ensures
        result is Ok ==> r == FlushPoll::Flushed,
        result == Err::<(), TransportError>(TransportError::WouldBlock) ==> r
            == FlushPoll::Pending,
        result == Err::<(), TransportError>(TransportError::Fatal) ==> r == FlushPoll::Fault,
{
    match result {
        Ok(_) => FlushPoll::Flushed,
        Err(TransportError::WouldBlock) => FlushPoll::Pending,
        Err(TransportError::Fatal) => FlushPoll::Fault,
    }
}

} // verus!
