//! The connection acceptor's decision rules.
//!
//! The tick loop drains the listening socket's backlog without
//! blocking.  For each attempt the transport reports a fresh
//! connection, "would block", or an error; the rules are: a connection
//! gets a fresh session and a spawned task, "would block" returns
//! control to the scheduler, and any other accept error is logged and
//! skipped — the drain goes on.  Failing to bind the listening socket
//! in the first place is the one process-fatal condition.  The process
//! edge owns the socket; it feeds each outcome through these functions.

use vstd::prelude::*;

use crate::registry::{Session, SessionRegistry, SessionState};

verus! {

/// What one non-blocking accept attempt reported.
#[derive(Clone, Copy, Debug, PartialEq, Eq, Structural)]
pub enum AcceptOutcome {
    /// A connection is ready.
    Connection,
    /// The backlog is drained; accepting would block.
    WouldBlock,
    /// The attempt failed; the failure is not fatal.
    Error,
}

/// What the drain loop does next.
#[derive(Clone, Copy, Debug, PartialEq, Eq, Structural)]
pub enum AcceptAction {
    /// Spawn the connection task for this fresh session and keep
    /// draining.
    Spawn(u64),
    /// Return control to the scheduler until the next tick.
    Stop,
    /// Skip this attempt and keep draining.
    Retry,
}

/// What becomes of the process after trying to bind the listener.
#[derive(Clone, Copy, Debug, PartialEq, Eq, Structural)]
pub enum BindAction {
    /// The listener is up; accepting can start.
    Proceed,
    /// The listening socket cannot be established: fatal to the whole
    /// process.
    ExitProcess,
}

/// Decides what to do with one accept attempt's outcome.  A ready
/// connection gets a fresh session registered, to be paired with a
/// spawned task; "would block" stops the drain until the next tick;
/// any other error is skipped without touching the registry.
pub fn http_request_listener_step(reg: &mut SessionRegistry, outcome: AcceptOutcome) -> (r:
    AcceptAction)
    requires
        old(reg).wf(),
        old(reg).view_next_id() < u64::MAX,
    ensures
        final(reg).wf(),
        outcome is Connection ==> ({
            let pre = *old(reg);
            let post = *final(reg);
            &&& r == AcceptAction::Spawn(pre.view_next_id())
            &&& post.view_next_id() == pre.view_next_id() + 1
            &&& post.view_sessions() == pre.view_sessions().push(
                Session {
                    id: pre.view_next_id(),
                    task_finished: false,
                    inbound: None,
                    outbound: None,
                    state: SessionState::Open,
                },
            )
        }),
        outcome is WouldBlock ==> r == AcceptAction::Stop && *final(reg) == *old(reg),
        outcome is Error ==> r == AcceptAction::Retry && *final(reg) == *old(reg),
{
    match outcome {
        AcceptOutcome::Connection => {
            let id = reg.open_session();
            AcceptAction::Spawn(id)
        },
        AcceptOutcome::WouldBlock => AcceptAction::Stop,
        AcceptOutcome::Error => AcceptAction::Retry,
    }
}

/// Decides what binding the listener means for the process: only a
/// bind failure is fatal to the whole process.
pub fn listener_bind_step(bind_ok: bool) -> (r: BindAction)
    ensures
        r == BindAction::Proceed <==> bind_ok,
        r == BindAction::ExitProcess <==> !bind_ok,
{
    if bind_ok {
        BindAction::Proceed
    } else {
        BindAction::ExitProcess
    }
}

} // verus!
