//! The single-exchange service.
//!
//! A connection-scoped adapter between the protocol engine and the
//! session registry.  Per connection it accepts exactly one decoded
//! request and resolves with exactly one reply: `poll_ready` reports
//! not-ready permanently once the exchange has been consumed, `call`
//! hands the request to the session's inbound slot and yields a handle,
//! and the handle resolves once the outbound slot is populated — or
//! with an early-termination fault if the session is gone.

use vstd::prelude::*;
use vstd::string::StringExecFns;

use crate::http_model::{HttpRequest, ReplyFault, ReplyResult};
use crate::registry::{sfind, Session, SessionRegistry};

verus! {

/// The error reported once the connection's single exchange has been
/// consumed; it makes the protocol engine terminate the connection.
#[derive(Debug)]
pub struct RequestFinalizedError();

impl RequestFinalizedError {
    /// A short description of the fault.
    pub fn message(&self) -> (r: String)
        ensures
            r@ == "Request finalized."@,
    {
        String::from_str("Request finalized.")
    }
}

/// The single-exchange service for one connection: hands exactly one
/// request out and then reports itself consumed.
pub struct HttpSingleServicer {
    session: u64,
    done: bool,
}

/// The pending-reply handle returned by `HttpSingleServicer::call`: it
/// is polled until the session's outbound slot yields the reply.
pub struct HttpSingleServicerFuture {
    session: u64,
    resolved: bool,
}

/// What one poll of the pending-reply handle yields: the reply (or a
/// fault standing in for one), or the request to be polled again.
pub enum ServicePoll {
    /// The exchange is resolved; this value is the one reply.
    Ready(ReplyResult),
    /// No reply yet: suspend and request an immediate re-poll.
    Pending,
}

impl HttpSingleServicer {
    /// The session this connection's exchange belongs to.
    pub closed spec fn view_session(&self) -> u64 {
        self.session
    }

    /// Whether the single exchange has already been consumed.
    pub closed spec fn view_done(&self) -> bool {
        self.done
    }

    /// A fresh service for one accepted connection.
    pub fn new(session: u64) -> (r: HttpSingleServicer)
        ensures
            r.view_session() == session,
            !r.view_done(),
    {
        HttpSingleServicer { session, done: false }
    }

    /// Whether the service can still accept a request: ready exactly
    /// until the single exchange has been consumed, and permanently
    /// not-ready afterwards.
    pub fn poll_ready(&mut self) -> (r: Result<(), RequestFinalizedError>)
        ensures
            *final(self) == *old(self),
            r is Ok <==> !old(self).view_done(),
    {
        if self.done {
            Err(RequestFinalizedError())
        } else {
            Ok(())
        }
    }

    /// Hands the one decoded request to the session's inbound slot and
    /// returns the pending-reply handle.  The slot is a capacity-one
    /// rendezvous with this service as its only producer, so it must
    /// still be empty; a second call would violate the single-use
    /// discipline and is ruled out here.
    pub fn call(&mut self, reg: &mut SessionRegistry, req: HttpRequest) -> (fut:
        HttpSingleServicerFuture)
        requires
            !old(self).view_done(),
            old(reg).wf(),
            old(reg).has_session(old(self).view_session()),
            old(reg).session(old(self).view_session()).state is Open,
            old(reg).session(old(self).view_session()).inbound is None,
        ensures
            final(self).view_session() == old(self).view_session(),
            final(self).view_done(),
            final(reg).wf(),
            final(reg).view_next_id() == old(reg).view_next_id(),
            final(reg).view_sessions() == old(reg).view_sessions().update(
                sfind(old(reg).view_sessions(), old(self).view_session()),
                Session {
                    inbound: Some(req),
                    ..old(reg).session(old(self).view_session())
                },
            ),
            fut.view_session() == old(self).view_session(),
            !fut.view_resolved(),
    {
        reg.deliver_request(self.session, req);
        self.done = true;
        HttpSingleServicerFuture::new(self.session)
    }
}

impl HttpSingleServicerFuture {
    /// The session whose outbound slot this handle watches.
    pub closed spec fn view_session(&self) -> u64 {
        self.session
    }

    /// Whether the handle has already resolved with its one reply.
    pub closed spec fn view_resolved(&self) -> bool {
        self.resolved
    }

    /// Whether the handle has already resolved; a resolved handle must
    /// not be polled again.
    pub fn is_resolved(&self) -> (r: bool)
        ensures
            r == self.view_resolved(),
    {
        self.resolved
    }

    /// A fresh, unresolved handle watching the given session.
    pub fn new(session: u64) -> (r: HttpSingleServicerFuture)
        ensures
            r.view_session() == session,
            !r.view_resolved(),
    {
        HttpSingleServicerFuture { session, resolved: false }
    }

    /// One poll of the pending-reply handle.  If the session's outbound
    /// slot is populated, the handle resolves with its content and the
    /// slot is emptied; if the session is gone (its record was reaped
    /// before any reply arrived), the handle resolves with the
    /// early-termination fault instead of hanging; otherwise it stays
    /// pending and asks to be polled again.  A resolved handle is never
    /// polled again, so at most one reply is ever delivered.
    pub fn poll(&mut self, reg: &mut SessionRegistry) -> (r: ServicePoll)
        requires
            !old(self).view_resolved(),
            old(reg).wf(),
        ensures
            final(self).view_session() == old(self).view_session(),
            final(reg).wf(),
            final(reg).view_next_id() == old(reg).view_next_id(),
            final(self).view_resolved() <==> r is Ready,
            ({
                let sid = old(self).view_session();
                let pre = *old(reg);
                let post = *final(reg);
                &&& !pre.has_session(sid) ==> r == ServicePoll::Ready(
                    Err::<crate::http_model::HttpResponse, ReplyFault>(
                        ReplyFault::EarlyTermination,
                    ),
                ) && post.view_sessions() == pre.view_sessions()
                &&& pre.has_session(sid) ==> (pre.session(sid).outbound matches Some(rp) ==> (r
                    == ServicePoll::Ready(rp) && post.view_sessions()
                    == pre.view_sessions().update(
                    sfind(pre.view_sessions(), sid),
                    Session { outbound: None, ..pre.session(sid) },
                )))
                &&& pre.has_session(sid) && pre.session(sid).outbound is None ==> r is Pending
                    && post.view_sessions() == pre.view_sessions()
            }),
    {
        if !reg.contains_session(self.session) {
            self.resolved = true;
            return ServicePoll::Ready(Err(ReplyFault::EarlyTermination));
        }
        match reg.take_reply(self.session) {
            Some(rp) => {
                self.resolved = true;
                ServicePoll::Ready(rp)
            },
            None => ServicePoll::Pending,
        }
    }
}

} // verus!
