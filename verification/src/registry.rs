//! The session registry.
//!
//! One record per in-flight connection, from accept to teardown.  Each
//! session carries two capacity-one rendezvous slots: the inbound slot,
//! filled once by the connection task with the decoded request, and the
//! outbound slot, filled once by the tick loop with the reply.  The
//! registry enforces at-most-once delivery in each direction, rejects a
//! reply to a finished or already-replied session, and reaps sessions
//! whose task has completed.

use vstd::prelude::*;
use vstd::string::StringExecFns;

use crate::http_model::{HttpRequest, ReplyFault, ReplyResult};

verus! {

/// The per-session state machine: a request is delivered at most once,
/// then a reply is accepted at most once.
#[derive(Clone, Copy, Debug, PartialEq, Eq, Structural)]
pub enum SessionState {
    /// No request has been taken out of the inbound slot yet.
    Open,
    /// The request was handed to the router; a reply is awaited.
    RequestDelivered,
    /// A reply was accepted; no further reply may be.
    ReplyDelivered,
}

/// One accepted connection's record.
pub struct Session {
    /// The session's unique identifier.
    pub id: u64,
    /// Whether the connection's task has reported completion.
    pub task_finished: bool,
    /// The capacity-one inbound slot: the decoded request, until the
    /// tick loop takes it.
    pub inbound: Option<HttpRequest>,
    /// The capacity-one outbound slot: the reply, until the connection
    /// task takes it.
    pub outbound: Option<ReplyResult>,
    /// Where the session stands in its lifecycle.
    pub state: SessionState,
}

impl Session {
    /// The slots agree with the lifecycle state: a request still in the
    /// inbound slot means it was never handed out, and an occupied
    /// outbound slot means a reply was accepted.
    pub open spec fn wf(self) -> bool {
        &&& self.inbound is Some ==> !(self.state is RequestDelivered)
        &&& self.outbound is Some ==> self.state is ReplyDelivered
    }
}

/// The index of the session with the given identifier, or `-1`.
pub open spec fn sfind(s: Seq<Session>, id: u64) -> int
    decreases s.len(),
{
    if s.len() == 0 {
        -1
    } else if s[0].id == id {
        0
    } else {
        let r = sfind(s.skip(1), id);
        if r == -1 {
            -1
        } else {
            r + 1
        }
    }
}

/// Whether some session carries the given identifier.
pub open spec fn shas(s: Seq<Session>, id: u64) -> bool {
    sfind(s, id) >= 0
}

/// What `sfind` finds: the first index carrying the identifier, or the
/// fact that none does.
proof fn lemma_sfind(s: Seq<Session>, id: u64)
    ensures
        shas(s, id) ==> 0 <= sfind(s, id) < s.len() && s[sfind(s, id)].id == id,
        shas(s, id) ==> forall|j: int| 0 <= j < sfind(s, id) ==> s[j].id != id,
        !shas(s, id) ==> sfind(s, id) == -1,
        !shas(s, id) ==> forall|j: int| 0 <= j < s.len() ==> s[j].id != id,
    decreases s.len(),
{
    if s.len() > 0 && s[0].id != id {
        lemma_sfind(s.skip(1), id);
        assert forall|j: int| 0 <= j < s.len() && s[j].id == id implies shas(s, id) by {
            assert(s.skip(1)[j - 1] == s[j]);
        }
        if shas(s, id) {
            assert forall|j: int| 0 <= j < sfind(s, id) implies s[j].id != id by {
                if j > 0 {
                    assert(s.skip(1)[j - 1] == s[j]);
                }
            }
        }
    }
}

/// Where a prefix is known to be free of the identifier, `sfind` finds
/// exactly the first occurrence (or reports absence).
proof fn lemma_sfind_at(s: Seq<Session>, id: u64, i: int)
    requires
        0 <= i <= s.len(),
        forall|j: int| 0 <= j < i ==> s[j].id != id,
        i < s.len() ==> s[i].id == id,
    ensures
        i < s.len() ==> sfind(s, id) == i,
        i == s.len() ==> sfind(s, id) == -1,
    decreases i,
{
    if s.len() > 0 {
        if i == 0 {
        } else {
            assert forall|j: int| 0 <= j < i - 1 implies s.skip(1)[j].id != id by {
                assert(s.skip(1)[j] == s[j + 1]);
            }
            assert(i - 1 < s.skip(1).len() ==> s.skip(1)[i - 1] == s[i]);
            lemma_sfind_at(s.skip(1), id, i - 1);
        }
    }
}

/// Whether a reply addressed to the session would be accepted: it must
/// exist, its task must not have completed, and no reply may have been
/// accepted before.
pub open spec fn saccepts(s: Seq<Session>, id: u64) -> bool {
    &&& shas(s, id)
    &&& !s[sfind(s, id)].task_finished
    &&& !(s[sfind(s, id)].state is ReplyDelivered)
}

/// The registry after a reply submission: the addressed session moves
/// to `ReplyDelivered` with the reply in its outbound slot if the
/// submission is accepted; otherwise nothing changes.
pub open spec fn ssubmit(s: Seq<Session>, id: u64, reply: ReplyResult) -> Seq<Session> {
    if saccepts(s, id) {
        let i = sfind(s, id);
        s.update(
            i,
            Session {
                outbound: Some(reply),
                state: SessionState::ReplyDelivered,
                ..s[i]
            },
        )
    } else {
        s
    }
}

/// Whether one collection pass takes the session's request out: the
/// session must still be open and its inbound slot occupied.
pub open spec fn collectable(sess: Session) -> bool {
    sess.state is Open && sess.inbound is Some
}

/// The sessions after one collection pass: every open session's
/// occupied inbound slot is emptied and the session moves to
/// `RequestDelivered`.
pub open spec fn collect_sessions(s: Seq<Session>) -> Seq<Session> {
    s.map(
        |i: int, sess: Session|
            if collectable(sess) {
                Session { inbound: None, state: SessionState::RequestDelivered, ..sess }
            } else {
                sess
            },
    )
}

/// The "request received" events of one collection pass, in session
/// order: one per open session with an occupied inbound slot.
pub open spec fn collect_events(s: Seq<Session>) -> Seq<HttpRequestReceivedEvent>
    decreases s.len(),
{
    if s.len() == 0 {
        Seq::empty()
    } else {
        collect_events(s.drop_last()) + (if collectable(s.last()) {
            seq![
                HttpRequestReceivedEvent { body: s.last().inbound.unwrap(), ent: s.last().id },
            ]
        } else {
            Seq::empty()
        })
    }
}

/// The reply a reply event carries once taken: its content, or the
/// "already taken" fault if the envelope had been emptied before.
pub open spec fn taken_reply(ev: HttpRequestReplyEvent) -> ReplyResult {
    match ev.body_view() {
        Some(rp) => rp,
        None => Err(ReplyFault::Taken),
    }
}

/// The registry after processing a batch of reply events, first to
/// last, each as one submission.
pub open spec fn process_view(s: Seq<Session>, evs: Seq<HttpRequestReplyEvent>) -> Seq<Session>
    decreases evs.len(),
{
    if evs.len() == 0 {
        s
    } else {
        process_view(ssubmit(s, evs[0].ent_view(), taken_reply(evs[0])), evs.skip(1))
    }
}

/// The sessions that survive one reaping pass: exactly those whose task
/// has not completed, in their original order.
pub open spec fn reap_view(s: Seq<Session>) -> Seq<Session>
    decreases s.len(),
{
    if s.len() == 0 {
        s
    } else if s[0].task_finished {
        reap_view(s.skip(1))
    } else {
        seq![s[0]] + reap_view(s.skip(1))
    }
}

/// Event carrying an incoming HTTP request and the session it belongs to.
pub struct HttpRequestReceivedEvent {
    /// The decoded request.
    pub body: HttpRequest,
    /// The identifier of the owning session.
    pub ent: u64,
}

/// Event that, when processed, replies to the identified session.  The
/// envelope is one-shot: its content can be taken exactly once.
pub struct HttpRequestReplyEvent {
    body: Option<ReplyResult>,
    ent: u64,
}

/// A fallback fault used when an already-emptied reply envelope is read.
#[derive(Debug)]
pub struct TakenError();

impl TakenError {
    /// A short description of the fault.
    pub fn message(&self) -> (r: String)
        ensures
            r@ == "[taken data]"@,
    {
        String::from_str("[taken data]")
    }
}

impl HttpRequestReplyEvent {
    /// The envelope's content: the reply, or nothing once taken.
    pub closed spec fn body_view(&self) -> Option<ReplyResult> {
        self.body
    }

    /// The identifier of the session the reply is addressed to.
    pub closed spec fn ent_view(&self) -> u64 {
        self.ent
    }

    /// Constructs a new reply event, given a reply and the session to
    /// deliver it to.
    pub fn new(result: ReplyResult, request: u64) -> (r: HttpRequestReplyEvent)
        ensures
            r.body_view() == Some(result),
            r.ent_view() == request,
    {
        HttpRequestReplyEvent { body: Some(result), ent: request }
    }

    /// The session the reply is addressed to.
    pub fn ent(&self) -> (r: u64)
        ensures
            r == self.ent_view(),
    {
        self.ent
    }

    /// Empties the envelope: the first take yields the reply, every
    /// later one the "already taken" fault.
    pub fn take(&mut self) -> (r: Result<ReplyResult, TakenError>)
        ensures
            final(self).body_view() is None,
            final(self).ent_view() == old(self).ent_view(),
            old(self).body_view() matches Some(rp) ==> r matches Ok(taken) && taken == rp,
            old(self).body_view() is None ==> r is Err,
    {
        let content = take_option(&mut self.body);
        match content {
            Some(rp) => Ok(rp),
            None => Err(TakenError()),
        }
    }
}

/// The registry of in-flight sessions, driven by the tick loop.
pub struct SessionRegistry {
    sessions: Vec<Session>,
    next_id: u64,
}

impl SessionRegistry {
    /// The in-flight sessions, in creation order.
    pub closed spec fn view_sessions(&self) -> Seq<Session> {
        self.sessions@
    }

    /// The identifier the next session will get.
    pub closed spec fn view_next_id(&self) -> u64 {
        self.next_id
    }

    /// Identifiers are unique, below the allocation counter, and every
    /// session's slots agree with its state.
    pub open spec fn wf(&self) -> bool {
        &&& forall|i: int, j: int|
            0 <= i < j < self.view_sessions().len() ==> self.view_sessions()[i].id
                != self.view_sessions()[j].id
        &&& forall|i: int|
            0 <= i < self.view_sessions().len() ==> self.view_sessions()[i].id
                < self.view_next_id()
        &&& forall|i: int| 0 <= i < self.view_sessions().len() ==> self.view_sessions()[i].wf()
    }

    /// Whether a session with the given identifier is in flight.
    pub open spec fn has_session(&self, id: u64) -> bool {
        shas(self.view_sessions(), id)
    }

    /// The in-flight session with the given identifier.
    pub open spec fn session(&self, id: u64) -> Session {
        self.view_sessions()[sfind(self.view_sessions(), id)]
    }

    /// Whether a reply addressed to the session would be accepted.
    pub open spec fn accepts_reply(&self, id: u64) -> bool {
        saccepts(self.view_sessions(), id)
    }

    /// An empty registry.
    pub fn new() -> (r: SessionRegistry)
        ensures
            r.wf(),
            r.view_sessions() == Seq::<Session>::empty(),
            r.view_next_id() == 0,
    {
        SessionRegistry { sessions: Vec::new(), next_id: 0 }
    }

    /// Creates a record for one freshly accepted connection and returns
    /// its identifier.
    pub fn open_session(&mut self) -> (id: u64)
        requires
            old(self).wf(),
            old(self).view_next_id() < u64::MAX,
        ensures
            final(self).wf(),
            id == old(self).view_next_id(),
            !old(self).has_session(id),
            final(self).view_next_id() == id + 1,
            final(self).view_sessions() == old(self).view_sessions().push(
                Session {
                    id,
                    task_finished: false,
                    inbound: None,
                    outbound: None,
                    state: SessionState::Open,
                },
            ),
    {
        let id = self.next_id;
        proof {
            lemma_sfind(self.sessions@, id);
            if shas(self.sessions@, id) {
                assert(self.sessions@[sfind(self.sessions@, id)].id == id);
            }
        }
        self.next_id = self.next_id + 1;
        self.sessions.push(
            Session {
                id,
                task_finished: false,
                inbound: None,
                outbound: None,
                state: SessionState::Open,
            },
        );
        id
    }

    /// Whether a fresh session identifier can still be allocated.
    pub fn can_open_session(&self) -> (r: bool)
        ensures
            r == (self.view_next_id() < u64::MAX),
    {
        self.next_id < u64::MAX
    }

    /// Whether the session can still take its one inbound request:
    /// it exists, is open, and its inbound slot is empty.  The
    /// connection task checks this before delivering.
    pub fn ready_for_request(&self, id: u64) -> (r: bool)
        ensures
            r == (self.has_session(id) && self.session(id).state is Open && self.session(
                id,
            ).inbound is None),
    {
        match self.find_session(id) {
            Some(i) => self.sessions[i].state == SessionState::Open && self.sessions[
                i
            ].inbound.is_none(),
            None => false,
        }
    }

    /// Whether a session with the given identifier is still in flight.
    pub fn contains_session(&self, id: u64) -> (r: bool)
        ensures
            r == self.has_session(id),
    {
        proof {
            lemma_sfind(self.sessions@, id);
        }
        self.find_session(id).is_some()
    }

    /// The index of the session with the given identifier, if any.
    fn find_session(&self, id: u64) -> (r: Option<usize>)
        ensures
            r matches Some(i) ==> i < self.view_sessions().len() && sfind(
                self.view_sessions(),
                id,
            ) == i as int,
            r is None ==> !self.has_session(id),
    {
        let mut i: usize = 0;
        while i < self.sessions.len()
            invariant
                i <= self.sessions@.len(),
                forall|j: int| 0 <= j < i ==> self.sessions@[j].id != id,
            decreases self.sessions@.len() - i,
        {
            if self.sessions[i].id == id {
                proof {
                    lemma_sfind_at(self.sessions@, id, i as int);
                }
                return Some(i);
            }
            i = i + 1;
        }
        proof {
            lemma_sfind_at(self.sessions@, id, i as int);
        }
        None
    }

    /// Accepts or rejects one reply submission.  A reply to a session
    /// whose task has completed, or which has already been delivered a
    /// reply, is rejected and nothing changes — a normal race, not a
    /// fault.  Otherwise the reply is placed in the outbound slot and
    /// the session moves to `ReplyDelivered`.
    pub fn submit_reply(&mut self, id: u64, reply: ReplyResult) -> (accepted: bool)
        requires
            old(self).wf(),
        ensures
            final(self).wf(),
            accepted == old(self).accepts_reply(id),
            final(self).view_sessions() == ssubmit(old(self).view_sessions(), id, reply),
            final(self).view_next_id() == old(self).view_next_id(),
    {
        let i = match self.find_session(id) {
            Some(i) => i,
            None => {
                return false;
            },
        };
        if self.sessions[i].task_finished
            || self.sessions[i].state == SessionState::ReplyDelivered {
            return false;
        }
        let mut sess = self.sessions.remove(i);
        sess.outbound = Some(reply);
        sess.state = SessionState::ReplyDelivered;
        self.sessions.insert(i, sess);
        proof {
            assert(self.sessions@ =~= ssubmit(old(self).view_sessions(), id, reply));
            assert(forall|k: int|
                0 <= k < self.sessions@.len() ==> self.sessions@[k].id == old(
                    self,
                ).view_sessions()[k].id);
            assert(forall|k: int| 0 <= k < self.sessions@.len() ==> self.sessions@[k].wf());
        }
        true
    }

    /// Empties the session's outbound slot, handing the reply to the
    /// waiting connection task.  Yields nothing when the session is
    /// gone or no reply has been placed yet.
    pub fn take_reply(&mut self, id: u64) -> (r: Option<ReplyResult>)
        requires
            old(self).wf(),
        ensures
            final(self).wf(),
            final(self).view_next_id() == old(self).view_next_id(),
            old(self).has_session(id) && old(self).session(id).outbound is Some ==> r == old(
                self,
            ).session(id).outbound && final(self).view_sessions() == old(
                self,
            ).view_sessions().update(
                sfind(old(self).view_sessions(), id),
                Session { outbound: None, ..old(self).session(id) },
            ),
            !(old(self).has_session(id) && old(self).session(id).outbound is Some) ==> r is None
                && final(self).view_sessions() == old(self).view_sessions(),
    {
        let i = match self.find_session(id) {
            Some(i) => i,
            None => {
                return None;
            },
        };
        let mut sess = self.sessions.remove(i);
        let content = take_option(&mut sess.outbound);
        self.sessions.insert(i, sess);
        proof {
            if old(self).session(id).outbound is Some {
                assert(self.sessions@ =~= old(self).view_sessions().update(
                    i as int,
                    Session { outbound: None, ..old(self).session(id) },
                ));
            } else {
                assert(self.sessions@ =~= old(self).view_sessions());
            }
        }
        content
    }

    /// Records that the session's task has reported completion; the
    /// next reaping pass will remove the record.
    pub fn mark_finished(&mut self, id: u64)
        requires
            old(self).wf(),
        ensures
            final(self).wf(),
            final(self).view_next_id() == old(self).view_next_id(),
            old(self).has_session(id) ==> final(self).view_sessions() == old(
                self,
            ).view_sessions().update(
                sfind(old(self).view_sessions(), id),
                Session { task_finished: true, ..old(self).session(id) },
            ),
            !old(self).has_session(id) ==> final(self).view_sessions() == old(
                self,
            ).view_sessions(),
    {
        let i = match self.find_session(id) {
            Some(i) => i,
            None => {
                return ;
            },
        };
        let mut sess = self.sessions.remove(i);
        sess.task_finished = true;
        self.sessions.insert(i, sess);
        proof {
            assert(self.sessions@ =~= old(self).view_sessions().update(
                i as int,
                Session { task_finished: true, ..old(self).session(id) },
            ));
        }
    }

    /// Fills the session's inbound slot with the decoded request.  The
    /// connection task calls this exactly once per connection, so an
    /// occupied slot is a programming fault, ruled out here rather than
    /// handled.
    pub fn deliver_request(&mut self, id: u64, req: HttpRequest)
        requires
            old(self).wf(),
            old(self).has_session(id),
            old(self).session(id).state is Open,
            old(self).session(id).inbound is None,
        ensures
            final(self).wf(),
            final(self).view_next_id() == old(self).view_next_id(),
            final(self).view_sessions() == old(self).view_sessions().update(
                sfind(old(self).view_sessions(), id),
                Session { inbound: Some(req), ..old(self).session(id) },
            ),
    {
        proof {
            lemma_sfind(self.sessions@, id);
        }
        let i = match self.find_session(id) {
            Some(i) => i,
            None => {
                proof {
                    assert(false);
                }
                0
            },
        };
        let mut sess = self.sessions.remove(i);
        sess.inbound = Some(req);
        self.sessions.insert(i, sess);
        proof {
            assert(self.sessions@ =~= old(self).view_sessions().update(
                i as int,
                Session { inbound: Some(req), ..old(self).session(id) },
            ));
        }
    }
}

impl SessionRegistry {
    /// One collection pass: takes the request out of every open
    /// session's occupied inbound slot, moves those sessions to
    /// `RequestDelivered`, and returns one "request received" event per
    /// taken request, in session order.
    pub fn collect_requests(&mut self) -> (evs: Vec<HttpRequestReceivedEvent>)
        requires
            old(self).wf(),
        ensures
            final(self).wf(),
            final(self).view_next_id() == old(self).view_next_id(),
            final(self).view_sessions() == collect_sessions(old(self).view_sessions()),
            evs@ == collect_events(old(self).view_sessions()),
    {
        let ghost orig = self.sessions@;
        let mut evs: Vec<HttpRequestReceivedEvent> = Vec::new();
        let mut i: usize = 0;
        while i < self.sessions.len()
            invariant
                i <= self.sessions@.len(),
                self.sessions@.len() == orig.len(),
                self.next_id == old(self).view_next_id(),
                forall|j: int| 0 <= j < i ==> self.sessions@[j] == collect_sessions(orig)[j],
                forall|j: int| i <= j < orig.len() ==> self.sessions@[j] == orig[j],
                evs@ == collect_events(orig.take(i as int)),
            decreases self.sessions@.len() - i,
        {
            proof {
                assert(orig.take(i + 1).drop_last() =~= orig.take(i as int));
                assert(orig.take(i + 1).last() == orig[i as int]);
            }
            let open_now = self.sessions[i].state == SessionState::Open;
            let mut sess = self.sessions.remove(i);
            if open_now {
                let inb = take_option(&mut sess.inbound);
                match inb {
                    Some(req) => {
                        sess.state = SessionState::RequestDelivered;
                        evs.push(HttpRequestReceivedEvent { body: req, ent: sess.id });
                    },
                    None => {},
                }
            }
            self.sessions.insert(i, sess);
            i = i + 1;
        }
        proof {
            assert(orig.take(orig.len() as int) =~= orig);
            assert(self.sessions@ =~= collect_sessions(orig));
        }
        evs
    }

    /// Processes a batch of reply events, first to last.  Each envelope
    /// is emptied and its content — or the "already taken" fault, if it
    /// had been emptied before — is submitted to its session under the
    /// at-most-once rule.
    pub fn process_reply_events(&mut self, replies: Vec<HttpRequestReplyEvent>)
        requires
            old(self).wf(),
        ensures
            final(self).wf(),
            final(self).view_next_id() == old(self).view_next_id(),
            final(self).view_sessions() == process_view(old(self).view_sessions(), replies@),
    {
        let ghost orig = self.sessions@;
        let ghost orig_evs = replies@;
        let mut replies = replies;
        while replies.len() > 0
            invariant
                self.wf(),
                self.next_id == old(self).view_next_id(),
                process_view(self.view_sessions(), replies@) == process_view(orig, orig_evs),
            decreases replies@.len(),
        {
            let ghost evs_prev = replies@;
            let mut ev = replies.remove(0);
            proof {
                assert(replies@ =~= evs_prev.skip(1));
            }
            let reply = match ev.take() {
                Ok(rp) => rp,
                Err(_) => Err(ReplyFault::Taken),
            };
            let id = ev.ent();
            proof {
                assert(reply == taken_reply(evs_prev[0]));
            }
            self.submit_reply(id, reply);
        }
    }
}

/// Distributes a tick's events: first every newly received request is
/// surfaced as a "request received" event, then the tick's reply events
/// are delivered to their sessions, each at most once.
pub fn http_request_events_system(
    reg: &mut SessionRegistry,
    replies: Vec<HttpRequestReplyEvent>,
) -> (received: Vec<HttpRequestReceivedEvent>)
    requires
        old(reg).wf(),
    ensures
        final(reg).wf(),
        final(reg).view_next_id() == old(reg).view_next_id(),
        received@ == collect_events(old(reg).view_sessions()),
        final(reg).view_sessions() == process_view(
            collect_sessions(old(reg).view_sessions()),
            replies@,
        ),
{
    let received = reg.collect_requests();
    reg.process_reply_events(replies);
    received
}

/// The reaping pass: removes every session whose task has completed,
/// keeping the others in order.  This is the only place sessions are
/// destroyed.
pub fn http_finalizer(reg: &mut SessionRegistry)
    requires
        old(reg).wf(),
    ensures
        final(reg).wf(),
        final(reg).view_next_id() == old(reg).view_next_id(),
        final(reg).view_sessions() == reap_view(old(reg).view_sessions()),
{
    reg.reap();
}

impl SessionRegistry {
    /// Removes every session whose task has completed.
    fn reap(&mut self)
        requires
            old(self).wf(),
        ensures
            final(self).wf(),
            final(self).view_next_id() == old(self).view_next_id(),
            final(self).view_sessions() == reap_view(old(self).view_sessions()),
    {
        let ghost orig = self.sessions@;
        let mut rest: Vec<Session> = Vec::new();
        core::mem::swap(&mut self.sessions, &mut rest);
        let mut kept: Vec<Session> = Vec::new();
        while rest.len() > 0
            invariant
                reap_view(orig) == kept@ + reap_view(rest@),
                forall|i: int, j: int|
                    0 <= i < j < kept@.len() + rest@.len() ==> kept@.add(rest@)[i].id
                        != kept@.add(rest@)[j].id,
                forall|i: int| 0 <= i < kept@.len() ==> kept@[i].id < self.next_id,
                forall|i: int| 0 <= i < rest@.len() ==> rest@[i].id < self.next_id,
                forall|i: int| 0 <= i < kept@.len() ==> kept@[i].wf(),
                forall|i: int| 0 <= i < rest@.len() ==> rest@[i].wf(),
                self.next_id == old(self).view_next_id(),
            decreases rest@.len(),
        {
            let ghost rest_prev = rest@;
            let ghost kept_prev = kept@;
            let sess = rest.remove(0);
            proof {
                assert(rest@ =~= rest_prev.skip(1));
            }
            if !sess.task_finished {
                kept.push(sess);
                proof {
                    assert(kept@ + reap_view(rest@) =~= kept_prev + (seq![sess]
                        + reap_view(rest_prev.skip(1))));
                    assert(kept@.add(rest@) =~= kept_prev.add(rest_prev));
                }
            } else {
                proof {
                    assert(kept@.add(rest@) =~= kept_prev.add(rest_prev).remove(
                        kept_prev.len() as int,
                    ));
                    assert forall|i: int, j: int|
                        0 <= i < j < kept@.len() + rest@.len() implies kept@.add(rest@)[i].id
                        != kept@.add(rest@)[j].id by {
                        let full = kept_prev.add(rest_prev);
                        let k = kept_prev.len() as int;
                        let i0 = if i < k {
                            i
                        } else {
                            i + 1
                        };
                        let j0 = if j < k {
                            j
                        } else {
                            j + 1
                        };
                        assert(kept@.add(rest@)[i] == full[i0]);
                        assert(kept@.add(rest@)[j] == full[j0]);
                    }
                }
            }
        }
        proof {
            assert(reap_view(rest@) =~= Seq::<Session>::empty());
            assert(reap_view(orig) =~= kept@);
        }
        self.sessions = kept;
    }
}

/// Replacing a session by one carrying the same identifier does not
/// change where any identifier is found.
proof fn lemma_sfind_update(s: Seq<Session>, i: int, x: Session, id: u64)
    requires
        0 <= i < s.len(),
        x.id == s[i].id,
    ensures
        sfind(s.update(i, x), id) == sfind(s, id),
{
    let u = s.update(i, x);
    lemma_sfind(s, id);
    assert(forall|j: int| 0 <= j < s.len() ==> u[j].id == s[j].id);
    if shas(s, id) {
        lemma_sfind_at(u, id, sfind(s, id));
    } else {
        lemma_sfind_at(u, id, u.len() as int);
    }
}

/// Law: at most one reply is ever accepted per session.  Once a
/// submission has been accepted, the session holds that reply and no
/// longer accepts any: a second submission is rejected and leaves the
/// registry — and the first reply — unchanged.
pub proof fn lemma_at_most_one_reply(s: Seq<Session>, id: u64, r1: ReplyResult, r2: ReplyResult)
    requires
        saccepts(s, id),
    ensures
        ({
            let s1 = ssubmit(s, id, r1);
            &&& s1[sfind(s1, id)].outbound == Some(r1)
            &&& !saccepts(s1, id)
            &&& ssubmit(s1, id, r2) == s1
        }),
{
    lemma_sfind(s, id);
    let i = sfind(s, id);
    let x = Session { outbound: Some(r1), state: SessionState::ReplyDelivered, ..s[i] };
    lemma_sfind_update(s, i, x, id);
}

/// A session found after reaping was already there before.
proof fn lemma_reap_has(s: Seq<Session>, id: u64)
    ensures
        shas(reap_view(s), id) ==> shas(s, id),
    decreases s.len(),
{
    if s.len() > 0 {
        lemma_reap_has(s.skip(1), id);
        if s[0].task_finished {
        } else {
            let c = reap_view(s);
            if shas(c, id) && c[0].id != id {
                assert(c.skip(1) =~= reap_view(s.skip(1)));
            }
        }
    }
}

/// Law: reaping destroys a finished session for good.  Once the task
/// of a session has completed, one reaping pass removes its record, and
/// any reply submitted to that identifier afterward is rejected and
/// changes nothing.
pub proof fn lemma_reaped_session_rejected(s: Seq<Session>, id: u64, reply: ReplyResult)
    requires
        forall|i: int, j: int| 0 <= i < j < s.len() ==> s[i].id != s[j].id,
        shas(s, id),
        s[sfind(s, id)].task_finished,
    ensures
        !shas(reap_view(s), id),
        !saccepts(reap_view(s), id),
        ssubmit(reap_view(s), id, reply) == reap_view(s),
    decreases s.len(),
{
    lemma_sfind(s, id);
    let f = sfind(s, id);
    let tail = s.skip(1);
    if s[0].task_finished {
        if f == 0 {
            assert forall|j: int| 0 <= j < tail.len() implies tail[j].id != id by {
                assert(tail[j] == s[j + 1]);
            }
            lemma_sfind_at(tail, id, tail.len() as int);
            lemma_reap_has(tail, id);
        } else {
            assert forall|i: int, j: int|
                0 <= i < j < tail.len() implies tail[i].id != tail[j].id by {
                assert(tail[i] == s[i + 1]);
                assert(tail[j] == s[j + 1]);
            }
            assert(tail[f - 1] == s[f]);
            lemma_reaped_session_rejected(tail, id, reply);
        }
    } else {
        assert(f > 0);
        assert forall|i: int, j: int|
            0 <= i < j < tail.len() implies tail[i].id != tail[j].id by {
            assert(tail[i] == s[i + 1]);
            assert(tail[j] == s[j + 1]);
        }
        assert(tail[f - 1] == s[f]);
        lemma_reaped_session_rejected(tail, id, reply);
        let c = reap_view(s);
        assert(c[0].id != id);
        assert(c.skip(1) =~= reap_view(tail));
    }
}

/// Takes the content out of an option, leaving `None` behind.
fn take_option<T>(opt: &mut Option<T>) -> (r: Option<T>)
    ensures
        *final(opt) is None,
        r == *old(opt),
{
    let mut out: Option<T> = None;
    core::mem::swap(opt, &mut out);
    out
}

} // verus!
