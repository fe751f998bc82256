//! The sessions that are open at one time.
//!
//! Every accepted connection gets a session of its own, under an identifier
//! that no other session has or ever had. What is reported about one session
//! changes that session and no other, and a session that has closed is gone
//! from the registry: what is left in it is what is still alive.

use std::collections::HashMap;
use vstd::prelude::*;
use vstd::std_specs::hash::*;
use crate::terminal::session::{
    state_after, Session, SessionAction, SessionEvent, SessionState,
};

verus! {

broadcast use group_hash_axioms;

/// The open sessions after a session was opened under `id`.
pub open spec fn opened(sessions: Map<u64, SessionState>, id: u64) -> Map<u64, SessionState> {
    sessions.insert(id, SessionState::Starting)
}

/// The open sessions after `event` was reported about session `id`.
///
/// Only that session moves, and it leaves the map when it closes. An event
/// about a session that is not open changes nothing.
pub open spec fn reported(sessions: Map<u64, SessionState>, id: u64, event: SessionEvent) -> Map<
    u64,
    SessionState,
> {
    if sessions.contains_key(id) {
        let next = sessions[id].after(event);
        if next == SessionState::Closed {
            sessions.remove(id)
        } else {
            sessions.insert(id, next)
        }
    } else {
        sessions
    }
}

/// The open sessions after `events` were reported about session `id`, in order.
pub open spec fn reported_all(
    sessions: Map<u64, SessionState>,
    id: u64,
    events: Seq<SessionEvent>,
) -> Map<u64, SessionState>
    decreases events.len(),
{
    if events.len() == 0 {
        sessions
    } else {
        reported_all(reported(sessions, id, events.first()), id, events.drop_first())
    }
}

/// One session from its opening on: its identifier and all that is reported
/// about it.
pub struct SessionRun {
    pub id: u64,
    pub events: Seq<SessionEvent>,
}

impl SessionRun {
    /// Whether the run takes its session all the way to `Closed`.
    pub open spec fn closes(self) -> bool {
        state_after(SessionState::Starting, self.events) == SessionState::Closed
    }
}

/// The open sessions after `runs` took place one after another.
pub open spec fn after_runs(sessions: Map<u64, SessionState>, runs: Seq<SessionRun>) -> Map<
    u64,
    SessionState,
>
    decreases runs.len(),
{
    if runs.len() == 0 {
        sessions
    } else {
        let run = runs.first();
        after_runs(reported_all(opened(sessions, run.id), run.id, run.events), runs.drop_first())
    }
}

/// The sessions that are open, each under its identifier.
pub struct SessionRegistry {
    sessions: HashMap<u64, Session>,
    next_id: u64,
}

impl View for SessionRegistry {
    type V = Map<u64, SessionState>;

    /// The state of every open session, by identifier.
    closed spec fn view(&self) -> Map<u64, SessionState> {
        Map::new(
            |id: u64| self.sessions@.contains_key(id),
            |id: u64| self.sessions@[id].spec_state(),
        )
    }
}

impl SessionRegistry {
    /// What holds of every registry: each session is filed under its own
    /// identifier, none of them is closed, and none has an identifier that is
    /// still to be handed out.
    pub closed spec fn well_formed(&self) -> bool {
        forall|id: u64| #[trigger]
            self.sessions@.contains_key(id) ==> {
                &&& self.sessions@[id].spec_id() == id
                &&& self.sessions@[id].spec_state() != SessionState::Closed
                &&& id < self.next_id
            }
    }

    /// How many sessions have been opened so far. It is also the identifier
    /// the next session gets.
    pub closed spec fn issued(&self) -> nat {
        self.next_id as nat
    }

    /// What a registry in good order holds: sessions that are not closed,
    /// under identifiers that have been handed out.
    pub proof fn lemma_holds_live_sessions(&self)
        requires
            self.well_formed(),
        ensures
            self@.dom().finite(),
            forall|id: u64| #[trigger]
                self@.contains_key(id) ==> self@[id] != SessionState::Closed && id
                    < self.issued(),
    {
        assert(self@.dom() =~= self.sessions@.dom());
    }

    /// A registry with no session in it.
    pub fn new() -> (registry: SessionRegistry)
        ensures
            registry.well_formed(),
            registry@ == Map::<u64, SessionState>::empty(),
            registry.issued() == 0,
    {
        let registry = SessionRegistry { sessions: HashMap::new(), next_id: 0 };
        assert(registry@ =~= Map::<u64, SessionState>::empty());
        registry
    }

    /// Opens a session for a connection that was just accepted and returns
    /// its identifier.
    ///
    /// Identifiers are handed out in order and never twice. `None` is returned,
    /// and nothing changes, only when all of them have been handed out.
    pub fn open(&mut self) -> (id: Option<u64>)
        requires
            old(self).well_formed(),
        ensures
            final(self).well_formed(),
            id is Some <==> old(self).issued() < u64::MAX,
            match id {
                Some(id) => {
                    &&& id == old(self).issued()
                    &&& !old(self)@.contains_key(id)
                    &&& final(self)@ == opened(old(self)@, id)
                    &&& final(self).issued() == old(self).issued() + 1
                },
                None => final(self)@ == old(self)@ && final(self).issued() == old(self).issued(),
            },
    {
        if self.next_id == u64::MAX {
            return None;
        }
        let id = self.next_id;
        self.sessions.insert(id, Session::new(id));
        self.next_id = id + 1;
        assert(self@ =~= opened(old(self)@, id));
        Some(id)
    }

    /// Reports `event` about session `id` and returns what the session asks
    /// for, or `None` if no such session is open.
    ///
    /// No other session is touched. A session that closes leaves the registry.
    pub fn handle(&mut self, id: u64, event: SessionEvent) -> (action: Option<SessionAction>)
        requires
            old(self).well_formed(),
        ensures
            final(self).well_formed(),
            final(self)@ == reported(old(self)@, id, event),
            final(self).issued() == old(self).issued(),
            action == (if old(self)@.contains_key(id) {
                Some(old(self)@[id].reaction(event))
            } else {
                None
            }),
    {
        match self.sessions.remove(&id) {
            Some(session) => {
                let mut session = session;
                let action = session.handle(event);
                if !session.state().is_closed() {
                    self.sessions.insert(id, session);
                }
                assert(self@ =~= reported(old(self)@, id, event));
                Some(action)
            },
            None => {
                assert(self@ =~= old(self)@);
                None
            },
        }
    }

    /// The state of session `id`, or `None` if no such session is open.
    ///
    /// It is never `Closed`: a closed session is not in the registry.
    pub fn state_of(&self, id: u64) -> (state: Option<SessionState>)
        requires
            self.well_formed(),
        ensures
            state == (if self@.contains_key(id) {
                Some(self@[id])
            } else {
                None
            }),
            state != Some(SessionState::Closed),
    {
        match self.sessions.get(&id) {
            Some(session) => Some(session.state()),
            None => None,
        }
    }

    /// How many sessions are open.
    pub fn live(&self) -> (count: usize)
        ensures
            count == self@.len(),
            self@.dom().finite(),
    {
        assert(self@.dom() =~= self.sessions@.dom());
        self.sessions.len()
    }
}

/// Sessions are isolated from one another. What is reported about one
/// session leaves every other session as it was, and what is reported about
/// two different sessions comes to the same in either order.
pub proof fn lemma_sessions_are_isolated(
    sessions: Map<u64, SessionState>,
    id: u64,
    event: SessionEvent,
    other: u64,
    other_event: SessionEvent,
)
    requires
        id != other,
    ensures
        reported(sessions, id, event).contains_key(other) == sessions.contains_key(other),
        sessions.contains_key(other) ==> reported(sessions, id, event)[other] == sessions[other],
        opened(sessions, id).contains_key(other) == sessions.contains_key(other),
        sessions.contains_key(other) ==> opened(sessions, id)[other] == sessions[other],
        reported(reported(sessions, id, event), other, other_event) == reported(
            reported(sessions, other, other_event),
            id,
            event,
        ),
{
    assert(reported(reported(sessions, id, event), other, other_event) =~= reported(
        reported(sessions, other, other_event),
        id,
        event,
    ));
}

proof fn lemma_absent_session_stays_absent(
    sessions: Map<u64, SessionState>,
    id: u64,
    events: Seq<SessionEvent>,
)
    requires
        !sessions.contains_key(id),
    ensures
        reported_all(sessions, id, events) == sessions,
    decreases events.len(),
{
    if events.len() > 0 {
        lemma_absent_session_stays_absent(sessions, id, events.drop_first());
    }
}

proof fn lemma_closing_run_removes(
    sessions: Map<u64, SessionState>,
    id: u64,
    events: Seq<SessionEvent>,
)
    requires
        sessions.contains_key(id),
        sessions[id] != SessionState::Closed,
        state_after(sessions[id], events) == SessionState::Closed,
    ensures
        reported_all(sessions, id, events) == sessions.remove(id),
    decreases events.len(),
{
    if events.len() > 0 {
        let next = reported(sessions, id, events.first());
        if sessions[id].after(events.first()) == SessionState::Closed {
            lemma_absent_session_stays_absent(next, id, events.drop_first());
        } else {
            lemma_closing_run_removes(next, id, events.drop_first());
            assert(next.remove(id) =~= sessions.remove(id));
        }
    }
}

/// A session that closes leaves nothing behind: after it was opened and
/// taken to `Closed`, the open sessions are those that were open before.
pub proof fn lemma_closed_session_is_gone(sessions: Map<u64, SessionState>, run: SessionRun)
    requires
        !sessions.contains_key(run.id),
        run.closes(),
    ensures
        reported_all(opened(sessions, run.id), run.id, run.events) == sessions,
{
    lemma_closing_run_removes(opened(sessions, run.id), run.id, run.events);
    assert(opened(sessions, run.id).remove(run.id) =~= sessions);
}

/// No session leaks: after any number of sessions were opened and closed
/// one after another, the open sessions are those that were open before. From
/// an empty registry on, none is left.
pub proof fn lemma_no_session_left(sessions: Map<u64, SessionState>, runs: Seq<SessionRun>)
    requires
        forall|i: int|
            0 <= i < runs.len() ==> (#[trigger] runs[i]).closes() && !sessions.contains_key(
                runs[i].id,
            ),
    ensures
        after_runs(sessions, runs) == sessions,
        sessions == Map::<u64, SessionState>::empty() ==> after_runs(sessions, runs).len() == 0,
    decreases runs.len(),
{
    if runs.len() > 0 {
        let rest = runs.drop_first();
        assert(runs[0].closes());
        lemma_closed_session_is_gone(sessions, runs.first());
        assert forall|i: int| 0 <= i < rest.len() implies (#[trigger] rest[i]).closes()
            && !sessions.contains_key(rest[i].id) by {
            assert(rest[i] == runs[i + 1]);
        }
        lemma_no_session_left(sessions, rest);
    }
}

} // verus!
