//! The life of one terminal session.
//!
//! A session walks `Starting`, `Running`, `Closing`, `Closed`, in that order
//! and never back. The program around the library performs each
//! [`SessionAction`] and reports what happened as the next [`SessionEvent`].

use vstd::prelude::*;

verus! {

/// The size of the pseudo-terminal a shell is attached to.
#[derive(Clone, Copy, Debug, PartialEq, Eq, Structural)]
pub struct TerminalGeometry {
    pub rows: u16,
    pub cols: u16,
    pub pixel_width: u16,
    pub pixel_height: u16,
}

/// The path a client asks at to open a session. Nothing else of the request
/// is looked at.
pub const TERMINAL_PATH: &'static str = "/api/terminal";

/// The program every session runs: an interactive shell. Clients cannot
/// choose another.
pub const SHELL_PROGRAM: &'static str = "bash";

/// The directory every shell starts in: the root of the workspace.
pub const SHELL_WORKING_DIR: &'static str = "./workspace";

/// Rows of every pseudo-terminal.
pub const TERMINAL_ROWS: u16 = 24;

/// Columns of every pseudo-terminal.
pub const TERMINAL_COLS: u16 = 80;

impl TerminalGeometry {
    /// The one geometry sessions use: clients cannot choose or change it.
    pub fn fixed() -> (geometry: TerminalGeometry)
        ensures
            geometry == (TerminalGeometry {
                rows: TERMINAL_ROWS,
                cols: TERMINAL_COLS,
                pixel_width: 0,
                pixel_height: 0,
            }),
    {
        TerminalGeometry { rows: TERMINAL_ROWS, cols: TERMINAL_COLS, pixel_width: 0, pixel_height: 0 }
    }
}

/// Where a session stands in its life.
#[derive(Clone, Copy, Debug, PartialEq, Eq, Structural)]
pub enum SessionState {
    /// The pseudo-terminal is being allocated and the shell spawned.
    Starting,
    /// The shell runs and all three relays are at work.
    Running,
    /// One side is gone; the session is being torn down.
    Closing,
    /// Everything the session owned has been released.
    Closed,
}

/// Why a session could not be set up.
#[derive(Clone, Copy, Debug, PartialEq, Eq, Structural)]
pub enum SetupError {
    /// No pseudo-terminal could be allocated.
    PtyAllocation,
    /// The shell could not be spawned on the pseudo-terminal.
    ShellSpawn,
}

/// What the coordinator is told.
#[derive(Clone, Copy, Debug, PartialEq, Eq, Structural)]
pub enum SessionEvent {
    /// The pseudo-terminal exists and the shell runs on it.
    SetupSucceeded,
    /// Setup failed; no shell runs.
    SetupFailed(SetupError),
    /// The relay that sends shell output to the client has ended.
    ForwarderEnded,
    /// The relay that writes client input to the shell has ended.
    WriterEnded,
    /// The teardown that was asked for has been carried out, whatever came of it.
    TeardownDone,
}

/// What the coordinator asks for in return.
#[derive(Clone, Copy, Debug, PartialEq, Eq, Structural)]
pub enum SessionAction {
    /// Launch the reader relay, the outbound forwarder and the inbound writer.
    StartRelays,
    /// Signal the shell to terminate; a failure to do so is ignored.
    KillProcess,
    /// End the client connection: there is no shell to talk to.
    EndConnection,
    /// Release every handle and channel the session still owns.
    ReleaseResources,
    /// Nothing: the event means nothing in the present state.
    Ignore,
}

impl SessionState {
    /// How far along its path a session in this state is.
    pub open spec fn rank(self) -> nat {
        match self {
            SessionState::Starting => 0,
            SessionState::Running => 1,
            SessionState::Closing => 2,
            SessionState::Closed => 3,
        }
    }

    /// The state that follows `self` when `event` is reported.
    ///
    /// Setup ends `Starting` either way; the first client-facing relay to end
    /// ends `Running`; a finished teardown ends `Closing`. Every other pairing
    /// leaves the state as it is.
    pub open spec fn after(self, event: SessionEvent) -> SessionState {
        match (self, event) {
            (SessionState::Starting, SessionEvent::SetupSucceeded) => SessionState::Running,
            (SessionState::Starting, SessionEvent::SetupFailed(_)) => SessionState::Closing,
            (SessionState::Running, SessionEvent::ForwarderEnded) => SessionState::Closing,
            (SessionState::Running, SessionEvent::WriterEnded) => SessionState::Closing,
            (SessionState::Closing, SessionEvent::TeardownDone) => SessionState::Closed,
            _ => self,
        }
    }

    /// What has to be done when `event` is reported in state `self`.
    pub open spec fn reaction(self, event: SessionEvent) -> SessionAction {
        match (self, event) {
            (SessionState::Starting, SessionEvent::SetupSucceeded) => SessionAction::StartRelays,
            (SessionState::Starting, SessionEvent::SetupFailed(_)) => SessionAction::EndConnection,
            (SessionState::Running, SessionEvent::ForwarderEnded) => SessionAction::KillProcess,
            (SessionState::Running, SessionEvent::WriterEnded) => SessionAction::KillProcess,
            (SessionState::Closing, SessionEvent::TeardownDone) => SessionAction::ReleaseResources,
            _ => SessionAction::Ignore,
        }
    }

    /// Whether the session has come to its end.
    pub fn is_closed(self) -> (closed: bool)
        ensures
            closed == (self == SessionState::Closed),
    {
        self == SessionState::Closed
    }

    /// Computes [`SessionState::after`] and [`SessionState::reaction`] at once.
    pub fn step(self, event: SessionEvent) -> (outcome: (SessionState, SessionAction))
        ensures
            outcome.0 == self.after(event),
            outcome.1 == self.reaction(event),
    {
        match self {
            SessionState::Starting => match event {
                SessionEvent::SetupSucceeded => (SessionState::Running, SessionAction::StartRelays),
                SessionEvent::SetupFailed(_) => (SessionState::Closing, SessionAction::EndConnection),
                _ => (self, SessionAction::Ignore),
            },
            SessionState::Running => match event {
                SessionEvent::ForwarderEnded | SessionEvent::WriterEnded => (
                    SessionState::Closing,
                    SessionAction::KillProcess,
                ),
                _ => (self, SessionAction::Ignore),
            },
            SessionState::Closing => match event {
                SessionEvent::TeardownDone => (SessionState::Closed, SessionAction::ReleaseResources),
                _ => (self, SessionAction::Ignore),
            },
            SessionState::Closed => (self, SessionAction::Ignore),
        }
    }
}

/// One terminal session: its identifier and where it stands.
#[derive(Debug)]
pub struct Session {
    id: u64,
    state: SessionState,
}

impl Session {
    /// The identifier the session was created with.
    pub closed spec fn spec_id(&self) -> u64 {
        self.id
    }

    /// The state the session is in.
    pub closed spec fn spec_state(&self) -> SessionState {
        self.state
    }

    /// A session that has just been accepted: setup is still to come.
    pub fn new(id: u64) -> (session: Session)
        ensures
            session.spec_id() == id,
            session.spec_state() == SessionState::Starting,
    {
        Session { id, state: SessionState::Starting }
    }

    /// The identifier the session was created with.
    #[verifier::when_used_as_spec(spec_id)]
    pub fn id(&self) -> (id: u64)
        ensures
            id == self.spec_id(),
    {
        self.id
    }

    /// The state the session is in.
    #[verifier::when_used_as_spec(spec_state)]
    pub fn state(&self) -> (state: SessionState)
        ensures
            state == self.spec_state(),
    {
        self.state
    }

    /// Takes one event in: moves the session on and says what to do.
    ///
    /// The identifier never changes, and once the session is `Closed` every
    /// event is ignored.
    pub fn handle(&mut self, event: SessionEvent) -> (action: SessionAction)
        ensures
            final(self).spec_id() == old(self).spec_id(),
            final(self).spec_state() == old(self).spec_state().after(event),
            action == old(self).spec_state().reaction(event),
    {
        let (next, action) = self.state.step(event);
        self.state = next;
        action
    }
}

/// The state a session reaches from `state` when `events` are reported in order.
pub open spec fn state_after(state: SessionState, events: Seq<SessionEvent>) -> SessionState
    decreases events.len(),
{
    if events.len() == 0 {
        state
    } else {
        state_after(state.after(events.first()), events.drop_first())
    }
}

/// The actions a session asks for, one per event, when `events` are reported
/// in order to a session in `state`.
pub open spec fn reactions(state: SessionState, events: Seq<SessionEvent>) -> Seq<SessionAction>
    decreases events.len(),
{
    if events.len() == 0 {
        Seq::empty()
    } else {
        seq![state.reaction(events.first())] + reactions(
            state.after(events.first()),
            events.drop_first(),
        )
    }
}

/// How often `action` occurs in `actions`.
pub open spec fn occurrences(actions: Seq<SessionAction>, action: SessionAction) -> nat
    decreases actions.len(),
{
    if actions.len() == 0 {
        0
    } else {
        let rest = occurrences(actions.drop_first(), action);
        if actions.first() == action {
            rest + 1
        } else {
            rest
        }
    }
}

proof fn lemma_occurrences_cons(head: SessionAction, tail: Seq<SessionAction>, action: SessionAction)
    ensures
        occurrences(seq![head] + tail, action) == occurrences(tail, action) + (if head == action {
            1nat
        } else {
            0nat
        }),
{
    let all = seq![head] + tail;
    assert(all.first() == head);
    assert(all.drop_first() =~= tail);
}

/// A session never goes back: whatever is reported, and in whatever order,
/// the state it reaches lies no earlier on its path than the state it left.
pub proof fn lemma_state_never_goes_back(state: SessionState, events: Seq<SessionEvent>)
    ensures
        state.rank() <= state_after(state, events).rank(),
    decreases events.len(),
{
    if events.len() > 0 {
        lemma_state_never_goes_back(state.after(events.first()), events.drop_first());
    }
}

/// `Closed` is final: a closed session stays closed and ignores every event.
pub proof fn lemma_closed_is_final(events: Seq<SessionEvent>)
    ensures
        state_after(SessionState::Closed, events) == SessionState::Closed,
        reactions(SessionState::Closed, events).len() == events.len(),
        forall|i: int|
            0 <= i < events.len() ==> reactions(SessionState::Closed, events)[i]
                == SessionAction::Ignore,
    decreases events.len(),
{
    if events.len() > 0 {
        lemma_closed_is_final(events.drop_first());
    }
}

proof fn lemma_teardown_from(state: SessionState, events: Seq<SessionEvent>)
    ensures
        ({
            let actions = reactions(state, events);
            let started: nat = occurrences(actions, SessionAction::StartRelays);
            let killed: nat = occurrences(actions, SessionAction::KillProcess);
            let released: nat = occurrences(actions, SessionAction::ReleaseResources);
            let last = state_after(state, events);
            &&& started <= 1
            &&& killed <= 1
            &&& released <= 1
            &&& state != SessionState::Starting ==> started == 0
            &&& state.rank() >= 2 ==> killed == 0
            &&& state == SessionState::Closed ==> released == 0
            &&& state == SessionState::Starting ==> killed <= started
            &&& last == SessionState::Closed && state != SessionState::Closed ==> released == 1
            &&& last == SessionState::Closed && state == SessionState::Starting ==> killed
                == started
            &&& last == SessionState::Closed && state == SessionState::Running ==> killed == 1
            &&& last != SessionState::Closed ==> released == 0
            &&& last.rank() <= 1 ==> killed == 0
            &&& last == SessionState::Starting ==> started == 0
            &&& last == SessionState::Running ==> state == SessionState::Running || started == 1
        }),
    decreases events.len(),
{
    if events.len() > 0 {
        let head = state.reaction(events.first());
        let next = state.after(events.first());
        let tail = reactions(next, events.drop_first());
        lemma_teardown_from(next, events.drop_first());
        lemma_state_never_goes_back(next, events.drop_first());
        lemma_occurrences_cons(head, tail, SessionAction::StartRelays);
        lemma_occurrences_cons(head, tail, SessionAction::KillProcess);
        lemma_occurrences_cons(head, tail, SessionAction::ReleaseResources);
    }
}

/// Teardown happens once and misses nothing, whatever is reported to a new
/// session and in whatever order.
///
/// The relays are started at most once. The shell is signalled at most
/// once, and never unless the relays were started. Resources are released at
/// most once, and exactly when the session becomes `Closed`. A session that
/// has become `Closed` has signalled its shell if it ever started one; a
/// session that is `Running` has started its shell and not signalled it.
pub proof fn lemma_teardown_happens_once(events: Seq<SessionEvent>)
    ensures
        ({
            let actions = reactions(SessionState::Starting, events);
            let started: nat = occurrences(actions, SessionAction::StartRelays);
            let killed: nat = occurrences(actions, SessionAction::KillProcess);
            let released: nat = occurrences(actions, SessionAction::ReleaseResources);
            let last = state_after(SessionState::Starting, events);
            &&& killed <= started <= 1
            &&& released == (if last == SessionState::Closed {
                1nat
            } else {
                0nat
            })
            &&& last == SessionState::Closed ==> killed == started
            &&& last == SessionState::Running ==> started == 1 && killed == 0
            &&& last == SessionState::Starting ==> started == 0
        }),
{
    lemma_teardown_from(SessionState::Starting, events);
}

proof fn lemma_teardown_closes(more: Seq<SessionEvent>)
    requires
        more.contains(SessionEvent::TeardownDone),
    ensures
        state_after(SessionState::Closing, more) == SessionState::Closed,
    decreases more.len(),
{
    if more.first() == SessionEvent::TeardownDone {
        lemma_closed_is_final(more.drop_first());
    } else {
        let at: int = choose|i: int| 0 <= i < more.len() && more[i] == SessionEvent::TeardownDone;
        assert(more.drop_first()[at - 1] == more[at]);
        lemma_teardown_closes(more.drop_first());
    }
}

/// Whichever client-facing relay ends first ends the session. Told that the
/// forwarder or the writer has ended, a running session asks at once for the
/// shell to be killed. Whatever is reported after that, it asks so no second
/// time and does not run again, and it is closed once the teardown has been
/// reported done.
pub proof fn lemma_first_relay_to_end_closes(ended: SessionEvent, more: Seq<SessionEvent>)
    requires
        ended == SessionEvent::ForwarderEnded || ended == SessionEvent::WriterEnded,
    ensures
        ({
            let events = seq![ended] + more;
            let actions = reactions(SessionState::Running, events);
            let last = state_after(SessionState::Running, events);
            &&& actions[0] == SessionAction::KillProcess
            &&& occurrences(actions, SessionAction::KillProcess) == 1
            &&& last == SessionState::Closing || last == SessionState::Closed
            &&& more.contains(SessionEvent::TeardownDone) ==> last == SessionState::Closed
        }),
{
    let events = seq![ended] + more;
    assert(events.first() == ended);
    assert(events.drop_first() =~= more);
    lemma_teardown_from(SessionState::Closing, more);
    lemma_state_never_goes_back(SessionState::Closing, more);
    lemma_occurrences_cons(
        SessionAction::KillProcess,
        reactions(SessionState::Closing, more),
        SessionAction::KillProcess,
    );
    if more.contains(SessionEvent::TeardownDone) {
        lemma_teardown_closes(more);
    }
}

} // verus!
