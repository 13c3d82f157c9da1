use vstd::prelude::*;
use crate::messages::{ClientMessage, ServerMessage};
use crate::router::{route, spec_delivery_ok, spec_eligible};

verus! {

/// The lifecycle of one connection task.
#[derive(Debug, Copy, Clone, PartialEq, Eq, Structural)]
pub enum SessionState {
    /// Transport handshake done, no identity assigned yet.
    Connecting,
    /// Identity assigned and present in the registry; no messages processed.
    Registered { id: u128 },
    /// Normal operation: inbound messages are read and dispatched.
    Active { id: u128 },
    /// Teardown has begun; no further inbound messages are accepted.
    Closing { id: u128 },
    /// The registry entry is gone and the session task ends. Terminal.
    Removed,
}

/// One observation a session task reacts to.
#[derive(Debug)]
pub enum SessionEvent {
    /// The registry admitted this connection under `id`.
    RegistrationSucceeded { id: u128 },
    /// The retry budget was exhausted while the registry stayed locked.
    RegistrationFailed,
    /// An inbound text frame, already decoded by the transport layer;
    /// `None` when the text did not decode to a [`ClientMessage`].
    TextFrame { parsed: Option<ClientMessage> },
    /// An inbound frame of a kind the relay does not handle.
    OtherFrame,
    /// The peer closed the connection.
    CloseFrame,
    /// Reading from the transport failed.
    ReadError,
    /// The sink was closed (best effort) and the registry entry removed.
    TeardownComplete,
}

/// One duty the session hands back to its driver.
#[derive(Debug)]
pub enum SessionAction {
    /// Send `message` to the live connection `target`.
    Deliver { target: u128, message: ServerMessage },
    /// Reject the connection: it never entered the registry.
    Reject,
    /// Close this connection's own sink, best effort.
    CloseSink,
    /// Remove this connection from the registry, unconditionally.
    Remove { id: u128 },
}

/// The state each observation leads to.
pub open spec fn spec_next_state(state: SessionState, event: SessionEvent) -> SessionState {
    match (state, event) {
        (SessionState::Connecting, SessionEvent::RegistrationSucceeded { id }) => {
            SessionState::Registered { id }
        },
        (SessionState::Registered { id }, SessionEvent::CloseFrame) => {
            SessionState::Closing { id }
        },
        (SessionState::Registered { id }, SessionEvent::ReadError) => SessionState::Closing { id },
        (SessionState::Active { id }, SessionEvent::CloseFrame) => SessionState::Closing { id },
        (SessionState::Active { id }, SessionEvent::ReadError) => SessionState::Closing { id },
        (SessionState::Closing { id: _ }, SessionEvent::TeardownComplete) => SessionState::Removed,
        _ => state,
    }
}

/// The duties each observation brings, for every case except a parsed text
/// frame while active, whose deliveries the router decides.
pub open spec fn spec_actions(state: SessionState, event: SessionEvent) -> Seq<SessionAction> {
    match (state, event) {
        (SessionState::Connecting, SessionEvent::RegistrationFailed) => {
            seq![SessionAction::Reject]
        },
        (SessionState::Registered { id }, SessionEvent::CloseFrame) => {
            seq![SessionAction::CloseSink, SessionAction::Remove { id }]
        },
        (SessionState::Registered { id }, SessionEvent::ReadError) => {
            seq![SessionAction::CloseSink, SessionAction::Remove { id }]
        },
        (SessionState::Active { id }, SessionEvent::CloseFrame) => {
            seq![SessionAction::CloseSink, SessionAction::Remove { id }]
        },
        (SessionState::Active { id }, SessionEvent::ReadError) => {
            seq![SessionAction::CloseSink, SessionAction::Remove { id }]
        },
        _ => Seq::empty(),
    }
}

/// Whether the observation is a parsed text frame processed while active:
/// the one case whose duties the router decides at random.
pub open spec fn spec_is_dispatch(state: SessionState, event: SessionEvent) -> bool {
    state matches SessionState::Active { id: _ } && event matches SessionEvent::TextFrame {
        parsed: Some(_),
    }
}

/// Registration done: processing begins at once.
pub fn activate(state: SessionState) -> (r: SessionState)
    ensures
        state matches SessionState::Registered { id } ==> r == (SessionState::Active { id }),
        !(state matches SessionState::Registered { .. }) ==> r == state,
{
    match state {
        SessionState::Registered { id } => SessionState::Active { id },
        _ => state,
    }
}

/// One turn of the session's loop: take the current state and one
/// observation, and hand back the next state and the duties that follow from
/// it.
///
/// A text frame that did not decode is discarded: the state does not change
/// and nothing is sent. A close frame or a read error starts teardown, which
/// closes the sink and removes the registry entry before the state reaches
/// `Removed`.
pub fn session_step(
    state: SessionState,
    event: SessionEvent,
    keys: &Vec<u128>,
    source: &mut random::Xorshift128Plus,
) -> (r: (SessionState, Vec<SessionAction>))
    requires
        keys@.no_duplicates(),
    ensures
        r.0 == spec_next_state(state, event),
        !spec_is_dispatch(state, event) ==> r.1@ == spec_actions(state, event),
        state matches SessionState::Active { id } ==> event matches SessionEvent::TextFrame {
            parsed: Some(m),
        } ==> {
            &&& forall|t: int|
                0 <= t < r.1@.len() ==> ((#[trigger] r.1@[t]) matches SessionAction::Deliver {
                    target,
                    message,
                } && spec_delivery_ok(keys@, id, m@, (target, message)))
            &&& (m@ is BoardUpdate || m@ is GameOver) ==> r.1@.len() == spec_eligible(
                keys@,
                id,
            ).len() && forall|t: int|
                0 <= t < r.1@.len() ==> ((#[trigger] r.1@[t]) matches SessionAction::Deliver {
                    target,
                    message,
                } && target == spec_eligible(keys@, id)[t])
            &&& (m@ is LinesDestroyed && keys@.len() < 2) ==> r.1@.len() == 0
            &&& (m@ is LinesDestroyed && keys@.len() >= 2) ==> r.1@.len() == 1
        },
{
    match (state, event) {
        (SessionState::Connecting, SessionEvent::RegistrationSucceeded { id }) => {
            (SessionState::Registered { id }, Vec::new())
        },
        (SessionState::Connecting, SessionEvent::RegistrationFailed) => {
            let mut acts: Vec<SessionAction> = Vec::new();
            acts.push(SessionAction::Reject);
            proof {
                assert(acts@ =~= spec_actions(state, SessionEvent::RegistrationFailed));
            }
            (SessionState::Connecting, acts)
        },
        (SessionState::Active { id }, SessionEvent::TextFrame { parsed: Some(m) }) => {
            let mut deliveries = route(id, &m, keys, source);
            let ghost planned = deliveries@;
            let mut acts: Vec<SessionAction> = Vec::new();
            while deliveries.len() > 0
                invariant
                    acts@.len() + deliveries@.len() == planned.len(),
                    deliveries@ == planned.skip(acts@.len() as int),
                    forall|t: int|
                        0 <= t < acts@.len() ==> ((#[trigger] acts@[t])
                            matches SessionAction::Deliver { target, message } && target
                            == planned[t].0 && message == planned[t].1),
                decreases deliveries@.len(),
            {
                let d = deliveries.remove(0);
                proof {
                    assert(d == planned[acts@.len() as int]);
                    assert(deliveries@ =~= planned.skip(acts@.len() as int + 1));
                }
                acts.push(SessionAction::Deliver { target: d.0, message: d.1 });
            }
            proof {
                assert(acts@.len() == planned.len());
                assert forall|t: int| 0 <= t < acts@.len() implies ((#[trigger] acts@[t])
                    matches SessionAction::Deliver { target, message } && spec_delivery_ok(
                    keys@,
                    id,
                    m@,
                    (target, message),
                )) by {
                    assert(spec_delivery_ok(keys@, id, m@, planned[t]));
                    assert((planned[t].0, planned[t].1) == planned[t]);
                }
            }
            (SessionState::Active { id }, acts)
        },
        (SessionState::Active { id }, SessionEvent::TextFrame { parsed: None }) => {
            (SessionState::Active { id }, Vec::new())
        },
        (SessionState::Active { id }, SessionEvent::OtherFrame) => {
            (SessionState::Active { id }, Vec::new())
        },
        (SessionState::Active { id }, SessionEvent::CloseFrame) => {
            let mut acts: Vec<SessionAction> = Vec::new();
            acts.push(SessionAction::CloseSink);
            acts.push(SessionAction::Remove { id });
            proof {
                assert(acts@ =~= spec_actions(state, SessionEvent::CloseFrame));
            }
            (SessionState::Closing { id }, acts)
        },
        (SessionState::Active { id }, SessionEvent::ReadError) => {
            let mut acts: Vec<SessionAction> = Vec::new();
            acts.push(SessionAction::CloseSink);
            acts.push(SessionAction::Remove { id });
            proof {
                assert(acts@ =~= spec_actions(state, SessionEvent::ReadError));
            }
            (SessionState::Closing { id }, acts)
        },
        (SessionState::Registered { id }, SessionEvent::CloseFrame) => {
            let mut acts: Vec<SessionAction> = Vec::new();
            acts.push(SessionAction::CloseSink);
            acts.push(SessionAction::Remove { id });
            proof {
                assert(acts@ =~= spec_actions(state, SessionEvent::CloseFrame));
            }
            (SessionState::Closing { id }, acts)
        },
        (SessionState::Registered { id }, SessionEvent::ReadError) => {
            let mut acts: Vec<SessionAction> = Vec::new();
            acts.push(SessionAction::CloseSink);
            acts.push(SessionAction::Remove { id });
            proof {
                assert(acts@ =~= spec_actions(state, SessionEvent::ReadError));
            }
            (SessionState::Closing { id }, acts)
        },
        (SessionState::Closing { id: _ }, SessionEvent::TeardownComplete) => {
            (SessionState::Removed, Vec::new())
        },
        (s, _) => (s, Vec::new()),
    }
}

} // verus!
