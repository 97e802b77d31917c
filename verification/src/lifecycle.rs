//! The connection-owning adapters' state machine: transitions are driven
//! entirely by the underlying network connection's lifecycle, and the core
//! imposes no retry transition out of `Closed`.

use vstd::prelude::*;

verus! {

/// State of a connection-owning adapter.
#[derive(Clone, Copy, Debug, PartialEq, Eq, Structural)]
pub enum ConnState {
    Disconnected,
    Connecting,
    Running,
    Closed,
}

/// What the underlying connection reports.
#[derive(Clone, Copy, Debug, PartialEq, Eq, Structural)]
pub enum ConnEvent {
    /// Connecting has begun.
    DialStarted,
    /// The session is established and traffic may flow.
    SessionEstablished,
    /// The connection is gone.
    ConnectionLost,
}

/// The one transition `event` drives from `state`; every pairing the
/// connection cannot produce leaves the state where it is, and nothing
/// leaves `Closed`.
pub open spec fn lifecycle_spec(state: ConnState, event: ConnEvent) -> ConnState {
    match (state, event) {
        (ConnState::Disconnected, ConnEvent::DialStarted) => ConnState::Connecting,
        (ConnState::Connecting, ConnEvent::SessionEstablished) => ConnState::Running,
        (ConnState::Connecting, ConnEvent::ConnectionLost) => ConnState::Closed,
        (ConnState::Running, ConnEvent::ConnectionLost) => ConnState::Closed,
        _ => state,
    }
}

/// Advances the adapter's state for one connection event, exactly as
/// [`lifecycle_spec`] says.
pub fn lifecycle_step(state: ConnState, event: ConnEvent) -> (r: ConnState)
    ensures
        r == lifecycle_spec(state, event),
{
    match (state, event) {
        (ConnState::Disconnected, ConnEvent::DialStarted) => ConnState::Connecting,
        (ConnState::Connecting, ConnEvent::SessionEstablished) => ConnState::Running,
        (ConnState::Connecting, ConnEvent::ConnectionLost) => ConnState::Closed,
        (ConnState::Running, ConnEvent::ConnectionLost) => ConnState::Closed,
        (s, _) => s,
    }
}

/// No retry: once `Closed`, no connection event moves the adapter anywhere.
pub proof fn lemma_closed_is_final(event: ConnEvent)
    ensures
        lifecycle_spec(ConnState::Closed, event) == ConnState::Closed,
{
}

} // verus!
