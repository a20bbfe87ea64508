//! Connection establishment as a state machine.
//!
//! An outbound link runs `Idle → Dialing → Handshaking → Established →
//! Closed`; an inbound one runs `Idle → Accepted → Established → Closed`,
//! handshaking synchronously right after the accept. The caller performs the
//! actions (a TCP attempt, the handshake, registration, a report) and feeds
//! the outcome back as the next event; every decision — retry within the
//! timeout budget, give up after it, register only a completed handshake —
//! is taken here.

use vstd::prelude::*;

verus! {

/// How long a connector keeps retrying TCP attempts, in milliseconds.
/// Exceeding it without one successful connect is a terminal failure event,
/// reported to the caller, not a fault.
pub const CONNECT_TIMEOUT_MS: u64 = 10_000;

/// Where a link stands.
#[derive(Clone, Copy, PartialEq, Eq, Structural, Debug)]
pub enum LinkPhase {
    /// No link yet.
    Idle,
    /// Retrying TCP connect attempts within the timeout budget.
    Dialing,
    /// An inbound stream was accepted; its handshake runs now.
    Accepted,
    /// An outbound stream is up; its handshake runs now.
    Handshaking,
    /// The handshake completed; the connection is registered and live.
    Established,
    /// Establishment failed: the dial timed out or the handshake broke.
    Failed,
    /// The link ended after being established.
    Closed,
}

/// What just happened to the link.
#[derive(Clone, Copy, PartialEq, Eq, Structural, Debug)]
pub enum LinkEvent {
    /// The caller wants an outbound connection.
    DialRequested,
    /// A TCP connect attempt succeeded.
    TcpConnected,
    /// A TCP connect attempt failed; this much time has passed since dialing
    /// began.
    TcpFailed { elapsed_ms: u64 },
    /// The listener accepted an inbound stream.
    InboundAccepted,
    /// The key exchange completed and yielded a shared secret.
    HandshakeDone,
    /// The key exchange aborted: a read or write failed or was truncated.
    HandshakeFailed,
    /// The established stream ended.
    StreamClosed,
}

/// What the caller must do next.
#[derive(Clone, Copy, PartialEq, Eq, Structural, Debug)]
pub enum LinkAction {
    /// Try one TCP connect.
    AttemptTcp,
    /// Run the key exchange on the fresh stream.
    RunHandshake,
    /// Insert the connection into the registry; it is live.
    RegisterPeer,
    /// Report that the dial timed out, and stop.
    ReportTimeout,
    /// Report that the handshake failed, and stop. The connection must not
    /// be registered.
    ReportHandshakeFailure,
    /// Remove the connection from the registry and report the disconnect.
    Deregister,
    /// Nothing: the event does not apply to this phase.
    Ignore,
}

/// The transition table: the next phase and the action it demands.
pub open spec fn spec_link_step(phase: LinkPhase, event: LinkEvent) -> (LinkPhase, LinkAction) {
    match (phase, event) {
        (LinkPhase::Idle, LinkEvent::DialRequested) => (LinkPhase::Dialing, LinkAction::AttemptTcp),
        (LinkPhase::Idle, LinkEvent::InboundAccepted) => (
            LinkPhase::Accepted,
            LinkAction::RunHandshake,
        ),
        (LinkPhase::Dialing, LinkEvent::TcpConnected) => (
            LinkPhase::Handshaking,
            LinkAction::RunHandshake,
        ),
        (LinkPhase::Dialing, LinkEvent::TcpFailed { elapsed_ms }) => if elapsed_ms
            <= CONNECT_TIMEOUT_MS {
            (LinkPhase::Dialing, LinkAction::AttemptTcp)
        } else {
            (LinkPhase::Failed, LinkAction::ReportTimeout)
        },
        (LinkPhase::Handshaking, LinkEvent::HandshakeDone) => (
            LinkPhase::Established,
            LinkAction::RegisterPeer,
        ),
        (LinkPhase::Accepted, LinkEvent::HandshakeDone) => (
            LinkPhase::Established,
            LinkAction::RegisterPeer,
        ),
        (LinkPhase::Handshaking, LinkEvent::HandshakeFailed) => (
            LinkPhase::Failed,
            LinkAction::ReportHandshakeFailure,
        ),
        (LinkPhase::Accepted, LinkEvent::HandshakeFailed) => (
            LinkPhase::Failed,
            LinkAction::ReportHandshakeFailure,
        ),
        (LinkPhase::Established, LinkEvent::StreamClosed) => (
            LinkPhase::Closed,
            LinkAction::Deregister,
        ),
        _ => (phase, LinkAction::Ignore),
    }
}

/// Advances a link by one event.
///
/// A connection is registered exactly when a handshake it was waiting for
/// completed: a failed or aborted handshake never registers. A dial keeps
/// retrying while the elapsed time is within the timeout budget and becomes
/// a terminal, reported failure the moment it is over budget.
pub fn link_step(phase: LinkPhase, event: LinkEvent) -> (r: (LinkPhase, LinkAction))
    ensures
        r == spec_link_step(phase, event),
        r.1 == LinkAction::RegisterPeer <==> (phase == LinkPhase::Handshaking || phase
            == LinkPhase::Accepted) && event == LinkEvent::HandshakeDone,
        r.1 == LinkAction::AttemptTcp ==> r.0 == LinkPhase::Dialing,
{
    match (phase, event) {
        (LinkPhase::Idle, LinkEvent::DialRequested) => (LinkPhase::Dialing, LinkAction::AttemptTcp),
        (LinkPhase::Idle, LinkEvent::InboundAccepted) => (
            LinkPhase::Accepted,
            LinkAction::RunHandshake,
        ),
        (LinkPhase::Dialing, LinkEvent::TcpConnected) => (
            LinkPhase::Handshaking,
            LinkAction::RunHandshake,
        ),
        (LinkPhase::Dialing, LinkEvent::TcpFailed { elapsed_ms }) => if elapsed_ms
            <= CONNECT_TIMEOUT_MS {
            (LinkPhase::Dialing, LinkAction::AttemptTcp)
        } else {
            (LinkPhase::Failed, LinkAction::ReportTimeout)
        },
        (LinkPhase::Handshaking, LinkEvent::HandshakeDone) => (
            LinkPhase::Established,
            LinkAction::RegisterPeer,
        ),
        (LinkPhase::Accepted, LinkEvent::HandshakeDone) => (
            LinkPhase::Established,
            LinkAction::RegisterPeer,
        ),
        (LinkPhase::Handshaking, LinkEvent::HandshakeFailed) => (
            LinkPhase::Failed,
            LinkAction::ReportHandshakeFailure,
        ),
        (LinkPhase::Accepted, LinkEvent::HandshakeFailed) => (
            LinkPhase::Failed,
            LinkAction::ReportHandshakeFailure,
        ),
        (LinkPhase::Established, LinkEvent::StreamClosed) => (
            LinkPhase::Closed,
            LinkAction::Deregister,
        ),
        _ => (phase, LinkAction::Ignore),
    }
}

} // verus!
