use tcp_messenger::session::{link_step, LinkAction, LinkEvent, LinkPhase, CONNECT_TIMEOUT_MS};

#[test]
fn dial_request_starts_the_connector() {
    assert_eq!(
        link_step(LinkPhase::Idle, LinkEvent::DialRequested),
        (LinkPhase::Dialing, LinkAction::AttemptTcp)
    );
}

#[test]
fn failed_attempts_retry_within_the_budget() {
    assert_eq!(
        link_step(LinkPhase::Dialing, LinkEvent::TcpFailed { elapsed_ms: 0 }),
        (LinkPhase::Dialing, LinkAction::AttemptTcp)
    );
    assert_eq!(
        link_step(
            LinkPhase::Dialing,
            LinkEvent::TcpFailed { elapsed_ms: CONNECT_TIMEOUT_MS }
        ),
        (LinkPhase::Dialing, LinkAction::AttemptTcp)
    );
}

#[test]
fn exceeding_the_budget_is_a_terminal_reported_failure() {
    assert_eq!(
        link_step(
            LinkPhase::Dialing,
            LinkEvent::TcpFailed { elapsed_ms: CONNECT_TIMEOUT_MS + 1 }
        ),
        (LinkPhase::Failed, LinkAction::ReportTimeout)
    );
}

#[test]
fn outbound_connect_runs_the_handshake_then_registers() {
    assert_eq!(
        link_step(LinkPhase::Dialing, LinkEvent::TcpConnected),
        (LinkPhase::Handshaking, LinkAction::RunHandshake)
    );
    assert_eq!(
        link_step(LinkPhase::Handshaking, LinkEvent::HandshakeDone),
        (LinkPhase::Established, LinkAction::RegisterPeer)
    );
}

#[test]
fn inbound_accept_handshakes_immediately() {
    assert_eq!(
        link_step(LinkPhase::Idle, LinkEvent::InboundAccepted),
        (LinkPhase::Accepted, LinkAction::RunHandshake)
    );
    assert_eq!(
        link_step(LinkPhase::Accepted, LinkEvent::HandshakeDone),
        (LinkPhase::Established, LinkAction::RegisterPeer)
    );
}

#[test]
fn failed_handshake_never_registers() {
    assert_eq!(
        link_step(LinkPhase::Handshaking, LinkEvent::HandshakeFailed),
        (LinkPhase::Failed, LinkAction::ReportHandshakeFailure)
    );
    assert_eq!(
        link_step(LinkPhase::Accepted, LinkEvent::HandshakeFailed),
        (LinkPhase::Failed, LinkAction::ReportHandshakeFailure)
    );
}

#[test]
fn stream_close_deregisters_an_established_link() {
    assert_eq!(
        link_step(LinkPhase::Established, LinkEvent::StreamClosed),
        (LinkPhase::Closed, LinkAction::Deregister)
    );
}

#[test]
fn stray_events_are_ignored() {
    assert_eq!(
        link_step(LinkPhase::Idle, LinkEvent::HandshakeDone),
        (LinkPhase::Idle, LinkAction::Ignore)
    );
    assert_eq!(
        link_step(LinkPhase::Closed, LinkEvent::TcpConnected),
        (LinkPhase::Closed, LinkAction::Ignore)
    );
}
