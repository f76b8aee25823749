//! Terminal sessions of a client.

use eternal_terminal::backed::{DeadReason, WriteError};
use eternal_terminal::client::{ClientDeadReason, ConnectFailure, Event};
use eternal_terminal::messages::{
    ConnectStatus, InitialPayload, InitialResponse, PortForwardSourceRequest, TerminalBuffer,
    TerminalInfo,
};
use eternal_terminal::packet::Packet;
use eternal_terminal::session::{
    bind_result, initial_packet, input_packet, is_port_forward_header, retry_initial, route_event,
    start_step, starts_engine, terminal_info_packet, Routed, SessionEvent, StartAction, StartError,
    StartInput, StartStep, Starter, INITIAL_INVALID_KEY_RETRY,
};
use eternal_terminal::{et_packet_type, terminal_packet_type};

#[test]
fn undecodable_terminal_buffer_surfaces_as_other() {
    let packet = Packet::new(terminal_packet_type::TERMINAL_BUFFER, vec![0xff, 0xff]);
    assert!(TerminalBuffer::decode(packet.payload()).is_err());
    match SessionEvent::from_packet(packet) {
        SessionEvent::Other(_) => {}
        other => panic!("a malformed TERMINAL_BUFFER must surface as Other, got {other:?}"),
    }
}

#[test]
fn input_arrives_as_it_was_typed() {
    assert_eq!(
        SessionEvent::from_packet(input_packet(b"ls\n")),
        SessionEvent::TerminalBuffer(b"ls\n".to_vec())
    );
    let empty = Packet::new(terminal_packet_type::TERMINAL_BUFFER, Vec::new());
    assert_eq!(SessionEvent::from_packet(empty), SessionEvent::TerminalBuffer(Vec::new()));
    let probe = Packet::new(terminal_packet_type::KEEP_ALIVE, b"x".to_vec());
    assert_eq!(SessionEvent::from_packet(probe), SessionEvent::KeepAlive);
}

#[test]
fn window_sizes_are_sent_whole() {
    let packet = terminal_info_packet(24, 80, 0, 7);
    assert_eq!(packet.header(), terminal_packet_type::TERMINAL_INFO);
    assert_eq!(
        TerminalInfo::decode(packet.payload()).unwrap(),
        TerminalInfo {
            id: Some("".into()),
            row: Some(24),
            column: Some(80),
            width: Some(0),
            height: Some(7),
        }
    );
}

#[test]
fn forwarding_goes_to_the_engine_if_there_is_one() {
    for header in [5u8, 6, 7] {
        assert!(is_port_forward_header(header));
        let p = Packet::new(header, Vec::new());
        assert_eq!(
            route_event(Some(Event::Packet(p.clone())), true),
            Routed::Engine(p.clone())
        );
        assert_eq!(
            route_event(Some(Event::Packet(p.clone())), false),
            Routed::Session(SessionEvent::Other(p))
        );
    }
    assert!(!is_port_forward_header(8));
    let p = Packet::new(9, Vec::new());
    assert_eq!(
        route_event(Some(Event::Packet(p.clone())), true),
        Routed::Session(SessionEvent::Other(p))
    );
    assert_eq!(
        route_event(Some(Event::Dead(ClientDeadReason::InvalidKey)), true),
        Routed::Session(SessionEvent::Dead(ClientDeadReason::InvalidKey))
    );
    assert_eq!(route_event(None, true), Routed::End);
}

#[test]
fn the_answer_to_the_payload_decides() {
    let answer = |error: Option<&str>| {
        let r = InitialResponse { error: error.map(|e| e.to_string()) };
        let p = Packet::new(et_packet_type::INITIAL_RESPONSE, r.encode_to_vec());
        start_step(Some(Event::Packet(p)))
    };
    assert_eq!(answer(None), StartStep::Ready);
    assert_eq!(answer(Some("no")), StartStep::Failed(StartError::Server("no".into())));
    let other = Packet::new(1, Vec::new());
    assert_eq!(start_step(Some(Event::Packet(other))), StartStep::Continue);
    let bad = Packet::new(et_packet_type::INITIAL_RESPONSE, vec![0xff]);
    assert_eq!(
        start_step(Some(Event::Packet(bad))),
        StartStep::Failed(StartError::UnexpectedPacket)
    );
    assert_eq!(start_step(None), StartStep::Failed(StartError::UnexpectedPacket));
    let dead = ClientDeadReason::Other(DeadReason::CryptoMismatch);
    assert_eq!(
        start_step(Some(Event::Dead(dead))),
        StartStep::Failed(StartError::Server("session died: Other(CryptoMismatch)".into()))
    );
}

#[test]
fn an_unknown_key_is_retried_for_a_while() {
    let unknown = ConnectFailure::Rejected { status: ConnectStatus::InvalidKey, error: "".into() };
    assert!(retry_initial(&unknown, 1, 2));
    assert!(!retry_initial(&unknown, 2, 2));
    let other =
        ConnectFailure::Rejected { status: ConnectStatus::MismatchedProtocol, error: "".into() };
    assert!(!retry_initial(&other, 1, 2));
    assert!(!retry_initial(&ConnectFailure::Timeout, 1, 2));
}

fn unknown_key() -> Result<(), ConnectFailure> {
    Err(ConnectFailure::Rejected { status: ConnectStatus::InvalidKey, error: "".into() })
}

#[test]
fn a_session_is_opened_step_by_step() {
    let mut payload = InitialPayload::default();
    payload.reversetunnels.push(PortForwardSourceRequest::default());
    let mut starter = Starter::new(&payload, 10);
    let late = INITIAL_INVALID_KEY_RETRY + 10;
    assert_eq!(
        starter.step(StartInput::Connected { result: unknown_key(), now: late - 1 }),
        StartAction::Sleep
    );
    assert_eq!(starter.step(StartInput::Slept), StartAction::Connect);
    assert_eq!(
        starter.step(StartInput::Connected { result: Ok(()), now: late }),
        StartAction::Send(initial_packet(&payload))
    );
    assert_eq!(starter.step(StartInput::Sent(Ok(()))), StartAction::Await);
    let other = Event::Packet(Packet::new(1, Vec::new()));
    assert_eq!(starter.step(StartInput::Event(Some(other))), StartAction::Await);
    let answer = Packet::new(et_packet_type::INITIAL_RESPONSE, Vec::new());
    assert_eq!(
        starter.step(StartInput::Event(Some(Event::Packet(answer)))),
        StartAction::Open { engine: true }
    );
}

#[test]
fn an_opening_can_fail_at_each_step() {
    let payload = InitialPayload::default();
    let start = || Starter::new(&payload, 0);
    let late = StartInput::Connected { result: unknown_key(), now: INITIAL_INVALID_KEY_RETRY };
    assert!(matches!(
        start().step(late),
        StartAction::Fail(StartError::Connect(ConnectFailure::Rejected { .. }))
    ));
    let timeout = StartInput::Connected { result: Err(ConnectFailure::Timeout), now: 0 };
    assert_eq!(
        start().step(timeout),
        StartAction::Fail(StartError::Connect(ConnectFailure::Timeout))
    );
    let mut starter = start();
    starter.step(StartInput::Connected { result: Ok(()), now: 0 });
    assert_eq!(
        starter.step(StartInput::Sent(Err(WriteError::Shutdown))),
        StartAction::Fail(StartError::Write(WriteError::Shutdown))
    );
    for (input, error) in [
        (StartInput::TimedOut, StartError::Timeout),
        (StartInput::Event(None), StartError::UnexpectedPacket),
        (
            StartInput::Event(Some(Event::Dead(ClientDeadReason::InvalidKey))),
            StartError::Server("session died: InvalidKey".into()),
        ),
    ] {
        let mut starter = start();
        starter.step(StartInput::Connected { result: Ok(()), now: 0 });
        starter.step(StartInput::Sent(Ok(())));
        assert_eq!(starter.step(input), StartAction::Fail(error));
    }
}

#[test]
fn reverse_tunnels_start_the_engine() {
    let mut payload = InitialPayload::default();
    assert!(!starts_engine(&payload));
    payload.reversetunnels.push(PortForwardSourceRequest::default());
    assert!(starts_engine(&payload));
    let p = initial_packet(&payload);
    assert_eq!(p.header(), et_packet_type::INITIAL_PAYLOAD);
    assert_eq!(InitialPayload::decode(p.payload()).unwrap(), payload);
}

#[test]
fn bind_errors_come_in_one_line() {
    assert_eq!(bind_result(&Vec::new()), Ok(()));
    assert_eq!(bind_result(&vec!["a".into()]), Err("a".into()));
    assert_eq!(
        bind_result(&vec!["a".into(), "b".into(), "c".into()]),
        Err("a; b; c".into())
    );
}

#[test]
fn start_errors_in_words() {
    assert_eq!(
        StartError::Connect(ConnectFailure::Timeout).message(),
        "handshake timed out"
    );
    assert_eq!(
        StartError::Write(WriteError::Shutdown).message(),
        "write failed: session is shutting down"
    );
    assert_eq!(
        StartError::Write(WriteError::Skipped).message(),
        "write failed: disconnect buffer full, packet skipped"
    );
    assert_eq!(StartError::Timeout.message(), "timed out waiting for INITIAL_RESPONSE");
    assert_eq!(
        StartError::UnexpectedPacket.message(),
        "expected INITIAL_RESPONSE, got a different packet"
    );
    assert_eq!(StartError::Server("x".into()).message(), "server refused the session: x");
    assert_eq!(ClientDeadReason::ServerStateLost.name(), "ServerStateLost");
    assert_eq!(ClientDeadReason::Other(DeadReason::Shutdown).name(), "Other(Shutdown)");
}
