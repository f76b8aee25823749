//! The relay to another server.

use eternal_terminal::client::{ClientDeadReason, ConnectFailure, Event};
use eternal_terminal::error::ServerError;
use eternal_terminal::framing::{write_packet_frame, FrameError, IoFailure};
use eternal_terminal::jump::{
    check_jump, clear_jumphost, jump_endpoint, JumpAction, JumpInput, JumpRelay, JUMP_INIT_TIMEOUT,
};
use eternal_terminal::messages::{InitialPayload, InitialResponse, SocketEndpoint};
use eternal_terminal::messages::PortForwardSourceRequest;
use eternal_terminal::packet::Packet;
use eternal_terminal::{et_packet_type, terminal_packet_type};

fn words<T>(res: Result<T, ServerError>) -> String {
    match res {
        Ok(_) => panic!("expected an error"),
        Err(e) => e.message(),
    }
}

fn failure(action: JumpAction) -> String {
    match action {
        JumpAction::Fail(e) => e.message(),
        _ => panic!("the relay must fail"),
    }
}

fn init_packet(jumphost: Option<bool>) -> Packet {
    let payload = InitialPayload { jumphost, ..Default::default() };
    Packet::new(terminal_packet_type::JUMPHOST_INIT, payload.encode_to_vec())
}

fn answer(error: Option<&str>) -> Option<Event> {
    let r = InitialResponse { error: error.map(|e| e.to_string()) };
    Some(Event::Packet(Packet::new(et_packet_type::INITIAL_RESPONSE, r.encode_to_vec())))
}

/// A relay that has sent its payload at time 0.
fn sent() -> JumpRelay {
    let mut relay = JumpRelay::new();
    let init = JumpInput::Init(Ok(init_packet(Some(true))));
    assert!(matches!(relay.step(init), JumpAction::Connect));
    match relay.step(JumpInput::Connected(Ok(()))) {
        JumpAction::Send(p) => {
            assert_eq!(p.header(), et_packet_type::INITIAL_PAYLOAD);
            assert_eq!(p.payload(), [0x08, 0x00]);
        }
        _ => panic!("the payload must be sent"),
    }
    assert!(matches!(relay.step(JumpInput::Sent { ok: true, now: 0 }), JumpAction::AwaitAnswer));
    relay
}

fn relaying() -> JumpRelay {
    let mut relay = sent();
    let agreed = JumpInput::Destination { event: answer(None), now: 1 };
    assert!(matches!(relay.step(agreed), JumpAction::Wait));
    relay
}

#[test]
fn a_relay_knows_where_to() {
    assert!(check_jump("", 5).is_err());
    assert!(check_jump("h", 0).is_err());
    assert!(check_jump("h", 5).is_ok());
    assert_eq!(jump_endpoint("h", 2022), "h:2022");
}

#[test]
fn the_relay_flag_is_cleared_and_all_else_kept() {
    let mut payload = InitialPayload { jumphost: Some(true), ..Default::default() };
    payload.environmentvariables.insert("A".into(), "1".into());
    payload.reversetunnels.push(PortForwardSourceRequest {
        source: Some(SocketEndpoint { name: None, port: Some(1) }),
        ..Default::default()
    });
    let cleared = clear_jumphost(&payload.encode_to_vec()).unwrap();
    payload.jumphost = Some(false);
    assert_eq!(InitialPayload::decode(&cleared), Ok(payload));

    let unknown = [0x7a, 0x02, 1, 2, 0x08, 0x01, 0x73, 0x08, 0x05, 0x74, 0x08, 0x01];
    assert_eq!(
        clear_jumphost(&unknown).unwrap(),
        [0x08, 0x00, 0x7a, 0x02, 1, 2, 0x73, 0x08, 0x05, 0x74]
    );
    assert_eq!(words(clear_jumphost(&[0x08, 0x00])), "jumphost init without jumphost flag");
    assert_eq!(words(clear_jumphost(&[])), "jumphost init without jumphost flag");
    assert_eq!(words(clear_jumphost(&[0xff])), "bad InitialPayload: unexpected end of buffer");
}

#[test]
fn a_relay_starts_with_the_payload_of_its_client() {
    let init = |packet: Result<Packet, FrameError>| {
        failure(JumpRelay::new().step(JumpInput::Init(packet)))
    };
    let reset = IoFailure { unexpected_eof: false, message: "reset".into() };
    assert_eq!(init(Err(FrameError::Io(reset))), "io: reset");
    assert_eq!(init(Err(FrameError::Closed)), "connection closed");
    assert_eq!(init(Ok(Packet::new(9, Vec::new()))), "expected packet header 10, got 9");
    assert_eq!(init(Ok(init_packet(None))), "jumphost init without jumphost flag");
    assert_eq!(init(Ok(init_packet(Some(false)))), "jumphost init without jumphost flag");
    assert_eq!(
        init(Ok(Packet::new(10, vec![0xff]))),
        "bad InitialPayload: unexpected end of buffer"
    );

    let mut relay = JumpRelay::new();
    relay.step(JumpInput::Init(Ok(init_packet(Some(true)))));
    assert_eq!(
        failure(relay.step(JumpInput::Connected(Err(ConnectFailure::Timeout)))),
        "connect to destination etserver: handshake timed out"
    );
    let mut relay = JumpRelay::new();
    relay.step(JumpInput::Init(Ok(init_packet(Some(true)))));
    relay.step(JumpInput::Connected(Ok(())));
    assert_eq!(
        failure(relay.step(JumpInput::Sent { ok: false, now: 0 })),
        "destination leg closed"
    );
}

#[test]
fn a_relay_waits_for_its_destination() {
    let at = |event: Option<Event>, now: u64| sent().step(JumpInput::Destination { event, now });
    let fails = |event: Option<Event>| failure(at(event, 1));
    let other = Some(Event::Packet(Packet::new(1, Vec::new())));
    assert!(matches!(at(other, JUMP_INIT_TIMEOUT - 1), JumpAction::AwaitAnswer));
    assert_eq!(fails(answer(Some("full"))), "destination refused session: full");
    assert_eq!(fails(None), "destination leg died during init");
    assert_eq!(
        fails(Some(Event::Dead(ClientDeadReason::InvalidKey))),
        "destination leg died during init"
    );
    let bad = Packet::new(et_packet_type::INITIAL_RESPONSE, vec![0xff]);
    assert_eq!(
        fails(Some(Event::Packet(bad))),
        "bad InitialResponse: unexpected end of buffer"
    );

    let late = "timeout waiting for destination INITIAL_RESPONSE";
    let other = Some(Event::Packet(Packet::new(1, Vec::new())));
    assert_eq!(failure(at(other, JUMP_INIT_TIMEOUT)), late);
    let mut relay = sent();
    assert!(matches!(relay.step(JumpInput::Quiet { now: 1 }), JumpAction::AwaitAnswer));
    assert_eq!(failure(relay.step(JumpInput::Quiet { now: JUMP_INIT_TIMEOUT })), late);
}

#[test]
fn a_relay_hands_packets_on() {
    let p = Packet::new(3, b"pay".to_vec());
    let q = Packet::new(4, Vec::new());
    let mut bytes = Vec::new();
    write_packet_frame(&mut bytes, &p);
    let one = bytes.len();
    write_packet_frame(&mut bytes, &q);

    let mut relay = relaying();
    let event = Some(Event::Packet(p.clone()));
    match relay.step(JumpInput::Destination { event, now: 0 }) {
        JumpAction::Hand(b) => assert_eq!(b, bytes[..one]),
        _ => panic!("the packet must be handed on"),
    }
    assert!(matches!(relay.step(JumpInput::Handed { ok: true }), JumpAction::Wait));

    let start = JumpInput::Local(Some(bytes[..5].to_vec()));
    assert!(matches!(relay.step(start), JumpAction::Wait));
    let rest = JumpInput::Local(Some(bytes[5..].to_vec()));
    assert!(matches!(relay.step(rest), JumpAction::Send(x) if x == p));
    let taken = |relay: &mut JumpRelay| relay.step(JumpInput::Sent { ok: true, now: 0 });
    assert!(matches!(taken(&mut relay), JumpAction::Send(x) if x == q));
    assert!(matches!(taken(&mut relay), JumpAction::Wait));
}

#[test]
fn a_relay_comes_to_its_end() {
    let last = |input: JumpInput| relaying().step(input);
    assert!(matches!(last(JumpInput::Local(None)), JumpAction::End));
    assert!(matches!(last(JumpInput::Local(Some(Vec::new()))), JumpAction::End));
    assert!(matches!(last(JumpInput::Handed { ok: false }), JumpAction::End));
    assert!(matches!(
        last(JumpInput::Destination { event: None, now: 0 }),
        JumpAction::End
    ));
    assert_eq!(failure(last(JumpInput::Sent { ok: false, now: 0 })), "destination leg closed");
    let bad = JumpInput::Local(Some((-1i64).to_le_bytes().to_vec()));
    assert_eq!(failure(last(bad)), "io: frame of -1 bytes exceeds the allowed maximum");
    let mut relay = relaying();
    relay.step(JumpInput::Local(None));
    assert!(matches!(relay.step(JumpInput::Local(None)), JumpAction::Wait));
}
