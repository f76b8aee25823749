//! Admission, sessions and the relay of a server.

use eternal_terminal::backed::{BackedEvent, DeadReason};
use eternal_terminal::client::{judge_reply, Handshake};
use eternal_terminal::env::EnvMap;
use eternal_terminal::framing::{read_packet_frame, read_proto_frame};
use eternal_terminal::messages::{
    ConnectRequest, ConnectResponse, ConnectStatus, InitialPayload, InitialResponse,
    PortForwardSourceRequest, TermInit, TerminalBuffer, TerminalUserInfo,
};
use eternal_terminal::packet::Packet;
use eternal_terminal::router::{verify_passkey, Router};
use eternal_terminal::server::{
    handle_tcp, key_bytes, registration, relay, server_config, Admission, RelayAction, RelayEvent,
    ServerOptions, Session, SessionAction, SessionInput, DEFAULT_PORT,
};
use eternal_terminal::terminal::{registration_packet, session_environment};
use eternal_terminal::{
    et_packet_type, terminal_packet_type, DEFAULT_MAX_PROTO_LENGTH, MAX_HANDSHAKE_PROTO_LENGTH,
    PROTOCOL_VERSION,
};

const PASSKEY: &str = "0123456789abcdef0123456789abcdef";

fn request(id: &str, version: i32) -> Vec<u8> {
    ConnectRequest { client_id: Some(id.into()), version: Some(version) }.encode_to_vec()
}

fn response_of(frame: &[u8]) -> ConnectResponse {
    let (body, used) = read_proto_frame(frame, MAX_HANDSHAKE_PROTO_LENGTH).unwrap();
    assert_eq!(used, frame.len());
    ConnectResponse::decode(&body).unwrap()
}

fn error_of(packet: &Packet) -> Option<String> {
    assert_eq!(packet.header(), et_packet_type::INITIAL_RESPONSE);
    InitialResponse::decode(packet.payload()).unwrap().error
}

#[test]
fn passkey_compare_is_exact_and_length_sensitive() {
    assert!(verify_passkey("abcdefgh", "abcdefgh"));
    assert!(!verify_passkey("abcdefgh", "abcdefgZ"));
    assert!(!verify_passkey("abcdefgh", "abcdefg"));
    assert!(!verify_passkey("", "x"));
}

#[test]
fn mismatched_protocol_is_rejected() {
    let mut router: Router<u8, u8> = Router::new();
    assert!(router.register_terminal("id", "x", 0, 0, 1));
    let reply = match handle_tcp(&router, &request("id", PROTOCOL_VERSION - 1)) {
        Admission::Reject { reply } => reply,
        _ => panic!("expected a refusal"),
    };
    let response = response_of(&reply);
    assert_eq!(response.connect_status(), Some(ConnectStatus::MismatchedProtocol));
    let error = response.error.unwrap();
    assert!(error.contains("Mismatched protocol versions"));
    assert!(error.ends_with("Client: 5 != Server: 6"));
}

#[test]
fn unknown_id_is_invalid_key() {
    let mut router: Router<u8, u8> = Router::new();
    assert!(router.register_terminal("id", "x", 0, 0, 1));
    let reply = match handle_tcp(&router, &request("ZZZno-such-client00", PROTOCOL_VERSION)) {
        Admission::Reject { reply } => reply,
        _ => panic!("expected a refusal"),
    };
    let response = response_of(&reply);
    assert_eq!(response.connect_status(), Some(ConnectStatus::InvalidKey));
    assert_eq!(response.error.as_deref(), Some("Client is not registered"));
}

#[test]
fn a_client_is_new_once_and_returning_after() {
    let mut router: Router<u8, u8> = Router::new();
    assert!(router.register_terminal("id", PASSKEY, 1, 2, 9));
    match handle_tcp(&router, &request("id", PROTOCOL_VERSION)) {
        Admission::New { id, key, reply } => {
            assert_eq!((id.as_str(), key.as_str()), ("id", PASSKEY));
            let (body, _) = read_proto_frame(&reply, MAX_HANDSHAKE_PROTO_LENGTH).unwrap();
            assert_eq!(judge_reply(&body), Ok(Handshake::NewClient));
        }
        _ => panic!("expected a new client"),
    }
    router.add_client("id", PASSKEY, 77);
    match handle_tcp(&router, &request("id", PROTOCOL_VERSION)) {
        Admission::Returning { id, reply } => {
            assert_eq!(router.get_client(&id).unwrap().conn, 77);
            let (body, _) = read_proto_frame(&reply, MAX_HANDSHAKE_PROTO_LENGTH).unwrap();
            assert_eq!(judge_reply(&body), Ok(Handshake::Returning));
        }
        _ => panic!("expected a returning client"),
    }
    router.remove_client("id");
    assert!(matches!(
        handle_tcp(&router, &request("id", PROTOCOL_VERSION)),
        Admission::Reject { .. }
    ));
}

#[test]
fn requests_without_sense_are_dropped() {
    let router: Router<u8, u8> = Router::new();
    assert!(matches!(handle_tcp(&router, &[0xff]), Admission::Drop));
    let nameless = ConnectRequest { client_id: None, version: Some(PROTOCOL_VERSION) };
    assert!(matches!(handle_tcp(&router, &nameless.encode_to_vec()), Admission::Drop));
    match handle_tcp(&router, &[]) {
        Admission::Reject { reply } => {
            assert!(response_of(&reply).error.unwrap().ends_with("Client: 0 != Server: 6"));
        }
        _ => panic!("expected a refusal"),
    }
}

#[test]
fn terminals_register_once_and_are_taken_once() {
    let mut router: Router<&'static str, u8> = Router::new();
    assert!(!router.key_exists("a"));
    assert!(router.register_terminal("a", "k", 3, 4, "socket"));
    assert!(!router.register_terminal("a", "other", 0, 0, "second"));
    assert!(router.register_terminal("b", "kb", 0, 0, "third"));
    assert_eq!(router.get_key("a").as_deref(), Some("k"));
    let (info, socket) = router.take_terminal("a").unwrap();
    assert_eq!((info.passkey.as_str(), info.uid, info.gid, socket), ("k", 3, 4, "socket"));
    assert!(router.take_terminal("a").is_none());
    assert!(router.take_terminal("nobody").is_none());
    assert!(!router.register_terminal("a", "again", 0, 0, "fourth"));
    router.drop_terminal("a");
    assert!(router.key_exists("a"));
    assert!(router.register_terminal("a", "again", 0, 0, "fourth"));
    assert_eq!(router.take_terminal("b").unwrap().1, "third");
    assert!(!router.client_exists("a"));
    assert!(router.get_client("a").is_none());
}

#[test]
fn registrations_are_read() {
    let r = registration(&registration_packet("i", "p", 1000, 20)).unwrap();
    assert_eq!((r.id.as_str(), r.passkey.as_str(), r.uid, r.gid), ("i", "p", 1000, 20));
    let odd = TerminalUserInfo {
        id: Some("i".into()),
        passkey: Some("p".into()),
        uid: Some(-5),
        gid: Some(0x1_0000_0007),
        fd: None,
    };
    let r = registration(&Packet::new(8, odd.encode_to_vec())).unwrap();
    assert_eq!((r.uid, r.gid), (0, 7));
    assert!(registration(&Packet::new(1, odd.encode_to_vec())).is_none());
    let keyless = TerminalUserInfo { passkey: None, ..odd };
    assert!(registration(&Packet::new(8, keyless.encode_to_vec())).is_none());
    assert!(registration(&Packet::new(8, vec![0xff])).is_none());
}

#[test]
fn keys_are_cut_or_filled_to_their_length() {
    assert_eq!(key_bytes(PASSKEY), *b"0123456789abcdef0123456789abcdef");
    let mut short = [0u8; 32];
    short[0] = b'x';
    assert_eq!(key_bytes("x"), short);
    assert_eq!(key_bytes(&"y".repeat(40)), [b'y'; 32]);
    let cfg = server_config(PASSKEY);
    assert_eq!((cfg.reader_msb, cfg.writer_msb, cfg.keepalive), (0, 1, None));
}

fn happened(event: BackedEvent) -> SessionInput {
    SessionInput::Happened(RelayEvent::Connection(Some(event)))
}

fn payload_packet(payload: &InitialPayload) -> Packet {
    Packet::new(et_packet_type::INITIAL_PAYLOAD, payload.encode_to_vec())
}

/// The last word of a session that ends, if it has one.
fn farewell(action: SessionAction) -> Option<Packet> {
    match action {
        SessionAction::End { farewell } => farewell,
        _ => panic!("the session must end"),
    }
}

/// A session whose terminal with `passkey` is there and whose listeners are
/// being set up.
fn with_terminal(payload: &InitialPayload, passkey: &str) -> Session {
    let mut session = Session::new("k".into());
    let packet = payload_packet(payload);
    assert!(matches!(
        session.step(happened(BackedEvent::Packet(packet))),
        SessionAction::Look
    ));
    let looked = SessionInput::Looked { passkey: Some(passkey.into()), now: 9, deadline: 9 };
    match session.step(looked) {
        SessionAction::Listen(sources) => assert_eq!(sources, payload.reversetunnels),
        _ => panic!("listeners must be set up"),
    }
    session
}

#[test]
fn only_an_initial_payload_opens_a_session() {
    let first = |input: SessionInput| farewell(Session::new("k".into()).step(input));
    assert_eq!(first(SessionInput::NoPayload), None);
    assert_eq!(first(SessionInput::Happened(RelayEvent::Connection(None))), None);
    assert_eq!(first(happened(BackedEvent::Dead(DeadReason::Shutdown))), None);
    assert_eq!(first(happened(BackedEvent::Packet(Packet::new(1, Vec::new())))), None);
    let bad = Packet::new(et_packet_type::INITIAL_PAYLOAD, vec![0xff]);
    assert_eq!(first(happened(BackedEvent::Packet(bad))), None);
    let jump = InitialPayload { jumphost: Some(true), ..Default::default() };
    let refusal = first(happened(BackedEvent::Packet(payload_packet(&jump)))).unwrap();
    assert_eq!(
        error_of(&refusal).as_deref(),
        Some("jumphost mode is not supported by this etserver build")
    );
}

#[test]
fn a_lost_socket_does_not_end_the_wait() {
    let mut session = Session::new("k".into());
    assert!(matches!(session.step(happened(BackedEvent::SocketDown)), SessionAction::Wait));
    let packet = payload_packet(&InitialPayload::default());
    assert!(matches!(session.step(happened(BackedEvent::Packet(packet))), SessionAction::Look));
}

#[test]
fn a_terminal_is_looked_for_until_time_is_up() {
    let mut session = Session::new("k".into());
    let packet = payload_packet(&InitialPayload::default());
    session.step(happened(BackedEvent::Packet(packet)));
    let looked = |now: u64| SessionInput::Looked { passkey: None, now, deadline: 5 };
    assert!(matches!(session.step(looked(4)), SessionAction::Sleep));
    assert!(matches!(session.step(SessionInput::Written { ok: false }), SessionAction::Wait));
    assert_eq!(farewell(session.step(looked(5))), None);
    assert!(matches!(session.step(looked(5)), SessionAction::Wait));
}

#[test]
fn a_session_comes_to_its_relay_in_order() {
    let mut payload = InitialPayload::default();
    payload.environmentvariables.insert("TERM".into(), "vt100".into());
    payload.environmentvariables.insert("LANG".into(), "C".into());
    let mut session = with_terminal(&payload, "k");
    let errors = vec!["a:1: taken".to_string()];
    match session.step(SessionInput::Bound { errors }) {
        SessionAction::Answer(p) => assert_eq!(error_of(&p), None),
        _ => panic!("the client must be answered"),
    }
    let start = match session.step(SessionInput::Written { ok: true }) {
        SessionAction::Start(bytes) => bytes,
        _ => panic!("the terminal must be started"),
    };
    let (init, used) = read_packet_frame(&start, DEFAULT_MAX_PROTO_LENGTH).unwrap();
    assert_eq!(used, start.len());
    assert_eq!(init.header(), terminal_packet_type::TERMINAL_INIT);
    let ti = TermInit::decode(init.payload()).unwrap();
    assert_eq!(ti.environmentnames, vec!["LANG", "TERM"]);
    assert_eq!(ti.environmentvalues, vec!["C", "vt100"]);
    let (env, term) = session_environment(init.payload(), "other".into()).unwrap();
    assert_eq!(term, "vt100");
    let mut rest = EnvMap::new();
    rest.insert("LANG".into(), "C".into());
    assert_eq!(env, rest);

    assert!(matches!(session.step(SessionInput::Written { ok: true }), SessionAction::Wait));
    let output = SessionInput::Happened(RelayEvent::Terminal(Some(b"o".to_vec())));
    assert!(matches!(
        session.step(output),
        SessionAction::Relay(RelayAction::ToClient { needed: true, .. })
    ));
    assert!(matches!(session.step(SessionInput::Written { ok: true }), SessionAction::Wait));
    assert!(matches!(
        session.step(happened(BackedEvent::SocketDown)),
        SessionAction::Relay(RelayAction::Nothing)
    ));
    let gone = SessionInput::Happened(RelayEvent::Terminal(None));
    assert_eq!(farewell(session.step(gone)), None);
}

#[test]
fn a_refused_write_ends_a_session() {
    for taken in 0..3 {
        let mut session = with_terminal(&InitialPayload::default(), "k");
        session.step(SessionInput::Bound { errors: Vec::new() });
        for _ in 0..taken {
            session.step(SessionInput::Written { ok: true });
        }
        assert_eq!(farewell(session.step(SessionInput::Written { ok: false })), None);
        assert!(matches!(session.step(SessionInput::Written { ok: true }), SessionAction::Wait));
    }
}

#[test]
fn a_session_needs_its_listeners_and_the_right_passkey() {
    let mut payload = InitialPayload::default();
    let mut session = with_terminal(&payload, "x");
    assert_eq!(farewell(session.step(SessionInput::Bound { errors: Vec::new() })), None);
    payload.reversetunnels.push(PortForwardSourceRequest::default());
    let mut session = with_terminal(&payload, "k");
    let errors = vec!["a:1: taken".to_string(), "b:2: taken".to_string()];
    let refusal = farewell(session.step(SessionInput::Bound { errors })).unwrap();
    assert_eq!(
        error_of(&refusal).as_deref(),
        Some("could not establish reverse tunnels: a:1: taken; b:2: taken")
    );
}

#[test]
fn keepalive_is_echoed_while_idle() {
    let probe = Packet::new(terminal_packet_type::KEEP_ALIVE, b"ignored".to_vec());
    match relay(RelayEvent::Connection(Some(BackedEvent::Packet(probe)))) {
        RelayAction::ToClient { packet, needed } => {
            assert_eq!(packet, Packet::new(terminal_packet_type::KEEP_ALIVE, Vec::new()));
            assert!(!needed);
        }
        _ => panic!("expected an echo"),
    }
}

#[test]
fn the_relay_sends_each_packet_its_way() {
    let input = Packet::new(terminal_packet_type::TERMINAL_BUFFER, b"abc".to_vec());
    match relay(RelayEvent::Connection(Some(BackedEvent::Packet(input)))) {
        RelayAction::ToTerminal(b) => assert_eq!(b, b"\x01\x03\0\0\0\0\0\0\0abc"),
        _ => panic!("expected input for the terminal"),
    }
    let data = Packet::new(terminal_packet_type::PORT_FORWARD_DATA, b"d".to_vec());
    assert!(matches!(
        relay(RelayEvent::Connection(Some(BackedEvent::Packet(data.clone())))),
        RelayAction::ToEngine(p) if p == data
    ));
    let unknown = Packet::new(99, Vec::new());
    assert!(matches!(
        relay(RelayEvent::Connection(Some(BackedEvent::Packet(unknown)))),
        RelayAction::Nothing
    ));
    assert!(matches!(
        relay(RelayEvent::Connection(Some(BackedEvent::SocketDown))),
        RelayAction::Nothing
    ));
    assert!(matches!(relay(RelayEvent::Connection(None)), RelayAction::End));
    assert!(matches!(
        relay(RelayEvent::Connection(Some(BackedEvent::Dead(DeadReason::Shutdown)))),
        RelayAction::End
    ));
    assert!(matches!(relay(RelayEvent::Forwarding(None)), RelayAction::ForgetEngine));
    assert!(matches!(
        relay(RelayEvent::Forwarding(Some(data.clone()))),
        RelayAction::ToClient { packet, needed: true } if packet == data
    ));
    assert!(matches!(relay(RelayEvent::Terminal(None)), RelayAction::End));
    assert!(matches!(relay(RelayEvent::Terminal(Some(Vec::new()))), RelayAction::End));
    match relay(RelayEvent::Terminal(Some(b"out".to_vec()))) {
        RelayAction::ToClient { packet, needed } => {
            assert!(needed);
            let tb = TerminalBuffer::decode(packet.payload()).unwrap();
            assert_eq!(tb.buffer.as_deref(), Some(&b"out"[..]));
        }
        _ => panic!("expected output for the client"),
    }
}

#[test]
fn a_server_listens_at_its_port() {
    let opts = ServerOptions::default();
    assert_eq!((opts.port, opts.socket_path), (DEFAULT_PORT, None));
    assert_eq!(DEFAULT_PORT, 2022);
}
