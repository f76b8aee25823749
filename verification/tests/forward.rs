//! The port-forwarding engine.

use eternal_terminal::forward::{
    closed_packet, data_packet, error_packet, plan_listeners, ConnKey, EngineState, Listen,
    PeerOutcome, ReadResult, SocketOffer, DESTINATION_REQUEST_HEADER, DESTINATION_RESPONSE_HEADER,
    PORT_FORWARD_HEADER,
};
use eternal_terminal::ids::RandomError;
use eternal_terminal::messages::{
    PortForwardData, PortForwardDestinationRequest, PortForwardDestinationResponse,
    PortForwardSourceRequest, SocketEndpoint,
};
use eternal_terminal::packet::Packet;

fn endpoint(port: u16) -> SocketEndpoint {
    SocketEndpoint { name: Some("127.0.0.1".into()), port: Some(port as i32) }
}

fn source_request(port: u16) -> PortForwardSourceRequest {
    PortForwardSourceRequest {
        source: Some(endpoint(port)),
        destination: Some(endpoint(1)),
        environmentvariable: None,
    }
}

fn destination_request_i32(fd: i32, port: i32) -> Packet {
    let m = PortForwardDestinationRequest {
        destination: Some(SocketEndpoint { name: Some("127.0.0.1".into()), port: Some(port) }),
        fd: Some(fd),
    };
    Packet::new(DESTINATION_REQUEST_HEADER, m.encode_to_vec())
}

fn pf_frame(socket_id: i32, from_source: bool, buffer: &[u8], closed: bool) -> Packet {
    let m = PortForwardData {
        sourcetodestination: Some(from_source),
        socketid: Some(socket_id),
        buffer: if !closed || !buffer.is_empty() { Some(buffer.to_vec()) } else { None },
        error: None,
        closed: Some(closed),
    };
    Packet::new(PORT_FORWARD_HEADER, m.encode_to_vec())
}

fn response_of(packet: &Packet) -> PortForwardDestinationResponse {
    assert_eq!(packet.header(), DESTINATION_RESPONSE_HEADER);
    PortForwardDestinationResponse::decode(packet.payload()).unwrap()
}

fn reply_of(outcome: PeerOutcome) -> PortForwardDestinationResponse {
    match outcome {
        PeerOutcome::Reply(p) => response_of(&p),
        _ => panic!("expected an answer"),
    }
}

/// An engine with a destination for the peer's `fd`; its socket id.
fn with_destination(engine: &mut EngineState, fd: i32) -> i32 {
    match engine.handle_peer_packet(&destination_request_i32(fd, 80), true) {
        PeerOutcome::Connect { fd: Some(f), port: 80 } => assert_eq!(f, fd),
        _ => panic!("expected a connection"),
    }
    let (packet, id) = engine.destination_connected(Some(fd), true).unwrap();
    let response = response_of(&packet);
    assert_eq!(response.clientfd, Some(fd));
    assert!(response.error.is_none());
    let socket_id = response.socketid.expect("the destination opened");
    assert_eq!(socket_id as u32, id.unwrap());
    socket_id
}

#[test]
fn spawn_reports_bind_failures() {
    let (plan, errors) = plan_listeners(&vec![source_request(8080)], 0);
    assert_eq!((plan.len(), errors.len()), (1, 0));
    let error = plan[0].bind_error("address in use");
    assert!(error.contains("127.0.0.1:8080"), "{error}");
    assert_eq!(error, "127.0.0.1:8080: address in use");
}

#[test]
fn sources_without_a_port_do_not_listen() {
    let nameless = PortForwardSourceRequest {
        source: Some(SocketEndpoint { name: None, port: Some(65535) }),
        ..Default::default()
    };
    let portless = PortForwardSourceRequest {
        source: Some(SocketEndpoint { name: Some("h".into()), port: None }),
        ..Default::default()
    };
    let all = vec![PortForwardSourceRequest::default(), portless, nameless, source_request(9)];
    let (plan, errors) = plan_listeners(&all, 10);
    assert_eq!((plan.len(), errors.len()), (2, 0));
    assert_eq!((plan[0].source_idx, plan[0].host.as_str()), (12, "localhost"));
    assert_eq!(plan[0].bind_port(), Some(65535));
    assert_eq!((plan[1].source_idx, plan[1].bind_port()), (13, Some(9)));
}

#[test]
fn numbers_that_are_no_ports_are_refused_and_never_bound() {
    let at = |name: Option<&str>, port: i32| PortForwardSourceRequest {
        source: Some(SocketEndpoint { name: name.map(|n| n.to_string()), port: Some(port) }),
        ..Default::default()
    };
    let (plan, errors) = plan_listeners(&vec![at(Some("127.0.0.1"), 70000)], 0);
    assert!(plan.is_empty());
    assert_eq!(errors, ["127.0.0.1:70000: port is out of range (must be 0-65535)"]);
    let all = vec![at(None, -1), at(Some("h"), 0), at(None, 65536), source_request(9)];
    let (plan, errors) = plan_listeners(&all, 0);
    let ports: Vec<_> = plan.iter().map(|l| (l.source_idx, l.bind_port())).collect();
    assert_eq!(ports, [(1, Some(0)), (3, Some(9))]);
    assert_eq!(
        errors,
        [
            "localhost:-1: port is out of range (must be 0-65535)",
            "localhost:65536: port is out of range (must be 0-65535)",
        ]
    );
    let odd = Listen { source_idx: 0, host: "h".into(), port: 70000 };
    assert_eq!(odd.bind_port(), None);
}

/// An engine with one source connection, number 1, open under socket id 7.
fn with_source() -> EngineState {
    let mut engine = EngineState::new(vec![source_request(5000)]);
    assert_eq!(engine.handle_accepted(0).unwrap().0, 1);
    assert!(matches!(
        engine.handle_peer_packet(&answer(1, 7), true),
        PeerOutcome::Open { conn_id: 1, replaced: None }
    ));
    engine
}

fn answer(fd: i32, socket_id: i32) -> Packet {
    let m = PortForwardDestinationResponse {
        clientfd: Some(fd),
        socketid: Some(socket_id),
        error: None,
    };
    Packet::new(DESTINATION_RESPONSE_HEADER, m.encode_to_vec())
}

fn assert_silent(engine: &mut EngineState, conn_id: u32) {
    for read in [
        ReadResult::Bytes(b"late".to_vec()),
        ReadResult::Failed("reset".into()),
        ReadResult::Bytes(Vec::new()),
    ] {
        let outcome = engine.handle_read(conn_id, read);
        assert!(outcome.send.is_empty(), "no frame may follow the tunnel teardown");
        assert_eq!(outcome.close, None);
    }
}

#[test]
fn reads_that_trail_a_torn_down_source_tunnel_send_nothing() {
    let mut engine = with_source();
    assert!(matches!(
        engine.handle_peer_packet(&pf_frame(7, false, b"", true), true),
        PeerOutcome::Close(ConnKey::Source(1))
    ));
    assert_silent(&mut engine, 1);

    let mut engine = with_source();
    engine.write_failed(ConnKey::Source(1), 7);
    assert_silent(&mut engine, 1);

    let mut engine = with_source();
    assert_eq!(engine.handle_accepted(0).unwrap().0, 2);
    assert!(matches!(
        engine.handle_peer_packet(&answer(2, 7), true),
        PeerOutcome::Open { conn_id: 2, replaced: Some(1) }
    ));
    assert_silent(&mut engine, 1);
    let outcome = engine.handle_read(2, ReadResult::Bytes(b"x".to_vec()));
    assert_eq!(outcome.send, [data_packet(7, true, b"x".to_vec())]);
}

#[test]
fn a_drawn_number_is_kept_if_it_is_free() {
    let mut engine = EngineState::new(Vec::new());
    match engine.offer_socket_id(Some(3), Ok(9)) {
        SocketOffer::Added { answer: packet, socket_id: 9 } => assert_eq!(packet, answer(3, 9)),
        _ => panic!("a free number must be kept"),
    }
    assert!(matches!(engine.offer_socket_id(Some(4), Ok(9)), SocketOffer::Taken));
    assert!(matches!(
        engine.offer_socket_id(Some(4), Err(RandomError::Unavailable)),
        SocketOffer::Failed(RandomError::Unavailable)
    ));
    assert!(matches!(engine.offer_socket_id(None, Ok(10)), SocketOffer::Added { .. }));
}

#[test]
fn add_sources_binds_new_listeners_on_a_running_engine() {
    let mut engine = EngineState::new(Vec::new());
    assert!(engine.handle_accepted(0).is_none());
    assert_eq!(engine.source_count(), 0);
    engine.add_sources(vec![source_request(7)]);
    assert!(engine.can_accept());
    let (conn_id, packet) = engine.handle_accepted(0).unwrap();
    assert_eq!(conn_id, 1);
    assert_eq!(packet.header(), DESTINATION_REQUEST_HEADER);
    let request = PortForwardDestinationRequest::decode(packet.payload()).unwrap();
    assert_eq!(request.fd, Some(1));
    assert_eq!(request.destination, Some(endpoint(1)));
}

#[test]
fn destination_requests_are_refused_when_not_enabled() {
    let mut engine = EngineState::new(Vec::new());
    let response = reply_of(engine.handle_peer_packet(&destination_request_i32(7, 1), false));
    assert_eq!(response.clientfd, Some(7));
    assert!(response.socketid.is_none(), "nothing was opened");
    let error = response.error.expect("a refusal reason");
    assert!(error.contains("not enabled"), "{error}");
}

#[test]
fn unreachable_destinations_answer_with_an_error() {
    let mut engine = EngineState::new(Vec::new());
    assert!(matches!(
        engine.handle_peer_packet(&destination_request_i32(3, 4000), true),
        PeerOutcome::Connect { fd: Some(3), port: 4000 }
    ));
    let (packet, id) = engine.destination_connected(Some(3), false).unwrap();
    assert_eq!(id, None);
    let response = response_of(&packet);
    assert_eq!(response.clientfd, Some(3));
    assert!(response.socketid.is_none(), "nothing was opened");
    let error = response.error.expect("a connect failure");
    assert!(error.contains("could not connect"), "{error}");
}

#[test]
fn destination_requests_with_out_of_range_ports_are_refused() {
    let mut engine = EngineState::new(Vec::new());
    let response = reply_of(engine.handle_peer_packet(&destination_request_i32(3, 70000), true));
    assert_eq!(response.clientfd, Some(3));
    assert!(response.socketid.is_none(), "nothing was opened");
    let error = response.error.expect("a refusal reason");
    assert_eq!(error, "destination port 70000 is out of range (must be 0-65535)");
    let portless = PortForwardDestinationRequest { destination: None, fd: Some(3) };
    let packet = Packet::new(DESTINATION_REQUEST_HEADER, portless.encode_to_vec());
    let response = reply_of(engine.handle_peer_packet(&packet, true));
    assert_eq!(response.error.as_deref(), Some("destination has no port"));
}

#[test]
fn destination_role_moves_data_and_closes() {
    let mut engine = EngineState::new(Vec::new());
    let socket_id = with_destination(&mut engine, 1);
    let key = ConnKey::Destination(socket_id as u32);

    match engine.handle_peer_packet(&pf_frame(socket_id, true, b"ping", false), true) {
        PeerOutcome::Write { to, bytes, .. } => {
            assert_eq!(to, key);
            assert_eq!(bytes, b"ping");
        }
        _ => panic!("expected a write"),
    }
    let outcome = engine.handle_read(socket_id as u32, ReadResult::Bytes(b"ping".to_vec()));
    assert_eq!(outcome.close, None);
    let back = PortForwardData::decode(outcome.send[0].payload()).unwrap();
    assert_eq!(back.socketid, Some(socket_id));
    assert_eq!(back.sourcetodestination, Some(false), "the echo flows destination to source");
    assert_eq!(back.buffer.as_deref(), Some(&b"ping"[..]));

    assert!(matches!(
        engine.handle_peer_packet(&pf_frame(socket_id, true, b"", true), true),
        PeerOutcome::Close(k) if k == key
    ));
    assert!(matches!(
        engine.handle_peer_packet(&pf_frame(socket_id, true, b"late", false), true),
        PeerOutcome::Ignore
    ));
    let outcome = engine.handle_read(socket_id as u32, ReadResult::Bytes(Vec::new()));
    assert!(outcome.send.is_empty(), "no frame may follow the tunnel teardown");
}

#[test]
fn closes_for_unknown_sockets_are_dropped() {
    let mut engine = EngineState::new(Vec::new());
    for flag in [true, false] {
        for packet in [pf_frame(999, flag, b"", true), pf_frame(999, flag, b"data", false)] {
            assert!(matches!(engine.handle_peer_packet(&packet, true), PeerOutcome::Ignore));
        }
    }
}

#[test]
fn a_tunnel_runs_between_two_engines() {
    let mut a = EngineState::new(vec![source_request(5000)]);
    let mut b = EngineState::new(Vec::new());
    let (conn_id, request) = a.handle_accepted(0).unwrap();
    assert!(matches!(
        b.handle_peer_packet(&request, true),
        PeerOutcome::Connect { fd: Some(1), port: 1 }
    ));
    let (answer, id) = b.destination_connected(Some(1), true).unwrap();
    let id = id.unwrap();
    assert!(matches!(
        a.handle_peer_packet(&answer, false),
        PeerOutcome::Open { conn_id: 1, replaced: None }
    ));
    assert!(matches!(a.handle_peer_packet(&answer, false), PeerOutcome::Ignore));

    let out = a.handle_read(conn_id, ReadResult::Bytes(b"up".to_vec()));
    match b.handle_peer_packet(&out.send[0], true) {
        PeerOutcome::Write { to, bytes, .. } => {
            assert_eq!((to, &bytes[..]), (ConnKey::Destination(id), &b"up"[..]));
        }
        _ => panic!("expected a write"),
    }
    let out = b.handle_read(id, ReadResult::Bytes(b"down".to_vec()));
    match a.handle_peer_packet(&out.send[0], false) {
        PeerOutcome::Write { to, bytes, .. } => {
            assert_eq!((to, &bytes[..]), (ConnKey::Source(conn_id), &b"down"[..]));
        }
        _ => panic!("expected a write"),
    }
    let out = a.handle_read(conn_id, ReadResult::Failed("reset".into()));
    assert_eq!(out.close, Some(ConnKey::Source(conn_id)));
    assert_eq!(out.send.len(), 2);
    assert!(matches!(
        b.handle_peer_packet(&out.send[0], true),
        PeerOutcome::Close(ConnKey::Destination(x)) if x == id
    ));
    assert!(matches!(b.handle_peer_packet(&out.send[1], true), PeerOutcome::Ignore));
}

#[test]
fn a_reused_socket_id_closes_the_older_connection() {
    let mut a = EngineState::new(vec![source_request(5000)]);
    for conn_id in [1u32, 2] {
        assert_eq!(a.handle_accepted(0).unwrap().0, conn_id);
    }
    let answer = |fd: i32| {
        let m = PortForwardDestinationResponse {
            clientfd: Some(fd),
            socketid: Some(-7),
            error: None,
        };
        Packet::new(DESTINATION_RESPONSE_HEADER, m.encode_to_vec())
    };
    assert!(matches!(
        a.handle_peer_packet(&answer(1), true),
        PeerOutcome::Open { conn_id: 1, replaced: None }
    ));
    assert!(matches!(
        a.handle_peer_packet(&answer(2), true),
        PeerOutcome::Open { conn_id: 2, replaced: Some(1) }
    ));
}

#[test]
fn a_refused_connection_is_dropped() {
    let mut a = EngineState::new(vec![source_request(5000)]);
    let (conn_id, _) = a.handle_accepted(0).unwrap();
    let m = PortForwardDestinationResponse {
        clientfd: Some(conn_id as i32),
        socketid: None,
        error: Some("no".into()),
    };
    let packet = Packet::new(DESTINATION_RESPONSE_HEADER, m.encode_to_vec());
    assert!(matches!(
        a.handle_peer_packet(&packet, true),
        PeerOutcome::Drop { conn_id: 1 }
    ));
    assert!(matches!(a.handle_peer_packet(&packet, true), PeerOutcome::Ignore));
}

#[test]
fn a_failed_write_forgets_the_connection() {
    let mut engine = EngineState::new(Vec::new());
    let socket_id = with_destination(&mut engine, 1);
    engine.write_failed(ConnKey::Destination(socket_id as u32), socket_id as u32);
    assert!(matches!(
        engine.handle_peer_packet(&pf_frame(socket_id, true, b"x", false), true),
        PeerOutcome::Ignore
    ));
}

#[test]
fn packets_of_a_connection() {
    let data = PortForwardData::decode(data_packet(0xffff_ffff, true, b"x".to_vec()).payload()).unwrap();
    assert_eq!((data.socketid, data.closed), (Some(-1), None));
    let closed = PortForwardData::decode(closed_packet(5, false).payload()).unwrap();
    assert_eq!((closed.socketid, closed.closed, closed.buffer), (Some(5), Some(true), None));
    let error = PortForwardData::decode(error_packet(5, true, "broken").payload()).unwrap();
    assert_eq!(error.error.as_deref(), Some("broken"));
    assert_eq!(error.sourcetodestination, Some(true));
}

#[test]
fn packets_that_are_no_messages_are_ignored() {
    let mut engine = EngineState::new(Vec::new());
    for header in [
        DESTINATION_REQUEST_HEADER,
        DESTINATION_RESPONSE_HEADER,
        PORT_FORWARD_HEADER,
        77,
    ] {
        let packet = Packet::new(header, vec![0xff]);
        assert!(matches!(engine.handle_peer_packet(&packet, true), PeerOutcome::Ignore));
    }
}
