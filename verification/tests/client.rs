//! The client's handshake and its supervisor.

use eternal_terminal::backed::{BackedEvent, BackedState, DeadReason, WriteError};
use eternal_terminal::client::{
    accept_initial, client_config, connect_request, frame_error_to_connect_failure,
    handshake_request, judge_reply, key_bytes, session_key, Action, ClientDeadReason,
    ConnectFailure, Handshake, HandshakeIo, Phase, Supervisor,
};
use eternal_terminal::crypto::CryptoHandler;
use eternal_terminal::framing::{read_framed_packet, read_proto_frame, FrameError, IoFailure};
use eternal_terminal::messages::{
    CatchupBuffer, ConnectRequest, ConnectResponse, ConnectStatus, SequenceHeader,
};
use eternal_terminal::packet::Packet;
use eternal_terminal::{
    CLIENT_SERVER_NONCE_MSB, DEFAULT_MAX_PROTO_LENGTH, MAX_HANDSHAKE_PROTO_LENGTH,
    MAX_PACKET_LENGTH, PROTOCOL_VERSION, SERVER_CLIENT_NONCE_MSB,
};

const ID: &str = "XXXabcdefghijklmnop";
const PASSKEY: &str = "0123456789abcdef0123456789abcdef";

fn reply(status: ConnectStatus) -> Vec<u8> {
    ConnectResponse { status: Some(status.to_i32()), error: None }.encode_to_vec()
}

fn handshake(status: ConnectStatus) -> Result<Handshake, ConnectFailure> {
    handshake_request(HandshakeIo::Reply(reply(status)))
}

fn connected() -> BackedState {
    accept_initial(handshake(ConnectStatus::NewClient)).unwrap();
    let key = session_key(PASSKEY).unwrap();
    BackedState::new(client_config(key, Some(5_000_000_000)), 0)
}

#[test]
fn the_request_names_id_and_version() {
    let frame = connect_request(ID);
    let (body, _) = read_proto_frame(&frame, MAX_HANDSHAKE_PROTO_LENGTH).unwrap();
    let request = ConnectRequest::decode(&body).unwrap();
    assert_eq!(request.client_id.as_deref(), Some(ID));
    assert_eq!(request.version, Some(PROTOCOL_VERSION));
}

#[test]
fn rejects_passkeys_that_are_not_32_bytes() {
    let err = session_key("short").err().unwrap();
    assert!(
        matches!(err, ConnectFailure::Protocol(ref m) if m.contains("32 bytes")),
        "{err:?}"
    );
    assert_eq!(key_bytes(PASSKEY).unwrap(), *b"0123456789abcdef0123456789abcdef");
    assert!(key_bytes("").is_none());
}

#[test]
fn returning_client_on_initial_connect_fails_fast() {
    let err = accept_initial(handshake(ConnectStatus::ReturningClient)).err().unwrap();
    assert!(
        matches!(err, ConnectFailure::Protocol(ref m) if m.contains("already has a live session")),
        "{err:?}"
    );
}

#[test]
fn dropping_the_client_closes_the_socket_promptly_without_keepalive() {
    let mut supervisor = Supervisor::new();
    assert_eq!(supervisor.on_owner_gone(), Action::End { tell: None, shutdown: false });
    assert_eq!(supervisor.phase, Phase::Ended);
}

#[test]
fn reconnect_answered_new_client_ends_the_session() {
    let mut supervisor = Supervisor::new();
    assert_eq!(supervisor.on_event(Some(BackedEvent::SocketDown)), Action::Handshake);
    assert_eq!(
        supervisor.on_handshake(handshake(ConnectStatus::NewClient)),
        Action::End { tell: Some(ClientDeadReason::ServerStateLost), shutdown: false }
    );
    assert_eq!(supervisor.phase, Phase::Ended);
}

#[test]
fn reconnect_answered_invalid_key_ends_the_session() {
    let mut state = connected();
    let mut supervisor = Supervisor::new();
    assert_eq!(supervisor.on_event(Some(BackedEvent::SocketDown)), Action::Handshake);
    assert_eq!(
        supervisor.on_handshake(handshake(ConnectStatus::InvalidKey)),
        Action::End { tell: Some(ClientDeadReason::InvalidKey), shutdown: true }
    );
    state.shutdown();
    assert_eq!(
        state.write(1, b"x".to_vec(), 0),
        Err(WriteError::Shutdown),
        "the supervisor shut the backed layer down"
    );
}

#[test]
fn reconnect_retries_then_recovers_on_returning_client() {
    let mut state = connected();
    let mut supervisor = Supervisor::new();
    let key = key_bytes(PASSKEY).unwrap();
    let mut peer_writer = CryptoHandler::new(&key, SERVER_CLIENT_NONCE_MSB);
    let mut peer_reader = CryptoHandler::new(&key, CLIENT_SERVER_NONCE_MSB);

    let frame = state.write(1, b"pre".to_vec(), 0).unwrap().unwrap();
    let (mut packet, _) = read_framed_packet(&frame, MAX_PACKET_LENGTH).unwrap();
    let pre = packet.serialize();
    packet.decrypt(&mut peer_reader).unwrap();
    assert_eq!(packet.payload(), b"pre");

    state.close_current_socket();
    assert_eq!(supervisor.on_event(state.next_event(0)), Action::Handshake);
    assert_eq!(
        supervisor.on_handshake(handshake(ConnectStatus::MismatchedProtocol)),
        Action::Sleep
    );
    assert_eq!(supervisor.on_slept(), Action::Handshake);
    assert_eq!(
        supervisor.on_handshake(handshake(ConnectStatus::ReturningClient)),
        Action::Recover
    );
    assert_eq!(supervisor.on_recovered(false), Action::Sleep);
    assert_eq!(
        supervisor.on_handshake(handshake(ConnectStatus::ReturningClient)),
        Action::Recover
    );
    let (body, _) = read_proto_frame(&state.recover_hello(), MAX_HANDSHAKE_PROTO_LENGTH).unwrap();
    let sh = SequenceHeader::decode(&body).unwrap();
    assert_eq!(sh.sequence_number, Some(0), "the peer delivered nothing");
    let remote = SequenceHeader { sequence_number: Some(0) }.encode_to_vec();
    let catchup = state.recover_catchup(&remote).unwrap();
    let (body, _) = read_proto_frame(&catchup, DEFAULT_MAX_PROTO_LENGTH).unwrap();
    let entries = CatchupBuffer::decode(&body).unwrap().buffer;
    assert_eq!(entries.len(), 1, "the packet from the dead socket is resent");
    assert_eq!(entries[0], pre, "catch-up resends identical ciphertext");
    state.recover_finish(&CatchupBuffer::default().encode_to_vec(), 0).unwrap();
    assert_eq!(supervisor.on_recovered(true), Action::Wait);
    assert_eq!(supervisor.phase, Phase::Serving);

    let frame = state.write(2, b"post".to_vec(), 0).unwrap().unwrap();
    let (mut packet, _) = read_framed_packet(&frame, MAX_PACKET_LENGTH).unwrap();
    packet.decrypt(&mut peer_reader).unwrap();
    assert_eq!(packet.header(), 2);
    assert_eq!(packet.payload(), b"post");

    let mut down = Packet::new(3, b"down".to_vec());
    down.encrypt(&mut peer_writer);
    state.receive(down.serialize());
    match supervisor.on_event(state.next_event(0)) {
        Action::Deliver(packet) => {
            assert_eq!(packet.header(), 3);
            assert_eq!(packet.payload(), b"down");
        }
        other => panic!("expected a packet on the recovered session, got {other:?}"),
    }
}

#[test]
fn the_end_of_a_connection_ends_its_supervisor() {
    let mut supervisor = Supervisor::new();
    assert_eq!(
        supervisor.on_event(Some(BackedEvent::Dead(DeadReason::CryptoMismatch))),
        Action::End {
            tell: Some(ClientDeadReason::Other(DeadReason::CryptoMismatch)),
            shutdown: false
        }
    );
    let mut supervisor = Supervisor::new();
    assert_eq!(supervisor.on_event(None), Action::End { tell: None, shutdown: false });
}

#[test]
fn replies_are_judged() {
    assert_eq!(judge_reply(&reply(ConnectStatus::NewClient)), Ok(Handshake::NewClient));
    assert_eq!(judge_reply(&reply(ConnectStatus::ReturningClient)), Ok(Handshake::Returning));
    let refused = ConnectResponse { status: Some(4), error: Some("old".into()) };
    assert_eq!(
        judge_reply(&refused.encode_to_vec()),
        Err(ConnectFailure::Rejected {
            status: ConnectStatus::MismatchedProtocol,
            error: "old".into()
        })
    );
    for bytes in [&[][..], &[0x08, 0x63][..]] {
        let e = judge_reply(bytes).err().unwrap();
        assert_eq!(
            e.message(),
            "protocol error: ConnectResponse without status: \
             ConnectResponse { status: None, error: None }"
        );
    }
    let e = judge_reply(&[0x12, 0x02, b'"', b'x']).err().unwrap();
    assert_eq!(
        e.message(),
        "protocol error: ConnectResponse without status: \
         ConnectResponse { status: None, error: Some(\"\\\"x\") }"
    );
    let e = judge_reply(&[0xff]).err().unwrap();
    assert_eq!(e.message(), "protocol error: bad ConnectResponse: unexpected end of buffer");
    // A number that stands for no status does not undo one that does.
    assert_eq!(judge_reply(&[0x08, 0x01, 0x08, 0x63]), Ok(Handshake::NewClient));
    assert_eq!(judge_reply(&[0x08, 0x01, 0x08, 0x63, 0x08, 0x02]), Ok(Handshake::Returning));
}

#[test]
fn failed_handshakes_say_why() {
    let io = IoFailure { unexpected_eof: false, message: "refused".into() };
    assert_eq!(
        handshake_request(HandshakeIo::NotConnected(io.clone())),
        Err(ConnectFailure::Io(io.clone()))
    );
    assert_eq!(
        handshake_request(HandshakeIo::NotSent(FrameError::Io(io.clone()))),
        Err(ConnectFailure::Io(io.clone()))
    );
    assert_eq!(
        handshake_request(HandshakeIo::NoReply(FrameError::Closed)),
        Err(ConnectFailure::Protocol("connection closed".into()))
    );
    assert_eq!(handshake_request(HandshakeIo::TimedOut), Err(ConnectFailure::Timeout));
    assert_eq!(
        frame_error_to_connect_failure(FrameError::InvalidLength(9)).message(),
        "protocol error: frame of 9 bytes exceeds the allowed maximum"
    );
    assert_eq!(ConnectFailure::Io(io).message(), "tcp connect failed: refused");
    assert_eq!(ConnectFailure::Timeout.message(), "handshake timed out");
    let rejected = ConnectFailure::Rejected { status: ConnectStatus::InvalidKey, error: "no".into() };
    assert_eq!(rejected.message(), "server rejected the session: InvalidKey: no");
}
