//! The resumable connection, against a peer made of ciphers and frames.

use eternal_terminal::backed::{
    recover_step_deadline, recover_step_end, BackedConfig, BackedEvent, BackedState, DeadReason,
    RecoverError, WriteError, DISCONNECT_BUFFER_BYTES, RECOVER_IO_CHUNK,
};
use eternal_terminal::crypto::CryptoHandler;
use eternal_terminal::fault::DecodeError;
use eternal_terminal::framing::{read_framed_packet, read_proto_frame};
use eternal_terminal::messages::{CatchupBuffer, SequenceHeader};
use eternal_terminal::packet::Packet;
use eternal_terminal::{
    terminal_packet_type, CLIENT_SERVER_NONCE_MSB, DEFAULT_MAX_PROTO_LENGTH,
    MAX_HANDSHAKE_PROTO_LENGTH, MAX_PACKET_LENGTH, SERVER_CLIENT_NONCE_MSB,
};

const TEST_KEY: [u8; 32] = [0x5a; 32];
const MIB: usize = 1024 * 1024;

struct PeerCrypto {
    writer: CryptoHandler,
    reader: CryptoHandler,
}

fn peer_crypto() -> PeerCrypto {
    PeerCrypto {
        writer: CryptoHandler::new(&TEST_KEY, SERVER_CLIENT_NONCE_MSB),
        reader: CryptoHandler::new(&TEST_KEY, CLIENT_SERVER_NONCE_MSB),
    }
}

fn rig(keepalive: Option<u64>) -> BackedState {
    BackedState::new(
        BackedConfig {
            key: TEST_KEY,
            reader_msb: SERVER_CLIENT_NONCE_MSB,
            writer_msb: CLIENT_SERVER_NONCE_MSB,
            keepalive,
        },
        0,
    )
}

/// A write that is taken, as the owner makes it.
fn write(state: &mut BackedState, header: u8, payload: Vec<u8>) -> Result<Option<Vec<u8>>, WriteError> {
    assert!(state.has_room(payload.len()));
    state.write(header, payload, 0)
}

/// The packet in a frame, as it stands and decrypted by the peer.
fn read_client_packet(frame: &[u8], reader: &mut CryptoHandler) -> (Vec<u8>, Packet) {
    let (mut packet, used) = read_framed_packet(frame, MAX_PACKET_LENGTH).unwrap();
    assert_eq!(used, frame.len());
    assert!(packet.is_encrypted());
    let bytes = packet.serialize();
    packet.decrypt(reader).unwrap();
    (bytes, packet)
}

/// The bytes of an encrypted packet of the peer.
fn peer_packet(writer: &mut CryptoHandler, header: u8, payload: &[u8]) -> Vec<u8> {
    let mut packet = Packet::new(header, payload.to_vec());
    packet.encrypt(writer);
    packet.serialize()
}

fn sequence_header(n: i32) -> Vec<u8> {
    SequenceHeader { sequence_number: Some(n) }.encode_to_vec()
}

/// The whole exchange with a peer that has received `remote_seq` packets and
/// resends `reply`. Returns the announced count and the catch-up.
fn run_recover(state: &mut BackedState, remote_seq: i32, reply: Vec<Vec<u8>>) -> (i32, Vec<Vec<u8>>) {
    let hello = state.recover_hello();
    let (body, _) = read_proto_frame(&hello, MAX_HANDSHAKE_PROTO_LENGTH).unwrap();
    let count = SequenceHeader::decode(&body).unwrap().sequence_number.unwrap();
    let catchup = state.recover_catchup(&sequence_header(remote_seq)).unwrap();
    let (body, _) = read_proto_frame(&catchup, DEFAULT_MAX_PROTO_LENGTH).unwrap();
    let entries = CatchupBuffer::decode(&body).unwrap().buffer;
    state.recover_finish(&CatchupBuffer { buffer: reply }.encode_to_vec(), 0).unwrap();
    (count, entries)
}

fn expect_packet(state: &mut BackedState, header: u8, payload: &[u8]) {
    match state.next_event(0) {
        Some(BackedEvent::Packet(packet)) => {
            assert_eq!(packet.header(), header);
            assert_eq!(packet.payload(), payload);
        }
        other => panic!("expected a packet event, got {other:?}"),
    }
}

#[test]
fn write_delivers_encrypted_and_reads_decrypt() {
    let mut state = rig(None);
    let mut pc = peer_crypto();

    let frame = write(&mut state, 7, b"ping".to_vec()).unwrap().unwrap();
    let (_, packet) = read_client_packet(&frame, &mut pc.reader);
    assert_eq!(packet.header(), 7);
    assert_eq!(packet.payload(), b"ping");

    state.receive(peer_packet(&mut pc.writer, 8, b"pong"));
    expect_packet(&mut state, 8, b"pong");
    assert_eq!(state.next_event(0), None);
}

#[test]
fn recover_resends_identical_ciphertext_after_disconnect() {
    let mut state = rig(None);
    let mut pc = peer_crypto();

    let frame = write(&mut state, 1, b"alpha".to_vec()).unwrap().unwrap();
    let (first_bytes, packet) = read_client_packet(&frame, &mut pc.reader);
    assert_eq!(packet.payload(), b"alpha");
    let frame = write(&mut state, 2, b"beta".to_vec()).unwrap().unwrap();
    let (second_bytes, packet) = read_client_packet(&frame, &mut pc.reader);
    assert_eq!(packet.payload(), b"beta");

    state.close_current_socket();
    assert_eq!(state.next_event(0), Some(BackedEvent::SocketDown));
    assert_eq!(write(&mut state, 3, b"gamma".to_vec()), Ok(None));
    assert_eq!(write(&mut state, 4, b"delta".to_vec()), Ok(None));

    let (client_seq, entries) = run_recover(&mut state, 0, Vec::new());
    assert_eq!(client_seq, 0, "the peer sent nothing, so the client read 0 packets");
    assert_eq!(entries.len(), 4, "everything ever written, connected or not");
    assert_eq!(entries[0], first_bytes, "catch-up resends identical bytes");
    assert_eq!(entries[1], second_bytes);
    for (entry, (header, payload)) in
        entries[2..].iter().zip([(3, &b"gamma"[..]), (4, &b"delta"[..])])
    {
        let mut packet = Packet::parse(entry).unwrap();
        packet.decrypt(&mut pc.reader).unwrap();
        assert_eq!(packet.header(), header);
        assert_eq!(packet.payload(), payload);
    }

    state.receive(peer_packet(&mut pc.writer, 5, b"echo"));
    expect_packet(&mut state, 5, b"echo");
    let frame = write(&mut state, 6, b"post".to_vec()).unwrap().unwrap();
    let (_, packet) = read_client_packet(&frame, &mut pc.reader);
    assert_eq!(packet.header(), 6);
    assert_eq!(packet.payload(), b"post");
}

#[test]
fn what_the_peer_resends_arrives_first_and_is_counted() {
    let mut state = rig(None);
    let mut pc = peer_crypto();
    state.receive(peer_packet(&mut pc.writer, 1, b"one"));
    expect_packet(&mut state, 1, b"one");
    assert_eq!(state.next_event(0), None);
    let missed = vec![
        peer_packet(&mut pc.writer, 2, b"two"),
        peer_packet(&mut pc.writer, 3, b"three"),
    ];
    state.close_current_socket();
    let (count, _) = run_recover(&mut state, 0, missed);
    assert_eq!(count, 1);
    state.receive(peer_packet(&mut pc.writer, 4, b"four"));
    assert_eq!(state.next_event(0), Some(BackedEvent::SocketDown));
    expect_packet(&mut state, 2, b"two");
    expect_packet(&mut state, 3, b"three");
    expect_packet(&mut state, 4, b"four");
    let (count, _) = run_recover(&mut state, 0, Vec::new());
    assert_eq!(count, 4);
}

#[test]
fn a_reconnect_through_a_stall_repeats_nothing() {
    let mut state = rig(None);
    let mut pc = peer_crypto();
    let sent: Vec<Vec<u8>> = (1..=4u8).map(|n| peer_packet(&mut pc.writer, n, &[n])).collect();
    state.receive(sent[0].clone());
    state.receive(sent[1].clone());
    state.receive(sent[2].clone());
    expect_packet(&mut state, 1, &[1]);

    // Two packets have arrived and wait for the owner.
    let (count, _) = run_recover(&mut state, 0, sent[1..].to_vec());
    assert_eq!(count, 1, "what was not handed out is asked for again");
    expect_packet(&mut state, 2, &[2]);
    let (count, _) = run_recover(&mut state, 0, sent[2..].to_vec());
    assert_eq!(count, 2);
    expect_packet(&mut state, 3, &[3]);
    expect_packet(&mut state, 4, &[4]);
    state.receive(peer_packet(&mut pc.writer, 5, &[5]));
    expect_packet(&mut state, 5, &[5]);
    assert_eq!(state.next_event(0), None);
}

#[test]
fn failed_recover_leaves_live_socket_untouched() {
    let mut state = rig(None);
    let mut pc = peer_crypto();

    let frame = write(&mut state, 1, b"before".to_vec()).unwrap().unwrap();
    let (_, packet) = read_client_packet(&frame, &mut pc.reader);
    assert_eq!(packet.payload(), b"before");

    let _ = state.recover_hello();
    assert_eq!(
        state.recover_catchup(&[0x08]),
        Err(RecoverError::BadSequenceHeader(DecodeError::UnexpectedEof))
    );
    assert!(state.recover_catchup(&sequence_header(0)).is_ok());
    assert_eq!(
        state.recover_finish(&[0x0a, 0x05, 1], 0),
        Err(RecoverError::BadCatchup(DecodeError::UnexpectedEof))
    );

    assert!(state.is_live());
    let frame = write(&mut state, 2, b"after".to_vec()).unwrap().unwrap();
    let (_, packet) = read_client_packet(&frame, &mut pc.reader);
    assert_eq!(packet.header(), 2);
    assert_eq!(packet.payload(), b"after");
    assert_eq!(
        state.next_event(0),
        None,
        "a failed recover must not emit SocketDown for the live socket"
    );
}

#[test]
fn recover_rejects_peer_claiming_unsent_packets() {
    let mut state = rig(None);
    write(&mut state, 1, b"one".to_vec()).unwrap();
    write(&mut state, 2, b"two".to_vec()).unwrap();

    state.close_current_socket();
    assert_eq!(state.next_event(0), Some(BackedEvent::SocketDown));
    assert_eq!(state.recover_catchup(&sequence_header(5)), Err(RecoverError::PeerAhead));

    assert_eq!(write(&mut state, 3, b"three".to_vec()), Ok(None));
}

#[test]
fn a_negative_count_is_too_far_behind() {
    let mut state = rig(None);
    write(&mut state, 1, b"one".to_vec()).unwrap();
    assert_eq!(
        state.recover_catchup(&sequence_header(-1)),
        Err(RecoverError::TooFarBehind { needed: 2, backed_up: 1 })
    );
    assert!(state.recover_catchup(&sequence_header(1)).is_ok());
    assert!(state.recover_catchup(&[]).is_ok());
}

#[test]
fn backup_trimmed_while_connected_rejects_far_behind_peer() {
    let mut state = rig(None);
    for i in 0..70usize {
        write(&mut state, 1, vec![i as u8; MIB]).unwrap();
    }
    state.close_current_socket();
    assert_eq!(state.next_event(0), Some(BackedEvent::SocketDown));

    assert_eq!(
        state.recover_catchup(&sequence_header(0)),
        Err(RecoverError::TooFarBehind { needed: 70, backed_up: 63 }),
        "70 MiB written but only ~64 MiB kept: the peer is too far behind"
    );

    assert_eq!(write(&mut state, 2, b"still here".to_vec()), Ok(None));
}

#[test]
fn offline_writes_beyond_backup_limit_survive_until_recover() {
    let mut state = rig(None);
    state.close_current_socket();
    assert_eq!(state.next_event(0), Some(BackedEvent::SocketDown));

    for i in 0..60usize {
        assert_eq!(write(&mut state, 1, vec![i as u8; MIB]), Ok(None));
    }

    let (client_seq, entries) = run_recover(&mut state, 0, Vec::new());
    assert_eq!(client_seq, 0);
    assert_eq!(entries.len(), 60, "no trimming while disconnected");

    let mut reader = peer_crypto().reader;
    for (i, entry) in entries.iter().enumerate() {
        let mut packet = Packet::parse(entry).unwrap();
        packet.decrypt(&mut reader).unwrap();
        assert_eq!(packet.header(), 1);
        assert_eq!(packet.payload().len(), MIB);
        assert_eq!(packet.payload()[0], i as u8, "delivery order must be chronological");
    }

    let frame = write(&mut state, 2, b"live".to_vec()).unwrap().unwrap();
    let (_, packet) = read_client_packet(&frame, &mut reader);
    assert_eq!(packet.payload(), b"live");
}

#[test]
fn disconnect_buffer_overflow_skips_writes_without_corrupting_state() {
    let mut state = rig(None);
    let mut pc = peer_crypto();
    state.close_current_socket();
    assert_eq!(state.next_event(0), Some(BackedEvent::SocketDown));

    let big = vec![0u8; DISCONNECT_BUFFER_BYTES as usize];
    assert_eq!(write(&mut state, 1, big), Ok(None), "exactly at the limit still buffers");
    assert_eq!(
        write(&mut state, 2, b"x".to_vec()),
        Err(WriteError::Skipped),
        "one byte past the limit is skipped"
    );

    let (client_seq, entries) = run_recover(&mut state, 0, Vec::new());
    assert_eq!(client_seq, 0, "the client read nothing from the peer");
    assert_eq!(entries.len(), 1, "only the real packet is in the backup");
    let mut big_packet = Packet::parse(&entries[0]).unwrap();
    big_packet.decrypt(&mut pc.reader).unwrap();
    assert_eq!(big_packet.payload().len(), DISCONNECT_BUFFER_BYTES as usize);

    let frame = write(&mut state, 3, b"live".to_vec()).unwrap().unwrap();
    let (_, packet) = read_client_packet(&frame, &mut pc.reader);
    assert_eq!(packet.header(), 3);
    assert_eq!(packet.payload(), b"live");
}

#[test]
fn corrupt_frame_kills_session_with_crypto_mismatch() {
    let bad_mac = vec![
        1u8, 7, 0x42, 0x42, 0x42, 0x42, 0x42, 0x42, 0x42, 0x42, 0x42, 0x42, 0x42, 0x42, 0x42, 0x42,
        0x42, 0x42,
    ];
    let unparseable = vec![0xABu8];
    for frame in [bad_mac, unparseable] {
        let mut state = rig(None);
        state.receive(frame);
        assert_eq!(state.next_event(0), Some(BackedEvent::Dead(DeadReason::CryptoMismatch)));
        assert_eq!(write(&mut state, 1, b"x".to_vec()), Err(WriteError::Shutdown));
        assert_eq!(state.next_event(0), None, "the end is told once");
        assert!(state.is_stopping());
    }
}

#[test]
fn plaintext_flagged_packet_kills_session_with_crypto_mismatch() {
    let mut state = rig(None);
    state.receive(vec![0u8, terminal_packet_type::TERMINAL_BUFFER, b'p', b'w', b'n']);
    assert_eq!(state.next_event(0), Some(BackedEvent::Dead(DeadReason::CryptoMismatch)));
    assert_eq!(write(&mut state, 1, b"x".to_vec()), Err(WriteError::Shutdown));
    assert_eq!(state.next_event(0), None);
}

#[test]
fn commands_are_served_while_the_event_consumer_stalls() {
    let mut state = rig(None);
    let mut pc = peer_crypto();
    for i in 0..1100u16 {
        state.receive(peer_packet(&mut pc.writer, 1, &[i as u8; 64]));
    }
    assert!(matches!(write(&mut state, 7, b"cmd".to_vec()), Ok(Some(_))));
    for i in 0..1100u16 {
        expect_packet(&mut state, 1, &[i as u8; 64]);
    }
}

#[test]
fn the_packet_that_kills_a_full_socket_counts_toward_the_budget() {
    let mut state = rig(None);
    let frame = write(&mut state, 1, vec![0u8; 16 * 1024]).unwrap().unwrap();
    state.queue_refused(&frame);
    assert_eq!(state.next_event(0), Some(BackedEvent::SocketDown));
    assert_eq!(
        write(&mut state, 1, vec![0u8; DISCONNECT_BUFFER_BYTES as usize]),
        Err(WriteError::Skipped),
        "the killing packet must already count against the budget"
    );
}

#[test]
fn a_full_socket_write_queue_kills_the_socket_instead_of_blocking_the_actor() {
    let mut state = rig(None);
    let frame = write(&mut state, 1, vec![0u8; 16 * 1024]).unwrap().unwrap();
    state.queue_refused(&frame);
    assert!(!state.is_live());
    assert_eq!(state.next_event(0), Some(BackedEvent::SocketDown));
    assert_eq!(
        write(&mut state, 2, b"still buffered".to_vec()),
        Ok(None),
        "writes buffer while disconnected"
    );
    let (_, entries) = run_recover(&mut state, 0, Vec::new());
    assert_eq!(entries.len(), 2);
    assert_eq!(entries[0], frame[4..]);
}

#[test]
fn dropping_all_handles_ends_the_actor() {
    let mut state = rig(None);
    state.shutdown();
    assert_eq!(state.next_event(0), Some(BackedEvent::Dead(DeadReason::Shutdown)));
    assert_eq!(state.next_event(0), None);
}

#[test]
fn keepalive_pings_when_idle_and_echo_keeps_the_socket_alive() {
    let mut state = rig(Some(100));
    let mut pc = peer_crypto();
    let mut now = 0;
    assert_eq!(state.keepalive_tick(99), None);
    for _ in 0..3 {
        now += 100;
        let ping = state.keepalive_tick(now).unwrap();
        let (_, packet) = read_client_packet(&ping, &mut pc.reader);
        assert_eq!(packet.header(), terminal_packet_type::KEEP_ALIVE);
        assert!(packet.payload().is_empty());
        state.receive(peer_packet(&mut pc.writer, terminal_packet_type::KEEP_ALIVE, &[]));
        assert!(matches!(state.next_event(now), Some(BackedEvent::Packet(_))));
        assert_eq!(state.next_event(now), None);
    }
    assert!(state.is_live());
}

#[test]
fn keepalive_without_echo_kills_the_socket() {
    let mut state = rig(Some(100));
    let mut pc = peer_crypto();
    let ping = state.keepalive_tick(100).unwrap();
    let (_, packet) = read_client_packet(&ping, &mut pc.reader);
    assert_eq!(packet.header(), terminal_packet_type::KEEP_ALIVE);

    assert_eq!(state.keepalive_tick(150), None);
    assert_eq!(state.keepalive_tick(200), None);
    assert_eq!(state.next_event(200), Some(BackedEvent::SocketDown));
    assert_eq!(write(&mut state, 1, b"buffered".to_vec()), Ok(None));
    assert_eq!(
        state.next_event(200),
        None,
        "keepalive loss disconnects but does not kill the session"
    );
    assert_eq!(state.keepalive_tick(1000), None);
}

#[test]
fn the_server_does_not_probe() {
    let mut state = rig(None);
    assert_eq!(state.keepalive_tick(u64::MAX), None);
    assert!(state.is_live());
}

#[test]
fn steps_of_the_exchange_are_bounded() {
    assert_eq!(recover_step_end(0, RECOVER_IO_CHUNK + 1), RECOVER_IO_CHUNK);
    assert_eq!(recover_step_end(RECOVER_IO_CHUNK, RECOVER_IO_CHUNK + 1), RECOVER_IO_CHUNK + 1);
    assert_eq!(recover_step_deadline(5, 10, 100), 15);
    assert_eq!(recover_step_deadline(95, 10, 100), 100);
    assert_eq!(recover_step_deadline(200, 10, 100), 100);
    assert_eq!(recover_step_deadline(u64::MAX, u64::MAX, u64::MAX), u64::MAX);
}

#[test]
fn counters_say_when_they_are_full() {
    let state = rig(None);
    assert!(state.can_receive());
    assert!(state.has_room(0));
    assert!(!state.has_room(0xffff_ffff));
}

#[test]
fn connection_errors_in_words() {
    assert_eq!(WriteError::Skipped.message(), "disconnect buffer full, packet skipped");
    assert_eq!(WriteError::Shutdown.message(), "session is shutting down");
    assert_eq!(
        RecoverError::PeerAhead.message(),
        "peer claims more of our packets than we ever sent"
    );
    assert_eq!(
        RecoverError::TooFarBehind { needed: 70, backed_up: 63 }.message(),
        "peer is too far behind: needs 70, 63 backed up"
    );
    assert_eq!(
        RecoverError::BadSequenceHeader(DecodeError::VarintTooLong).message(),
        "bad SequenceHeader: varint exceeded maximum length of 10 bytes"
    );
    assert_eq!(
        RecoverError::BadCatchup(DecodeError::InvalidFieldNumber).message(),
        "bad CatchupBuffer: invalid field number"
    );
}

#[test]
fn a_wiped_configuration_has_lost_its_key() {
    let mut cfg = BackedConfig { key: TEST_KEY, reader_msb: 1, writer_msb: 0, keepalive: None };
    cfg.wipe();
    assert_eq!(cfg.key, [0u8; 32]);
}

#[test]
fn a_wiped_connection_neither_writes_nor_reads_under_its_key() {
    let mut state = rig(None);
    let mut pc = peer_crypto();
    state.wipe();
    let frame = state.write(1, b"x".to_vec(), 0).unwrap().unwrap();
    let (mut packet, _) = read_framed_packet(&frame, MAX_PACKET_LENGTH).unwrap();
    assert!(packet.clone().decrypt(&mut pc.reader).is_err());
    packet.decrypt(&mut CryptoHandler::new(&[0; 32], CLIENT_SERVER_NONCE_MSB)).unwrap();
    assert_eq!(packet.payload(), b"x");
    state.receive(peer_packet(&mut pc.writer, 1, b"y"));
    assert_eq!(state.next_event(0), Some(BackedEvent::Dead(DeadReason::CryptoMismatch)));
}
