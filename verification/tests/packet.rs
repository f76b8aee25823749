//! Packets, and packets through a cipher.

use eternal_terminal::crypto::CryptoHandler;
use eternal_terminal::packet::Packet;
use eternal_terminal::{terminal_packet_type, CLIENT_SERVER_NONCE_MSB};

#[test]
fn serialize_matches_upstream_layout() {
    let p = Packet::new(0xfe, b"abc".to_vec());
    assert_eq!(p.serialize(), vec![0u8, 0xfe, b'a', b'b', b'c']);
    let parsed = Packet::parse(&p.serialize()).unwrap();
    assert_eq!(parsed, p);
    assert!(!parsed.is_encrypted());
}

#[test]
fn empty_payload_round_trip() {
    let p = Packet::new(terminal_packet_type::KEEP_ALIVE, Vec::new());
    assert_eq!(Packet::parse(&p.serialize()).unwrap(), p);
}

#[test]
fn encrypted_round_trip_through_backup_storage() {
    let mut sender = CryptoHandler::new(&[7u8; 32], CLIENT_SERVER_NONCE_MSB);
    let mut receiver = CryptoHandler::new(&[7u8; 32], CLIENT_SERVER_NONCE_MSB);
    let mut p = Packet::new(terminal_packet_type::TERMINAL_BUFFER, b"data".to_vec());
    p.encrypt(&mut sender);
    assert!(p.is_encrypted());
    let stored = p.serialize();

    let mut from_wire = Packet::parse(&stored).unwrap();
    assert!(from_wire.is_encrypted());
    from_wire.decrypt(&mut receiver).unwrap();
    assert_eq!(from_wire.payload(), b"data");
}

#[test]
fn parse_rejects_truncated_input() {
    assert!(Packet::parse(&[]).is_none());
    assert!(Packet::parse(&[1u8]).is_none());
}

#[test]
fn any_nonzero_flag_means_encrypted() {
    let p = Packet::parse(&[0x80, 5, 9]).unwrap();
    assert!(p.is_encrypted());
    assert_eq!(p.header(), 5);
    assert_eq!(p.serialize(), vec![1, 5, 9]);
    assert_eq!(p.into_payload(), vec![9]);
    assert_eq!(Packet::HEADER_SIZE, 2);
}

#[test]
fn failed_decryption_leaves_the_packet_alone() {
    let mut receiver = CryptoHandler::new(&[7u8; 32], CLIENT_SERVER_NONCE_MSB);
    let mut p = Packet::parse(&[1, 5, 1, 2, 3]).unwrap();
    assert!(p.decrypt(&mut receiver).is_err());
    assert!(p.is_encrypted());
    assert_eq!(p.payload(), [1, 2, 3]);
}
