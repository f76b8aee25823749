//! The cipher and its nonces.

use crypto_secretbox::aead::generic_array::GenericArray;
use crypto_secretbox::aead::{Aead, KeyInit};
use crypto_secretbox::XSalsa20Poly1305;
use eternal_terminal::crypto::{CryptoError, CryptoHandler, KEY_BYTES, MAC_BYTES};
use eternal_terminal::{CLIENT_SERVER_NONCE_MSB, SERVER_CLIENT_NONCE_MSB};

fn key(seed: u8) -> [u8; KEY_BYTES] {
    [seed; KEY_BYTES]
}

#[test]
fn round_trip_and_nonce_advance() {
    let mut sender = CryptoHandler::new(&key(1), CLIENT_SERVER_NONCE_MSB);
    let mut receiver = CryptoHandler::new(&key(1), CLIENT_SERVER_NONCE_MSB);
    let msg = b"hello terminal";
    let c1 = sender.encrypt(msg);
    let c2 = sender.encrypt(msg);
    assert_ne!(c1, c2);
    assert_eq!(c1.len(), msg.len() + MAC_BYTES);
    assert_eq!(receiver.decrypt(&c1).unwrap(), msg);
    assert_eq!(receiver.decrypt(&c2).unwrap(), msg);
}

#[test]
fn directions_are_independent_streams() {
    let mut client_writer = CryptoHandler::new(&key(2), CLIENT_SERVER_NONCE_MSB);
    let mut server_reader = CryptoHandler::new(&key(2), CLIENT_SERVER_NONCE_MSB);
    let c = client_writer.encrypt(b"x");
    assert_eq!(server_reader.decrypt(&c).unwrap(), b"x");
    let mut server_writer = CryptoHandler::new(&key(2), SERVER_CLIENT_NONCE_MSB);
    assert_ne!(server_writer.encrypt(b"x"), c);
}

#[test]
fn wrong_key_and_tamper_fail() {
    let mut a = CryptoHandler::new(&key(3), 0);
    let mut b = CryptoHandler::new(&key(4), 0);
    let c = a.encrypt(b"secret");
    assert!(matches!(b.decrypt(&c), Err(CryptoError::DecryptFailed)));
    let mut tampered = c.clone();
    tampered[0] ^= 1;
    assert!(matches!(a.decrypt(&tampered), Err(CryptoError::DecryptFailed)));
}

#[test]
fn short_ciphertext_rejected_without_touching_nonce() {
    let mut sender = CryptoHandler::new(&key(5), 0);
    let mut receiver = CryptoHandler::new(&key(5), 0);
    assert!(matches!(
        receiver.decrypt(&[0u8; 10]),
        Err(CryptoError::CiphertextTooShort(10))
    ));
    let c = sender.encrypt(b"still aligned");
    assert_eq!(receiver.decrypt(&c).unwrap(), b"still aligned");
}

#[test]
fn nonce_carries_across_all_24_bytes() {
    let mut handler = CryptoHandler::new(&key(6), 0);
    for _ in 0..0xff {
        handler.increment_nonce();
    }
    assert_eq!(handler.nonce()[0], 0xff);
    handler.increment_nonce();
    assert_eq!(handler.nonce()[0], 0x00);
    assert_eq!(handler.nonce()[1], 0x01);
    for b in handler.nonce().iter().skip(2) {
        assert_eq!(*b, 0);
    }
}

#[test]
fn nonce_starts_with_the_direction_and_moves_before_each_use() {
    let mut handler = CryptoHandler::new(&key(7), 1);
    let mut nonce = [0u8; 24];
    nonce[23] = 1;
    assert_eq!(handler.nonce(), &nonce);
    let c = handler.encrypt(b"abc");
    nonce[0] = 1;
    assert_eq!(handler.nonce(), &nonce);
    let reference = XSalsa20Poly1305::new(GenericArray::from_slice(&key(7)));
    assert_eq!(c, reference.encrypt(GenericArray::from_slice(&nonce), &b"abc"[..]).unwrap());
    assert_eq!(reference.decrypt(GenericArray::from_slice(&nonce), &c[..]).unwrap(), b"abc");
}

#[test]
fn a_stream_of_messages_opens_in_order_and_only_in_order() {
    let mut sender = CryptoHandler::new(&key(9), CLIENT_SERVER_NONCE_MSB);
    let mut receiver = CryptoHandler::new(&key(9), CLIENT_SERVER_NONCE_MSB);
    let reference = XSalsa20Poly1305::new(GenericArray::from_slice(&key(9)));
    let mut sealed = Vec::new();
    for n in 1..=300u16 {
        let message = n.to_be_bytes();
        let c = sender.encrypt(&message);
        let mut nonce = [0u8; 24];
        nonce[..2].copy_from_slice(&n.to_le_bytes());
        nonce[23] = CLIENT_SERVER_NONCE_MSB;
        assert_eq!(sender.nonce(), &nonce);
        let expected = reference.encrypt(GenericArray::from_slice(&nonce), &message[..]).unwrap();
        assert_eq!(c, expected);
        sealed.push(c);
    }
    for (i, c) in sealed.iter().enumerate() {
        assert_eq!(receiver.decrypt(c).unwrap(), (i as u16 + 1).to_be_bytes());
    }
    assert_eq!(receiver.nonce(), sender.nonce());
    let mut late = CryptoHandler::new(&key(9), CLIENT_SERVER_NONCE_MSB);
    assert_eq!(late.decrypt(&sealed[1]), Err(CryptoError::DecryptFailed));
}

#[test]
fn a_wiped_handler_has_lost_its_key() {
    let mut sender = CryptoHandler::new(&key(8), 0);
    let mut receiver = CryptoHandler::new(&key(8), 0);
    let c = sender.encrypt(b"abc");
    receiver.wipe();
    assert_eq!(receiver.decrypt(&c), Err(CryptoError::DecryptFailed));
    let mut zero = CryptoHandler::new(&key(0), 0);
    let mut wiped = CryptoHandler::new(&key(8), 0);
    wiped.wipe();
    assert_eq!(wiped.encrypt(b"abc"), zero.encrypt(b"abc"));
}

#[test]
fn crypto_errors_in_words() {
    assert_eq!(
        CryptoError::InvalidKeyLength(31).message(),
        "invalid key length: expected 32 bytes, got 31"
    );
    assert_eq!(
        CryptoError::CiphertextTooShort(10).message(),
        "ciphertext too short to contain the MAC: 10 bytes"
    );
    assert_eq!(
        CryptoError::DecryptFailed.message(),
        "decryption failed (key mismatch or corrupted packet)"
    );
}
