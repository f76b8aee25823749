//! The protocol packet: `[encrypted: 0 or 1][header][payload]`.
//!
//! A packet is encrypted exactly once, when it enters a connection. What is
//! kept for a later reconnect is the serialized ciphertext, so that a resend
//! carries the same bytes and takes no further nonce.

use vstd::prelude::*;
use crate::crypto::{CryptoError, CryptoHandler, MAC_BYTES};
use crate::wire::byte_range;

verus! {

/// A packet.
#[derive(Debug, Clone, PartialEq, Eq)]
pub struct Packet {
    encrypted: bool,
    header: u8,
    payload: Vec<u8>,
}

/// What a packet holds.
#[verifier::ext_equal]
pub struct PacketView {
    pub encrypted: bool,
    pub header: u8,
    pub payload: Seq<u8>,
}

impl View for Packet {
    type V = PacketView;

    closed spec fn view(&self) -> PacketView {
        PacketView { encrypted: self.encrypted, header: self.header, payload: self.payload@ }
    }
}

impl PacketView {
    /// The packet as bytes.
    pub open spec fn bytes(self) -> Seq<u8> {
        seq![
            if self.encrypted {
                1u8
            } else {
                0u8
            },
            self.header,
        ] + self.payload
    }

    /// The packet that bytes encode: a flag byte, a header, and the rest.
    pub open spec fn parse(b: Seq<u8>) -> Option<PacketView> {
        if b.len() < 2 {
            None
        } else {
            Some(PacketView { encrypted: b[0] != 0, header: b[1], payload: b.skip(2) })
        }
    }
}

/// A packet without encryption.
pub open spec fn clear_packet(header: u8, payload: Seq<u8>) -> PacketView {
    PacketView { encrypted: false, header, payload }
}

/// Reading a packet gives back what was written.
pub proof fn law_packet_round_trip(p: PacketView)
    ensures
        PacketView::parse(p.bytes()) == Some(p),
{
    assert(p.bytes().skip(2) =~= p.payload);
}

/// What bytes a packet is read from: any flag but zero says that it is
/// encrypted, and fewer than two bytes are no packet.
pub proof fn law_packet_reading(flag: u8, header: u8, payload: Seq<u8>)
    ensures
        PacketView::parse(seq![flag, header] + payload) == Some(
            PacketView { encrypted: flag != 0, header, payload },
        ),
        PacketView::parse(seq![flag]) is None,
        PacketView::parse(Seq::empty()) is None,
{
    assert((seq![flag, header] + payload).skip(2) =~= payload);
}

impl Packet {
    pub const HEADER_SIZE: usize = 2;

    /// A packet without encryption.
    pub fn new(header: u8, payload: Vec<u8>) -> (res: Packet)
        ensures
            res@ == clear_packet(header, payload@),
    {
        Packet { encrypted: false, header, payload }
    }

    /// Reads a packet; fails exactly on fewer than two bytes.
    pub fn parse(bytes: &[u8]) -> (res: Option<Packet>)
        ensures
            match res {
                Some(p) => PacketView::parse(bytes@) == Some(p@),
                None => PacketView::parse(bytes@) is None,
            },
    {
        if bytes.len() < 2 {
            return None;
        }
        let payload = byte_range(bytes, 2, bytes.len());
        assert(payload@ =~= bytes@.skip(2));
        Some(Packet { encrypted: bytes[0] != 0, header: bytes[1], payload })
    }

    /// The packet as bytes.
    pub fn serialize(&self) -> (res: Vec<u8>)
        ensures
            res@ == self@.bytes(),
    {
        let mut out: Vec<u8> = Vec::new();
        out.push(
            if self.encrypted {
                1
            } else {
                0
            },
        );
        out.push(self.header);
        out.extend_from_slice(self.payload.as_slice());
        assert(out@ =~= self@.bytes());
        out
    }

    /// Encrypts the payload in place.
    pub fn encrypt(&mut self, crypto: &mut CryptoHandler)
        requires
            !old(self)@.encrypted,
            old(self)@.payload.len() + MAC_BYTES <= isize::MAX,
        ensures
            CryptoHandler::encrypts(
                *old(crypto),
                *final(crypto),
                old(self)@.payload,
                final(self)@.payload,
            ),
            final(self)@.encrypted,
            final(self)@.header == old(self)@.header,
    {
        let sealed = crypto.encrypt(self.payload.as_slice());
        self.payload = sealed;
        self.encrypted = true;
    }

    /// Decrypts the payload in place. On failure the packet stays as it was.
    pub fn decrypt(&mut self, crypto: &mut CryptoHandler) -> (res: Result<(), CryptoError>)
        requires
            old(self)@.encrypted,
        ensures
            match res {
                Ok(_) => {
                    &&& CryptoHandler::decrypts(
                        *old(crypto),
                        *final(crypto),
                        old(self)@.payload,
                        Ok(final(self)@.payload),
                    )
                    &&& final(self)@ == clear_packet(old(self)@.header, final(self)@.payload)
                },
                Err(e) => {
                    &&& CryptoHandler::decrypts(
                        *old(crypto),
                        *final(crypto),
                        old(self)@.payload,
                        Err(e),
                    )
                    &&& final(self)@ == old(self)@
                },
            },
    {
        match crypto.decrypt(self.payload.as_slice()) {
            Ok(p) => {
                self.payload = p;
                self.encrypted = false;
                Ok(())
            },
            Err(e) => Err(e),
        }
    }

    /// Whether the payload is encrypted.
    pub fn is_encrypted(&self) -> (res: bool)
        ensures
            res == self@.encrypted,
    {
        self.encrypted
    }

    /// The header.
    pub fn header(&self) -> (res: u8)
        ensures
            res == self@.header,
    {
        self.header
    }

    /// The payload.
    pub fn payload(&self) -> (res: &[u8])
        ensures
            res@ == self@.payload,
    {
        self.payload.as_slice()
    }

    /// The payload, taken out of the packet.
    pub fn into_payload(self) -> (res: Vec<u8>)
        ensures
            res@ == self@.payload,
    {
        self.payload
    }
}

} // verus!
