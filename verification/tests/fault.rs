//! What is wrong with bytes that are no message, against a reader built on
//! `buffa`.

use buffa::bytes::Buf;
use buffa::encoding::{check_wire_type, decode_unknown_field, Tag, WireType};
use buffa::types::{decode_int32, decode_string};
use buffa::{DecodeContext, DefaultInstance, EncodeSink, Message, SizeCache};
use eternal_terminal::fault::{find_fault, DecodeError, Shape};
use eternal_terminal::messages::{
    ConnectResponse, InitialPayload, PortForwardDestinationRequest, PortForwardSourceRequest,
    SequenceHeader, SocketEndpoint, TermInit,
};

#[derive(Clone, Debug, Default, PartialEq)]
struct Endpoint {
    name: Option<String>,
    port: Option<i32>,
}

impl DefaultInstance for Endpoint {
    fn default_instance() -> &'static Self {
        Box::leak(Box::new(Endpoint::default()))
    }
}

impl Message for Endpoint {
    fn compute_size(&self, _cache: &mut SizeCache) -> u32 {
        0
    }

    fn write_to(&self, _cache: &mut SizeCache, _buf: &mut impl EncodeSink) {}

    fn merge_field(
        &mut self,
        tag: Tag,
        buf: &mut impl Buf,
        ctx: DecodeContext<'_>,
    ) -> Result<(), buffa::DecodeError> {
        match tag.field_number() {
            1 => {
                check_wire_type(tag, WireType::LengthDelimited)?;
                self.name = Some(decode_string(buf)?);
            }
            2 => {
                check_wire_type(tag, WireType::Varint)?;
                self.port = Some(decode_int32(buf)?);
            }
            _ => {
                decode_unknown_field(tag, buf, ctx)?;
            }
        }
        Ok(())
    }

    fn clear(&mut self) {
        *self = Endpoint::default();
    }
}

#[derive(Clone, Debug, Default, PartialEq)]
struct Request {
    destination: Option<Endpoint>,
    fd: Option<i32>,
}

impl DefaultInstance for Request {
    fn default_instance() -> &'static Self {
        Box::leak(Box::new(Request::default()))
    }
}

impl Message for Request {
    fn compute_size(&self, _cache: &mut SizeCache) -> u32 {
        0
    }

    fn write_to(&self, _cache: &mut SizeCache, _buf: &mut impl EncodeSink) {}

    fn merge_field(
        &mut self,
        tag: Tag,
        buf: &mut impl Buf,
        ctx: DecodeContext<'_>,
    ) -> Result<(), buffa::DecodeError> {
        match tag.field_number() {
            1 => {
                check_wire_type(tag, WireType::LengthDelimited)?;
                let inner = self.destination.get_or_insert_with(Endpoint::default);
                inner.merge_length_delimited(buf, ctx)?;
            }
            2 => {
                check_wire_type(tag, WireType::Varint)?;
                self.fd = Some(decode_int32(buf)?);
            }
            _ => {
                decode_unknown_field(tag, buf, ctx)?;
            }
        }
        Ok(())
    }

    fn clear(&mut self) {
        *self = Request::default();
    }
}

/// Whether both readers make the same of bytes.
fn agree(bytes: &[u8]) {
    let ours = PortForwardDestinationRequest::decode(bytes);
    match (Request::decode_from_slice(bytes), ours) {
        (Ok(theirs), Ok(ours)) => {
            let destination = ours.destination.map(|d| Endpoint { name: d.name, port: d.port });
            assert_eq!(theirs, Request { destination, fd: ours.fd }, "{bytes:?}");
            assert_eq!(find_fault(Shape::PortForwardDestinationRequest, bytes), None);
        }
        (Err(theirs), Err(ours)) => {
            assert_eq!(theirs.to_string(), ours.message(), "{bytes:?}");
            assert_eq!(find_fault(Shape::PortForwardDestinationRequest, bytes), Some(ours));
        }
        (theirs, ours) => panic!("{bytes:?}: {theirs:?} and {ours:?}"),
    }
}

fn nested(groups: usize, inside: &[u8]) -> Vec<u8> {
    let mut b = vec![0x1b; groups];
    b.extend_from_slice(inside);
    b.extend(vec![0x1c; groups]);
    b
}

fn endpoint_around(inside: &[u8]) -> Vec<u8> {
    let mut b = vec![0x0a];
    let mut len = inside.len();
    while len >= 128 {
        b.push((len % 128) as u8 + 128);
        len /= 128;
    }
    b.push(len as u8);
    b.extend_from_slice(inside);
    b
}

#[test]
fn faults_are_those_of_the_reader_field_by_field() {
    for bytes in [
        &[][..],
        &[0x10, 0x07][..],
        &[0x10][..],
        &[0x80][..],
        &[0x10, 0xff, 0xff, 0xff, 0xff, 0xff, 0xff, 0xff, 0xff, 0xff, 0x02][..],
        &[0x10, 0xff, 0xff, 0xff, 0xff, 0xff, 0xff, 0xff, 0xff, 0xff][..],
        &[0x00][..],
        &[0x06][..],
        &[0x17, 0x00][..],
        &[0x80, 0x80, 0x80, 0x80, 0x10, 0x00][..],
        &[0xff, 0xff, 0xff, 0xff, 0x7f, 0x00][..],
        &[0x12, 0x01, b'x'][..],
        &[0x08, 0x01][..],
        &[0x0d, 0, 0, 0, 0][..],
        &[0x14][..],
        &[0x1c][..],
        &[0x1b, 0x24][..],
        &[0x1b, 0x08][..],
        &[0x1b, 0x08, 0x01][..],
        &[0x19, 1, 2, 3][..],
        &[0x1d, 1, 2, 3][..],
        &[0x1a, 0x05, 1][..],
        &[0x0a, 0x80, 0x80, 0x80, 0x80, 0x08, 0x00][..],
        &[0x0a, 0x02, 0x0a, 0x05][..],
        &[0x0a, 0x02, 0x0a, 0x02, 0x10, 0x01][..],
        &[0x0a, 0x02, 0x0a, 0x02, 0xff, 0xfe][..],
        &[0x0a, 0x04, 0x0a, 0x02, 0xff, 0xfe][..],
        &[0x0a, 0x04, 0x0a, 0x02, b'a', b'b', 0x10, 0x01][..],
        &[0x0a, 0x01, 0x10, 0x05, 0x10, 0x01][..],
        &[0x0a, 0x02, 0x08, 0x05][..],
        &[0x10, 0x01, 0x0a, 0x02, 0x10][..],
    ] {
        agree(bytes);
    }
}

#[test]
fn messages_and_groups_share_one_depth() {
    for groups in [1usize, 98, 99, 100, 101] {
        for inside in [&[][..], &[0x20, 0x01][..], &[0x22, 0x01, b'x'][..]] {
            agree(&nested(groups, inside));
            agree(&endpoint_around(&nested(groups, inside)));
        }
    }
    let with_value = nested(100, &[0x20, 0x01]);
    assert!(SequenceHeader::decode(&with_value).is_ok());
    let deeper = nested(101, &[]);
    assert_eq!(SequenceHeader::decode(&deeper), Err(DecodeError::RecursionLimitExceeded));
    let inner = nested(100, &[]);
    assert!(SocketEndpoint::decode(&inner).is_ok());
    assert_eq!(
        PortForwardDestinationRequest::decode(&endpoint_around(&inner)),
        Err(DecodeError::RecursionLimitExceeded)
    );
    let request = endpoint_around(&nested(99, &[]));
    assert!(PortForwardSourceRequest::decode(&request).is_ok());
    let mut payload = endpoint_around(&request);
    payload[0] = 0x12;
    assert_eq!(InitialPayload::decode(&payload), Err(DecodeError::RecursionLimitExceeded));
}

#[test]
fn readers_agree_on_bytes_that_went_wrong() {
    let whole = PortForwardDestinationRequest {
        destination: Some(SocketEndpoint { name: Some("häuser".into()), port: Some(-3) }),
        fd: Some(300),
    };
    let mut whole = whole.encode_to_vec();
    whole.extend([0x1b, 0x08, 0x96, 0x01, 0x1c, 0x25, 1, 2, 3, 4, 0x2a, 0x02, 7, 8]);
    agree(&whole);
    for n in 0..whole.len() {
        agree(&whole[..n]);
    }
    let mut seed: u64 = 1;
    let mut draw = || {
        seed = seed.wrapping_mul(6364136223846793005).wrapping_add(1442695040888963407);
        (seed >> 33) as usize
    };
    for _ in 0..20_000 {
        let mut bytes = whole.clone();
        for _ in 0..1 + draw() % 3 {
            let at = draw() % bytes.len();
            bytes[at] = draw() as u8;
        }
        bytes.truncate(1 + draw() % bytes.len());
        agree(&bytes);
        let noise: Vec<u8> = (0..draw() % 12).map(|_| draw() as u8).collect();
        agree(&noise);
    }
}

#[test]
fn faults_in_words() {
    let said = |e: DecodeError| e.message();
    assert_eq!(said(DecodeError::UnexpectedEof), buffa::DecodeError::UnexpectedEof.to_string());
    assert_eq!(said(DecodeError::VarintTooLong), buffa::DecodeError::VarintTooLong.to_string());
    assert_eq!(said(DecodeError::InvalidWireType(6)), "invalid wire type: 6");
    assert_eq!(
        said(DecodeError::InvalidFieldNumber),
        buffa::DecodeError::InvalidFieldNumber.to_string()
    );
    assert_eq!(said(DecodeError::MessageTooLarge), buffa::DecodeError::MessageTooLarge.to_string());
    assert_eq!(
        said(DecodeError::WireTypeMismatch { field_number: 12, expected: 2, actual: 0 }),
        "wire type mismatch on field 12: expected 2, got 0"
    );
    assert_eq!(said(DecodeError::InvalidUtf8), buffa::DecodeError::InvalidUtf8.to_string());
    assert_eq!(
        said(DecodeError::RecursionLimitExceeded),
        buffa::DecodeError::RecursionLimitExceeded.to_string()
    );
    assert_eq!(said(DecodeError::InvalidEndGroup(5)), "invalid end-group tag: field number 5");
}

#[test]
fn the_first_fault_is_reported() {
    assert_eq!(
        ConnectResponse::decode(&[0x12, 0x01, 0xff, 0x08]),
        Err(DecodeError::InvalidUtf8)
    );
    assert_eq!(
        ConnectResponse::decode(&[0x0a, 0x01]),
        Err(DecodeError::WireTypeMismatch { field_number: 1, expected: 0, actual: 2 })
    );
    assert_eq!(TermInit::decode(&[0x12, 0x05]), Err(DecodeError::UnexpectedEof));
    assert_eq!(
        InitialPayload::decode(&[0x1a, 0x02, 0x08, 0x01]),
        Err(DecodeError::WireTypeMismatch { field_number: 1, expected: 2, actual: 0 })
    );
    assert_eq!(
        InitialPayload::decode(&[0x1a, 0x04, 0x0a, 0x05, b'n', b'a', b'm', b'e', b's']),
        Err(DecodeError::UnexpectedEof)
    );
    assert_eq!(
        InitialPayload::decode(&[0x12, 0x04, 0x0a, 0x02, 0x12, 0x00]),
        Err(DecodeError::WireTypeMismatch { field_number: 2, expected: 0, actual: 2 })
    );
}
