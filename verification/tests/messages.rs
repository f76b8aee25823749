//! Messages on the wire.

use eternal_terminal::env::EnvMap;
use eternal_terminal::messages::{
    ConfigParams, ConnectRequest, ConnectResponse, ConnectStatus, InitialPayload, InitialResponse,
    PortForwardData, PortForwardDestinationRequest, PortForwardDestinationResponse,
    PortForwardSourceRequest, PortForwardSourceResponse, SequenceHeader, SocketEndpoint,
    TerminalUserInfo,
};
use eternal_terminal::wire::{read_fields, read_varint, write_fields, write_varint, RawField, RawValue};

#[test]
fn connect_status_round_trip() {
    for status in [
        ConnectStatus::NewClient,
        ConnectStatus::ReturningClient,
        ConnectStatus::InvalidKey,
        ConnectStatus::MismatchedProtocol,
    ] {
        let r = ConnectResponse { status: Some(status.to_i32()), error: None };
        assert_eq!(r.connect_status(), Some(status));
    }
    assert_eq!(ConnectResponse::default().connect_status(), None);
    assert_eq!(ConnectResponse { status: Some(99), error: None }.connect_status(), None);
}

#[test]
fn the_last_known_status_counts() {
    let status = |b: &[u8]| ConnectResponse::decode(b).unwrap().status;
    assert_eq!(status(&[0x08, 0x02, 0x08, 0x63]), Some(2));
    assert_eq!(status(&[0x08, 0x63, 0x08, 0x03]), Some(3));
    assert_eq!(status(&[0x08, 0x63]), None);
    assert_eq!(status(&[]), None);
    let odd = ConnectResponse { status: Some(99), error: Some("x".into()) };
    assert_eq!(
        ConnectResponse::decode(&odd.encode_to_vec()),
        Ok(ConnectResponse { status: None, error: Some("x".into()) })
    );
}

#[test]
fn map_field_round_trips_regardless_of_order() {
    let mut a = InitialPayload::default();
    a.environmentvariables.insert("ZZ".to_string(), "1".to_string());
    a.environmentvariables.insert("AA".to_string(), "2".to_string());
    let mut b = InitialPayload::default();
    b.environmentvariables.insert("AA".to_string(), "2".to_string());
    b.environmentvariables.insert("ZZ".to_string(), "1".to_string());
    let decoded_a = InitialPayload::decode(a.encode_to_vec().as_slice()).unwrap();
    let decoded_b = InitialPayload::decode(b.encode_to_vec().as_slice()).unwrap();
    assert_eq!(decoded_a, decoded_b);
    assert_eq!(decoded_a.environmentvariables.len(), 2);
}

#[test]
fn variables_are_found_replaced_and_removed() {
    let mut m = EnvMap::new();
    assert!(m.is_empty());
    m.insert("B".into(), "1".into());
    m.insert("A".into(), "2".into());
    m.insert("B".into(), "3".into());
    assert_eq!(m.len(), 2);
    assert_eq!(m.get("B"), Some("3"));
    assert_eq!((m.name(0), m.value(0)), ("A", "2"));
    m.remove("A");
    m.remove("missing");
    assert_eq!(m.get("A"), None);
    assert_eq!(m.clone(), m);
    assert_eq!(m.len(), 1);
}

#[test]
fn varints_agree_with_prost() {
    for v in [0u64, 1, 127, 128, 300, 16383, 16384, u32::MAX as u64, u64::MAX - 1, u64::MAX] {
        let mut ours = Vec::new();
        write_varint(&mut ours, v);
        let mut theirs = Vec::new();
        prost::encoding::encode_varint(v, &mut theirs);
        assert_eq!(ours, theirs);
        assert_eq!(read_varint(&ours, 0), Some((v, ours.len())));
    }
    for bytes in [
        &[0x80u8, 0x00][..],
        &[0xff; 9][..],
        &[0xff, 0xff, 0xff, 0xff, 0xff, 0xff, 0xff, 0xff, 0xff, 0x01][..],
        &[0xff, 0xff, 0xff, 0xff, 0xff, 0xff, 0xff, 0xff, 0xff, 0x02][..],
        &[0xff; 11][..],
        &[][..],
    ] {
        let mut rest = bytes;
        let theirs = prost::encoding::decode_varint(&mut rest).ok();
        assert_eq!(read_varint(bytes, 0).map(|(v, _)| v), theirs, "{bytes:?}");
    }
}

#[test]
fn fields_agree_with_prost() {
    let mut theirs = Vec::new();
    prost::encoding::string::encode(1, &"häh".to_string(), &mut theirs);
    prost::encoding::int32::encode(2, &-5, &mut theirs);
    let ours = ConnectRequest { client_id: Some("häh".into()), version: Some(-5) };
    assert_eq!(ours.encode_to_vec(), theirs);
    assert_eq!(ConnectRequest::decode(&theirs).unwrap(), ours);

    let mut theirs = Vec::new();
    prost::encoding::int64::encode(3, &i64::MIN, &mut theirs);
    prost::encoding::int64::encode(4, &i64::MAX, &mut theirs);
    let ours = TerminalUserInfo { uid: Some(i64::MIN), gid: Some(i64::MAX), ..Default::default() };
    assert_eq!(ours.encode_to_vec(), theirs);
    assert_eq!(TerminalUserInfo::decode(&theirs).unwrap(), ours);

    let mut theirs = Vec::new();
    prost::encoding::bool::encode(1, &true, &mut theirs);
    prost::encoding::bytes::encode(3, &vec![0u8, 255], &mut theirs);
    prost::encoding::bool::encode(5, &false, &mut theirs);
    let ours = PortForwardData {
        sourcetodestination: Some(true),
        buffer: Some(vec![0, 255]),
        closed: Some(false),
        ..Default::default()
    };
    assert_eq!(ours.encode_to_vec(), theirs);
    assert_eq!(PortForwardData::decode(&theirs).unwrap(), ours);
}

#[test]
fn the_last_occurrence_counts_and_numbers_are_cut_to_32_bits() {
    let h = SequenceHeader::decode(&[0x08, 0x01, 0x08, 0x07]).unwrap();
    assert_eq!(h.sequence_number, Some(7));
    let h = SequenceHeader::decode(&[0x08, 0xff, 0xff, 0xff, 0xff, 0xff, 0x01]).unwrap();
    assert_eq!(h.sequence_number, Some(-1));
}

#[test]
fn what_is_not_a_message_is_refused() {
    for bad in [
        &[0x08][..],
        &[0x00, 0x00][..],
        &[0x0a, 0x01, b'x'][..],
        &[0x0c][..],
        &[0x0f, 0x00][..],
        &[0xff, 0xff, 0xff, 0xff, 0x7f, 0x00][..],
        &[0x12, 0x05, b'x'][..],
        &[0x1b, 0x08, 0x01, 0x24][..],
        &[0x1b, 0x08, 0x01][..],
    ] {
        assert!(SequenceHeader::decode(bad).is_err(), "{bad:?}");
    }
    assert!(InitialResponse::decode(&[0x0a, 0x02, 0xff, 0xfe]).is_err());
    assert!(PortForwardDestinationRequest::decode(&[0x0a, 0x02, 0x0a, 0x05]).is_err());
}

#[test]
fn unknown_fields_are_passed_over() {
    let bytes = [
        0x2d, 1, 2, 3, 4, // fixed32
        0x31, 1, 2, 3, 4, 5, 6, 7, 8, // fixed64
        0x3b, 0x08, 0x01, 0x3c, // group
        0x42, 0x02, 9, 9, // bytes
        0x08, 0x05,
    ];
    assert_eq!(SequenceHeader::decode(&bytes).unwrap().sequence_number, Some(5));
    let fields = read_fields(&bytes).unwrap();
    assert_eq!(fields.len(), 5);
    assert_eq!(fields[2], RawField { tag: 7, value: RawValue::Group(vec![0x08, 0x01, 0x3c]) });
    assert_eq!(write_fields(&fields), bytes);
}

#[test]
fn groups_nest_to_a_limit() {
    let nested = |n: usize| {
        let mut b = vec![0x1b; n];
        b.extend(vec![0x1c; n]);
        b
    };
    assert!(SequenceHeader::decode(&nested(100)).is_ok());
    assert!(SequenceHeader::decode(&nested(101)).is_err());
}

#[test]
fn occurrences_of_an_endpoint_add_to_each_other() {
    let name = SocketEndpoint { name: Some("h".into()), port: None };
    let port = SocketEndpoint { name: None, port: Some(3) };
    let mut bytes = PortForwardDestinationRequest { destination: Some(name), fd: None }.encode_to_vec();
    bytes.extend(PortForwardDestinationRequest { destination: Some(port), fd: Some(1) }.encode_to_vec());
    let r = PortForwardDestinationRequest::decode(&bytes).unwrap();
    assert_eq!(r.destination, Some(SocketEndpoint { name: Some("h".into()), port: Some(3) }));
    assert_eq!(r.fd, Some(1));
}

#[test]
fn every_message_reads_back() {
    let endpoint = SocketEndpoint { name: Some("/tmp/x".into()), port: Some(-1) };
    let request = PortForwardSourceRequest {
        source: Some(endpoint.clone()),
        destination: Some(SocketEndpoint::default()),
        environmentvariable: Some("E".into()),
    };
    assert_eq!(PortForwardSourceRequest::decode(&request.encode_to_vec()).unwrap(), request);
    let mut payload = InitialPayload {
        jumphost: Some(true),
        reversetunnels: vec![request, PortForwardSourceRequest::default()],
        environmentvariables: EnvMap::new(),
    };
    payload.environmentvariables.insert("".into(), "".into());
    payload.environmentvariables.insert("K".into(), "V".into());
    assert_eq!(InitialPayload::decode(&payload.encode_to_vec()).unwrap(), payload);
    let response = PortForwardDestinationResponse {
        clientfd: Some(i32::MIN),
        socketid: Some(i32::MAX),
        error: Some("no".into()),
    };
    assert_eq!(
        PortForwardDestinationResponse::decode(&response.encode_to_vec()).unwrap(),
        response
    );
    let error = PortForwardSourceResponse { error: Some("taken".into()) };
    assert_eq!(PortForwardSourceResponse::decode(&error.encode_to_vec()).unwrap(), error);
    let params = ConfigParams { vlevel: Some(9), minloglevel: None };
    assert_eq!(ConfigParams::decode(&params.encode_to_vec()).unwrap(), params);
}

#[test]
fn a_map_entry_without_a_part_has_an_empty_part() {
    let payload = InitialPayload::decode(&[0x1a, 0x03, 0x0a, 0x01, b'K']).unwrap();
    assert_eq!(payload.environmentvariables.get("K"), Some(""));
}
