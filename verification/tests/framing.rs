//! The two frame formats.

use eternal_terminal::framing::{
    packet_length, proto_length, read_framed_packet, read_packet_frame, read_proto_frame,
    try_parse_packet_frame_from_buffer, write_framed_packet, write_packet_frame,
    write_proto_frame, write_typed_proto, write_unframed, FrameError, IoFailure,
};
use eternal_terminal::messages::ConnectRequest;
use eternal_terminal::packet::Packet;
use eternal_terminal::{
    terminal_packet_type, MAX_HANDSHAKE_PROTO_LENGTH, MAX_PACKET_LENGTH, PROTOCOL_VERSION,
};

#[test]
fn proto_frame_round_trip() {
    let mut buf = Vec::new();
    let req = ConnectRequest {
        client_id: Some("XXXabcdefghijklmnop".into()),
        version: Some(PROTOCOL_VERSION),
    };
    write_proto_frame(&mut buf, &req.encode_to_vec());
    let (decoded, used) = read_proto_frame(&buf, MAX_HANDSHAKE_PROTO_LENGTH).unwrap();
    assert_eq!(used, buf.len());
    assert_eq!(ConnectRequest::decode(&decoded[..]).unwrap(), req);
}

#[test]
fn proto_frame_rejects_negative_and_oversize() {
    let buf = (-1i64).to_le_bytes().to_vec();
    assert!(matches!(read_proto_frame(&buf, 1024), Err(FrameError::InvalidLength(-1))));
    let buf = (9999i64).to_le_bytes().to_vec();
    assert!(matches!(read_proto_frame(&buf, 1024), Err(FrameError::InvalidLength(9999))));
}

#[test]
fn empty_frame_is_empty_message() {
    let mut buf = Vec::new();
    write_proto_frame(&mut buf, &[]);
    assert_eq!(buf.len(), 8);
    let (decoded, _) = read_proto_frame(&buf, 1024).unwrap();
    assert!(decoded.is_empty());
}

#[test]
fn closed_at_boundary_and_mid_frame() {
    assert!(matches!(read_proto_frame(&[], 1024), Err(FrameError::Closed)));
    let partial = [1u8, 2];
    assert!(matches!(read_proto_frame(&partial, 1024), Err(FrameError::Closed)));
    let mut buf = Vec::new();
    write_proto_frame(&mut buf, b"abc");
    buf.pop();
    assert!(matches!(read_proto_frame(&buf, 1024), Err(FrameError::Closed)));
}

#[test]
fn frames_are_whole_within_the_limit_or_refused() {
    let body = b"abcdef";
    let mut buf = Vec::new();
    write_proto_frame(&mut buf, body);
    for n in 0..buf.len() {
        assert_eq!(read_proto_frame(&buf[..n], 6), Err(FrameError::Closed));
    }
    buf.extend_from_slice(b"rest");
    assert_eq!(read_proto_frame(&buf, 6), Ok((body.to_vec(), 14)));
    assert_eq!(read_proto_frame(&buf, 5), Err(FrameError::InvalidLength(6)));

    let packet = Packet::new(1, b"xyz".to_vec());
    let mut buf = Vec::new();
    write_framed_packet(&mut buf, &packet);
    for n in 0..buf.len() {
        assert_eq!(read_framed_packet(&buf[..n], 5), Err(FrameError::Closed));
    }
    assert_eq!(read_framed_packet(&buf, 5), Ok((packet, 9)));
    assert_eq!(read_framed_packet(&buf, 4), Err(FrameError::InvalidLength(5)));
}

#[test]
fn tcp_packet_frame_round_trip() {
    let mut buf = Vec::new();
    let p = Packet::new(terminal_packet_type::KEEP_ALIVE, Vec::new());
    write_framed_packet(&mut buf, &p);
    assert_eq!(&buf[..6], &[0, 0, 0, 2, 0, 0]);
    assert_eq!(read_framed_packet(&buf, MAX_PACKET_LENGTH).unwrap(), (p, 6));
}

#[test]
fn unix_packet_frame_and_typed_proto() {
    let mut buf = Vec::new();
    let p = Packet::new(terminal_packet_type::TERMINAL_USER_INFO, b"x".to_vec());
    write_packet_frame(&mut buf, &p);
    assert_eq!(read_packet_frame(&buf, 1024).unwrap(), (p, 11));

    let mut buf = Vec::new();
    write_typed_proto(&mut buf, terminal_packet_type::TERMINAL_BUFFER, b"hi");
    assert_eq!(buf[0], terminal_packet_type::TERMINAL_BUFFER);
    let (proto, _) = read_proto_frame(&buf[1..], 1024).unwrap();
    assert_eq!(proto, b"hi");
}

#[test]
fn lengths_are_judged_by_their_own_byte_order() {
    assert_eq!(proto_length(&[3, 1, 0, 0, 0, 0, 0, 0], 1024), Ok(259));
    assert_eq!(proto_length(&i64::MIN.to_le_bytes(), 1024), Err(FrameError::InvalidLength(i64::MIN)));
    assert_eq!(packet_length(&[0, 0, 1, 3], 1024), Ok(259));
    assert_eq!(
        packet_length(&[0xff, 0xff, 0xff, 0xff], MAX_PACKET_LENGTH),
        Err(FrameError::InvalidLength(0xffff_ffff))
    );
}

#[test]
fn stream_frames_that_cannot_be_read() {
    assert_eq!(read_framed_packet(&[0, 0], 10), Err(FrameError::Closed));
    assert_eq!(read_framed_packet(&[0, 0, 0, 3, 1], 10), Err(FrameError::Closed));
    assert_eq!(read_framed_packet(&[0, 0, 0, 11], 10), Err(FrameError::InvalidLength(11)));
    assert_eq!(read_framed_packet(&[0, 0, 0, 1, 7], 10), Err(FrameError::InvalidPacket));
}

#[test]
fn packets_come_out_of_a_growing_buffer_one_by_one() {
    let p = Packet::new(3, b"one".to_vec());
    let q = Packet::new(4, b"two".to_vec());
    let mut all = Vec::new();
    write_packet_frame(&mut all, &p);
    write_packet_frame(&mut all, &q);
    let mut buf = all[..10].to_vec();
    assert!(try_parse_packet_frame_from_buffer(&mut buf).is_none());
    assert_eq!(buf, all[..10]);
    buf.extend_from_slice(&all[10..]);
    assert_eq!(try_parse_packet_frame_from_buffer(&mut buf), Some(Ok(p)));
    assert_eq!(try_parse_packet_frame_from_buffer(&mut buf), Some(Ok(q)));
    assert!(buf.is_empty());
    assert!(try_parse_packet_frame_from_buffer(&mut buf).is_none());

    let mut bad = (-5i64).to_le_bytes().to_vec();
    assert_eq!(
        try_parse_packet_frame_from_buffer(&mut bad),
        Some(Err(FrameError::InvalidLength(-5)))
    );
    let mut short = 1i64.to_le_bytes().to_vec();
    short.extend_from_slice(&[9, 8]);
    assert_eq!(
        try_parse_packet_frame_from_buffer(&mut short),
        Some(Err(FrameError::InvalidPacket))
    );
    assert_eq!(short, vec![8]);
}

#[test]
fn terminal_output_has_no_frame() {
    let mut buf = vec![1];
    write_unframed(&mut buf, b"raw");
    assert_eq!(buf, b"\x01raw");
}

#[test]
fn frame_errors_in_words() {
    let eof = IoFailure { unexpected_eof: true, message: "early eof".into() };
    let other = IoFailure { unexpected_eof: false, message: "reset".into() };
    assert_eq!(FrameError::map_io(eof), FrameError::Closed);
    assert_eq!(FrameError::map_io(other.clone()), FrameError::Io(other.clone()));
    assert_eq!(FrameError::Closed.message(), "connection closed");
    assert_eq!(
        FrameError::InvalidLength(-7).message(),
        "frame of -7 bytes exceeds the allowed maximum"
    );
    assert_eq!(FrameError::InvalidPacket.message(), "truncated or malformed packet");
    assert_eq!(FrameError::Io(other).message(), "reset");
}
