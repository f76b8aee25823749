//! The two frame formats.
//!
//! - A handshake message, and everything on the local socket, goes as
//!   `[length: i64, little-endian][bytes]`.
//! - The encrypted packet stream between client and server goes as
//!   `[length: u32, big-endian][packet]`.
//!
//! Toward a terminal the server puts one byte for the packet type before a
//! frame of the first kind; what a terminal puts out comes back as raw bytes.
//!
//! The functions here work on buffers. Reading from a socket is done in two
//! steps by the caller: the length, judged by [`proto_length`] or
//! [`packet_length`], and as many bytes as it says.

use vstd::prelude::*;
use crate::crypto::counter;
use crate::packet::{Packet, PacketView};
use crate::text::{copy_text, decimal_int, decimal_int_text};
use crate::wire::{as_signed, byte_range};
use crate::DEFAULT_MAX_PROTO_LENGTH;

verus! {

/// A failed read or write: whether it was an unexpected end of input, and
/// what it was in words.
#[derive(Clone, Debug, PartialEq, Eq)]
pub struct IoFailure {
    pub unexpected_eof: bool,
    pub message: String,
}

/// Why no frame could be read or written.
#[derive(Clone, Debug, PartialEq, Eq)]
pub enum FrameError {
    /// The peer went away, between frames or inside one.
    Closed,
    InvalidLength(i64),
    InvalidPacket,
    Io(IoFailure),
}

impl FrameError {
    /// The frame error for a failed read: an unexpected end of input is a
    /// closed connection.
    pub fn map_io(err: IoFailure) -> (res: FrameError)
        ensures
            res == if err.unexpected_eof {
                FrameError::Closed
            } else {
                FrameError::Io(err)
            },
    {
        if err.unexpected_eof {
            FrameError::Closed
        } else {
            FrameError::Io(err)
        }
    }

    /// The error in words.
    pub open spec fn words(self) -> Seq<char> {
        match self {
            FrameError::Closed => "connection closed"@,
            FrameError::InvalidLength(n) => "frame of "@ + decimal_int(n as int)
                + " bytes exceeds the allowed maximum"@,
            FrameError::InvalidPacket => "truncated or malformed packet"@,
            FrameError::Io(e) => e.message@,
        }
    }

    /// The error in words.
    pub fn message(&self) -> (res: String)
        ensures
            res@ == self.words(),
    {
        match self {
            FrameError::Closed => "connection closed".to_owned(),
            FrameError::InvalidLength(n) => {
                let mut s = "frame of ".to_owned();
                s.append(decimal_int_text(*n).as_str());
                s.append(" bytes exceeds the allowed maximum");
                s
            },
            FrameError::InvalidPacket => "truncated or malformed packet".to_owned(),
            FrameError::Io(e) => copy_text(e.message.as_str()),
        }
    }
}

// ---------------------------------------------------------------------------
// Lengths
// ---------------------------------------------------------------------------

/// The low `n` bytes of `v`, least significant first.
pub open spec fn le_bytes(v: nat, n: nat) -> Seq<u8>
    decreases n,
{
    if n == 0 {
        Seq::empty()
    } else {
        seq![(v % 256) as u8] + le_bytes(v / 256, (n - 1) as nat)
    }
}

/// The low `n` bytes of `v`, most significant first.
pub open spec fn be_bytes(v: nat, n: nat) -> Seq<u8>
    decreases n,
{
    if n == 0 {
        Seq::empty()
    } else {
        be_bytes(v / 256, (n - 1) as nat).push((v % 256) as u8)
    }
}

/// The number that bytes stand for, most significant first.
pub open spec fn be_value(b: Seq<u8>) -> nat
    decreases b.len(),
{
    if b.len() == 0 {
        0
    } else {
        256 * be_value(b.drop_last()) + b.last() as nat
    }
}

proof fn lemma_le_bytes(v: nat, n: nat)
    requires
        v < crate::crypto::pow256(n),
    ensures
        le_bytes(v, n).len() == n,
        counter(le_bytes(v, n)) == v,
    decreases n,
{
    if n > 0 {
        lemma_le_bytes(v / 256, (n - 1) as nat);
        assert(le_bytes(v, n).skip(1) =~= le_bytes(v / 256, (n - 1) as nat));
    }
}

proof fn lemma_be_bytes(v: nat, n: nat)
    requires
        v < crate::crypto::pow256(n),
    ensures
        be_bytes(v, n).len() == n,
        be_value(be_bytes(v, n)) == v,
    decreases n,
{
    if n > 0 {
        lemma_be_bytes(v / 256, (n - 1) as nat);
        assert(be_bytes(v, n).drop_last() =~= be_bytes(v / 256, (n - 1) as nat));
    }
}

proof fn lemma_le_value_bound(b: Seq<u8>)
    requires
        b.len() == 8,
    ensures
        counter(b) <= u64::MAX,
{
    crate::crypto::lemma_incremented(b);
    reveal_with_fuel(crate::crypto::pow256, 9);
}

proof fn lemma_be_value_bound(b: Seq<u8>)
    ensures
        be_value(b) < crate::crypto::pow256(b.len()),
    decreases b.len(),
{
    if b.len() > 0 {
        lemma_be_value_bound(b.drop_last());
    }
}

/// The length that eight bytes announce.
pub open spec fn announced(b: Seq<u8>) -> i64 {
    as_signed(counter(b) as u64)
}

/// A length, unless it is negative or beyond the limit.
pub open spec fn judged_length(n: i64, max_len: i64) -> Result<i64, FrameError> {
    if 0 <= n <= max_len {
        Ok(n)
    } else {
        Err(FrameError::InvalidLength(n))
    }
}

/// Judges the length of a message frame: negative and overlong ones are
/// refused.
pub fn proto_length(b: &[u8], max_len: i64) -> (res: Result<i64, FrameError>)
    requires
        b@.len() == 8,
    ensures
        res == judged_length(announced(b@), max_len),
{
    let mut v: u64 = 0;
    let mut i: usize = 8;
    assert(b@.skip(8) =~= Seq::<u8>::empty());
    proof {
        lemma_le_value_bound(b@);
    }
    while i > 0
        invariant
            i <= 8,
            b@.len() == 8,
            v == counter(b@.skip(i as int)),
            counter(b@) <= u64::MAX,
        decreases i,
    {
        assert(b@.skip(i - 1).skip(1) =~= b@.skip(i as int));
        proof {
            lemma_suffix_counter(b@, i - 1);
        }
        v = b[i - 1] as u64 + 256 * v;
        i -= 1;
    }
    assert(b@.skip(0) =~= b@);
    let n: i64 = if v < 0x8000_0000_0000_0000 {
        v as i64
    } else {
        (v as i128 - 0x1_0000_0000_0000_0000) as i64
    };
    if n < 0 || n > max_len {
        Err(FrameError::InvalidLength(n))
    } else {
        Ok(n)
    }
}

proof fn lemma_suffix_counter(b: Seq<u8>, i: int)
    requires
        0 <= i <= b.len(),
    ensures
        counter(b.skip(i)) <= counter(b),
    decreases i,
{
    if i == 0 {
        assert(b.skip(0) =~= b);
    } else {
        lemma_suffix_counter(b, i - 1);
        assert(b.skip(i - 1).skip(1) =~= b.skip(i));
    }
}

/// Judges the length of a packet frame.
pub fn packet_length(b: &[u8], max_len: usize) -> (res: Result<u32, FrameError>)
    requires
        b@.len() == 4,
    ensures
        res == if be_value(b@) <= max_len {
            Ok::<u32, FrameError>(be_value(b@) as u32)
        } else {
            Err(FrameError::InvalidLength(be_value(b@) as i64))
        },
{
    proof {
        reveal_with_fuel(be_value, 5);
        assert(b@.drop_last() =~= seq![b@[0], b@[1], b@[2]]);
        assert(b@.drop_last().drop_last() =~= seq![b@[0], b@[1]]);
        assert(b@.drop_last().drop_last().drop_last() =~= seq![b@[0]]);
        assert(b@.drop_last().drop_last().drop_last().drop_last() =~= Seq::<u8>::empty());
    }
    let v: u32 = ((b[0] as u32 * 256 + b[1] as u32) * 256 + b[2] as u32) * 256 + b[3] as u32;
    if v as u64 > max_len as u64 {
        Err(FrameError::InvalidLength(v as i64))
    } else {
        Ok(v)
    }
}

// ---------------------------------------------------------------------------
// Message frames
// ---------------------------------------------------------------------------

/// A message frame: the length, then the bytes.
pub open spec fn proto_frame(bytes: Seq<u8>) -> Seq<u8> {
    le_bytes(bytes.len(), 8) + bytes
}

/// A routing frame: the packet type, then a message frame.
pub open spec fn typed_frame(packet_type: u8, bytes: Seq<u8>) -> Seq<u8> {
    seq![packet_type] + proto_frame(bytes)
}

/// What a buffer that starts with a message frame yields: the bytes, or why
/// there is none.
pub open spec fn proto_frame_in(b: Seq<u8>, max_len: i64) -> Result<Seq<u8>, FrameError> {
    if b.len() < 8 {
        Err(FrameError::Closed)
    } else {
        match judged_length(announced(b.take(8)), max_len) {
            Err(e) => Err(e),
            Ok(n) => if b.len() < 8 + n {
                Err(FrameError::Closed)
            } else {
                Ok(b.subrange(8, 8 + n))
            },
        }
    }
}

/// Reading a message frame gives back the bytes that were written, whatever
/// follows, as long as they are within the limit, and leaves what follows.
pub proof fn law_proto_frame_round_trip(bytes: Seq<u8>, rest: Seq<u8>, max_len: i64)
    requires
        bytes.len() <= max_len,
    ensures
        proto_frame_in(proto_frame(bytes) + rest, max_len) == Ok::<Seq<u8>, FrameError>(bytes),
        announced((proto_frame(bytes) + rest).take(8)) == bytes.len(),
        (proto_frame(bytes) + rest).skip(8 + bytes.len() as int) == rest,
{
    reveal_with_fuel(crate::crypto::pow256, 9);
    lemma_le_bytes(bytes.len(), 8);
    let b = proto_frame(bytes) + rest;
    assert(b.take(8) =~= le_bytes(bytes.len(), 8));
    assert(b.subrange(8, 8 + bytes.len() as int) =~= bytes);
    assert(b.skip(8 + bytes.len() as int) =~= rest);
}

/// A message frame beyond the limit is refused with its own length, whatever
/// follows.
pub proof fn law_long_frame_is_refused(bytes: Seq<u8>, rest: Seq<u8>, max_len: i64)
    requires
        0 <= max_len < bytes.len() <= i64::MAX,
    ensures
        proto_frame_in(proto_frame(bytes) + rest, max_len) == Err::<Seq<u8>, FrameError>(
            FrameError::InvalidLength(bytes.len() as i64),
        ),
{
    law_proto_frame_round_trip(bytes, rest, i64::MAX);
}

/// A message frame within the limit that is cut short, be it by one byte, reads
/// as a closed connection.
pub proof fn law_cut_frame_is_closed(bytes: Seq<u8>, n: int, max_len: i64)
    requires
        bytes.len() <= max_len,
        0 <= n < 8 + bytes.len(),
    ensures
        proto_frame(bytes).len() == 8 + bytes.len(),
        proto_frame_in(proto_frame(bytes).take(n), max_len) == Err::<Seq<u8>, FrameError>(
            FrameError::Closed,
        ),
{
    reveal_with_fuel(crate::crypto::pow256, 9);
    lemma_le_bytes(bytes.len(), 8);
    law_proto_frame_round_trip(bytes, Seq::empty(), max_len);
    let f = proto_frame(bytes);
    assert(f + Seq::<u8>::empty() =~= f);
    if n >= 8 {
        assert(f.take(n).take(8) =~= f.take(8));
    }
}

/// Appends eight bytes for a length.
fn push_le64(out: &mut Vec<u8>, v: u64)
    ensures
        final(out)@ == old(out)@ + le_bytes(v as nat, 8),
{
    let ghost start = out@;
    let mut rest: u64 = v;
    let mut i: u8 = 0;
    assert(start + le_bytes(v as nat, 8) =~= out@ + le_bytes(rest as nat, 8));
    while i < 8
        invariant
            i <= 8,
            start + le_bytes(v as nat, 8) == out@ + le_bytes(rest as nat, (8 - i) as nat),
        decreases 8 - i,
    {
        let ghost before = out@;
        let ghost tail = le_bytes(rest as nat, (8 - i) as nat);
        out.push((rest % 256) as u8);
        rest = rest / 256;
        i += 1;
        assert(out@ + le_bytes(rest as nat, (8 - i) as nat) =~= before + tail);
    }
    assert(out@ =~= start + le_bytes(v as nat, 8));
}

/// Appends a message frame.
pub fn write_proto_frame(out: &mut Vec<u8>, bytes: &[u8])
    ensures
        final(out)@ == old(out)@ + proto_frame(bytes@),
{
    let ghost start = out@;
    push_le64(out, bytes.len() as u64);
    out.extend_from_slice(bytes);
    assert(out@ =~= start + proto_frame(bytes@));
}

/// Reads the message frame that a buffer starts with: its bytes, and how many
/// bytes the frame takes.
pub fn read_proto_frame(b: &[u8], max_len: i64) -> (res: Result<(Vec<u8>, usize), FrameError>)
    ensures
        match res {
            Ok((v, n)) => proto_frame_in(b@, max_len) == Ok::<Seq<u8>, FrameError>(v@) && n == 8
                + v@.len() && n <= b@.len(),
            Err(e) => proto_frame_in(b@, max_len) == Err::<Seq<u8>, FrameError>(e),
        },
{
    if b.len() < 8 {
        return Err(FrameError::Closed);
    }
    let head = byte_range(b, 0, 8);
    assert(head@ =~= b@.take(8));
    match proto_length(head.as_slice(), max_len) {
        Err(e) => Err(e),
        Ok(n) => {
            if ((b.len() - 8) as u64) < n as u64 {
                return Err(FrameError::Closed);
            }
            let end: usize = 8 + n as usize;
            Ok((byte_range(b, 8, end), end))
        },
    }
}

/// Appends a routing frame.
pub fn write_typed_proto(out: &mut Vec<u8>, packet_type: u8, bytes: &[u8])
    ensures
        final(out)@ == old(out)@ + typed_frame(packet_type, bytes@),
{
    let ghost start = out@;
    out.push(packet_type);
    write_proto_frame(out, bytes);
    assert(out@ =~= start + typed_frame(packet_type, bytes@));
}

/// Appends bytes as they are: what a terminal puts out has no frame.
pub fn write_unframed(out: &mut Vec<u8>, bytes: &[u8])
    ensures
        final(out)@ == old(out)@ + bytes@,
{
    out.extend_from_slice(bytes);
}

/// Appends a packet as a message frame.
pub fn write_packet_frame(out: &mut Vec<u8>, packet: &Packet)
    ensures
        final(out)@ == old(out)@ + proto_frame(packet@.bytes()),
{
    let bytes = packet.serialize();
    write_proto_frame(out, bytes.as_slice());
}

/// What a buffer that starts with a packet in a message frame yields.
pub open spec fn packet_frame_in(b: Seq<u8>, max_len: i64) -> Result<PacketView, FrameError> {
    match proto_frame_in(b, max_len) {
        Err(e) => Err(e),
        Ok(body) => match PacketView::parse(body) {
            Some(p) => Ok(p),
            None => Err(FrameError::InvalidPacket),
        },
    }
}

/// Reads the packet in the message frame that a buffer starts with, and how
/// many bytes it takes.
pub fn read_packet_frame(b: &[u8], max_len: i64) -> (res: Result<(Packet, usize), FrameError>)
    ensures
        match res {
            Ok((p, n)) => packet_frame_in(b@, max_len) == Ok::<PacketView, FrameError>(p@) && n == 8
                + announced(b@.take(8)) && n <= b@.len(),
            Err(e) => packet_frame_in(b@, max_len) == Err::<PacketView, FrameError>(e),
        },
{
    match read_proto_frame(b, max_len) {
        Err(e) => Err(e),
        Ok((body, n)) => match Packet::parse(body.as_slice()) {
            Some(p) => Ok((p, n)),
            None => Err(FrameError::InvalidPacket),
        },
    }
}

/// Whether what has arrived goes from `before` to `after` when the next packet
/// in a message frame is taken out of it. `None` says that the frame is not
/// complete; a refused length leaves the buffer as it is, a frame that is no
/// packet is taken out.
pub open spec fn takes_packet(
    before: Seq<u8>,
    after: Seq<u8>,
    res: Option<Result<Packet, FrameError>>,
) -> bool {
    match packet_frame_in(before, DEFAULT_MAX_PROTO_LENGTH) {
        Ok(p) => {
            &&& res matches Some(Ok(q)) && q@ == p
            &&& after == before.skip(8 + announced(before.take(8)))
        },
        Err(FrameError::Closed) => res is None && after == before,
        Err(FrameError::InvalidPacket) => {
            &&& res == Some(Err::<Packet, FrameError>(FrameError::InvalidPacket))
            &&& after == before.skip(8 + announced(before.take(8)))
        },
        Err(e) => res == Some(Err::<Packet, FrameError>(e)) && after == before,
    }
}

/// Takes the next packet in a message frame out of what has arrived so far.
pub fn try_parse_packet_frame_from_buffer(buf: &mut Vec<u8>) -> (res: Option<
    Result<Packet, FrameError>,
>)
    ensures
        takes_packet(old(buf)@, final(buf)@, res),
{
    match read_proto_frame(buf.as_slice(), DEFAULT_MAX_PROTO_LENGTH) {
        Err(FrameError::Closed) => None,
        Err(e) => Some(Err(e)),
        Ok((body, n)) => {
            let rest = byte_range(buf.as_slice(), n, buf.len());
            assert(rest@ =~= buf@.skip(n as int));
            *buf = rest;
            match Packet::parse(body.as_slice()) {
                Some(p) => Some(Ok(p)),
                None => Some(Err(FrameError::InvalidPacket)),
            }
        },
    }
}

// ---------------------------------------------------------------------------
// Packet stream frames
// ---------------------------------------------------------------------------

/// A frame of the packet stream: the length, then the bytes of the packet.
pub open spec fn stream_frame(bytes: Seq<u8>) -> Seq<u8> {
    be_bytes(bytes.len(), 4) + bytes
}

/// What a buffer that starts with a frame of the packet stream yields.
pub open spec fn stream_frame_in(b: Seq<u8>, max_len: usize) -> Result<PacketView, FrameError> {
    if b.len() < 4 {
        Err(FrameError::Closed)
    } else {
        let n = be_value(b.take(4));
        if n > max_len {
            Err(FrameError::InvalidLength(n as i64))
        } else if b.len() < 4 + n {
            Err(FrameError::Closed)
        } else {
            match PacketView::parse(b.subrange(4, 4 + n as int)) {
                Some(p) => Ok(p),
                None => Err(FrameError::InvalidPacket),
            }
        }
    }
}

/// Reading a frame of the packet stream gives back the packet that was
/// written, whatever follows, as long as it is within the limit.
pub proof fn law_stream_frame_round_trip(p: PacketView, rest: Seq<u8>, max_len: usize)
    requires
        p.bytes().len() <= max_len,
        p.bytes().len() <= u32::MAX,
    ensures
        stream_frame_in(stream_frame(p.bytes()) + rest, max_len) == Ok::<PacketView, FrameError>(p),
{
    reveal_with_fuel(crate::crypto::pow256, 5);
    lemma_be_bytes(p.bytes().len(), 4);
    let b = stream_frame(p.bytes()) + rest;
    assert(b.take(4) =~= be_bytes(p.bytes().len(), 4));
    assert(b.subrange(4, 4 + p.bytes().len() as int) =~= p.bytes());
    crate::packet::law_packet_round_trip(p);
}

/// A frame of the packet stream beyond the limit is refused with its own
/// length, and one within it that is cut short reads as a closed connection.
pub proof fn law_stream_frame_limits(p: PacketView, rest: Seq<u8>, n: int, max_len: usize)
    requires
        p.bytes().len() <= u32::MAX,
        0 <= n < 4 + p.bytes().len(),
    ensures
        p.bytes().len() > max_len ==> stream_frame_in(stream_frame(p.bytes()) + rest, max_len)
            == Err::<PacketView, FrameError>(FrameError::InvalidLength(p.bytes().len() as i64)),
        p.bytes().len() <= max_len ==> stream_frame_in(stream_frame(p.bytes()).take(n), max_len)
            == Err::<PacketView, FrameError>(FrameError::Closed),
{
    reveal_with_fuel(crate::crypto::pow256, 5);
    lemma_be_bytes(p.bytes().len(), 4);
    let f = stream_frame(p.bytes());
    assert((f + rest).take(4) =~= be_bytes(p.bytes().len(), 4));
    if n >= 4 {
        assert(f.take(n).take(4) =~= be_bytes(p.bytes().len(), 4));
    }
}

/// Appends bytes as a frame of the packet stream.
pub fn write_stream_frame(out: &mut Vec<u8>, bytes: &[u8])
    requires
        bytes@.len() <= u32::MAX,
    ensures
        final(out)@ == old(out)@ + stream_frame(bytes@),
{
    let ghost start = out@;
    let n: u32 = bytes.len() as u32;
    out.push((n / 0x100_0000) as u8);
    out.push((n / 0x1_0000 % 0x100) as u8);
    out.push((n / 0x100 % 0x100) as u8);
    out.push((n % 0x100) as u8);
    proof {
        reveal_with_fuel(be_bytes, 5);
        assert(n as int / 256 / 256 / 256 == n as int / 0x100_0000);
        assert(n as int / 256 / 256 == n as int / 0x1_0000);
        assert(out@ =~= start + be_bytes(n as nat, 4));
    }
    out.extend_from_slice(bytes);
    assert(out@ =~= start + stream_frame(bytes@));
}

/// Appends a packet as a frame of the packet stream.
pub fn write_framed_packet(out: &mut Vec<u8>, packet: &Packet)
    requires
        packet@.payload.len() + 2 <= u32::MAX,
    ensures
        final(out)@ == old(out)@ + stream_frame(packet@.bytes()),
{
    let bytes = packet.serialize();
    write_stream_frame(out, bytes.as_slice());
}

/// Reads the packet in the frame that a buffer starts with, and how many
/// bytes it takes.
pub fn read_framed_packet(b: &[u8], max_len: usize) -> (res: Result<(Packet, usize), FrameError>)
    ensures
        match res {
            Ok((p, n)) => stream_frame_in(b@, max_len) == Ok::<PacketView, FrameError>(p@) && n == 4
                + be_value(b@.take(4)) && n <= b@.len(),
            Err(e) => stream_frame_in(b@, max_len) == Err::<PacketView, FrameError>(e),
        },
{
    if b.len() < 4 {
        return Err(FrameError::Closed);
    }
    let head = byte_range(b, 0, 4);
    assert(head@ =~= b@.take(4));
    proof {
        lemma_be_value_bound(head@);
        reveal_with_fuel(crate::crypto::pow256, 5);
    }
    match packet_length(head.as_slice(), max_len) {
        Err(e) => Err(e),
        Ok(n) => {
            if ((b.len() - 4) as u64) < n as u64 {
                return Err(FrameError::Closed);
            }
            let end: usize = 4 + n as usize;
            let body = byte_range(b, 4, end);
            match Packet::parse(body.as_slice()) {
                Some(p) => Ok((p, end)),
                None => Err(FrameError::InvalidPacket),
            }
        },
    }
}

/// The bytes of a message frame: eight for the length, least significant first,
/// and then those of the message.
pub proof fn law_message_frame_layout(bytes: Seq<u8>, packet_type: u8)
    ensures
        ({
            let f = proto_frame(bytes);
            let n = bytes.len() as int;
            &&& f.len() == 8 + n
            &&& f[0] == n % 256
            &&& f[1] == n / 0x100 % 256
            &&& f[2] == n / 0x1_0000 % 256
            &&& f[3] == n / 0x100_0000 % 256
            &&& f[4] == n / 0x1_0000_0000 % 256
            &&& f[5] == n / 0x100_0000_0000 % 256
            &&& f[6] == n / 0x1_0000_0000_0000 % 256
            &&& f[7] == n / 0x100_0000_0000_0000 % 256
            &&& f.skip(8) == bytes
            &&& typed_frame(packet_type, bytes)[0] == packet_type
            &&& typed_frame(packet_type, bytes).skip(1) == f
        }),
{
    reveal_with_fuel(le_bytes, 9);
    let n = bytes.len() as int;
    let f = proto_frame(bytes);
    assert(n / 256 == n / 0x100);
    assert(n / 0x100 / 256 == n / 0x1_0000);
    assert(n / 0x1_0000 / 256 == n / 0x100_0000);
    assert(n / 0x100_0000 / 256 == n / 0x1_0000_0000);
    assert(n / 0x1_0000_0000 / 256 == n / 0x100_0000_0000);
    assert(n / 0x100_0000_0000 / 256 == n / 0x1_0000_0000_0000);
    assert(n / 0x1_0000_0000_0000 / 256 == n / 0x100_0000_0000_0000);
    assert(le_bytes(bytes.len(), 8).len() == 8);
    assert(f.skip(8) =~= bytes);
    assert(typed_frame(packet_type, bytes).skip(1) =~= f);
}

/// The bytes of a frame of the packet stream: four for the length, most
/// significant first, and then those of the packet, which are a flag that says
/// whether it is encrypted, its header and its payload.
pub proof fn law_stream_frame_layout(p: PacketView)
    ensures
        ({
            let f = stream_frame(p.bytes());
            let n = p.payload.len() + 2;
            &&& f.len() == 4 + n
            &&& f[0] == n / 0x100_0000 % 256
            &&& f[1] == n / 0x1_0000 % 256
            &&& f[2] == n / 0x100 % 256
            &&& f[3] == n % 256
            &&& f[4] == if p.encrypted {
                1int
            } else {
                0
            }
            &&& f[5] == p.header
            &&& f.skip(6) == p.payload
        }),
{
    reveal_with_fuel(be_bytes, 5);
    let n = p.payload.len() as int + 2;
    assert(p.bytes().len() == n);
    assert(n / 256 / 256 == n / 0x1_0000);
    assert(n / 256 / 256 / 256 == n / 0x100_0000);
    assert(be_bytes(p.bytes().len(), 4).len() == 4);
    let f = stream_frame(p.bytes());
    assert(f.skip(6) =~= p.payload);
}

/// Frames follow each other without a gap: what stands after the first one is
/// read as if it stood alone.
pub proof fn law_frames_follow(a: Seq<u8>, b: Seq<u8>, rest: Seq<u8>, max_len: i64)
    requires
        a.len() <= max_len,
        b.len() <= max_len,
    ensures
        ({
            let all = proto_frame(a) + (proto_frame(b) + rest);
            let used = 8 + announced(all.take(8));
            &&& proto_frame_in(all, max_len) == Ok::<Seq<u8>, FrameError>(a)
            &&& proto_frame_in(all.skip(used), max_len) == Ok::<Seq<u8>, FrameError>(b)
        }),
{
    law_proto_frame_round_trip(a, proto_frame(b) + rest, max_len);
    law_proto_frame_round_trip(b, rest, max_len);
}

/// A length below zero is refused, whatever the limit.
pub proof fn law_negative_length_is_refused(b: Seq<u8>, max_len: i64)
    requires
        b.len() >= 8,
        b[7] >= 0x80,
    ensures
        proto_frame_in(b, max_len) matches Err(FrameError::InvalidLength(n)) && n < 0,
{
    let h = b.take(8);
    reveal_with_fuel(counter, 9);
    lemma_le_value_bound(h);
    let h1 = h.skip(1);
    let h2 = h1.skip(1);
    let h3 = h2.skip(1);
    let h4 = h3.skip(1);
    let h5 = h4.skip(1);
    let h6 = h5.skip(1);
    let h7 = h6.skip(1);
    assert(h7[0] == b[7]);
    assert(counter(h7) >= 0x80);
    assert(counter(h) >= 0x80 * 0x100_0000_0000_0000);
}

/// Packets are taken out of what has arrived one by one: a complete one leaves
/// what follows it, a cut one leaves everything, and a frame too short for a
/// packet is taken out and told.
pub proof fn law_packets_are_taken_out(
    p: PacketView,
    rest: Seq<u8>,
    cut: int,
    before: Seq<u8>,
    after: Seq<u8>,
    res: Option<Result<Packet, FrameError>>,
    short: Seq<u8>,
)
    requires
        p.bytes().len() <= DEFAULT_MAX_PROTO_LENGTH,
        0 <= cut < proto_frame(p.bytes()).len(),
        short.len() < 2,
        takes_packet(before, after, res),
    ensures
        before == proto_frame(p.bytes()) + rest ==> after == rest && (res matches Some(Ok(q)) && q@
            == p),
        before == proto_frame(p.bytes()).take(cut) ==> after == before && res is None,
        before == proto_frame(short) + rest ==> after == rest && res == Some(
            Err::<Packet, FrameError>(FrameError::InvalidPacket),
        ),
{
    law_proto_frame_round_trip(p.bytes(), rest, DEFAULT_MAX_PROTO_LENGTH);
    law_proto_frame_round_trip(short, rest, DEFAULT_MAX_PROTO_LENGTH);
    law_cut_frame_is_closed(p.bytes(), cut, DEFAULT_MAX_PROTO_LENGTH);
    crate::packet::law_packet_round_trip(p);
}

} // verus!
