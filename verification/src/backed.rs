//! The resumable packet connection that both peers run.
//!
//! - The nonces belong to the session, not to a socket.
//! - What is kept for a reconnect is the serialized ciphertext of the newest
//!   packets. A reconnect resends those bytes as they are.
//! - Both peers run the same exchange on a fresh socket: each says how many
//!   packets it has received and handed out, and answers with the packets that
//!   the other has yet to hand out.
//! - While there is no socket, writes are kept up to
//!   [`DISCONNECT_BUFFER_BYTES`]; a write beyond that is skipped.
//! - The kept packets are trimmed only while there is a socket: what was
//!   written without one must survive until the reconnect.
//!
//! [`BackedState`] holds the state of one connection. The owner feeds it what
//! arrives and the time, in nanoseconds since some fixed moment, and sends
//! what it hands out.

use vstd::prelude::*;
use std::collections::VecDeque;
use crate::crypto::{
    incremented, nonce_at, secretbox_open, secretbox_seal, wipe_key, CryptoHandler, MAC_BYTES,
};
use crate::fault::{fault, DecodeError, Shape};
use crate::framing::{proto_frame, stream_frame, write_proto_frame, write_stream_frame};
use crate::messages::{CatchupBuffer, CatchupBufferView, SequenceHeader, SequenceHeaderView};
use crate::packet::{clear_packet, Packet, PacketView};
use crate::terminal_packet_type::KEEP_ALIVE;
use crate::text::{copy_bytes, decimal, decimal_int, decimal_int_text, joined, push_decimal};
use crate::wire::{blobs, low_i32};

verus! {

/// How many bytes of packets are kept while there is a socket.
pub const MAX_BACKUP_BYTES: i64 = 64 * 1024 * 1024;

/// How many bytes may be written while there is no socket.
pub const DISCONNECT_BUFFER_BYTES: i64 = 64 * 1024 * 1024;

/// How long each step of the recover exchange may take, in nanoseconds.
pub const RECOVER_STEP_IDLE: u64 = 10_000_000_000;

/// How long the whole recover exchange may take, in nanoseconds.
pub const RECOVER_ABSOLUTE: u64 = 60_000_000_000;

/// How many bytes one step of the recover exchange moves.
pub const RECOVER_IO_CHUNK: usize = 64 * 1024;

/// How many packets a connection can count.
pub const MAX_PACKETS: i64 = 0x7fff_ffff_0000_0000;

/// Why a write was not taken.
#[derive(Debug, Clone, Copy, PartialEq, Eq, Structural)]
pub enum WriteError {
    Skipped,
    Shutdown,
}

impl WriteError {
    /// The error in words.
    pub fn message(&self) -> (res: &'static str)
        ensures
            res@ == match self {
                WriteError::Skipped => "disconnect buffer full, packet skipped"@,
                WriteError::Shutdown => "session is shutting down"@,
            },
    {
        match self {
            WriteError::Skipped => "disconnect buffer full, packet skipped",
            WriteError::Shutdown => "session is shutting down",
        }
    }
}

/// Why a connection ended.
#[derive(Debug, Clone, Copy, PartialEq, Eq, Structural)]
pub enum DeadReason {
    /// It was shut down.
    Shutdown,
    /// What arrived could not be authenticated; the stream cannot be resumed.
    CryptoMismatch,
}

/// What a connection tells its owner.
#[derive(Debug, Clone, PartialEq, Eq)]
pub enum BackedEvent {
    /// A decrypted packet, in order.
    Packet(Packet),
    /// The socket was lost. Writes are kept; the owner decides whether to
    /// reconnect.
    SocketDown,
    /// The last event.
    Dead(DeadReason),
}

/// Why a recover exchange failed.
#[derive(Debug, Clone, Copy, PartialEq, Eq, Structural)]
pub enum RecoverError {
    BadSequenceHeader(DecodeError),
    /// The peer counts more packets than were ever sent.
    PeerAhead,
    TooFarBehind { needed: i64, backed_up: usize },
    BadCatchup(DecodeError),
}

impl RecoverError {
    /// The error in words.
    pub fn message(&self) -> (res: String)
        ensures
            res@ == match self {
                RecoverError::BadSequenceHeader(e) => "bad SequenceHeader: "@ + e.words(),
                RecoverError::PeerAhead => "peer claims more of our packets than we ever sent"@,
                RecoverError::TooFarBehind { needed, backed_up } =>
                    "peer is too far behind: needs "@ + decimal_int(*needed as int) + ", "@
                    + decimal(*backed_up as nat) + " backed up"@,
                RecoverError::BadCatchup(e) => "bad CatchupBuffer: "@ + e.words(),
            },
    {
        match self {
            RecoverError::BadSequenceHeader(e) => {
                joined("bad SequenceHeader: ", e.message().as_str())
            },
            RecoverError::PeerAhead => {
                "peer claims more of our packets than we ever sent".to_owned()
            },
            RecoverError::TooFarBehind { needed, backed_up } => {
                let mut s = "peer is too far behind: needs ".to_owned();
                s.append(decimal_int_text(*needed).as_str());
                s.append(", ");
                push_decimal(&mut s, *backed_up as u64);
                s.append(" backed up");
                s
            },
            RecoverError::BadCatchup(e) => joined("bad CatchupBuffer: ", e.message().as_str()),
        }
    }
}

/// Key, nonce directions, and how often to probe an idle peer.
#[derive(Clone)]
pub struct BackedConfig {
    pub key: [u8; 32],
    pub reader_msb: u8,
    pub writer_msb: u8,
    /// Nanoseconds of silence before a probe; the server does not probe.
    pub keepalive: Option<u64>,
}

impl BackedConfig {
    /// Overwrites the key with zeros.
    pub fn wipe(&mut self)
        ensures
            forall|i: int| 0 <= i < 32 ==> final(self).key@[i] == 0,
            final(self).reader_msb == old(self).reader_msb,
            final(self).writer_msb == old(self).writer_msb,
            final(self).keepalive == old(self).keepalive,
        opens_invariants none
        no_unwind
    {
        wipe_key(&mut self.key);
    }
}

/// A configuration does not leave its key behind.
impl Drop for BackedConfig {
    fn drop(&mut self)
        opens_invariants none
        no_unwind
    {
        self.wipe();
    }
}

// ---------------------------------------------------------------------------
// The model
// ---------------------------------------------------------------------------

/// A packet that was written: what it says, and the bytes that carry it.
pub struct Sent {
    pub header: u8,
    pub payload: Seq<u8>,
    pub bytes: Seq<u8>,
}

/// What a connection holds.
#[verifier::ext_equal]
pub struct BackedView {
    /// The key of both directions.
    pub key: Seq<u8>,
    /// The direction written.
    pub writer_msb: u8,
    /// The direction read.
    pub reader_msb: u8,
    /// The probing period.
    pub keepalive: Option<u64>,
    /// Every packet written so far.
    pub sent: Seq<Sent>,
    /// How many of the newest of them are kept.
    pub kept: nat,
    /// How many packets were received and handed out.
    pub received: nat,
    /// The nonce of the last packet read.
    pub reader_nonce: Seq<u8>,
    /// Packets that arrived and were not yet handed out.
    pub inbox: Seq<Seq<u8>>,
    /// Whether there is a socket.
    pub live: bool,
    /// Bytes written since the socket was lost.
    pub offline: Option<int>,
    /// Whether the loss of a socket is still to be told.
    pub down_pending: bool,
    /// Whether a probe waits for its echo.
    pub awaiting_echo: bool,
    /// When something was last sent or received.
    pub last_activity: u64,
    /// Whether the connection is at its end.
    pub stopping: bool,
    /// Whether the end was told.
    pub end_told: bool,
    /// Whether arrived packets are being handed out.
    pub draining: bool,
}

/// The bytes of the packets of a list.
pub open spec fn bytes_of(s: Seq<Sent>) -> Seq<Seq<u8>> {
    s.map_values(|x: Sent| x.bytes)
}

/// The newest `n` of a list.
pub open spec fn newest(s: Seq<Sent>, n: nat) -> Seq<Sent> {
    s.skip(s.len() - n)
}

/// The number of bytes in a list of byte strings.
pub open spec fn total(s: Seq<Seq<u8>>) -> nat
    decreases s.len(),
{
    if s.len() == 0 {
        0
    } else {
        s[0].len() + total(s.skip(1))
    }
}

/// How many bytes are kept.
pub open spec fn kept_bytes(v: BackedView) -> nat {
    total(bytes_of(newest(v.sent, v.kept)))
}

/// How many of the newest `n` packets fit into [`MAX_BACKUP_BYTES`].
pub open spec fn trimmed(s: Seq<Sent>, n: nat) -> nat
    decreases n,
{
    if n > 0 && total(bytes_of(newest(s, n))) > MAX_BACKUP_BYTES {
        trimmed(s, (n - 1) as nat)
    } else {
        n
    }
}

/// The bytes of an encrypted packet.
pub open spec fn sealed_bytes(header: u8, ciphertext: Seq<u8>) -> Seq<u8> {
    PacketView { encrypted: true, header, payload: ciphertext }.bytes()
}

/// Packet number `i` of a direction carries its message under nonce `i + 1`,
/// and opens to it.
pub open spec fn well_sealed(key: Seq<u8>, msb: u8, i: nat, s: Sent) -> bool {
    let c = secretbox_seal(key, nonce_at(msb, i + 1), s.payload);
    &&& s.bytes == sealed_bytes(s.header, c)
    &&& c.len() == s.payload.len() + MAC_BYTES
    &&& secretbox_open(key, nonce_at(msb, i + 1), c) == Some(s.payload)
}

/// Whether a payload is short enough for a frame.
pub open spec fn frameable(len: nat) -> bool {
    len + 18 <= u32::MAX && len + 18 <= isize::MAX
}

/// Whether the counters can take one more packet with `len` bytes of payload.
pub open spec fn room_for(v: BackedView, len: nat) -> bool {
    &&& frameable(len)
    &&& v.sent.len() < MAX_PACKETS
    &&& kept_bytes(v) + len + 18 <= i64::MAX
}

/// What a reader makes of the bytes of one packet when its nonce stands at
/// `nonce`: a packet that does not parse, claims to be in clear, is too short
/// or does not open yields nothing.
pub open spec fn opened(key: Seq<u8>, nonce: Seq<u8>, bytes: Seq<u8>) -> Option<PacketView> {
    match PacketView::parse(bytes) {
        None => None,
        Some(p) => if !p.encrypted || p.payload.len() < MAC_BYTES {
            None
        } else {
            match secretbox_open(key, incremented(nonce), p.payload) {
                None => None,
                Some(m) => Some(clear_packet(p.header, m)),
            }
        },
    }
}

/// The nonce of a reader after it refused the bytes of a packet: only the
/// attempt to open a ciphertext moves it.
pub open spec fn nonce_after_refusal(nonce: Seq<u8>, bytes: Seq<u8>) -> Seq<u8> {
    match PacketView::parse(bytes) {
        None => nonce,
        Some(p) => if !p.encrypted || p.payload.len() < MAC_BYTES {
            nonce
        } else {
            incremented(nonce)
        },
    }
}

/// What a reader makes of packets one after the other.
pub open spec fn opened_all(key: Seq<u8>, nonce: Seq<u8>, packets: Seq<Seq<u8>>) -> Option<
    Seq<PacketView>,
>
    decreases packets.len(),
{
    if packets.len() == 0 {
        Some(Seq::empty())
    } else {
        match (
            opened(key, nonce, packets[0]),
            opened_all(key, incremented(nonce), packets.skip(1)),
        ) {
            (Some(p), Some(rest)) => Some(seq![p] + rest),
            _ => None,
        }
    }
}

impl BackedView {
    /// What holds of every connection.
    pub open spec fn valid(self) -> bool {
        &&& self.kept <= self.sent.len() <= MAX_PACKETS
        &&& forall|i: int|
            0 <= i < self.sent.len() ==> #[trigger] well_sealed(
                self.key,
                self.writer_msb,
                i as nat,
                self.sent[i],
            )
        &&& self.live <==> self.offline is None
        &&& self.offline matches Some(b) ==> 0 <= b <= u32::MAX && self.within_budget(b)
        &&& self.end_told ==> self.stopping
        &&& !self.end_told ==> self.reader_nonce == nonce_at(self.reader_msb, self.received)
    }

    /// Whether `b` bytes can have been written without a socket: those of the
    /// packets that fit, or those of the one packet that cost the socket.
    pub open spec fn within_budget(self, b: int) -> bool {
        ||| b <= DISCONNECT_BUFFER_BYTES + 2 + MAC_BYTES
        ||| self.sent.len() > 0 && b == self.sent.last().bytes.len()
    }

    /// A connection that starts at time `now`, over its first socket.
    pub open spec fn fresh(
        key: Seq<u8>,
        writer_msb: u8,
        reader_msb: u8,
        keepalive: Option<u64>,
        now: u64,
    ) -> BackedView {
        BackedView {
            key,
            writer_msb,
            reader_msb,
            keepalive,
            sent: Seq::empty(),
            kept: 0,
            received: 0,
            reader_nonce: nonce_at(reader_msb, 0),
            inbox: Seq::empty(),
            live: true,
            offline: None,
            down_pending: false,
            awaiting_echo: false,
            last_activity: now,
            stopping: false,
            end_told: false,
            draining: false,
        }
    }

    /// The connection once its owner has ended it.
    pub open spec fn stopped(self) -> BackedView {
        BackedView { stopping: true, ..self }
    }

    /// The connection once its socket is gone.
    pub open spec fn without_socket(self) -> BackedView {
        BackedView {
            live: false,
            down_pending: self.down_pending || self.live,
            awaiting_echo: false,
            offline: match self.offline {
                Some(b) => Some(b),
                None => Some(0),
            },
            ..self
        }
    }

    /// The connection after the socket did not take the last packet: it is given
    /// up, and the packet counts as written without one.
    pub open spec fn refused(self) -> BackedView {
        BackedView {
            offline: Some(self.sent.last().bytes.len() as int),
            ..self.without_socket()
        }
    }

    /// Whether a write is skipped: there is no socket, and too much was
    /// written since.
    pub open spec fn skips(self, len: nat) -> bool {
        self.offline matches Some(b) && b + len > DISCONNECT_BUFFER_BYTES
    }

    /// The connection after a packet was written at time `now`: the packet is
    /// kept; with a socket the oldest kept packets go until the rest fit,
    /// without one nothing goes and the bytes count.
    pub open spec fn with_sent(self, s: Sent, now: u64) -> BackedView {
        let sent = self.sent.push(s);
        if self.live {
            BackedView { sent, kept: trimmed(sent, self.kept + 1), last_activity: now, ..self }
        } else {
            BackedView {
                sent,
                kept: self.kept + 1,
                offline: match self.offline {
                    Some(b) => Some(b + s.bytes.len()),
                    None => Some(s.bytes.len() as int),
                },
                ..self
            }
        }
    }

    /// The connection after bytes of a packet arrived.
    pub open spec fn with_received(self, bytes: Seq<u8>) -> BackedView {
        BackedView { inbox: self.inbox.push(bytes), ..self }
    }

    /// The connection after the first packet that had arrived was handed out
    /// as `p` at time `now`.
    pub open spec fn with_delivered(self, p: PacketView, now: u64) -> BackedView {
        BackedView {
            inbox: self.inbox.skip(1),
            reader_nonce: incremented(self.reader_nonce),
            received: self.received + 1,
            last_activity: now,
            awaiting_echo: self.awaiting_echo && p.header != KEEP_ALIVE,
            draining: true,
            ..self
        }
    }

    /// The connection on a fresh socket, after the peer resent packets. What is
    /// resent starts after the last packet that was handed out, so it takes the
    /// place of those that had arrived and were not handed out yet.
    pub open spec fn with_recovered(self, resent: Seq<Seq<u8>>, now: u64) -> BackedView {
        BackedView {
            inbox: resent,
            offline: None,
            last_activity: now,
            live: true,
            ..self
        }
    }

    /// The message that says how many packets were received and handed out.
    pub open spec fn hello(self) -> Seq<u8> {
        SequenceHeaderView { sequence_number: Some(low_i32(self.received as u64)) }.bytes()
    }

    /// The time since something was last sent or received.
    pub open spec fn idle(self, now: u64) -> int {
        if now >= self.last_activity {
            now - self.last_activity
        } else {
            0
        }
    }

    /// What is still missing at a peer that has received `seq` packets.
    pub open spec fn missing(self, seq: int) -> int {
        self.sent.len() - seq
    }

    /// The answer to a peer that has received `seq` packets: the packets it
    /// misses, oldest first, as they were sent.
    pub open spec fn catchup(self, seq: int) -> Result<Seq<Seq<u8>>, RecoverError> {
        let n = self.missing(seq);
        if n < 0 {
            Err(RecoverError::PeerAhead)
        } else if n > self.kept {
            Err(
                RecoverError::TooFarBehind { needed: n as i64, backed_up: self.kept as usize },
            )
        } else {
            Ok(bytes_of(newest(self.sent, n as nat)))
        }
    }
}

/// Whether a connection goes from `v` to `after` with result `res` when a packet
/// is written at time `now`. A packet that is taken is handed out as a frame
/// where there is a socket. One that is not taken changes nothing.
pub open spec fn writes(
    v: BackedView,
    header: u8,
    payload: Seq<u8>,
    now: u64,
    after: BackedView,
    res: Result<Option<Seq<u8>>, WriteError>,
) -> bool {
    match res {
        Err(WriteError::Shutdown) => v.stopping && after == v,
        Err(WriteError::Skipped) => !v.stopping && v.skips(payload.len()) && after == v,
        Ok(frame) => {
            let s = after.sent.last();
            &&& !v.stopping
            &&& !v.skips(payload.len())
            &&& s.header == header
            &&& s.payload == payload
            &&& after.sent == v.sent.push(s)
            &&& after == v.with_sent(s, now)
            &&& frame == if v.live {
                Some(stream_frame(s.bytes))
            } else {
                None
            }
        },
    }
}

/// Whether a connection goes from `v` to `after` when it is asked at time `now`
/// what there is to tell, and tells `res`.
pub open spec fn tells(v: BackedView, now: u64, after: BackedView, res: Option<BackedEvent>) -> bool {
    if v.stopping {
        &&& after == (BackedView { end_told: true, ..v })
        &&& if v.end_told {
            res is None
        } else {
            res == Some(BackedEvent::Dead(DeadReason::Shutdown))
        }
    } else if v.down_pending && !v.draining {
        &&& res == Some(BackedEvent::SocketDown)
        &&& after == (BackedView { down_pending: false, draining: true, ..v })
    } else if v.inbox.len() == 0 {
        &&& res is None
        &&& after == (BackedView { draining: false, ..v })
    } else {
        match opened(v.key, v.reader_nonce, v.inbox[0]) {
            Some(p) => {
                &&& res matches Some(BackedEvent::Packet(q)) && q@ == p
                &&& after == v.with_delivered(p, now)
            },
            None => {
                &&& res == Some(BackedEvent::Dead(DeadReason::CryptoMismatch))
                &&& after == (BackedView {
                    inbox: v.inbox.skip(1),
                    reader_nonce: nonce_after_refusal(v.reader_nonce, v.inbox[0]),
                    stopping: true,
                    end_told: true,
                    draining: true,
                    ..v
                })
            },
        }
    }
}

/// Whether a connection goes from `v` to `after` at time `now`, with a frame to
/// send if there is one: after a period of silence the peer is probed; a probe
/// that stays without an echo for another period costs the socket.
pub open spec fn ticks(v: BackedView, now: u64, after: BackedView, frame: Option<Seq<u8>>) -> bool {
    let due = v.live && !v.stopping && (v.keepalive matches Some(period) && v.idle(now) >= period);
    if !due {
        frame is None && after == v
    } else if v.awaiting_echo {
        frame is None && after == v.without_socket()
    } else {
        let s = after.sent.last();
        &&& s.header == KEEP_ALIVE
        &&& s.payload == Seq::<u8>::empty()
        &&& after.sent == v.sent.push(s)
        &&& after == (BackedView { awaiting_echo: true, ..v.with_sent(s, now) })
        &&& frame == Some(stream_frame(s.bytes))
    }
}

/// The count that a sequence header carries.
pub open spec fn announced_count(h: SequenceHeaderView) -> int {
    match h.sequence_number {
        Some(n) => n as int,
        None => 0,
    }
}

// ---------------------------------------------------------------------------
// The connection
// ---------------------------------------------------------------------------

/// One end of a connection.
pub struct BackedState {
    cfg: BackedConfig,
    writer_crypto: CryptoHandler,
    reader_crypto: CryptoHandler,
    /// The kept packets, oldest first.
    backup: VecDeque<Vec<u8>>,
    backup_size: i64,
    writer_seq: i64,
    reader_seq: i64,
    inbox: VecDeque<Vec<u8>>,
    live: bool,
    disconnected_bytes: Option<i64>,
    socket_down_pending: bool,
    waiting_on_keepalive: bool,
    last_activity: u64,
    shutting_down: bool,
    dead_sent: bool,
    draining: bool,
    sent: Ghost<Seq<Sent>>,
}

impl View for BackedState {
    type V = BackedView;

    closed spec fn view(&self) -> BackedView {
        BackedView {
            key: self.cfg.key@,
            writer_msb: self.cfg.writer_msb,
            reader_msb: self.cfg.reader_msb,
            keepalive: self.cfg.keepalive,
            sent: self.sent@,
            kept: self.backup@.len(),
            received: self.reader_seq as nat,
            reader_nonce: self.reader_crypto.position(),
            inbox: blobs(self.inbox@),
            live: self.live,
            offline: match self.disconnected_bytes {
                Some(b) => Some(b as int),
                None => None,
            },
            down_pending: self.socket_down_pending,
            awaiting_echo: self.waiting_on_keepalive,
            last_activity: self.last_activity,
            stopping: self.shutting_down,
            end_told: self.dead_sent,
            draining: self.draining,
        }
    }
}

proof fn lemma_total_push(s: Seq<Seq<u8>>, x: Seq<u8>)
    ensures
        total(s.push(x)) == total(s) + x.len(),
    decreases s.len(),
{
    if s.len() == 0 {
        assert(s.push(x).skip(1) =~= Seq::<Seq<u8>>::empty());
        assert(total(Seq::<Seq<u8>>::empty()) == 0);
    } else {
        lemma_total_push(s.skip(1), x);
        assert(s.push(x).skip(1) =~= s.skip(1).push(x));
    }
}

impl BackedState {
    /// What holds of the parts of a connection between calls.
    pub closed spec fn wf(self) -> bool {
        &&& self@.valid()
        &&& blobs(self.backup@) == bytes_of(newest(self.sent@, self.backup@.len()))
        &&& self.backup_size == total(blobs(self.backup@))
        &&& self.writer_seq == self.sent@.len()
        &&& self.reader_seq >= 0
        &&& self.writer_crypto.secret() == self.cfg.key@
        &&& self.reader_crypto.secret() == self.cfg.key@
        &&& self.writer_crypto.position() == nonce_at(self.cfg.writer_msb, self.sent@.len())
    }

    /// The keys that the two directions are read and written with.
    pub closed spec fn secrets(self) -> (Seq<u8>, Seq<u8>) {
        (self.reader_crypto.secret(), self.writer_crypto.secret())
    }

    /// What a caller knows of a connection between calls.
    pub proof fn lemma_valid(self)
        requires
            self.wf(),
        ensures
            self@.valid(),
            self.secrets() == (self@.key, self@.key),
    {
    }

    /// A connection over a socket that has just been accepted as new.
    pub fn new(cfg: BackedConfig, now: u64) -> (res: BackedState)
        ensures
            res.wf(),
            res@ == BackedView::fresh(
                cfg.key@,
                cfg.writer_msb,
                cfg.reader_msb,
                cfg.keepalive,
                now,
            ),
    {
        let writer_crypto = CryptoHandler::new(&cfg.key, cfg.writer_msb);
        let reader_crypto = CryptoHandler::new(&cfg.key, cfg.reader_msb);
        let res = BackedState {
            cfg,
            writer_crypto,
            reader_crypto,
            backup: VecDeque::new(),
            backup_size: 0,
            writer_seq: 0,
            reader_seq: 0,
            inbox: VecDeque::new(),
            live: true,
            disconnected_bytes: None,
            socket_down_pending: false,
            waiting_on_keepalive: false,
            last_activity: now,
            shutting_down: false,
            dead_sent: false,
            draining: false,
            sent: Ghost(Seq::empty()),
        };
        proof {
            assert(blobs(res.backup@) =~= bytes_of(newest(res.sent@, 0)));
            assert(blobs(res.inbox@) =~= Seq::<Seq<u8>>::empty());
        }
        res
    }

    /// Whether the counters can take one more packet with `len` bytes.
    pub fn has_room(&self, len: usize) -> (res: bool)
        requires
            self.wf(),
        ensures
            res == room_for(self@, len as nat),
    {
        let n: u64 = len as u64;
        n <= 0xffff_ffff - 18 && len <= isize::MAX as usize - 18 && self.writer_seq < MAX_PACKETS
            && self.backup_size <= i64::MAX - n as i64 - 18
    }

    /// Whether the counters can take one more received packet.
    pub fn can_receive(&self) -> (res: bool)
        requires
            self.wf(),
        ensures
            res == (self@.received < i64::MAX),
    {
        self.reader_seq < i64::MAX
    }

    /// Whether there is a socket.
    pub fn is_live(&self) -> (res: bool)
        ensures
            res == self@.live,
    {
        self.live
    }

    /// Whether the connection is at its end.
    pub fn is_stopping(&self) -> (res: bool)
        ensures
            res == self@.stopping,
    {
        self.shutting_down
    }

    /// Writes a packet. With a socket, the result is the frame to send; if it
    /// cannot be queued, [`BackedState::queue_refused`] says so. Without one,
    /// the packet is kept. A refused write changes nothing.
    pub fn write(&mut self, header: u8, payload: Vec<u8>, now: u64) -> (res: Result<
        Option<Vec<u8>>,
        WriteError,
    >)
        requires
            old(self).wf(),
            room_for(old(self)@, payload@.len()),
        ensures
            final(self).wf(),
            writes(
                old(self)@,
                header,
                payload@,
                now,
                final(self)@,
                match res {
                    Ok(Some(f)) => Ok(Some(f@)),
                    Ok(None) => Ok(None),
                    Err(e) => Err(e),
                },
            ),
    {
        if self.shutting_down {
            return Err(WriteError::Shutdown);
        }
        if let Some(buffered) = self.disconnected_bytes {
            if buffered + payload.len() as i64 > DISCONNECT_BUFFER_BYTES {
                return Err(WriteError::Skipped);
            }
        }
        let ghost old_sent = self.sent@;
        let ghost body = payload@;
        let mut packet = Packet::new(header, payload);
        packet.encrypt(&mut self.writer_crypto);
        let serialized = packet.serialize();
        let ghost s = Sent { header, payload: body, bytes: serialized@ };
        let size: i64 = serialized.len() as i64;
        assert(size == body.len() + 18);

        let ghost old_backup = blobs(self.backup@);
        self.backup.push_back(copy_bytes(serialized.as_slice()));
        self.backup_size = self.backup_size + size;
        self.writer_seq = self.writer_seq + 1;
        self.sent = Ghost(old_sent.push(s));
        proof {
            assert(blobs(self.backup@) =~= old_backup.push(s.bytes));
            lemma_total_push(old_backup, s.bytes);
            let n = self.backup@.len();
            assert(newest(self.sent@, n) =~= newest(old_sent, (n - 1) as nat).push(s));
            assert(bytes_of(newest(self.sent@, n)) =~= bytes_of(
                newest(old_sent, (n - 1) as nat),
            ).push(s.bytes));
            assert(well_sealed(self.cfg.key@, self.cfg.writer_msb, old_sent.len(), s));
            assert forall|i: int| 0 <= i < self.sent@.len() implies #[trigger] well_sealed(
                self.cfg.key@,
                self.cfg.writer_msb,
                i as nat,
                self.sent@[i],
            ) by {
                if i < old_sent.len() {
                    assert(self.sent@[i] == old_sent[i]);
                    assert(well_sealed(
                        old(self)@.key,
                        old(self)@.writer_msb,
                        i as nat,
                        old(self)@.sent[i],
                    ));
                }
            }
        }
        if !self.live {
            let buffered: i64 = match self.disconnected_bytes {
                Some(b) => b,
                None => 0,
            };
            self.disconnected_bytes = Some(buffered + size);
            return Ok(None);
        }
        self.trim();
        let mut frame: Vec<u8> = Vec::new();
        write_stream_frame(&mut frame, serialized.as_slice());
        assert(frame@ =~= stream_frame(s.bytes));
        self.last_activity = now;
        Ok(Some(frame))
    }

    /// Drops the oldest kept packets until the rest fit.
    fn trim(&mut self)
        requires
            old(self).wf(),
        ensures
            final(self).wf(),
            final(self)@ == (BackedView {
                kept: trimmed(old(self)@.sent, old(self)@.kept),
                ..old(self)@
            }),
    {
        let ghost start = self@;
        while self.backup_size > MAX_BACKUP_BYTES && self.backup.len() > 0
            invariant
                self.wf(),
                trimmed(start.sent, self@.kept) == trimmed(start.sent, start.kept),
                self@ == (BackedView { kept: self@.kept, ..start }),
            decreases self.backup@.len(),
        {
            let ghost before = self@;
            let ghost old_blobs = blobs(self.backup@);
            let ghost n = self.backup@.len();
            assert(old_blobs[0] == self.backup@[0]@);
            if let Some(old_packet) = self.backup.pop_front() {
                assert(blobs(self.backup@) =~= old_blobs.skip(1));
                assert(newest(self.sent@, (n - 1) as nat) =~= newest(self.sent@, n).skip(1));
                assert(bytes_of(newest(self.sent@, (n - 1) as nat)) =~= bytes_of(
                    newest(self.sent@, n),
                ).skip(1));
                self.backup_size = self.backup_size - old_packet.len() as i64;
            }
            assert(self@ =~= (BackedView { kept: (n - 1) as nat, ..before }));
        }
        proof {
            if self.backup@.len() == 0 {
                assert(trimmed(start.sent, 0) == 0);
            }
        }
    }

    /// The frame that the last write handed out could not be queued: the
    /// socket does not drain and is given up. The packet is kept, and counts
    /// as written without a socket.
    pub fn queue_refused(&mut self, frame: &[u8])
        requires
            old(self).wf(),
            old(self)@.live,
            old(self)@.sent.len() > 0,
            frame@ == stream_frame(old(self)@.sent.last().bytes),
            frameable(old(self)@.sent.last().payload.len()),
        ensures
            final(self).wf(),
            final(self)@ == old(self)@.refused(),
    {
        proof {
            let last = self.sent@.last();
            assert(well_sealed(
                self@.key,
                self@.writer_msb,
                (self.sent@.len() - 1) as nat,
                self@.sent[self.sent@.len() - 1],
            ));
            reveal_with_fuel(crate::framing::be_bytes, 5);
            assert(frame@.len() == last.bytes.len() + 4);
        }
        self.close_current_socket();
        self.disconnected_bytes = Some((frame.len() - 4) as i64);
    }

    /// Gives the socket up.
    pub fn close_current_socket(&mut self)
        requires
            old(self).wf(),
        ensures
            final(self).wf(),
            final(self)@ == old(self)@.without_socket(),
    {
        if self.live {
            self.live = false;
            self.socket_down_pending = true;
        }
        self.waiting_on_keepalive = false;
        if self.disconnected_bytes.is_none() {
            self.disconnected_bytes = Some(0);
        }
    }

    /// Ends the connection.
    pub fn shutdown(&mut self)
        requires
            old(self).wf(),
        ensures
            final(self).wf(),
            final(self)@ == old(self)@.stopped(),
    {
        self.shutting_down = true;
    }

    /// A packet arrived on the socket.
    pub fn receive(&mut self, bytes: Vec<u8>)
        requires
            old(self).wf(),
        ensures
            final(self).wf(),
            final(self)@ == old(self)@.with_received(bytes@),
    {
        let ghost before = blobs(self.inbox@);
        self.inbox.push_back(bytes);
        assert(blobs(self.inbox@) =~= before.push(bytes@));
    }

    /// A moment has passed. The result is the frame of the probe, if one is
    /// due.
    pub fn keepalive_tick(&mut self, now: u64) -> (res: Option<Vec<u8>>)
        requires
            old(self).wf(),
            room_for(old(self)@, 0),
        ensures
            final(self).wf(),
            ticks(
                old(self)@,
                now,
                final(self)@,
                match res {
                    Some(f) => Some(f@),
                    None => None,
                },
            ),
    {
        let period: u64 = match self.cfg.keepalive {
            Some(p) => p,
            None => {
                return None;
            },
        };
        if !self.live || self.shutting_down {
            return None;
        }
        let idle: u64 = if now >= self.last_activity {
            now - self.last_activity
        } else {
            0
        };
        if idle < period {
            return None;
        }
        if self.waiting_on_keepalive {
            self.close_current_socket();
            return None;
        }
        self.waiting_on_keepalive = true;
        self.last_activity = now;
        assert(room_for(self@, 0));
        let ghost mid = self@;
        let payload: Vec<u8> = Vec::new();
        match self.write(KEEP_ALIVE, payload, now) {
            Ok(frame) => {
                proof {
                    let s = self@.sent.last();
                    assert(s.payload =~= Seq::<u8>::empty());
                    assert(self@ =~= (BackedView {
                        awaiting_echo: true,
                        ..old(self)@.with_sent(s, now)
                    }));
                }
                frame
            },
            Err(_) => None,
        }
    }

    /// The next thing to tell the owner, if there is one now. The loss of a
    /// socket comes before the packets that had arrived; once packets are
    /// being handed out, all of them come before it. A packet that cannot be
    /// authenticated ends the connection. The end is told once.
    pub fn next_event(&mut self, now: u64) -> (res: Option<BackedEvent>)
        requires
            old(self).wf(),
            old(self)@.received < i64::MAX,
        ensures
            final(self).wf(),
            tells(old(self)@, now, final(self)@, res),
    {
        let ghost v = self@;
        if self.shutting_down {
            if self.dead_sent {
                return None;
            }
            self.dead_sent = true;
            assert(self@ == (BackedView { end_told: true, ..v }));
            return Some(BackedEvent::Dead(DeadReason::Shutdown));
        }
        if self.socket_down_pending && !self.draining {
            self.socket_down_pending = false;
            self.draining = true;
            assert(self@ == (BackedView { down_pending: false, draining: true, ..v }));
            return Some(BackedEvent::SocketDown);
        }
        let bytes = match self.inbox.pop_front() {
            Some(b) => b,
            None => {
                self.draining = false;
                return None;
            },
        };
        self.draining = true;
        assert(bytes@ == v.inbox[0]);
        assert(blobs(self.inbox@) =~= v.inbox.skip(1));
        assert(self@ == (BackedView { inbox: v.inbox.skip(1), draining: true, ..v }));
        let mut packet = match Packet::parse(bytes.as_slice()) {
            Some(p) => p,
            None => {
                return Some(self.die_crypto_mismatch());
            },
        };
        if !packet.is_encrypted() {
            return Some(self.die_crypto_mismatch());
        }
        if packet.decrypt(&mut self.reader_crypto).is_err() {
            self.shutting_down = true;
            self.dead_sent = true;
            return Some(BackedEvent::Dead(DeadReason::CryptoMismatch));
        }
        self.last_activity = now;
        if packet.header() == KEEP_ALIVE {
            self.waiting_on_keepalive = false;
        }
        self.reader_seq = self.reader_seq + 1;
        Some(BackedEvent::Packet(packet))
    }

    /// What arrived cannot be authenticated: the connection ends.
    fn die_crypto_mismatch(&mut self) -> (res: BackedEvent)
        requires
            old(self).wf(),
        ensures
            final(self).wf(),
            final(self)@ == (BackedView { stopping: true, end_told: true, ..old(self)@ }),
            res == BackedEvent::Dead(DeadReason::CryptoMismatch),
    {
        self.shutting_down = true;
        self.dead_sent = true;
        BackedEvent::Dead(DeadReason::CryptoMismatch)
    }

    /// Overwrites the keys with zeros, that of the configuration and those of
    /// both directions. Nothing can be sent or received after that.
    pub fn wipe(&mut self)
        ensures
            final(self)@.key == Seq::new(32, |i: int| 0u8),
            final(self).secrets() == (final(self)@.key, final(self)@.key),
            final(self)@ == (BackedView { key: final(self)@.key, ..old(self)@ }),
    {
        self.cfg.wipe();
        self.writer_crypto.wipe();
        self.reader_crypto.wipe();
        assert(self.cfg.key@ =~= Seq::new(32, |i: int| 0u8));
    }

    /// First step of a reconnect: the message that says how many packets were
    /// received.
    pub fn recover_hello(&self) -> (res: Vec<u8>)
        requires
            self.wf(),
        ensures
            res@ == proto_frame(self@.hello()),
    {
        let n: u64 = self.reader_seq as u64 % 0x1_0000_0000;
        let count: i32 = if n < 0x8000_0000 {
            n as i32
        } else {
            (n as i64 - 0x1_0000_0000) as i32
        };
        let header = SequenceHeader { sequence_number: Some(count) };
        let mut out: Vec<u8> = Vec::new();
        write_proto_frame(&mut out, header.encode_to_vec().as_slice());
        assert(out@ =~= proto_frame(header@.bytes()));
        out
    }

    /// Second step of a reconnect: the peer's count is answered with the
    /// packets that it misses.
    pub fn recover_catchup(&self, remote: &[u8]) -> (res: Result<Vec<u8>, RecoverError>)
        requires
            self.wf(),
        ensures
            match SequenceHeaderView::parse(remote@) {
                None => res == Err::<Vec<u8>, RecoverError>(
                    RecoverError::BadSequenceHeader(fault(Shape::SequenceHeader, remote@)->0),
                ),
                Some(h) => match self@.catchup(announced_count(h)) {
                    Err(e) => res == Err::<Vec<u8>, RecoverError>(e),
                    Ok(packets) => res matches Ok(f) && f@ == proto_frame(
                        CatchupBufferView { buffer: packets }.bytes(),
                    ),
                },
            },
    {
        let remote_seq: i64 = match SequenceHeader::decode(remote) {
            Err(e) => {
                return Err(RecoverError::BadSequenceHeader(e));
            },
            Ok(h) => match h.sequence_number {
                Some(n) => n as i64,
                None => 0,
            },
        };
        let to_recover: i64 = self.writer_seq - remote_seq;
        if to_recover < 0 {
            return Err(RecoverError::PeerAhead);
        }
        if to_recover as u64 > self.backup.len() as u64 {
            return Err(
                RecoverError::TooFarBehind { needed: to_recover, backed_up: self.backup.len() },
            );
        }
        let count: usize = to_recover as usize;
        let mut buffer: Vec<Vec<u8>> = Vec::new();
        let mut i: usize = self.backup.len() - count;
        let ghost first = i as int;
        let ghost all = blobs(self.backup@);
        while i < self.backup.len()
            invariant
                0 <= first <= i <= self.backup@.len(),
                all == blobs(self.backup@),
                blobs(buffer@) == all.subrange(first, i as int),
            decreases self.backup.len() - i,
        {
            let ghost before = blobs(buffer@);
            buffer.push(copy_bytes(self.backup[i].as_slice()));
            assert(blobs(buffer@) =~= before.push(all[i as int]));
            i += 1;
            assert(blobs(buffer@) =~= all.subrange(first, i as int));
        }
        assert(blobs(buffer@) =~= bytes_of(newest(self.sent@, count as nat)));
        let catchup = CatchupBuffer { buffer };
        let mut out: Vec<u8> = Vec::new();
        write_proto_frame(&mut out, catchup.encode_to_vec().as_slice());
        assert(out@ =~= proto_frame(catchup@.bytes()));
        Ok(out)
    }

    /// Last step of a reconnect: the packets that the peer resends are all those
    /// that were not handed out yet, and the fresh socket takes the place of the
    /// old one. When they cannot be read, nothing changes.
    pub fn recover_finish(&mut self, body: &[u8], now: u64) -> (res: Result<(), RecoverError>)
        requires
            old(self).wf(),
        ensures
            final(self).wf(),
            match CatchupBufferView::parse(body@) {
                None => res == Err::<(), RecoverError>(
                    RecoverError::BadCatchup(fault(Shape::CatchupBuffer, body@)->0),
                ) && final(self)@ == old(self)@,
                Some(c) => res is Ok && final(self)@ == old(self)@.with_recovered(c.buffer, now),
            },
    {
        let catchup = match CatchupBuffer::decode(body) {
            Ok(c) => c,
            Err(e) => {
                return Err(RecoverError::BadCatchup(e));
            },
        };
        let ghost more = blobs(catchup.buffer@);
        let mut inbox: VecDeque<Vec<u8>> = VecDeque::new();
        let mut i: usize = 0;
        assert(blobs(inbox@) =~= more.take(0));
        while i < catchup.buffer.len()
            invariant
                i <= catchup.buffer@.len(),
                more == blobs(catchup.buffer@),
                blobs(inbox@) == more.take(i as int),
            decreases catchup.buffer.len() - i,
        {
            let ghost before = blobs(inbox@);
            inbox.push_back(copy_bytes(catchup.buffer[i].as_slice()));
            i += 1;
            assert(blobs(inbox@) =~= before.push(more[i - 1]));
            assert(before.push(more[i - 1]) =~= more.take(i as int));
        }
        assert(more.take(i as int) =~= more);
        self.inbox = inbox;
        self.disconnected_bytes = None;
        self.last_activity = now;
        self.live = true;
        Ok(())
    }
}

/// Where the step of the recover exchange that starts at `off` ends.
pub fn recover_step_end(off: usize, len: usize) -> (res: usize)
    requires
        off < len,
    ensures
        off < res <= len,
        res - off <= 64 * 1024,
        res < len ==> res - off == 64 * 1024,
{
    if len - off > RECOVER_IO_CHUNK {
        off + RECOVER_IO_CHUNK
    } else {
        len
    }
}

/// When the step of the recover exchange that starts at `now` must be done:
/// after `idle`, or at the deadline if that comes first.
pub fn recover_step_deadline(now: u64, idle: u64, deadline: u64) -> (res: u64)
    ensures
        res <= deadline,
        now + idle <= deadline ==> res == now + idle,
        now + idle > deadline ==> res == deadline,
{
    if deadline > now && idle < deadline - now {
        now + idle
    } else {
        deadline
    }
}

// ---------------------------------------------------------------------------
// Laws
// ---------------------------------------------------------------------------

/// What the packets of a list say.
pub open spec fn messages_of(s: Seq<Sent>) -> Seq<PacketView> {
    s.map_values(|x: Sent| clear_packet(x.header, x.payload))
}

/// A reader that has received the packets before it gets out of a packet what
/// was written, whether its bytes come from the socket or from a resend.
pub proof fn law_packet_reads_back(w: BackedView, i: nat)
    requires
        w.valid(),
        i < w.sent.len(),
    ensures
        opened(w.key, nonce_at(w.writer_msb, i), w.sent[i as int].bytes) == Some(
            clear_packet(w.sent[i as int].header, w.sent[i as int].payload),
        ),
{
    let s = w.sent[i as int];
    assert(well_sealed(w.key, w.writer_msb, i, s));
    let c = secretbox_seal(w.key, nonce_at(w.writer_msb, i + 1), s.payload);
    crate::packet::law_packet_round_trip(
        PacketView { encrypted: true, header: s.header, payload: c },
    );
    assert(nonce_at(w.writer_msb, i + 1) == incremented(nonce_at(w.writer_msb, i)));
}

proof fn lemma_tail_reads_back(w: BackedView, n: nat)
    requires
        w.valid(),
        n <= w.sent.len(),
    ensures
        opened_all(w.key, nonce_at(w.writer_msb, n), bytes_of(w.sent.skip(n as int))) == Some(
            messages_of(w.sent.skip(n as int)),
        ),
    decreases w.sent.len() - n,
{
    let tail = w.sent.skip(n as int);
    let packets = bytes_of(tail);
    if n == w.sent.len() {
        assert(packets =~= Seq::<Seq<u8>>::empty());
        assert(messages_of(tail) =~= Seq::<PacketView>::empty());
    } else {
        law_packet_reads_back(w, n);
        lemma_tail_reads_back(w, n + 1);
        assert(tail.skip(1) =~= w.sent.skip(n as int + 1));
        assert(packets.skip(1) =~= bytes_of(w.sent.skip(n as int + 1)));
        assert(packets[0] == w.sent[n as int].bytes);
        assert(nonce_at(w.writer_msb, n + 1) == incremented(nonce_at(w.writer_msb, n)));
        assert(messages_of(tail) =~= seq![
            clear_packet(w.sent[n as int].header, w.sent[n as int].payload),
        ] + messages_of(w.sent.skip(n as int + 1)));
    }
}

/// A reconnect loses nothing and repeats nothing: a reader that announces how
/// many packets it has handed out gets the bytes of exactly the packets after
/// them, and reads out of those, in order, what was written. It holds as long
/// as the missing packets are kept and the count fits the header's 32 bits.
pub proof fn law_recover_loses_nothing(w: BackedView, r: BackedView)
    requires
        w.valid(),
        r.valid(),
        !r.end_told,
        w.key == r.key,
        w.writer_msb == r.reader_msb,
        r.received <= w.sent.len(),
        w.sent.len() - r.received <= w.kept,
        r.received <= i32::MAX,
    ensures
        w.catchup(low_i32(r.received as u64) as int) == Ok::<Seq<Seq<u8>>, RecoverError>(
            bytes_of(w.sent.skip(r.received as int)),
        ),
        opened_all(r.key, r.reader_nonce, bytes_of(w.sent.skip(r.received as int))) == Some(
            messages_of(w.sent.skip(r.received as int)),
        ),
{
    lemma_tail_reads_back(w, r.received);
    assert(newest(w.sent, (w.sent.len() - r.received) as nat) =~= w.sent.skip(r.received as int));
}

/// Whether what has arrived at the reader `r` are the next `k` packets of the
/// writer `w`, in order.
pub open spec fn in_step(w: BackedView, r: BackedView, k: nat) -> bool {
    &&& w.valid()
    &&& r.valid()
    &&& !r.end_told
    &&& w.key == r.key
    &&& w.writer_msb == r.reader_msb
    &&& r.received + k <= w.sent.len()
    &&& r.inbox == bytes_of(w.sent.subrange(r.received as int, r.received as int + k))
}

/// A reader that is in step with its writer hands out exactly what was written
/// next, and stays in step.
pub proof fn law_delivery_in_order(w: BackedView, r: BackedView, k: nat, now: u64)
    requires
        in_step(w, r, k),
        k > 0,
    ensures
        ({
            let s = w.sent[r.received as int];
            let p = clear_packet(s.header, s.payload);
            &&& opened(r.key, r.reader_nonce, r.inbox[0]) == Some(p)
            &&& in_step(w, r.with_delivered(p, now), (k - 1) as nat)
        }),
{
    let n = r.received as int;
    let s = w.sent[n];
    law_packet_reads_back(w, r.received);
    let next = w.sent.subrange(n, n + k);
    assert(next[0] == s);
    assert(r.inbox[0] == s.bytes);
    assert(bytes_of(next).skip(1) =~= bytes_of(w.sent.subrange(n + 1, n + k)));
    assert(nonce_at(r.reader_msb, r.received + 1) == incremented(nonce_at(r.reader_msb, r.received)));
}

/// A reader stays in step when the next packet arrives, and when the writer
/// writes on.
pub proof fn law_arrival_keeps_step(w: BackedView, more: BackedView, r: BackedView, k: nat)
    requires
        in_step(w, r, k),
        more.valid(),
        more.key == w.key,
        more.writer_msb == w.writer_msb,
        w.sent.is_prefix_of(more.sent),
    ensures
        in_step(more, r, k),
        r.received + k < more.sent.len() ==> in_step(
            more,
            r.with_received(more.sent[r.received as int + k].bytes),
            k + 1,
        ),
{
    let n = r.received as int;
    assert(w.sent.subrange(n, n + k) =~= more.sent.subrange(n, n + k));
    if n + k < more.sent.len() {
        let s = more.sent[n + k];
        assert(bytes_of(more.sent.subrange(n, n + k + 1)) =~= bytes_of(
            more.sent.subrange(n, n + k),
        ).push(s.bytes));
    }
}

/// A reconnect brings a reader back in step, whatever had arrived and was not
/// handed out yet: what its writer resends are all the packets that it misses.
pub proof fn law_recover_restores_step(w: BackedView, r: BackedView, now: u64)
    requires
        w.valid(),
        r.valid(),
        !r.end_told,
        w.key == r.key,
        w.writer_msb == r.reader_msb,
        r.received <= w.sent.len(),
        w.sent.len() - r.received <= w.kept,
        r.received <= i32::MAX,
    ensures
        w.catchup(low_i32(r.received as u64) as int) is Ok,
        in_step(
            w,
            r.with_recovered(w.catchup(low_i32(r.received as u64) as int)->Ok_0, now),
            (w.sent.len() - r.received) as nat,
        ),
{
    law_recover_loses_nothing(w, r);
    let n = r.received as int;
    assert(w.sent.subrange(n, w.sent.len() as int) =~= w.sent.skip(n));
}

/// What is written without a socket survives: a peer that could be caught up
/// before the write can be caught up after it, and then gets the new packet
/// last.
pub proof fn law_offline_write_survives(v: BackedView, s: Sent, now: u64, seq: int)
    requires
        v.kept <= v.sent.len(),
        !v.live,
        v.catchup(seq) is Ok,
    ensures
        v.with_sent(s, now).catchup(seq) == Ok::<Seq<Seq<u8>>, RecoverError>(
            v.catchup(seq)->Ok_0.push(s.bytes),
        ),
{
    let n = v.missing(seq) as nat;
    let w = v.with_sent(s, now);
    assert(newest(w.sent, n + 1) =~= newest(v.sent, n).push(s));
    assert(bytes_of(newest(w.sent, n + 1)) =~= bytes_of(newest(v.sent, n)).push(s.bytes));
}

/// While there is a socket, the kept packets stay within their bound, and are
/// as many of the newest as it allows.
pub proof fn law_backup_bounded(s: Seq<Sent>, n: nat)
    requires
        n <= s.len(),
    ensures
        trimmed(s, n) <= n,
        total(bytes_of(newest(s, trimmed(s, n)))) <= 64 * 1024 * 1024,
        forall|k: nat|
            trimmed(s, n) < k <= n ==> #[trigger] total(bytes_of(newest(s, k))) > 64 * 1024 * 1024,
    decreases n,
{
    if n > 0 && total(bytes_of(newest(s, n))) > MAX_BACKUP_BYTES {
        law_backup_bounded(s, (n - 1) as nat);
    } else if n == 0 {
        assert(bytes_of(newest(s, 0)) =~= Seq::<Seq<u8>>::empty());
    }
}

/// A peer that has fallen silent costs the socket: one period after the last
/// sign of it comes a probe, and one period after that, with no echo, the end
/// of the socket. An echo in time keeps it.
pub proof fn law_silence_costs_the_socket(
    v: BackedView,
    t1: u64,
    probed: BackedView,
    probe: Option<Seq<u8>>,
    echo: PacketView,
    t2: u64,
    silent: BackedView,
    echoed: BackedView,
    frame: Option<Seq<u8>>,
    again: Option<Seq<u8>>,
)
    requires
        v.live,
        !v.stopping,
        !v.awaiting_echo,
        v.keepalive is Some,
        v.idle(t1) >= v.keepalive->0,
        ticks(v, t1, probed, probe),
        t1 + v.keepalive->0 <= t2,
        ticks(probed, t2, silent, frame),
        echo.header == KEEP_ALIVE,
        ticks(probed.with_delivered(echo, t1), t2, echoed, again),
    ensures
        probe is Some,
        silent == probed.without_socket(),
        !silent.live,
        silent.down_pending,
        echoed.live,
{
}

/// The two directions of a connection never share a nonce, for as long as
/// each counts fewer packets than a connection can count.
pub proof fn law_directions_apart(v: BackedView, i: nat, j: nat)
    requires
        v.writer_msb != v.reader_msb,
        i <= MAX_PACKETS,
        j <= MAX_PACKETS,
    ensures
        nonce_at(v.writer_msb, i) != nonce_at(v.reader_msb, j),
{
    reveal_with_fuel(crate::crypto::pow256, 24);
    assert(crate::crypto::pow256(23) > MAX_PACKETS);
    crate::crypto::law_nonces_distinct(v.writer_msb, i, v.reader_msb, j);
}

/// Whether nothing comes of a tick at time `t` on the connection `v`.
pub open spec fn undisturbed(v: BackedView, t: u64) -> bool {
    forall|after: BackedView, frame: Option<Seq<u8>>| #[trigger]
        ticks(v, t, after, frame) ==> after == v && frame is None
}

/// Whether a tick at time `t` on the connection `v` sends a probe and keeps the
/// socket.
pub open spec fn probes(v: BackedView, t: u64) -> bool {
    forall|after: BackedView, frame: Option<Seq<u8>>| #[trigger]
        ticks(v, t, after, frame) ==> after.live && frame is Some
}

/// Whether a tick at time `t` on the connection `v` costs the socket.
pub open spec fn gives_up(v: BackedView, t: u64) -> bool {
    forall|after: BackedView, frame: Option<Seq<u8>>| #[trigger]
        ticks(v, t, after, frame) ==> !after.live && after.down_pending && frame is None
}

/// The peer has a whole period for its echo: a socket whose peer is probed at
/// `t1` is kept by every tick before the period is over, and given up by one
/// after it.
pub proof fn law_time_for_the_echo(
    v: BackedView,
    n: u64,
    t1: u64,
    probed: BackedView,
    probe: Option<Seq<u8>>,
    t2: u64,
)
    requires
        v.keepalive == Some(n),
        ticks(v, t1, probed, probe),
        probe is Some,
        t1 <= t2,
    ensures
        probed.live,
        t2 < t1 + n ==> undisturbed(probed, t2),
        t1 + n <= t2 ==> gives_up(probed, t2),
{
}

/// A packet that is written on a socket, is handed out, or comes with a
/// reconnect, at `t1`, counts as a sign of life: no tick in the period after it
/// does anything, and the first one after the period probes the peer.
pub proof fn law_signs_of_life(
    v: BackedView,
    n: u64,
    s: Sent,
    p: PacketView,
    resent: Seq<Seq<u8>>,
    t1: u64,
    t2: u64,
)
    requires
        v.keepalive == Some(n),
        !v.stopping,
        t1 <= t2,
    ensures
        t2 < t1 + n ==> {
            &&& v.live ==> undisturbed(v.with_sent(s, t1), t2)
            &&& undisturbed(v.with_delivered(p, t1), t2)
            &&& undisturbed(v.with_recovered(resent, t1), t2)
        },
        t1 + n <= t2 && !v.awaiting_echo ==> {
            &&& v.live ==> probes(v.with_sent(s, t1), t2)
            &&& v.live ==> probes(v.with_delivered(p, t1), t2)
            &&& probes(v.with_recovered(resent, t1), t2)
        },
        t1 + n <= t2 ==> probes(v.without_socket().with_recovered(resent, t1), t2),
{
}

/// Two ends that start with the same key and opposite directions are in step
/// both ways. Each has its socket, and no tick in the first period does
/// anything.
pub proof fn law_fresh_ends(
    key: Seq<u8>,
    one: u8,
    other: u8,
    period: u64,
    probing: Option<u64>,
    t1: u64,
    t2: u64,
)
    requires
        t1 <= t2 < t1 + period,
    ensures
        ({
            let a = BackedView::fresh(key, one, other, Some(period), t1);
            let b = BackedView::fresh(key, other, one, probing, t2);
            &&& in_step(a, b, 0)
            &&& in_step(b, a, 0)
            &&& a.received == 0
            &&& a.live
            &&& b.live
            &&& undisturbed(a, t2)
            &&& forall|after: BackedView, told: Option<BackedEvent>| #[trigger]
                tells(a, t2, after, told) ==> told is None
        }),
{
    let a = BackedView::fresh(key, one, other, Some(period), t1);
    let b = BackedView::fresh(key, other, one, probing, t2);
    assert(a.inbox =~= bytes_of(b.sent.subrange(0, 0)));
    assert(b.inbox =~= bytes_of(a.sent.subrange(0, 0)));
}

/// An ended connection takes no packet and sends no probe, and tells its end
/// next.
pub proof fn law_stopped(
    v: BackedView,
    header: u8,
    payload: Seq<u8>,
    t: u64,
    after: BackedView,
    res: Result<Option<Seq<u8>>, WriteError>,
    later: BackedView,
    told: Option<BackedEvent>,
)
    requires
        v.valid(),
        writes(v.stopped(), header, payload, t, after, res),
        tells(v.stopped(), t, later, told),
    ensures
        res == Err::<Option<Seq<u8>>, WriteError>(WriteError::Shutdown),
        after == v.stopped(),
        undisturbed(v.stopped(), t),
        !v.end_told ==> told == Some(BackedEvent::Dead(DeadReason::Shutdown)),
        v.stopped().sent == v.sent,
        v.stopped().live == v.live,
{
}

/// Only the echo answers a probe: any other packet gives the peer another
/// period, but no more than that.
pub proof fn law_only_the_echo_answers(
    v: BackedView,
    n: u64,
    p: PacketView,
    t1: u64,
    t2: u64,
)
    requires
        v.keepalive == Some(n),
        v.live,
        !v.stopping,
        v.awaiting_echo,
        t1 + n <= t2,
    ensures
        p.header == 0 ==> probes(v.with_delivered(p, t1), t2),
        p.header != 0 ==> gives_up(v.with_delivered(p, t1), t2),
{
}

/// Nothing comes of a tick on a connection that does not probe, has no socket
/// or is at its end.
pub proof fn law_ticks_without_effect(v: BackedView, t: u64)
    ensures
        v.keepalive is None || !v.live || v.stopping ==> undisturbed(v, t),
{
}

/// A probe is an empty packet with the header of a probe, and its peer reads it
/// as one.
pub proof fn law_probe_is_read(
    v: BackedView,
    t: u64,
    after: BackedView,
    frame: Option<Seq<u8>>,
)
    requires
        v.valid(),
        after.valid(),
        ticks(v, t, after, frame),
        frame is Some,
    ensures
        after.sent.len() == v.sent.len() + 1,
        frame == Some(stream_frame(after.sent.last().bytes)),
        opened(v.key, nonce_at(v.writer_msb, v.sent.len()), after.sent.last().bytes) == Some(
            clear_packet(0, Seq::empty()),
        ),
{
    law_packet_reads_back(after, v.sent.len());
}

/// What becomes of a write: at the end of the connection it is refused, and
/// without a socket one that does not fit is skipped; both leave everything as
/// it was. Any other is taken, and its bytes, which go to the socket if there is
/// one, are what a peer that has read all before it reads as header and payload.
pub proof fn law_write(
    v: BackedView,
    header: u8,
    payload: Seq<u8>,
    now: u64,
    after: BackedView,
    res: Result<Option<Seq<u8>>, WriteError>,
)
    requires
        v.valid(),
        after.valid(),
        writes(v, header, payload, now, after, res),
    ensures
        v.stopping <==> res == Err::<Option<Seq<u8>>, WriteError>(WriteError::Shutdown),
        v.live && !v.stopping ==> res is Ok,
        res is Err ==> after == v,
        res is Ok ==> {
            let s = after.sent.last();
            &&& after.sent.len() == v.sent.len() + 1
            &&& after.sent.drop_last() == v.sent
            &&& opened(v.key, nonce_at(v.writer_msb, v.sent.len()), s.bytes) == Some(
                clear_packet(header, payload),
            )
            &&& s.bytes.len() == payload.len() + 18
            &&& res == Ok::<Option<Seq<u8>>, WriteError>(
                if v.live {
                    Some(stream_frame(s.bytes))
                } else {
                    None
                },
            )
            &&& after.inbox == v.inbox
            &&& after.received == v.received
            &&& after.live == v.live
            &&& after.awaiting_echo == v.awaiting_echo
            &&& after.down_pending == v.down_pending
            &&& after.stopping == v.stopping
            &&& !v.live ==> after.kept == v.kept + 1
            &&& v.live && kept_bytes(v) + s.bytes.len() <= 64 * 1024 * 1024 ==> after.kept == v.kept
                + 1
        },
{
    if res is Ok {
        law_packet_reads_back(after, v.sent.len());
        assert(after.sent.drop_last() =~= v.sent);
        let s = after.sent.last();
        assert(well_sealed(after.key, after.writer_msb, v.sent.len(), after.sent[v.sent.len() as int]));
        crate::packet::law_packet_round_trip(
            PacketView {
                encrypted: true,
                header,
                payload: secretbox_seal(after.key, nonce_at(after.writer_msb, v.sent.len() + 1), payload),
            },
        );
        let n = v.kept + 1;
        assert(newest(after.sent, n) =~= newest(v.sent, v.kept).push(s));
        assert(bytes_of(newest(after.sent, n)) =~= bytes_of(newest(v.sent, v.kept)).push(s.bytes));
        lemma_total_push(bytes_of(newest(v.sent, v.kept)), s.bytes);
    }
}

/// What fits without a socket: all that was written since it was lost counts,
/// with what each packet takes on the wire. A packet that the socket did not
/// take counts too. A socket takes whatever there is.
pub proof fn law_offline_budget(v: BackedView, s: Sent, resent: Seq<Seq<u8>>, now: u64, len: nat)
    requires
        v.valid(),
    ensures
        v.live ==> !v.skips(len),
        v.live ==> (v.without_socket().skips(len) <==> len > 64 * 1024 * 1024),
        v.live && v.sent.len() > 0 ==> (v.refused().skips(len) <==> v.sent.last().bytes.len() + len
            > 64 * 1024 * 1024),
        !v.live ==> v.with_sent(s, now).skips(len) == v.skips(s.bytes.len() + len),
        !v.live ==> v.without_socket().skips(len) == v.skips(len),
        !v.with_recovered(resent, now).skips(len),
{
}

/// The loss of a socket is told once: where nothing waits to be handed out, the
/// next event or the one after it is the loss, and then there is none until the
/// next loss. Nothing but a loss is told as one.
pub proof fn law_loss_is_told(
    v: BackedView,
    t: u64,
    first: BackedView,
    told: Option<BackedEvent>,
    second: BackedView,
    told_next: Option<BackedEvent>,
)
    requires
        tells(v, t, first, told),
        tells(first, t, second, told_next),
        !v.stopping,
    ensures
        v.live ==> v.without_socket().down_pending,
        told == Some(BackedEvent::SocketDown) ==> v.down_pending && !first.down_pending,
        v.inbox.len() == 0 && v.down_pending ==> {
            ||| told == Some(BackedEvent::SocketDown) && told_next is None
            ||| told is None && told_next == Some(BackedEvent::SocketDown)
        },
        v.inbox.len() == 0 && !v.down_pending ==> told is None && told_next is None && second.inbox
            == v.inbox && second.received == v.received && second.live == v.live,
{
}

/// A reader in step hands its packets to its owner: unless a loss is to be told
/// first, the next event is the next packet that the writer wrote, and the
/// reader stays in step.
pub proof fn law_next_event_is_the_next_packet(
    w: BackedView,
    r: BackedView,
    k: nat,
    t: u64,
    after: BackedView,
    told: Option<BackedEvent>,
)
    requires
        in_step(w, r, k),
        k > 0,
        !r.stopping,
        tells(r, t, after, told),
        told != Some(BackedEvent::SocketDown),
    ensures
        ({
            let s = w.sent[r.received as int];
            &&& told matches Some(BackedEvent::Packet(q)) && q@ == clear_packet(s.header, s.payload)
            &&& in_step(w, after, (k - 1) as nat)
            &&& after.received == r.received + 1
        }),
{
    law_delivery_in_order(w, r, k, t);
}

/// The end of a connection is told once, with its reason, and nothing after it.
pub proof fn law_end_is_told_once(
    v: BackedView,
    t: u64,
    first: BackedView,
    told: Option<BackedEvent>,
    second: BackedView,
    told_next: Option<BackedEvent>,
)
    requires
        tells(v, t, first, told),
        tells(first, t, second, told_next),
        v.valid(),
    ensures
        v.stopping && !v.end_told ==> told == Some(BackedEvent::Dead(DeadReason::Shutdown)),
        v.end_told ==> told is None,
        told matches Some(BackedEvent::Dead(_)) ==> told_next is None && first.stopping,
        !v.stopping && v.inbox.len() > 0 && !(v.down_pending && !v.draining) && opened(
            v.key,
            v.reader_nonce,
            v.inbox[0],
        ) is None ==> told == Some(BackedEvent::Dead(DeadReason::CryptoMismatch)),
        told == Some(BackedEvent::Dead(DeadReason::CryptoMismatch)) ==> v.inbox.len() > 0 && opened(
            v.key,
            v.reader_nonce,
            v.inbox[0],
        ) is None,
{
}

/// The message that carries the packets that a peer misses.
pub open spec fn catchup_message(packets: Seq<Seq<u8>>) -> Seq<u8> {
    CatchupBufferView { buffer: packets }.bytes()
}

/// The whole exchange of a reconnect, as the bytes go over the wire: the writer
/// reads in the reader's message how many packets it has, and the reader reads
/// in the answer the packets that it misses, and is in step again.
pub proof fn law_recover_exchange(w: BackedView, r: BackedView, now: u64)
    requires
        w.valid(),
        r.valid(),
        !r.end_told,
        w.key == r.key,
        w.writer_msb == r.reader_msb,
        r.received <= w.sent.len(),
        w.sent.len() - r.received <= w.kept,
        r.received <= i32::MAX,
        catchup_message(bytes_of(w.sent.skip(r.received as int))).len() <= u64::MAX,
    ensures
        ({
            let count = SequenceHeaderView::parse(r.hello());
            let answer = w.catchup(announced_count(count->0));
            let read = CatchupBufferView::parse(catchup_message(answer->Ok_0));
            &&& count is Some
            &&& answer is Ok
            &&& read is Some
            &&& in_step(
                w,
                r.with_recovered(read->0.buffer, now),
                (w.sent.len() - r.received) as nat,
            )
            &&& r.with_recovered(read->0.buffer, now).live
        }),
{
    let h = SequenceHeaderView { sequence_number: Some(low_i32(r.received as u64)) };
    let fs = h.fields();
    assert forall|i: int| 0 <= i < fs.len() implies crate::wire::plain(#[trigger] fs[i]) by {}
    crate::messages::law_sequence_header_round_trip(h);
    law_recover_restores_step(w, r, now);
    law_recover_loses_nothing(w, r);
    let c = CatchupBufferView { buffer: bytes_of(w.sent.skip(r.received as int)) };
    crate::layout::law_catchup_buffer_layout(c);
}

/// A peer that says it has more than was sent is refused, and so is one that
/// misses more than is kept; every other gets an answer.
pub proof fn law_recover_answers(v: BackedView, seq: int)
    requires
        v.valid(),
    ensures
        v.catchup(seq) is Ok <==> v.sent.len() - v.kept <= seq <= v.sent.len(),
        v.catchup(seq) is Ok ==> v.catchup(seq)->Ok_0.len() == v.sent.len() - seq,
        forall|i: int|
            v.catchup(seq) is Ok && 0 <= i < v.sent.len() - seq ==> #[trigger] v.catchup(
                seq,
            )->Ok_0[i] == v.sent[seq + i].bytes,
{
}

/// A reader takes nothing in clear, and nothing too short to be sealed.
pub proof fn law_clear_packets_are_refused(
    key: Seq<u8>,
    nonce: Seq<u8>,
    header: u8,
    payload: Seq<u8>,
    bytes: Seq<u8>,
)
    requires
        bytes.len() < 18,
    ensures
        opened(key, nonce, clear_packet(header, payload).bytes()) is None,
        opened(key, nonce, bytes) is None,
{
    crate::packet::law_packet_round_trip(clear_packet(header, payload));
}

/// A packet that opens is in clear from then on, with the header that it came
/// with and the message that was sealed.
pub proof fn law_opened_packets(key: Seq<u8>, nonce: Seq<u8>, header: u8, sealed: Seq<u8>)
    requires
        sealed.len() >= 16,
    ensures
        opened(key, nonce, sealed_bytes(header, sealed)) == match secretbox_open(
            key,
            incremented(nonce),
            sealed,
        ) {
            Some(m) => Some(clear_packet(header, m)),
            None => None,
        },
{
    crate::packet::law_packet_round_trip(
        PacketView { encrypted: true, header, payload: sealed },
    );
}

/// The loss of a socket comes before the packets that had arrived by then, and
/// after those that are being handed out already.
pub proof fn law_loss_comes_in_its_place(
    v: BackedView,
    t: u64,
    after: BackedView,
    told: Option<BackedEvent>,
)
    requires
        v.down_pending,
        !v.stopping,
        v.inbox.len() > 0,
        tells(v, t, after, told),
    ensures
        !v.draining ==> told == Some(BackedEvent::SocketDown) && after.inbox == v.inbox
            && after.draining,
        v.draining ==> told is Some && told != Some(BackedEvent::SocketDown) && (after.stopping
            || after.down_pending),
{
}

/// There is room for a packet of any length that a frame may have, for as long
/// as the counters are far from their ends.
pub proof fn law_room(v: BackedView, len: nat)
    requires
        len <= 128 * 1024 * 1024,
        v.sent.len() < 0x4000_0000_0000_0000,
        kept_bytes(v) < 0x4000_0000_0000_0000,
    ensures
        room_for(v, len),
{
}

/// A peer that tells no count has nothing yet: it is answered with everything,
/// as long as everything is kept.
pub proof fn law_missing_count_is_zero(v: BackedView)
    requires
        v.valid(),
    ensures
        SequenceHeaderView::parse(Seq::empty()) is Some,
        announced_count(SequenceHeaderView::parse(Seq::empty())->0) == 0,
        v.kept == v.sent.len() ==> v.catchup(0) is Ok && v.catchup(0)->Ok_0 == bytes_of(v.sent),
{
    let h = SequenceHeaderView { sequence_number: None };
    assert(h.fields() =~= Seq::<crate::wire::Field>::empty());
    assert(h.bytes() =~= Seq::<u8>::empty());
    crate::messages::law_sequence_header_round_trip(h);
    assert(newest(v.sent, v.sent.len()) =~= v.sent);
}

/// The loss of a socket costs nothing but the socket: what had arrived, what was
/// written and what is kept stay, at either end.
pub proof fn law_loss_keeps_step(w: BackedView, r: BackedView, k: nat)
    requires
        in_step(w, r, k),
    ensures
        in_step(w, r.without_socket(), k),
        in_step(w.without_socket(), r, k),
        w.without_socket().kept == w.kept,
        w.without_socket().sent == w.sent,
        r.without_socket().received == r.received,
        !r.without_socket().live,
        r.without_socket().stopping == r.stopping,
{
}

/// A reconnect changes the socket and what waits to be handed out, and nothing
/// else: what was written and kept stays, and a loss that was not told yet is
/// still to be told.
pub proof fn law_reconnect_changes_little(v: BackedView, resent: Seq<Seq<u8>>, now: u64)
    ensures
        ({
            let after = v.with_recovered(resent, now);
            &&& after.live
            &&& after.inbox == resent
            &&& after.sent == v.sent
            &&& after.kept == v.kept
            &&& after.received == v.received
            &&& after.reader_nonce == v.reader_nonce
            &&& after.down_pending == v.down_pending
            &&& after.stopping == v.stopping
            &&& after.end_told == v.end_told
            &&& after.keepalive == v.keepalive
        }),
{
}

/// A peer that cannot be served is told how far behind it is: the packets that
/// it misses, and the packets that are kept, which are fewer.
pub proof fn law_distance_is_told(v: BackedView, seq: i32)
    requires
        v.valid(),
        v.kept <= usize::MAX,
    ensures
        v.catchup(seq as int) matches Err(RecoverError::TooFarBehind { needed, backed_up }) ==> seq
            + needed == v.sent.len() && backed_up == v.kept && needed > backed_up,
        v.sent.len() - seq > v.kept ==> (v.catchup(seq as int) matches Err(
            RecoverError::TooFarBehind { .. },
        )),
{
}

} // verus!
