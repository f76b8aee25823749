//! The relay to another server: a terminal that takes a client's packets from
//! its own server and hands them to a destination, which it reaches as a
//! client.

use vstd::prelude::*;
use crate::client::{ConnectFailure, Event};
use crate::env::Var;
use crate::error::ServerError;
use crate::et_packet_type::{INITIAL_PAYLOAD, INITIAL_RESPONSE};
use crate::fault::{complaint, Shape};
use crate::framing::{
    announced, packet_frame_in, proto_frame, try_parse_packet_frame_from_buffer,
    write_packet_frame, FrameError, IoFailure,
};
use crate::messages::{InitialPayload, InitialPayloadView, InitialResponse, InitialResponseView};
use crate::packet::{clear_packet, Packet, PacketView};
use crate::terminal::{expected_payload, wrong_packet};
use crate::terminal_packet_type::JUMPHOST_INIT;
use crate::text::{chars_of, copy_bytes, copy_text, decimal, joined, push_decimal};
use crate::wire::{
    bool_field, bool_kind, fields, fields_bytes, last_of, law_fields_round_trip,
    law_read_fields_keep, lemma_all_of_concat, lemma_all_of_none, lemma_bool_field_own,
    lemma_others, others, parse_fields, plain, put, put_bool, read_fields, write_fields, Field,
    RawField, RawValue,
};
use crate::DEFAULT_MAX_PROTO_LENGTH;

verus! {

/// How long the destination may take to answer, in nanoseconds.
pub const JUMP_INIT_TIMEOUT: u64 = 30_000_000_000;

/// How long to wait for each of its events until then, in nanoseconds.
pub const JUMP_INIT_STEP: u64 = 2_000_000_000;

/// How much of what the local server sends is read at once.
pub const JUMP_CHUNK: usize = 16 * 1024;

// ---------------------------------------------------------------------------
// The destination
// ---------------------------------------------------------------------------

/// Whether a relay knows where to.
pub fn check_jump(dsthost: &str, dstport: u16) -> (res: Result<(), ServerError>)
    ensures
        if dsthost@.len() == 0 || dstport == 0 {
            res matches Err(e) && e.says("jump mode requires --dsthost and --dstport"@)
        } else {
            res is Ok
        },
{
    let host = chars_of(dsthost);
    if host.len() == 0 || dstport == 0 {
        return Err(ServerError::other("jump mode requires --dsthost and --dstport"));
    }
    Ok(())
}

/// Where a relay leads.
pub fn jump_endpoint(dsthost: &str, dstport: u16) -> (res: String)
    ensures
        res@ == dsthost@ + ":"@ + decimal(dstport as nat),
{
    let mut s = copy_text(dsthost);
    s.append(":");
    push_decimal(&mut s, dstport as u64);
    s
}

// ---------------------------------------------------------------------------
// The payload
// ---------------------------------------------------------------------------

/// The fields of an initial payload with the relay flag cleared, and every
/// other field as it was.
pub open spec fn flag_cleared(fs: Seq<Field>) -> Seq<Field> {
    bool_field(1, Some(false)) + others(fs, 1)
}

/// The initial payload to hand on: that of the client, which must ask for a
/// relay, with the flag cleared. Fields that are not known here, also those
/// inside of others, go along as they came.
pub open spec fn cleared(init: Seq<u8>) -> Result<Seq<u8>, Seq<char>> {
    match InitialPayloadView::parse(init) {
        None => Err(complaint("bad InitialPayload: "@, Shape::InitialPayload, init)),
        Some(v) => if v.jumphost != Some(true) {
            Err("jumphost init without jumphost flag"@)
        } else {
            Ok(fields_bytes(flag_cleared(parse_fields(init)->0)))
        },
    }
}

/// The initial payload to hand on.
pub fn clear_jumphost(init: &[u8]) -> (res: Result<Vec<u8>, ServerError>)
    ensures
        match (res, cleared(init@)) {
            (Ok(out), Ok(b)) => out@ == b,
            (Err(e), Err(m)) => e.says(m),
            _ => false,
        },
{
    let payload = match InitialPayload::decode(init) {
        Ok(p) => p,
        Err(e) => {
            return Err(ServerError::Other(joined("bad InitialPayload: ", e.message().as_str())));
        },
    };
    let flag = match payload.jumphost {
        Some(b) => b,
        None => false,
    };
    if !flag {
        return Err(ServerError::other("jumphost init without jumphost flag"));
    }
    let fs = match read_fields(init) {
        Ok(fs) => fs,
        Err(_) => {
            return Err(ServerError::other("bad InitialPayload"));
        },
    };
    let ghost all = fields(fs@);
    let mut out: Vec<RawField> = Vec::new();
    put_bool(&mut out, 1, Some(false));
    let mut i: usize = 0;
    let ghost start = bool_field(1, Some(false));
    assert(all.take(0) =~= Seq::<Field>::empty());
    assert(fields(out@) =~= start + others(all.take(0), 1));
    while i < fs.len()
        invariant
            i <= fs@.len(),
            all == fields(fs@),
            start == bool_field(1, Some(false)),
            fields(out@) == start + others(all.take(i as int), 1),
        decreases fs.len() - i,
    {
        assert(all.take(i + 1).drop_last() =~= all.take(i as int));
        assert(all.take(i + 1).last() == fs@[i as int]@);
        if fs[i].tag != 1 {
            let ghost before = others(all.take(i as int), 1);
            let value = match &fs[i].value {
                RawValue::Varint(x) => RawValue::Varint(*x),
                RawValue::Fixed64(b) => RawValue::Fixed64(copy_bytes(b.as_slice())),
                RawValue::Bytes(b) => RawValue::Bytes(copy_bytes(b.as_slice())),
                RawValue::Group(b) => RawValue::Group(copy_bytes(b.as_slice())),
                RawValue::Fixed32(b) => RawValue::Fixed32(copy_bytes(b.as_slice())),
            };
            put(&mut out, fs[i].tag, value);
            assert(fields(out@) =~= start + before.push(fs@[i as int]@));
        }
        i += 1;
    }
    assert(all.take(i as int) =~= all);
    Ok(write_fields(&out))
}

// ---------------------------------------------------------------------------
// The relay
// ---------------------------------------------------------------------------

/// What a relay is at.
enum JumpStage {
    AwaitInit,
    Connecting { payload: Vec<u8> },
    Sending,
    AwaitAnswer { deadline: u64 },
    Relaying,
    Over,
}

/// What a relay is at, with what it holds.
pub enum JumpStageView {
    /// The local server's first packet is awaited.
    AwaitInit,
    /// The destination is being connected to; it is to get this payload.
    Connecting { payload: Seq<u8> },
    /// The payload is being written.
    Sending,
    /// The destination's answer is awaited.
    AwaitAnswer { deadline: u64 },
    /// Packets are relayed.
    Relaying,
    /// The relay is over.
    Over,
}

/// What happens to a relay.
pub enum JumpInput {
    /// The local server's first packet came, or could not be read.
    Init(Result<Packet, FrameError>),
    /// The destination was connected to, or was not.
    Connected(Result<(), ConnectFailure>),
    /// What was to be sent to the destination was taken, or was not.
    Sent { ok: bool, now: u64 },
    /// The destination put out an event, or has ended.
    Destination { event: Option<Event>, now: u64 },
    /// The destination put nothing out for [`JUMP_INIT_STEP`].
    Quiet { now: u64 },
    /// The local server sent bytes, or is gone.
    Local(Option<Vec<u8>>),
    /// What was to be handed to the local server was taken, or was not.
    Handed { ok: bool },
}

/// What a relay asks for.
pub enum JumpAction {
    /// Connect to the destination.
    Connect,
    /// Write a packet to the destination, and say whether it was taken.
    Send(Packet),
    /// Wait for the next event of the destination, for [`JUMP_INIT_STEP`].
    AwaitAnswer,
    /// Wait for the destination and for the local server.
    Wait,
    /// Write bytes to the local server, and say whether they were taken.
    Hand(Vec<u8>),
    /// End the connection to the destination; all is well.
    End,
    /// Give up.
    Fail(ServerError),
}

/// A relay.
pub struct JumpRelay {
    stage: JumpStage,
    inbuf: Vec<u8>,
}

/// What a relay holds.
pub struct JumpView {
    pub stage: JumpStageView,
    /// What the local server sent and was not yet handed on.
    pub inbuf: Seq<u8>,
}

impl View for JumpRelay {
    type V = JumpView;

    closed spec fn view(&self) -> JumpView {
        JumpView {
            stage: match self.stage {
                JumpStage::AwaitInit => JumpStageView::AwaitInit,
                JumpStage::Connecting { payload } => JumpStageView::Connecting {
                    payload: payload@,
                },
                JumpStage::Sending => JumpStageView::Sending,
                JumpStage::AwaitAnswer { deadline } => JumpStageView::AwaitAnswer { deadline },
                JumpStage::Relaying => JumpStageView::Relaying,
                JumpStage::Over => JumpStageView::Over,
            },
            inbuf: self.inbuf@,
        }
    }
}

/// Whether a relay gives up with words of its own.
pub open spec fn gives_up(after: JumpView, res: JumpAction, why: Seq<char>) -> bool {
    after.stage is Over && (res matches JumpAction::Fail(e) && e.says(why))
}

/// How a relay goes on with the local server's first packet, which must be the
/// payload of a client that asks for a relay.
pub open spec fn jump_inits(
    before: JumpView,
    init: Result<Packet, FrameError>,
    after: JumpView,
    res: JumpAction,
) -> bool {
    match init {
        Err(FrameError::Io(io)) => after.stage is Over && res == JumpAction::Fail(
            ServerError::Io(io),
        ),
        Err(f) => gives_up(after, res, f.words()),
        Ok(p) => if p@.header != JUMPHOST_INIT {
            gives_up(after, res, wrong_packet(JUMPHOST_INIT, p@.header))
        } else {
            match cleared(p@.payload) {
                Err(m) => gives_up(after, res, m),
                Ok(b) => {
                    &&& after.stage == (JumpStageView::Connecting { payload: b })
                    &&& after.inbuf == before.inbuf
                    &&& res is Connect
                },
            }
        },
    }
}

/// How a relay goes on with the time while it waits for an answer.
pub open spec fn jump_waits(
    before: JumpView,
    deadline: u64,
    now: u64,
    after: JumpView,
    res: JumpAction,
) -> bool {
    if now >= deadline {
        gives_up(after, res, "timeout waiting for destination INITIAL_RESPONSE"@)
    } else {
        after == before && res is AwaitAnswer
    }
}

/// How a relay goes on with an event of the destination while it waits for its
/// answer. Packets of other kinds are passed over.
pub open spec fn jump_answered(
    before: JumpView,
    deadline: u64,
    event: Option<Event>,
    now: u64,
    after: JumpView,
    res: JumpAction,
) -> bool {
    match event {
        Some(Event::Packet(p)) => if p@.header != INITIAL_RESPONSE {
            jump_waits(before, deadline, now, after, res)
        } else {
            match InitialResponseView::parse(p@.payload) {
                None => gives_up(
                    after,
                    res,
                    complaint("bad InitialResponse: "@, Shape::InitialResponse, p@.payload),
                ),
                Some(r) => match r.error {
                    Some(m) => gives_up(after, res, "destination refused session: "@ + m),
                    None => after.stage is Relaying && after.inbuf == before.inbuf && res is Wait,
                },
            }
        },
        _ => gives_up(after, res, "destination leg died during init"@),
    }
}

/// How a relay goes on with what the local server has sent so far: a complete
/// packet goes to the destination as it is.
pub open spec fn jump_forwards(inbuf: Seq<u8>, after: JumpView, res: JumpAction) -> bool {
    match packet_frame_in(inbuf, DEFAULT_MAX_PROTO_LENGTH) {
        Ok(p) => {
            &&& after.stage is Relaying
            &&& after.inbuf == inbuf.skip(8 + announced(inbuf.take(8)))
            &&& res matches JumpAction::Send(q) && q@ == p
        },
        Err(FrameError::Closed) => after.stage is Relaying && after.inbuf == inbuf && res is Wait,
        Err(f) => {
            &&& after.stage is Over
            &&& res matches JumpAction::Fail(ServerError::Io(e)) && e.message@ == f.words()
                && !e.unexpected_eof
        },
    }
}

/// Whether a relay goes from `before` to `after` and asks for `res` when
/// `input` happens to it. What it did not ask for it passes over.
pub open spec fn jump_steps(before: JumpView, input: JumpInput, after: JumpView, res: JumpAction) -> bool {
    match (before.stage, input) {
        (JumpStageView::AwaitInit, JumpInput::Init(init)) => jump_inits(before, init, after, res),
        (JumpStageView::Connecting { payload }, JumpInput::Connected(c)) => match c {
            Ok(_) => {
                &&& after.stage is Sending
                &&& after.inbuf == before.inbuf
                &&& res matches JumpAction::Send(p) && p@ == clear_packet(INITIAL_PAYLOAD, payload)
            },
            Err(e) => gives_up(after, res, "connect to destination etserver: "@ + e.words()),
        },
        (JumpStageView::Sending, JumpInput::Sent { ok, now }) => if ok {
            &&& after.stage == (JumpStageView::AwaitAnswer {
                deadline: if now + JUMP_INIT_TIMEOUT > u64::MAX {
                    u64::MAX
                } else {
                    (now + JUMP_INIT_TIMEOUT) as u64
                },
            })
            &&& after.inbuf == before.inbuf
            &&& res is AwaitAnswer
        } else {
            gives_up(after, res, "destination leg closed"@)
        },
        (
            JumpStageView::AwaitAnswer { deadline },
            JumpInput::Destination { event, now },
        ) => jump_answered(before, deadline, event, now, after, res),
        (JumpStageView::AwaitAnswer { deadline }, JumpInput::Quiet { now }) => jump_waits(
            before,
            deadline,
            now,
            after,
            res,
        ),
        (JumpStageView::Relaying, JumpInput::Destination { event, .. }) => match event {
            Some(Event::Packet(p)) => after == before && (res matches JumpAction::Hand(b) && b@
                == proto_frame(p@.bytes())),
            _ => after.stage is Over && res is End,
        },
        (JumpStageView::Relaying, JumpInput::Handed { ok }) => if ok {
            after == before && res is Wait
        } else {
            after.stage is Over && res is End
        },
        (JumpStageView::Relaying, JumpInput::Local(read)) => match read {
            Some(b) => if b@.len() > 0 {
                jump_forwards(before.inbuf + b@, after, res)
            } else {
                after.stage is Over && res is End
            },
            None => after.stage is Over && res is End,
        },
        (JumpStageView::Relaying, JumpInput::Sent { ok, .. }) => if ok {
            jump_forwards(before.inbuf, after, res)
        } else {
            gives_up(after, res, "destination leg closed"@)
        },
        _ => after == before && res is Wait,
    }
}

impl JumpRelay {
    /// A relay that waits for the local server's first packet.
    pub fn new() -> (res: JumpRelay)
        ensures
            res@.stage is AwaitInit,
            res@.inbuf == Seq::<u8>::empty(),
    {
        JumpRelay { stage: JumpStage::AwaitInit, inbuf: Vec::new() }
    }

    fn fail(&mut self, why: ServerError) -> (res: JumpAction)
        ensures
            final(self)@.stage is Over,
            res == JumpAction::Fail(why),
    {
        self.stage = JumpStage::Over;
        JumpAction::Fail(why)
    }

    fn finish(&mut self) -> (res: JumpAction)
        ensures
            final(self)@.stage is Over,
            res is End,
    {
        self.stage = JumpStage::Over;
        JumpAction::End
    }

    fn init(&mut self, init: Result<Packet, FrameError>) -> (res: JumpAction)
        ensures
            jump_inits(old(self)@, init, final(self)@, res),
    {
        let packet = match init {
            Ok(p) => p,
            Err(e) => {
                return self.fail(ServerError::from_frame_error(e));
            },
        };
        let payload = match expected_payload(packet, JUMPHOST_INIT) {
            Ok(p) => p,
            Err(e) => {
                return self.fail(e);
            },
        };
        match clear_jumphost(payload.as_slice()) {
            Ok(b) => {
                self.stage = JumpStage::Connecting { payload: b };
                JumpAction::Connect
            },
            Err(e) => self.fail(e),
        }
    }

    /// Time passed while the answer is awaited.
    fn wait(&mut self, deadline: u64, now: u64) -> (res: JumpAction)
        ensures
            jump_waits(
                JumpView { stage: JumpStageView::AwaitAnswer { deadline }, inbuf: old(self)@.inbuf },
                deadline,
                now,
                final(self)@,
                res,
            ),
    {
        if now >= deadline {
            return self.fail(
                ServerError::other("timeout waiting for destination INITIAL_RESPONSE"),
            );
        }
        self.stage = JumpStage::AwaitAnswer { deadline };
        JumpAction::AwaitAnswer
    }

    fn answered(&mut self, deadline: u64, event: Option<Event>, now: u64) -> (res: JumpAction)
        ensures
            jump_answered(
                JumpView { stage: JumpStageView::AwaitAnswer { deadline }, inbuf: old(self)@.inbuf },
                deadline,
                event,
                now,
                final(self)@,
                res,
            ),
    {
        match event {
            Some(Event::Packet(p)) => {
                if p.header() != INITIAL_RESPONSE {
                    return self.wait(deadline, now);
                }
                match InitialResponse::decode(p.payload()) {
                    Err(e) => self.fail(
                        ServerError::Other(joined("bad InitialResponse: ", e.message().as_str())),
                    ),
                    Ok(r) => match r.error {
                        Some(m) => self.fail(
                            ServerError::Other(joined("destination refused session: ", m.as_str())),
                        ),
                        None => {
                            self.stage = JumpStage::Relaying;
                            JumpAction::Wait
                        },
                    },
                }
            },
            _ => self.fail(ServerError::other("destination leg died during init")),
        }
    }

    fn forward(&mut self) -> (res: JumpAction)
        ensures
            jump_forwards(old(self)@.inbuf, final(self)@, res),
    {
        match try_parse_packet_frame_from_buffer(&mut self.inbuf) {
            None => {
                self.stage = JumpStage::Relaying;
                JumpAction::Wait
            },
            Some(Ok(p)) => {
                self.stage = JumpStage::Relaying;
                JumpAction::Send(p)
            },
            Some(Err(e)) => {
                let message = e.message();
                self.fail(ServerError::Io(IoFailure { unexpected_eof: false, message }))
            },
        }
    }

    fn relay(&mut self, input: JumpInput) -> (res: JumpAction)
        ensures
            jump_steps(
                JumpView { stage: JumpStageView::Relaying, inbuf: old(self)@.inbuf },
                input,
                final(self)@,
                res,
            ),
    {
        self.stage = JumpStage::Relaying;
        match input {
            JumpInput::Destination { event: Some(Event::Packet(p)), .. } => {
                let mut out: Vec<u8> = Vec::new();
                write_packet_frame(&mut out, &p);
                assert(out@ =~= proto_frame(p@.bytes()));
                JumpAction::Hand(out)
            },
            JumpInput::Destination { .. } => self.finish(),
            JumpInput::Handed { ok } => {
                if ok {
                    JumpAction::Wait
                } else {
                    self.finish()
                }
            },
            JumpInput::Local(Some(b)) => {
                if b.len() == 0 {
                    return self.finish();
                }
                self.inbuf.extend_from_slice(b.as_slice());
                assert(self.inbuf@ =~= old(self).inbuf@ + b@);
                self.forward()
            },
            JumpInput::Local(None) => self.finish(),
            JumpInput::Sent { ok, .. } => {
                if ok {
                    self.forward()
                } else {
                    self.fail(ServerError::other("destination leg closed"))
                }
            },
            _ => JumpAction::Wait,
        }
    }

    /// Something happened: what is to be done about it.
    pub fn step(&mut self, input: JumpInput) -> (res: JumpAction)
        ensures
            jump_steps(old(self)@, input, final(self)@, res),
    {
        let mut stage = JumpStage::Over;
        std::mem::swap(&mut stage, &mut self.stage);
        match (stage, input) {
            (JumpStage::AwaitInit, JumpInput::Init(init)) => self.init(init),
            (JumpStage::Connecting { payload }, JumpInput::Connected(c)) => match c {
                Ok(_) => {
                    self.stage = JumpStage::Sending;
                    JumpAction::Send(Packet::new(INITIAL_PAYLOAD, payload))
                },
                Err(e) => self.fail(
                    ServerError::Other(
                        joined("connect to destination etserver: ", e.message().as_str()),
                    ),
                ),
            },
            (JumpStage::Sending, JumpInput::Sent { ok, now }) => {
                if !ok {
                    return self.fail(ServerError::other("destination leg closed"));
                }
                let deadline: u64 = if now > u64::MAX - JUMP_INIT_TIMEOUT {
                    u64::MAX
                } else {
                    now + JUMP_INIT_TIMEOUT
                };
                self.stage = JumpStage::AwaitAnswer { deadline };
                JumpAction::AwaitAnswer
            },
            (
                JumpStage::AwaitAnswer { deadline },
                JumpInput::Destination { event, now },
            ) => self.answered(deadline, event, now),
            (JumpStage::AwaitAnswer { deadline }, JumpInput::Quiet { now }) => self.wait(
                deadline,
                now,
            ),
            (JumpStage::Relaying, input) => self.relay(input),
            (same, _) => {
                self.stage = same;
                JumpAction::Wait
            },
        }
    }
}

// ---------------------------------------------------------------------------
// Laws
// ---------------------------------------------------------------------------

/// The payload that is handed on differs from the client's in the relay flag
/// alone: whoever reads it finds the flag off and everything else as it was,
/// with the fields that are not known here.
pub proof fn law_cleared_keeps_the_rest(init: Seq<u8>)
    requires
        init.len() <= u64::MAX,
        cleared(init) is Ok,
    ensures
        parse_fields(cleared(init)->Ok_0) == Some(flag_cleared(parse_fields(init)->0)),
        InitialPayloadView::parse(cleared(init)->Ok_0) == Some(
            InitialPayloadView { jumphost: Some(false), ..InitialPayloadView::parse(init)->0 },
        ),
{
    let fs = parse_fields(init)->0;
    let flag = bool_field(1, Some(false));
    let rest = others(fs, 1);
    let new = flag_cleared(fs);
    law_read_fields_keep(init);
    lemma_others(fs, 1, 2, crate::messages::request_kind());
    lemma_others(fs, 1, 3, crate::messages::entry_kind());
    lemma_others(fs, 1, 1, bool_kind());
    assert forall|i: int| 0 <= i < new.len() implies plain(#[trigger] new[i]) by {
        if i >= flag.len() {
            assert(new[i] == rest[i - flag.len()]);
            assert(fs.contains(rest[i - flag.len()]));
        }
    }
    law_fields_round_trip(new);
    reveal(last_of);
    lemma_bool_field_own(1, Some(false));
    lemma_all_of_concat(flag, rest, 1, bool_kind());
    assert(seq![false] + Seq::<bool>::empty() =~= seq![false]);
    lemma_all_of_none(flag, 2, crate::messages::request_kind());
    lemma_all_of_concat(flag, rest, 2, crate::messages::request_kind());
    lemma_all_of_none(flag, 3, crate::messages::entry_kind());
    lemma_all_of_concat(flag, rest, 3, crate::messages::entry_kind());
    if let Some(r) = crate::wire::all_of(rest, 2, crate::messages::request_kind()) {
        assert(Seq::<crate::messages::PortForwardSourceRequestView>::empty() + r =~= r);
    }
    if let Some(r) = crate::wire::all_of(rest, 3, crate::messages::entry_kind()) {
        assert(Seq::<Var>::empty() + r =~= r);
    }
}

/// A relay hands packets on as they are, and loses no bytes: what either side
/// frames, the other end of the local leg reads as the same packet, and what
/// follows it stays to be read.
pub proof fn law_relay_keeps_packets(p: PacketView, rest: Seq<u8>)
    requires
        p.bytes().len() <= DEFAULT_MAX_PROTO_LENGTH,
    ensures
        packet_frame_in(proto_frame(p.bytes()) + rest, DEFAULT_MAX_PROTO_LENGTH) == Ok::<
            PacketView,
            FrameError,
        >(p),
        ({
            let b = proto_frame(p.bytes()) + rest;
            b.skip(8 + announced(b.take(8))) == rest
        }),
{
    crate::framing::law_proto_frame_round_trip(p.bytes(), rest, DEFAULT_MAX_PROTO_LENGTH);
    crate::packet::law_packet_round_trip(p);
}

/// Nothing is relayed before the destination has agreed.
pub proof fn law_relay_waits_for_consent(
    before: JumpView,
    input: JumpInput,
    after: JumpView,
    res: JumpAction,
)
    requires
        jump_steps(before, input, after, res),
        res is Hand || (after.stage is Relaying && !(before.stage is Relaying)),
    ensures
        before.stage is Relaying || (before.stage is AwaitAnswer && (input matches JumpInput::Destination {
            event: Some(Event::Packet(p)),
            ..
        } && p@.header == INITIAL_RESPONSE && InitialResponseView::parse(p@.payload) == Some(
            InitialResponseView { error: None },
        ))),
{
}

/// A relay comes up: the payload of a client that asks for a relay makes it
/// connect; what it then sends opens a session like the client's, but for the
/// wish for a relay.
pub proof fn law_relay_passes_the_payload_on(
    before: JumpView,
    payload: InitialPayloadView,
    p: Packet,
    one: JumpView,
    connect: JumpAction,
    two: JumpView,
    send: JumpAction,
)
    requires
        payload.bytes().len() <= u64::MAX,
        crate::env::ascending(payload.environmentvariables),
        payload.jumphost == Some(true),
        p@ == clear_packet(10, payload.bytes()),
        before.stage is AwaitInit,
        jump_steps(before, JumpInput::Init(Ok(p)), one, connect),
        jump_steps(one, JumpInput::Connected(Ok(())), two, send),
    ensures
        connect is Connect,
        send matches JumpAction::Send(q) && q@.header == 253 && !q@.encrypted
            && InitialPayloadView::parse(q@.payload) == Some(
            InitialPayloadView { jumphost: Some(false), ..payload },
        ),
        two.inbuf == before.inbuf,
{
    crate::layout::law_initial_payload_layout(payload);
    assert(cleared(payload.bytes()) is Ok);
    law_cleared_keeps_the_rest(payload.bytes());
}

/// A first packet of another kind, or a payload that asks for no relay, is
/// refused.
pub proof fn law_relay_is_asked_for(
    before: JumpView,
    p: Packet,
    after: JumpView,
    res: JumpAction,
)
    requires
        before.stage is AwaitInit,
        jump_steps(before, JumpInput::Init(Ok(p)), after, res),
        p@.header != 10 || (InitialPayloadView::parse(p@.payload) matches Some(v) && v.jumphost
            != Some(true)),
    ensures
        res is Fail,
        after.stage is Over,
{
}

/// The destination has thirty seconds for its answer, and gets them whole.
pub proof fn law_destination_has_its_time(
    before: JumpView,
    t1: u64,
    asked: JumpView,
    first: JumpAction,
    t2: u64,
    after: JumpView,
    res: JumpAction,
)
    requires
        before.stage is Sending,
        t1 <= t2 <= 1_000_000_000_000_000_000,
        jump_steps(before, (JumpInput::Sent { ok: true, now: t1 }), asked, first),
        jump_steps(asked, (JumpInput::Quiet { now: t2 }), after, res),
    ensures
        first is AwaitAnswer,
        t2 < t1 + 30_000_000_000 ==> after == asked && res is AwaitAnswer,
        t2 >= t1 + 30_000_000_000 ==> after.stage is Over && res is Fail,
{
}

/// The destination's answer decides: without an error the relay runs, with one
/// it fails, in the words of the destination. Other packets are passed over.
pub proof fn law_destination_decides(
    before: JumpView,
    deadline: u64,
    p: Packet,
    now: u64,
    after: JumpView,
    res: JumpAction,
    error: Option<Seq<char>>,
)
    requires
        before.stage == (JumpStageView::AwaitAnswer { deadline }),
        now < deadline,
        jump_steps(
            before,
            (JumpInput::Destination { event: Some(Event::Packet(p)), now }),
            after,
            res,
        ),
        error matches Some(e) ==> vstd::utf8::encode_utf8(e).len() + 11 <= u64::MAX,
    ensures
        p@ == crate::server::initial_response(error) && error is None ==> after.stage is Relaying
            && res is Wait && after.inbuf == before.inbuf,
        p@ == crate::server::initial_response(error) && error is Some ==> after.stage is Over && (
        res matches JumpAction::Fail(e) && e.says("destination refused session: "@ + error->0)),
        p@.header != 252 ==> after == before && res is AwaitAnswer,
{
    let v = InitialResponseView { error };
    let n: nat = match error {
        Some(e) => vstd::utf8::encode_utf8(e).len(),
        None => 0,
    };
    crate::layout::law_initial_response_size(v, n);
    crate::layout::law_initial_response_layout(v);
}

/// What the destination sends reaches the local server as the same packet, and
/// leaves what came from there alone.
pub proof fn law_packets_come_back(
    before: JumpView,
    p: Packet,
    now: u64,
    after: JumpView,
    res: JumpAction,
    rest: Seq<u8>,
)
    requires
        before.stage is Relaying,
        p@.bytes().len() <= DEFAULT_MAX_PROTO_LENGTH,
        jump_steps(
            before,
            (JumpInput::Destination { event: Some(Event::Packet(p)), now }),
            after,
            res,
        ),
    ensures
        after == before,
        res matches JumpAction::Hand(b) && packet_frame_in(b@ + rest, DEFAULT_MAX_PROTO_LENGTH)
            == Ok::<PacketView, FrameError>(p@),
{
    law_relay_keeps_packets(p@, rest);
}

/// What the local server sends reaches the destination packet by packet, however
/// its bytes come in pieces: as soon as a packet is complete it goes on, and the
/// bytes after it stay; until then all bytes stay.
pub proof fn law_packets_go_on(
    before: JumpView,
    p: PacketView,
    piece: Vec<u8>,
    rest: Seq<u8>,
    cut: int,
    after: JumpView,
    res: JumpAction,
)
    requires
        before.stage is Relaying,
        p.bytes().len() <= DEFAULT_MAX_PROTO_LENGTH,
        piece@.len() > 0,
        jump_steps(before, JumpInput::Local(Some(piece)), after, res),
        0 <= cut < proto_frame(p.bytes()).len(),
    ensures
        before.inbuf + piece@ == proto_frame(p.bytes()) + rest ==> after.stage is Relaying
            && after.inbuf == rest && (res matches JumpAction::Send(q) && q@ == p),
        before.inbuf + piece@ == proto_frame(p.bytes()).take(cut) ==> after.stage is Relaying
            && after.inbuf == before.inbuf + piece@ && res is Wait,
{
    law_relay_keeps_packets(p, rest);
    crate::framing::law_cut_frame_is_closed(p.bytes(), cut, DEFAULT_MAX_PROTO_LENGTH);
}

/// A relay ends with either of its sides.
pub proof fn law_relay_ends_with_either_side(
    before: JumpView,
    input: JumpInput,
    after: JumpView,
    res: JumpAction,
)
    requires
        before.stage is Relaying,
        jump_steps(before, input, after, res),
    ensures
        res is End <==> match input {
            JumpInput::Destination { event, .. } => !(event matches Some(Event::Packet(_))),
            JumpInput::Handed { ok } => !ok,
            JumpInput::Local(None) => true,
            JumpInput::Local(Some(b)) => b@.len() == 0,
            _ => false,
        },
{
}

/// Packets that came together go on one after the other: once one was taken, the
/// next one that is complete follows, and otherwise more bytes are awaited. A
/// packet that is not taken ends the relay.
pub proof fn law_next_packet_follows(
    before: JumpView,
    p: PacketView,
    rest: Seq<u8>,
    cut: int,
    now: u64,
    after: JumpView,
    res: JumpAction,
    late: JumpView,
    failed: JumpAction,
    handed: JumpView,
    more: JumpAction,
)
    requires
        before.stage is Relaying,
        p.bytes().len() <= DEFAULT_MAX_PROTO_LENGTH,
        0 <= cut < proto_frame(p.bytes()).len(),
        jump_steps(before, (JumpInput::Sent { ok: true, now }), after, res),
        jump_steps(before, (JumpInput::Sent { ok: false, now }), late, failed),
        jump_steps(before, (JumpInput::Handed { ok: true }), handed, more),
    ensures
        before.inbuf == proto_frame(p.bytes()) + rest ==> after.stage is Relaying && after.inbuf
            == rest && (res matches JumpAction::Send(q) && q@ == p),
        before.inbuf == proto_frame(p.bytes()).take(cut) ==> after == before && res is Wait,
        late.stage is Over && failed is Fail,
        handed == before && more is Wait,
{
    law_relay_keeps_packets(p, rest);
    crate::framing::law_cut_frame_is_closed(p.bytes(), cut, DEFAULT_MAX_PROTO_LENGTH);
}

/// A relay that cannot reach its destination fails, and says why.
pub proof fn law_unreachable_destination(
    before: JumpView,
    e: ConnectFailure,
    after: JumpView,
    res: JumpAction,
)
    requires
        before.stage is Connecting,
        jump_steps(before, JumpInput::Connected(Err(e)), after, res),
    ensures
        after.stage is Over,
        res matches JumpAction::Fail(f) && f.says("connect to destination etserver: "@ + e.words()),
{
}

/// A relay passes over what it did not ask for.
pub proof fn law_relay_passes_over_the_unasked(
    before: JumpView,
    input: JumpInput,
    after: JumpView,
    res: JumpAction,
)
    requires
        jump_steps(before, input, after, res),
        match before.stage {
            JumpStageView::AwaitInit => !(input is Init),
            JumpStageView::Connecting { .. } => !(input is Connected),
            JumpStageView::Sending => !(input is Sent),
            JumpStageView::AwaitAnswer { .. } => !(input is Destination) && !(input is Quiet),
            JumpStageView::Relaying => input is Init || input is Connected || input is Quiet,
            JumpStageView::Over => true,
        },
    ensures
        after == before,
        res is Wait,
{
}

/// A destination that goes away before its answer fails the relay.
pub proof fn law_destination_may_die(
    before: JumpView,
    event: Option<Event>,
    now: u64,
    after: JumpView,
    res: JumpAction,
)
    requires
        before.stage is AwaitAnswer,
        !(event matches Some(Event::Packet(_))),
        jump_steps(before, (JumpInput::Destination { event, now }), after, res),
    ensures
        after.stage is Over,
        res is Fail,
{
}

} // verus!
