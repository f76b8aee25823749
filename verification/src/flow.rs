//! What one program sends is what the other one reads: laws that span the
//! client, the server and the terminal.

use vstd::prelude::*;
use vstd::utf8::encode_utf8;
use crate::backed::{in_step, BackedConfig, BackedEvent, BackedView};
use crate::client::{
    client_setup, judged_reply, opens_session, request_of, ConnectFailure, Event, Handshake,
};
use crate::console::{drives, key_bytes, ConsoleAction, ConsoleEvent, Key};
use crate::env::{ascending, var_in, without_var};
use crate::error::ServerError;
use crate::framing::{
    law_proto_frame_round_trip, packet_frame_in, proto_frame, proto_frame_in, FrameError,
};
use crate::messages::{
    requests, ConnectRequestView, ConnectResponseView, ConnectStatus, InitialPayloadView,
    InitialResponseView, TerminalBufferView, TerminalInfoView,
};
use crate::packet::{clear_packet, Packet};
use crate::router::{enters, joins, RouterView};
use crate::server::{
    admitted, init_view, initial_response, registers, reply_frame, server_setup, steps, Admission,
    Registration, RelayAction, RelayEvent, SessionAction, SessionInput,
};
use crate::session::{
    input_view, opening_view, resize_view, routes, start_steps, starts, Routed,
    SessionEvent, StartAction, StartError, StartInput, StartStep, StarterView,
};
use crate::terminal::{
    drains, frame_meaning, registering, startup_inits, startup_steps, takes, LoopAction,
    StartupAction, StartupInput, StartupStage, StartupView, TypedFrame, WindowSize,
};
use crate::{DEFAULT_MAX_PROTO_LENGTH, MAX_HANDSHAKE_PROTO_LENGTH};

verus! {

// ---------------------------------------------------------------------------
// Through a relaying session
// ---------------------------------------------------------------------------

/// Whether the loop of a terminal, with `waiting` for its shell, reads `bytes`
/// as a frame that leaves `left` waiting and asks for `done`, whatever bytes
/// follow.
pub open spec fn terminal_does(
    bytes: Seq<u8>,
    rest: Seq<u8>,
    waiting: Seq<u8>,
    left: Seq<u8>,
    done: LoopAction,
) -> bool {
    let all = bytes + rest;
    let message = proto_frame_in(all.skip(1), DEFAULT_MAX_PROTO_LENGTH);
    &&& all.len() > 0
    &&& message is Ok
    &&& message_does(all[0], message->Ok_0, waiting, left, done)
}

/// Whether the loop of a terminal, with `waiting` for its shell, takes a message
/// under a type byte so that it leaves `left` waiting and asks for `done`.
pub open spec fn message_does(
    t: u8,
    message: Seq<u8>,
    waiting: Seq<u8>,
    left: Seq<u8>,
    done: LoopAction,
) -> bool {
    &&& forall|read: Result<TypedFrame, ServerError>| #[trigger]
        frame_meaning(t, message, read) ==> read is Ok
    &&& forall|frame: TypedFrame, after: Seq<u8>, res: LoopAction| #[trigger]
        takes(waiting, frame, after, res) && frame_meaning(t, message, Ok(frame)) ==> after == left
            && res == done
}

proof fn lemma_typed_frame(header: u8, payload: Seq<u8>, rest: Seq<u8>)
    requires
        payload.len() <= DEFAULT_MAX_PROTO_LENGTH,
    ensures
        ({
            let all = crate::framing::typed_frame(header, payload) + rest;
            &&& all.len() > 0
            &&& all[0] == header
            &&& proto_frame_in(all.skip(1), DEFAULT_MAX_PROTO_LENGTH) == Ok::<Seq<u8>, FrameError>(
                payload,
            )
        }),
{
    let all = crate::framing::typed_frame(header, payload) + rest;
    assert(all.skip(1) =~= proto_frame(payload) + rest);
    law_proto_frame_round_trip(payload, rest, DEFAULT_MAX_PROTO_LENGTH);
}

/// A window size arrives: the packet that a client makes of it leads, through a
/// relaying session, to bytes which the terminal reads as that size, and so to
/// a resize to it.
#[verifier::rlimit(40)]
pub proof fn law_window_size_arrives(
    key: Seq<char>,
    p: Packet,
    rows: u16,
    columns: u16,
    width: u16,
    height: u16,
    after: crate::server::StageView,
    res: SessionAction,
    rest: Seq<u8>,
    waiting: Seq<u8>,
)
    requires
        p@ == resize_view(rows as i32, columns as i32, width as i32, height as i32),
        steps(
            key,
            crate::server::StageView::Relaying,
            SessionInput::Happened(RelayEvent::Connection(Some(BackedEvent::Packet(p)))),
            after,
            res,
        ),
    ensures
        after is Relaying,
        res matches SessionAction::Relay(RelayAction::ToTerminal(b)) && terminal_does(
            b@,
            rest,
            waiting,
            waiting,
            LoopAction::Resize((WindowSize { rows, columns, width, height })),
        ),
{
    lemma_terminal_resizes(rows, columns, width, height, rest, waiting);
}

#[verifier::rlimit(40)]
proof fn lemma_terminal_resizes(
    rows: u16,
    columns: u16,
    width: u16,
    height: u16,
    rest: Seq<u8>,
    waiting: Seq<u8>,
)
    ensures
        terminal_does(
            crate::framing::typed_frame(
                2,
                resize_view(rows as i32, columns as i32, width as i32, height as i32).payload,
            ),
            rest,
            waiting,
            waiting,
            LoopAction::Resize((WindowSize { rows, columns, width, height })),
        ),
{
    let p = resize_view(rows as i32, columns as i32, width as i32, height as i32);
    let size = WindowSize { rows, columns, width, height };
    lemma_size_payload(rows as i32, columns as i32, width as i32, height as i32);
    lemma_typed_frame(2, p.payload, rest);
    assert forall|read: Result<TypedFrame, ServerError>| #[trigger]
        frame_meaning(2, p.payload, read) implies read is Ok by {
        law_window_size_is_read(
            rows as i32,
            columns as i32,
            width as i32,
            height as i32,
            read,
        );
    }
    assert forall|frame: TypedFrame, after: Seq<u8>, res: LoopAction| #[trigger]
        takes(waiting, frame, after, res) && frame_meaning(2, p.payload, Ok(frame)) implies after
        == waiting && res == LoopAction::Resize(size) by {
        law_window_size_is_read(
            rows as i32,
            columns as i32,
            width as i32,
            height as i32,
            Ok(frame),
        );
        crate::terminal::law_window_numbers(rows as i32);
        crate::terminal::law_window_numbers(columns as i32);
        crate::terminal::law_window_numbers(width as i32);
        crate::terminal::law_window_numbers(height as i32);
    }
    assert(message_does(2, p.payload, waiting, waiting, LoopAction::Resize(size)));
}

proof fn lemma_size_payload(row: i32, column: i32, width: i32, height: i32)
    ensures
        resize_view(row, column, width, height).payload.len() <= 48,
{
    lemma_size_reads_back(
        TerminalInfoView {
            id: Some(Seq::empty()),
            row: Some(row),
            column: Some(column),
            width: Some(width),
            height: Some(height),
        },
    );
}

proof fn lemma_size_reads_back(v: TerminalInfoView)
    requires
        v.id == Some(Seq::<char>::empty()),
    ensures
        v.bytes().len() <= 48,
        TerminalInfoView::parse(v.bytes()) == Some(v),
{
    crate::layout::law_terminal_info_size(v);
    crate::layout::law_terminal_info_layout(v);
}

/// The terminal reads in the bytes of a window size the size that the client
/// put into them, whatever its numbers are.
pub proof fn law_window_size_is_read(
    row: i32,
    column: i32,
    width: i32,
    height: i32,
    read: Result<TypedFrame, ServerError>,
)
    requires
        frame_meaning(2, resize_view(row, column, width, height).payload, read),
    ensures
        resize_view(row, column, width, height).header == 2,
        read matches Ok(TypedFrame::TerminalInfo(i)) && i@.row == Some(row) && i@.column == Some(
            column,
        ) && i@.width == Some(width) && i@.height == Some(height),
{
    let v = TerminalInfoView {
        id: Some(Seq::empty()),
        row: Some(row),
        column: Some(column),
        width: Some(width),
        height: Some(height),
    };
    lemma_size_reads_back(v);
}

/// Input arrives: what a client sends of it is, through a relaying session,
/// what the terminal's loop adds to the input that waits for the shell.
#[verifier::rlimit(40)]
pub proof fn law_input_arrives(
    key: Seq<char>,
    p: Packet,
    data: Seq<u8>,
    after: crate::server::StageView,
    res: SessionAction,
    rest: Seq<u8>,
    waiting: Seq<u8>,
)
    requires
        p@ == input_view(data),
        data.len() + 11 <= DEFAULT_MAX_PROTO_LENGTH,
        steps(
            key,
            crate::server::StageView::Relaying,
            SessionInput::Happened(RelayEvent::Connection(Some(BackedEvent::Packet(p)))),
            after,
            res,
        ),
    ensures
        after is Relaying,
        res matches SessionAction::Relay(RelayAction::ToTerminal(b)) && terminal_does(
            b@,
            rest,
            waiting,
            waiting + data,
            LoopAction::Nothing,
        ),
{
    lemma_terminal_takes(data, rest, waiting);
}

#[verifier::rlimit(40)]
proof fn lemma_terminal_takes(data: Seq<u8>, rest: Seq<u8>, waiting: Seq<u8>)
    requires
        data.len() + 11 <= DEFAULT_MAX_PROTO_LENGTH,
    ensures
        terminal_does(
            crate::framing::typed_frame(1, input_view(data).payload),
            rest,
            waiting,
            waiting + data,
            LoopAction::Nothing,
        ),
{
    let v = TerminalBufferView { buffer: Some(data) };
    crate::layout::law_terminal_buffer_size(v, data);
    crate::layout::law_terminal_buffer_layout(v);
    lemma_typed_frame(1, v.bytes(), rest);
}

/// The shell gets its input in order, and none of it twice: what it took and
/// what still waits is what had waited.
pub proof fn law_shell_gets_its_input(
    waiting: Seq<u8>,
    n: usize,
    left: Seq<u8>,
    res: LoopAction,
    more: TypedFrame,
    joined: Seq<u8>,
    again: LoopAction,
)
    requires
        n <= waiting.len(),
        drains(waiting, Some(n), left, res),
        takes(left, more, joined, again),
    ensures
        waiting.take(n as int) + left == waiting,
        res is Nothing,
        more matches TypedFrame::TerminalBuffer(b) ==> waiting.take(n as int) + joined == waiting
            + b@ && again is Nothing,
        !(more is TerminalBuffer) ==> joined == left,
{
    assert(waiting.take(n as int) + left =~= waiting);
    if let TypedFrame::TerminalBuffer(b) = more {
        assert(waiting.take(n as int) + joined =~= waiting + b@);
    }
}

/// Shell output arrives: what the terminal puts out is what the owner of the
/// client's session is told, whether or not it has a forwarding engine.
#[verifier::rlimit(40)]
pub proof fn law_output_arrives(
    key: Seq<char>,
    out: Vec<u8>,
    after: crate::server::StageView,
    res: SessionAction,
    p: Packet,
    engine: bool,
    routed: Routed,
)
    requires
        0 < out@.len() <= u64::MAX - 11,
        steps(
            key,
            crate::server::StageView::Relaying,
            SessionInput::Happened(RelayEvent::Terminal(Some(out))),
            after,
            res,
        ),
        routes(Some(Event::Packet(p)), engine, routed),
    ensures
        after is Relaying,
        res matches SessionAction::Relay(RelayAction::ToClient { packet, needed }) && needed && (
        packet@ == p@ ==> (routed matches Routed::Session(SessionEvent::TerminalBuffer(b)) && b@
            == out@)),
{
    let v = TerminalBufferView { buffer: Some(out@) };
    crate::layout::law_terminal_buffer_size(v, out@);
    crate::layout::law_terminal_buffer_layout(v);
}

/// A probe comes back: a session answers it with a packet that its client takes
/// for the echo, and that ends the wait for it.
pub proof fn law_probe_is_echoed(
    key: Seq<char>,
    p: Packet,
    after: crate::server::StageView,
    res: SessionAction,
    echo: Packet,
    engine: bool,
    routed: Routed,
    client: BackedView,
    now: u64,
)
    requires
        p@ == clear_packet(0, Seq::empty()),
        steps(
            key,
            crate::server::StageView::Relaying,
            SessionInput::Happened(RelayEvent::Connection(Some(BackedEvent::Packet(p)))),
            after,
            res,
        ),
        routes(Some(Event::Packet(echo)), engine, routed),
    ensures
        after is Relaying,
        res matches SessionAction::Relay(RelayAction::ToClient { packet, needed }) && !needed && (
        packet@ == echo@ ==> routed == Routed::Session(SessionEvent::KeepAlive)
            && !client.with_delivered(echo@, now).awaiting_echo),
{
}

/// Forwarding goes from engine to engine: a session hands its engine the
/// packets with the headers of forwarding, and no others, and a client likewise.
/// What an engine puts out goes to the other side as it is.
pub proof fn law_forwarding_goes_to_the_engines(
    key: Seq<char>,
    p: Packet,
    after: crate::server::StageView,
    res: SessionAction,
    routed: Routed,
    later: crate::server::StageView,
    back: SessionAction,
)
    requires
        steps(
            key,
            crate::server::StageView::Relaying,
            SessionInput::Happened(RelayEvent::Connection(Some(BackedEvent::Packet(p)))),
            after,
            res,
        ),
        routes(Some(Event::Packet(p)), true, routed),
        steps(
            key,
            crate::server::StageView::Relaying,
            SessionInput::Happened(RelayEvent::Forwarding(Some(p))),
            later,
            back,
        ),
    ensures
        after is Relaying,
        5 <= p@.header <= 7 <==> (res matches SessionAction::Relay(RelayAction::ToEngine(q))),
        res matches SessionAction::Relay(RelayAction::ToEngine(q)) ==> q@ == p@,
        5 <= p@.header <= 7 <==> routed is Engine,
        routed matches Routed::Engine(q) ==> q == p,
        later is Relaying,
        back == SessionAction::Relay((RelayAction::ToClient { packet: p, needed: true })),
{
}

/// A client without a forwarding engine is told of every packet.
pub proof fn law_every_packet_is_told(p: Packet, routed: Routed)
    requires
        routes(Some(Event::Packet(p)), false, routed),
    ensures
        routed is Session,
        p@.header > 1 ==> (routed matches Routed::Session(SessionEvent::Other(q)) && q@ == p@),
{
}

/// What ends a relaying session: the end of its connection, the end of its
/// terminal, and a write that was not taken. A lost socket does not.
pub proof fn law_what_ends_a_session(
    key: Seq<char>,
    input: SessionInput,
    after: crate::server::StageView,
    res: SessionAction,
)
    requires
        steps(key, crate::server::StageView::Relaying, input, after, res),
    ensures
        after is Relaying || after is Over,
        after is Over <==> res is End,
        after is Over <==> match input {
            SessionInput::Happened(RelayEvent::Connection(None)) => true,
            SessionInput::Happened(RelayEvent::Connection(Some(BackedEvent::Dead(_)))) => true,
            SessionInput::Happened(RelayEvent::Terminal(None)) => true,
            SessionInput::Happened(RelayEvent::Terminal(Some(b))) => b@.len() == 0,
            SessionInput::Written { ok } => !ok,
            _ => false,
        },
{
}

// ---------------------------------------------------------------------------
// Coming in
// ---------------------------------------------------------------------------

/// A terminal registers with what it was given: the server reads in its bytes
/// the id, the passkey and who runs it.
#[verifier::rlimit(40)]
pub proof fn law_registration_arrives(
    id: Seq<char>,
    passkey: Seq<char>,
    uid: u32,
    gid: u32,
    rest: Seq<u8>,
    res: Option<Registration>,
)
    requires
        registering(id, passkey, uid, gid).len() <= DEFAULT_MAX_PROTO_LENGTH,
        ({
            let read = packet_frame_in(
                registering(id, passkey, uid, gid) + rest,
                DEFAULT_MAX_PROTO_LENGTH,
            );
            read is Ok ==> registers(read->Ok_0, res)
        }),
    ensures
        packet_frame_in(
            registering(id, passkey, uid, gid) + rest,
            DEFAULT_MAX_PROTO_LENGTH,
        ) is Ok,
        res matches Some(r) && r.id@ == id && r.passkey@ == passkey && r.uid == uid && r.gid == gid,
{
    let p = crate::terminal::registration_view(id, passkey, uid, gid);
    assert(proto_frame(p.bytes()).len() >= p.bytes().len());
    law_proto_frame_round_trip(p.bytes(), rest, DEFAULT_MAX_PROTO_LENGTH);
    crate::packet::law_packet_round_trip(p);
    let v = crate::messages::TerminalUserInfoView {
        id: Some(id),
        passkey: Some(passkey),
        uid: Some(uid as i64),
        gid: Some(gid as i64),
        fd: None,
    };
    crate::layout::law_terminal_user_info_layout(v);
}

/// What a client concludes from the bytes of a reply, whatever follows them.
pub open spec fn concludes(
    reply: Seq<u8>,
    rest: Seq<u8>,
    verdict: Result<Handshake, ConnectFailure>,
) -> bool {
    let message = proto_frame_in(reply + rest, MAX_HANDSHAKE_PROTO_LENGTH);
    message is Ok && judged_reply(message->Ok_0, verdict)
}

proof fn lemma_reply_is_read(
    status: ConnectStatus,
    error: Option<Seq<char>>,
    n: nat,
    rest: Seq<u8>,
)
    requires
        error matches Some(e) ==> encode_utf8(e).len() <= n,
        n <= 4000,
    ensures
        ({
            let v = ConnectResponseView { status: Some(status.code()), error };
            &&& proto_frame_in(reply_frame(status, error) + rest, MAX_HANDSHAKE_PROTO_LENGTH) == Ok::<
                Seq<u8>,
                FrameError,
            >(v.bytes())
            &&& ConnectResponseView::parse(v.bytes()) == Some(v)
        }),
{
    let v = ConnectResponseView { status: Some(status.code()), error };
    crate::layout::law_connect_response_size(v, n);
    crate::layout::law_connect_response_layout(v);
    law_proto_frame_round_trip(v.bytes(), rest, MAX_HANDSHAKE_PROTO_LENGTH);
}

/// The life of an id: once its terminal has registered, its client is let in as
/// new, under the passkey of the terminal; while the connection lasts it is let
/// in as returning; once the session is over it is turned away as unknown. The
/// client understands each answer.
#[verifier::rlimit(40)]
pub proof fn law_life_of_an_id<S, C>(
    r: RouterView<S, C>,
    id: Seq<char>,
    passkey: Seq<char>,
    uid: u32,
    gid: u32,
    stream: S,
    one: RouterView<S, C>,
    taken: bool,
    conn: C,
    two: RouterView<S, C>,
    first: Admission,
    again: Admission,
    late: Admission,
    rest: Seq<u8>,
    verdict: Result<Handshake, ConnectFailure>,
)
    requires
        request_of(id).bytes().len() <= u64::MAX,
        !r.terminals.contains_key(id),
        !r.clients.contains_key(id),
        enters(r, id, passkey, uid, gid, stream, one, taken),
        admitted(one, request_of(id).bytes(), first),
        joins(one, id, passkey, conn, two),
        admitted(two, request_of(id).bytes(), again),
        admitted(two.without_client(id), request_of(id).bytes(), late),
    ensures
        first matches Admission::New { id: i, key, reply } && i@ == id && key@ == passkey && (
        concludes(reply@, rest, verdict) ==> verdict == Ok::<Handshake, ConnectFailure>(
            Handshake::NewClient,
        )),
        again matches Admission::Returning { id: i, reply } && i@ == id && (concludes(
            reply@,
            rest,
            verdict,
        ) ==> verdict == Ok::<Handshake, ConnectFailure>(Handshake::Returning)),
        late matches Admission::Reject { reply } && (concludes(reply@, rest, verdict) ==> (
        verdict matches Err(ConnectFailure::Rejected { status, error }) && status
            == ConnectStatus::InvalidKey)),
{
    crate::layout::law_connect_request_layout(request_of(id));
    lemma_reply_is_read(ConnectStatus::NewClient, None, 0, rest);
    lemma_reply_is_read(ConnectStatus::ReturningClient, None, 0, rest);
    lemma_unknown_fits();
    lemma_reply_is_read(
        ConnectStatus::InvalidKey,
        Some("Client is not registered"@),
        24,
        rest,
    );
}

proof fn lemma_unknown_fits()
    ensures
        encode_utf8("Client is not registered"@).len() == 24,
{
    broadcast use vstd::utf8::group_utf8_lib;

    reveal_strlit("Client is not registered");
    let text = "Client is not registered"@;
    assert(vstd::utf8::is_ascii_chars(text));
    assert(encode_utf8(text).len() == text.len());
}

/// A client never talks to a server of another version: whatever it asks, it is
/// told so, and gives its first connection up.
#[verifier::rlimit(40)]
pub proof fn law_versions_must_match<S, C>(
    r: RouterView<S, C>,
    request: ConnectRequestView,
    res: Admission,
    rest: Seq<u8>,
    verdict: Result<Handshake, ConnectFailure>,
    opened: Result<(), ConnectFailure>,
)
    requires
        request.bytes().len() <= u64::MAX,
        request.version != Some(6i32),
        encode_utf8(crate::server::mismatch_text(request.version)).len() <= 4000,
        admitted(r, request.bytes(), res),
        opens_session(verdict, opened),
    ensures
        res matches Admission::Reject { reply } && (concludes(reply@, rest, verdict) ==> (
        verdict matches Err(ConnectFailure::Rejected { status, error }) && status
            == ConnectStatus::MismatchedProtocol) && opened is Err),
{
    crate::layout::law_connect_request_layout(request);
    let text = crate::server::mismatch_text(request.version);
    lemma_reply_is_read(ConnectStatus::MismatchedProtocol, Some(text), 4000, rest);
}

/// The two ends of a connection meet: a client and a server with the same
/// passkey have the same key and opposite directions, so that what the one
/// writes is what the other one reads, both ways.
pub proof fn law_ends_meet(
    passkey: Seq<char>,
    key: [u8; 32],
    keepalive: Option<u64>,
    client: BackedConfig,
    server: BackedConfig,
    now: u64,
)
    requires
        key@ == encode_utf8(passkey),
        client_setup(key, keepalive, client),
        server_setup(passkey, server),
    ensures
        server.keepalive is None,
        client.keepalive == keepalive,
        client.writer_msb == 0 && client.reader_msb == 1,
        ({
            let c = BackedView::fresh(
                client.key@,
                client.writer_msb,
                client.reader_msb,
                client.keepalive,
                now,
            );
            let s = BackedView::fresh(
                server.key@,
                server.writer_msb,
                server.reader_msb,
                server.keepalive,
                now,
            );
            in_step(c, s, 0) && in_step(s, c, 0)
        }),
{
    assert(server.key@ =~= client.key@);
    crate::backed::law_fresh_ends(
        client.key@,
        client.writer_msb,
        client.reader_msb,
        1,
        None,
        now,
        now,
    );
    let c = BackedView::fresh(
        client.key@,
        client.writer_msb,
        client.reader_msb,
        client.keepalive,
        now,
    );
    let s = BackedView::fresh(
        server.key@,
        server.writer_msb,
        server.reader_msb,
        server.keepalive,
        now,
    );
    assert(c.inbox =~= crate::backed::bytes_of(s.sent.subrange(0, 0)));
    assert(s.inbox =~= crate::backed::bytes_of(c.sent.subrange(0, 0)));
}

// ---------------------------------------------------------------------------
// Opening a session
// ---------------------------------------------------------------------------

/// What a client asks of its server arrives: its first packet makes the session
/// look for its terminal, with all that was asked. A wish for a relay is
/// refused, in words that the client reads; any other packet in its place ends
/// the session without a word.
pub proof fn law_payload_arrives(
    key: Seq<char>,
    payload: InitialPayloadView,
    p: Packet,
    after: crate::server::StageView,
    res: SessionAction,
    told: StartStep,
)
    requires
        payload.bytes().len() <= u64::MAX,
        ascending(payload.environmentvariables),
        p@ == opening_view(payload),
        steps(
            key,
            crate::server::StageView::AwaitPayload,
            SessionInput::Happened(RelayEvent::Connection(Some(BackedEvent::Packet(p)))),
            after,
            res,
        ),
    ensures
        p@.header == 253,
        payload.jumphost != Some(true) ==> res is Look && after == (
        crate::server::StageView::AwaitTerminal { payload }),
        payload.jumphost == Some(true) ==> after is Over && (res matches SessionAction::End {
            farewell: Some(f),
        } && (starts(Some(Event::Packet(f)), told) ==> (told matches StartStep::Failed(
            StartError::Server(m),
        ) && m@ == "jumphost mode is not supported by this etserver build"@))),
{
    crate::layout::law_initial_payload_layout(payload);
    lemma_jump_words();
    lemma_answer_is_read(Some("jumphost mode is not supported by this etserver build"@), 53);
}

proof fn lemma_jump_words()
    ensures
        encode_utf8("jumphost mode is not supported by this etserver build"@).len() <= 53,
{
    broadcast use vstd::utf8::group_utf8_lib;

    reveal_strlit("jumphost mode is not supported by this etserver build");
    let text = "jumphost mode is not supported by this etserver build"@;
    assert(vstd::utf8::is_ascii_chars(text));
    assert(encode_utf8(text).len() == text.len());
}

proof fn lemma_answer_is_read(error: Option<Seq<char>>, n: nat)
    requires
        error matches Some(e) ==> encode_utf8(e).len() <= n,
        n + 11 <= u64::MAX,
    ensures
        InitialResponseView::parse(initial_response(error).payload) == Some(
            InitialResponseView { error },
        ),
{
    let v = InitialResponseView { error };
    crate::layout::law_initial_response_size(v, n);
    crate::layout::law_initial_response_layout(v);
}

/// Whatever comes first in place of the payload ends a session.
pub proof fn law_other_first_packets_end(
    key: Seq<char>,
    p: Packet,
    after: crate::server::StageView,
    res: SessionAction,
)
    requires
        p@.header != 253,
        steps(
            key,
            crate::server::StageView::AwaitPayload,
            SessionInput::Happened(RelayEvent::Connection(Some(BackedEvent::Packet(p)))),
            after,
            res,
        ),
    ensures
        after is Over,
        res == (SessionAction::End { farewell: None }),
{
}

/// A session starts: with the terminal there and all listeners set up, the
/// client is told that its session is open, and takes it for open; the terminal
/// is then told the environment that the client asked for, and runs its shell
/// in it, under the terminal type named there.
#[verifier::rlimit(40)]
pub proof fn law_session_starts(
    key: Seq<char>,
    payload: InitialPayloadView,
    passkey: String,
    now: u64,
    deadline: u64,
    one: crate::server::StageView,
    listen: SessionAction,
    errors: Vec<String>,
    two: crate::server::StageView,
    answer: SessionAction,
    before: StarterView,
    opened: StarterView,
    open: StartAction,
    three: crate::server::StageView,
    start: SessionAction,
    rest: Seq<u8>,
    init: Packet,
    terminal: StartupView,
    shell: Option<String>,
    running: StartupView,
    spawn: StartupAction,
)
    requires
        ascending(payload.environmentvariables),
        clear_packet(9, init_view(payload.environmentvariables).bytes()).bytes().len()
            <= DEFAULT_MAX_PROTO_LENGTH,
        passkey@ == key,
        steps(
            key,
            (crate::server::StageView::AwaitTerminal { payload }),
            (SessionInput::Looked { passkey: Some(passkey), now, deadline }),
            one,
            listen,
        ),
        errors@.len() == 0,
        steps(key, one, (SessionInput::Bound { errors }), two, answer),
        before.stage is Awaiting,
        answer matches SessionAction::Answer(p) ==> start_steps(
            before,
            StartInput::Event(Some(Event::Packet(p))),
            opened,
            open,
        ),
        steps(key, two, (SessionInput::Written { ok: true }), three, start),
        start matches SessionAction::Start(b) ==> (packet_frame_in(
            b@ + rest,
            DEFAULT_MAX_PROTO_LENGTH,
        ) is Ok ==> packet_frame_in(b@ + rest, DEFAULT_MAX_PROTO_LENGTH)->Ok_0 == init@),
        startup_inits(terminal, Ok(init), shell, running, spawn),
    ensures
        listen matches SessionAction::Listen(v) && requests(v@) == payload.reversetunnels,
        answer is Answer,
        open == (StartAction::Open { engine: before.engine }),
        start matches SessionAction::Start(b) && packet_frame_in(
            b@ + rest,
            DEFAULT_MAX_PROTO_LENGTH,
        ) is Ok,
        three is Starting,
        spawn matches StartupAction::Spawn { shell: run, term, env } && env@ == without_var(
            payload.environmentvariables,
            "TERM"@,
        ) && term@ == (match var_in(payload.environmentvariables, "TERM"@) {
            Some(t) => t,
            None => terminal.term,
        }) && run@ == (match (terminal.shell, shell) {
            (Some(s), _) => s,
            (None, Some(s)) => s@,
            (None, None) => "/bin/sh"@,
        }),
{
    let env = payload.environmentvariables;
    let q = clear_packet(9, init_view(env).bytes());
    assert(q.bytes().len() >= q.payload.len());
    lemma_answer_is_read(None, 0);
    law_proto_frame_round_trip(q.bytes(), rest, DEFAULT_MAX_PROTO_LENGTH);
    crate::packet::law_packet_round_trip(q);
    crate::layout::law_term_init_layout(init_view(env));
    crate::terminal::law_environment_arrives(env);
}

/// A session whose listeners cannot be had is refused, and its client reads
/// why.
pub proof fn law_bind_errors_are_told(
    key: Seq<char>,
    env: Seq<crate::env::Var>,
    passkey: Seq<char>,
    errors: Vec<String>,
    after: crate::server::StageView,
    res: SessionAction,
    told: StartStep,
)
    requires
        errors@.len() > 0,
        ({
            let all = crate::session::joined_with(crate::text::texts(errors@), "; "@);
            encode_utf8("could not establish reverse tunnels: "@ + all).len() + 11 <= u64::MAX
        }),
        steps(
            key,
            (crate::server::StageView::AwaitListeners { declared: true, env, passkey }),
            (SessionInput::Bound { errors }),
            after,
            res,
        ),
    ensures
        after is Over,
        res matches SessionAction::End { farewell: Some(f) } && (starts(
            Some(Event::Packet(f)),
            told,
        ) ==> (told matches StartStep::Failed(StartError::Server(m)) && m@
            == "could not establish reverse tunnels: "@ + crate::session::joined_with(
            crate::text::texts(errors@),
            "; "@,
        ))),
{
    let all = crate::session::joined_with(crate::text::texts(errors@), "; "@);
    let text = "could not establish reverse tunnels: "@ + all;
    lemma_answer_is_read(Some(text), encode_utf8(text).len());
}

/// A first connection is tried again for three seconds while its server does
/// not know the key, and for no other reason.
pub proof fn law_first_connection_is_retried(
    payload: InitialPayloadView,
    t1: u64,
    e: ConnectFailure,
    t2: u64,
    after: StarterView,
    res: StartAction,
)
    requires
        t1 <= t2 <= 1_000_000_000_000_000_000,
        start_steps(
            StarterView::fresh(payload, t1),
            (StartInput::Connected { result: Err(e), now: t2 }),
            after,
            res,
        ),
    ensures
        ({
            let unknown = e matches ConnectFailure::Rejected { status, .. } && status
                == ConnectStatus::InvalidKey;
            &&& unknown && t2 < t1 + 3_000_000_000 ==> res == StartAction::Sleep && after
                == StarterView::fresh(payload, t1)
            &&& !(unknown && t2 < t1 + 3_000_000_000) ==> res == StartAction::Fail(
                StartError::Connect(e),
            )
        }),
{
}

/// Once connected, a client asks for what it was told to, and its forwarding
/// engine runs if it asked for tunnels.
pub proof fn law_client_asks(
    payload: InitialPayloadView,
    t1: u64,
    t2: u64,
    after: StarterView,
    res: StartAction,
)
    requires
        start_steps(
            StarterView::fresh(payload, t1),
            (StartInput::Connected { result: Ok(()), now: t2 }),
            after,
            res,
        ),
    ensures
        res matches StartAction::Send(p) && p@ == opening_view(payload),
        after.engine == (payload.reversetunnels.len() > 0),
{
}

/// A terminal registers, tells its credentials, and then waits for its server;
/// or relays, if it was told to and where to.
pub proof fn law_terminal_comes_up(
    opts: crate::terminal::TerminalOptions,
    id: Seq<char>,
    passkey: Seq<char>,
    term: Seq<char>,
    one: StartupView,
    announce: StartupAction,
    two: StartupView,
    next: StartupAction,
)
    requires
        startup_steps(
            StartupView::fresh(opts, id, passkey, term),
            StartupInput::Registered(Ok(())),
            one,
            announce,
        ),
        startup_steps(one, StartupInput::Announced, two, next),
    ensures
        announce matches StartupAction::Announce(line) && line@ == "IDPASSKEY:"@ + id + "/"@
            + passkey,
        !opts.jump ==> next is AwaitInit && two.stage == StartupStage::AwaitInit,
        opts.jump && opts.dsthost@.len() > 0 && opts.dstport > 0 ==> (
        next matches StartupAction::Relay { endpoint } && endpoint@ == opts.dsthost@ + ":"@
            + crate::text::decimal(opts.dstport as nat)),
        opts.jump && (opts.dsthost@.len() == 0 || opts.dstport == 0) ==> next is Fail,
        two.id == id && two.passkey == passkey && two.term == term,
{
}

// ---------------------------------------------------------------------------
// From the console to the shell and back
// ---------------------------------------------------------------------------

/// A window that is resized at the console is resized at the shell, to as many
/// rows and columns.
pub proof fn law_resize_reaches_the_shell(
    columns: u16,
    rows: u16,
    told: ConsoleAction,
    p: Packet,
    key: Seq<char>,
    after: crate::server::StageView,
    res: SessionAction,
    rest: Seq<u8>,
    waiting: Seq<u8>,
)
    requires
        drives((ConsoleEvent::Resize { columns, rows }), told),
        told matches ConsoleAction::Tell(q) ==> q == p,
        steps(
            key,
            crate::server::StageView::Relaying,
            SessionInput::Happened(RelayEvent::Connection(Some(BackedEvent::Packet(p)))),
            after,
            res,
        ),
    ensures
        told is Tell,
        res matches SessionAction::Relay(RelayAction::ToTerminal(b)) && terminal_does(
            b@,
            rest,
            waiting,
            waiting,
            LoopAction::Resize((WindowSize { rows, columns, width: 0, height: 0 })),
        ),
{
    law_window_size_arrives(key, p, rows, columns, 0, 0, after, res, rest, waiting);
}

/// A key that is pressed at the console reaches the shell as the bytes of the
/// key, after the input that waits.
pub proof fn law_key_reaches_the_shell(
    pressed: Key,
    ctrl: bool,
    alt: bool,
    told: ConsoleAction,
    p: Packet,
    key: Seq<char>,
    after: crate::server::StageView,
    res: SessionAction,
    rest: Seq<u8>,
    waiting: Seq<u8>,
)
    requires
        0 < key_bytes(pressed, ctrl, alt).len() <= 16,
        drives((ConsoleEvent::Key { key: pressed, ctrl, alt }), told),
        told matches ConsoleAction::Send(q) ==> q == p,
        steps(
            key,
            crate::server::StageView::Relaying,
            SessionInput::Happened(RelayEvent::Connection(Some(BackedEvent::Packet(p)))),
            after,
            res,
        ),
    ensures
        told is Send,
        res matches SessionAction::Relay(RelayAction::ToTerminal(b)) && terminal_does(
            b@,
            rest,
            waiting,
            waiting + key_bytes(pressed, ctrl, alt),
            LoopAction::Nothing,
        ),
{
    law_input_arrives(key, p, key_bytes(pressed, ctrl, alt), after, res, rest, waiting);
}

/// What the shell puts out is printed at the console.
pub proof fn law_output_is_printed(
    key: Seq<char>,
    out: Vec<u8>,
    after: crate::server::StageView,
    res: SessionAction,
    p: Packet,
    engine: bool,
    routed: Routed,
    e: SessionEvent,
    done: ConsoleAction,
)
    requires
        0 < out@.len() <= u64::MAX - 11,
        steps(
            key,
            crate::server::StageView::Relaying,
            SessionInput::Happened(RelayEvent::Terminal(Some(out))),
            after,
            res,
        ),
        res matches SessionAction::Relay(RelayAction::ToClient { packet, needed }) ==> packet@
            == p@,
        routes(Some(Event::Packet(p)), engine, routed),
        routed matches Routed::Session(x) ==> x == e,
        drives(ConsoleEvent::Session(Some(e)), done),
    ensures
        done matches ConsoleAction::Print(b) && b@ == out@,
{
    law_output_arrives(key, out, after, res, p, engine, routed);
}

} // verus!
