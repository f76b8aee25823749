//! The server: who is let in, and the relay between a client and its
//! terminal.

use vstd::prelude::*;
use vstd::utf8::encode_utf8;
use crate::backed::{BackedConfig, BackedEvent};
use crate::client::{judged_reply, ConnectFailure, Handshake};
use crate::env::{EnvMap, Var};
use crate::et_packet_type::{INITIAL_PAYLOAD, INITIAL_RESPONSE};
use crate::framing::{
    proto_frame, typed_frame, write_packet_frame, write_proto_frame, write_typed_proto,
};
use crate::messages::{
    requests, ConnectRequest, ConnectRequestView, ConnectResponse, ConnectResponseView,
    ConnectStatus, InitialPayload, InitialPayloadView, InitialResponse, InitialResponseView,
    PortForwardSourceRequest, TermInit, TermInitView, TerminalBuffer, TerminalBufferView,
    TerminalUserInfo, TerminalUserInfoView,
};
use crate::packet::{clear_packet, Packet, PacketView};
use crate::router::{verify_passkey, Router, RouterView};
use crate::session::{bind_result, forwards, is_port_forward_header, joined_with};
use crate::terminal_packet_type::{
    KEEP_ALIVE, TERMINAL_BUFFER, TERMINAL_INFO, TERMINAL_INIT, TERMINAL_USER_INFO,
};
use crate::text::{copy_text, decimal_int, decimal_int_text, joined, texts};
use crate::{CLIENT_SERVER_NONCE_MSB, PROTOCOL_VERSION, SERVER_CLIENT_NONCE_MSB};

verus! {

/// The port that a server listens on by default.
pub const DEFAULT_PORT: u16 = 2022;

/// How long a client may be silent after it was let in, in nanoseconds.
pub const INITIAL_PAYLOAD_TIMEOUT: u64 = 600_000_000_000;

/// How long a terminal may take to register, in nanoseconds.
pub const UNIX_HANDSHAKE_TIMEOUT: u64 = 60_000_000_000;

/// How long to wait between looks for a terminal, in nanoseconds.
pub const TERMINAL_POLL_DELAY: u64 = 50_000_000;

/// How much terminal output is read at once.
pub const TERMINAL_CHUNK: usize = 16 * 1024;

/// How a server is set up.
#[derive(Debug, Clone, PartialEq, Eq)]
pub struct ServerOptions {
    pub port: u16,
    /// The local socket; `None` stands for the default place.
    pub socket_path: Option<String>,
}

impl Default for ServerOptions {
    fn default() -> (res: ServerOptions)
        ensures
            res.port == DEFAULT_PORT,
            res.socket_path is None,
    {
        ServerOptions { port: DEFAULT_PORT, socket_path: None }
    }
}

// ---------------------------------------------------------------------------
// Registration
// ---------------------------------------------------------------------------

/// What a terminal registers with.
pub struct Registration {
    pub id: String,
    pub passkey: String,
    pub uid: u32,
    pub gid: u32,
}

/// A user or group number as it is kept: a missing or negative one counts as
/// zero, and of a large one the low 32 bits are kept.
pub open spec fn kept_number(n: Option<i64>) -> u32 {
    match n {
        Some(x) => if x < 0 {
            0
        } else {
            (x as int % 0x1_0000_0000) as u32
        },
        None => 0,
    }
}

fn keep_number(n: Option<i64>) -> (res: u32)
    ensures
        res == kept_number(n),
{
    match n {
        Some(x) => {
            if x < 0 {
                0
            } else {
                (x as u64 % 0x1_0000_0000) as u32
            }
        },
        None => 0,
    }
}

/// Whether `res` is what the first packet of a terminal registers: only a
/// packet of the right kind that names an id and a passkey does.
pub open spec fn registers(p: PacketView, res: Option<Registration>) -> bool {
    let info = if p.header == TERMINAL_USER_INFO {
        TerminalUserInfoView::parse(p.payload)
    } else {
        None
    };
    match info {
        Some(i) => match (i.id, i.passkey) {
            (Some(id), Some(passkey)) => res matches Some(r) && r.id@ == id && r.passkey@ == passkey
                && r.uid == kept_number(i.uid) && r.gid == kept_number(i.gid),
            _ => res is None,
        },
        None => res is None,
    }
}

/// What the first packet of a terminal registers.
pub fn registration(packet: &Packet) -> (res: Option<Registration>)
    ensures
        registers(packet@, res),
{
    if packet.header() != TERMINAL_USER_INFO {
        return None;
    }
    let info = match TerminalUserInfo::decode(packet.payload()) {
        Ok(i) => i,
        Err(_) => {
            return None;
        },
    };
    let id = match info.id {
        Some(t) => t,
        None => {
            return None;
        },
    };
    let passkey = match info.passkey {
        Some(t) => t,
        None => {
            return None;
        },
    };
    Some(Registration { id, passkey, uid: keep_number(info.uid), gid: keep_number(info.gid) })
}

// ---------------------------------------------------------------------------
// Admission
// ---------------------------------------------------------------------------

/// What to do with a connection that has said who it is.
pub enum Admission {
    /// Close it.
    Drop,
    /// Send the reply, and close it.
    Reject { reply: Vec<u8> },
    /// Send the reply, and hand the socket to the live connection of `id`.
    Returning { id: String, reply: Vec<u8> },
    /// Send the reply, and open a connection for `id` with `key`.
    New { id: String, key: String, reply: Vec<u8> },
}

/// The frame of a reply.
pub open spec fn reply_frame(status: ConnectStatus, error: Option<Seq<char>>) -> Seq<u8> {
    proto_frame(ConnectResponseView { status: Some(status.code()), error }.bytes())
}

/// What a client of another version is told.
pub open spec fn mismatch_text(version: Option<i32>) -> Seq<char> {
    "Mismatched protocol versions. Your client & server must be on the same version of ET. Client: "@
        + decimal_int(
        match version {
            Some(v) => v as int,
            None => 0,
        },
    ) + " != Server: "@ + decimal_int(PROTOCOL_VERSION as int)
}

/// Whether `res` is what is to be done with a connection that sent `request`.
pub open spec fn admitted<S, C>(r: RouterView<S, C>, request: Seq<u8>, res: Admission) -> bool {
    match ConnectRequestView::parse(request) {
        None => res is Drop,
        Some(q) => if q.version != Some(PROTOCOL_VERSION) {
            res matches Admission::Reject { reply } && reply@ == reply_frame(
                ConnectStatus::MismatchedProtocol,
                Some(mismatch_text(q.version)),
            )
        } else {
            match q.client_id {
                None => res is Drop,
                Some(id) => if r.clients.contains_key(id) {
                    res matches Admission::Returning { id: i, reply } && i@ == id && reply@
                        == reply_frame(ConnectStatus::ReturningClient, None)
                } else if r.keys.contains_key(id) {
                    res matches Admission::New { id: i, key, reply } && i@ == id && key@
                        == r.keys[id]@ && reply@ == reply_frame(ConnectStatus::NewClient, None)
                } else {
                    res matches Admission::Reject { reply } && reply@ == reply_frame(
                        ConnectStatus::InvalidKey,
                        Some("Client is not registered"@),
                    )
                },
            }
        },
    }
}

fn make_reply(status: ConnectStatus, error: Option<String>) -> (res: Vec<u8>)
    ensures
        res@ == reply_frame(status, crate::text::opt_text(error)),
{
    let response = ConnectResponse { status: Some(status.to_i32()), error };
    let mut out: Vec<u8> = Vec::new();
    write_proto_frame(&mut out, response.encode_to_vec().as_slice());
    assert(out@ =~= proto_frame(response@.bytes()));
    out
}

/// What to do with a connection that sent `request`.
pub fn handle_tcp<S, C>(router: &Router<S, C>, request: &[u8]) -> (res: Admission)
    requires
        router.wf(),
    ensures
        admitted(router@, request@, res),
{
    let request = match ConnectRequest::decode(request) {
        Ok(r) => r,
        Err(_) => {
            return Admission::Drop;
        },
    };
    let version: i32 = match request.version {
        Some(v) => v,
        None => 0,
    };
    if version != PROTOCOL_VERSION || request.version.is_none() {
        let mut text =
            "Mismatched protocol versions. Your client & server must be on the same version of ET. Client: ".to_owned();
        text.append(decimal_int_text(version as i64).as_str());
        text.append(" != Server: ");
        text.append(decimal_int_text(PROTOCOL_VERSION as i64).as_str());
        assert(text@ =~= mismatch_text(request.version));
        return Admission::Reject {
            reply: make_reply(ConnectStatus::MismatchedProtocol, Some(text)),
        };
    }
    let id = match request.client_id {
        Some(id) => id,
        None => {
            return Admission::Drop;
        },
    };
    if router.client_exists(id.as_str()) {
        return Admission::Returning { id, reply: make_reply(ConnectStatus::ReturningClient, None) };
    }
    match router.get_key(id.as_str()) {
        Some(key) => Admission::New { id, key, reply: make_reply(ConnectStatus::NewClient, None) },
        None => Admission::Reject {
            reply: make_reply(
                ConnectStatus::InvalidKey,
                Some("Client is not registered".to_owned()),
            ),
        },
    }
}

/// The key that a passkey is: its first 32 bytes, with zeros after them when
/// there are fewer.
pub open spec fn padded_key(passkey: Seq<char>) -> Seq<u8> {
    let b = encode_utf8(passkey);
    Seq::new(
        32,
        |i: int|
            if i < b.len() {
                b[i]
            } else {
                0u8
            },
    )
}

/// The key that a passkey is.
pub fn key_bytes(passkey: &str) -> (res: [u8; 32])
    ensures
        res@ == padded_key(passkey@),
{
    let bytes = passkey.as_bytes();
    let mut key = [0u8;32];
    let mut i: usize = 0;
    while i < 32 && i < bytes.len()
        invariant
            i <= 32,
            i <= bytes@.len(),
            key@.len() == 32,
            forall|k: int| 0 <= k < i ==> key@[k] == bytes@[k],
            forall|k: int| i <= k < 32 ==> key@[k] == 0,
        decreases 32 - i,
    {
        key[i] = bytes[i];
        i += 1;
    }
    assert(key@ =~= padded_key(passkey@));
    key
}

/// Whether a server connection is set up by `cfg`: its directions are those of
/// the client, swapped, and it does not probe.
pub open spec fn server_setup(passkey: Seq<char>, cfg: BackedConfig) -> bool {
    &&& cfg.key@ == padded_key(passkey)
    &&& cfg.reader_msb == CLIENT_SERVER_NONCE_MSB
    &&& cfg.writer_msb == SERVER_CLIENT_NONCE_MSB
    &&& cfg.keepalive is None
}

/// How a server connection is set up.
pub fn server_config(passkey: &str) -> (res: BackedConfig)
    ensures
        server_setup(passkey@, res),
{
    BackedConfig {
        key: key_bytes(passkey),
        reader_msb: CLIENT_SERVER_NONCE_MSB,
        writer_msb: SERVER_CLIENT_NONCE_MSB,
        keepalive: None,
    }
}

// ---------------------------------------------------------------------------
// The relay
// ---------------------------------------------------------------------------

/// What happens during a session.
pub enum RelayEvent {
    /// The forwarding engine has a packet for the client, or has ended.
    Forwarding(Option<Packet>),
    /// The connection has an event, or has ended.
    Connection(Option<BackedEvent>),
    /// The terminal put something out, or has ended.
    Terminal(Option<Vec<u8>>),
}

/// What is to be done.
pub enum RelayAction {
    /// Nothing.
    Nothing,
    /// The engine is gone; do not wait for it again.
    ForgetEngine,
    /// Write a packet to the connection, and, where `needed` holds, say
    /// whether it was taken.
    ToClient { packet: Packet, needed: bool },
    /// Write bytes to the terminal, and say whether they were taken.
    ToTerminal(Vec<u8>),
    /// Hand a packet to the forwarding engine.
    ToEngine(Packet),
    /// End the session.
    End,
}

/// Whether `res` is what is to be done about a packet of the client: input and
/// resizes go to the terminal, probes are echoed, forwarding goes to the
/// engine, and the rest is passed over.
pub open spec fn relays_packet(p: PacketView, res: RelayAction) -> bool {
    if p.header == TERMINAL_BUFFER || p.header == TERMINAL_INFO {
        res matches RelayAction::ToTerminal(b) && b@ == typed_frame(p.header, p.payload)
    } else if p.header == KEEP_ALIVE {
        res matches RelayAction::ToClient { packet, needed } && !needed && packet@ == clear_packet(
            KEEP_ALIVE,
            Seq::empty(),
        )
    } else if forwards(p.header) {
        res matches RelayAction::ToEngine(q) && q@ == p
    } else {
        res is Nothing
    }
}

/// Whether `res` is what is to be done about what happened.
pub open spec fn relays(event: RelayEvent, res: RelayAction) -> bool {
    match event {
        RelayEvent::Forwarding(None) => res is ForgetEngine,
        RelayEvent::Forwarding(Some(p)) => res == (RelayAction::ToClient {
            packet: p,
            needed: true,
        }),
        RelayEvent::Connection(Some(BackedEvent::Packet(p))) => relays_packet(p@, res),
        RelayEvent::Connection(Some(BackedEvent::SocketDown)) => res is Nothing,
        RelayEvent::Connection(_) => res is End,
        RelayEvent::Terminal(None) => res is End,
        RelayEvent::Terminal(Some(b)) => if b@.len() == 0 {
            res is End
        } else {
            res matches RelayAction::ToClient { packet, needed } && needed && packet@
                == clear_packet(TERMINAL_BUFFER, TerminalBufferView { buffer: Some(b@) }.bytes())
        },
    }
}

/// What is to be done about what happened.
pub fn relay(event: RelayEvent) -> (res: RelayAction)
    ensures
        relays(event, res),
{
    match event {
        RelayEvent::Forwarding(None) => RelayAction::ForgetEngine,
        RelayEvent::Forwarding(Some(packet)) => RelayAction::ToClient { packet, needed: true },
        RelayEvent::Connection(Some(BackedEvent::Packet(p))) => relay_packet(p),
        RelayEvent::Connection(Some(BackedEvent::SocketDown)) => RelayAction::Nothing,
        RelayEvent::Connection(_) => RelayAction::End,
        RelayEvent::Terminal(None) => RelayAction::End,
        RelayEvent::Terminal(Some(b)) => {
            if b.len() == 0 {
                return RelayAction::End;
            }
            let tb = TerminalBuffer { buffer: Some(b) };
            RelayAction::ToClient {
                packet: Packet::new(TERMINAL_BUFFER, tb.encode_to_vec()),
                needed: true,
            }
        },
    }
}

fn relay_packet(p: Packet) -> (res: RelayAction)
    ensures
        relays_packet(p@, res),
{
    let header: u8 = p.header();
    if header == TERMINAL_BUFFER || header == TERMINAL_INFO {
        let mut out: Vec<u8> = Vec::new();
        write_typed_proto(&mut out, header, p.payload());
        assert(out@ =~= typed_frame(header, p@.payload));
        RelayAction::ToTerminal(out)
    } else if header == KEEP_ALIVE {
        let empty: Vec<u8> = Vec::new();
        let echo = Packet::new(KEEP_ALIVE, empty);
        assert(empty@ =~= Seq::<u8>::empty());
        RelayAction::ToClient { packet: echo, needed: false }
    } else if is_port_forward_header(header) {
        RelayAction::ToEngine(p)
    } else {
        RelayAction::Nothing
    }
}

// ---------------------------------------------------------------------------
// Sessions
// ---------------------------------------------------------------------------

/// The answer to an initial payload.
pub open spec fn initial_response(error: Option<Seq<char>>) -> PacketView {
    clear_packet(INITIAL_RESPONSE, InitialResponseView { error }.bytes())
}

fn make_initial_response(error: Option<String>) -> (res: Packet)
    ensures
        res@ == initial_response(crate::text::opt_text(error)),
{
    let r = InitialResponse { error };
    Packet::new(INITIAL_RESPONSE, r.encode_to_vec())
}

/// The names of variables.
pub open spec fn var_names(e: Seq<Var>) -> Seq<Seq<char>> {
    e.map_values(|v: Var| v.0)
}

/// The values of variables.
pub open spec fn var_values(e: Seq<Var>) -> Seq<Seq<char>> {
    e.map_values(|v: Var| v.1)
}

/// What tells a terminal the environment of its session.
pub open spec fn init_view(e: Seq<Var>) -> TermInitView {
    TermInitView { environmentnames: var_names(e), environmentvalues: var_values(e) }
}

fn make_term_init(env: &EnvMap) -> (res: TermInit)
    ensures
        res@ == init_view(env@),
{
    let mut names: Vec<String> = Vec::new();
    let mut values: Vec<String> = Vec::new();
    let n: usize = env.len();
    let mut i: usize = 0;
    assert(texts(names@) =~= var_names(env@).take(0));
    assert(texts(values@) =~= var_values(env@).take(0));
    while i < n
        invariant
            i <= n,
            n == env@.len(),
            texts(names@) == var_names(env@).take(i as int),
            texts(values@) == var_values(env@).take(i as int),
        decreases n - i,
    {
        let ghost a = texts(names@);
        let ghost b = texts(values@);
        names.push(copy_text(env.name(i)));
        values.push(copy_text(env.value(i)));
        assert(texts(names@) =~= a.push(env@[i as int].0));
        assert(texts(values@) =~= b.push(env@[i as int].1));
        i += 1;
        assert(texts(names@) =~= var_names(env@).take(i as int));
        assert(texts(values@) =~= var_values(env@).take(i as int));
    }
    assert(texts(names@) =~= var_names(env@));
    assert(texts(values@) =~= var_values(env@));
    TermInit { environmentnames: names, environmentvalues: values }
}

/// What a session is at.
enum Stage {
    /// The first packet is awaited.
    AwaitPayload,
    /// The terminal is looked for.
    AwaitTerminal { payload: InitialPayload },
    /// The listeners that the client asked for are being set up.
    AwaitListeners { declared: bool, env: EnvMap, passkey: String },
    /// The client is being told that the session is open.
    Answering { init: Packet },
    /// The terminal is being told to start.
    Starting,
    /// Packets are relayed.
    Relaying,
    /// The session is over.
    Over,
}

/// What a session is at, with what it holds.
pub enum StageView {
    /// The first packet is awaited.
    AwaitPayload,
    /// The terminal is looked for.
    AwaitTerminal { payload: InitialPayloadView },
    /// The listeners that the client asked for, if it did, are being set up
    /// for a terminal that registered with `passkey`.
    AwaitListeners { declared: bool, env: Seq<Var>, passkey: Seq<char> },
    /// The client is being told that the session is open.
    Answering { init: PacketView },
    /// The terminal is being told to start.
    Starting,
    /// Packets are relayed.
    Relaying,
    /// The session is over.
    Over,
}

/// What happens to a session.
pub enum SessionInput {
    /// The first packet did not come in time.
    NoPayload,
    /// The terminal was looked for. If it is there, this is the passkey that
    /// it registered with.
    Looked { passkey: Option<String>, now: u64, deadline: u64 },
    /// The listeners were set up; these are the failures.
    Bound { errors: Vec<String> },
    /// What the session asked to be written was taken, or was not.
    Written { ok: bool },
    /// The connection, the terminal or the forwarding engine put something
    /// out.
    Happened(RelayEvent),
}

/// What a session asks for.
pub enum SessionAction {
    /// Wait for what happens next.
    Wait,
    /// Look for the terminal.
    Look,
    /// Look for the terminal again after [`TERMINAL_POLL_DELAY`].
    Sleep,
    /// Set up listeners.
    Listen(Vec<PortForwardSourceRequest>),
    /// Write a packet to the connection, and say whether it was taken.
    Answer(Packet),
    /// Write bytes to the terminal, and say whether they were taken.
    Start(Vec<u8>),
    /// Do what the relay asks for.
    Relay(RelayAction),
    /// Write a packet to the connection, if there is one, whatever comes of
    /// it; forget the client, and end its connection.
    End { farewell: Option<Packet> },
}

/// One session: the relay between a client and its terminal, and what comes
/// before it.
pub struct Session {
    key: String,
    stage: Stage,
}

/// What a session holds.
pub struct SessionView {
    /// The passkey of the client.
    pub key: Seq<char>,
    pub stage: StageView,
}

impl View for Session {
    type V = SessionView;

    closed spec fn view(&self) -> SessionView {
        SessionView {
            key: self.key@,
            stage: match self.stage {
                Stage::AwaitPayload => StageView::AwaitPayload,
                Stage::AwaitTerminal { payload } => StageView::AwaitTerminal { payload: payload@ },
                Stage::AwaitListeners { declared, env, passkey } => StageView::AwaitListeners {
                    declared,
                    env: env@,
                    passkey: passkey@,
                },
                Stage::Answering { init } => StageView::Answering { init: init@ },
                Stage::Starting => StageView::Starting,
                Stage::Relaying => StageView::Relaying,
                Stage::Over => StageView::Over,
            },
        }
    }
}

/// Whether a session ends, with a last word to the client if there is one.
pub open spec fn ends(after: StageView, res: SessionAction, farewell: Option<PacketView>) -> bool {
    &&& after is Over
    &&& res matches SessionAction::End { farewell: f } && match (f, farewell) {
        (Some(p), Some(q)) => p@ == q,
        (None, None) => true,
        _ => false,
    }
}

/// How a session goes on with its first packet: only an initial payload opens
/// it, and not one that asks for a relay to another server.
pub open spec fn opens(p: PacketView, after: StageView, res: SessionAction) -> bool {
    let payload = if p.header == INITIAL_PAYLOAD {
        InitialPayloadView::parse(p.payload)
    } else {
        None
    };
    match payload {
        None => ends(after, res, None),
        Some(v) => if v.jumphost == Some(true) {
            ends(
                after,
                res,
                Some(
                    initial_response(
                        Some("jumphost mode is not supported by this etserver build"@),
                    ),
                ),
            )
        } else {
            after == (StageView::AwaitTerminal { payload: v }) && res is Look
        },
    }
}

/// How a session goes on once its listeners were set up, for a client with
/// `key` and a terminal with `passkey`. A listener that the client asked for
/// and that cannot be had refuses the session; so does a terminal with another
/// passkey, without a word.
pub open spec fn readies(
    key: Seq<char>,
    declared: bool,
    env: Seq<Var>,
    passkey: Seq<char>,
    errors: Seq<Seq<char>>,
    after: StageView,
    res: SessionAction,
) -> bool {
    if declared && errors.len() > 0 {
        ends(
            after,
            res,
            Some(
                initial_response(
                    Some("could not establish reverse tunnels: "@ + joined_with(errors, "; "@)),
                ),
            ),
        )
    } else if key != passkey {
        ends(after, res, None)
    } else {
        &&& after == (StageView::Answering {
            init: clear_packet(TERMINAL_INIT, init_view(env).bytes()),
        })
        &&& res matches SessionAction::Answer(p) && p@ == initial_response(None)
    }
}

/// Whether a session goes from `before` to `after` and asks for `res` when
/// `input` happens to it. What it did not ask for it passes over.
pub open spec fn steps(
    key: Seq<char>,
    before: StageView,
    input: SessionInput,
    after: StageView,
    res: SessionAction,
) -> bool {
    match (before, input) {
        (StageView::AwaitPayload, SessionInput::NoPayload) => ends(after, res, None),
        (
            StageView::AwaitPayload,
            SessionInput::Happened(RelayEvent::Connection(event)),
        ) => match event {
            Some(BackedEvent::Packet(p)) => opens(p@, after, res),
            Some(BackedEvent::SocketDown) => after == before && res is Wait,
            _ => ends(after, res, None),
        },
        (
            StageView::AwaitTerminal { payload },
            SessionInput::Looked { passkey, now, deadline },
        ) => match passkey {
            Some(k) => {
                &&& after == (StageView::AwaitListeners {
                    declared: payload.reversetunnels.len() > 0,
                    env: payload.environmentvariables,
                    passkey: k@,
                })
                &&& res matches SessionAction::Listen(v) && requests(v@) == payload.reversetunnels
            },
            None => if now >= deadline {
                ends(after, res, None)
            } else {
                after == before && res is Sleep
            },
        },
        (
            StageView::AwaitListeners { declared, env, passkey },
            SessionInput::Bound { errors },
        ) => readies(key, declared, env, passkey, texts(errors@), after, res),
        (StageView::Answering { init }, SessionInput::Written { ok }) => if ok {
            after is Starting && (res matches SessionAction::Start(b) && b@ == proto_frame(
                init.bytes(),
            ))
        } else {
            ends(after, res, None)
        },
        (StageView::Starting, SessionInput::Written { ok }) => if ok {
            after is Relaying && res is Wait
        } else {
            ends(after, res, None)
        },
        (StageView::Relaying, SessionInput::Written { ok }) => if ok {
            after is Relaying && res is Wait
        } else {
            ends(after, res, None)
        },
        (StageView::Relaying, SessionInput::Happened(event)) => if relays(event, RelayAction::End) {
            ends(after, res, None)
        } else {
            after is Relaying && (res matches SessionAction::Relay(a) && relays(event, a))
        },
        _ => after == before && res is Wait,
    }
}

impl Session {
    /// A session for a client with `key`, which has just been let in. It waits
    /// for the first packet.
    pub fn new(key: String) -> (res: Session)
        ensures
            res@.key == key@,
            res@.stage is AwaitPayload,
    {
        Session { key, stage: Stage::AwaitPayload }
    }

    fn end(&mut self, farewell: Option<Packet>) -> (res: SessionAction)
        ensures
            final(self)@.key == old(self)@.key,
            ends(
                final(self)@.stage,
                res,
                match farewell {
                    Some(p) => Some(p@),
                    None => None,
                },
            ),
    {
        self.stage = Stage::Over;
        SessionAction::End { farewell }
    }

    fn open(&mut self, packet: Packet) -> (res: SessionAction)
        ensures
            final(self)@.key == old(self)@.key,
            opens(packet@, final(self)@.stage, res),
    {
        if packet.header() != INITIAL_PAYLOAD {
            return self.end(None);
        }
        let payload = match InitialPayload::decode(packet.payload()) {
            Ok(p) => p,
            Err(_) => {
                return self.end(None);
            },
        };
        let jump = match payload.jumphost {
            Some(b) => b,
            None => false,
        };
        if jump {
            let why = "jumphost mode is not supported by this etserver build".to_owned();
            return self.end(Some(make_initial_response(Some(why))));
        }
        self.stage = Stage::AwaitTerminal { payload };
        SessionAction::Look
    }

    fn ready(&mut self, declared: bool, env: EnvMap, passkey: String, errors: Vec<String>) -> (res:
        SessionAction)
        ensures
            final(self)@.key == old(self)@.key,
            readies(
                old(self)@.key,
                declared,
                env@,
                passkey@,
                texts(errors@),
                final(self)@.stage,
                res,
            ),
    {
        if declared {
            if let Err(all) = bind_result(&errors) {
                let text = joined("could not establish reverse tunnels: ", all.as_str());
                return self.end(Some(make_initial_response(Some(text))));
            }
        }
        if !verify_passkey(self.key.as_str(), passkey.as_str()) {
            return self.end(None);
        }
        let init = make_term_init(&env);
        self.stage = Stage::Answering { init: Packet::new(TERMINAL_INIT, init.encode_to_vec()) };
        SessionAction::Answer(make_initial_response(None))
    }

    /// Something happened: what is to be done about it.
    pub fn step(&mut self, input: SessionInput) -> (res: SessionAction)
        ensures
            final(self)@.key == old(self)@.key,
            steps(old(self)@.key, old(self)@.stage, input, final(self)@.stage, res),
    {
        let mut stage = Stage::Over;
        std::mem::swap(&mut stage, &mut self.stage);
        match (stage, input) {
            (Stage::AwaitPayload, SessionInput::NoPayload) => self.end(None),
            (
                Stage::AwaitPayload,
                SessionInput::Happened(RelayEvent::Connection(event)),
            ) => match event {
                Some(BackedEvent::Packet(p)) => self.open(p),
                Some(BackedEvent::SocketDown) => {
                    self.stage = Stage::AwaitPayload;
                    SessionAction::Wait
                },
                _ => self.end(None),
            },
            (
                Stage::AwaitTerminal { payload },
                SessionInput::Looked { passkey, now, deadline },
            ) => match passkey {
                Some(k) => {
                    let InitialPayload { jumphost: _, reversetunnels, environmentvariables } =
                        payload;
                    self.stage = Stage::AwaitListeners {
                        declared: reversetunnels.len() > 0,
                        env: environmentvariables,
                        passkey: k,
                    };
                    SessionAction::Listen(reversetunnels)
                },
                None => {
                    if now >= deadline {
                        self.end(None)
                    } else {
                        self.stage = Stage::AwaitTerminal { payload };
                        SessionAction::Sleep
                    }
                },
            },
            (
                Stage::AwaitListeners { declared, env, passkey },
                SessionInput::Bound { errors },
            ) => self.ready(declared, env, passkey, errors),
            (Stage::Answering { init }, SessionInput::Written { ok }) => {
                if !ok {
                    return self.end(None);
                }
                let mut out: Vec<u8> = Vec::new();
                write_packet_frame(&mut out, &init);
                assert(out@ =~= proto_frame(init@.bytes()));
                self.stage = Stage::Starting;
                SessionAction::Start(out)
            },
            (Stage::Starting, SessionInput::Written { ok }) => {
                if !ok {
                    return self.end(None);
                }
                self.stage = Stage::Relaying;
                SessionAction::Wait
            },
            (Stage::Relaying, SessionInput::Written { ok }) => {
                if !ok {
                    return self.end(None);
                }
                self.stage = Stage::Relaying;
                SessionAction::Wait
            },
            (Stage::Relaying, SessionInput::Happened(event)) => match relay(event) {
                RelayAction::End => self.end(None),
                action => {
                    self.stage = Stage::Relaying;
                    SessionAction::Relay(action)
                },
            },
            (same, _) => {
                self.stage = same;
                SessionAction::Wait
            },
        }
    }
}

// ---------------------------------------------------------------------------
// Laws
// ---------------------------------------------------------------------------

proof fn lemma_request_reads_back(id: Seq<char>)
    requires
        encode_utf8(id).len() <= u64::MAX,
    ensures
        ({
            let q = ConnectRequestView { client_id: Some(id), version: Some(PROTOCOL_VERSION) };
            ConnectRequestView::parse(q.bytes()) == Some(q)
        }),
{
    let q = ConnectRequestView { client_id: Some(id), version: Some(PROTOCOL_VERSION) };
    let fs = q.fields();
    assert forall|i: int| 0 <= i < fs.len() implies crate::wire::plain(#[trigger] fs[i]) by {}
    crate::messages::law_connect_request_round_trip(q);
}

proof fn lemma_reply_reads_back(status: ConnectStatus, error: Option<Seq<char>>)
    requires
        error matches Some(e) ==> encode_utf8(e).len() <= u64::MAX,
    ensures
        ({
            let r = ConnectResponseView { status: Some(status.code()), error };
            ConnectResponseView::parse(r.bytes()) == Some(r)
        }),
{
    let r = ConnectResponseView { status: Some(status.code()), error };
    let fs = r.fields();
    assert forall|i: int| 0 <= i < fs.len() implies crate::wire::plain(#[trigger] fs[i]) by {}
    crate::messages::law_connect_response_round_trip(r);
}

/// A client and a server agree on what a handshake came to: a client without
/// a connection whose terminal has registered takes itself for new, one with
/// a connection for returning.
pub proof fn law_handshake_agrees<S, C>(
    r: RouterView<S, C>,
    id: Seq<char>,
    admission: Admission,
    verdict: Result<Handshake, ConnectFailure>,
)
    requires
        encode_utf8(id).len() <= u64::MAX,
        admitted(
            r,
            ConnectRequestView { client_id: Some(id), version: Some(PROTOCOL_VERSION) }.bytes(),
            admission,
        ),
        r.clients.contains_key(id) || r.keys.contains_key(id),
        ({
            let status = if r.clients.contains_key(id) {
                ConnectStatus::ReturningClient
            } else {
                ConnectStatus::NewClient
            };
            understood(status, None, verdict)
        }),
    ensures
        r.clients.contains_key(id) ==> admission is Returning && admission->Returning_reply@
            == reply_frame(ConnectStatus::ReturningClient, None) && verdict == Ok::<
            Handshake,
            ConnectFailure,
        >(Handshake::Returning),
        !r.clients.contains_key(id) ==> admission is New && admission->New_reply@ == reply_frame(
            ConnectStatus::NewClient,
            None,
        ) && verdict == Ok::<Handshake, ConnectFailure>(Handshake::NewClient),
{
    lemma_request_reads_back(id);
    lemma_reply_reads_back(ConnectStatus::ReturningClient, None);
    lemma_reply_reads_back(ConnectStatus::NewClient, None);
}

/// Whether `verdict` is what a client makes of the reply with `status` and
/// `error`.
pub open spec fn understood(
    status: ConnectStatus,
    error: Option<Seq<char>>,
    verdict: Result<Handshake, ConnectFailure>,
) -> bool {
    judged_reply(ConnectResponseView { status: Some(status.code()), error }.bytes(), verdict)
}

/// A client that no terminal registered for is told that its key is unknown,
/// and understands it: that ends a session that tries to reconnect.
pub proof fn law_unknown_client_is_refused<S, C>(
    r: RouterView<S, C>,
    id: Seq<char>,
    admission: Admission,
    verdict: Result<Handshake, ConnectFailure>,
)
    requires
        encode_utf8(id).len() <= u64::MAX,
        admitted(
            r,
            ConnectRequestView { client_id: Some(id), version: Some(PROTOCOL_VERSION) }.bytes(),
            admission,
        ),
        !r.clients.contains_key(id),
        !r.keys.contains_key(id),
        understood(ConnectStatus::InvalidKey, Some("Client is not registered"@), verdict),
    ensures
        admission matches Admission::Reject { reply } && reply@ == reply_frame(
            ConnectStatus::InvalidKey,
            Some("Client is not registered"@),
        ),
        verdict matches Err(ConnectFailure::Rejected { status, error }) && status
            == ConnectStatus::InvalidKey && error@ == "Client is not registered"@,
{
    broadcast use vstd::utf8::group_utf8_lib;

    lemma_request_reads_back(id);
    reveal_strlit("Client is not registered");
    let text = "Client is not registered"@;
    assert(vstd::utf8::is_ascii_chars(text));
    assert(encode_utf8(text).len() == text.len());
    lemma_reply_reads_back(ConnectStatus::InvalidKey, Some(text));
}

/// A client of another version is told so, whoever it is, and understands it.
pub proof fn law_other_version_is_refused<S, C>(
    r: RouterView<S, C>,
    request: Seq<u8>,
    admission: Admission,
    verdict: Result<Handshake, ConnectFailure>,
)
    requires
        ConnectRequestView::parse(request) is Some,
        ConnectRequestView::parse(request)->0.version != Some(PROTOCOL_VERSION),
        admitted(r, request, admission),
        ({
            let text = mismatch_text(ConnectRequestView::parse(request)->0.version);
            &&& encode_utf8(text).len() <= u64::MAX
            &&& understood(ConnectStatus::MismatchedProtocol, Some(text), verdict)
        }),
    ensures
        ({
            let text = mismatch_text(ConnectRequestView::parse(request)->0.version);
            &&& admission matches Admission::Reject { reply } && reply@ == reply_frame(
                ConnectStatus::MismatchedProtocol,
                Some(text),
            )
            &&& verdict matches Err(ConnectFailure::Rejected { status, error }) && status
                == ConnectStatus::MismatchedProtocol && error@ == text
        }),
{
    let text = mismatch_text(ConnectRequestView::parse(request)->0.version);
    lemma_reply_reads_back(ConnectStatus::MismatchedProtocol, Some(text));
}

/// A session that has ended is unknown from then on: a client that comes back
/// to it is refused.
pub proof fn law_ended_session_is_unknown<S, C>(
    r: RouterView<S, C>,
    after: RouterView<S, C>,
    id: Seq<char>,
    admission: Admission,
)
    requires
        encode_utf8(id).len() <= u64::MAX,
        after.keys == r.keys.remove(id),
        after.clients == r.clients.remove(id),
        admitted(
            after,
            ConnectRequestView { client_id: Some(id), version: Some(PROTOCOL_VERSION) }.bytes(),
            admission,
        ),
    ensures
        admission matches Admission::Reject { reply } && reply@ == reply_frame(
            ConnectStatus::InvalidKey,
            Some("Client is not registered"@),
        ),
{
    lemma_request_reads_back(id);
}

/// A terminal is relayed to only by a client with its passkey: no session goes
/// on to answer its client while the two differ.
pub proof fn law_passkey_guards(
    key: Seq<char>,
    before: StageView,
    input: SessionInput,
    after: StageView,
    res: SessionAction,
)
    requires
        steps(key, before, input, after, res),
        res is Answer || (after is Answering && !(before is Answering)),
    ensures
        before is AwaitListeners,
        before->passkey == key,
{
}

/// A session comes to its relay in order: the terminal is told to start only
/// after the client was told that the session is open, and packets are relayed
/// only after that.
pub proof fn law_relay_comes_last(
    key: Seq<char>,
    before: StageView,
    input: SessionInput,
    after: StageView,
    res: SessionAction,
)
    requires
        steps(key, before, input, after, res),
    ensures
        res is Start ==> before is Answering && input == (SessionInput::Written { ok: true }),
        after is Relaying ==> before is Relaying || (before is Starting && input == (
        SessionInput::Written { ok: true })),
        res is Relay ==> before is Relaying,
{
}

/// A session that is over stays over, and asks for nothing more.
pub proof fn law_over_is_final(
    key: Seq<char>,
    input: SessionInput,
    after: StageView,
    res: SessionAction,
)
    requires
        steps(key, StageView::Over, input, after, res),
    ensures
        after is Over,
        res is Wait,
{
}

/// A user or group number is kept as it is; one that is missing or below zero
/// counts as zero.
pub proof fn law_numbers_are_kept(n: u32, m: i64)
    ensures
        kept_number(Some(n as i64)) == n,
        m < 0 ==> kept_number(Some(m)) == 0,
        kept_number(None) == 0,
{
}

/// A connection that does not say who it is gets no answer: bytes that are no
/// request, and a request without an id.
pub proof fn law_nameless_connections_are_dropped<S, C>(
    r: RouterView<S, C>,
    request: Seq<u8>,
    res: Admission,
)
    requires
        admitted(r, request, res),
        ConnectRequestView::parse(request) matches Some(q) ==> q.client_id is None && q.version
            == Some(PROTOCOL_VERSION),
    ensures
        res is Drop,
{
}

/// A passkey of 32 bytes is its own key; a shorter one is filled up with zeros,
/// and of a longer one the first 32 bytes count.
pub proof fn law_key_of_a_passkey(passkey: Seq<char>)
    ensures
        ({
            let b = encode_utf8(passkey);
            let k = padded_key(passkey);
            &&& k.len() == 32
            &&& b.len() == 32 ==> k == b
            &&& b.len() > 32 ==> k == b.take(32)
            &&& b.len() < 32 ==> k.take(b.len() as int) == b && (forall|i: int|
                b.len() <= i < 32 ==> #[trigger] k[i] == 0)
        }),
{
    let b = encode_utf8(passkey);
    let k = padded_key(passkey);
    if b.len() == 32 {
        assert(k =~= b);
    } else if b.len() > 32 {
        assert(k =~= b.take(32));
    } else {
        assert(k.take(b.len() as int) =~= b);
    }
}

/// The terminal is looked for until it is there or time is up.
pub proof fn law_terminal_is_awaited(
    key: Seq<char>,
    payload: InitialPayloadView,
    now: u64,
    deadline: u64,
    after: StageView,
    res: SessionAction,
)
    requires
        steps(
            key,
            (StageView::AwaitTerminal { payload }),
            (SessionInput::Looked { passkey: None, now, deadline }),
            after,
            res,
        ),
    ensures
        now < deadline ==> res is Sleep && after == (StageView::AwaitTerminal { payload }),
        now >= deadline ==> res == (SessionAction::End { farewell: None }) && after is Over,
{
}

/// A client with another passkey than its terminal ends without a word, also
/// where its listeners could be set up.
pub proof fn law_wrong_passkey_ends(
    key: Seq<char>,
    declared: bool,
    env: Seq<Var>,
    passkey: Seq<char>,
    errors: Vec<String>,
    after: StageView,
    res: SessionAction,
)
    requires
        key != passkey,
        errors@.len() == 0,
        steps(
            key,
            (StageView::AwaitListeners { declared, env, passkey }),
            (SessionInput::Bound { errors }),
            after,
            res,
        ),
    ensures
        after is Over,
        res == (SessionAction::End { farewell: None }),
{
}

/// Before the relay runs, a session waits through a lost socket, ends where its
/// first packet does not come or its connection does not last, and ends where a
/// write is not taken.
pub proof fn law_before_the_relay(
    key: Seq<char>,
    one: StageView,
    first: SessionAction,
    two: StageView,
    second: SessionAction,
    three: StageView,
    third: SessionAction,
    init: PacketView,
    four: StageView,
    fourth: SessionAction,
    five: StageView,
    fifth: SessionAction,
    six: StageView,
    sixth: SessionAction,
)
    requires
        steps(
            key,
            StageView::AwaitPayload,
            SessionInput::Happened(RelayEvent::Connection(Some(BackedEvent::SocketDown))),
            one,
            first,
        ),
        steps(key, StageView::AwaitPayload, SessionInput::NoPayload, two, second),
        steps(
            key,
            StageView::AwaitPayload,
            SessionInput::Happened(RelayEvent::Connection(None)),
            three,
            third,
        ),
        steps(
            key,
            (StageView::Answering { init }),
            (SessionInput::Written { ok: false }),
            four,
            fourth,
        ),
        steps(key, StageView::Starting, (SessionInput::Written { ok: false }), five, fifth),
        steps(key, StageView::Starting, (SessionInput::Written { ok: true }), six, sixth),
    ensures
        one is AwaitPayload && first is Wait,
        two is Over && second == (SessionAction::End { farewell: None }),
        three is Over && third == (SessionAction::End { farewell: None }),
        four is Over && fourth == (SessionAction::End { farewell: None }),
        five is Over && fifth == (SessionAction::End { farewell: None }),
        six is Relaying && sixth is Wait,
{
}

/// A session goes on when its forwarding engine is gone, and forgets it.
pub proof fn law_engine_may_end(key: Seq<char>, after: StageView, res: SessionAction)
    requires
        steps(
            key,
            StageView::Relaying,
            SessionInput::Happened(RelayEvent::Forwarding(None)),
            after,
            res,
        ),
    ensures
        after is Relaying,
        res == SessionAction::Relay(RelayAction::ForgetEngine),
{
}

/// Packets of the client that mean nothing to a session are passed over.
pub proof fn law_other_packets_are_passed_over(
    key: Seq<char>,
    p: Packet,
    after: StageView,
    res: SessionAction,
)
    requires
        p@.header > 7 || p@.header == 3 || p@.header == 4,
        steps(
            key,
            StageView::Relaying,
            SessionInput::Happened(RelayEvent::Connection(Some(BackedEvent::Packet(p)))),
            after,
            res,
        ),
    ensures
        after is Relaying,
        res == SessionAction::Relay(RelayAction::Nothing),
{
}

/// A terminal registers only with an id and a passkey, and only in a packet of
/// that kind.
pub proof fn law_registration_is_complete(p: PacketView, res: Option<Registration>)
    requires
        registers(p, res),
    ensures
        res is Some ==> p.header == 8 && (TerminalUserInfoView::parse(p.payload) matches Some(i)
            && i.id is Some && i.passkey is Some),
        p.header == 8 && (TerminalUserInfoView::parse(p.payload) matches Some(i) && i.id is Some
            && i.passkey is Some) ==> res is Some,
{
}

/// A session passes over what it did not ask for.
pub proof fn law_unasked_is_passed_over(
    key: Seq<char>,
    before: StageView,
    input: SessionInput,
    after: StageView,
    res: SessionAction,
)
    requires
        steps(key, before, input, after, res),
        match before {
            StageView::AwaitPayload => !(input is NoPayload) && !(
            input matches SessionInput::Happened(RelayEvent::Connection(_))),
            StageView::AwaitTerminal { .. } => !(input is Looked),
            StageView::AwaitListeners { .. } => !(input is Bound),
            StageView::Answering { .. } => !(input is Written),
            StageView::Starting => !(input is Written),
            StageView::Relaying => !(input is Written) && !(input is Happened),
            StageView::Over => true,
        },
    ensures
        after == before,
        res is Wait,
{
}

/// A session owes its client every listener that the client asked for: if one
/// of them cannot be had, the session is refused with a word, however many there
/// are. A client that asked for none is not refused for it.
pub proof fn law_asked_listeners_are_owed(
    key: Seq<char>,
    payload: InitialPayloadView,
    passkey: String,
    now: u64,
    deadline: u64,
    mid: StageView,
    ask: SessionAction,
    errors: Vec<String>,
    after: StageView,
    res: SessionAction,
)
    requires
        steps(
            key,
            (StageView::AwaitTerminal { payload }),
            (SessionInput::Looked { passkey: Some(passkey), now, deadline }),
            mid,
            ask,
        ),
        errors@.len() > 0,
        steps(key, mid, (SessionInput::Bound { errors }), after, res),
    ensures
        ask matches SessionAction::Listen(v) && requests(v@) == payload.reversetunnels,
        payload.reversetunnels.len() > 0 ==> after is Over && (res matches SessionAction::End {
            farewell,
        } && farewell is Some),
        payload.reversetunnels.len() == 0 && passkey@ == key ==> after is Answering
            && res is Answer,
        payload.reversetunnels.len() == 0 && passkey@ != key ==> res == (SessionAction::End {
            farewell: None,
        }),
{
}

} // verus!
