//! A terminal session over a client connection: the opening exchange, and
//! typed access to the packet stream.

use vstd::prelude::*;
use crate::backed::WriteError;
use crate::client::{ClientDeadReason, ConnectFailure, Event};
use crate::et_packet_type::{INITIAL_PAYLOAD, INITIAL_RESPONSE};
use crate::messages::{
    ConnectStatus, InitialPayload, InitialPayloadView, InitialResponse, InitialResponseView, TerminalBuffer,
    TerminalBufferView, TerminalInfo, TerminalInfoView,
};
use crate::packet::{clear_packet, Packet, PacketView};
use crate::terminal_packet_type::{
    KEEP_ALIVE, PORT_FORWARD_DATA, PORT_FORWARD_DESTINATION_REQUEST,
    PORT_FORWARD_DESTINATION_RESPONSE, TERMINAL_BUFFER, TERMINAL_INFO,
};
use crate::text::{copy_bytes, copy_text, joined, texts};

verus! {

/// Nanoseconds of silence before a client probes its server.
pub const DEFAULT_KEEPALIVE: u64 = 5_000_000_000;

/// How long to wait for the answer to the initial payload, in nanoseconds.
pub const INITIAL_RESPONSE_TIMEOUT: u64 = 30_000_000_000;

/// How long a first connection may be refused as unknown while the terminal
/// is still registering, in nanoseconds.
pub const INITIAL_INVALID_KEY_RETRY: u64 = 3_000_000_000;

/// How long to wait between such attempts, in nanoseconds.
pub const INITIAL_RETRY_DELAY: u64 = 200_000_000;

/// Why a session could not be started.
#[derive(Clone, Debug, PartialEq, Eq)]
pub enum StartError {
    Connect(ConnectFailure),
    Write(WriteError),
    Timeout,
    UnexpectedPacket,
    Server(String),
}

impl StartError {
    /// The error in words.
    pub open spec fn words(self) -> Seq<char> {
        match self {
            StartError::Connect(e) => e.words(),
            StartError::Write(WriteError::Skipped) =>
                "write failed: disconnect buffer full, packet skipped"@,
            StartError::Write(WriteError::Shutdown) => "write failed: session is shutting down"@,
            StartError::Timeout => "timed out waiting for INITIAL_RESPONSE"@,
            StartError::UnexpectedPacket => "expected INITIAL_RESPONSE, got a different packet"@,
            StartError::Server(m) => "server refused the session: "@ + m@,
        }
    }

    /// The error in words.
    pub fn message(&self) -> (res: String)
        ensures
            res@ == self.words(),
    {
        match self {
            StartError::Connect(e) => e.message(),
            StartError::Write(WriteError::Skipped) => {
                "write failed: disconnect buffer full, packet skipped".to_owned()
            },
            StartError::Write(WriteError::Shutdown) => {
                "write failed: session is shutting down".to_owned()
            },
            StartError::Timeout => "timed out waiting for INITIAL_RESPONSE".to_owned(),
            StartError::UnexpectedPacket => {
                "expected INITIAL_RESPONSE, got a different packet".to_owned()
            },
            StartError::Server(m) => joined("server refused the session: ", m.as_str()),
        }
    }
}

/// What a session tells its owner.
#[derive(Debug, PartialEq, Eq)]
pub enum SessionEvent {
    /// Shell output.
    TerminalBuffer(Vec<u8>),
    /// The server's echo of a probe.
    KeepAlive,
    /// The last event.
    Dead(ClientDeadReason),
    /// Any other packet.
    Other(Packet),
}

/// Whether `e` is what a packet means to a session. Shell output that cannot
/// be read is handed on as it is.
pub open spec fn session_meaning(p: PacketView, e: SessionEvent) -> bool {
    if p.header == TERMINAL_BUFFER {
        match TerminalBufferView::parse(p.payload) {
            Some(tb) => e matches SessionEvent::TerminalBuffer(b) && b@ == match tb.buffer {
                Some(x) => x,
                None => Seq::empty(),
            },
            None => e matches SessionEvent::Other(q) && q@ == p,
        }
    } else if p.header == KEEP_ALIVE {
        e == SessionEvent::KeepAlive
    } else {
        e matches SessionEvent::Other(q) && q@ == p
    }
}

impl SessionEvent {
    /// What a packet means to a session.
    pub fn from_packet(packet: Packet) -> (res: SessionEvent)
        ensures
            session_meaning(packet@, res),
    {
        if packet.header() == TERMINAL_BUFFER {
            match TerminalBuffer::decode(packet.payload()) {
                Ok(tb) => {
                    let buffer = match tb.buffer {
                        Some(b) => b,
                        None => Vec::new(),
                    };
                    SessionEvent::TerminalBuffer(buffer)
                },
                Err(_) => SessionEvent::Other(packet),
            }
        } else if packet.header() == KEEP_ALIVE {
            SessionEvent::KeepAlive
        } else {
            SessionEvent::Other(packet)
        }
    }
}

/// Whether a header belongs to port forwarding.
pub open spec fn forwards(header: u8) -> bool {
    header == PORT_FORWARD_DATA || header == PORT_FORWARD_DESTINATION_REQUEST || header
        == PORT_FORWARD_DESTINATION_RESPONSE
}

/// Whether a header belongs to port forwarding.
pub fn is_port_forward_header(header: u8) -> (res: bool)
    ensures
        res == forwards(header),
{
    header == PORT_FORWARD_DATA || header == PORT_FORWARD_DESTINATION_REQUEST || header
        == PORT_FORWARD_DESTINATION_RESPONSE
}

/// Whether a failed first connection is tried again: the key is still unknown
/// to the server, and there is time left.
pub open spec fn retried(failure: ConnectFailure, now: u64, deadline: u64) -> bool {
    (failure matches ConnectFailure::Rejected { status, .. } && status
        == ConnectStatus::InvalidKey) && now < deadline
}

/// Whether a failed first connection is tried again.
pub fn retry_initial(failure: &ConnectFailure, now: u64, deadline: u64) -> (res: bool)
    ensures
        res == retried(*failure, now, deadline),
{
    match failure {
        ConnectFailure::Rejected { status: ConnectStatus::InvalidKey, .. } => now < deadline,
        _ => false,
    }
}

/// The packet that opens a session.
pub open spec fn opening_view(payload: InitialPayloadView) -> PacketView {
    clear_packet(INITIAL_PAYLOAD, payload.bytes())
}

/// The packet that opens a session.
pub fn initial_packet(payload: &InitialPayload) -> (res: Packet)
    ensures
        res@ == opening_view(payload@),
{
    Packet::new(INITIAL_PAYLOAD, payload.encode_to_vec())
}

/// Whether a session answers the peer's forwarding requests from the start: it
/// does when it declared reverse tunnels.
pub fn starts_engine(payload: &InitialPayload) -> (res: bool)
    ensures
        res == (payload@.reversetunnels.len() > 0),
{
    payload.reversetunnels.len() > 0
}

/// How the opening of a session goes on.
#[derive(Debug, PartialEq, Eq)]
pub enum StartStep {
    /// Wait for the next event.
    Continue,
    /// The session is open.
    Ready,
    Failed(StartError),
}

/// Whether `res` is what an event means while the answer to the initial
/// payload is awaited. Packets of other kinds are passed over.
pub open spec fn starts(event: Option<Event>, res: StartStep) -> bool {
    match event {
        None => res == StartStep::Failed(StartError::UnexpectedPacket),
        Some(Event::Dead(r)) => res matches StartStep::Failed(StartError::Server(m)) && m@
            == "session died: "@ + r.words(),
        Some(Event::Packet(p)) => if p@.header != INITIAL_RESPONSE {
            res == StartStep::Continue
        } else {
            match InitialResponseView::parse(p@.payload) {
                None => res == StartStep::Failed(StartError::UnexpectedPacket),
                Some(r) => match r.error {
                    Some(e) => res matches StartStep::Failed(StartError::Server(m)) && m@ == e,
                    None => res == StartStep::Ready,
                },
            }
        },
    }
}

/// What an event means while the answer to the initial payload is awaited.
pub fn start_step(event: Option<Event>) -> (res: StartStep)
    ensures
        starts(event, res),
{
    match event {
        None => StartStep::Failed(StartError::UnexpectedPacket),
        Some(Event::Dead(r)) => {
            StartStep::Failed(StartError::Server(joined("session died: ", r.name())))
        },
        Some(Event::Packet(p)) => {
            if p.header() != INITIAL_RESPONSE {
                return StartStep::Continue;
            }
            match InitialResponse::decode(p.payload()) {
                Err(_) => StartStep::Failed(StartError::UnexpectedPacket),
                Ok(r) => match r.error {
                    Some(e) => StartStep::Failed(StartError::Server(e)),
                    None => StartStep::Ready,
                },
            }
        },
    }
}

/// What the opening of a session is at.
enum Stage {
    Connecting { packet: Packet, deadline: u64 },
    Sending,
    Awaiting,
    Over,
}

/// What the opening of a session is at, with what it holds.
pub enum StageView {
    /// The server is being connected to; it is to get this packet.
    Connecting { packet: PacketView, deadline: u64 },
    /// The packet is being written.
    Sending,
    /// The answer is awaited.
    Awaiting,
    /// The session is open, or could not be opened.
    Over,
}

/// What happens while a session is opened.
pub enum StartInput {
    /// The connection was made, or was not.
    Connected { result: Result<(), ConnectFailure>, now: u64 },
    /// The sleep is over.
    Slept,
    /// The packet was taken, or was not.
    Sent(Result<(), WriteError>),
    /// The connection put out an event, or has ended.
    Event(Option<Event>),
    /// No answer came for [`INITIAL_RESPONSE_TIMEOUT`].
    TimedOut,
}

/// What is to be done to open a session.
#[derive(Debug, PartialEq, Eq)]
pub enum StartAction {
    /// Connect to the server.
    Connect,
    /// Sleep for [`INITIAL_RETRY_DELAY`].
    Sleep,
    /// Write a packet to the connection, and say what came of it.
    Send(Packet),
    /// Wait for the next event of the connection.
    Await,
    /// The session is open. Its forwarding engine is to run, if so asked.
    Open { engine: bool },
    Fail(StartError),
}

/// The opening of a session: the connection, which is tried again for a while
/// as long as the server does not know the key, the initial payload, and the
/// answer to it.
pub struct Starter {
    engine: bool,
    stage: Stage,
}

/// What the opening of a session holds.
pub struct StarterView {
    /// Whether the session answers forwarding requests from the start.
    pub engine: bool,
    pub stage: StageView,
}

impl View for Starter {
    type V = StarterView;

    closed spec fn view(&self) -> StarterView {
        StarterView {
            engine: self.engine,
            stage: match self.stage {
                Stage::Connecting { packet, deadline } => StageView::Connecting {
                    packet: packet@,
                    deadline,
                },
                Stage::Sending => StageView::Sending,
                Stage::Awaiting => StageView::Awaiting,
                Stage::Over => StageView::Over,
            },
        }
    }
}

impl StarterView {
    /// The opening of a session with `payload` at time `now`: unknown keys are
    /// bearable for a while.
    pub open spec fn fresh(payload: InitialPayloadView, now: u64) -> StarterView {
        StarterView {
            engine: payload.reversetunnels.len() > 0,
            stage: StageView::Connecting {
                packet: opening_view(payload),
                deadline: if now + INITIAL_INVALID_KEY_RETRY > u64::MAX {
                    u64::MAX
                } else {
                    (now + INITIAL_INVALID_KEY_RETRY) as u64
                },
            },
        }
    }
}

/// Whether the opening goes from `before` to `after` and asks for `res` when
/// `input` happens. What it did not ask for it passes over.
pub open spec fn start_steps(
    before: StarterView,
    input: StartInput,
    after: StarterView,
    res: StartAction,
) -> bool {
    &&& after.engine == before.engine
    &&& match (before.stage, input) {
        (StageView::Connecting { packet, deadline }, StartInput::Connected { result, now }) =>
            match result {
            Ok(_) => after.stage is Sending && (res matches StartAction::Send(p) && p@ == packet),
            Err(e) => if retried(e, now, deadline) {
                after == before && res == StartAction::Sleep
            } else {
                after.stage is Over && res == StartAction::Fail(StartError::Connect(e))
            },
        },
        (StageView::Connecting { .. }, StartInput::Slept) => after == before && res
            == StartAction::Connect,
        (StageView::Sending, StartInput::Sent(result)) => match result {
            Ok(_) => after.stage is Awaiting && res == StartAction::Await,
            Err(e) => after.stage is Over && res == StartAction::Fail(StartError::Write(e)),
        },
        (StageView::Awaiting, StartInput::TimedOut) => after.stage is Over && res
            == StartAction::Fail(StartError::Timeout),
        (StageView::Awaiting, StartInput::Event(event)) => {
            ||| starts(event, StartStep::Continue) && after == before && res == StartAction::Await
            ||| starts(event, StartStep::Ready) && after.stage is Over && res == (
            StartAction::Open { engine: before.engine })
            ||| after.stage is Over && (res matches StartAction::Fail(e) && starts(
                event,
                StartStep::Failed(e),
            ))
        },
        _ => after == before && res == StartAction::Await,
    }
}

impl Starter {
    /// The opening of a session with `payload`, at time `now`. The connection
    /// is to be made.
    pub fn new(payload: &InitialPayload, now: u64) -> (res: Starter)
        ensures
            res@ == StarterView::fresh(payload@, now),
    {
        let deadline: u64 = if now > u64::MAX - INITIAL_INVALID_KEY_RETRY {
            u64::MAX
        } else {
            now + INITIAL_INVALID_KEY_RETRY
        };
        Starter {
            engine: starts_engine(payload),
            stage: Stage::Connecting { packet: initial_packet(payload), deadline },
        }
    }

    /// Something happened: what is to be done about it.
    pub fn step(&mut self, input: StartInput) -> (res: StartAction)
        ensures
            start_steps(old(self)@, input, final(self)@, res),
    {
        let mut stage = Stage::Over;
        std::mem::swap(&mut stage, &mut self.stage);
        match (stage, input) {
            (Stage::Connecting { packet, deadline }, StartInput::Connected { result, now }) => {
                match result {
                    Ok(_) => {
                        self.stage = Stage::Sending;
                        StartAction::Send(packet)
                    },
                    Err(e) => {
                        if retry_initial(&e, now, deadline) {
                            self.stage = Stage::Connecting { packet, deadline };
                            return StartAction::Sleep;
                        }
                        StartAction::Fail(StartError::Connect(e))
                    },
                }
            },
            (Stage::Connecting { packet, deadline }, StartInput::Slept) => {
                self.stage = Stage::Connecting { packet, deadline };
                StartAction::Connect
            },
            (Stage::Sending, StartInput::Sent(result)) => match result {
                Ok(_) => {
                    self.stage = Stage::Awaiting;
                    StartAction::Await
                },
                Err(e) => StartAction::Fail(StartError::Write(e)),
            },
            (Stage::Awaiting, StartInput::TimedOut) => StartAction::Fail(StartError::Timeout),
            (Stage::Awaiting, StartInput::Event(event)) => match start_step(event) {
                StartStep::Continue => {
                    self.stage = Stage::Awaiting;
                    StartAction::Await
                },
                StartStep::Ready => StartAction::Open { engine: self.engine },
                StartStep::Failed(e) => StartAction::Fail(e),
            },
            (same, _) => {
                self.stage = same;
                StartAction::Await
            },
        }
    }
}

/// The packet that carries input to the shell.
pub open spec fn input_view(data: Seq<u8>) -> PacketView {
    clear_packet(TERMINAL_BUFFER, TerminalBufferView { buffer: Some(data) }.bytes())
}

/// The packet that carries input to the shell.
pub fn input_packet(data: &[u8]) -> (res: Packet)
    ensures
        res@ == input_view(data@),
{
    let tb = TerminalBuffer { buffer: Some(copy_bytes(data)) };
    Packet::new(TERMINAL_BUFFER, tb.encode_to_vec())
}

/// The packet that resizes the terminal.
pub open spec fn resize_view(row: i32, column: i32, width: i32, height: i32) -> PacketView {
    clear_packet(
        TERMINAL_INFO,
        TerminalInfoView {
            id: Some(Seq::empty()),
            row: Some(row),
            column: Some(column),
            width: Some(width),
            height: Some(height),
        }.bytes(),
    )
}

/// The packet that resizes the terminal.
pub fn terminal_info_packet(row: i32, column: i32, width: i32, height: i32) -> (res: Packet)
    ensures
        res@ == resize_view(row, column, width, height),
{
    let ti = TerminalInfo {
        id: Some(String::new()),
        row: Some(row),
        column: Some(column),
        width: Some(width),
        height: Some(height),
    };
    assert(ti@.id == Some(Seq::<char>::empty())) by {
        assert(ti.id->0@ =~= Seq::<char>::empty());
    }
    Packet::new(TERMINAL_INFO, ti.encode_to_vec())
}

/// Texts with `sep` between them.
pub open spec fn joined_with(parts: Seq<Seq<char>>, sep: Seq<char>) -> Seq<char>
    decreases parts.len(),
{
    if parts.len() == 0 {
        Seq::empty()
    } else if parts.len() == 1 {
        parts[0]
    } else {
        joined_with(parts.drop_last(), sep) + sep + parts.last()
    }
}

/// What binding listeners amounts to: success, or the errors in one line.
pub fn bind_result(errors: &Vec<String>) -> (res: Result<(), String>)
    ensures
        match res {
            Ok(_) => errors@.len() == 0,
            Err(m) => errors@.len() > 0 && m@ == joined_with(texts(errors@), "; "@),
        },
{
    if errors.len() == 0 {
        return Ok(());
    }
    let ghost all = texts(errors@);
    let mut out = copy_text(errors[0].as_str());
    let mut i: usize = 1;
    assert(all.take(1) =~= seq![all[0]]);
    while i < errors.len()
        invariant
            1 <= i <= errors.len(),
            all == texts(errors@),
            out@ == joined_with(all.take(i as int), "; "@),
        decreases errors.len() - i,
    {
        out.append("; ");
        out.append(errors[i].as_str());
        assert(all.take(i + 1).drop_last() =~= all.take(i as int));
        assert(all.take(i + 1).last() == all[i as int]);
        i += 1;
    }
    assert(all.take(i as int) =~= all);
    Err(out)
}

/// Where an event of the connection goes.
#[derive(Debug, PartialEq, Eq)]
pub enum Routed {
    /// To the port-forwarding engine.
    Engine(Packet),
    /// To the owner of the session.
    Session(SessionEvent),
    /// Nowhere: the connection has ended.
    End,
}

/// Whether `res` is where an event of the connection goes. Port-forwarding
/// packets go to the engine, if there is one; everything else goes to the
/// owner.
pub open spec fn routes(event: Option<Event>, has_engine: bool, res: Routed) -> bool {
    match event {
        None => res == Routed::End,
        Some(Event::Dead(r)) => res == Routed::Session(SessionEvent::Dead(r)),
        Some(Event::Packet(p)) => if forwards(p@.header) && has_engine {
            res == Routed::Engine(p)
        } else {
            res matches Routed::Session(e) && session_meaning(p@, e)
        },
    }
}

/// Where an event of the connection goes.
pub fn route_event(event: Option<Event>, has_engine: bool) -> (res: Routed)
    ensures
        routes(event, has_engine, res),
{
    match event {
        None => Routed::End,
        Some(Event::Dead(r)) => Routed::Session(SessionEvent::Dead(r)),
        Some(Event::Packet(p)) => {
            if has_engine && is_port_forward_header(p.header()) {
                Routed::Engine(p)
            } else {
                Routed::Session(SessionEvent::from_packet(p))
            }
        },
    }
}

/// Input reaches the other side as it was typed: the packet of an input means
/// that input to whoever reads it.
pub proof fn law_input_arrives(data: Seq<u8>, e: SessionEvent)
    requires
        data.len() <= u64::MAX,
        session_meaning(
            clear_packet(TERMINAL_BUFFER, TerminalBufferView { buffer: Some(data) }.bytes()),
            e,
        ),
    ensures
        e matches SessionEvent::TerminalBuffer(b) && b@ == data,
{
    let tb = TerminalBufferView { buffer: Some(data) };
    assert(tb.fields() =~= crate::wire::bytes_field(1, Some(data)));
    crate::messages::law_terminal_buffer_round_trip(tb);
}

/// A session is open only once the server has answered its payload without an
/// error.
pub proof fn law_session_opens_by_consent(
    before: StarterView,
    input: StartInput,
    after: StarterView,
    res: StartAction,
)
    requires
        start_steps(before, input, after, res),
        res is Open,
    ensures
        before.stage is Awaiting,
        input matches StartInput::Event(Some(Event::Packet(p))) && p@.header == INITIAL_RESPONSE
            && InitialResponseView::parse(p@.payload) == Some(InitialResponseView { error: None }),
{
}

/// What keeps a session from opening: a packet that was not taken, time that
/// ran out, the end of the connection, and the server's refusal, in its words.
/// Packets of other kinds do not.
pub proof fn law_opening_fails(
    before: StarterView,
    e: WriteError,
    one: StarterView,
    unsent: StartAction,
    waiting: StarterView,
    two: StarterView,
    late: StartAction,
    three: StarterView,
    ended: StartAction,
    p: Packet,
    four: StarterView,
    passed: StartAction,
)
    requires
        before.stage is Sending,
        start_steps(before, StartInput::Sent(Err(e)), one, unsent),
        waiting.stage is Awaiting,
        start_steps(waiting, StartInput::TimedOut, two, late),
        start_steps(waiting, StartInput::Event(None), three, ended),
        p@.header != 252,
        start_steps(waiting, StartInput::Event(Some(Event::Packet(p))), four, passed),
    ensures
        unsent == StartAction::Fail(StartError::Write(e)),
        late == StartAction::Fail(StartError::Timeout),
        ended is Fail,
        passed == StartAction::Await && four == waiting,
{
}

/// The end of a session is told to its owner, with its reason; after it there is
/// nothing to tell.
pub proof fn law_end_is_told(r: ClientDeadReason, engine: bool, one: Routed, two: Routed)
    requires
        routes(Some(Event::Dead(r)), engine, one),
        routes(None, engine, two),
    ensures
        one == Routed::Session(SessionEvent::Dead(r)),
        two == Routed::End,
{
}

/// Shell output that cannot be read is handed on as it came, and so is every
/// packet of a kind that a session does not know.
pub proof fn law_unreadable_packets_are_handed_on(p: Packet, e: SessionEvent)
    requires
        session_meaning(p@, e),
        p@.header > 1 || (p@.header == 1 && TerminalBufferView::parse(p@.payload) is None),
    ensures
        e matches SessionEvent::Other(q) && q@ == p@,
{
}

/// The opening of a session passes over what it did not ask for.
pub proof fn law_unasked_is_passed_over(
    before: StarterView,
    input: StartInput,
    after: StarterView,
    res: StartAction,
)
    requires
        start_steps(before, input, after, res),
        match before.stage {
            StageView::Connecting { .. } => !(input is Connected) && !(input is Slept),
            StageView::Sending => !(input is Sent),
            StageView::Awaiting => !(input is TimedOut) && !(input is Event),
            StageView::Over => true,
        },
    ensures
        after == before,
        res == StartAction::Await,
{
}

/// An opening goes on from its sleep with the connection, and waits for its
/// answer once the payload was taken.
pub proof fn law_opening_goes_on(
    before: StarterView,
    one: StarterView,
    again: StartAction,
    sending: StarterView,
    two: StarterView,
    wait: StartAction,
)
    requires
        before.stage is Connecting,
        start_steps(before, StartInput::Slept, one, again),
        sending.stage is Sending,
        start_steps(sending, StartInput::Sent(Ok(())), two, wait),
    ensures
        again == StartAction::Connect && one == before,
        wait == StartAction::Await && two.stage is Awaiting && two.engine == sending.engine,
{
}

/// An answer that cannot be read keeps a session from opening, and so does the
/// end of the connection, for its reason.
pub proof fn law_unreadable_answer(
    before: StarterView,
    p: Packet,
    one: StarterView,
    first: StartAction,
    r: ClientDeadReason,
    two: StarterView,
    second: StartAction,
)
    requires
        before.stage is Awaiting,
        p@.header == 252,
        InitialResponseView::parse(p@.payload) is None,
        start_steps(before, StartInput::Event(Some(Event::Packet(p))), one, first),
        start_steps(before, StartInput::Event(Some(Event::Dead(r))), two, second),
    ensures
        first == StartAction::Fail(StartError::UnexpectedPacket),
        one.stage is Over,
        second matches StartAction::Fail(StartError::Server(m)) && m@ == "session died: "@
            + r.words(),
        two.stage is Over,
{
}

/// Joined texts keep their order: what two groups make is what the one makes,
/// the separator, and what the other makes. One text is itself, and none is
/// nothing.
pub proof fn law_joined_texts(
    a: Seq<Seq<char>>,
    b: Seq<Seq<char>>,
    one: Seq<char>,
    sep: Seq<char>,
)
    requires
        a.len() > 0,
        b.len() > 0,
    ensures
        joined_with(a + b, sep) == joined_with(a, sep) + sep + joined_with(b, sep),
        joined_with(seq![one], sep) == one,
        joined_with(Seq::empty(), sep).len() == 0,
    decreases b.len(),
{
    assert((a + b).last() == b.last());
    assert((a + b).drop_last() =~= a + b.drop_last());
    if b.len() == 1 {
        assert(a + b.drop_last() =~= a);
    } else {
        law_joined_texts(a, b.drop_last(), one, sep);
    }
    assert(joined_with(a + b, sep) =~= joined_with(a, sep) + sep + joined_with(b, sep));
}

} // verus!
