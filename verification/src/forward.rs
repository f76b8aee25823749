//! The port-forwarding engine.
//!
//! Both sides of a session run the same engine. It has
//! - sources: local listeners. An accepted connection asks the peer for a
//!   destination; the peer's answer gives it a socket id; from there on what
//!   is read goes to the peer and what the peer sends is written.
//! - destinations: connections opened because the peer asked for one.
//!
//! The state here knows connections by number only. A source connection is
//! known by the number it got when it was accepted, a destination by its
//! socket id. The owner holds the sockets, does what it is told with them,
//! and reports what came of it.

use vstd::prelude::*;
use std::collections::{HashMap, HashSet};
use vstd::std_specs::hash::group_hash_axioms;
use crate::ids::{random_u32, RandomError, MAX_DRAWS};
use crate::messages::{
    requests, PortForwardData, PortForwardDataView, PortForwardDestinationRequest,
    PortForwardDestinationRequestView, PortForwardDestinationResponse,
    PortForwardDestinationResponseView, PortForwardSourceRequest, PortForwardSourceRequestView,
    SocketEndpoint,
};
use crate::packet::{clear_packet, Packet, PacketView};
use crate::terminal_packet_type::{
    PORT_FORWARD_DATA, PORT_FORWARD_DESTINATION_REQUEST, PORT_FORWARD_DESTINATION_RESPONSE,
};
use crate::text::{copy_text, decimal_int, decimal_int_text, texts};
use crate::wire::low_i32;

verus! {

pub const PORT_FORWARD_HEADER: u8 = PORT_FORWARD_DATA;

pub const DESTINATION_REQUEST_HEADER: u8 = PORT_FORWARD_DESTINATION_REQUEST;

pub const DESTINATION_RESPONSE_HEADER: u8 = PORT_FORWARD_DESTINATION_RESPONSE;

/// How long adding listeners to a running engine may take, in nanoseconds.
pub const ADD_SOURCES_BOUND: u64 = 30_000_000_000;

/// A connection that the engine knows.
#[derive(Clone, Copy, Debug, PartialEq, Eq, Hash, Structural)]
pub enum ConnKey {
    /// A source connection, by the number it got when it was accepted.
    Source(u32),
    /// A destination, by its socket id.
    Destination(u32),
}

// ---------------------------------------------------------------------------
// Numbers and packets
// ---------------------------------------------------------------------------

/// A number as a message holds it: the same 32 bits, signed.
pub open spec fn on_wire(x: u32) -> i32 {
    low_i32(x as u64)
}

/// The number that a message holds: the same 32 bits, unsigned.
pub open spec fn off_wire(x: i32) -> u32 {
    if x >= 0 {
        x as u32
    } else {
        (x + 0x1_0000_0000) as u32
    }
}

/// A number comes off the wire as it went on.
pub proof fn law_socket_ids_round_trip(x: u32)
    ensures
        off_wire(on_wire(x)) == x,
{
}

fn to_wire(x: u32) -> (res: i32)
    ensures
        res == on_wire(x),
{
    if x < 0x8000_0000 {
        x as i32
    } else {
        (x as i64 - 0x1_0000_0000) as i32
    }
}

fn from_wire(x: i32) -> (res: u32)
    ensures
        res == off_wire(x),
{
    if x >= 0 {
        x as u32
    } else {
        (x as i64 + 0x1_0000_0000) as u32
    }
}

/// Bytes of a connection.
pub open spec fn data_view(socket_id: u32, from_source: bool, buffer: Seq<u8>) -> PacketView {
    clear_packet(
        PORT_FORWARD_HEADER,
        PortForwardDataView {
            sourcetodestination: Some(from_source),
            socketid: Some(on_wire(socket_id)),
            buffer: Some(buffer),
            error: None,
            closed: None,
        }.bytes(),
    )
}

/// The end of a connection.
pub open spec fn closed_view(socket_id: u32, from_source: bool) -> PacketView {
    clear_packet(
        PORT_FORWARD_HEADER,
        PortForwardDataView {
            sourcetodestination: Some(from_source),
            socketid: Some(on_wire(socket_id)),
            buffer: None,
            error: None,
            closed: Some(true),
        }.bytes(),
    )
}

/// An error of a connection.
pub open spec fn error_view(socket_id: u32, from_source: bool, error: Seq<char>) -> PacketView {
    clear_packet(
        PORT_FORWARD_HEADER,
        PortForwardDataView {
            sourcetodestination: Some(from_source),
            socketid: Some(on_wire(socket_id)),
            buffer: None,
            error: Some(error),
            closed: None,
        }.bytes(),
    )
}

/// The answer to a request for a destination.
pub open spec fn response_view(
    fd: Option<i32>,
    socketid: Option<i32>,
    error: Option<Seq<char>>,
) -> PacketView {
    clear_packet(
        DESTINATION_RESPONSE_HEADER,
        PortForwardDestinationResponseView { clientfd: fd, socketid, error }.bytes(),
    )
}

/// Bytes of a connection.
pub fn data_packet(socket_id: u32, from_source: bool, buffer: Vec<u8>) -> (res: Packet)
    ensures
        res@ == data_view(socket_id, from_source, buffer@),
{
    let m = PortForwardData {
        sourcetodestination: Some(from_source),
        socketid: Some(to_wire(socket_id)),
        buffer: Some(buffer),
        error: None,
        closed: None,
    };
    Packet::new(PORT_FORWARD_HEADER, m.encode_to_vec())
}

/// The end of a connection.
pub fn closed_packet(socket_id: u32, from_source: bool) -> (res: Packet)
    ensures
        res@ == closed_view(socket_id, from_source),
{
    let m = PortForwardData {
        sourcetodestination: Some(from_source),
        socketid: Some(to_wire(socket_id)),
        buffer: None,
        error: None,
        closed: Some(true),
    };
    Packet::new(PORT_FORWARD_HEADER, m.encode_to_vec())
}

/// An error of a connection.
pub fn error_packet(socket_id: u32, from_source: bool, error: &str) -> (res: Packet)
    ensures
        res@ == error_view(socket_id, from_source, error@),
{
    let m = PortForwardData {
        sourcetodestination: Some(from_source),
        socketid: Some(to_wire(socket_id)),
        buffer: None,
        error: Some(copy_text(error)),
        closed: None,
    };
    Packet::new(PORT_FORWARD_HEADER, m.encode_to_vec())
}

fn refusal(fd: Option<i32>, why: &str) -> (res: Packet)
    ensures
        res@ == response_view(fd, None, Some(why@)),
{
    let m = PortForwardDestinationResponse {
        clientfd: fd,
        socketid: None,
        error: Some(copy_text(why)),
    };
    Packet::new(DESTINATION_RESPONSE_HEADER, m.encode_to_vec())
}

// ---------------------------------------------------------------------------
// Listeners
// ---------------------------------------------------------------------------

/// Where a source listens.
pub struct ListenView {
    pub source_idx: int,
    pub host: Seq<char>,
    pub port: i32,
}

/// Where a source listens: at a host, the local one if none is named, and a
/// port. A source without a port does not listen.
pub struct Listen {
    pub source_idx: usize,
    pub host: String,
    pub port: i32,
}

impl View for Listen {
    type V = ListenView;

    open spec fn view(&self) -> ListenView {
        ListenView { source_idx: self.source_idx as int, host: self.host@, port: self.port }
    }
}

/// What is said of a place that cannot be listened at.
pub open spec fn bind_failure(host: Seq<char>, port: i32, why: Seq<char>) -> Seq<char> {
    host + ":"@ + decimal_int(port as int) + ": "@ + why
}

/// Whether a number is a port.
pub open spec fn is_port(n: i32) -> bool {
    0 <= n <= 65535
}

impl Listen {
    /// The port to bind; `None` for a number that is no port.
    pub fn bind_port(&self) -> (res: Option<u16>)
        ensures
            match res {
                Some(p) => is_port(self.port) && p == self.port,
                None => !is_port(self.port),
            },
    {
        if 0 <= self.port && self.port <= 65535 {
            Some(self.port as u16)
        } else {
            None
        }
    }

    /// What is said when the port cannot be bound.
    pub fn bind_error(&self, error: &str) -> (res: String)
        ensures
            res@ == bind_failure(self.host@, self.port, error@),
    {
        let mut s = copy_text(self.host.as_str());
        s.append(":");
        s.append(decimal_int_text(self.port as i64).as_str());
        s.append(": ");
        s.append(error);
        s
    }
}

/// Where a source asks to listen, if it names a port.
pub open spec fn asked_place(source: PortForwardSourceRequestView) -> Option<(Seq<char>, i32)> {
    match source.source {
        Some(e) => match e.port {
            Some(port) => Some(
                (
                    match e.name {
                        Some(n) => n,
                        None => "localhost"@,
                    },
                    port,
                ),
            ),
            None => None,
        },
        None => None,
    }
}

/// The listeners that sources ask for, the first source being number `base`.
/// A number that is no port gets none.
pub open spec fn listeners(sources: Seq<PortForwardSourceRequestView>, base: int) -> Seq<ListenView>
    decreases sources.len(),
{
    if sources.len() == 0 {
        Seq::empty()
    } else {
        let before = listeners(sources.drop_last(), base);
        match asked_place(sources.last()) {
            Some((host, port)) => if is_port(port) {
                before.push(ListenView { source_idx: base + sources.len() - 1, host, port })
            } else {
                before
            },
            None => before,
        }
    }
}

/// What is said of the sources that ask for a number that is no port.
pub open spec fn refusals(sources: Seq<PortForwardSourceRequestView>) -> Seq<Seq<char>>
    decreases sources.len(),
{
    if sources.len() == 0 {
        Seq::empty()
    } else {
        let before = refusals(sources.drop_last());
        match asked_place(sources.last()) {
            Some((host, port)) => if is_port(port) {
                before
            } else {
                before.push(
                    bind_failure(host, port, "port is out of range (must be 0-65535)"@),
                )
            },
            None => before,
        }
    }
}

/// What a list of listeners holds.
pub open spec fn listens(v: Seq<Listen>) -> Seq<ListenView> {
    v.map_values(|l: Listen| l@)
}

/// The listeners that sources ask for, and what is said of those that cannot
/// be: a number that is no port is refused, never cut to fit.
pub fn plan_listeners(sources: &Vec<PortForwardSourceRequest>, base: usize) -> (res: (
    Vec<Listen>,
    Vec<String>,
))
    requires
        base + sources@.len() <= usize::MAX,
    ensures
        listens(res.0@) == listeners(requests(sources@), base as int),
        texts(res.1@) == refusals(requests(sources@)),
{
    let mut out: Vec<Listen> = Vec::new();
    let mut errors: Vec<String> = Vec::new();
    let mut i: usize = 0;
    let ghost all = requests(sources@);
    assert(all.take(0) =~= Seq::<PortForwardSourceRequestView>::empty());
    assert(listens(out@) =~= Seq::<ListenView>::empty());
    assert(texts(errors@) =~= Seq::<Seq<char>>::empty());
    while i < sources.len()
        invariant
            i <= sources@.len(),
            base + sources@.len() <= usize::MAX,
            all == requests(sources@),
            listens(out@) == listeners(all.take(i as int), base as int),
            texts(errors@) == refusals(all.take(i as int)),
        decreases sources.len() - i,
    {
        assert(all.take(i + 1).drop_last() =~= all.take(i as int));
        assert(all.take(i + 1).last() == sources@[i as int]@);
        let ghost before = listens(out@);
        let ghost said = texts(errors@);
        if let Some(e) = &sources[i].source {
            if let Some(port) = e.port {
                let host = match &e.name {
                    Some(n) => copy_text(n.as_str()),
                    None => "localhost".to_owned(),
                };
                let l = Listen { source_idx: base + i, host, port };
                if l.bind_port().is_some() {
                    out.push(l);
                    assert(listens(out@) =~= before.push(l@));
                } else {
                    let error = l.bind_error("port is out of range (must be 0-65535)");
                    errors.push(error);
                    assert(texts(errors@) =~= said.push(error@));
                }
            }
        }
        i += 1;
    }
    assert(all.take(sources@.len() as int) =~= all);
    (out, errors)
}

// ---------------------------------------------------------------------------
// The engine
// ---------------------------------------------------------------------------

/// What an engine holds.
#[verifier::ext_equal]
pub struct EngineView {
    pub sources: Seq<PortForwardSourceRequestView>,
    pub next_conn_id: u32,
    /// Accepted connections that wait for the peer's answer.
    pub pending: Set<u32>,
    /// The source connection of each socket id.
    pub source_sockets: Map<u32, u32>,
    /// The socket id of each source connection.
    pub source_conn_ids: Map<u32, u32>,
    /// The socket ids of the destinations.
    pub destinations: Set<u32>,
}

/// The engine.
pub struct EngineState {
    sources: Vec<PortForwardSourceRequest>,
    next_conn_id: u32,
    pending: HashSet<u32>,
    source_sockets: HashMap<u32, u32>,
    source_conn_ids: HashMap<u32, u32>,
    destinations: HashSet<u32>,
}

impl View for EngineState {
    type V = EngineView;

    closed spec fn view(&self) -> EngineView {
        EngineView {
            sources: requests(self.sources@),
            next_conn_id: self.next_conn_id,
            pending: self.pending@,
            source_sockets: self.source_sockets@,
            source_conn_ids: self.source_conn_ids@,
            destinations: self.destinations@,
        }
    }
}

/// What came of reading from a local connection.
pub enum ReadResult {
    /// Bytes; none at the end of the stream.
    Bytes(Vec<u8>),
    /// An error, in words.
    Failed(String),
}

/// What is to be done after a read: packets to send, in order, and a
/// connection to close.
pub struct ReadOutcome {
    pub send: Vec<Packet>,
    pub close: Option<ConnKey>,
}

/// What a list of packets holds.
pub open spec fn packets(v: Seq<Packet>) -> Seq<PacketView> {
    v.map_values(|p: Packet| p@)
}

/// The packets that tell the peer what came of a read.
pub open spec fn read_packets(socket_id: u32, from_source: bool, r: ReadResult) -> Seq<PacketView> {
    match r {
        ReadResult::Bytes(b) => if b@.len() > 0 {
            seq![data_view(socket_id, from_source, b@)]
        } else {
            seq![closed_view(socket_id, from_source)]
        },
        ReadResult::Failed(e) => seq![
            error_view(socket_id, from_source, e@),
            closed_view(socket_id, from_source),
        ],
    }
}

/// Whether a read ends its connection.
pub open spec fn read_ends(r: ReadResult) -> bool {
    match r {
        ReadResult::Bytes(b) => b@.len() == 0,
        ReadResult::Failed(_) => true,
    }
}

fn make_read_packets(socket_id: u32, from_source: bool, r: ReadResult) -> (res: (Vec<Packet>, bool))
    ensures
        packets(res.0@) == read_packets(socket_id, from_source, r),
        res.1 == read_ends(r),
{
    let mut out: Vec<Packet> = Vec::new();
    match r {
        ReadResult::Bytes(b) => {
            if b.len() > 0 {
                out.push(data_packet(socket_id, from_source, b));
                assert(packets(out@) =~= read_packets(socket_id, from_source, r));
                (out, false)
            } else {
                out.push(closed_packet(socket_id, from_source));
                assert(packets(out@) =~= read_packets(socket_id, from_source, r));
                (out, true)
            }
        },
        ReadResult::Failed(e) => {
            out.push(error_packet(socket_id, from_source, e.as_str()));
            out.push(closed_packet(socket_id, from_source));
            assert(packets(out@) =~= read_packets(socket_id, from_source, r));
            (out, true)
        },
    }
}

/// What is to be done with a packet of the peer.
pub enum PeerOutcome {
    /// Nothing.
    Ignore,
    /// Send an answer.
    Reply(Packet),
    /// Connect to a local port, by `::1` and, failing that, `127.0.0.1`, and
    /// report with [`EngineState::destination_connected`].
    Connect { fd: Option<i32>, port: u16 },
    /// Start the pending connection `conn_id`, and close the one whose socket
    /// id it takes over.
    Open { conn_id: u32, replaced: Option<u32> },
    /// Drop the pending connection: the peer refused it.
    Drop { conn_id: u32 },
    /// Close a connection.
    Close(ConnKey),
    /// Write to a connection; if that fails, close it and report with
    /// [`EngineState::write_failed`].
    Write { to: ConnKey, socket_id: u32, bytes: Vec<u8> },
}

/// What comes of a number that was drawn for a destination.
pub enum SocketOffer {
    /// It is the destination's socket id; the packet tells the peer.
    Added { answer: Packet, socket_id: u32 },
    /// Another destination has it; draw again.
    Taken,
    /// None could be drawn.
    Failed(RandomError),
}

/// What is to be done, as a value of the model.
pub enum PeerStep {
    Ignore,
    Reply(PacketView),
    Connect { fd: Option<i32>, port: u16 },
    Open { conn_id: u32, replaced: Option<u32> },
    Drop { conn_id: u32 },
    Close(ConnKey),
    Write { to: ConnKey, socket_id: u32, bytes: Seq<u8> },
}

impl View for PeerOutcome {
    type V = PeerStep;

    open spec fn view(&self) -> PeerStep {
        match self {
            PeerOutcome::Ignore => PeerStep::Ignore,
            PeerOutcome::Reply(p) => PeerStep::Reply(p@),
            PeerOutcome::Connect { fd, port } => PeerStep::Connect { fd: *fd, port: *port },
            PeerOutcome::Open { conn_id, replaced } => PeerStep::Open {
                conn_id: *conn_id,
                replaced: *replaced,
            },
            PeerOutcome::Drop { conn_id } => PeerStep::Drop { conn_id: *conn_id },
            PeerOutcome::Close(k) => PeerStep::Close(*k),
            PeerOutcome::Write { to, socket_id, bytes } => PeerStep::Write {
                to: *to,
                socket_id: *socket_id,
                bytes: bytes@,
            },
        }
    }
}

/// What a request for a destination leads to. The name of the destination
/// plays no part: only local ports are reached.
pub open spec fn request_step(request: PortForwardDestinationRequestView, enabled: bool) -> PeerStep {
    if !enabled {
        PeerStep::Reply(
            response_view(
                request.fd,
                None,
                Some("port forwarding destinations are not enabled on this session"@),
            ),
        )
    } else {
        let port = match request.destination {
            Some(d) => d.port,
            None => None,
        };
        match port {
            None => PeerStep::Reply(
                response_view(request.fd, None, Some("destination has no port"@)),
            ),
            Some(p) => if 0 <= p <= 65535 {
                PeerStep::Connect { fd: request.fd, port: p as u16 }
            } else {
                PeerStep::Reply(
                    response_view(
                        request.fd,
                        None,
                        Some(
                            "destination port "@ + decimal_int(p as int)
                                + " is out of range (must be 0-65535)"@,
                        ),
                    ),
                )
            },
        }
    }
}

/// The packet that asks for a destination.
pub open spec fn request_view(request: PortForwardDestinationRequestView) -> PacketView {
    clear_packet(DESTINATION_REQUEST_HEADER, request.bytes())
}

/// Whether an engine goes from `v` to `after` when a listener of a source
/// accepts a connection, which then waits under a number while a packet asks
/// the peer for its destination. A source without a destination drops it.
pub open spec fn accepts(
    v: EngineView,
    source_idx: int,
    after: EngineView,
    res: Option<(u32, PacketView)>,
) -> bool {
    let destination = if 0 <= source_idx < v.sources.len() {
        v.sources[source_idx].destination
    } else {
        None
    };
    match destination {
        None => res is None && after == v,
        Some(d) => {
            &&& after == v.with_accepted()
            &&& res == Some(
                (
                    v.next_conn_id,
                    request_view(
                        PortForwardDestinationRequestView {
                            destination: Some(d),
                            fd: Some(on_wire(v.next_conn_id)),
                        },
                    ),
                ),
            )
        },
    }
}

/// Whether an engine goes from `v` to `after` when a number is drawn for a
/// destination, and what becomes of the number.
pub open spec fn offers(
    v: EngineView,
    fd: Option<i32>,
    drawn: Result<u32, RandomError>,
    after: EngineView,
    res: SocketOffer,
) -> bool {
    match drawn {
        Err(e) => res == SocketOffer::Failed(e) && after == v,
        Ok(id) => if v.destinations.contains(id) {
            res is Taken && after == v
        } else {
            &&& after == v.with_destination(id)
            &&& res matches SocketOffer::Added { answer, socket_id } && socket_id == id && answer@
                == response_view(fd, Some(on_wire(id)), None)
        },
    }
}

/// Whether an engine goes from `v` to `after` when the connection that was asked
/// for is made, or is not, with the packet that tells the peer and the number of
/// the destination. It fails only where no free number could be drawn.
pub open spec fn answers_connection(
    v: EngineView,
    fd: Option<i32>,
    connected: bool,
    after: EngineView,
    res: Result<(PacketView, Option<u32>), RandomError>,
) -> bool {
    if !connected {
        &&& after == v
        &&& res == Ok::<(PacketView, Option<u32>), RandomError>(
            (response_view(fd, None, Some("could not connect to destination"@)), None),
        )
    } else {
        match res {
            Ok((p, id)) => id matches Some(s) && !v.destinations.contains(s) && after
                == v.with_destination(s) && p == response_view(fd, Some(on_wire(s)), None),
            Err(e) => after == v && (e == RandomError::Unavailable || exists|id: u32|
                v.destinations.contains(id)),
        }
    }
}

impl EngineView {
    /// An engine that has just been started for `sources`.
    pub open spec fn fresh(sources: Seq<PortForwardSourceRequestView>) -> EngineView {
        EngineView {
            sources,
            next_conn_id: 1,
            pending: Set::empty(),
            source_sockets: Map::empty(),
            source_conn_ids: Map::empty(),
            destinations: Set::empty(),
        }
    }

    /// The engine with more sources after those that it has.
    pub open spec fn with_sources(self, more: Seq<PortForwardSourceRequestView>) -> EngineView {
        EngineView { sources: self.sources + more, ..self }
    }

    /// The engine with a destination under `socket_id`.
    pub open spec fn with_destination(self, socket_id: u32) -> EngineView {
        EngineView { destinations: self.destinations.insert(socket_id), ..self }
    }

    /// What holds between calls: socket ids and source connections stand for
    /// each other one to one, and every number given out so far is either
    /// waiting, open or gone.
    pub open spec fn valid(self) -> bool {
        &&& forall|s: u32| #[trigger]
            self.source_sockets.contains_key(s) ==> self.source_conn_ids.contains_key(
                self.source_sockets[s],
            ) && self.source_conn_ids[self.source_sockets[s]] == s
        &&& forall|c: u32| #[trigger]
            self.source_conn_ids.contains_key(c) ==> self.source_sockets.contains_key(
                self.source_conn_ids[c],
            ) && self.source_sockets[self.source_conn_ids[c]] == c && c < self.next_conn_id
                && !self.pending.contains(c)
        &&& forall|c: u32| #[trigger] self.pending.contains(c) ==> c < self.next_conn_id
    }

    /// Whether a source connection was torn down, or never came to be.
    pub open spec fn gone(self, conn_id: u32) -> bool {
        &&& conn_id < self.next_conn_id
        &&& !self.pending.contains(conn_id)
        &&& !self.source_conn_ids.contains_key(conn_id)
    }

    /// What the peer's answer to a request leads to. A connection whose socket
    /// id it takes over is torn down.
    pub open spec fn on_response(self, r: PortForwardDestinationResponseView) -> (
        EngineView,
        PeerStep,
    ) {
        match r.clientfd {
            None => (self, PeerStep::Ignore),
            Some(fd) => {
                let conn_id = off_wire(fd);
                if !self.pending.contains(conn_id) {
                    (self, PeerStep::Ignore)
                } else {
                    let pending = self.pending.remove(conn_id);
                    match r.socketid {
                        None => (EngineView { pending, ..self }, PeerStep::Drop { conn_id }),
                        Some(s) => {
                            let socket_id = off_wire(s);
                            let kept = self.without(socket_id, false);
                            (
                                EngineView {
                                    pending,
                                    source_sockets: kept.source_sockets.insert(socket_id, conn_id),
                                    source_conn_ids: kept.source_conn_ids.insert(
                                        conn_id,
                                        socket_id,
                                    ),
                                    ..self
                                },
                                PeerStep::Open {
                                    conn_id,
                                    replaced: if self.source_sockets.contains_key(socket_id) {
                                        Some(self.source_sockets[socket_id])
                                    } else {
                                        None
                                    },
                                },
                            )
                        },
                    }
                }
            },
        }
    }

    /// The connection that the peer means by a socket id: what comes from its
    /// sources goes to our destinations, and the other way round.
    pub open spec fn addressed(self, socket_id: u32, from_source: bool) -> Option<ConnKey> {
        if from_source {
            if self.destinations.contains(socket_id) {
                Some(ConnKey::Destination(socket_id))
            } else {
                None
            }
        } else {
            if self.source_sockets.contains_key(socket_id) {
                Some(ConnKey::Source(self.source_sockets[socket_id]))
            } else {
                None
            }
        }
    }

    /// The engine without the connection of a socket id.
    pub open spec fn without(self, socket_id: u32, destination: bool) -> EngineView {
        if destination {
            EngineView { destinations: self.destinations.remove(socket_id), ..self }
        } else if self.source_sockets.contains_key(socket_id) {
            EngineView {
                source_conn_ids: self.source_conn_ids.remove(self.source_sockets[socket_id]),
                source_sockets: self.source_sockets.remove(socket_id),
                ..self
            }
        } else {
            self
        }
    }

    /// The engine after a listener accepted a connection for a source with a
    /// destination.
    pub open spec fn with_accepted(self) -> EngineView {
        EngineView {
            next_conn_id: (self.next_conn_id + 1) as u32,
            pending: self.pending.insert(self.next_conn_id),
            ..self
        }
    }

    /// What bytes, an error or an end from the peer lead to. What is meant for
    /// a connection that is not known is dropped without an answer.
    pub open spec fn on_data(self, d: PortForwardDataView) -> (EngineView, PeerStep) {
        match d.socketid {
            None => (self, PeerStep::Ignore),
            Some(s) => {
                let socket_id = off_wire(s);
                let from_source = d.sourcetodestination == Some(true);
                match self.addressed(socket_id, from_source) {
                    None => (self, PeerStep::Ignore),
                    Some(key) => if d.closed == Some(true) || d.error is Some {
                        (self.without(socket_id, from_source), PeerStep::Close(key))
                    } else {
                        match d.buffer {
                            Some(bytes) => (
                                self,
                                PeerStep::Write { to: key, socket_id, bytes },
                            ),
                            None => (self, PeerStep::Ignore),
                        }
                    },
                }
            },
        }
    }

    /// What a packet of the peer leads to.
    pub open spec fn on_packet(self, p: PacketView, enabled: bool) -> (EngineView, PeerStep) {
        if p.header == DESTINATION_REQUEST_HEADER {
            match PortForwardDestinationRequestView::parse(p.payload) {
                Some(r) => (self, request_step(r, enabled)),
                None => (self, PeerStep::Ignore),
            }
        } else if p.header == DESTINATION_RESPONSE_HEADER {
            match PortForwardDestinationResponseView::parse(p.payload) {
                Some(r) => self.on_response(r),
                None => (self, PeerStep::Ignore),
            }
        } else if p.header == PORT_FORWARD_HEADER {
            match PortForwardDataView::parse(p.payload) {
                Some(d) => self.on_data(d),
                None => (self, PeerStep::Ignore),
            }
        } else {
            (self, PeerStep::Ignore)
        }
    }

    /// What a read from connection `conn_id` leads to: the engine after it,
    /// the packets to send, and the connection to close. A read of a
    /// connection that is gone leads to nothing.
    pub open spec fn on_read(self, conn_id: u32, r: ReadResult) -> (
        EngineView,
        Seq<PacketView>,
        Option<ConnKey>,
    ) {
        if self.source_conn_ids.contains_key(conn_id) {
            let socket_id = self.source_conn_ids[conn_id];
            let send = read_packets(socket_id, true, r);
            if !read_ends(r) {
                (self, send, None)
            } else {
                let kept = self.without(socket_id, false);
                (
                    EngineView { source_conn_ids: kept.source_conn_ids.remove(conn_id), ..kept },
                    send,
                    self.addressed(socket_id, false),
                )
            }
        } else if self.destinations.contains(conn_id) {
            let send = read_packets(conn_id, false, r);
            if !read_ends(r) {
                (self, send, None)
            } else {
                (self.without(conn_id, true), send, Some(ConnKey::Destination(conn_id)))
            }
        } else {
            (self, Seq::empty(), None)
        }
    }
}

impl EngineState {
    /// An engine for sources whose listeners are bound by the owner.
    pub fn new(sources: Vec<PortForwardSourceRequest>) -> (res: EngineState)
        ensures
            res@ == EngineView::fresh(requests(sources@)),
            res@.valid(),
    {
        broadcast use group_hash_axioms;

        EngineState {
            sources,
            next_conn_id: 1,
            pending: HashSet::new(),
            source_sockets: HashMap::new(),
            source_conn_ids: HashMap::new(),
            destinations: HashSet::new(),
        }
    }

    /// Adds sources to those of a running engine.
    pub fn add_sources(&mut self, sources: Vec<PortForwardSourceRequest>)
        ensures
            final(self)@ == old(self)@.with_sources(requests(sources@)),
            old(self)@.valid() ==> final(self)@.valid(),
    {
        let mut more = sources;
        let ghost before = requests(self.sources@);
        let ghost added = requests(more@);
        self.sources.append(&mut more);
        assert(requests(self.sources@) =~= before + added);
    }

    /// The number of sources.
    pub fn source_count(&self) -> (res: usize)
        ensures
            res == self@.sources.len(),
    {
        self.sources.len()
    }

    /// Whether another connection can get a number.
    pub fn can_accept(&self) -> (res: bool)
        ensures
            res == (self@.next_conn_id < u32::MAX),
    {
        self.next_conn_id < u32::MAX
    }

    /// A listener accepted a connection. It waits under the number that comes
    /// back while the packet asks the peer for its destination. A source
    /// without a destination drops it.
    pub fn handle_accepted(&mut self, source_idx: usize) -> (res: Option<(u32, Packet)>)
        requires
            old(self)@.next_conn_id < u32::MAX,
        ensures
            accepts(
                old(self)@,
                source_idx as int,
                final(self)@,
                match res {
                    Some((conn_id, p)) => Some((conn_id, p@)),
                    None => None,
                },
            ),
            old(self)@.valid() ==> final(self)@.valid(),
    {
        broadcast use group_hash_axioms;

        if source_idx >= self.sources.len() {
            return None;
        }
        assert(self@.sources[source_idx as int] == self.sources@[source_idx as int]@);
        let destination = match &self.sources[source_idx].destination {
            None => {
                return None;
            },
            Some(d) => SocketEndpoint {
                name: match &d.name {
                    Some(n) => Some(copy_text(n.as_str())),
                    None => None,
                },
                port: d.port,
            },
        };
        assert(Some(destination@) == self@.sources[source_idx as int].destination);
        let conn_id: u32 = self.next_conn_id;
        self.next_conn_id = conn_id + 1;
        self.pending.insert(conn_id);
        proof {
            assert(self@ =~= old(self)@.with_accepted());
            if old(self)@.valid() {
                lemma_accept_keeps_valid(old(self)@);
            }
        }
        let request = PortForwardDestinationRequest {
            destination: Some(destination),
            fd: Some(to_wire(conn_id)),
        };
        Some((conn_id, Packet::new(DESTINATION_REQUEST_HEADER, request.encode_to_vec())))
    }

    /// A local connection was read from.
    pub fn handle_read(&mut self, conn_id: u32, result: ReadResult) -> (res: ReadOutcome)
        ensures
            ({
                let (next, send, close) = old(self)@.on_read(conn_id, result);
                final(self)@ == next && packets(res.send@) == send && res.close == close
            }),
            old(self)@.valid() ==> final(self)@.valid(),
    {
        broadcast use group_hash_axioms;

        proof {
            if self@.valid() {
                lemma_read_keeps_valid(self@, conn_id, result);
            }
        }

        let source: Option<u32> = match self.source_conn_ids.get(&conn_id) {
            Some(s) => Some(*s),
            None => None,
        };
        if let Some(socket_id) = source {
            let (send, ends) = make_read_packets(socket_id, true, result);
            if !ends {
                return ReadOutcome { send, close: None };
            }
            let close = match self.drop_source(socket_id) {
                Some(c) => Some(ConnKey::Source(c)),
                None => None,
            };
            self.source_conn_ids.remove(&conn_id);
            return ReadOutcome { send, close };
        }
        if self.destinations.contains(&conn_id) {
            let (send, ends) = make_read_packets(conn_id, false, result);
            if !ends {
                return ReadOutcome { send, close: None };
            }
            self.destinations.remove(&conn_id);
            return ReadOutcome { send, close: Some(ConnKey::Destination(conn_id)) };
        }
        let send: Vec<Packet> = Vec::new();
        assert(packets(send@) =~= Seq::<PacketView>::empty());
        ReadOutcome { send, close: None }
    }

    /// Forgets the source connection of a socket id, and which it was.
    fn drop_source(&mut self, socket_id: u32) -> (res: Option<u32>)
        ensures
            final(self)@ == old(self)@.without(socket_id, false),
            match res {
                Some(c) => old(self)@.addressed(socket_id, false) == Some(ConnKey::Source(c)),
                None => old(self)@.addressed(socket_id, false) is None,
            },
    {
        broadcast use group_hash_axioms;

        match self.source_sockets.remove(&socket_id) {
            Some(c) => {
                self.source_conn_ids.remove(&c);
                Some(c)
            },
            None => {
                assert(self@ =~= old(self)@);
                None
            },
        }
    }

    /// The peer asked for a destination.
    fn handle_request(request: &PortForwardDestinationRequest, enabled: bool) -> (res: PeerOutcome)
        ensures
            res@ == request_step(request@, enabled),
    {
        if !enabled {
            return PeerOutcome::Reply(
                refusal(
                    request.fd,
                    "port forwarding destinations are not enabled on this session",
                ),
            );
        }
        let port: Option<i32> = match &request.destination {
            Some(d) => d.port,
            None => None,
        };
        match port {
            None => PeerOutcome::Reply(refusal(request.fd, "destination has no port")),
            Some(p) => {
                if 0 <= p && p <= 65535 {
                    PeerOutcome::Connect { fd: request.fd, port: p as u16 }
                } else {
                    let mut why = "destination port ".to_owned();
                    why.append(decimal_int_text(p as i64).as_str());
                    why.append(" is out of range (must be 0-65535)");
                    PeerOutcome::Reply(refusal(request.fd, why.as_str()))
                }
            },
        }
    }

    /// The peer answered a request.
    fn handle_response(&mut self, response: &PortForwardDestinationResponse) -> (res: PeerOutcome)
        ensures
            (final(self)@, res@) == old(self)@.on_response(response@),
    {
        broadcast use group_hash_axioms;

        let conn_id: u32 = match response.clientfd {
            None => {
                return PeerOutcome::Ignore;
            },
            Some(fd) => from_wire(fd),
        };
        if !self.pending.remove(&conn_id) {
            assert(self@ =~= old(self)@);
            return PeerOutcome::Ignore;
        }
        match response.socketid {
            None => PeerOutcome::Drop { conn_id },
            Some(s) => {
                let socket_id: u32 = from_wire(s);
                let replaced = self.drop_source(socket_id);
                self.source_sockets.insert(socket_id, conn_id);
                self.source_conn_ids.insert(conn_id, socket_id);
                PeerOutcome::Open { conn_id, replaced }
            },
        }
    }

    /// The peer sent bytes, an error or an end.
    fn handle_data(&mut self, data: PortForwardData) -> (res: PeerOutcome)
        ensures
            (final(self)@, res@) == old(self)@.on_data(data@),
    {
        broadcast use group_hash_axioms;

        let socket_id: u32 = match data.socketid {
            None => {
                return PeerOutcome::Ignore;
            },
            Some(s) => from_wire(s),
        };
        let from_source = match data.sourcetodestination {
            Some(b) => b,
            None => false,
        };
        let said_closed = match data.closed {
            Some(b) => b,
            None => false,
        };
        let closed = said_closed || data.error.is_some();
        let key = if from_source {
            if !self.destinations.contains(&socket_id) {
                return PeerOutcome::Ignore;
            }
            ConnKey::Destination(socket_id)
        } else {
            match self.source_sockets.get(&socket_id) {
                Some(c) => ConnKey::Source(*c),
                None => {
                    return PeerOutcome::Ignore;
                },
            }
        };
        if closed {
            if from_source {
                self.destinations.remove(&socket_id);
            } else {
                self.drop_source(socket_id);
            }
            return PeerOutcome::Close(key);
        }
        match data.buffer {
            Some(bytes) => PeerOutcome::Write { to: key, socket_id, bytes },
            None => PeerOutcome::Ignore,
        }
    }

    /// The peer sent a packet. `answer_destinations` says whether it may ask
    /// for destinations.
    pub fn handle_peer_packet(&mut self, packet: &Packet, answer_destinations: bool) -> (res:
        PeerOutcome)
        ensures
            (final(self)@, res@) == old(self)@.on_packet(packet@, answer_destinations),
            old(self)@.valid() ==> final(self)@.valid(),
    {
        proof {
            if self@.valid() {
                lemma_packet_keeps_valid(self@, packet@, answer_destinations);
            }
        }
        if packet.header() == DESTINATION_REQUEST_HEADER {
            match PortForwardDestinationRequest::decode(packet.payload()) {
                Ok(r) => EngineState::handle_request(&r, answer_destinations),
                Err(_) => PeerOutcome::Ignore,
            }
        } else if packet.header() == DESTINATION_RESPONSE_HEADER {
            match PortForwardDestinationResponse::decode(packet.payload()) {
                Ok(r) => self.handle_response(&r),
                Err(_) => PeerOutcome::Ignore,
            }
        } else if packet.header() == PORT_FORWARD_HEADER {
            match PortForwardData::decode(packet.payload()) {
                Ok(d) => self.handle_data(d),
                Err(_) => PeerOutcome::Ignore,
            }
        } else {
            PeerOutcome::Ignore
        }
    }

    /// A write that [`PeerOutcome::Write`] asked for failed: the connection is
    /// forgotten, and what else comes for it is dropped.
    pub fn write_failed(&mut self, to: ConnKey, socket_id: u32)
        ensures
            final(self)@ == old(self)@.without(socket_id, to is Destination),
            old(self)@.valid() ==> final(self)@.valid(),
    {
        broadcast use group_hash_axioms;

        match to {
            ConnKey::Destination(_) => {
                self.destinations.remove(&socket_id);
            },
            ConnKey::Source(_) => {
                self.drop_source(socket_id);
            },
        }
    }

    /// A destination is open under a number that was free: the packet tells
    /// the peer.
    pub fn add_destination(&mut self, fd: Option<i32>, socket_id: u32) -> (res: Packet)
        requires
            !old(self)@.destinations.contains(socket_id),
        ensures
            final(self)@ == old(self)@.with_destination(socket_id),
            res@ == response_view(fd, Some(on_wire(socket_id)), None),
            old(self)@.valid() ==> final(self)@.valid(),
    {
        broadcast use group_hash_axioms;

        self.destinations.insert(socket_id);
        assert(self@ =~= old(self)@.with_destination(socket_id));
        let m = PortForwardDestinationResponse {
            clientfd: fd,
            socketid: Some(to_wire(socket_id)),
            error: None,
        };
        Packet::new(DESTINATION_RESPONSE_HEADER, m.encode_to_vec())
    }

    /// A number was drawn for a destination. One that is free is its socket id;
    /// for one that is taken another is to be drawn.
    pub fn offer_socket_id(&mut self, fd: Option<i32>, drawn: Result<u32, RandomError>) -> (res:
        SocketOffer)
        ensures
            offers(old(self)@, fd, drawn, final(self)@, res),
            old(self)@.valid() ==> final(self)@.valid(),
    {
        broadcast use group_hash_axioms;

        match drawn {
            Err(e) => SocketOffer::Failed(e),
            Ok(id) => {
                if self.destinations.contains(&id) {
                    return SocketOffer::Taken;
                }
                let answer = self.add_destination(fd, id);
                SocketOffer::Added { answer, socket_id: id }
            },
        }
    }

    /// The connection that [`PeerOutcome::Connect`] asked for was made, or was
    /// not: the packet that tells the peer, and the number of the destination.
    /// [`EngineState::offer_socket_id`] says what is made of each number drawn.
    /// Where there are no destinations yet, the first one drawn will do.
    pub fn destination_connected(&mut self, fd: Option<i32>, connected: bool) -> (res: Result<
        (Packet, Option<u32>),
        RandomError,
    >)
        ensures
            answers_connection(
                old(self)@,
                fd,
                connected,
                final(self)@,
                match res {
                    Ok((p, id)) => Ok((p@, id)),
                    Err(e) => Err(e),
                },
            ),
            old(self)@.valid() ==> final(self)@.valid(),
    {
        if !connected {
            return Ok((refusal(fd, "could not connect to destination"), None));
        }
        let mut draws: u32 = 0;
        while draws < MAX_DRAWS
            invariant
                connected,
                draws <= MAX_DRAWS,
                self@ == old(self)@,
                draws > 0 ==> exists|id: u32| old(self)@.destinations.contains(id),
            decreases MAX_DRAWS - draws,
        {
            let drawn = random_u32();
            match self.offer_socket_id(fd, drawn) {
                SocketOffer::Failed(e) => {
                    return Err(e);
                },
                SocketOffer::Added { answer, socket_id } => {
                    return Ok((answer, Some(socket_id)));
                },
                SocketOffer::Taken => {
                    assert(old(self)@.destinations.contains(drawn->Ok_0));
                },
            }
            draws += 1;
        }
        Err(RandomError::Exhausted)
    }
}

// ---------------------------------------------------------------------------
// Laws
// ---------------------------------------------------------------------------

proof fn lemma_data_reads_back(d: PortForwardDataView)
    requires
        d.buffer matches Some(b) ==> b.len() <= u64::MAX,
        d.error matches Some(e) ==> vstd::utf8::encode_utf8(e).len() <= u64::MAX,
    ensures
        PortForwardDataView::parse(d.bytes()) == Some(d),
{
    let fs = d.fields();
    assert forall|i: int| 0 <= i < fs.len() implies crate::wire::plain(#[trigger] fs[i]) by {}
    crate::messages::law_port_forward_data_round_trip(d);
}

/// What is read at a source arrives at the peer's destination of the same
/// socket id, byte for byte.
pub proof fn law_source_bytes_arrive(
    a: EngineView,
    b: EngineView,
    conn_id: u32,
    bytes: Vec<u8>,
    enabled: bool,
)
    requires
        a.source_conn_ids.contains_key(conn_id),
        b.destinations.contains(a.source_conn_ids[conn_id]),
        bytes@.len() > 0,
    ensures
        ({
            let socket_id = a.source_conn_ids[conn_id];
            let (after, send, close) = a.on_read(conn_id, ReadResult::Bytes(bytes));
            &&& after == a
            &&& close is None
            &&& send.len() == 1
            &&& b.on_packet(send[0], enabled) == (
                b,
                PeerStep::Write {
                    to: ConnKey::Destination(socket_id),
                    socket_id,
                    bytes: bytes@,
                },
            )
        }),
{
    let socket_id = a.source_conn_ids[conn_id];
    let d = PortForwardDataView {
        sourcetodestination: Some(true),
        socketid: Some(on_wire(socket_id)),
        buffer: Some(bytes@),
        error: None,
        closed: None,
    };
    assert(bytes@.len() == bytes.len());
    lemma_data_reads_back(d);
    law_socket_ids_round_trip(socket_id);
}

/// What is read at a destination arrives at the peer's source connection of
/// the same socket id, byte for byte.
pub proof fn law_destination_bytes_arrive(
    a: EngineView,
    b: EngineView,
    socket_id: u32,
    bytes: Vec<u8>,
    enabled: bool,
)
    requires
        b.destinations.contains(socket_id),
        !b.source_conn_ids.contains_key(socket_id),
        a.source_sockets.contains_key(socket_id),
        bytes@.len() > 0,
    ensures
        ({
            let (after, send, close) = b.on_read(socket_id, ReadResult::Bytes(bytes));
            &&& after == b
            &&& close is None
            &&& send.len() == 1
            &&& a.on_packet(send[0], enabled) == (
                a,
                PeerStep::Write {
                    to: ConnKey::Source(a.source_sockets[socket_id]),
                    socket_id,
                    bytes: bytes@,
                },
            )
        }),
{
    let d = PortForwardDataView {
        sourcetodestination: Some(false),
        socketid: Some(on_wire(socket_id)),
        buffer: Some(bytes@),
        error: None,
        closed: None,
    };
    assert(bytes@.len() == bytes.len());
    lemma_data_reads_back(d);
    law_socket_ids_round_trip(socket_id);
}

/// The end of a source connection ends the tunnel on both sides: the source
/// is forgotten here, and the peer closes and forgets its destination.
pub proof fn law_end_reaches_peer(a: EngineView, b: EngineView, conn_id: u32, empty: Vec<u8>, enabled: bool)
    requires
        a.source_conn_ids.contains_key(conn_id),
        b.destinations.contains(a.source_conn_ids[conn_id]),
        empty@.len() == 0,
    ensures
        ({
            let socket_id = a.source_conn_ids[conn_id];
            let (after, send, close) = a.on_read(conn_id, ReadResult::Bytes(empty));
            &&& !after.source_conn_ids.contains_key(conn_id)
            &&& !after.source_sockets.contains_key(socket_id)
            &&& send.len() == 1
            &&& b.on_packet(send[0], enabled) == (
                b.without(socket_id, true),
                PeerStep::Close(ConnKey::Destination(socket_id)),
            )
            &&& !b.without(socket_id, true).destinations.contains(socket_id)
        }),
{
    let socket_id = a.source_conn_ids[conn_id];
    let d = PortForwardDataView {
        sourcetodestination: Some(true),
        socketid: Some(on_wire(socket_id)),
        buffer: None,
        error: None,
        closed: Some(true),
    };
    lemma_data_reads_back(d);
    law_socket_ids_round_trip(socket_id);
}

/// The end of a destination ends the tunnel on both sides: it is forgotten
/// here, and the peer closes and forgets its source connection.
pub proof fn law_destination_end_reaches_peer(
    a: EngineView,
    b: EngineView,
    socket_id: u32,
    empty: Vec<u8>,
    enabled: bool,
)
    requires
        b.destinations.contains(socket_id),
        !b.source_conn_ids.contains_key(socket_id),
        a.source_sockets.contains_key(socket_id),
        empty@.len() == 0,
    ensures
        ({
            let (after, send, close) = b.on_read(socket_id, ReadResult::Bytes(empty));
            &&& !after.destinations.contains(socket_id)
            &&& close == Some(ConnKey::Destination(socket_id))
            &&& send.len() == 1
            &&& a.on_packet(send[0], enabled) == (
                a.without(socket_id, false),
                PeerStep::Close(ConnKey::Source(a.source_sockets[socket_id])),
            )
            &&& !a.without(socket_id, false).source_sockets.contains_key(socket_id)
        }),
{
    let d = PortForwardDataView {
        sourcetodestination: Some(false),
        socketid: Some(on_wire(socket_id)),
        buffer: None,
        error: None,
        closed: Some(true),
    };
    lemma_data_reads_back(d);
    law_socket_ids_round_trip(socket_id);
}

/// An error at a source connection ends the tunnel on both sides: the peer
/// closes and forgets its destination at the error, and passes over the end
/// that follows it.
pub proof fn law_error_reaches_peer(
    a: EngineView,
    b: EngineView,
    conn_id: u32,
    error: String,
    enabled: bool,
)
    requires
        a.source_conn_ids.contains_key(conn_id),
        b.destinations.contains(a.source_conn_ids[conn_id]),
        vstd::utf8::encode_utf8(error@).len() <= u64::MAX,
    ensures
        ({
            let socket_id = a.source_conn_ids[conn_id];
            let (after, send, close) = a.on_read(conn_id, ReadResult::Failed(error));
            let gone = b.without(socket_id, true);
            &&& !after.source_conn_ids.contains_key(conn_id)
            &&& send.len() == 2
            &&& b.on_packet(send[0], enabled) == (
                gone,
                PeerStep::Close(ConnKey::Destination(socket_id)),
            )
            &&& gone.on_packet(send[1], enabled) == (gone, PeerStep::Ignore)
        }),
{
    let socket_id = a.source_conn_ids[conn_id];
    let d = PortForwardDataView {
        sourcetodestination: Some(true),
        socketid: Some(on_wire(socket_id)),
        buffer: None,
        error: Some(error@),
        closed: None,
    };
    lemma_data_reads_back(d);
    lemma_data_reads_back(PortForwardDataView { error: None, closed: Some(true), ..d });
    law_socket_ids_round_trip(socket_id);
}

/// A request and its answer meet: the peer's answer to a connection that
/// waits gives exactly that connection its socket id.
pub proof fn law_answer_finds_connection(a: EngineView, conn_id: u32, socket_id: u32, enabled: bool)
    requires
        a.pending.contains(conn_id),
    ensures
        ({
            let answer = response_view(Some(on_wire(conn_id)), Some(on_wire(socket_id)), None);
            let (after, step) = a.on_packet(answer, enabled);
            &&& step is Open
            &&& step->Open_conn_id == conn_id
            &&& !after.pending.contains(conn_id)
            &&& after.source_sockets[socket_id] == conn_id
            &&& after.source_conn_ids[conn_id] == socket_id
        }),
{
    let m = PortForwardDestinationResponseView {
        clientfd: Some(on_wire(conn_id)),
        socketid: Some(on_wire(socket_id)),
        error: None,
    };
    let fs = m.fields();
    assert forall|i: int| 0 <= i < fs.len() implies crate::wire::plain(#[trigger] fs[i]) by {}
    crate::messages::law_port_forward_destination_response_round_trip(m);
    law_socket_ids_round_trip(conn_id);
    law_socket_ids_round_trip(socket_id);
}

/// No listener is ever bound to a port that nobody asked for: each that is
/// planned has the very port of its source, which is one.
pub proof fn law_listeners_have_their_ports(
    sources: Seq<PortForwardSourceRequestView>,
    base: int,
    i: int,
)
    requires
        0 <= i < listeners(sources, base).len(),
    ensures
        ({
            let l = listeners(sources, base)[i];
            &&& base <= l.source_idx < base + sources.len()
            &&& asked_place(sources[l.source_idx - base]) == Some((l.host, l.port))
            &&& is_port(l.port)
        }),
    decreases sources.len(),
{
    let before = listeners(sources.drop_last(), base);
    if i < before.len() {
        law_listeners_have_their_ports(sources.drop_last(), base, i);
    }
}

proof fn lemma_accept_keeps_valid(v: EngineView)
    requires
        v.valid(),
        v.next_conn_id < u32::MAX,
    ensures
        v.with_accepted().valid(),
{
}

proof fn lemma_packet_keeps_valid(v: EngineView, p: PacketView, enabled: bool)
    requires
        v.valid(),
    ensures
        v.on_packet(p, enabled).0.valid(),
{
}

proof fn lemma_read_keeps_valid(v: EngineView, conn_id: u32, r: ReadResult)
    requires
        v.valid(),
    ensures
        v.on_read(conn_id, r).0.valid(),
{
}

/// Whatever happens to an engine, socket ids and source connections keep
/// standing for each other one to one.
pub proof fn law_engine_stays_valid(
    v: EngineView,
    p: PacketView,
    enabled: bool,
    conn_id: u32,
    r: ReadResult,
)
    requires
        v.valid(),
    ensures
        v.on_packet(p, enabled).0.valid(),
        v.on_read(conn_id, r).0.valid(),
        forall|s: u32, destination: bool| #[trigger] v.without(s, destination).valid(),
        v.next_conn_id < u32::MAX ==> v.with_accepted().valid(),
{
    lemma_packet_keeps_valid(v, p, enabled);
    lemma_read_keeps_valid(v, conn_id, r);
}

/// Whether nothing of the source tunnel on connection `conn_id` follows when
/// the connection is read: no frame of a source is sent, no source changes and
/// none is closed. Unless a destination bears the same number, there is no
/// frame at all and no change; if one does, the read counts as its own.
pub open spec fn nothing_follows(v: EngineView, conn_id: u32, r: ReadResult) -> bool {
    let (next, send, close) = v.on_read(conn_id, r);
    if v.destinations.contains(conn_id) {
        &&& send == read_packets(conn_id, false, r)
        &&& !(close is Some && close->Some_0 is Source)
        &&& next == (EngineView { destinations: next.destinations, ..v })
    } else {
        next == v && send == Seq::<PacketView>::empty() && close is None
    }
}

/// No frame follows the teardown of a source tunnel. Once the peer has closed
/// it, a write to it has failed, its end was read, or another connection has
/// taken its socket id over, nothing of it follows a read that trails behind on
/// its connection.
pub proof fn law_nothing_follows_a_teardown(
    v: EngineView,
    p: PacketView,
    enabled: bool,
    socket_id: u32,
    conn_id: u32,
    last: ReadResult,
    r: ReadResult,
)
    requires
        v.valid(),
    ensures
        ({
            let (after, step) = v.on_packet(p, enabled);
            (step == PeerStep::Close(ConnKey::Source(conn_id)) || (step is Open
                && step->replaced == Some(conn_id))) ==> after.gone(conn_id) && nothing_follows(
                after,
                conn_id,
                r,
            )
        }),
        v.addressed(socket_id, false) == Some(ConnKey::Source(conn_id)) ==> {
            let after = v.without(socket_id, false);
            after.gone(conn_id) && nothing_follows(after, conn_id, r)
        },
        v.source_conn_ids.contains_key(conn_id) && read_ends(last) ==> {
            let after = v.on_read(conn_id, last).0;
            after.gone(conn_id) && nothing_follows(after, conn_id, r)
        },
        v.gone(conn_id) ==> nothing_follows(v, conn_id, r),
{
}

/// Whether nothing of a closed destination follows when its connection is read:
/// no destination changes or is closed, and no frame of one is sent. Unless a
/// source connection bears the same number, there is no frame at all and no
/// change; if one does, the read counts as its own.
pub open spec fn nothing_follows_there(v: EngineView, socket_id: u32, r: ReadResult) -> bool {
    let (next, send, close) = v.on_read(socket_id, r);
    if v.source_conn_ids.contains_key(socket_id) {
        &&& send == read_packets(v.source_conn_ids[socket_id], true, r)
        &&& !(close is Some && close->Some_0 is Destination)
        &&& next.destinations == v.destinations
    } else {
        next == v && send == Seq::<PacketView>::empty() && close is None
    }
}

/// No frame follows the teardown of a destination. Once the peer has closed it,
/// a write to it has failed or its end was read, nothing of it follows a read
/// that trails behind on its connection.
pub proof fn law_nothing_follows_a_closed_destination(
    v: EngineView,
    p: PacketView,
    enabled: bool,
    socket_id: u32,
    last: ReadResult,
    r: ReadResult,
)
    ensures
        ({
            let (after, step) = v.on_packet(p, enabled);
            step == PeerStep::Close(ConnKey::Destination(socket_id))
                ==> !after.destinations.contains(socket_id) && nothing_follows_there(
                after,
                socket_id,
                r,
            )
        }),
        nothing_follows_there(v.without(socket_id, true), socket_id, r),
        ({
            let (after, send, close) = v.on_read(socket_id, last);
            close == Some(ConnKey::Destination(socket_id)) ==> !after.destinations.contains(
                socket_id,
            ) && nothing_follows_there(after, socket_id, r)
        }),
{
}

/// A source connection that was torn down stays down, whatever happens next.
pub proof fn law_torn_down_stays_down(
    v: EngineView,
    gone: u32,
    p: PacketView,
    enabled: bool,
    conn_id: u32,
    r: ReadResult,
    socket_id: u32,
    destination: bool,
)
    requires
        v.valid(),
        v.gone(gone),
    ensures
        v.on_packet(p, enabled).0.gone(gone),
        v.on_read(conn_id, r).0.gone(gone),
        v.without(socket_id, destination).gone(gone),
        v.next_conn_id < u32::MAX ==> v.with_accepted().gone(gone),
{
}

/// Nothing that the peer sends for a connection is answered with a packet: two
/// engines that have both lost a connection do not keep writing to each other.
pub proof fn law_data_is_never_answered(v: EngineView, p: PacketView, enabled: bool)
    requires
        p.header == PORT_FORWARD_HEADER,
    ensures
        !(v.on_packet(p, enabled).1 is Reply),
        !(v.on_packet(p, enabled).1 is Connect),
{
}

/// A session that did not opt in opens no connection for its peer.
pub proof fn law_no_destination_without_consent(v: EngineView, p: PacketView)
    ensures
        !(v.on_packet(p, false).1 is Connect),
{
}

proof fn lemma_request_reads_back(request: PortForwardDestinationRequestView)
    requires
        request.bytes().len() <= u64::MAX,
    ensures
        PortForwardDestinationRequestView::parse(request_view(request).payload) == Some(request),
        request_view(request).header == 5,
{
    crate::layout::law_port_forward_destination_request_layout(request);
}

proof fn lemma_response_reads_back(response: PortForwardDestinationResponseView)
    requires
        response.error matches Some(e) ==> vstd::utf8::encode_utf8(e).len() <= u64::MAX,
    ensures
        PortForwardDestinationResponseView::parse(response.bytes()) == Some(response),
{
    let fs = response.fields();
    assert forall|i: int| 0 <= i < fs.len() implies crate::wire::plain(#[trigger] fs[i]) by {}
    crate::messages::law_port_forward_destination_response_round_trip(response);
}

/// A request for a destination with a port leads to a connection to that port,
/// under the number of the request, whatever the destination is called, also if
/// it has no name. Every other request is refused, under its number, with a
/// reason; so is each where destinations are not enabled. The engine itself
/// stays as it is.
pub proof fn law_request_connects(
    v: EngineView,
    fd: Option<i32>,
    name: Option<Seq<char>>,
    port: Option<i32>,
    request: PortForwardDestinationRequestView,
    enabled: bool,
)
    requires
        request.destination matches Some(d) && d.name == name && d.port == port,
        request.fd == fd,
        request.bytes().len() <= u64::MAX,
    ensures
        ({
            let (after, step) = v.on_packet(request_view(request), enabled);
            let good = port matches Some(p) && 0 <= p <= 65535;
            &&& after == v
            &&& enabled && good ==> step == (PeerStep::Connect { fd, port: port->0 as u16 })
            &&& !enabled || !good ==> step is Reply && exists|why: Seq<char>|
                step == PeerStep::Reply(#[trigger] response_view(fd, None, Some(why)))
        }),
{
    lemma_request_reads_back(request);
}

/// A request that names no destination is refused.
pub proof fn law_request_without_destination(
    v: EngineView,
    request: PortForwardDestinationRequestView,
    enabled: bool,
)
    requires
        request.destination is None,
        request.bytes().len() <= u64::MAX,
    ensures
        v.on_packet(request_view(request), enabled).0 == v,
        v.on_packet(request_view(request), enabled).1 is Reply,
{
    lemma_request_reads_back(request);
}

/// A refusal drops the connection that asked, and only that one.
pub proof fn law_refusal_drops(v: EngineView, conn_id: u32, why: Seq<char>, enabled: bool)
    requires
        v.pending.contains(conn_id),
        vstd::utf8::encode_utf8(why).len() <= u64::MAX,
    ensures
        ({
            let refusal = response_view(Some(on_wire(conn_id)), None, Some(why));
            let (after, step) = v.on_packet(refusal, enabled);
            &&& step == (PeerStep::Drop { conn_id })
            &&& after == (EngineView { pending: v.pending.remove(conn_id), ..v })
        }),
{
    lemma_response_reads_back(
        PortForwardDestinationResponseView {
            clientfd: Some(on_wire(conn_id)),
            socketid: None,
            error: Some(why),
        },
    );
    law_socket_ids_round_trip(conn_id);
}

/// A tunnel comes up: a connection that is accepted for a source makes the
/// peer's engine connect to the port of the source's destination; the peer's
/// answer gives the connection the socket id of the new destination. From there
/// on each side knows the tunnel by that id.
pub proof fn law_tunnel_comes_up(
    a: EngineView,
    b: EngineView,
    source_idx: int,
    port: i32,
    waiting: EngineView,
    asked: Option<(u32, PacketView)>,
    socket_id: u32,
    enabled: bool,
)
    requires
        a.valid(),
        a.next_conn_id < u32::MAX,
        0 <= source_idx < a.sources.len(),
        a.sources[source_idx].destination matches Some(d) && d.port == Some(port),
        0 <= port <= 65535,
        accepts(a, source_idx, waiting, asked),
        asked matches Some((c, p)) ==> p.payload.len() <= u64::MAX,
        !b.destinations.contains(socket_id),
    ensures
        asked is Some,
        ({
            let conn_id = asked->Some_0.0;
            let (same, step) = b.on_packet(asked->Some_0.1, true);
            let there = b.with_destination(socket_id);
            let answer = response_view(step->fd, Some(on_wire(socket_id)), None);
            let (open, opened) = waiting.on_packet(answer, enabled);
            &&& same == b
            &&& step is Connect
            &&& step->port == port
            &&& conn_id == a.next_conn_id
            &&& waiting.pending.contains(conn_id)
            &&& waiting.next_conn_id == conn_id + 1
            &&& opened is Open
            &&& opened->Open_conn_id == conn_id
            &&& open.source_conn_ids.contains_key(conn_id)
            &&& open.source_conn_ids[conn_id] == socket_id
            &&& open.source_sockets.contains_key(socket_id)
            &&& open.source_sockets[socket_id] == conn_id
            &&& !open.pending.contains(conn_id)
            &&& there.destinations.contains(socket_id)
            &&& there.sources == b.sources
        }),
{
    let d = a.sources[source_idx].destination->0;
    let request = PortForwardDestinationRequestView {
        destination: Some(d),
        fd: Some(on_wire(a.next_conn_id)),
    };
    lemma_request_reads_back(request);
    law_answer_finds_connection(waiting, a.next_conn_id, socket_id, enabled);
    lemma_response_reads_back(
        PortForwardDestinationResponseView {
            clientfd: Some(on_wire(a.next_conn_id)),
            socketid: Some(on_wire(socket_id)),
            error: None,
        },
    );
    law_socket_ids_round_trip(a.next_conn_id);
    law_socket_ids_round_trip(socket_id);
}

/// Every source that a tunnel argument asks for leads where the argument says:
/// a connection accepted for it makes the peer connect to the port of its
/// destination.
pub proof fn law_argument_leads_to_its_port(
    input: Seq<char>,
    source_idx: int,
    b: EngineView,
    waiting: EngineView,
    asked: Option<(u32, PacketView)>,
)
    requires
        crate::tunnel::ranges(input) is Ok,
        0 <= source_idx < crate::tunnel::ranges(input)->Ok_0.len(),
        accepts(
            EngineView::fresh(crate::tunnel::ranges(input)->Ok_0),
            source_idx,
            waiting,
            asked,
        ),
        asked matches Some((c, p)) ==> p.payload.len() <= u64::MAX,
    ensures
        ({
            let r = crate::tunnel::ranges(input)->Ok_0[source_idx];
            let (same, step) = b.on_packet(asked->Some_0.1, true);
            &&& asked is Some
            &&& same == b
            &&& step == (PeerStep::Connect {
                fd: Some(on_wire(asked->Some_0.0)),
                port: r.destination->0.port->0 as u16,
            })
            &&& r.destination->0.port->0 == r.destination->0.port->0 as u16
        }),
{
    crate::tunnel::law_ports_in_range(input, source_idx);
    let d = crate::tunnel::ranges(input)->Ok_0[source_idx].destination->0;
    lemma_request_reads_back(
        PortForwardDestinationRequestView { destination: Some(d), fd: Some(on_wire(1)) },
    );
}

/// Every source with a port gets its listener: at the host that it names, the
/// local one if it names none, and under its own number.
pub proof fn law_every_source_listens(
    sources: Seq<PortForwardSourceRequestView>,
    base: int,
    i: int,
    host: Option<Seq<char>>,
    port: i32,
)
    requires
        0 <= i < sources.len(),
        sources[i].source matches Some(e) && e.name == host && e.port == Some(port),
        0 <= port <= 65535,
    ensures
        listeners(sources, base).contains(
            (ListenView {
                source_idx: base + i,
                host: match host {
                    Some(h) => h,
                    None => "localhost"@,
                },
                port,
            }),
        ),
    decreases sources.len(),
{
    let l = ListenView {
        source_idx: base + i,
        host: match host {
            Some(h) => h,
            None => "localhost"@,
        },
        port,
    };
    let before = listeners(sources.drop_last(), base);
    let all = listeners(sources, base);
    if i == sources.len() - 1 {
        assert(all[before.len() as int] == l);
    } else {
        law_every_source_listens(sources.drop_last(), base, i, host, port);
        let k = choose|k: int| 0 <= k < before.len() && before[k] == l;
        assert(all[k] == l);
    }
}

/// Listeners come in the order of their sources, and no source gets two.
pub proof fn law_listeners_in_order(
    sources: Seq<PortForwardSourceRequestView>,
    base: int,
    i: int,
    j: int,
)
    requires
        0 <= i < j < listeners(sources, base).len(),
    ensures
        listeners(sources, base)[i].source_idx < listeners(sources, base)[j].source_idx,
    decreases sources.len(),
{
    let before = listeners(sources.drop_last(), base);
    if j < before.len() {
        law_listeners_in_order(sources.drop_last(), base, i, j);
    } else {
        law_listeners_have_their_ports(sources.drop_last(), base, i);
    }
}

/// A source whose number is no port is complained of, with its place; where
/// every source has a port or none, there is no complaint.
pub proof fn law_bad_ports_are_told(
    sources: Seq<PortForwardSourceRequestView>,
    i: int,
    host: Seq<char>,
    port: i32,
)
    requires
        0 <= i < sources.len(),
        sources[i].source matches Some(e) && e.name == Some(host) && e.port == Some(port),
        !(0 <= port <= 65535),
    ensures
        refusals(sources).contains(
            host + ":"@ + decimal_int(port as int) + ": "@
                + "port is out of range (must be 0-65535)"@,
        ),
    decreases sources.len(),
{
    let m = host + ":"@ + decimal_int(port as int) + ": "@
        + "port is out of range (must be 0-65535)"@;
    let before = refusals(sources.drop_last());
    let all = refusals(sources);
    if i == sources.len() - 1 {
        assert(all[before.len() as int] == m);
    } else {
        law_bad_ports_are_told(sources.drop_last(), i, host, port);
        let k = choose|k: int| 0 <= k < before.len() && before[k] == m;
        assert(all[k] == m);
    }
}

/// Good sources are not complained of.
pub proof fn law_good_sources_are_not_refused(sources: Seq<PortForwardSourceRequestView>)
    requires
        forall|i: int|
            0 <= i < sources.len() ==> crate::tunnel::ports_in_range(#[trigger] sources[i]),
    ensures
        refusals(sources).len() == 0,
        listeners(sources, 0).len() == sources.len(),
    decreases sources.len(),
{
    if sources.len() > 0 {
        let rest = sources.drop_last();
        assert forall|i: int| 0 <= i < rest.len() implies crate::tunnel::ports_in_range(
            #[trigger] rest[i],
        ) by {
            assert(rest[i] == sources[i]);
        }
        law_good_sources_are_not_refused(rest);
        assert(crate::tunnel::ports_in_range(sources[sources.len() - 1]));
    }
}

/// Sources that are added to a running engine come after those that it has, and
/// are listened for under the numbers from there on.
pub proof fn law_added_sources_follow(
    v: EngineView,
    more: Seq<PortForwardSourceRequestView>,
    i: int,
)
    requires
        0 <= i < listeners(more, v.sources.len() as int).len(),
    ensures
        ({
            let l = listeners(more, v.sources.len() as int)[i];
            let all = v.with_sources(more).sources;
            &&& 0 <= l.source_idx < all.len()
            &&& asked_place(all[l.source_idx]) == Some((l.host, l.port))
        }),
        forall|k: int| 0 <= k < v.sources.len() ==> v.with_sources(more).sources[k] == v.sources[k],
        v.with_sources(more).pending == v.pending,
        v.with_sources(more).source_sockets == v.source_sockets,
        v.with_sources(more).destinations == v.destinations,
{
    law_listeners_have_their_ports(more, v.sources.len() as int, i);
}

/// A connection whose socket id is given to another one is closed: the answer
/// that takes it over says which.
pub proof fn law_taken_over_is_closed(v: EngineView, conn_id: u32, socket_id: u32, enabled: bool)
    requires
        v.pending.contains(conn_id),
    ensures
        ({
            let answer = response_view(Some(on_wire(conn_id)), Some(on_wire(socket_id)), None);
            let (after, step) = v.on_packet(answer, enabled);
            &&& step is Open
            &&& v.source_sockets.contains_key(socket_id) ==> step->replaced == Some(
                v.source_sockets[socket_id],
            )
            &&& !v.source_sockets.contains_key(socket_id) ==> step->replaced is None
            &&& after.destinations == v.destinations
            &&& after.sources == v.sources
            &&& after.pending == v.pending.remove(conn_id)
        }),
{
    lemma_response_reads_back(
        PortForwardDestinationResponseView {
            clientfd: Some(on_wire(conn_id)),
            socketid: Some(on_wire(socket_id)),
            error: None,
        },
    );
    law_socket_ids_round_trip(conn_id);
    law_socket_ids_round_trip(socket_id);
}

/// An answer that nobody waits for changes nothing.
pub proof fn law_stray_answers_are_ignored(
    v: EngineView,
    conn_id: u32,
    socket_id: Option<i32>,
    enabled: bool,
)
    requires
        !v.pending.contains(conn_id),
    ensures
        v.on_packet(response_view(Some(on_wire(conn_id)), socket_id, None), enabled) == (
            v,
            PeerStep::Ignore,
        ),
        v.on_packet(response_view(None, socket_id, None), enabled) == (v, PeerStep::Ignore),
{
    lemma_response_reads_back(
        PortForwardDestinationResponseView {
            clientfd: Some(on_wire(conn_id)),
            socketid: socket_id,
            error: None,
        },
    );
    lemma_response_reads_back(
        PortForwardDestinationResponseView { clientfd: None, socketid: socket_id, error: None },
    );
    law_socket_ids_round_trip(conn_id);
}

/// An error at a destination ends the tunnel on both sides: the peer closes and
/// forgets its source connection at the error, and passes over the end that
/// follows it.
pub proof fn law_destination_error_reaches_peer(
    a: EngineView,
    b: EngineView,
    socket_id: u32,
    error: String,
    enabled: bool,
)
    requires
        b.destinations.contains(socket_id),
        !b.source_conn_ids.contains_key(socket_id),
        a.source_sockets.contains_key(socket_id),
        vstd::utf8::encode_utf8(error@).len() <= u64::MAX,
    ensures
        ({
            let (after, send, close) = b.on_read(socket_id, ReadResult::Failed(error));
            let gone = a.without(socket_id, false);
            &&& !after.destinations.contains(socket_id)
            &&& close == Some(ConnKey::Destination(socket_id))
            &&& send.len() == 2
            &&& a.on_packet(send[0], enabled) == (
                gone,
                PeerStep::Close(ConnKey::Source(a.source_sockets[socket_id])),
            )
            &&& gone.on_packet(send[1], enabled) == (gone, PeerStep::Ignore)
        }),
{
    let d = PortForwardDataView {
        sourcetodestination: Some(false),
        socketid: Some(on_wire(socket_id)),
        buffer: None,
        error: Some(error@),
        closed: None,
    };
    lemma_data_reads_back(d);
    lemma_data_reads_back(PortForwardDataView { error: None, closed: Some(true), ..d });
    law_socket_ids_round_trip(socket_id);
}

/// A connection that is forgotten is not reached any more, and no other one is
/// forgotten with it.
pub proof fn law_forgotten_is_not_reached(
    v: EngineView,
    socket_id: u32,
    destination: bool,
    other: u32,
    there: bool,
)
    ensures
        v.without(socket_id, destination).addressed(socket_id, destination) is None,
        other != socket_id || there != destination ==> v.without(
            socket_id,
            destination,
        ).addressed(other, there) == v.addressed(other, there),
        v.without(socket_id, destination).pending == v.pending,
        v.without(socket_id, destination).sources == v.sources,
        v.without(socket_id, destination).next_conn_id == v.next_conn_id,
{
}

/// Connections get numbers that were never given out, and wait until they are
/// answered; nothing else is touched.
pub proof fn law_accepted_numbers_are_new(
    v: EngineView,
    source_idx: int,
    after: EngineView,
    res: Option<(u32, PacketView)>,
    c: u32,
)
    requires
        v.valid(),
        v.next_conn_id < u32::MAX,
        accepts(v, source_idx, after, res),
    ensures
        res matches Some((n, p)) ==> !v.pending.contains(n) && !v.source_conn_ids.contains_key(n)
            && after.pending.contains(n) && after.next_conn_id > n,
        v.pending.contains(c) ==> after.pending.contains(c),
        after.source_sockets == v.source_sockets,
        after.source_conn_ids == v.source_conn_ids,
        after.destinations == v.destinations,
        res is None ==> after == v,
{
}

/// An empty piece of bytes says the end, and more than that says itself: the
/// peer is told each in one packet.
pub proof fn law_reads_are_told(socket_id: u32, from_source: bool, b: Vec<u8>, e: String)
    ensures
        b@.len() > 0 ==> read_packets(socket_id, from_source, ReadResult::Bytes(b)) == seq![
            data_view(socket_id, from_source, b@),
        ],
        b@.len() == 0 ==> read_packets(socket_id, from_source, ReadResult::Bytes(b)) == seq![
            closed_view(socket_id, from_source),
        ],
        read_packets(socket_id, from_source, ReadResult::Failed(e)).len() == 2,
        read_ends(ReadResult::Failed(e)),
        read_ends(ReadResult::Bytes(b)) <==> b@.len() == 0,
{
}

/// A number keeps its 32 bits on the wire: below half of them it stands as it
/// is, and from there on below zero.
pub proof fn law_numbers_on_the_wire(x: u32)
    ensures
        x < 0x8000_0000 ==> on_wire(x) == x,
        x >= 0x8000_0000 ==> on_wire(x) == x - 0x1_0000_0000,
{
}

/// What became of a connection reaches the side that asked for it: if it was
/// made, the waiting connection opens under the number of the new destination,
/// which no other destination has; if not, it is dropped.
pub proof fn law_outcome_reaches_the_source(
    a: EngineView,
    conn_id: u32,
    b: EngineView,
    connected: bool,
    after: EngineView,
    told: PacketView,
    id: Option<u32>,
    enabled: bool,
)
    requires
        a.pending.contains(conn_id),
        answers_connection(
            b,
            Some(on_wire(conn_id)),
            connected,
            after,
            Ok::<(PacketView, Option<u32>), RandomError>((told, id)),
        ),
    ensures
        ({
            let (there, step) = a.on_packet(told, enabled);
            &&& !there.pending.contains(conn_id)
            &&& connected ==> id is Some && after.destinations.contains(id->0)
                && !b.destinations.contains(id->0) && step is Open && step->Open_conn_id == conn_id
                && there.source_conn_ids.contains_key(conn_id) && there.source_conn_ids[conn_id]
                == id->0
            &&& !connected ==> id is None && after == b && step == (PeerStep::Drop { conn_id })
                && there.source_conn_ids == a.source_conn_ids
        }),
{
    if connected {
        law_taken_over_is_closed(a, conn_id, id->0, enabled);
        law_answer_finds_connection(a, conn_id, id->0, enabled);
        lemma_response_reads_back(
            PortForwardDestinationResponseView {
                clientfd: Some(on_wire(conn_id)),
                socketid: Some(on_wire(id->0)),
                error: None,
            },
        );
        law_socket_ids_round_trip(conn_id);
        law_socket_ids_round_trip(id->0);
    } else {
        lemma_unreachable_fits();
        law_refusal_drops(a, conn_id, "could not connect to destination"@, enabled);
    }
}

proof fn lemma_unreachable_fits()
    ensures
        vstd::utf8::encode_utf8("could not connect to destination"@).len() <= 32,
{
    broadcast use vstd::utf8::group_utf8_lib;

    reveal_strlit("could not connect to destination");
    let text = "could not connect to destination"@;
    assert(vstd::utf8::is_ascii_chars(text));
    assert(vstd::utf8::encode_utf8(text).len() == text.len());
}

/// No two destinations get the same number: one that is taken is drawn again,
/// and one that is free is taken by the new destination alone.
pub proof fn law_numbers_are_not_shared(
    v: EngineView,
    fd: Option<i32>,
    id: u32,
    after: EngineView,
    res: SocketOffer,
    other: u32,
)
    requires
        offers(v, fd, Ok(id), after, res),
    ensures
        v.destinations.contains(id) ==> after == v && res is Taken,
        !v.destinations.contains(id) ==> after.destinations.contains(id) && (
        res matches SocketOffer::Added { socket_id, .. } && socket_id == id),
        other != id ==> after.destinations.contains(other) == v.destinations.contains(other),
        after.source_sockets == v.source_sockets && after.pending == v.pending,
{
}

/// A flag that is missing counts as a no: bytes without a direction come from a
/// destination, and bytes without an end do not end their connection. Bytes for
/// nobody are dropped.
pub proof fn law_missing_flags(v: EngineView, d: PortForwardDataView)
    ensures
        v.on_data((PortForwardDataView { sourcetodestination: None, ..d })) == v.on_data(
            (PortForwardDataView { sourcetodestination: Some(false), ..d }),
        ),
        v.on_data((PortForwardDataView { closed: None, ..d })) == v.on_data(
            (PortForwardDataView { closed: Some(false), ..d }),
        ),
        v.on_data((PortForwardDataView { socketid: None, ..d })) == (v, PeerStep::Ignore),
{
}

/// What the peer sends for a connection is written to that connection, byte for
/// byte, unless it ends it; an end and an error close it whatever else they
/// carry.
pub proof fn law_data_reaches_its_connection(
    v: EngineView,
    d: PortForwardDataView,
    socket_id: u32,
    bytes: Seq<u8>,
)
    requires
        d.socketid == Some(on_wire(socket_id)),
        v.addressed(socket_id, d.sourcetodestination == Some(true)) is Some,
    ensures
        ({
            let from_source = d.sourcetodestination == Some(true);
            let to = v.addressed(socket_id, from_source)->0;
            let (after, step) = v.on_data(d);
            &&& d.closed == Some(true) || d.error is Some ==> step == PeerStep::Close(to) && after
                == v.without(socket_id, from_source)
            &&& !(d.closed == Some(true)) && d.error is None && d.buffer == Some(bytes) ==> step
                == (PeerStep::Write { to, socket_id, bytes }) && after == v
            &&& from_source <==> to is Destination
        }),
{
    law_socket_ids_round_trip(socket_id);
}

} // verus!
