//! The client's side of a connection: the handshake in clear, and what to do
//! when the socket is lost.

use vstd::prelude::*;
use vstd::utf8::encode_utf8;
use crate::backed::{BackedConfig, BackedEvent, DeadReason};
use crate::fault::{complaint, Shape};
use crate::framing::{proto_frame, write_proto_frame, FrameError, IoFailure};
use crate::messages::{
    ConnectRequest, ConnectRequestView, ConnectResponse, ConnectResponseView, ConnectStatus,
};
use crate::packet::Packet;
use crate::text::{copy_text, joined, quoted, quoted_text};
use crate::{CLIENT_SERVER_NONCE_MSB, PROTOCOL_VERSION, SERVER_CLIENT_NONCE_MSB};

verus! {

/// How long to wait between attempts to reconnect, in nanoseconds.
pub const RECONNECT_DELAY: u64 = 1_000_000_000;

/// How long a handshake may take, in nanoseconds.
pub const HANDSHAKE_TIMEOUT: u64 = 60_000_000_000;

/// Why a first connection failed.
#[derive(Clone, Debug, PartialEq, Eq)]
pub enum ConnectFailure {
    Io(IoFailure),
    Timeout,
    Protocol(String),
    Rejected { status: ConnectStatus, error: String },
}

/// The name of a status.
pub open spec fn status_name(s: ConnectStatus) -> Seq<char> {
    match s {
        ConnectStatus::NewClient => "NewClient"@,
        ConnectStatus::ReturningClient => "ReturningClient"@,
        ConnectStatus::InvalidKey => "InvalidKey"@,
        ConnectStatus::MismatchedProtocol => "MismatchedProtocol"@,
    }
}

fn name_of_status(s: ConnectStatus) -> (res: &'static str)
    ensures
        res@ == status_name(s),
{
    match s {
        ConnectStatus::NewClient => "NewClient",
        ConnectStatus::ReturningClient => "ReturningClient",
        ConnectStatus::InvalidKey => "InvalidKey",
        ConnectStatus::MismatchedProtocol => "MismatchedProtocol",
    }
}

impl ConnectFailure {
    /// The failure in words.
    pub open spec fn words(self) -> Seq<char> {
        match self {
            ConnectFailure::Io(e) => "tcp connect failed: "@ + e.message@,
            ConnectFailure::Timeout => "handshake timed out"@,
            ConnectFailure::Protocol(m) => "protocol error: "@ + m@,
            ConnectFailure::Rejected { status, error } => "server rejected the session: "@
                + status_name(status) + ": "@ + error@,
        }
    }

    /// The failure in words.
    pub fn message(&self) -> (res: String)
        ensures
            res@ == self.words(),
    {
        match self {
            ConnectFailure::Io(e) => {
                let mut s = "tcp connect failed: ".to_owned();
                s.append(e.message.as_str());
                s
            },
            ConnectFailure::Timeout => "handshake timed out".to_owned(),
            ConnectFailure::Protocol(m) => {
                let mut s = "protocol error: ".to_owned();
                s.append(m.as_str());
                s
            },
            ConnectFailure::Rejected { status, error } => {
                let mut s = "server rejected the session: ".to_owned();
                s.append(name_of_status(*status));
                s.append(": ");
                s.append(error.as_str());
                s
            },
        }
    }
}

/// Why a session ended.
#[derive(Debug, Clone, Copy, PartialEq, Eq, Structural)]
pub enum ClientDeadReason {
    /// The server no longer knows the session.
    InvalidKey,
    /// The server kept the key but lost the connection; its fresh nonces
    /// cannot meet ours in mid-stream.
    ServerStateLost,
    Other(DeadReason),
}

impl ClientDeadReason {
    /// The name of the reason.
    pub open spec fn words(self) -> Seq<char> {
        match self {
            ClientDeadReason::InvalidKey => "InvalidKey"@,
            ClientDeadReason::ServerStateLost => "ServerStateLost"@,
            ClientDeadReason::Other(DeadReason::Shutdown) => "Other(Shutdown)"@,
            ClientDeadReason::Other(DeadReason::CryptoMismatch) => "Other(CryptoMismatch)"@,
        }
    }

    /// The name of the reason.
    pub fn name(&self) -> (res: &'static str)
        ensures
            res@ == self.words(),
    {
        match self {
            ClientDeadReason::InvalidKey => "InvalidKey",
            ClientDeadReason::ServerStateLost => "ServerStateLost",
            ClientDeadReason::Other(DeadReason::Shutdown) => "Other(Shutdown)",
            ClientDeadReason::Other(DeadReason::CryptoMismatch) => "Other(CryptoMismatch)",
        }
    }
}

/// What a client connection tells its owner.
#[derive(Debug, PartialEq, Eq)]
pub enum Event {
    /// A decrypted packet, in order.
    Packet(Packet),
    /// The last event.
    Dead(ClientDeadReason),
}

// ---------------------------------------------------------------------------
// Handshake
// ---------------------------------------------------------------------------

/// The failure that a frame error amounts to.
pub fn frame_error_to_connect_failure(e: FrameError) -> (res: ConnectFailure)
    ensures
        match e {
            FrameError::Io(io) => res == ConnectFailure::Io(io),
            other => res matches ConnectFailure::Protocol(m) && m@ == other.words(),
        },
{
    match e {
        FrameError::Io(io) => ConnectFailure::Io(io),
        other => {
            let m = other.message();
            ConnectFailure::Protocol(m)
        },
    }
}

/// The key that a passkey is: its 32 bytes.
pub fn key_bytes(passkey: &str) -> (res: Option<[u8; 32]>)
    ensures
        match res {
            Some(k) => k@ == encode_utf8(passkey@),
            None => encode_utf8(passkey@).len() != 32,
        },
{
    let bytes = passkey.as_bytes();
    if bytes.len() != 32 {
        return None;
    }
    let mut key = [0u8;32];
    let mut i: usize = 0;
    while i < 32
        invariant
            i <= 32,
            bytes@.len() == 32,
            key@.len() == 32,
            forall|k: int| 0 <= k < i ==> key@[k] == bytes@[k],
        decreases 32 - i,
    {
        key[i] = bytes[i];
        i += 1;
    }
    assert(key@ =~= bytes@);
    Some(key)
}

/// The message that opens a connection.
pub open spec fn request_of(id: Seq<char>) -> ConnectRequestView {
    ConnectRequestView { client_id: Some(id), version: Some(PROTOCOL_VERSION) }
}

/// The frame that opens a connection.
pub fn connect_request(id: &str) -> (res: Vec<u8>)
    ensures
        res@ == proto_frame(request_of(id@).bytes()),
{
    let request = ConnectRequest {
        client_id: Some(copy_text(id)),
        version: Some(PROTOCOL_VERSION),
    };
    let mut out: Vec<u8> = Vec::new();
    write_proto_frame(&mut out, request.encode_to_vec().as_slice());
    assert(out@ =~= proto_frame(request@.bytes()));
    out
}

/// How far a handshake got.
pub enum HandshakeIo {
    /// No connection could be made.
    NotConnected(IoFailure),
    /// The request could not be sent.
    NotSent(FrameError),
    /// No reply could be read.
    NoReply(FrameError),
    /// Time ran out.
    TimedOut,
    /// The reply.
    Reply(Vec<u8>),
}

/// What a server makes of a client.
#[derive(Debug, Clone, Copy, PartialEq, Eq, Structural)]
pub enum Handshake {
    NewClient,
    Returning,
}

/// A response without a status, in words.
pub open spec fn without_status(error: Option<Seq<char>>) -> Seq<char> {
    "ConnectResponse { status: None, error: "@ + match error {
        Some(e) => "Some("@ + quoted_text(e) + ")"@,
        None => "None"@,
    } + " }"@
}

/// Whether `res` is what a reply amounts to.
pub open spec fn judged_reply(reply: Seq<u8>, res: Result<Handshake, ConnectFailure>) -> bool {
    match ConnectResponseView::parse(reply) {
        None => res matches Err(ConnectFailure::Protocol(m)) && m@ == complaint(
            "bad ConnectResponse: "@,
            Shape::ConnectResponse,
            reply,
        ),
        Some(r) => {
            let status = match r.status {
                Some(n) => ConnectStatus::of_code(n),
                None => None,
            };
            match status {
                None => res matches Err(ConnectFailure::Protocol(m)) && m@
                    == "ConnectResponse without status: "@ + without_status(r.error),
                Some(ConnectStatus::NewClient) => res == Ok::<Handshake, ConnectFailure>(
                    Handshake::NewClient,
                ),
                Some(ConnectStatus::ReturningClient) => res == Ok::<Handshake, ConnectFailure>(
                    Handshake::Returning,
                ),
                Some(s) => res matches Err(ConnectFailure::Rejected { status: t, error }) && t == s
                    && error@ == match r.error {
                    Some(e) => e,
                    None => Seq::empty(),
                },
            }
        },
    }
}

/// What a reply amounts to: only the two accepting statuses open a connection.
pub fn judge_reply(reply: &[u8]) -> (res: Result<Handshake, ConnectFailure>)
    ensures
        judged_reply(reply@, res),
{
    let response = match ConnectResponse::decode(reply) {
        Ok(r) => r,
        Err(e) => {
            return Err(
                ConnectFailure::Protocol(joined("bad ConnectResponse: ", e.message().as_str())),
            );
        },
    };
    match response.connect_status() {
        None => {
            let mut m = "ConnectResponse without status: ".to_owned();
            m.append("ConnectResponse { status: None, error: ");
            match &response.error {
                Some(e) => {
                    m.append("Some(");
                    m.append(quoted(e.as_str()).as_str());
                    m.append(")");
                },
                None => {
                    m.append("None");
                },
            }
            m.append(" }");
            assert(m@ =~= "ConnectResponse without status: "@ + without_status(response@.error));
            Err(ConnectFailure::Protocol(m))
        },
        Some(ConnectStatus::NewClient) => Ok(Handshake::NewClient),
        Some(ConnectStatus::ReturningClient) => Ok(Handshake::Returning),
        Some(status) => {
            let error = match response.error {
                Some(e) => e,
                None => String::new(),
            };
            assert(response.error is None ==> error@ =~= Seq::<char>::empty());
            Err(ConnectFailure::Rejected { status, error })
        },
    }
}

/// Whether `res` is what a handshake amounts to.
pub open spec fn shaken(io: HandshakeIo, res: Result<Handshake, ConnectFailure>) -> bool {
    match io {
        HandshakeIo::NotConnected(e) => res == Err::<Handshake, ConnectFailure>(
            ConnectFailure::Io(e),
        ),
        HandshakeIo::NotSent(FrameError::Io(e)) | HandshakeIo::NoReply(FrameError::Io(e)) => res
            == Err::<Handshake, ConnectFailure>(ConnectFailure::Io(e)),
        HandshakeIo::NotSent(e) | HandshakeIo::NoReply(e) => res matches Err(
            ConnectFailure::Protocol(m),
        ) && m@ == e.words(),
        HandshakeIo::TimedOut => res == Err::<Handshake, ConnectFailure>(ConnectFailure::Timeout),
        HandshakeIo::Reply(b) => judged_reply(b@, res),
    }
}

/// What a handshake amounts to.
pub fn handshake_request(io: HandshakeIo) -> (res: Result<Handshake, ConnectFailure>)
    ensures
        shaken(io, res),
{
    match io {
        HandshakeIo::NotConnected(e) => Err(ConnectFailure::Io(e)),
        HandshakeIo::NotSent(e) => Err(frame_error_to_connect_failure(e)),
        HandshakeIo::NoReply(e) => Err(frame_error_to_connect_failure(e)),
        HandshakeIo::TimedOut => Err(ConnectFailure::Timeout),
        HandshakeIo::Reply(b) => judge_reply(b.as_slice()),
    }
}

/// The key for a first connection.
pub fn session_key(passkey: &str) -> (res: Result<[u8; 32], ConnectFailure>)
    ensures
        match res {
            Ok(k) => k@ == encode_utf8(passkey@),
            Err(e) => encode_utf8(passkey@).len() != 32 && (e matches ConnectFailure::Protocol(m)
                && m@ == "passkey must be 32 bytes"@),
        },
{
    match key_bytes(passkey) {
        Some(k) => Ok(k),
        None => Err(ConnectFailure::Protocol("passkey must be 32 bytes".to_owned())),
    }
}

/// Whether a client connection is set up by `cfg`.
pub open spec fn client_setup(key: [u8; 32], keepalive: Option<u64>, cfg: BackedConfig) -> bool {
    &&& cfg.key == key
    &&& cfg.reader_msb == SERVER_CLIENT_NONCE_MSB
    &&& cfg.writer_msb == CLIENT_SERVER_NONCE_MSB
    &&& cfg.keepalive == keepalive
}

/// How a client connection is set up.
pub fn client_config(key: [u8; 32], keepalive: Option<u64>) -> (res: BackedConfig)
    ensures
        client_setup(key, keepalive, res),
{
    BackedConfig {
        key,
        reader_msb: SERVER_CLIENT_NONCE_MSB,
        writer_msb: CLIENT_SERVER_NONCE_MSB,
        keepalive,
    }
}

/// Whether `res` says if the handshake of a first connection opens a session.
pub open spec fn opens_session(
    handshake: Result<Handshake, ConnectFailure>,
    res: Result<(), ConnectFailure>,
) -> bool {
    match handshake {
        Ok(Handshake::NewClient) => res is Ok,
        Ok(Handshake::Returning) => res matches Err(ConnectFailure::Protocol(m)) && m@
            == "this id already has a live session on the server and a fresh client cannot resume it; rerun the ssh handshake to get a new id"@,
        Err(e) => res == Err::<(), ConnectFailure>(e),
    }
}

/// Whether the handshake of a first connection opens a session. A server that
/// calls a fresh client a returning one has a live session under its id, whose
/// nonces a fresh client cannot meet: that fails at once, and leaves the live
/// session alone.
pub fn accept_initial(handshake: Result<Handshake, ConnectFailure>) -> (res: Result<
    (),
    ConnectFailure,
>)
    ensures
        opens_session(handshake, res),
{
    match handshake {
        Ok(Handshake::NewClient) => Ok(()),
        Ok(Handshake::Returning) => Err(
            ConnectFailure::Protocol(
                "this id already has a live session on the server and a fresh client cannot resume it; rerun the ssh handshake to get a new id".to_owned(),
            ),
        ),
        Err(e) => Err(e),
    }
}

// ---------------------------------------------------------------------------
// Reconnecting
// ---------------------------------------------------------------------------

/// What the supervisor of a connection is at.
#[derive(Debug, Clone, Copy, PartialEq, Eq, Structural)]
pub enum Phase {
    /// There is a socket, or its loss has not been told.
    Serving,
    /// The socket is lost and not yet replaced.
    Reconnecting,
    /// The session is over.
    Ended,
}

/// What the supervisor is to do next.
#[derive(Debug, PartialEq, Eq)]
pub enum Action {
    /// Wait for the next event of the connection.
    Wait,
    /// Hand a packet to the owner, and wait.
    Deliver(Packet),
    /// Try a handshake.
    Handshake,
    /// Run the recover exchange on the socket of the handshake.
    Recover,
    /// Sleep for [`RECONNECT_DELAY`].
    Sleep,
    /// Tell the owner the reason, if there is one, end the connection, if so
    /// asked, and stop.
    End { tell: Option<ClientDeadReason>, shutdown: bool },
}

/// The supervisor of a client connection: hands packets on, and when the
/// socket is lost tries to reconnect every second until the server takes the
/// session up again or says that it is gone.
pub struct Supervisor {
    pub phase: Phase,
}

/// Whether a supervisor goes from `before` to `after` and is to do `res` when
/// the connection puts out an event, or has none left.
pub open spec fn hears(
    before: Phase,
    event: Option<BackedEvent>,
    after: Phase,
    res: Action,
) -> bool {
    if before != Phase::Serving {
        after == before && res == Action::Wait
    } else {
        match event {
            Some(BackedEvent::Packet(p)) => after == Phase::Serving && res == Action::Deliver(p),
            Some(BackedEvent::SocketDown) => after == Phase::Reconnecting && res
                == Action::Handshake,
            Some(BackedEvent::Dead(r)) => after == Phase::Ended && res == (Action::End {
                tell: Some(ClientDeadReason::Other(r)),
                shutdown: false,
            }),
            None => after == Phase::Ended && res == (Action::End { tell: None, shutdown: false }),
        }
    }
}

/// Whether a supervisor goes from `before` to `after` and is to do `res` when
/// a handshake comes to its end.
pub open spec fn retries(
    before: Phase,
    handshake: Result<Handshake, ConnectFailure>,
    after: Phase,
    res: Action,
) -> bool {
    if before != Phase::Reconnecting {
        after == before && res == Action::Wait
    } else {
        match handshake {
            Ok(Handshake::Returning) => after == Phase::Reconnecting && res == Action::Recover,
            Ok(Handshake::NewClient) => after == Phase::Ended && res == (Action::End {
                tell: Some(ClientDeadReason::ServerStateLost),
                shutdown: false,
            }),
            Err(ConnectFailure::Rejected { status: ConnectStatus::InvalidKey, .. }) => after
                == Phase::Ended && res == (Action::End {
                tell: Some(ClientDeadReason::InvalidKey),
                shutdown: true,
            }),
            Err(_) => after == Phase::Reconnecting && res == Action::Sleep,
        }
    }
}

/// Whether a supervisor goes from `before` to `after` and is to do `res` when
/// the recover exchange comes to its end.
pub open spec fn resumes(before: Phase, ok: bool, after: Phase, res: Action) -> bool {
    if before != Phase::Reconnecting {
        after == before && res == Action::Wait
    } else if ok {
        after == Phase::Serving && res == Action::Wait
    } else {
        after == Phase::Reconnecting && res == Action::Sleep
    }
}

/// Whether `res` is what a supervisor is to do when its sleep is over.
pub open spec fn wakes(before: Phase, res: Action) -> bool {
    res == if before == Phase::Reconnecting {
        Action::Handshake
    } else {
        Action::Wait
    }
}

impl Supervisor {
    /// The supervisor of a connection with a socket.
    pub fn new() -> (res: Supervisor)
        ensures
            res.phase == Phase::Serving,
    {
        Supervisor { phase: Phase::Serving }
    }

    /// The connection put out an event, or has none left. It is passed over
    /// unless the supervisor waits for one.
    pub fn on_event(&mut self, event: Option<BackedEvent>) -> (res: Action)
        ensures
            hears(old(self).phase, event, final(self).phase, res),
    {
        if self.phase != Phase::Serving {
            return Action::Wait;
        }
        match event {
            Some(BackedEvent::Packet(p)) => Action::Deliver(p),
            Some(BackedEvent::SocketDown) => {
                self.phase = Phase::Reconnecting;
                Action::Handshake
            },
            Some(BackedEvent::Dead(r)) => {
                self.phase = Phase::Ended;
                Action::End { tell: Some(ClientDeadReason::Other(r)), shutdown: false }
            },
            None => {
                self.phase = Phase::Ended;
                Action::End { tell: None, shutdown: false }
            },
        }
    }

    /// The owner is gone.
    pub fn on_owner_gone(&mut self) -> (res: Action)
        ensures
            final(self).phase == Phase::Ended,
            res == (Action::End { tell: None, shutdown: false }),
    {
        self.phase = Phase::Ended;
        Action::End { tell: None, shutdown: false }
    }

    /// A handshake came to its end. Only two answers end the session: that the
    /// key is unknown, and that the client is new. Every failure but the first
    /// is tried again.
    pub fn on_handshake(&mut self, handshake: Result<Handshake, ConnectFailure>) -> (res: Action)
        ensures
            retries(old(self).phase, handshake, final(self).phase, res),
    {
        if self.phase != Phase::Reconnecting {
            return Action::Wait;
        }
        match handshake {
            Ok(Handshake::Returning) => Action::Recover,
            Ok(Handshake::NewClient) => {
                self.phase = Phase::Ended;
                Action::End { tell: Some(ClientDeadReason::ServerStateLost), shutdown: false }
            },
            Err(ConnectFailure::Rejected { status: ConnectStatus::InvalidKey, .. }) => {
                self.phase = Phase::Ended;
                Action::End { tell: Some(ClientDeadReason::InvalidKey), shutdown: true }
            },
            Err(_) => Action::Sleep,
        }
    }

    /// The recover exchange came to its end.
    pub fn on_recovered(&mut self, ok: bool) -> (res: Action)
        ensures
            resumes(old(self).phase, ok, final(self).phase, res),
    {
        if self.phase != Phase::Reconnecting {
            return Action::Wait;
        }
        if ok {
            self.phase = Phase::Serving;
            Action::Wait
        } else {
            Action::Sleep
        }
    }

    /// The sleep is over.
    pub fn on_slept(&self) -> (res: Action)
        ensures
            wakes(self.phase, res),
    {
        if self.phase == Phase::Reconnecting {
            Action::Handshake
        } else {
            Action::Wait
        }
    }
}

// ---------------------------------------------------------------------------
// Laws
// ---------------------------------------------------------------------------

/// A lost socket is replaced: the supervisor tries handshakes until the server
/// takes the session up, then the exchange that brings both sides in step, and
/// then serves again.
pub proof fn law_lost_socket_is_replaced(
    one: Phase,
    first: Action,
    two: Phase,
    second: Action,
    three: Phase,
    third: Action,
)
    requires
        hears(Phase::Serving, Some(BackedEvent::SocketDown), one, first),
        retries(one, Ok(Handshake::Returning), two, second),
        resumes(two, true, three, third),
    ensures
        first == Action::Handshake,
        second == Action::Recover,
        third == Action::Wait,
        three == Phase::Serving,
{
}

/// No failure ends a session but the one that says it is gone: after any other,
/// and after an exchange that broke off, the supervisor sleeps and tries again.
pub proof fn law_failures_are_tried_again(
    failure: ConnectFailure,
    after: Phase,
    res: Action,
    later: Phase,
    back: Action,
    woken: Action,
)
    requires
        retries(Phase::Reconnecting, Err(failure), after, res),
        resumes(Phase::Reconnecting, false, later, back),
        wakes(Phase::Reconnecting, woken),
    ensures
        ({
            let gone = failure matches ConnectFailure::Rejected { status, .. } && status
                == ConnectStatus::InvalidKey;
            &&& !gone ==> after == Phase::Reconnecting && res == Action::Sleep
            &&& gone ==> after == Phase::Ended && (res matches Action::End { tell, shutdown }
                && tell == Some(ClientDeadReason::InvalidKey) && shutdown)
        }),
        later == Phase::Reconnecting,
        back == Action::Sleep,
        woken == Action::Handshake,
{
}

/// A server that takes a returning client for a new one has lost the session:
/// that ends it, with that reason.
pub proof fn law_lost_state_ends_the_session(after: Phase, res: Action)
    requires
        retries(Phase::Reconnecting, Ok(Handshake::NewClient), after, res),
    ensures
        after == Phase::Ended,
        res matches Action::End { tell, .. } && tell == Some(ClientDeadReason::ServerStateLost),
{
}

/// While it serves, a supervisor hands every packet on, and ends with its
/// connection, for the reason of the connection.
pub proof fn law_supervisor_serves(
    p: Packet,
    one: Phase,
    handed: Action,
    reason: DeadReason,
    two: Phase,
    ended: Action,
)
    requires
        hears(Phase::Serving, Some(BackedEvent::Packet(p)), one, handed),
        hears(Phase::Serving, Some(BackedEvent::Dead(reason)), two, ended),
    ensures
        one == Phase::Serving,
        handed == Action::Deliver(p),
        two == Phase::Ended,
        ended matches Action::End { tell, .. } && tell == Some(ClientDeadReason::Other(reason)),
{
}

/// A supervisor that has ended does nothing more, whatever happens.
pub proof fn law_end_of_the_supervisor(
    event: Option<BackedEvent>,
    one: Phase,
    first: Action,
    handshake: Result<Handshake, ConnectFailure>,
    two: Phase,
    second: Action,
    ok: bool,
    three: Phase,
    third: Action,
    fourth: Action,
)
    requires
        hears(Phase::Ended, event, one, first),
        retries(Phase::Ended, handshake, two, second),
        resumes(Phase::Ended, ok, three, third),
        wakes(Phase::Ended, fourth),
    ensures
        one == Phase::Ended && first == Action::Wait,
        two == Phase::Ended && second == Action::Wait,
        three == Phase::Ended && third == Action::Wait,
        fourth == Action::Wait,
{
}

/// A fresh client opens a session only where its server takes it for new: it
/// cannot take a live session up, nor open one against a refusal.
pub proof fn law_fresh_client_must_be_new(
    handshake: Result<Handshake, ConnectFailure>,
    res: Result<(), ConnectFailure>,
)
    requires
        opens_session(handshake, res),
    ensures
        res is Ok <==> handshake == Ok::<Handshake, ConnectFailure>(Handshake::NewClient),
        handshake matches Err(e) ==> res == Err::<(), ConnectFailure>(e),
{
}

/// A handshake succeeds only by a reply with an accepting status: whatever else
/// became of it is a failure.
pub proof fn law_handshake_needs_a_reply(
    io: HandshakeIo,
    res: Result<Handshake, ConnectFailure>,
)
    requires
        shaken(io, res),
        res is Ok,
    ensures
        io matches HandshakeIo::Reply(b) && (ConnectResponseView::parse(b@) matches Some(r) && (
        r.status == Some(1i32) || r.status == Some(2i32))),
{
}

} // verus!
