//! A remote terminal whose session survives disconnects: the wire format, the
//! connection state machines, and the rules of client, server and terminal.
//!
//! Nothing here does input or output. Each part takes what arrived and says
//! what to send, to whom, and what to wait for.

use vstd::prelude::*;

pub mod backed;
pub mod cli;
pub mod client;
pub mod console;
pub mod crypto;
pub mod env;
pub mod error;
pub mod et_packet_type;
pub mod fault;
pub mod fifo;
pub mod flow;
pub mod forward;
pub mod framing;
pub mod ids;
pub mod jump;
pub mod layout;
pub mod messages;
pub mod packet;
pub mod router;
pub mod server;
pub mod session;
pub mod ssh;
pub mod terminal;
pub mod terminal_packet_type;
pub mod text;
pub mod tunnel;
pub mod wire;

pub use backed::{BackedConfig, BackedEvent, BackedState, DeadReason, WriteError};
pub use crypto::CryptoHandler;
pub use framing::{
    read_framed_packet, read_proto_frame, write_framed_packet, write_proto_frame, FrameError,
};
pub use messages::{
    CatchupBuffer, ConnectRequest, ConnectResponse, ConnectStatus, InitialPayload,
    InitialResponse, PortForwardData, PortForwardDestinationRequest,
    PortForwardDestinationResponse, PortForwardSourceRequest, PortForwardSourceResponse,
    SequenceHeader, SocketEndpoint, TermInit, TerminalBuffer, TerminalInfo, TerminalUserInfo,
};
pub use packet::Packet;

verus! {

/// The protocol version that both sides must speak.
pub const PROTOCOL_VERSION: i32 = 6;

/// The client-to-server direction of the nonces.
pub const CLIENT_SERVER_NONCE_MSB: u8 = 0;

/// The server-to-client direction of the nonces.
pub const SERVER_CLIENT_NONCE_MSB: u8 = 1;

/// The longest handshake message.
pub const MAX_HANDSHAKE_PROTO_LENGTH: i64 = 4 * 1024;

/// The longest message of any other kind.
pub const DEFAULT_MAX_PROTO_LENGTH: i64 = 128 * 1024 * 1024;

/// The longest packet.
pub const MAX_PACKET_LENGTH: usize = 128 * 1024 * 1024;

} // verus!
