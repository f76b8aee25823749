//! Packet headers of the connection itself.

use vstd::prelude::*;

verus! {

pub const INITIAL_RESPONSE: u8 = 252;

pub const INITIAL_PAYLOAD: u8 = 253;

pub const HEARTBEAT: u8 = 254;

} // verus!
