//! What goes wrong on the server's side.

use vstd::prelude::*;
use crate::framing::{FrameError, IoFailure};
use crate::text::{copy_text, joined};

verus! {

/// Why a server or terminal gave up.
#[derive(Clone, Debug, PartialEq, Eq)]
pub enum ServerError {
    Io(IoFailure),
    /// A system call failed, in the words of the system.
    Nix(String),
    Other(String),
}

impl ServerError {
    /// The error in words.
    pub open spec fn words(self) -> Seq<char> {
        match self {
            ServerError::Io(e) => "io: "@ + e.message@,
            ServerError::Nix(m) => "nix: "@ + m@,
            ServerError::Other(m) => m@,
        }
    }

    /// Whether it is an error of its own that says `m`.
    pub open spec fn says(self, m: Seq<char>) -> bool {
        self matches ServerError::Other(t) && t@ == m
    }

    /// The error in words.
    pub fn message(&self) -> (res: String)
        ensures
            res@ == self.words(),
    {
        match self {
            ServerError::Io(e) => joined("io: ", e.message.as_str()),
            ServerError::Nix(m) => joined("nix: ", m.as_str()),
            ServerError::Other(m) => copy_text(m.as_str()),
        }
    }

    /// An error that says `m`.
    pub fn other(m: &str) -> (res: ServerError)
        ensures
            res.says(m@),
    {
        ServerError::Other(copy_text(m))
    }

    /// The error that a frame error amounts to.
    pub fn from_frame_error(e: FrameError) -> (res: ServerError)
        ensures
            match e {
                FrameError::Io(io) => res == ServerError::Io(io),
                other => res.says(other.words()),
            },
    {
        match e {
            FrameError::Io(io) => ServerError::Io(io),
            other => {
                let m = other.message();
                ServerError::Other(m)
            },
        }
    }
}

} // verus!
