//! What is wrong with bytes that are no message.
//!
//! A message is read field by field, and the first thing wrong with it is what
//! its reader reports: a broken key, a value of the wrong wire type, a value
//! that does not end within the bytes, or a text that is none.

use vstd::prelude::*;
use vstd::utf8::valid_utf8;
use crate::text::{decimal, push_decimal, string_from_utf8};
use crate::wire::{
    all_of, bool_kind, byte_range, bytes_kind, group_len, i32_kind, i64_kind, key, last_of,
    lemma_key_bounds, lemma_key_local, lemma_shared_tail, lemma_value_bounds, lemma_value_local,
    lemma_varint_bounds, lemma_varint_local, parse_nested, read_key, read_varint, text_kind,
    value_at, value_len, varint, Field, Value, NESTING,
};

verus! {

/// Why bytes are no message.
#[derive(Clone, Copy, Debug, PartialEq, Eq, Structural)]
pub enum DecodeError {
    /// The bytes end inside a value.
    UnexpectedEof,
    /// An integer takes more than 64 bits.
    VarintTooLong,
    /// A wire type that there is not, or that starts no value.
    InvalidWireType(u32),
    /// A field number that is zero or too large.
    InvalidFieldNumber,
    /// A length that no message can have.
    MessageTooLarge,
    /// A field whose wire type is not that of its kind.
    WireTypeMismatch { field_number: u32, expected: u8, actual: u8 },
    /// A text that is not UTF-8.
    InvalidUtf8,
    /// Messages or groups that nest too deep.
    RecursionLimitExceeded,
    /// A group that ends with the number of another.
    InvalidEndGroup(u32),
}

impl DecodeError {
    /// The error in words.
    pub open spec fn words(self) -> Seq<char> {
        match self {
            DecodeError::UnexpectedEof => "unexpected end of buffer"@,
            DecodeError::VarintTooLong => "varint exceeded maximum length of 10 bytes"@,
            DecodeError::InvalidWireType(n) => "invalid wire type: "@ + decimal(n as nat),
            DecodeError::InvalidFieldNumber => "invalid field number"@,
            DecodeError::MessageTooLarge =>
                "message length exceeds the size limit (2 GiB protobuf maximum, or a configured DecodeOptions limit)"@,
            DecodeError::WireTypeMismatch { field_number, expected, actual } =>
                "wire type mismatch on field "@ + decimal(field_number as nat) + ": expected "@
                    + decimal(expected as nat) + ", got "@ + decimal(actual as nat),
            DecodeError::InvalidUtf8 => "invalid UTF-8 in string field"@,
            DecodeError::RecursionLimitExceeded => "recursion limit exceeded"@,
            DecodeError::InvalidEndGroup(n) => "invalid end-group tag: field number "@ + decimal(
                n as nat,
            ),
        }
    }

    /// The error in words.
    pub fn message(&self) -> (res: String)
        ensures
            res@ == self.words(),
    {
        match self {
            DecodeError::UnexpectedEof => "unexpected end of buffer".to_owned(),
            DecodeError::VarintTooLong => "varint exceeded maximum length of 10 bytes".to_owned(),
            DecodeError::InvalidWireType(n) => {
                let mut s = "invalid wire type: ".to_owned();
                push_decimal(&mut s, *n as u64);
                s
            },
            DecodeError::InvalidFieldNumber => "invalid field number".to_owned(),
            DecodeError::MessageTooLarge =>
                "message length exceeds the size limit (2 GiB protobuf maximum, or a configured DecodeOptions limit)".to_owned(),
            DecodeError::WireTypeMismatch { field_number, expected, actual } => {
                let mut s = "wire type mismatch on field ".to_owned();
                push_decimal(&mut s, *field_number as u64);
                s.append(": expected ");
                push_decimal(&mut s, *expected as u64);
                s.append(", got ");
                push_decimal(&mut s, *actual as u64);
                s
            },
            DecodeError::InvalidUtf8 => "invalid UTF-8 in string field".to_owned(),
            DecodeError::RecursionLimitExceeded => "recursion limit exceeded".to_owned(),
            DecodeError::InvalidEndGroup(n) => {
                let mut s = "invalid end-group tag: field number ".to_owned();
                push_decimal(&mut s, *n as u64);
                s
            },
        }
    }
}

// ---------------------------------------------------------------------------
// What messages hold
// ---------------------------------------------------------------------------

/// A message, by its fields.
#[derive(Clone, Copy, Debug, PartialEq, Eq, Structural)]
pub enum Shape {
    ConnectRequest,
    ConnectResponse,
    SequenceHeader,
    CatchupBuffer,
    SocketEndpoint,
    TerminalBuffer,
    TerminalInfo,
    PortForwardSourceResponse,
    PortForwardDestinationResponse,
    PortForwardData,
    InitialResponse,
    ConfigParams,
    TermInit,
    TerminalUserInfo,
    PortForwardSourceRequest,
    PortForwardDestinationRequest,
    InitialPayload,
    /// One variable of a map: its name and its value.
    Variable,
}

/// What a field holds.
#[derive(Clone, Copy, Debug, PartialEq, Eq, Structural)]
pub enum Kind {
    Number,
    Text,
    Bytes,
    /// A message, which takes one level.
    Message(Shape),
    /// An entry of a map, which takes none.
    Entry(Shape),
}

impl Kind {
    /// The wire type of the kind.
    pub open spec fn wire_type(self) -> nat {
        if self == Kind::Number {
            0
        } else {
            2
        }
    }
}

impl Shape {
    /// The kinds of the fields, which are numbered from one.
    pub open spec fn kinds(self) -> Seq<Kind> {
        match self {
            Shape::ConnectRequest => seq![Kind::Text, Kind::Number],
            Shape::ConnectResponse => seq![Kind::Number, Kind::Text],
            Shape::SequenceHeader => seq![Kind::Number],
            Shape::CatchupBuffer => seq![Kind::Bytes],
            Shape::SocketEndpoint => seq![Kind::Text, Kind::Number],
            Shape::TerminalBuffer => seq![Kind::Bytes],
            Shape::TerminalInfo => seq![
                Kind::Text,
                Kind::Number,
                Kind::Number,
                Kind::Number,
                Kind::Number,
            ],
            Shape::PortForwardSourceResponse => seq![Kind::Text],
            Shape::PortForwardDestinationResponse => seq![Kind::Number, Kind::Number, Kind::Text],
            Shape::PortForwardData => seq![
                Kind::Number,
                Kind::Number,
                Kind::Bytes,
                Kind::Text,
                Kind::Number,
            ],
            Shape::InitialResponse => seq![Kind::Text],
            Shape::ConfigParams => seq![Kind::Number, Kind::Number],
            Shape::TermInit => seq![Kind::Text, Kind::Text],
            Shape::TerminalUserInfo => seq![
                Kind::Text,
                Kind::Text,
                Kind::Number,
                Kind::Number,
                Kind::Number,
            ],
            Shape::PortForwardSourceRequest => seq![
                Kind::Message(Shape::SocketEndpoint),
                Kind::Message(Shape::SocketEndpoint),
                Kind::Text,
            ],
            Shape::PortForwardDestinationRequest => seq![
                Kind::Message(Shape::SocketEndpoint),
                Kind::Number,
            ],
            Shape::InitialPayload => seq![
                Kind::Number,
                Kind::Message(Shape::PortForwardSourceRequest),
                Kind::Entry(Shape::Variable),
            ],
            Shape::Variable => seq![Kind::Text, Kind::Text],
        }
    }

    /// The kind of a field, if the message knows it.
    pub open spec fn kind(self, tag: u32) -> Option<Kind> {
        if 1 <= tag <= self.kinds().len() {
            Some(self.kinds()[tag - 1])
        } else {
            None
        }
    }

    fn all_kinds(self) -> (res: Vec<Kind>)
        ensures
            res@ == self.kinds(),
    {
        match self {
            Shape::ConnectRequest => vec![Kind::Text, Kind::Number],
            Shape::ConnectResponse => vec![Kind::Number, Kind::Text],
            Shape::SequenceHeader => vec![Kind::Number],
            Shape::CatchupBuffer => vec![Kind::Bytes],
            Shape::SocketEndpoint => vec![Kind::Text, Kind::Number],
            Shape::TerminalBuffer => vec![Kind::Bytes],
            Shape::TerminalInfo => vec![
                Kind::Text,
                Kind::Number,
                Kind::Number,
                Kind::Number,
                Kind::Number,
            ],
            Shape::PortForwardSourceResponse => vec![Kind::Text],
            Shape::PortForwardDestinationResponse => vec![Kind::Number, Kind::Number, Kind::Text],
            Shape::PortForwardData => vec![
                Kind::Number,
                Kind::Number,
                Kind::Bytes,
                Kind::Text,
                Kind::Number,
            ],
            Shape::InitialResponse => vec![Kind::Text],
            Shape::ConfigParams => vec![Kind::Number, Kind::Number],
            Shape::TermInit => vec![Kind::Text, Kind::Text],
            Shape::TerminalUserInfo => vec![
                Kind::Text,
                Kind::Text,
                Kind::Number,
                Kind::Number,
                Kind::Number,
            ],
            Shape::PortForwardSourceRequest => vec![
                Kind::Message(Shape::SocketEndpoint),
                Kind::Message(Shape::SocketEndpoint),
                Kind::Text,
            ],
            Shape::PortForwardDestinationRequest => vec![
                Kind::Message(Shape::SocketEndpoint),
                Kind::Number,
            ],
            Shape::InitialPayload => vec![
                Kind::Number,
                Kind::Message(Shape::PortForwardSourceRequest),
                Kind::Entry(Shape::Variable),
            ],
            Shape::Variable => vec![Kind::Text, Kind::Text],
        }
    }

    fn find_kind(self, tag: u32) -> (res: Option<Kind>)
        ensures
            res == self.kind(tag),
    {
        let kinds = self.all_kinds();
        if 1 <= tag && (tag as u64) <= kinds.len() as u64 {
            Some(kinds[tag as usize - 1])
        } else {
            None
        }
    }
}

// ---------------------------------------------------------------------------
// The first fault
// ---------------------------------------------------------------------------

/// Why there is no integer at the start of `b`: it takes all of ten bytes and
/// more, or it does not end.
pub open spec fn varint_fault(b: Seq<u8>) -> DecodeError {
    if b.len() >= 10 {
        DecodeError::VarintTooLong
    } else {
        DecodeError::UnexpectedEof
    }
}

/// Why there is no key at the start of `b`.
pub open spec fn key_fault(b: Seq<u8>) -> DecodeError {
    match varint(b) {
        None => varint_fault(b),
        Some((k, _)) => if k <= u32::MAX && k % 8 > 5 {
            DecodeError::InvalidWireType((k % 8) as u32)
        } else {
            DecodeError::InvalidFieldNumber
        },
    }
}

/// Where the content starts and ends that stands with its length at the start
/// of `b`, when it is at most `limit` long.
pub open spec fn content(b: Seq<u8>, limit: nat) -> Result<(int, int), DecodeError> {
    match varint(b) {
        None => Err(varint_fault(b)),
        Some((len, n)) => if len > limit {
            Err(DecodeError::MessageTooLarge)
        } else if n + len > b.len() {
            Err(DecodeError::UnexpectedEof)
        } else {
            Ok((n, n + len))
        },
    }
}

/// The length of a value of a field that is not known.
pub open spec fn skipped(wt: nat, tag: u32, b: Seq<u8>, depth: nat) -> Result<int, DecodeError>
    decreases b.len(), 1int,
{
    if wt == 0 {
        match varint(b) {
            Some((_, n)) => Ok(n),
            None => Err(varint_fault(b)),
        }
    } else if wt == 1 {
        if b.len() >= 8 {
            Ok(8)
        } else {
            Err(DecodeError::UnexpectedEof)
        }
    } else if wt == 2 {
        match content(b, usize::MAX as nat) {
            Ok((_, end)) => Ok(end),
            Err(e) => Err(e),
        }
    } else if wt == 3 {
        if depth == 0 {
            Err(DecodeError::RecursionLimitExceeded)
        } else {
            group_skipped(tag, b, (depth - 1) as nat)
        }
    } else if wt == 5 {
        if b.len() >= 4 {
            Ok(4)
        } else {
            Err(DecodeError::UnexpectedEof)
        }
    } else {
        Err(DecodeError::InvalidWireType(wt as u32))
    }
}

/// The length of the rest of group `tag`.
pub open spec fn group_skipped(tag: u32, b: Seq<u8>, depth: nat) -> Result<int, DecodeError>
    decreases b.len(), 0int,
{
    match key(b) {
        None => Err(key_fault(b)),
        Some((t, wt, n)) => if n <= 0 || n > b.len() {
            Err(DecodeError::UnexpectedEof)
        } else if wt == 4 {
            if t == tag {
                Ok(n)
            } else {
                Err(DecodeError::InvalidEndGroup(t))
            }
        } else {
            match skipped(wt, t, b.skip(n), depth) {
                Err(e) => Err(e),
                Ok(m) => if m < 0 || n + m > b.len() {
                    Err(DecodeError::UnexpectedEof)
                } else {
                    match group_skipped(tag, b.skip(n + m), depth) {
                        Err(e) => Err(e),
                        Ok(r) => Ok(n + m + r),
                    }
                },
            }
        },
    }
}

/// How long the longest message inside another is.
pub const MAX_MESSAGE_BYTES: u32 = 0x7fff_ffff;

/// The length of the value at the start of `b` of field `tag` of a message.
pub open spec fn value_read(m: Shape, tag: u32, wt: nat, b: Seq<u8>, depth: nat) -> Result<
    int,
    DecodeError,
>
    decreases b.len(),
{
    match m.kind(tag) {
        None => skipped(wt, tag, b, depth),
        Some(kind) => if wt != kind.wire_type() {
            Err(
                DecodeError::WireTypeMismatch {
                    field_number: tag,
                    expected: kind.wire_type() as u8,
                    actual: wt as u8,
                },
            )
        } else {
            match kind {
                Kind::Number => skipped(0, tag, b, depth),
                Kind::Bytes => skipped(2, tag, b, depth),
                Kind::Text => match content(b, usize::MAX as nat) {
                    Err(e) => Err(e),
                    Ok((start, end)) => if valid_utf8(b.subrange(start, end)) {
                        Ok(end)
                    } else {
                        Err(DecodeError::InvalidUtf8)
                    },
                },
                Kind::Message(inner) => if depth == 0 {
                    Err(DecodeError::RecursionLimitExceeded)
                } else {
                    match content(b, MAX_MESSAGE_BYTES as nat) {
                        Err(e) => Err(e),
                        Ok((start, end)) => if start <= 0 || start > b.len() {
                            Err(DecodeError::UnexpectedEof)
                        } else {
                            match fault_within(inner, b.skip(start), end - start, (depth - 1) as nat) {
                                Some(e) => Err(e),
                                None => Ok(end),
                            }
                        },
                    }
                },
                Kind::Entry(inner) => match content(b, usize::MAX as nat) {
                    Err(e) => Err(e),
                    Ok((start, end)) => if start <= 0 || start > b.len() {
                        Err(DecodeError::UnexpectedEof)
                    } else {
                        match fault_within(inner, b.skip(start), end - start, depth) {
                            Some(e) => Err(e),
                            None => Ok(end),
                        }
                    },
                },
            }
        },
    }
}

/// The first fault of the message that takes the first `len` bytes of `b`. A
/// field may end behind them, and only then is the message too short for it.
pub open spec fn fault_within(m: Shape, b: Seq<u8>, len: int, depth: nat) -> Option<DecodeError>
    decreases b.len(),
{
    if len <= 0 {
        if len < 0 {
            Some(DecodeError::UnexpectedEof)
        } else {
            None
        }
    } else {
        match key(b) {
            None => Some(key_fault(b)),
            Some((tag, wt, n)) => if n <= 0 || n > b.len() {
                Some(DecodeError::UnexpectedEof)
            } else {
                match value_read(m, tag, wt, b.skip(n), depth) {
                    Err(e) => Some(e),
                    Ok(k) => if k < 0 || n + k > b.len() {
                        Some(DecodeError::UnexpectedEof)
                    } else {
                        fault_within(m, b.skip(n + k), len - n - k, depth)
                    },
                }
            },
        }
    }
}

/// The first fault of bytes as a message.
pub open spec fn fault(m: Shape, b: Seq<u8>) -> Option<DecodeError> {
    fault_within(m, b, b.len() as int, NESTING as nat)
}

fn find_varint_fault(b: &[u8], pos: usize) -> (res: DecodeError)
    requires
        pos <= b@.len(),
    ensures
        res == varint_fault(b@.skip(pos as int)),
{
    if b.len() - pos >= 10 {
        DecodeError::VarintTooLong
    } else {
        DecodeError::UnexpectedEof
    }
}

fn find_key_fault(b: &[u8], pos: usize) -> (res: DecodeError)
    requires
        pos <= b@.len(),
    ensures
        res == key_fault(b@.skip(pos as int)),
{
    match read_varint(b, pos) {
        None => find_varint_fault(b, pos),
        Some((k, _)) => if k <= 0xffff_ffff && k % 8 > 5 {
            DecodeError::InvalidWireType((k % 8) as u32)
        } else {
            DecodeError::InvalidFieldNumber
        },
    }
}

fn find_content(b: &[u8], pos: usize, limit: u64) -> (res: Result<(usize, usize), DecodeError>)
    requires
        pos <= b@.len(),
    ensures
        match res {
            Ok((start, end)) => pos < start <= end <= b@.len() && content(
                b@.skip(pos as int),
                limit as nat,
            ) == Ok::<(int, int), DecodeError>((start - pos, end - pos)),
            Err(e) => content(b@.skip(pos as int), limit as nat) == Err::<(int, int), DecodeError>(
                e,
            ),
        },
{
    match read_varint(b, pos) {
        None => Err(find_varint_fault(b, pos)),
        Some((len, start)) => if len > limit {
            Err(DecodeError::MessageTooLarge)
        } else if len > (b.len() - start) as u64 {
            Err(DecodeError::UnexpectedEof)
        } else {
            Ok((start, start + len as usize))
        },
    }
}

/// The position after a value that is not known.
fn find_skipped(b: &[u8], pos: usize, wt: u8, tag: u32, depth: u8) -> (res: Result<
    usize,
    DecodeError,
>)
    requires
        pos <= b@.len(),
    ensures
        match res {
            Ok(next) => pos <= next <= b@.len() && skipped(
                wt as nat,
                tag,
                b@.skip(pos as int),
                depth as nat,
            ) == Ok::<int, DecodeError>(next - pos),
            Err(e) => skipped(wt as nat, tag, b@.skip(pos as int), depth as nat) == Err::<
                int,
                DecodeError,
            >(e),
        },
    decreases depth, 0int,
{
    if wt == 0 {
        match read_varint(b, pos) {
            Some((_, next)) => Ok(next),
            None => Err(find_varint_fault(b, pos)),
        }
    } else if wt == 1 {
        if b.len() - pos >= 8 {
            Ok(pos + 8)
        } else {
            Err(DecodeError::UnexpectedEof)
        }
    } else if wt == 2 {
        match find_content(b, pos, usize::MAX as u64) {
            Ok((_, end)) => Ok(end),
            Err(e) => Err(e),
        }
    } else if wt == 3 {
        if depth == 0 {
            Err(DecodeError::RecursionLimitExceeded)
        } else {
            find_group_skipped(b, pos, tag, depth - 1)
        }
    } else if wt == 5 {
        if b.len() - pos >= 4 {
            Ok(pos + 4)
        } else {
            Err(DecodeError::UnexpectedEof)
        }
    } else {
        Err(DecodeError::InvalidWireType(wt as u32))
    }
}

/// The position after the rest of group `tag`.
fn find_group_skipped(b: &[u8], pos: usize, tag: u32, depth: u8) -> (res: Result<
    usize,
    DecodeError,
>)
    requires
        pos <= b@.len(),
    ensures
        match res {
            Ok(next) => pos <= next <= b@.len() && group_skipped(
                tag,
                b@.skip(pos as int),
                depth as nat,
            ) == Ok::<int, DecodeError>(next - pos),
            Err(e) => group_skipped(tag, b@.skip(pos as int), depth as nat) == Err::<
                int,
                DecodeError,
            >(e),
        },
    decreases depth, 1int,
{
    let mut at: usize = pos;
    let ghost whole = group_skipped(tag, b@.skip(pos as int), depth as nat);
    loop
        invariant
            pos <= at <= b@.len(),
            whole == group_skipped(tag, b@.skip(pos as int), depth as nat),
            match group_skipped(tag, b@.skip(at as int), depth as nat) {
                Ok(r) => whole == Ok::<int, DecodeError>(at - pos + r),
                Err(e) => whole == Err::<int, DecodeError>(e),
            },
        decreases b@.len() - at,
    {
        let ghost s = b@.skip(at as int);
        proof {
            lemma_key_bounds(s);
        }
        match read_key(b, at) {
            None => {
                return Err(find_key_fault(b, at));
            },
            Some((t, wt, next)) => {
                if wt == 4 {
                    if t == tag {
                        return Ok(next);
                    }
                    return Err(DecodeError::InvalidEndGroup(t));
                }
                assert(s.skip(next - at) =~= b@.skip(next as int));
                match find_skipped(b, next, wt, t, depth) {
                    Err(e) => {
                        return Err(e);
                    },
                    Ok(after) => {
                        assert(s.skip(after - at) =~= b@.skip(after as int));
                        at = after;
                    },
                }
            },
        }
    }
}

/// The position after the value at `pos` of field `tag` of a message.
fn find_value_read(m: Shape, tag: u32, wt: u8, b: &[u8], pos: usize, depth: u8) -> (res: Result<
    usize,
    DecodeError,
>)
    requires
        pos <= b@.len(),
    ensures
        match res {
            Ok(next) => pos <= next <= b@.len() && value_read(
                m,
                tag,
                wt as nat,
                b@.skip(pos as int),
                depth as nat,
            ) == Ok::<int, DecodeError>(next - pos),
            Err(e) => value_read(m, tag, wt as nat, b@.skip(pos as int), depth as nat) == Err::<
                int,
                DecodeError,
            >(e),
        },
    decreases b@.len() - pos, 0int,
{
    let ghost s = b@.skip(pos as int);
    let kind = match m.find_kind(tag) {
        None => {
            return find_skipped(b, pos, wt, tag, depth);
        },
        Some(kind) => kind,
    };
    let expected: u8 = match kind {
        Kind::Number => 0,
        _ => 2,
    };
    if wt != expected {
        return Err(DecodeError::WireTypeMismatch { field_number: tag, expected, actual: wt });
    }
    match kind {
        Kind::Number => find_skipped(b, pos, 0, tag, depth),
        Kind::Bytes => find_skipped(b, pos, 2, tag, depth),
        Kind::Text => match find_content(b, pos, usize::MAX as u64) {
            Err(e) => Err(e),
            Ok((start, end)) => {
                assert(b@.subrange(start as int, end as int) =~= s.subrange(start - pos, end - pos));
                if string_from_utf8(byte_range(b, start, end)).is_some() {
                    Ok(end)
                } else {
                    Err(DecodeError::InvalidUtf8)
                }
            },
        },
        Kind::Message(inner) => {
            if depth == 0 {
                return Err(DecodeError::RecursionLimitExceeded);
            }
            match find_content(b, pos, MAX_MESSAGE_BYTES as u64) {
                Err(e) => Err(e),
                Ok((start, end)) => {
                    assert(s.skip(start - pos) =~= b@.skip(start as int));
                    match find_within(inner, b, start, end, depth - 1) {
                        Some(e) => Err(e),
                        None => Ok(end),
                    }
                },
            }
        },
        Kind::Entry(inner) => match find_content(b, pos, usize::MAX as u64) {
            Err(e) => Err(e),
            Ok((start, end)) => {
                assert(s.skip(start - pos) =~= b@.skip(start as int));
                match find_within(inner, b, start, end, depth) {
                    Some(e) => Err(e),
                    None => Ok(end),
                }
            },
        },
    }
}

/// The first fault of the message that stands in `b[pos..end]`.
fn find_within(m: Shape, b: &[u8], pos: usize, end: usize, depth: u8) -> (res: Option<DecodeError>)
    requires
        pos <= end <= b@.len(),
    ensures
        res == fault_within(m, b@.skip(pos as int), end - pos, depth as nat),
    decreases b@.len() - pos, 1int,
{
    let mut at: usize = pos;
    let ghost whole = fault_within(m, b@.skip(pos as int), end - pos, depth as nat);
    while at < end
        invariant
            pos <= at <= b@.len(),
            end <= b@.len(),
            whole == fault_within(m, b@.skip(pos as int), end - pos, depth as nat),
            whole == fault_within(m, b@.skip(at as int), end - at, depth as nat),
        decreases b@.len() - at,
    {
        let ghost s = b@.skip(at as int);
        proof {
            lemma_key_bounds(s);
        }
        match read_key(b, at) {
            None => {
                return Some(find_key_fault(b, at));
            },
            Some((tag, wt, next)) => {
                assert(s.skip(next - at) =~= b@.skip(next as int));
                match find_value_read(m, tag, wt, b, next, depth) {
                    Err(e) => {
                        return Some(e);
                    },
                    Ok(after) => {
                        assert(s.skip(after - at) =~= b@.skip(after as int));
                        at = after;
                    },
                }
            },
        }
    }
    if at > end {
        Some(DecodeError::UnexpectedEof)
    } else {
        None
    }
}

/// What is said of bytes that are no message.
pub open spec fn complaint(about: Seq<char>, m: Shape, b: Seq<u8>) -> Seq<char> {
    about + fault(m, b)->0.words()
}

/// The first fault of bytes as a message.
pub fn find_fault(m: Shape, b: &[u8]) -> (res: Option<DecodeError>)
    ensures
        res == fault(m, b@),
{
    assert(b@.skip(0) =~= b@);
    find_within(m, b, 0, b.len(), NESTING)
}

// ---------------------------------------------------------------------------
// Bytes without a fault are a message
// ---------------------------------------------------------------------------

/// How deep messages nest in a message of a shape.
pub open spec fn rank(m: Shape) -> nat {
    match m {
        Shape::InitialPayload => 2,
        Shape::PortForwardSourceRequest => 1,
        Shape::PortForwardDestinationRequest => 1,
        _ => 0,
    }
}

pub proof fn lemma_rank(m: Shape, tag: u32)
    ensures
        m.kind(tag) matches Some(Kind::Message(inner)) ==> rank(inner) < rank(m),
        m.kind(tag) matches Some(Kind::Entry(inner)) ==> rank(inner) < rank(m),
{
}

/// Whether a field is what its message takes it for.
pub open spec fn fits(m: Shape, f: Field, depth: nat) -> bool
    decreases rank(m), 0int,
{
    proof {
        lemma_rank(m, f.tag);
    }
    match m.kind(f.tag) {
        None => true,
        Some(Kind::Number) => f.value is Varint,
        Some(Kind::Bytes) => f.value is Bytes,
        Some(Kind::Text) => f.value matches Value::Bytes(b) && valid_utf8(b),
        Some(Kind::Message(inner)) => f.value matches Value::Bytes(b) && depth > 0
            && well_formed(inner, b, (depth - 1) as nat),
        Some(Kind::Entry(inner)) => f.value matches Value::Bytes(b) && well_formed(
            inner,
            b,
            depth,
        ),
    }
}

/// Whether bytes are fields that are all what their message takes them for.
pub open spec fn well_formed(m: Shape, b: Seq<u8>, depth: nat) -> bool
    decreases rank(m), 1int,
{
    parse_nested(b, depth) matches Some(fs) && forall|i: int|
        0 <= i < fs.len() ==> fits(m, #[trigger] fs[i], depth)
}

proof fn lemma_skipped(wt: nat, tag: u32, b: Seq<u8>, depth: nat)
    requires
        b.len() <= usize::MAX,
    ensures
        match skipped(wt, tag, b, depth) {
            Ok(n) => value_len(wt, tag, b, depth) == Some(n),
            Err(_) => value_len(wt, tag, b, depth) is None,
        },
    decreases b.len(), 1int,
{
    lemma_varint_bounds(b, 0);
    if wt == 3 && depth > 0 {
        lemma_group_skipped(tag, b, (depth - 1) as nat);
    }
}

proof fn lemma_group_skipped(tag: u32, b: Seq<u8>, depth: nat)
    requires
        b.len() <= usize::MAX,
    ensures
        match group_skipped(tag, b, depth) {
            Ok(n) => group_len(tag, b, depth) == Some(n),
            Err(_) => group_len(tag, b, depth) is None,
        },
    decreases b.len(), 0int,
{
    lemma_key_bounds(b);
    if let Some((t, wt, n)) = key(b) {
        if wt != 4 {
            lemma_skipped(wt, t, b.skip(n), depth);
            lemma_value_bounds(wt, t, b.skip(n), depth);
            if let Some(m) = value_len(wt, t, b.skip(n), depth) {
                lemma_group_skipped(tag, b.skip(n + m), depth);
            }
        }
    }
}

proof fn lemma_value_fits(m: Shape, tag: u32, wt: nat, b: Seq<u8>, depth: nat, k: int)
    requires
        b.len() <= usize::MAX,
        value_read(m, tag, wt, b, depth) == Ok::<int, DecodeError>(k),
    ensures
        value_len(wt, tag, b, depth) == Some(k),
        fits(m, Field { tag, value: value_at(wt, b, k) }, depth),
    decreases b.len(), 0int,
{
    lemma_skipped(wt, tag, b, depth);
    lemma_varint_bounds(b, 0);
    match m.kind(tag) {
        Some(Kind::Message(inner)) => {
            let (start, end) = content(b, MAX_MESSAGE_BYTES as nat)->Ok_0;
            lemma_no_fault_within(inner, b.skip(start), end - start, (depth - 1) as nat);
            assert(b.skip(start).take(end - start) =~= b.subrange(start, end));
        },
        Some(Kind::Entry(inner)) => {
            let (start, end) = content(b, usize::MAX as nat)->Ok_0;
            lemma_no_fault_within(inner, b.skip(start), end - start, depth);
            assert(b.skip(start).take(end - start) =~= b.subrange(start, end));
        },
        _ => {},
    }
}

proof fn lemma_no_fault_within(m: Shape, b: Seq<u8>, len: int, depth: nat)
    requires
        0 <= len <= b.len() <= usize::MAX,
        fault_within(m, b, len, depth) is None,
    ensures
        well_formed(m, b.take(len), depth),
    decreases b.len(), 1int,
{
    let c = b.take(len);
    if len > 0 {
        lemma_key_bounds(b);
        let (tag, wt, n) = key(b)->0;
        let k = value_read(m, tag, wt, b.skip(n), depth)->Ok_0;
        assert(fault_within(m, b.skip(n + k), len - n - k, depth) is None);
        assert(n + k <= len);
        lemma_value_fits(m, tag, wt, b.skip(n), depth, k);
        lemma_value_bounds(wt, tag, b.skip(n), depth);
        lemma_no_fault_within(m, b.skip(n + k), len - n - k, depth);
        assert(c.take(len) =~= b.take(len));
        lemma_key_local(b, c, len);
        lemma_shared_tail(b, c, len, n);
        lemma_value_local(wt, tag, b.skip(n), c.skip(n), len - n, depth);
        let f = Field { tag, value: value_at(wt, b.skip(n), k) };
        assert(value_at(wt, c.skip(n), k) == f.value) by {
            if wt == 0 || wt == 2 {
                lemma_varint_bounds(b.skip(n), 0);
                lemma_varint_local(b.skip(n), c.skip(n), len - n, 0);
                if wt == 2 {
                    let start = varint(b.skip(n))->Some_0.1;
                    assert(b.skip(n).subrange(start, k) =~= c.skip(n).subrange(start, k));
                }
            } else if wt == 1 {
                assert(b.skip(n).take(8) =~= c.skip(n).take(8));
            } else if wt == 3 {
                assert(b.skip(n).take(k) =~= c.skip(n).take(k));
            } else {
                assert(b.skip(n).take(4) =~= c.skip(n).take(4));
            }
        }
        assert(c.skip(n + k) =~= b.skip(n + k).take(len - n - k));
        let rest = parse_nested(c.skip(n + k), depth)->0;
        let fs = seq![f] + rest;
        assert(parse_nested(c, depth) == Some(fs));
        assert forall|i: int| 0 <= i < fs.len() implies fits(m, #[trigger] fs[i], depth) by {
            if i > 0 {
                assert(fs[i] == rest[i - 1]);
            }
        }
    }
}

/// Bytes in which nothing is wrong are fields that are all what their message
/// takes them for.
pub proof fn law_no_fault_is_well_formed(m: Shape, b: Seq<u8>)
    requires
        b.len() <= usize::MAX,
        fault(m, b) is None,
    ensures
        well_formed(m, b, NESTING as nat),
{
    lemma_no_fault_within(m, b, b.len() as int, NESTING as nat);
    assert(b.take(b.len() as int) =~= b);
}

/// Every occurrence of a field is of its type.
pub proof fn lemma_all_of_total<T>(fs: Seq<Field>, tag: u32, kind: spec_fn(Value) -> Option<T>)
    requires
        forall|i: int|
            0 <= i < fs.len() && (#[trigger] fs[i]).tag == tag ==> kind(fs[i].value) is Some,
    ensures
        all_of(fs, tag, kind) is Some,
        last_of(fs, tag, kind) is Some,
    decreases fs.len(),
{
    reveal(last_of);
    if fs.len() > 0 {
        let front = fs.drop_last();
        assert forall|i: int| 0 <= i < front.len() && (#[trigger] front[i]).tag == tag implies kind(
            front[i].value,
        ) is Some by {
            assert(front[i] == fs[i]);
        }
        lemma_all_of_total(front, tag, kind);
        assert(fs[fs.len() - 1] == fs.last());
    }
}

/// What a number, text or bytes field gives in fields that fit.
pub proof fn lemma_fitting(m: Shape, fs: Seq<Field>, depth: nat, tag: u32)
    requires
        forall|i: int| 0 <= i < fs.len() ==> fits(m, #[trigger] fs[i], depth),
    ensures
        m.kind(tag) == Some(Kind::Number) ==> all_of(fs, tag, i32_kind()) is Some && last_of(
            fs,
            tag,
            i32_kind(),
        ) is Some && last_of(fs, tag, i64_kind()) is Some && last_of(fs, tag, bool_kind()) is Some,
        m.kind(tag) == Some(Kind::Text) ==> all_of(fs, tag, text_kind()) is Some && last_of(
            fs,
            tag,
            text_kind(),
        ) is Some,
        m.kind(tag) == Some(Kind::Bytes) ==> all_of(fs, tag, bytes_kind()) is Some && last_of(
            fs,
            tag,
            bytes_kind(),
        ) is Some,
{
    if m.kind(tag) == Some(Kind::Number) {
        lemma_all_of_total(fs, tag, i32_kind());
        lemma_all_of_total(fs, tag, i64_kind());
        lemma_all_of_total(fs, tag, bool_kind());
    }
    if m.kind(tag) == Some(Kind::Text) {
        lemma_all_of_total(fs, tag, text_kind());
    }
    if m.kind(tag) == Some(Kind::Bytes) {
        lemma_all_of_total(fs, tag, bytes_kind());
    }
}

proof fn lemma_short_key(k: u8, rest: Seq<u8>)
    requires
        k < 128,
    ensures
        varint(seq![k] + rest) == Some((k as nat, 1int)),
        (seq![k] + rest).skip(1) == rest,
{
    assert((seq![k] + rest).skip(1) =~= rest);
    assert((seq![k] + rest)[0] == k);
}

/// A field of a message whose wire type is not that of its kind is named, with
/// both types, whatever follows.
pub proof fn law_wrong_type_is_named(m: Shape, tag: u32, wt: u8, rest: Seq<u8>)
    requires
        1 <= tag <= 15,
        wt <= 5,
        m.kind(tag) is Some,
        (wt == 0) != (m.kind(tag)->0 == Kind::Number) || !(wt == 0 || wt == 2),
    ensures
        fault(m, seq![(tag * 8 + wt) as u8] + rest) == Some(
            DecodeError::WireTypeMismatch {
                field_number: tag,
                expected: if m.kind(tag)->0 == Kind::Number {
                    0
                } else {
                    2
                },
                actual: wt,
            },
        ),
{
    let k = (tag * 8 + wt) as u8;
    lemma_short_key(k, rest);
    let b = seq![k] + rest;
    assert(key(b) == Some((tag, wt as nat, 1int)));
    assert(value_read(m, tag, wt as nat, rest, NESTING as nat) == Err::<int, DecodeError>(
        DecodeError::WireTypeMismatch {
            field_number: tag,
            expected: m.kind(tag)->0.wire_type() as u8,
            actual: wt,
        },
    ));
    assert(b.skip(1) == rest);
}

/// A key with a wire type that there is not is named; one with the number zero
/// is refused as a number.
pub proof fn law_bad_keys(m: Shape, k: u8, rest: Seq<u8>)
    requires
        k < 128,
    ensures
        k % 8 > 5 ==> fault(m, seq![k] + rest) == Some(
            DecodeError::InvalidWireType((k % 8) as u32),
        ),
        k < 6 ==> fault(m, seq![k] + rest) == Some(DecodeError::InvalidFieldNumber),
{
    lemma_short_key(k, rest);
}

/// A number that ends too early, or goes on for too long, is told apart.
pub proof fn law_broken_numbers(m: Shape, tag: u32, digits: Seq<u8>)
    requires
        1 <= tag <= 15,
        m.kind(tag) == Some(Kind::Number),
        forall|i: int| 0 <= i < digits.len() ==> #[trigger] digits[i] >= 128,
    ensures
        digits.len() < 10 ==> fault(m, seq![(tag * 8) as u8] + digits) == Some(
            DecodeError::UnexpectedEof,
        ),
        digits.len() >= 10 ==> fault(m, seq![(tag * 8) as u8] + digits) == Some(
            DecodeError::VarintTooLong,
        ),
{
    let k = (tag * 8) as u8;
    lemma_short_key(k, digits);
    let b = seq![k] + digits;
    assert(key(b) == Some((tag, 0nat, 1int)));
    lemma_endless(digits, 0);
    assert(skipped(0, tag, digits, NESTING as nat) == Err::<int, DecodeError>(varint_fault(digits)));
    assert(value_read(m, tag, 0, digits, NESTING as nat) == Err::<int, DecodeError>(
        varint_fault(digits),
    ));
    assert(b.skip(1) == digits);
}

proof fn lemma_endless(digits: Seq<u8>, k: nat)
    requires
        forall|i: int| 0 <= i < digits.len() ==> #[trigger] digits[i] >= 128,
        k <= 9,
    ensures
        crate::wire::varint_from(digits, k) is None,
    decreases digits.len(),
{
    if digits.len() > 0 {
        assert(digits[0] >= 128);
        if k < 9 {
            assert forall|i: int| 0 <= i < digits.skip(1).len() implies #[trigger] digits.skip(1)[i]
                >= 128 by {
                assert(digits.skip(1)[i] == digits[i + 1]);
            }
            lemma_endless(digits.skip(1), k + 1);
        }
    }
}

/// A text or byte string that is longer than what is left ends too early; a text
/// that is none is told so.
pub proof fn law_broken_contents(m: Shape, tag: u32, len: u8, bytes: Seq<u8>)
    requires
        1 <= tag <= 15,
        m.kind(tag) == Some(Kind::Text) || m.kind(tag) == Some(Kind::Bytes),
        len < 128,
    ensures
        bytes.len() < len ==> fault(m, seq![(tag * 8 + 2) as u8] + (seq![len] + bytes)) == Some(
            DecodeError::UnexpectedEof,
        ),
        bytes.len() == len && m.kind(tag) == Some(Kind::Text) && !valid_utf8(bytes) ==> fault(
            m,
            seq![(tag * 8 + 2) as u8] + (seq![len] + bytes),
        ) == Some(DecodeError::InvalidUtf8),
{
    let k = (tag * 8 + 2) as u8;
    lemma_short_key(k, seq![len] + bytes);
    lemma_short_key(len, bytes);
    let b = seq![k] + (seq![len] + bytes);
    assert(key(b) == Some((tag, 2nat, 1int)));
    let c = seq![len] + bytes;
    if bytes.len() == len {
        assert(c.subrange(1, 1 + len as int) =~= bytes);
    }
    if bytes.len() < len {
        assert(content(c, usize::MAX as nat) == Err::<(int, int), DecodeError>(
            DecodeError::UnexpectedEof,
        ));
        assert(skipped(2, tag, c, NESTING as nat) == Err::<int, DecodeError>(
            DecodeError::UnexpectedEof,
        ));
        assert(value_read(m, tag, 2, c, NESTING as nat) == Err::<int, DecodeError>(
            DecodeError::UnexpectedEof,
        ));
    } else if bytes.len() == len && m.kind(tag) == Some(Kind::Text) && !valid_utf8(bytes) {
        assert(value_read(m, tag, 2, c, NESTING as nat) == Err::<int, DecodeError>(
            DecodeError::InvalidUtf8,
        ));
    }
    assert(b.skip(1) == c);
}

/// Nothing is wrong with no bytes, and a field that its message does not know is
/// no fault if it is whole: what follows it decides.
pub proof fn law_unknown_numbers_are_no_fault(m: Shape, tag: u32, value: u8, rest: Seq<u8>)
    requires
        1 <= tag <= 15,
        m.kind(tag) is None || m.kind(tag) == Some(Kind::Number),
        value < 128,
    ensures
        fault(m, Seq::empty()) is None,
        fault(m, seq![(tag * 8) as u8] + (seq![value] + rest)) == fault(m, rest),
{
    let k = (tag * 8) as u8;
    lemma_short_key(k, seq![value] + rest);
    lemma_short_key(value, rest);
    let b = seq![k] + (seq![value] + rest);
    assert(key(b) == Some((tag, 0nat, 1int)));
    assert(b.skip(2) =~= rest);
    assert(value_read(m, tag, 0, seq![value] + rest, NESTING as nat) == Ok::<int, DecodeError>(1));
}

} // verus!
