//! The protobuf wire format: variable-length integers, tagged fields, and
//! the reading and writing of field lists.

use vstd::prelude::*;
use vstd::utf8::*;
use crate::text::{copy_bytes, opt_text, string_from_utf8, texts};

verus! {

/// Input that is not a well-formed message of the expected type.
#[derive(Clone, Copy, Debug, PartialEq, Eq, Structural)]
pub struct Malformed;

/// The value of one field, by wire type.
pub enum Value {
    Varint(u64),
    Fixed64(Seq<u8>),
    Bytes(Seq<u8>),
    /// The bytes of a group, its end marker among them.
    Group(Seq<u8>),
    Fixed32(Seq<u8>),
}

/// One field: its number and its value.
pub struct Field {
    pub tag: u32,
    pub value: Value,
}

/// A field value as it was read.
#[derive(Clone, Debug, PartialEq, Eq)]
pub enum RawValue {
    Varint(u64),
    Fixed64(Vec<u8>),
    Bytes(Vec<u8>),
    Group(Vec<u8>),
    Fixed32(Vec<u8>),
}

/// A field as it was read.
#[derive(Clone, Debug, PartialEq, Eq)]
pub struct RawField {
    pub tag: u32,
    pub value: RawValue,
}

impl View for RawValue {
    type V = Value;

    open spec fn view(&self) -> Value {
        match self {
            RawValue::Varint(v) => Value::Varint(*v),
            RawValue::Fixed64(b) => Value::Fixed64(b@),
            RawValue::Bytes(b) => Value::Bytes(b@),
            RawValue::Group(b) => Value::Group(b@),
            RawValue::Fixed32(b) => Value::Fixed32(b@),
        }
    }
}

impl View for RawField {
    type V = Field;

    open spec fn view(&self) -> Field {
        Field { tag: self.tag, value: self.value@ }
    }
}

/// The fields that a list of raw fields holds.
pub open spec fn fields(v: Seq<RawField>) -> Seq<Field> {
    v.map_values(|f: RawField| f@)
}

/// The largest field number.
pub const MAX_TAG: u32 = 0x1fff_ffff;

/// How deep messages and groups may nest in a message.
pub const NESTING: u8 = 100;

// ---------------------------------------------------------------------------
// Variable-length integers
// ---------------------------------------------------------------------------

/// One more than the largest value that the bytes from number `k` on of an
/// integer can hold: ten bytes carry 64 bits, seven at a time.
pub open spec fn varint_limit(k: nat) -> nat
    decreases 9 - k,
{
    if k >= 9 {
        2
    } else {
        128 * varint_limit(k + 1)
    }
}

/// Reads an integer of which `k` bytes came before: the value of the rest
/// and the number of bytes that it takes.
pub open spec fn varint_from(b: Seq<u8>, k: nat) -> Option<(nat, int)>
    decreases b.len(),
{
    if b.len() == 0 {
        None
    } else if k >= 9 {
        if b[0] < 2 {
            Some((b[0] as nat, 1))
        } else {
            None
        }
    } else if b[0] < 128 {
        Some((b[0] as nat, 1))
    } else {
        match varint_from(b.skip(1), k + 1) {
            Some((v, n)) => Some(((b[0] - 128 + 128 * v) as nat, n + 1)),
            None => None,
        }
    }
}

/// The integer at the start of `b` and its length.
pub open spec fn varint(b: Seq<u8>) -> Option<(nat, int)> {
    varint_from(b, 0)
}

/// The bytes of an integer, least significant group first.
pub open spec fn varint_bytes(v: nat) -> Seq<u8>
    decreases v,
{
    if v < 128 {
        seq![v as u8]
    } else {
        seq![(v % 128 + 128) as u8] + varint_bytes(v / 128)
    }
}

pub proof fn lemma_varint_limit()
    ensures
        varint_limit(0) == 0x1_0000_0000_0000_0000,
{
    reveal_with_fuel(varint_limit, 10);
}

/// What an integer read from `b` is bounded by.
pub proof fn lemma_varint_bounds(b: Seq<u8>, k: nat)
    requires
        k <= 9,
    ensures
        varint_from(b, k) matches Some((v, n)) ==> 1 <= n <= b.len() && v < varint_limit(k),
    decreases b.len(),
{
    reveal_with_fuel(varint_limit, 2);
    if b.len() > 0 && k < 9 {
        if b[0] < 128 {
            lemma_limit_at_least(k);
        } else {
            lemma_varint_bounds(b.skip(1), k + 1);
        }
    }
}

proof fn lemma_limit_at_least(k: nat)
    requires
        k < 9,
    ensures
        varint_limit(k) >= 256,
    decreases 9 - k,
{
    reveal_with_fuel(varint_limit, 3);
    if k < 8 {
        lemma_limit_at_least(k + 1);
    }
}

/// Reading an integer gives back what writing one wrote, whatever follows.
pub proof fn law_varint_round_trip(v: nat, rest: Seq<u8>)
    requires
        v <= u64::MAX,
    ensures
        varint(varint_bytes(v) + rest) == Some((v, varint_bytes(v).len() as int)),
{
    lemma_varint_limit();
    lemma_varint_round_trip_from(v, 0, rest);
}

proof fn lemma_varint_round_trip_from(v: nat, k: nat, rest: Seq<u8>)
    requires
        k <= 9,
        v < varint_limit(k),
    ensures
        varint_from(varint_bytes(v) + rest, k) == Some((v, varint_bytes(v).len() as int)),
    decreases v,
{
    reveal_with_fuel(varint_limit, 2);
    let b = varint_bytes(v) + rest;
    if v < 128 {
        assert(b[0] == v);
    } else {
        assert(k < 9);
        lemma_varint_round_trip_from(v / 128, k + 1, rest);
        assert(b.skip(1) =~= varint_bytes(v / 128) + rest);
        assert(b[0] == v % 128 + 128);
    }
}

/// Reads the integer at `pos`, of which `k` bytes came before.
fn read_varint_from(b: &[u8], pos: usize, k: u8) -> (res: Option<(u64, usize)>)
    requires
        pos <= b@.len(),
        k <= 9,
    ensures
        match res {
            Some((v, next)) => pos < next <= b@.len() && varint_from(b@.skip(pos as int), k as nat)
                == Some((v as nat, next - pos)),
            None => varint_from(b@.skip(pos as int), k as nat) is None,
        },
    decreases 9 - k,
{
    let ghost s = b@.skip(pos as int);
    if pos >= b.len() {
        return None;
    }
    let c: u8 = b[pos];
    assert(c == s[0]);
    if k >= 9 {
        if c < 2 {
            return Some((c as u64, pos + 1));
        }
        return None;
    }
    if c < 128 {
        return Some((c as u64, pos + 1));
    }
    assert(s.skip(1) =~= b@.skip(pos + 1));
    match read_varint_from(b, pos + 1, k + 1) {
        Some((v, next)) => {
            proof {
                lemma_varint_bounds(s, k as nat);
                lemma_varint_limit();
                lemma_limit_antitone(k as nat);
            }
            Some(((c - 128) as u64 + 128 * v, next))
        },
        None => None,
    }
}

proof fn lemma_limit_antitone(k: nat)
    requires
        k <= 9,
    ensures
        varint_limit(k) <= varint_limit(0),
    decreases k,
{
    reveal_with_fuel(varint_limit, 2);
    if k > 0 {
        lemma_limit_antitone((k - 1) as nat);
    }
}

/// Reads the integer at `pos`: its value and the position after it.
pub fn read_varint(b: &[u8], pos: usize) -> (res: Option<(u64, usize)>)
    requires
        pos <= b@.len(),
    ensures
        match res {
            Some((v, next)) => pos < next <= b@.len() && varint(b@.skip(pos as int)) == Some(
                (v as nat, next - pos),
            ),
            None => varint(b@.skip(pos as int)) is None,
        },
{
    read_varint_from(b, pos, 0)
}

/// Appends the bytes of `v`.
pub fn write_varint(out: &mut Vec<u8>, v: u64)
    ensures
        final(out)@ == old(out)@ + varint_bytes(v as nat),
{
    let mut rest: u64 = v;
    let ghost start = out@;
    while rest >= 128
        invariant
            out@ + varint_bytes(rest as nat) == start + varint_bytes(v as nat),
        decreases rest,
    {
        let ghost before = out@;
        let ghost all = varint_bytes(rest as nat);
        let low: u8 = (rest % 128) as u8;
        out.push(low + 128);
        rest = rest / 128;
        assert(out@ + varint_bytes(rest as nat) =~= before + all);
    }
    out.push(rest as u8);
    assert(out@ =~= start + varint_bytes(v as nat));
}

// ---------------------------------------------------------------------------
// Fields
// ---------------------------------------------------------------------------

/// The key at the start of `b`: field number, wire type, and length.
pub open spec fn key(b: Seq<u8>) -> Option<(u32, nat, int)> {
    match varint(b) {
        Some((k, n)) => if k <= u32::MAX && k / 8 >= 1 && k % 8 <= 5 {
            Some(((k / 8) as u32, k % 8, n))
        } else {
            None
        },
        None => None,
    }
}

/// The length of the value of wire type `wt` at the start of `b`. A group
/// ends with the end marker of its own number, and takes one level of `depth`.
pub open spec fn value_len(wt: nat, tag: u32, b: Seq<u8>, depth: nat) -> Option<int>
    decreases b.len(), 1int,
{
    if wt == 0 {
        match varint(b) {
            Some((_, n)) => Some(n),
            None => None,
        }
    } else if wt == 1 {
        if b.len() >= 8 {
            Some(8)
        } else {
            None
        }
    } else if wt == 2 {
        match varint(b) {
            Some((len, n)) => if n + len <= b.len() {
                Some(n + len)
            } else {
                None
            },
            None => None,
        }
    } else if wt == 3 {
        if depth == 0 {
            None
        } else {
            group_len(tag, b, (depth - 1) as nat)
        }
    } else if wt == 5 {
        if b.len() >= 4 {
            Some(4)
        } else {
            None
        }
    } else {
        None
    }
}

/// The length of the rest of group `tag`, its end marker counted, where
/// `depth` levels are left inside it.
pub open spec fn group_len(tag: u32, b: Seq<u8>, depth: nat) -> Option<int>
    decreases b.len(), 0int,
{
    match key(b) {
        None => None,
        Some((t, wt, n)) => if n <= 0 || n > b.len() {
            None
        } else if wt == 4 {
            if t == tag {
                Some(n)
            } else {
                None
            }
        } else {
            match value_len(wt, t, b.skip(n), depth) {
                None => None,
                Some(m) => if m < 0 || n + m > b.len() {
                    None
                } else {
                    match group_len(tag, b.skip(n + m), depth) {
                        None => None,
                        Some(r) => Some(n + m + r),
                    }
                },
            }
        },
    }
}

/// The value held by the `m` bytes at the start of `b`.
pub open spec fn value_at(wt: nat, b: Seq<u8>, m: int) -> Value {
    if wt == 0 {
        Value::Varint(match varint(b) {
            Some((v, _)) => v as u64,
            None => 0,
        })
    } else if wt == 1 {
        Value::Fixed64(b.take(8))
    } else if wt == 2 {
        Value::Bytes(match varint(b) {
            Some((_, n)) => b.subrange(n, m),
            None => Seq::empty(),
        })
    } else if wt == 3 {
        Value::Group(b.take(m))
    } else {
        Value::Fixed32(b.take(4))
    }
}

/// The field at the start of `b` and its length, where `depth` levels are left.
pub open spec fn parse_field(b: Seq<u8>, depth: nat) -> Option<(Field, int)> {
    match key(b) {
        None => None,
        Some((tag, wt, n)) => match value_len(wt, tag, b.skip(n), depth) {
            None => None,
            Some(m) => Some((Field { tag, value: value_at(wt, b.skip(n), m) }, n + m)),
        },
    }
}

/// The fields that make up the message `b`.
pub open spec fn parse_fields(b: Seq<u8>) -> Option<Seq<Field>> {
    parse_nested(b, NESTING as nat)
}

/// The fields that make up `b`, where `depth` levels are left.
pub open spec fn parse_nested(b: Seq<u8>, depth: nat) -> Option<Seq<Field>>
    decreases b.len(),
{
    if b.len() == 0 {
        Some(Seq::empty())
    } else {
        match parse_field(b, depth) {
            None => None,
            Some((f, n)) => if n <= 0 || n > b.len() {
                None
            } else {
                match parse_nested(b.skip(n), depth) {
                    None => None,
                    Some(rest) => Some(seq![f] + rest),
                }
            },
        }
    }
}

/// The wire type of a value.
pub open spec fn wire_type(v: Value) -> nat {
    match v {
        Value::Varint(_) => 0,
        Value::Fixed64(_) => 1,
        Value::Bytes(_) => 2,
        Value::Group(_) => 3,
        Value::Fixed32(_) => 5,
    }
}

/// The bytes of a value.
pub open spec fn value_bytes(v: Value) -> Seq<u8> {
    match v {
        Value::Varint(x) => varint_bytes(x as nat),
        Value::Fixed64(b) => b,
        Value::Bytes(b) => varint_bytes(b.len()) + b,
        Value::Group(b) => b,
        Value::Fixed32(b) => b,
    }
}

/// The bytes of a field.
pub open spec fn field_bytes(f: Field) -> Seq<u8> {
    varint_bytes((f.tag * 8 + wire_type(f.value)) as nat) + value_bytes(f.value)
}

/// The bytes of a list of fields, in order.
pub open spec fn fields_bytes(fs: Seq<Field>) -> Seq<u8>
    decreases fs.len(),
{
    if fs.len() == 0 {
        Seq::empty()
    } else {
        fields_bytes(fs.drop_last()) + field_bytes(fs.last())
    }
}

pub proof fn lemma_key_bounds(b: Seq<u8>)
    ensures
        key(b) matches Some((t, wt, n)) ==> 1 <= n <= b.len() && 1 <= t <= MAX_TAG && wt <= 5,
{
    lemma_varint_bounds(b, 0);
}

pub proof fn lemma_value_bounds(wt: nat, tag: u32, b: Seq<u8>, depth: nat)
    ensures
        value_len(wt, tag, b, depth) matches Some(m) ==> 0 <= m <= b.len(),
    decreases b.len(), 1int,
{
    lemma_varint_bounds(b, 0);
    if wt == 3 && depth > 0 {
        lemma_group_bounds(tag, b, (depth - 1) as nat);
    }
}

proof fn lemma_group_bounds(tag: u32, b: Seq<u8>, depth: nat)
    ensures
        group_len(tag, b, depth) matches Some(m) ==> 1 <= m <= b.len(),
    decreases b.len(), 0int,
{
    lemma_key_bounds(b);
    if let Some((t, wt, n)) = key(b) {
        if wt != 4 {
            lemma_value_bounds(wt, t, b.skip(n), depth);
            if let Some(m) = value_len(wt, t, b.skip(n), depth) {
                lemma_group_bounds(tag, b.skip(n + m), depth);
            }
        }
    }
}

/// Reads the key at `pos`.
pub(crate) fn read_key(b: &[u8], pos: usize) -> (res: Option<(u32, u8, usize)>)
    requires
        pos <= b@.len(),
    ensures
        match res {
            Some((tag, wt, next)) => pos < next <= b@.len() && 1 <= tag <= MAX_TAG && wt <= 5
                && key(b@.skip(pos as int)) == Some((tag, wt as nat, next - pos)),
            None => key(b@.skip(pos as int)) is None,
        },
{
    match read_varint(b, pos) {
        Some((k, next)) => {
            if k <= 0xffff_ffff && k / 8 >= 1 && k % 8 <= 5 {
                Some(((k / 8) as u32, (k % 8) as u8, next))
            } else {
                None
            }
        },
        None => None,
    }
}

/// The position after the value of wire type `wt` at `pos`.
fn skip_value(b: &[u8], pos: usize, wt: u8, tag: u32, depth: u8) -> (res: Option<usize>)
    requires
        pos <= b@.len(),
    ensures
        match res {
            Some(next) => pos <= next <= b@.len() && value_len(
                wt as nat,
                tag,
                b@.skip(pos as int),
                depth as nat,
            ) == Some(next - pos),
            None => value_len(wt as nat, tag, b@.skip(pos as int), depth as nat) is None,
        },
    decreases depth, 0int,
{
    if wt == 0 {
        match read_varint(b, pos) {
            Some((_, next)) => Some(next),
            None => None,
        }
    } else if wt == 1 {
        if b.len() - pos >= 8 {
            Some(pos + 8)
        } else {
            None
        }
    } else if wt == 2 {
        match read_varint(b, pos) {
            Some((len, next)) => {
                if len <= (b.len() - next) as u64 {
                    Some(next + len as usize)
                } else {
                    None
                }
            },
            None => None,
        }
    } else if wt == 3 {
        if depth == 0 {
            None
        } else {
            skip_group(b, pos, tag, depth - 1)
        }
    } else if wt == 5 {
        if b.len() - pos >= 4 {
            Some(pos + 4)
        } else {
            None
        }
    } else {
        None
    }
}

/// The position after the rest of group `tag`.
fn skip_group(b: &[u8], pos: usize, tag: u32, depth: u8) -> (res: Option<usize>)
    requires
        pos <= b@.len(),
    ensures
        match res {
            Some(next) => pos <= next <= b@.len() && group_len(
                tag,
                b@.skip(pos as int),
                depth as nat,
            ) == Some(next - pos),
            None => group_len(tag, b@.skip(pos as int), depth as nat) is None,
        },
    decreases depth, 1int,
{
    let mut at: usize = pos;
    let ghost whole = group_len(tag, b@.skip(pos as int), depth as nat);
    loop
        invariant
            pos <= at <= b@.len(),
            whole == group_len(tag, b@.skip(pos as int), depth as nat),
            match group_len(tag, b@.skip(at as int), depth as nat) {
                Some(r) => whole == Some(at - pos + r),
                None => whole is None,
            },
        decreases b@.len() - at,
    {
        let ghost s = b@.skip(at as int);
        proof {
            lemma_key_bounds(s);
        }
        match read_key(b, at) {
            None => {
                return None;
            },
            Some((t, wt, next)) => {
                if wt == 4 {
                    if t == tag {
                        return Some(next);
                    }
                    return None;
                }
                assert(s.skip(next - at) =~= b@.skip(next as int));
                match skip_value(b, next, wt, t, depth) {
                    None => {
                        return None;
                    },
                    Some(after) => {
                        assert(s.skip(after - at) =~= b@.skip(after as int));
                        at = after;
                    },
                }
            },
        }
    }
}

/// A copy of `b[from..to]`.
pub fn byte_range(b: &[u8], from: usize, to: usize) -> (res: Vec<u8>)
    requires
        from <= to <= b@.len(),
    ensures
        res@ == b@.subrange(from as int, to as int),
{
    let s = vstd::slice::slice_subrange(b, from, to);
    copy_bytes(s)
}

/// The field at `pos` and the position after it.
fn read_field(b: &[u8], pos: usize, depth: u8) -> (res: Option<(RawField, usize)>)
    requires
        pos <= b@.len(),
    ensures
        match res {
            Some((f, next)) => pos < next <= b@.len() && parse_field(
                b@.skip(pos as int),
                depth as nat,
            ) == Some((f@, next - pos)),
            None => parse_field(b@.skip(pos as int), depth as nat) is None,
        },
{
    let ghost s = b@.skip(pos as int);
    match read_key(b, pos) {
        None => None,
        Some((tag, wt, at)) => {
            assert(s.skip(at - pos) =~= b@.skip(at as int));
            let ghost v = b@.skip(at as int);
            match skip_value(b, at, wt, tag, depth) {
                None => None,
                Some(next) => {
                    let value = if wt == 0 {
                        match read_varint(b, at) {
                            Some((x, _)) => RawValue::Varint(x),
                            None => RawValue::Varint(0),
                        }
                    } else if wt == 1 {
                        assert(b@.subrange(at as int, next as int) =~= v.take(8));
                        RawValue::Fixed64(byte_range(b, at, next))
                    } else if wt == 2 {
                        let from: usize = match read_varint(b, at) {
                            Some((_, from)) => from,
                            None => next,
                        };
                        assert(b@.subrange(from as int, next as int) =~= v.subrange(
                            from - at,
                            next - at,
                        ));
                        RawValue::Bytes(byte_range(b, from, next))
                    } else if wt == 3 {
                        assert(b@.subrange(at as int, next as int) =~= v.take(next - at));
                        RawValue::Group(byte_range(b, at, next))
                    } else {
                        assert(b@.subrange(at as int, next as int) =~= v.take(4));
                        RawValue::Fixed32(byte_range(b, at, next))
                    };
                    Some((RawField { tag, value }, next))
                },
            }
        },
    }
}

/// Reads a whole message as a list of fields.
pub fn read_fields(b: &[u8]) -> (res: Result<Vec<RawField>, Malformed>)
    ensures
        match res {
            Ok(v) => parse_fields(b@) == Some(fields(v@)),
            Err(_) => parse_fields(b@) is None,
        },
{
    read_nested(b, NESTING)
}

/// Reads a whole message as a list of fields, where `depth` levels are left.
pub fn read_nested(b: &[u8], depth: u8) -> (res: Result<Vec<RawField>, Malformed>)
    ensures
        match res {
            Ok(v) => parse_nested(b@, depth as nat) == Some(fields(v@)),
            Err(_) => parse_nested(b@, depth as nat) is None,
        },
{
    let mut out: Vec<RawField> = Vec::new();
    let mut pos: usize = 0;
    assert(b@.skip(0) =~= b@);
    assert(parse_nested(b@, depth as nat) matches Some(r) ==> fields(out@) + r =~= r);
    while pos < b.len()
        invariant
            pos <= b@.len(),
            match parse_nested(b@.skip(pos as int), depth as nat) {
                Some(r) => parse_nested(b@, depth as nat) == Some(fields(out@) + r),
                None => parse_nested(b@, depth as nat) is None,
            },
        decreases b@.len() - pos,
    {
        let ghost s = b@.skip(pos as int);
        match read_field(b, pos, depth) {
            None => {
                return Err(Malformed);
            },
            Some((f, next)) => {
                let ghost before = out@;
                out.push(f);
                assert(fields(out@) =~= fields(before).push(f@));
                assert(s.skip(next - pos) =~= b@.skip(next as int));
                proof {
                    if let Some(r) = parse_nested(b@.skip(next as int), depth as nat) {
                        assert(fields(out@) + r =~= fields(before) + (seq![f@] + r));
                    }
                }
                pos = next;
            },
        }
    }
    assert(fields(out@) + Seq::<Field>::empty() =~= fields(out@));
    Ok(out)
}

/// Whether a field can be written so that it reads back: a valid number, and
/// a value as long as its wire type says.
pub open spec fn plain(f: Field) -> bool {
    plain_in(f, NESTING as nat)
}

/// Whether a field reads back where `depth` levels are left.
pub open spec fn plain_in(f: Field, depth: nat) -> bool {
    &&& 1 <= f.tag <= MAX_TAG
    &&& match f.value {
        Value::Varint(_) => true,
        Value::Fixed64(b) => b.len() == 8,
        Value::Bytes(b) => b.len() <= u64::MAX,
        Value::Group(b) => depth > 0 && group_len(f.tag, b, (depth - 1) as nat) == Some(
            b.len() as int,
        ),
        Value::Fixed32(b) => b.len() == 4,
    }
}

// What is read depends on the bytes that it takes, and on no others.

pub proof fn lemma_varint_local(b: Seq<u8>, c: Seq<u8>, m: int, k: nat)
    requires
        0 <= m <= b.len(),
        m <= c.len(),
        b.take(m) == c.take(m),
        k <= 9,
        varint_from(b, k) matches Some((v, n)) && n <= m,
    ensures
        varint_from(c, k) == varint_from(b, k),
    decreases b.len(),
{
    lemma_varint_bounds(b, k);
    assert(b[0] == b.take(m)[0]);
    assert(c[0] == c.take(m)[0]);
    if k < 9 && b[0] >= 128 {
        assert(b.skip(1).take(m - 1) =~= b.take(m).skip(1));
        assert(c.skip(1).take(m - 1) =~= c.take(m).skip(1));
        lemma_varint_local(b.skip(1), c.skip(1), m - 1, k + 1);
    }
}

pub proof fn lemma_shared_tail(b: Seq<u8>, c: Seq<u8>, m: int, n: int)
    requires
        0 <= n <= m <= b.len(),
        m <= c.len(),
        b.take(m) == c.take(m),
    ensures
        b.skip(n).take(m - n) == c.skip(n).take(m - n),
{
    assert(b.skip(n).take(m - n) =~= b.take(m).skip(n));
    assert(c.skip(n).take(m - n) =~= c.take(m).skip(n));
}

pub proof fn lemma_key_local(b: Seq<u8>, c: Seq<u8>, m: int)
    requires
        0 <= m <= b.len(),
        m <= c.len(),
        b.take(m) == c.take(m),
        key(b) matches Some((t, wt, n)) && n <= m,
    ensures
        key(c) == key(b),
{
    lemma_varint_local(b, c, m, 0);
}

pub proof fn lemma_value_local(wt: nat, tag: u32, b: Seq<u8>, c: Seq<u8>, m: int, depth: nat)
    requires
        0 <= m <= b.len(),
        m <= c.len(),
        b.take(m) == c.take(m),
        value_len(wt, tag, b, depth) matches Some(n) && n <= m,
    ensures
        value_len(wt, tag, c, depth) == value_len(wt, tag, b, depth),
    decreases b.len(), 1int,
{
    if wt == 0 || wt == 2 {
        lemma_varint_bounds(b, 0);
        lemma_varint_local(b, c, m, 0);
    } else if wt == 3 {
        lemma_group_local(tag, b, c, m, (depth - 1) as nat);
    }
}

proof fn lemma_group_local(tag: u32, b: Seq<u8>, c: Seq<u8>, m: int, depth: nat)
    requires
        0 <= m <= b.len(),
        m <= c.len(),
        b.take(m) == c.take(m),
        group_len(tag, b, depth) matches Some(n) && n <= m,
    ensures
        group_len(tag, c, depth) == group_len(tag, b, depth),
    decreases b.len(), 0int,
{
    lemma_key_bounds(b);
    let (t, wt, n) = key(b)->0;
    if wt == 4 {
        lemma_key_local(b, c, m);
    } else {
        let v = value_len(wt, t, b.skip(n), depth)->0;
        lemma_value_bounds(wt, t, b.skip(n), depth);
        let r = group_len(tag, b.skip(n + v), depth)->0;
        lemma_group_bounds(tag, b.skip(n + v), depth);
        lemma_key_local(b, c, m);
        lemma_shared_tail(b, c, m, n);
        lemma_value_local(wt, t, b.skip(n), c.skip(n), m - n, depth);
        lemma_shared_tail(b, c, m, n + v);
        lemma_group_local(tag, b.skip(n + v), c.skip(n + v), m - n - v, depth);
    }
}

/// A field that was read can be written so that it reads back.
proof fn lemma_read_field_plain(b: Seq<u8>)
    requires
        b.len() <= u64::MAX,
    ensures
        parse_field(b, NESTING as nat) matches Some((f, n)) ==> plain(f) && 0 < n <= b.len(),
{
    if let Some((tag, wt, n)) = key(b) {
        lemma_key_bounds(b);
        let v = b.skip(n);
        lemma_value_bounds(wt, tag, v, NESTING as nat);
        lemma_varint_bounds(v, 0);
        if let Some(m) = value_len(wt, tag, v, NESTING as nat) {
            if wt == 3 {
                assert(v.take(m).take(m) =~= v.take(m));
                lemma_group_local(tag, v, v.take(m), m, (NESTING - 1) as nat);
            }
        }
    }
}

/// Fields that were read can be written so that they read back: reading and
/// writing a message keeps every field of it, known or not.
pub proof fn law_read_fields_keep(b: Seq<u8>)
    requires
        b.len() <= u64::MAX,
    ensures
        parse_fields(b) matches Some(fs) ==> {
            &&& forall|i: int| 0 <= i < fs.len() ==> plain(#[trigger] fs[i])
            &&& parse_fields(fields_bytes(fs)) == Some(fs)
        },
    decreases b.len(),
{
    if let Some(fs) = parse_fields(b) {
        if b.len() > 0 {
            lemma_read_field_plain(b);
            let (f, n) = parse_field(b, NESTING as nat)->0;
            law_read_fields_keep(b.skip(n));
            let rest = parse_fields(b.skip(n))->0;
            assert forall|i: int| 0 <= i < fs.len() implies plain(#[trigger] fs[i]) by {
                if i > 0 {
                    assert(fs[i] == rest[i - 1]);
                }
            }
        }
        law_fields_round_trip(fs);
    }
}

proof fn lemma_parse_field_bytes(f: Field, rest: Seq<u8>, depth: nat)
    requires
        plain_in(f, depth),
    ensures
        parse_field(field_bytes(f) + rest, depth) == Some((f, field_bytes(f).len() as int)),
        field_bytes(f).len() > 0,
{
    let k = (f.tag * 8 + wire_type(f.value)) as nat;
    let kb = varint_bytes(k);
    let vb = value_bytes(f.value);
    let b = field_bytes(f) + rest;
    assert(b =~= kb + (vb + rest));
    law_varint_round_trip(k, vb + rest);
    assert(b.skip(kb.len() as int) =~= vb + rest);
    assert(key(b) == Some((f.tag, wire_type(f.value), kb.len() as int)));
    let t = vb + rest;
    match f.value {
        Value::Varint(x) => {
            law_varint_round_trip(x as nat, rest);
        },
        Value::Bytes(x) => {
            let lb = varint_bytes(x.len());
            law_varint_round_trip(x.len(), x + rest);
            assert(t =~= lb + (x + rest));
            assert(t.subrange(lb.len() as int, (lb.len() + x.len()) as int) =~= x);
        },
        Value::Fixed64(x) => {
            assert(t.take(8) =~= x);
        },
        Value::Fixed32(x) => {
            assert(t.take(4) =~= x);
        },
        Value::Group(x) => {
            assert(x.take(x.len() as int) =~= x);
            assert(t.take(x.len() as int) =~= x);
            lemma_group_local(f.tag, x, t, x.len() as int, (depth - 1) as nat);
        },
    }
}

proof fn lemma_fields_bytes_cons(f: Field, rest: Seq<Field>)
    ensures
        fields_bytes(seq![f] + rest) == field_bytes(f) + fields_bytes(rest),
    decreases rest.len(),
{
    let all = seq![f] + rest;
    if rest.len() == 0 {
        assert(all.drop_last() =~= Seq::<Field>::empty());
        assert(all.last() == f);
        assert(fields_bytes(Seq::<Field>::empty()) =~= Seq::<u8>::empty());
        assert(fields_bytes(all) =~= field_bytes(f) + fields_bytes(rest));
    } else {
        lemma_fields_bytes_cons(f, rest.drop_last());
        assert(all.drop_last() =~= seq![f] + rest.drop_last());
        assert(all.last() == rest.last());
        assert(fields_bytes(all) =~= field_bytes(f) + fields_bytes(rest));
    }
}

/// Reading a message gives back the fields that were written.
pub proof fn law_fields_round_trip(fs: Seq<Field>)
    requires
        forall|i: int| 0 <= i < fs.len() ==> plain(#[trigger] fs[i]),
    ensures
        parse_fields(fields_bytes(fs)) == Some(fs),
{
    assert forall|i: int| 0 <= i < fs.len() implies plain_in(
        #[trigger] fs[i],
        NESTING as nat,
    ) by {
        assert(plain(fs[i]));
    }
    law_nested_round_trip(fs, NESTING as nat);
}

/// Reading a message inside another gives back the fields that were written.
pub proof fn law_nested_round_trip(fs: Seq<Field>, depth: nat)
    requires
        forall|i: int| 0 <= i < fs.len() ==> plain_in(#[trigger] fs[i], depth),
    ensures
        parse_nested(fields_bytes(fs), depth) == Some(fs),
    decreases fs.len(),
{
    if fs.len() == 0 {
        assert(fs =~= Seq::<Field>::empty());
    } else {
        let f = fs[0];
        let rest = fs.skip(1);
        assert(fs =~= seq![f] + rest);
        lemma_fields_bytes_cons(f, rest);
        lemma_parse_field_bytes(f, fields_bytes(rest), depth);
        assert forall|i: int| 0 <= i < rest.len() implies plain_in(#[trigger] rest[i], depth) by {
            assert(rest[i] == fs[i + 1]);
        }
        law_nested_round_trip(rest, depth);
        let b = field_bytes(f) + fields_bytes(rest);
        assert(b.skip(field_bytes(f).len() as int) =~= fields_bytes(rest));
    }
}

// ---------------------------------------------------------------------------
// Typed values
// ---------------------------------------------------------------------------

/// The 32-bit number that an integer field holds: its low 32 bits, signed.
pub open spec fn low_i32(x: u64) -> i32 {
    let m = x as int % 0x1_0000_0000;
    if m < 0x8000_0000 {
        m as i32
    } else {
        (m - 0x1_0000_0000) as i32
    }
}

/// The 64-bit number that an integer field holds.
pub open spec fn as_signed(x: u64) -> i64 {
    if x < 0x8000_0000_0000_0000 {
        x as i64
    } else {
        (x - 0x1_0000_0000_0000_0000) as i64
    }
}

/// A signed number as an integer field holds it: sign-extended to 64 bits.
pub open spec fn as_unsigned(x: int) -> u64 {
    if x >= 0 {
        x as u64
    } else {
        (x + 0x1_0000_0000_0000_0000) as u64
    }
}

pub open spec fn as_bytes(v: Value) -> Option<Seq<u8>> {
    match v {
        Value::Bytes(b) => Some(b),
        _ => None,
    }
}

pub open spec fn as_text(v: Value) -> Option<Seq<char>> {
    match v {
        Value::Bytes(b) => if valid_utf8(b) {
            Some(decode_utf8(b))
        } else {
            None
        },
        _ => None,
    }
}

pub open spec fn as_i32(v: Value) -> Option<i32> {
    match v {
        Value::Varint(x) => Some(low_i32(x)),
        _ => None,
    }
}

pub open spec fn as_i64(v: Value) -> Option<i64> {
    match v {
        Value::Varint(x) => Some(as_signed(x)),
        _ => None,
    }
}

pub open spec fn as_bool(v: Value) -> Option<bool> {
    match v {
        Value::Varint(x) => Some(x != 0),
        _ => None,
    }
}

pub open spec fn bytes_kind() -> spec_fn(Value) -> Option<Seq<u8>> {
    |v: Value| as_bytes(v)
}

pub open spec fn text_kind() -> spec_fn(Value) -> Option<Seq<char>> {
    |v: Value| as_text(v)
}

pub open spec fn i32_kind() -> spec_fn(Value) -> Option<i32> {
    |v: Value| as_i32(v)
}

pub open spec fn i64_kind() -> spec_fn(Value) -> Option<i64> {
    |v: Value| as_i64(v)
}

pub open spec fn bool_kind() -> spec_fn(Value) -> Option<bool> {
    |v: Value| as_bool(v)
}

/// The values of a repeated field; `None` when one is not of its type.
pub open spec fn all_of<T>(fs: Seq<Field>, tag: u32, kind: spec_fn(Value) -> Option<T>) -> Option<
    Seq<T>,
>
    decreases fs.len(),
{
    if fs.len() == 0 {
        Some(Seq::empty())
    } else {
        match all_of(fs.drop_last(), tag, kind) {
            None => None,
            Some(before) => if fs.last().tag != tag {
                Some(before)
            } else {
                match kind(fs.last().value) {
                    None => None,
                    Some(v) => Some(before.push(v)),
                }
            },
        }
    }
}

/// The value of an optional field: that of its last occurrence. The outer
/// `None` says that an occurrence is not of the field's type.
#[verifier::opaque]
pub open spec fn last_of<T>(fs: Seq<Field>, tag: u32, kind: spec_fn(Value) -> Option<T>) -> Option<
    Option<T>,
> {
    match all_of(fs, tag, kind) {
        None => None,
        Some(vs) => if vs.len() == 0 {
            Some(None)
        } else {
            Some(Some(vs.last()))
        },
    }
}

pub proof fn lemma_all_of_prefix<T>(
    fs: Seq<Field>,
    tag: u32,
    kind: spec_fn(Value) -> Option<T>,
    i: int,
)
    requires
        0 <= i <= fs.len(),
        all_of(fs.take(i), tag, kind) is None,
    ensures
        all_of(fs, tag, kind) is None,
    decreases fs.len() - i,
{
    if i == fs.len() {
        assert(fs.take(i) =~= fs);
    } else {
        assert(fs.take(i + 1).drop_last() =~= fs.take(i));
        lemma_all_of_prefix(fs, tag, kind, i + 1);
    }
}

pub broadcast proof fn lemma_all_of_concat<T>(
    a: Seq<Field>,
    b: Seq<Field>,
    tag: u32,
    kind: spec_fn(Value) -> Option<T>,
)
    ensures
        #[trigger] all_of(a + b, tag, kind) == match (all_of(a, tag, kind), all_of(b, tag, kind)) {
            (Some(x), Some(y)) => Some(x + y),
            _ => None,
        },
    decreases b.len(),
{
    if b.len() == 0 {
        assert(a + b =~= a);
        if let Some(x) = all_of(a, tag, kind) {
            assert(x + Seq::<T>::empty() =~= x);
        }
    } else {
        assert((a + b).drop_last() =~= a + b.drop_last());
        assert((a + b).last() == b.last());
        lemma_all_of_concat(a, b.drop_last(), tag, kind);
        if let (Some(x), Some(y)) = (all_of(a, tag, kind), all_of(b.drop_last(), tag, kind)) {
            if b.last().tag == tag {
                if let Some(v) = kind(b.last().value) {
                    assert((x + y).push(v) =~= x + y.push(v));
                }
            }
        }
    }
}

/// The fields that are not numbered `tag`.
pub open spec fn others(fs: Seq<Field>, tag: u32) -> Seq<Field>
    decreases fs.len(),
{
    if fs.len() == 0 {
        Seq::empty()
    } else if fs.last().tag == tag {
        others(fs.drop_last(), tag)
    } else {
        others(fs.drop_last(), tag).push(fs.last())
    }
}

/// Leaving out the fields of one number leaves those of another.
pub proof fn lemma_others<T>(
    fs: Seq<Field>,
    tag: u32,
    other: u32,
    kind: spec_fn(Value) -> Option<T>,
)
    ensures
        other != tag ==> all_of(others(fs, tag), other, kind) == all_of(fs, other, kind),
        all_of(others(fs, tag), tag, kind) == Some(Seq::<T>::empty()),
        forall|i: int| 0 <= i < others(fs, tag).len() ==> fs.contains(#[trigger] others(fs, tag)[i]),
    decreases fs.len(),
{
    if fs.len() > 0 {
        let front = fs.drop_last();
        lemma_others(front, tag, other, kind);
        let o = others(front, tag);
        if fs.last().tag != tag {
            assert(o.push(fs.last()).drop_last() =~= o);
        }
        assert forall|i: int| 0 <= i < others(fs, tag).len() implies fs.contains(
            #[trigger] others(fs, tag)[i],
        ) by {
            if i < o.len() {
                assert(front.contains(o[i]));
                let j = choose|j: int| 0 <= j < front.len() && front[j] == o[i];
                assert(fs[j] == o[i]);
            } else {
                assert(fs[fs.len() - 1] == fs.last());
            }
        }
    }
}

/// A field list of other numbers holds nothing for `tag`.
pub proof fn lemma_all_of_none<T>(fs: Seq<Field>, tag: u32, kind: spec_fn(Value) -> Option<T>)
    requires
        forall|i: int| 0 <= i < fs.len() ==> (#[trigger] fs[i]).tag != tag,
    ensures
        all_of(fs, tag, kind) == Some(Seq::<T>::empty()),
    decreases fs.len(),
{
    if fs.len() > 0 {
        lemma_all_of_none(fs.drop_last(), tag, kind);
    }
}

fn field_text(v: &RawValue) -> (res: Option<String>)
    ensures
        opt_text(res) == as_text(v@),
{
    match v {
        RawValue::Bytes(b) => string_from_utf8(copy_bytes(b.as_slice())),
        _ => None,
    }
}

fn field_bytes_value(v: &RawValue) -> (res: Option<Vec<u8>>)
    ensures
        match res {
            Some(b) => as_bytes(v@) == Some(b@),
            None => as_bytes(v@) is None,
        },
{
    match v {
        RawValue::Bytes(b) => Some(copy_bytes(b.as_slice())),
        _ => None,
    }
}

/// The texts of a repeated field.
pub fn get_texts(fs: &Vec<RawField>, tag: u32) -> (res: Result<Vec<String>, Malformed>)
    ensures
        match res {
            Ok(v) => all_of(fields(fs@), tag, text_kind()) == Some(texts(v@)),
            Err(_) => all_of(fields(fs@), tag, text_kind()) is None,
        },
{
    let mut out: Vec<String> = Vec::new();
    let mut i: usize = 0;
    let ghost all = fields(fs@);
    assert(all.take(0) =~= Seq::<Field>::empty());
    assert(texts(out@) =~= Seq::<Seq<char>>::empty());
    while i < fs.len()
        invariant
            i <= fs.len(),
            all == fields(fs@),
            all_of(all.take(i as int), tag, text_kind()) == Some(texts(out@)),
        decreases fs.len() - i,
    {
        assert(all.take(i + 1).drop_last() =~= all.take(i as int));
        assert(all.take(i + 1).last() == fs@[i as int]@);
        if fs[i].tag == tag {
            match field_text(&fs[i].value) {
                None => {
                    proof {
                        lemma_all_of_prefix(all, tag, text_kind(), i + 1);
                    }
                    return Err(Malformed);
                },
                Some(t) => {
                    let ghost before = out@;
                    out.push(t);
                    assert(texts(out@) =~= texts(before).push(t@));
                },
            }
        }
        i += 1;
    }
    assert(all.take(fs@.len() as int) =~= all);
    Ok(out)
}

/// The byte strings held by a sequence of vectors.
pub open spec fn blobs(v: Seq<Vec<u8>>) -> Seq<Seq<u8>> {
    v.map_values(|x: Vec<u8>| x@)
}

/// The byte strings of a repeated field.
pub fn get_blobs(fs: &Vec<RawField>, tag: u32) -> (res: Result<Vec<Vec<u8>>, Malformed>)
    ensures
        match res {
            Ok(v) => all_of(fields(fs@), tag, bytes_kind()) == Some(blobs(v@)),
            Err(_) => all_of(fields(fs@), tag, bytes_kind()) is None,
        },
{
    let mut out: Vec<Vec<u8>> = Vec::new();
    let mut i: usize = 0;
    let ghost all = fields(fs@);
    assert(all.take(0) =~= Seq::<Field>::empty());
    assert(blobs(out@) =~= Seq::<Seq<u8>>::empty());
    while i < fs.len()
        invariant
            i <= fs.len(),
            all == fields(fs@),
            all_of(all.take(i as int), tag, bytes_kind()) == Some(blobs(out@)),
        decreases fs.len() - i,
    {
        assert(all.take(i + 1).drop_last() =~= all.take(i as int));
        assert(all.take(i + 1).last() == fs@[i as int]@);
        if fs[i].tag == tag {
            match field_bytes_value(&fs[i].value) {
                None => {
                    proof {
                        lemma_all_of_prefix(all, tag, bytes_kind(), i + 1);
                    }
                    return Err(Malformed);
                },
                Some(t) => {
                    let ghost before = out@;
                    out.push(t);
                    assert(blobs(out@) =~= blobs(before).push(t@));
                },
            }
        }
        i += 1;
    }
    assert(all.take(fs@.len() as int) =~= all);
    Ok(out)
}

/// The integers of a repeated field, as they stand on the wire.
pub open spec fn as_varint(v: Value) -> Option<u64> {
    match v {
        Value::Varint(x) => Some(x),
        _ => None,
    }
}

pub open spec fn varint_kind() -> spec_fn(Value) -> Option<u64> {
    |v: Value| as_varint(v)
}

/// The last integer of a field.
fn get_varint(fs: &Vec<RawField>, tag: u32) -> (res: Result<Option<u64>, Malformed>)
    ensures
        match res {
            Ok(v) => last_of(fields(fs@), tag, varint_kind()) == Some(v),
            Err(_) => last_of(fields(fs@), tag, varint_kind()) is None,
        },
{
    reveal(last_of);
    let mut out: Option<u64> = None;
    let mut i: usize = 0;
    let ghost all = fields(fs@);
    assert(all.take(0) =~= Seq::<Field>::empty());
    while i < fs.len()
        invariant
            i <= fs.len(),
            all == fields(fs@),
            last_of(all.take(i as int), tag, varint_kind()) == Some(out),
        decreases fs.len() - i,
    {
        reveal(last_of);
        assert(all.take(i + 1).drop_last() =~= all.take(i as int));
        assert(all.take(i + 1).last() == fs@[i as int]@);
        if fs[i].tag == tag {
            match &fs[i].value {
                RawValue::Varint(x) => {
                    out = Some(*x);
                },
                _ => {
                    proof {
                        lemma_all_of_prefix(all, tag, varint_kind(), i + 1);
                    }
                    return Err(Malformed);
                },
            }
        }
        i += 1;
    }
    assert(all.take(fs@.len() as int) =~= all);
    Ok(out)
}

/// An integer type reads each wire integer as one value of its own.
proof fn lemma_varint_as<T>(fs: Seq<Field>, tag: u32, kind: spec_fn(Value) -> Option<T>, f: spec_fn(
    u64,
) -> T)
    requires
        forall|v: Value| #[trigger]
            kind(v) == match v {
                Value::Varint(x) => Some(f(x)),
                _ => None,
            },
    ensures
        match all_of(fs, tag, varint_kind()) {
            Some(s) => all_of(fs, tag, kind) == Some(s.map_values(f)),
            None => all_of(fs, tag, kind) is None,
        },
    decreases fs.len(),
{
    if fs.len() == 0 {
        assert(Seq::<u64>::empty().map_values(f) =~= Seq::<T>::empty());
    } else {
        lemma_varint_as(fs.drop_last(), tag, kind, f);
        assert(kind(fs.last().value) == kind(fs.last().value));
        if let Some(s) = all_of(fs.drop_last(), tag, varint_kind()) {
            if let Value::Varint(x) = fs.last().value {
                assert(s.push(x).map_values(f) =~= s.map_values(f).push(f(x)));
            }
        }
    }
}

/// The number that the low half of `x` stands for.
pub(crate) fn to_i32(x: u64) -> (res: i32)
    ensures
        res == low_i32(x),
{
    let m: u64 = x % 0x1_0000_0000;
    if m < 0x8000_0000 {
        m as i32
    } else {
        (m as i64 - 0x1_0000_0000) as i32
    }
}

fn to_i64(x: u64) -> (res: i64)
    ensures
        res == as_signed(x),
{
    if x < 0x8000_0000_0000_0000 {
        x as i64
    } else {
        (x as i128 - 0x1_0000_0000_0000_0000) as i64
    }
}

fn to_u64(x: i64) -> (res: u64)
    ensures
        res == as_unsigned(x as int),
{
    if x >= 0 {
        x as u64
    } else {
        (x as i128 + 0x1_0000_0000_0000_0000) as u64
    }
}

/// The value of an optional `int32` field.
pub fn get_i32(fs: &Vec<RawField>, tag: u32) -> (res: Result<Option<i32>, Malformed>)
    ensures
        match res {
            Ok(v) => last_of(fields(fs@), tag, i32_kind()) == Some(v),
            Err(_) => last_of(fields(fs@), tag, i32_kind()) is None,
        },
{
    reveal(last_of);
    proof {
        lemma_varint_as(fields(fs@), tag, i32_kind(), |x: u64| low_i32(x));
    }
    match get_varint(fs, tag) {
        Err(e) => Err(e),
        Ok(None) => Ok(None),
        Ok(Some(x)) => Ok(Some(to_i32(x))),
    }
}

/// The value of an optional `int64` field.
pub fn get_i64(fs: &Vec<RawField>, tag: u32) -> (res: Result<Option<i64>, Malformed>)
    ensures
        match res {
            Ok(v) => last_of(fields(fs@), tag, i64_kind()) == Some(v),
            Err(_) => last_of(fields(fs@), tag, i64_kind()) is None,
        },
{
    reveal(last_of);
    proof {
        lemma_varint_as(fields(fs@), tag, i64_kind(), |x: u64| as_signed(x));
    }
    match get_varint(fs, tag) {
        Err(e) => Err(e),
        Ok(None) => Ok(None),
        Ok(Some(x)) => Ok(Some(to_i64(x))),
    }
}

/// The value of an optional `bool` field.
pub fn get_bool(fs: &Vec<RawField>, tag: u32) -> (res: Result<Option<bool>, Malformed>)
    ensures
        match res {
            Ok(v) => last_of(fields(fs@), tag, bool_kind()) == Some(v),
            Err(_) => last_of(fields(fs@), tag, bool_kind()) is None,
        },
{
    reveal(last_of);
    proof {
        lemma_varint_as(fields(fs@), tag, bool_kind(), |x: u64| x != 0);
    }
    match get_varint(fs, tag) {
        Err(e) => Err(e),
        Ok(None) => Ok(None),
        Ok(Some(x)) => Ok(Some(x != 0)),
    }
}

/// The value of an optional `string` field.
pub fn get_text(fs: &Vec<RawField>, tag: u32) -> (res: Result<Option<String>, Malformed>)
    ensures
        match res {
            Ok(v) => last_of(fields(fs@), tag, text_kind()) == Some(opt_text(v)),
            Err(_) => last_of(fields(fs@), tag, text_kind()) is None,
        },
{
    reveal(last_of);
    match get_texts(fs, tag) {
        Err(e) => Err(e),
        Ok(v) => {
            let mut v = v;
            Ok(v.pop())
        },
    }
}

/// The bytes of an optional byte string.
pub open spec fn opt_blob(v: Option<Vec<u8>>) -> Option<Seq<u8>> {
    match v {
        Some(b) => Some(b@),
        None => None,
    }
}

/// The value of an optional `bytes` field.
pub fn get_bytes(fs: &Vec<RawField>, tag: u32) -> (res: Result<Option<Vec<u8>>, Malformed>)
    ensures
        match res {
            Ok(v) => last_of(fields(fs@), tag, bytes_kind()) == Some(opt_blob(v)),
            Err(_) => last_of(fields(fs@), tag, bytes_kind()) is None,
        },
{
    reveal(last_of);
    match get_blobs(fs, tag) {
        Err(e) => Err(e),
        Ok(v) => {
            let mut v = v;
            Ok(v.pop())
        },
    }
}

// ---------------------------------------------------------------------------
// Writing fields
// ---------------------------------------------------------------------------

/// The fields of an optional value: one when it is present, none otherwise.
pub open spec fn text_field(tag: u32, v: Option<Seq<char>>) -> Seq<Field> {
    match v {
        Some(x) => seq![Field { tag, value: Value::Bytes(encode_utf8(x)) }],
        None => Seq::empty(),
    }
}

pub broadcast proof fn lemma_text_field_other<T>(
    own: u32,
    v: Option<Seq<char>>,
    tag: u32,
    kind: spec_fn(Value) -> Option<T>,
)
    requires
        own != tag,
    ensures
        #[trigger] all_of(text_field(own, v), tag, kind) == Some(Seq::<T>::empty()),
{
    lemma_all_of_none(text_field(own, v), tag, kind);
}

pub broadcast proof fn lemma_text_field_own(tag: u32, v: Option<Seq<char>>)
    ensures
        #[trigger] all_of(text_field(tag, v), tag, text_kind()) == Some(
            match v {
                Some(x) => seq![x],
                None => Seq::empty(),
            },
        ),
{
    broadcast use group_utf8_lib;

    let fs = text_field(tag, v);
    reveal_with_fuel(all_of, 2);
    if let Some(x) = v {
        assert(fs.drop_last() =~= Seq::<Field>::empty());
        assert(text_kind()(fs.last().value) == Some(x));
        assert(all_of(fs, tag, text_kind()) == Some(Seq::empty().push(x)));
        assert(Seq::empty().push(x) =~= seq![x]);
    }
}

/// The fields of an optional value: one when it is present, none otherwise.
pub open spec fn bytes_field(tag: u32, v: Option<Seq<u8>>) -> Seq<Field> {
    match v {
        Some(x) => seq![Field { tag, value: Value::Bytes(x) }],
        None => Seq::empty(),
    }
}

pub broadcast proof fn lemma_bytes_field_other<T>(
    own: u32,
    v: Option<Seq<u8>>,
    tag: u32,
    kind: spec_fn(Value) -> Option<T>,
)
    requires
        own != tag,
    ensures
        #[trigger] all_of(bytes_field(own, v), tag, kind) == Some(Seq::<T>::empty()),
{
    lemma_all_of_none(bytes_field(own, v), tag, kind);
}

pub broadcast proof fn lemma_bytes_field_own(tag: u32, v: Option<Seq<u8>>)
    ensures
        #[trigger] all_of(bytes_field(tag, v), tag, bytes_kind()) == Some(
            match v {
                Some(x) => seq![x],
                None => Seq::empty(),
            },
        ),
{
    broadcast use group_utf8_lib;

    let fs = bytes_field(tag, v);
    reveal_with_fuel(all_of, 2);
    if let Some(x) = v {
        assert(fs.drop_last() =~= Seq::<Field>::empty());
        assert(bytes_kind()(fs.last().value) == Some(x));
        assert(all_of(fs, tag, bytes_kind()) == Some(Seq::empty().push(x)));
        assert(Seq::empty().push(x) =~= seq![x]);
    }
}

/// The fields of an optional value: one when it is present, none otherwise.
pub open spec fn i32_field(tag: u32, v: Option<i32>) -> Seq<Field> {
    match v {
        Some(x) => seq![Field { tag, value: Value::Varint(as_unsigned(x as int)) }],
        None => Seq::empty(),
    }
}

pub broadcast proof fn lemma_i32_field_other<T>(
    own: u32,
    v: Option<i32>,
    tag: u32,
    kind: spec_fn(Value) -> Option<T>,
)
    requires
        own != tag,
    ensures
        #[trigger] all_of(i32_field(own, v), tag, kind) == Some(Seq::<T>::empty()),
{
    lemma_all_of_none(i32_field(own, v), tag, kind);
}

pub broadcast proof fn lemma_i32_field_own(tag: u32, v: Option<i32>)
    ensures
        #[trigger] all_of(i32_field(tag, v), tag, i32_kind()) == Some(
            match v {
                Some(x) => seq![x],
                None => Seq::empty(),
            },
        ),
{
    broadcast use group_utf8_lib;

    let fs = i32_field(tag, v);
    reveal_with_fuel(all_of, 2);
    if let Some(x) = v {
        assert(fs.drop_last() =~= Seq::<Field>::empty());
        assert(i32_kind()(fs.last().value) == Some(x));
        assert(all_of(fs, tag, i32_kind()) == Some(Seq::empty().push(x)));
        assert(Seq::empty().push(x) =~= seq![x]);
    }
}

/// The fields of an optional value: one when it is present, none otherwise.
pub open spec fn i64_field(tag: u32, v: Option<i64>) -> Seq<Field> {
    match v {
        Some(x) => seq![Field { tag, value: Value::Varint(as_unsigned(x as int)) }],
        None => Seq::empty(),
    }
}

pub broadcast proof fn lemma_i64_field_other<T>(
    own: u32,
    v: Option<i64>,
    tag: u32,
    kind: spec_fn(Value) -> Option<T>,
)
    requires
        own != tag,
    ensures
        #[trigger] all_of(i64_field(own, v), tag, kind) == Some(Seq::<T>::empty()),
{
    lemma_all_of_none(i64_field(own, v), tag, kind);
}

pub broadcast proof fn lemma_i64_field_own(tag: u32, v: Option<i64>)
    ensures
        #[trigger] all_of(i64_field(tag, v), tag, i64_kind()) == Some(
            match v {
                Some(x) => seq![x],
                None => Seq::empty(),
            },
        ),
{
    broadcast use group_utf8_lib;

    let fs = i64_field(tag, v);
    reveal_with_fuel(all_of, 2);
    if let Some(x) = v {
        assert(fs.drop_last() =~= Seq::<Field>::empty());
        assert(i64_kind()(fs.last().value) == Some(x));
        assert(all_of(fs, tag, i64_kind()) == Some(Seq::empty().push(x)));
        assert(Seq::empty().push(x) =~= seq![x]);
    }
}

/// The fields of an optional value: one when it is present, none otherwise.
pub open spec fn bool_field(tag: u32, v: Option<bool>) -> Seq<Field> {
    match v {
        Some(x) => seq![Field { tag, value: Value::Varint(if x {
            1
        } else {
            0
        }) }],
        None => Seq::empty(),
    }
}

pub broadcast proof fn lemma_bool_field_other<T>(
    own: u32,
    v: Option<bool>,
    tag: u32,
    kind: spec_fn(Value) -> Option<T>,
)
    requires
        own != tag,
    ensures
        #[trigger] all_of(bool_field(own, v), tag, kind) == Some(Seq::<T>::empty()),
{
    lemma_all_of_none(bool_field(own, v), tag, kind);
}

pub broadcast proof fn lemma_bool_field_own(tag: u32, v: Option<bool>)
    ensures
        #[trigger] all_of(bool_field(tag, v), tag, bool_kind()) == Some(
            match v {
                Some(x) => seq![x],
                None => Seq::empty(),
            },
        ),
{
    broadcast use group_utf8_lib;

    let fs = bool_field(tag, v);
    reveal_with_fuel(all_of, 2);
    if let Some(x) = v {
        assert(fs.drop_last() =~= Seq::<Field>::empty());
        assert(bool_kind()(fs.last().value) == Some(x));
        assert(all_of(fs, tag, bool_kind()) == Some(Seq::empty().push(x)));
        assert(Seq::empty().push(x) =~= seq![x]);
    }
}

/// The fields of a repeated value, one for each element.
pub open spec fn texts_field(tag: u32, v: Seq<Seq<char>>) -> Seq<Field> {
    v.map_values(|x: Seq<char>| Field { tag, value: Value::Bytes(encode_utf8(x)) })
}

pub broadcast proof fn lemma_texts_field_other<T>(
    own: u32,
    v: Seq<Seq<char>>,
    tag: u32,
    kind: spec_fn(Value) -> Option<T>,
)
    requires
        own != tag,
    ensures
        #[trigger] all_of(texts_field(own, v), tag, kind) == Some(Seq::<T>::empty()),
{
    lemma_all_of_none(texts_field(own, v), tag, kind);
}

pub broadcast proof fn lemma_texts_field_own(tag: u32, v: Seq<Seq<char>>)
    ensures
        #[trigger] all_of(texts_field(tag, v), tag, text_kind()) == Some(v),
    decreases v.len(),
{
    broadcast use group_utf8_lib;

    let fs = texts_field(tag, v);
    if v.len() == 0 {
        assert(v =~= Seq::<Seq<char>>::empty());
    } else {
        lemma_texts_field_own(tag, v.drop_last());
        assert(fs.drop_last() =~= texts_field(tag, v.drop_last()));
        assert(text_kind()(fs.last().value) == Some(v.last()));
        assert(v.drop_last().push(v.last()) =~= v);
    }
}

/// The fields of a repeated value, one for each element.
pub open spec fn blobs_field(tag: u32, v: Seq<Seq<u8>>) -> Seq<Field> {
    v.map_values(|x: Seq<u8>| Field { tag, value: Value::Bytes(x) })
}

pub broadcast proof fn lemma_blobs_field_other<T>(
    own: u32,
    v: Seq<Seq<u8>>,
    tag: u32,
    kind: spec_fn(Value) -> Option<T>,
)
    requires
        own != tag,
    ensures
        #[trigger] all_of(blobs_field(own, v), tag, kind) == Some(Seq::<T>::empty()),
{
    lemma_all_of_none(blobs_field(own, v), tag, kind);
}

pub broadcast proof fn lemma_blobs_field_own(tag: u32, v: Seq<Seq<u8>>)
    ensures
        #[trigger] all_of(blobs_field(tag, v), tag, bytes_kind()) == Some(v),
    decreases v.len(),
{
    broadcast use group_utf8_lib;

    let fs = blobs_field(tag, v);
    if v.len() == 0 {
        assert(v =~= Seq::<Seq<u8>>::empty());
    } else {
        lemma_blobs_field_own(tag, v.drop_last());
        assert(fs.drop_last() =~= blobs_field(tag, v.drop_last()));
        assert(bytes_kind()(fs.last().value) == Some(v.last()));
        assert(v.drop_last().push(v.last()) =~= v);
    }
}


/// In a concatenation, the later occurrence of a field counts.
pub broadcast proof fn lemma_last_of_concat<T>(
    a: Seq<Field>,
    b: Seq<Field>,
    tag: u32,
    kind: spec_fn(Value) -> Option<T>,
)
    ensures
        #[trigger] last_of(a + b, tag, kind) == match (
            last_of(a, tag, kind),
            last_of(b, tag, kind),
        ) {
            (Some(x), Some(y)) => Some(
                if y is Some {
                    y
                } else {
                    x
                },
            ),
            _ => None,
        },
{
    reveal(last_of);
    lemma_all_of_concat(a, b, tag, kind);
    if let (Some(x), Some(y)) = (all_of(a, tag, kind), all_of(b, tag, kind)) {
        if y.len() > 0 {
            assert((x + y).last() == y.last());
        } else {
            assert(x + y =~= x);
        }
    }
}

pub broadcast proof fn lemma_text_last_other<T>(
    own: u32,
    v: Option<Seq<char>>,
    tag: u32,
    kind: spec_fn(Value) -> Option<T>,
)
    requires
        own != tag,
    ensures
        #[trigger] last_of(text_field(own, v), tag, kind) == Some(None::<T>),
{
    reveal(last_of);
    lemma_text_field_other(own, v, tag, kind);
}

pub broadcast proof fn lemma_text_last_own(tag: u32, v: Option<Seq<char>>)
    ensures
        #[trigger] last_of(text_field(tag, v), tag, text_kind()) == Some(v),
{
    reveal(last_of);
    lemma_text_field_own(tag, v);
}

pub broadcast proof fn lemma_bytes_last_other<T>(
    own: u32,
    v: Option<Seq<u8>>,
    tag: u32,
    kind: spec_fn(Value) -> Option<T>,
)
    requires
        own != tag,
    ensures
        #[trigger] last_of(bytes_field(own, v), tag, kind) == Some(None::<T>),
{
    reveal(last_of);
    lemma_bytes_field_other(own, v, tag, kind);
}

pub broadcast proof fn lemma_bytes_last_own(tag: u32, v: Option<Seq<u8>>)
    ensures
        #[trigger] last_of(bytes_field(tag, v), tag, bytes_kind()) == Some(v),
{
    reveal(last_of);
    lemma_bytes_field_own(tag, v);
}

pub broadcast proof fn lemma_i32_last_other<T>(
    own: u32,
    v: Option<i32>,
    tag: u32,
    kind: spec_fn(Value) -> Option<T>,
)
    requires
        own != tag,
    ensures
        #[trigger] last_of(i32_field(own, v), tag, kind) == Some(None::<T>),
{
    reveal(last_of);
    lemma_i32_field_other(own, v, tag, kind);
}

pub broadcast proof fn lemma_i32_last_own(tag: u32, v: Option<i32>)
    ensures
        #[trigger] last_of(i32_field(tag, v), tag, i32_kind()) == Some(v),
{
    reveal(last_of);
    lemma_i32_field_own(tag, v);
}

pub broadcast proof fn lemma_i64_last_other<T>(
    own: u32,
    v: Option<i64>,
    tag: u32,
    kind: spec_fn(Value) -> Option<T>,
)
    requires
        own != tag,
    ensures
        #[trigger] last_of(i64_field(own, v), tag, kind) == Some(None::<T>),
{
    reveal(last_of);
    lemma_i64_field_other(own, v, tag, kind);
}

pub broadcast proof fn lemma_i64_last_own(tag: u32, v: Option<i64>)
    ensures
        #[trigger] last_of(i64_field(tag, v), tag, i64_kind()) == Some(v),
{
    reveal(last_of);
    lemma_i64_field_own(tag, v);
}

pub broadcast proof fn lemma_bool_last_other<T>(
    own: u32,
    v: Option<bool>,
    tag: u32,
    kind: spec_fn(Value) -> Option<T>,
)
    requires
        own != tag,
    ensures
        #[trigger] last_of(bool_field(own, v), tag, kind) == Some(None::<T>),
{
    reveal(last_of);
    lemma_bool_field_other(own, v, tag, kind);
}

pub broadcast proof fn lemma_bool_last_own(tag: u32, v: Option<bool>)
    ensures
        #[trigger] last_of(bool_field(tag, v), tag, bool_kind()) == Some(v),
{
    reveal(last_of);
    lemma_bool_field_own(tag, v);
}

/// What optional fields read back as.
pub broadcast group group_optional {
    lemma_last_of_concat,
    lemma_text_last_other,
    lemma_text_last_own,
    lemma_bytes_last_other,
    lemma_bytes_last_own,
    lemma_i32_last_other,
    lemma_i32_last_own,
    lemma_i64_last_other,
    lemma_i64_last_own,
    lemma_bool_last_other,
    lemma_bool_last_own,
}

/// What repeated fields read back as.
pub broadcast group group_fields {
    lemma_all_of_concat,
    lemma_text_field_other,
    lemma_text_field_own,
    lemma_bytes_field_other,
    lemma_bytes_field_own,
    lemma_i32_field_other,
    lemma_i32_field_own,
    lemma_i64_field_other,
    lemma_i64_field_own,
    lemma_bool_field_other,
    lemma_bool_field_own,
    lemma_texts_field_other,
    lemma_texts_field_own,
    lemma_blobs_field_other,
    lemma_blobs_field_own,
}

/// Appends one field.
pub fn put(fs: &mut Vec<RawField>, tag: u32, value: RawValue)
    ensures
        fields(final(fs)@) == fields(old(fs)@).push(Field { tag, value: value@ }),
{
    fs.push(RawField { tag, value });
    assert(fields(fs@) =~= fields(old(fs)@).push(Field { tag, value: value@ }));
}

/// Appends an optional `string` field.
pub fn put_text(fs: &mut Vec<RawField>, tag: u32, v: &Option<String>)
    ensures
        fields(final(fs)@) == fields(old(fs)@) + text_field(tag, opt_text(*v)),
{
    if let Some(t) = v {
        put(fs, tag, RawValue::Bytes(copy_bytes(t.as_str().as_bytes())));
    }
    assert(fields(fs@) =~= fields(old(fs)@) + text_field(tag, opt_text(*v)));
}

/// Appends an optional `bytes` field.
pub fn put_bytes(fs: &mut Vec<RawField>, tag: u32, v: &Option<Vec<u8>>)
    ensures
        fields(final(fs)@) == fields(old(fs)@) + bytes_field(tag, opt_blob(*v)),
{
    if let Some(b) = v {
        put(fs, tag, RawValue::Bytes(copy_bytes(b.as_slice())));
    }
    assert(fields(fs@) =~= fields(old(fs)@) + bytes_field(tag, opt_blob(*v)));
}

/// Appends an optional `int32` field.
pub fn put_i32(fs: &mut Vec<RawField>, tag: u32, v: Option<i32>)
    ensures
        fields(final(fs)@) == fields(old(fs)@) + i32_field(tag, v),
{
    if let Some(x) = v {
        put(fs, tag, RawValue::Varint(to_u64(x as i64)));
    }
    assert(fields(fs@) =~= fields(old(fs)@) + i32_field(tag, v));
}

/// Appends an optional `int64` field.
pub fn put_i64(fs: &mut Vec<RawField>, tag: u32, v: Option<i64>)
    ensures
        fields(final(fs)@) == fields(old(fs)@) + i64_field(tag, v),
{
    if let Some(x) = v {
        put(fs, tag, RawValue::Varint(to_u64(x)));
    }
    assert(fields(fs@) =~= fields(old(fs)@) + i64_field(tag, v));
}

/// Appends an optional `bool` field.
pub fn put_bool(fs: &mut Vec<RawField>, tag: u32, v: Option<bool>)
    ensures
        fields(final(fs)@) == fields(old(fs)@) + bool_field(tag, v),
{
    if let Some(x) = v {
        put(
            fs,
            tag,
            RawValue::Varint(
                if x {
                    1
                } else {
                    0
                },
            ),
        );
    }
    assert(fields(fs@) =~= fields(old(fs)@) + bool_field(tag, v));
}

/// Appends a repeated `string` field.
pub fn put_texts(fs: &mut Vec<RawField>, tag: u32, v: &Vec<String>)
    ensures
        fields(final(fs)@) == fields(old(fs)@) + texts_field(tag, texts(v@)),
{
    let ghost start = fields(fs@);
    let mut i: usize = 0;
    assert(start + texts_field(tag, texts(v@).take(0)) =~= start);
    while i < v.len()
        invariant
            i <= v.len(),
            fields(fs@) == start + texts_field(tag, texts(v@).take(i as int)),
        decreases v.len() - i,
    {
        put(fs, tag, RawValue::Bytes(copy_bytes(v[i].as_str().as_bytes())));
        i += 1;
        assert(fields(fs@) =~= start + texts_field(tag, texts(v@).take(i as int)));
    }
    assert(texts(v@).take(v@.len() as int) =~= texts(v@));
}

/// Appends a repeated `bytes` field.
pub fn put_blobs(fs: &mut Vec<RawField>, tag: u32, v: &Vec<Vec<u8>>)
    ensures
        fields(final(fs)@) == fields(old(fs)@) + blobs_field(tag, blobs(v@)),
{
    let ghost start = fields(fs@);
    let mut i: usize = 0;
    assert(start + blobs_field(tag, blobs(v@).take(0)) =~= start);
    while i < v.len()
        invariant
            i <= v.len(),
            fields(fs@) == start + blobs_field(tag, blobs(v@).take(i as int)),
        decreases v.len() - i,
    {
        put(fs, tag, RawValue::Bytes(copy_bytes(v[i].as_slice())));
        i += 1;
        assert(fields(fs@) =~= start + blobs_field(tag, blobs(v@).take(i as int)));
    }
    assert(blobs(v@).take(v@.len() as int) =~= blobs(v@));
}

/// Appends the bytes of one field.
fn write_field(out: &mut Vec<u8>, f: &RawField)
    ensures
        final(out)@ == old(out)@ + field_bytes(f@),
{
    let ghost start = out@;
    let wt: u64 = match &f.value {
        RawValue::Varint(_) => 0,
        RawValue::Fixed64(_) => 1,
        RawValue::Bytes(_) => 2,
        RawValue::Group(_) => 3,
        RawValue::Fixed32(_) => 5,
    };
    write_varint(out, f.tag as u64 * 8 + wt);
    match &f.value {
        RawValue::Varint(x) => {
            write_varint(out, *x);
        },
        RawValue::Bytes(b) => {
            write_varint(out, b.len() as u64);
            out.extend_from_slice(b.as_slice());
        },
        RawValue::Fixed64(b) => {
            out.extend_from_slice(b.as_slice());
        },
        RawValue::Group(b) => {
            out.extend_from_slice(b.as_slice());
        },
        RawValue::Fixed32(b) => {
            out.extend_from_slice(b.as_slice());
        },
    }
    assert(out@ =~= start + field_bytes(f@));
}

/// The bytes of a list of fields.
pub fn write_fields(fs: &Vec<RawField>) -> (res: Vec<u8>)
    ensures
        res@ == fields_bytes(fields(fs@)),
{
    let mut out: Vec<u8> = Vec::new();
    let mut i: usize = 0;
    let ghost all = fields(fs@);
    assert(all.take(0) =~= Seq::<Field>::empty());
    while i < fs.len()
        invariant
            i <= fs.len(),
            all == fields(fs@),
            out@ == fields_bytes(all.take(i as int)),
        decreases fs.len() - i,
    {
        write_field(&mut out, &fs[i]);
        assert(all.take(i + 1).drop_last() =~= all.take(i as int));
        assert(all.take(i + 1).last() == fs@[i as int]@);
        i += 1;
    }
    assert(all.take(fs@.len() as int) =~= all);
    out
}

} // verus!
