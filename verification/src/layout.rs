//! How the messages stand on the wire, byte by byte: under which number each
//! field is written and read, and what becomes of bytes that are put together.

use vstd::prelude::*;
use vstd::utf8::encode_utf8;
use crate::env::{ascending, lemma_with_var, var_in, with_var, Var};
use crate::messages::{
    collect, endpoint_field, endpoint_of, entry_fields, entry_kind, env_field, last_known,
    law_catchup_buffer_round_trip, law_config_params_round_trip, law_connect_request_round_trip,
    law_connect_response_round_trip, law_initial_payload_round_trip,
    law_initial_response_round_trip, law_port_forward_data_round_trip,
    law_port_forward_destination_request_round_trip,
    law_port_forward_destination_response_round_trip, law_port_forward_source_request_round_trip,
    law_port_forward_source_response_round_trip, law_sequence_header_round_trip,
    law_socket_endpoint_round_trip, law_term_init_round_trip, law_terminal_buffer_round_trip,
    law_terminal_info_round_trip, law_terminal_user_info_round_trip, lemma_field_len,
    merged_fields, request_kind, requests_field, status_of, CatchupBufferView, ConfigParamsView,
    ConnectRequestView, ConnectResponseView, ConnectStatus, InitialPayloadView,
    InitialResponseView, PortForwardDataView, PortForwardDestinationRequestView,
    PortForwardDestinationResponseView, PortForwardSourceRequestView,
    PortForwardSourceResponseView, SequenceHeaderView, SocketEndpointView, TermInitView,
    TerminalBufferView, TerminalInfoView, TerminalUserInfoView,
};
use crate::wire::{
    all_of, blobs_field, bool_field, bool_kind, bytes_field, bytes_kind, field_bytes,
    fields_bytes, i32_field, i32_kind, i64_field, i64_kind, key, last_of, law_nested_round_trip,
    lemma_all_of_concat, lemma_key_bounds, lemma_key_local, lemma_last_of_concat,
    lemma_shared_tail, lemma_value_bounds, lemma_value_local, lemma_varint_bounds,
    lemma_varint_local, parse_field, parse_fields, parse_nested, plain, text_field, text_kind,
    texts_field, value_at, value_len, varint, varint_bytes, varint_limit, lemma_varint_limit, Field, Value, NESTING,
};

verus! {

/// The number that an integer stands for on the wire: one below zero counts
/// down from the top of 64 bits.
pub open spec fn as_wire(n: int) -> nat {
    if n >= 0 {
        n as nat
    } else {
        (n + 0x1_0000_0000_0000_0000) as nat
    }
}

/// A number under `key`, if there is one.
pub open spec fn number(key: u8, v: Option<i32>) -> Seq<u8> {
    match v {
        Some(n) => seq![key] + varint_bytes(as_wire(n as int)),
        None => Seq::empty(),
    }
}

/// A long number under `key`, if there is one.
pub open spec fn long_number(key: u8, v: Option<i64>) -> Seq<u8> {
    match v {
        Some(n) => seq![key] + varint_bytes(as_wire(n as int)),
        None => Seq::empty(),
    }
}

/// A yes or a no under `key`, if there is one.
pub open spec fn flag(key: u8, v: Option<bool>) -> Seq<u8> {
    match v {
        Some(true) => seq![key, 1u8],
        Some(false) => seq![key, 0u8],
        None => Seq::empty(),
    }
}

/// Bytes under `key`, with their length before them, if there are any.
pub open spec fn content(key: u8, v: Option<Seq<u8>>) -> Seq<u8> {
    match v {
        Some(b) => seq![key] + varint_bytes(b.len()) + b,
        None => Seq::empty(),
    }
}

/// A text under `key`, if there is one.
pub open spec fn words(key: u8, v: Option<Seq<char>>) -> Seq<u8> {
    match v {
        Some(t) => content(key, Some(encode_utf8(t))),
        None => Seq::empty(),
    }
}

/// Byte strings under `key`, one after the other.
pub open spec fn contents(key: u8, v: Seq<Seq<u8>>) -> Seq<u8>
    decreases v.len(),
{
    if v.len() == 0 {
        Seq::empty()
    } else {
        contents(key, v.drop_last()) + content(key, Some(v.last()))
    }
}

/// Texts under `key`, one after the other.
pub open spec fn all_words(key: u8, v: Seq<Seq<char>>) -> Seq<u8> {
    contents(key, v.map_values(|t: Seq<char>| encode_utf8(t)))
}

/// The bytes of an endpoint: its name under one, its port under two.
pub open spec fn place_bytes(v: SocketEndpointView) -> Seq<u8> {
    words(0x0a, v.name) + number(0x10, v.port)
}

/// An endpoint under `key`, if there is one.
pub open spec fn place(key: u8, v: Option<SocketEndpointView>) -> Seq<u8> {
    match v {
        Some(e) => content(key, Some(place_bytes(e))),
        None => Seq::empty(),
    }
}

/// The bytes of a listener to open: where to listen under one, where it leads
/// under two.
pub open spec fn tunnel_bytes(v: PortForwardSourceRequestView) -> Seq<u8> {
    place(0x0a, v.source) + place(0x12, v.destination) + words(0x1a, v.environmentvariable)
}

/// Listeners to open under `key`, one after the other.
pub open spec fn places(key: u8, v: Seq<PortForwardSourceRequestView>) -> Seq<u8> {
    contents(key, v.map_values(|r: PortForwardSourceRequestView| tunnel_bytes(r)))
}

/// The bytes of a variable: its name under one, its value under two.
pub open spec fn variable_bytes(e: Var) -> Seq<u8> {
    words(0x0a, Some(e.0)) + words(0x12, Some(e.1))
}

/// Variables under `key`, one after the other.
pub open spec fn variables(key: u8, v: Seq<Var>) -> Seq<u8> {
    contents(key, v.map_values(|e: Var| variable_bytes(e)))
}

/// What counts of an earlier and a later value: the later one, if there is one.
pub open spec fn later<T>(a: Option<T>, b: Option<T>) -> Option<T> {
    match b {
        Some(x) => Some(x),
        None => a,
    }
}

/// What an earlier and a later endpoint come to: their parts add to each other.
pub open spec fn later_place(a: Option<SocketEndpointView>, b: Option<SocketEndpointView>) -> Option<
    SocketEndpointView,
> {
    match (a, b) {
        (Some(x), Some(y)) => Some(
            SocketEndpointView { name: later(x.name, y.name), port: later(x.port, y.port) },
        ),
        (Some(x), None) => Some(x),
        (None, y) => y,
    }
}

/// The integer that bytes give, seven bits each, the lowest first.
pub open spec fn base_128(b: Seq<u8>) -> int
    decreases b.len(),
{
    if b.len() == 0 {
        0
    } else {
        b[0] as int % 128 + 128 * base_128(b.skip(1))
    }
}

/// How an integer stands on the wire: seven bits in each byte, the lowest
/// first, and the top bit of all but the last set.
pub proof fn law_varint_layout(v: nat)
    ensures
        ({
            let b = varint_bytes(v);
            &&& b.len() >= 1
            &&& base_128(b) == v
            &&& b.last() < 128
            &&& forall|i: int| 0 <= i < b.len() - 1 ==> #[trigger] b[i] >= 128
            &&& b.len() > 1 ==> b.last() > 0
        }),
    decreases v,
{
    let b = varint_bytes(v);
    if v < 128 {
        assert(b.skip(1) =~= Seq::<u8>::empty());
        assert(base_128(b.skip(1)) == 0);
    } else {
        law_varint_layout(v / 128);
        let rest = varint_bytes(v / 128);
        assert(b.skip(1) =~= rest);
        assert(b.last() == rest.last());
        assert forall|i: int| 0 <= i < b.len() - 1 implies #[trigger] b[i] >= 128 by {
            if i > 0 {
                assert(b[i] == rest[i - 1]);
            }
        }
        if rest.len() == 1 {
            assert(base_128(rest) == v / 128);
            assert(rest.skip(1) =~= Seq::<u8>::empty());
            assert(base_128(rest.skip(1)) == 0);
        }
    }
}

proof fn lemma_fields_bytes_concat(a: Seq<Field>, b: Seq<Field>)
    ensures
        fields_bytes(a + b) == fields_bytes(a) + fields_bytes(b),
    decreases b.len(),
{
    if b.len() == 0 {
        assert(a + b =~= a);
        assert(fields_bytes(a) + fields_bytes(b) =~= fields_bytes(a));
    } else {
        assert((a + b).drop_last() =~= a + b.drop_last());
        assert((a + b).last() == b.last());
        lemma_fields_bytes_concat(a, b.drop_last());
        assert(fields_bytes(a + b) =~= fields_bytes(a) + fields_bytes(b));
    }
}

proof fn lemma_single(f: Field)
    requires
        1 <= f.tag <= 15,
    ensures
        fields_bytes(seq![f]) == field_bytes(f),
        varint_bytes((f.tag * 8) as nat) == seq![(f.tag * 8) as u8],
        varint_bytes((f.tag * 8 + 2) as nat) == seq![(f.tag * 8 + 2) as u8],
{
    assert(seq![f].drop_last() =~= Seq::<Field>::empty());
    assert(fields_bytes(Seq::<Field>::empty()) =~= Seq::<u8>::empty());
    assert(fields_bytes(seq![f]) =~= field_bytes(f));
}

proof fn lemma_number(tag: u32, v: Option<i32>)
    requires
        1 <= tag <= 15,
    ensures
        fields_bytes(i32_field(tag, v)) == number((tag * 8) as u8, v),
{
    if v is Some {
        lemma_single(i32_field(tag, v)[0]);
        assert(i32_field(tag, v) =~= seq![i32_field(tag, v)[0]]);
        assert(fields_bytes(i32_field(tag, v)) =~= number((tag * 8) as u8, v));
    }
}

proof fn lemma_long_number(tag: u32, v: Option<i64>)
    requires
        1 <= tag <= 15,
    ensures
        fields_bytes(i64_field(tag, v)) == long_number((tag * 8) as u8, v),
{
    if v is Some {
        lemma_single(i64_field(tag, v)[0]);
        assert(i64_field(tag, v) =~= seq![i64_field(tag, v)[0]]);
        assert(fields_bytes(i64_field(tag, v)) =~= long_number((tag * 8) as u8, v));
    }
}

proof fn lemma_flag(tag: u32, v: Option<bool>)
    requires
        1 <= tag <= 15,
    ensures
        fields_bytes(bool_field(tag, v)) == flag((tag * 8) as u8, v),
{
    if v is Some {
        lemma_single(bool_field(tag, v)[0]);
        assert(bool_field(tag, v) =~= seq![bool_field(tag, v)[0]]);
        assert(fields_bytes(bool_field(tag, v)) =~= flag((tag * 8) as u8, v));
    }
}

proof fn lemma_content(tag: u32, v: Option<Seq<u8>>)
    requires
        1 <= tag <= 15,
    ensures
        fields_bytes(bytes_field(tag, v)) == content((tag * 8 + 2) as u8, v),
{
    if v is Some {
        lemma_single(bytes_field(tag, v)[0]);
        assert(bytes_field(tag, v) =~= seq![bytes_field(tag, v)[0]]);
        assert(fields_bytes(bytes_field(tag, v)) =~= content((tag * 8 + 2) as u8, v));
    }
}

proof fn lemma_words(tag: u32, v: Option<Seq<char>>)
    requires
        1 <= tag <= 15,
    ensures
        fields_bytes(text_field(tag, v)) == words((tag * 8 + 2) as u8, v),
{
    if let Some(t) = v {
        lemma_content(tag, Some(encode_utf8(t)));
        assert(text_field(tag, v) =~= bytes_field(tag, Some(encode_utf8(t))));
    }
}

/// Fields with one number that hold byte strings.
spec fn all_bytes(tag: u32, v: Seq<Seq<u8>>) -> Seq<Field> {
    v.map_values(|b: Seq<u8>| Field { tag, value: Value::Bytes(b) })
}

proof fn lemma_all_bytes(tag: u32, v: Seq<Seq<u8>>)
    requires
        1 <= tag <= 15,
    ensures
        fields_bytes(all_bytes(tag, v)) == contents((tag * 8 + 2) as u8, v),
    decreases v.len(),
{
    if v.len() > 0 {
        let front = v.drop_last();
        lemma_all_bytes(tag, front);
        assert(all_bytes(tag, v).drop_last() =~= all_bytes(tag, front));
        let f = all_bytes(tag, v).last();
        assert(f == Field { tag, value: Value::Bytes(v.last()) });
        lemma_single(f);
        assert(field_bytes(f) =~= content((tag * 8 + 2) as u8, Some(v.last())));
    }
}

proof fn lemma_contents(tag: u32, v: Seq<Seq<u8>>)
    requires
        1 <= tag <= 15,
    ensures
        fields_bytes(blobs_field(tag, v)) == contents((tag * 8 + 2) as u8, v),
{
    lemma_all_bytes(tag, v);
    assert(blobs_field(tag, v) =~= all_bytes(tag, v));
}

proof fn lemma_all_words(tag: u32, v: Seq<Seq<char>>)
    requires
        1 <= tag <= 15,
    ensures
        fields_bytes(texts_field(tag, v)) == all_words((tag * 8 + 2) as u8, v),
{
    let b = v.map_values(|t: Seq<char>| encode_utf8(t));
    lemma_all_bytes(tag, b);
    assert(texts_field(tag, v) =~= all_bytes(tag, b));
}

proof fn lemma_place_bytes(v: SocketEndpointView)
    ensures
        v.bytes() == place_bytes(v),
{
    lemma_words(1, v.name);
    lemma_number(2, v.port);
    lemma_fields_bytes_concat(text_field(1, v.name), i32_field(2, v.port));
}

proof fn lemma_place(tag: u32, v: Option<SocketEndpointView>)
    requires
        1 <= tag <= 15,
    ensures
        fields_bytes(endpoint_field(tag, v)) == place((tag * 8 + 2) as u8, v),
{
    if let Some(e) = v {
        lemma_place_bytes(e);
        lemma_content(tag, Some(e.bytes()));
    } else {
        assert(endpoint_field(tag, v) =~= Seq::<Field>::empty());
    }
}

proof fn lemma_tunnel_bytes(v: PortForwardSourceRequestView)
    ensures
        v.bytes() == tunnel_bytes(v),
{
    lemma_place(1, v.source);
    lemma_place(2, v.destination);
    lemma_words(3, v.environmentvariable);
    let a = endpoint_field(1, v.source);
    let b = endpoint_field(2, v.destination);
    lemma_fields_bytes_concat(a, b);
    lemma_fields_bytes_concat(a + b, text_field(3, v.environmentvariable));
}

proof fn lemma_places(tag: u32, v: Seq<PortForwardSourceRequestView>)
    requires
        1 <= tag <= 15,
    ensures
        fields_bytes(requests_field(tag, v)) == places((tag * 8 + 2) as u8, v),
{
    let b = v.map_values(|r: PortForwardSourceRequestView| tunnel_bytes(r));
    lemma_all_bytes(tag, b);
    assert forall|i: int| 0 <= i < v.len() implies requests_field(tag, v)[i] == all_bytes(
        tag,
        b,
    )[i] by {
        lemma_tunnel_bytes(v[i]);
    }
    assert(requests_field(tag, v) =~= all_bytes(tag, b));
}

proof fn lemma_variable_bytes(e: Var)
    ensures
        fields_bytes(entry_fields(e)) == variable_bytes(e),
{
    lemma_words(1, Some(e.0));
    lemma_words(2, Some(e.1));
    lemma_fields_bytes_concat(text_field(1, Some(e.0)), text_field(2, Some(e.1)));
}

proof fn lemma_variables(tag: u32, v: Seq<Var>)
    requires
        1 <= tag <= 15,
    ensures
        fields_bytes(env_field(tag, v)) == variables((tag * 8 + 2) as u8, v),
{
    let b = v.map_values(|e: Var| variable_bytes(e));
    lemma_all_bytes(tag, b);
    assert forall|i: int| 0 <= i < v.len() implies env_field(tag, v)[i] == all_bytes(tag, b)[i] by {
        lemma_variable_bytes(v[i]);
    }
    assert(env_field(tag, v) =~= all_bytes(tag, b));
}

proof fn lemma_parse_concat(a: Seq<u8>, b: Seq<u8>, depth: nat)
    requires
        parse_nested(a, depth) is Some,
        parse_nested(b, depth) is Some,
    ensures
        parse_nested(a + b, depth) == Some(
            parse_nested(a, depth)->0 + parse_nested(b, depth)->0,
        ),
    decreases a.len(),
{
    let fb = parse_nested(b, depth)->0;
    if a.len() == 0 {
        assert(a + b =~= b);
        assert(Seq::<Field>::empty() + fb =~= fb);
    } else {
        let c = a + b;
        let m = a.len() as int;
        let (f, used) = parse_field(a, depth)->0;
        let (tag, wt, n) = key(a)->0;
        let k = value_len(wt, tag, a.skip(n), depth)->0;
        lemma_key_bounds(a);
        lemma_value_bounds(wt, tag, a.skip(n), depth);
        assert(c.take(m) =~= a.take(m));
        lemma_key_local(a, c, m);
        lemma_shared_tail(a, c, m, n);
        lemma_value_local(wt, tag, a.skip(n), c.skip(n), m - n, depth);
        assert(value_at(wt, c.skip(n), k) == f.value) by {
            if wt == 0 || wt == 2 {
                lemma_varint_bounds(a.skip(n), 0);
                lemma_varint_local(a.skip(n), c.skip(n), m - n, 0);
                if wt == 2 {
                    let start = varint(a.skip(n))->Some_0.1;
                    assert(a.skip(n).subrange(start, k) =~= c.skip(n).subrange(start, k));
                }
            } else if wt == 1 {
                assert(a.skip(n).take(8) =~= c.skip(n).take(8));
            } else if wt == 3 {
                assert(a.skip(n).take(k) =~= c.skip(n).take(k));
            } else {
                assert(a.skip(n).take(4) =~= c.skip(n).take(4));
            }
        }
        assert(used == n + k);
        lemma_parse_concat(a.skip(used), b, depth);
        assert(c.skip(used) =~= a.skip(used) + b);
        let rest = parse_nested(a.skip(used), depth)->0;
        assert(seq![f] + (rest + fb) =~= (seq![f] + rest) + fb);
    }
}

proof fn lemma_parse_one(f: Field)
    requires
        plain(f),
    ensures
        parse_fields(field_bytes(f)) == Some(seq![f]),
{
    let fs = seq![f];
    assert(fs.drop_last() =~= Seq::<Field>::empty());
    assert(fields_bytes(Seq::<Field>::empty()) =~= Seq::<u8>::empty());
    assert(fields_bytes(fs) =~= field_bytes(f));
    law_nested_round_trip(fs, NESTING as nat);
}

proof fn lemma_one<T>(f: Field, tag: u32, kind: spec_fn(Value) -> Option<T>)
    ensures
        all_of(seq![f], tag, kind) == if f.tag != tag {
            Some(Seq::<T>::empty())
        } else {
            match kind(f.value) {
                Some(v) => Some(seq![v]),
                None => None,
            }
        },
        f.tag != tag ==> last_of(seq![f], tag, kind) == Some(None::<T>),
        f.tag == tag && kind(f.value) is None ==> last_of(seq![f], tag, kind) is None,
        f.tag != tag ==> all_of(seq![f], tag, bytes_kind()) == Some(Seq::<Seq<u8>>::empty()),
{
    reveal(last_of);
    reveal_with_fuel(all_of, 2);
    let fs = seq![f];
    assert(fs.drop_last() =~= Seq::<Field>::empty());
    assert(fs.last() == f);
    if let Some(v) = kind(f.value) {
        assert(Seq::<T>::empty().push(v) =~= seq![v]);
    }
}

proof fn lemma_known_concat(a: Seq<i32>, b: Seq<i32>)
    ensures
        last_known(a + b) == later(last_known(a), last_known(b)),
    decreases b.len(),
{
    if b.len() == 0 {
        assert(a + b =~= a);
    } else {
        assert((a + b).drop_last() =~= a + b.drop_last());
        lemma_known_concat(a, b.drop_last());
    }
}

proof fn lemma_status_concat(a: Seq<Field>, b: Seq<Field>, tag: u32)
    requires
        status_of(a, tag) is Some,
        status_of(b, tag) is Some,
    ensures
        status_of(a + b, tag) == Some(later(status_of(a, tag)->0, status_of(b, tag)->0)),
{
    lemma_all_of_concat(a, b, tag, i32_kind());
    lemma_known_concat(all_of(a, tag, i32_kind())->0, all_of(b, tag, i32_kind())->0);
}

proof fn lemma_merged_concat(a: Seq<Seq<u8>>, b: Seq<Seq<u8>>, depth: nat)
    requires
        merged_fields(a, depth) is Some,
        merged_fields(b, depth) is Some,
    ensures
        merged_fields(a + b, depth) == Some(
            merged_fields(a, depth)->0 + merged_fields(b, depth)->0,
        ),
    decreases b.len(),
{
    if b.len() == 0 {
        assert(a + b =~= a);
        let fa = merged_fields(a, depth)->0;
        assert(fa + Seq::<Field>::empty() =~= fa);
    } else {
        assert((a + b).drop_last() =~= a + b.drop_last());
        lemma_merged_concat(a, b.drop_last(), depth);
        let fa = merged_fields(a, depth)->0;
        let fb = merged_fields(b.drop_last(), depth)->0;
        let last = parse_nested(b.last(), depth)->0;
        assert(fa + fb + last =~= fa + (fb + last));
    }
}

proof fn lemma_endpoint_concat(a: Seq<Field>, b: Seq<Field>, tag: u32, depth: nat)
    requires
        endpoint_of(a, tag, depth) is Some,
        endpoint_of(b, tag, depth) is Some,
    ensures
        endpoint_of(a + b, tag, depth) == Some(
            later_place(endpoint_of(a, tag, depth)->0, endpoint_of(b, tag, depth)->0),
        ),
{
    lemma_all_of_concat(a, b, tag, bytes_kind());
    let x = all_of(a, tag, bytes_kind())->0;
    let y = all_of(b, tag, bytes_kind())->0;
    let inner = (depth - 1) as nat;
    if x.len() == 0 {
        assert(x + y =~= y);
    } else if y.len() == 0 {
        assert(x + y =~= x);
    } else {
        lemma_merged_concat(x, y, inner);
        let fx = merged_fields(x, inner)->0;
        let fy = merged_fields(y, inner)->0;
        lemma_last_of_concat(fx, fy, 1, text_kind());
        lemma_last_of_concat(fx, fy, 2, i32_kind());
    }
}

/// The value that a list of variables gives a name is the last one in it.
proof fn lemma_collect(e: Seq<Var>)
    ensures
        ascending(collect(e)),
        e.len() > 0 ==> var_in(collect(e), e.last().0) == Some(e.last().1),
        e.len() > 0 ==> forall|k: Seq<char>|
            k != e.last().0 ==> #[trigger] var_in(collect(e), k) == var_in(collect(e.drop_last()), k),
    decreases e.len(),
{
    if e.len() > 0 {
        lemma_collect(e.drop_last());
        lemma_with_var(collect(e.drop_last()), e.last().0, e.last().1);
    }
}

proof fn lemma_collect_concat(a: Seq<Var>, b: Seq<Var>)
    ensures
        ascending(collect(a + b)),
        forall|k: Seq<char>| #[trigger]
            var_in(collect(a + b), k) == later(var_in(collect(a), k), var_in(collect(b), k)),
    decreases b.len(),
{
    lemma_collect(a + b);
    lemma_collect(b);
    if b.len() == 0 {
        assert(a + b =~= a);
        assert(collect(b) =~= Seq::<Var>::empty());
    } else {
        assert((a + b).drop_last() =~= a + b.drop_last());
        assert((a + b).last() == b.last());
        lemma_collect_concat(a, b.drop_last());
        assert forall|k: Seq<char>| #[trigger] var_in(collect(a + b), k) == later(
            var_in(collect(a), k),
            var_in(collect(b), k),
        ) by {
            if k != b.last().0 {
                assert(var_in(collect(a + b), k) == var_in(collect(a + b.drop_last()), k));
                assert(var_in(collect(b), k) == var_in(collect(b.drop_last()), k));
            }
        }
    }
}

/// How a [`crate::messages::ConnectRequest`] stands on the wire: each field under its
/// number, in order. Those bytes read back as the message.
pub proof fn law_connect_request_layout(v: ConnectRequestView)
    requires
        v.bytes().len() <= u64::MAX,
    ensures
        v.bytes() == words(0x0a, v.client_id) + number(0x10, v.version),
        ConnectRequestView::parse(words(0x0a, v.client_id) + number(0x10, v.version)) == Some(v),
{
    lemma_words(1, v.client_id);
    lemma_number(2, v.version);
    lemma_fields_bytes_concat(text_field(1, v.client_id), i32_field(2, v.version));
    let fs = v.fields();
    assert forall|i: int| 0 <= i < fs.len() implies plain(#[trigger] fs[i]) by {
        lemma_field_len(fs, i);
    }
    law_connect_request_round_trip(v);
}

/// Two of them one after the other are one: what comes later counts, and lists
/// add up.
pub proof fn law_connect_request_adds_up(a: Seq<u8>, b: Seq<u8>)
    requires
        ConnectRequestView::parse(a) is Some,
        ConnectRequestView::parse(b) is Some,
    ensures
        ({
            let x = ConnectRequestView::parse(a)->0;
            let y = ConnectRequestView::parse(b)->0;
            ConnectRequestView::parse(a + b) == Some(ConnectRequestView { client_id: later(x.client_id, y.client_id), version: later(x.version, y.version) })
        }),
{
    let fa = parse_fields(a)->0;
    let fb = parse_fields(b)->0;
    lemma_parse_concat(a, b, NESTING as nat);
    lemma_last_of_concat(fa, fb, 1, text_kind());
    lemma_last_of_concat(fa, fb, 2, i32_kind());
}

/// A field with another number than those of the message is passed over. One
/// of the message that is of another kind makes the bytes no message.
pub proof fn law_connect_request_other_fields(f: Field)
    requires
        plain(f),
    ensures
        f.tag > 2 ==> ConnectRequestView::parse(field_bytes(f)) == Some(ConnectRequestView { client_id: None, version: None }),
        (f.tag == 1 && !(f.value is Bytes)) || (f.tag == 2 && !(f.value is Varint)) ==> ConnectRequestView::parse(field_bytes(f)) is None,
{
    lemma_parse_one(f);
    lemma_one(f, 1, text_kind());
    lemma_one(f, 2, i32_kind());
}

/// How a [`crate::messages::ConnectResponse`] stands on the wire: each field under its
/// number, in order. Those bytes read back as the message.
pub proof fn law_connect_response_layout(v: ConnectResponseView)
    requires
        v.bytes().len() <= u64::MAX,
    ensures
        v.bytes() == number(0x08, v.status) + words(0x12, v.error),
        ConnectResponseView::parse(number(0x08, v.status) + words(0x12, v.error)) == Some(v.known()),
{
    lemma_number(1, v.status);
    lemma_words(2, v.error);
    lemma_fields_bytes_concat(i32_field(1, v.status), text_field(2, v.error));
    let fs = v.fields();
    assert forall|i: int| 0 <= i < fs.len() implies plain(#[trigger] fs[i]) by {
        lemma_field_len(fs, i);
    }
    law_connect_response_round_trip(v);
}

/// Two of them one after the other are one: what comes later counts, and lists
/// add up.
pub proof fn law_connect_response_adds_up(a: Seq<u8>, b: Seq<u8>)
    requires
        ConnectResponseView::parse(a) is Some,
        ConnectResponseView::parse(b) is Some,
    ensures
        ({
            let x = ConnectResponseView::parse(a)->0;
            let y = ConnectResponseView::parse(b)->0;
            ConnectResponseView::parse(a + b) == Some(ConnectResponseView { status: later(x.status, y.status), error: later(x.error, y.error) })
        }),
{
    let fa = parse_fields(a)->0;
    let fb = parse_fields(b)->0;
    lemma_parse_concat(a, b, NESTING as nat);
    lemma_status_concat(fa, fb, 1);
    lemma_last_of_concat(fa, fb, 2, text_kind());
}

/// A field with another number than those of the message is passed over. One
/// of the message that is of another kind makes the bytes no message.
pub proof fn law_connect_response_other_fields(f: Field)
    requires
        plain(f),
    ensures
        f.tag > 2 ==> ConnectResponseView::parse(field_bytes(f)) == Some(ConnectResponseView { status: None, error: None }),
        (f.tag == 1 && !(f.value is Varint)) || (f.tag == 2 && !(f.value is Bytes)) ==> ConnectResponseView::parse(field_bytes(f)) is None,
{
    lemma_parse_one(f);
    lemma_one(f, 1, i32_kind());
    lemma_one(f, 2, text_kind());
}

/// How a [`crate::messages::SequenceHeader`] stands on the wire: each field under its
/// number, in order. Those bytes read back as the message.
pub proof fn law_sequence_header_layout(v: SequenceHeaderView)
    requires
        v.bytes().len() <= u64::MAX,
    ensures
        v.bytes() == number(0x08, v.sequence_number),
        SequenceHeaderView::parse(number(0x08, v.sequence_number)) == Some(v),
{
    lemma_number(1, v.sequence_number);
    let fs = v.fields();
    assert forall|i: int| 0 <= i < fs.len() implies plain(#[trigger] fs[i]) by {
        lemma_field_len(fs, i);
    }
    law_sequence_header_round_trip(v);
}

/// Two of them one after the other are one: what comes later counts, and lists
/// add up.
pub proof fn law_sequence_header_adds_up(a: Seq<u8>, b: Seq<u8>)
    requires
        SequenceHeaderView::parse(a) is Some,
        SequenceHeaderView::parse(b) is Some,
    ensures
        ({
            let x = SequenceHeaderView::parse(a)->0;
            let y = SequenceHeaderView::parse(b)->0;
            SequenceHeaderView::parse(a + b) == Some(SequenceHeaderView { sequence_number: later(x.sequence_number, y.sequence_number) })
        }),
{
    let fa = parse_fields(a)->0;
    let fb = parse_fields(b)->0;
    lemma_parse_concat(a, b, NESTING as nat);
    lemma_last_of_concat(fa, fb, 1, i32_kind());
}

/// A field with another number than those of the message is passed over. One
/// of the message that is of another kind makes the bytes no message.
pub proof fn law_sequence_header_other_fields(f: Field)
    requires
        plain(f),
    ensures
        f.tag > 1 ==> SequenceHeaderView::parse(field_bytes(f)) == Some(SequenceHeaderView { sequence_number: None }),
        (f.tag == 1 && !(f.value is Varint)) ==> SequenceHeaderView::parse(field_bytes(f)) is None,
{
    lemma_parse_one(f);
    lemma_one(f, 1, i32_kind());
}

/// How a [`crate::messages::CatchupBuffer`] stands on the wire: each field under its
/// number, in order. Those bytes read back as the message.
pub proof fn law_catchup_buffer_layout(v: CatchupBufferView)
    requires
        v.bytes().len() <= u64::MAX,
    ensures
        v.bytes() == contents(0x0a, v.buffer),
        CatchupBufferView::parse(contents(0x0a, v.buffer)) == Some(v),
{
    lemma_contents(1, v.buffer);
    let fs = v.fields();
    assert forall|i: int| 0 <= i < fs.len() implies plain(#[trigger] fs[i]) by {
        lemma_field_len(fs, i);
    }
    law_catchup_buffer_round_trip(v);
}

/// Two of them one after the other are one: what comes later counts, and lists
/// add up.
pub proof fn law_catchup_buffer_adds_up(a: Seq<u8>, b: Seq<u8>)
    requires
        CatchupBufferView::parse(a) is Some,
        CatchupBufferView::parse(b) is Some,
    ensures
        ({
            let x = CatchupBufferView::parse(a)->0;
            let y = CatchupBufferView::parse(b)->0;
            CatchupBufferView::parse(a + b) == Some(CatchupBufferView { buffer: x.buffer + y.buffer })
        }),
{
    let fa = parse_fields(a)->0;
    let fb = parse_fields(b)->0;
    lemma_parse_concat(a, b, NESTING as nat);
    lemma_all_of_concat(fa, fb, 1, bytes_kind());
}

/// A field with another number than those of the message is passed over. One
/// of the message that is of another kind makes the bytes no message.
pub proof fn law_catchup_buffer_other_fields(f: Field)
    requires
        plain(f),
    ensures
        f.tag > 1 ==> CatchupBufferView::parse(field_bytes(f)) == Some(CatchupBufferView { buffer: Seq::empty() }),
        (f.tag == 1 && !(f.value is Bytes)) ==> CatchupBufferView::parse(field_bytes(f)) is None,
{
    lemma_parse_one(f);
    lemma_one(f, 1, bytes_kind());
}

/// How a [`crate::messages::SocketEndpoint`] stands on the wire: each field under its
/// number, in order. Those bytes read back as the message.
pub proof fn law_socket_endpoint_layout(v: SocketEndpointView)
    requires
        v.bytes().len() <= u64::MAX,
    ensures
        v.bytes() == words(0x0a, v.name) + number(0x10, v.port),
        SocketEndpointView::parse(words(0x0a, v.name) + number(0x10, v.port)) == Some(v),
{
    lemma_words(1, v.name);
    lemma_number(2, v.port);
    lemma_fields_bytes_concat(text_field(1, v.name), i32_field(2, v.port));
    let fs = v.fields();
    assert forall|i: int| 0 <= i < fs.len() implies plain(#[trigger] fs[i]) by {
        lemma_field_len(fs, i);
    }
    law_socket_endpoint_round_trip(v);
}

/// Two of them one after the other are one: what comes later counts, and lists
/// add up.
pub proof fn law_socket_endpoint_adds_up(a: Seq<u8>, b: Seq<u8>)
    requires
        SocketEndpointView::parse(a) is Some,
        SocketEndpointView::parse(b) is Some,
    ensures
        ({
            let x = SocketEndpointView::parse(a)->0;
            let y = SocketEndpointView::parse(b)->0;
            SocketEndpointView::parse(a + b) == Some(SocketEndpointView { name: later(x.name, y.name), port: later(x.port, y.port) })
        }),
{
    let fa = parse_fields(a)->0;
    let fb = parse_fields(b)->0;
    lemma_parse_concat(a, b, NESTING as nat);
    lemma_last_of_concat(fa, fb, 1, text_kind());
    lemma_last_of_concat(fa, fb, 2, i32_kind());
}

/// A field with another number than those of the message is passed over. One
/// of the message that is of another kind makes the bytes no message.
pub proof fn law_socket_endpoint_other_fields(f: Field)
    requires
        plain(f),
    ensures
        f.tag > 2 ==> SocketEndpointView::parse(field_bytes(f)) == Some(SocketEndpointView { name: None, port: None }),
        (f.tag == 1 && !(f.value is Bytes)) || (f.tag == 2 && !(f.value is Varint)) ==> SocketEndpointView::parse(field_bytes(f)) is None,
{
    lemma_parse_one(f);
    lemma_one(f, 1, text_kind());
    lemma_one(f, 2, i32_kind());
}

/// How a [`crate::messages::TerminalBuffer`] stands on the wire: each field under its
/// number, in order. Those bytes read back as the message.
pub proof fn law_terminal_buffer_layout(v: TerminalBufferView)
    requires
        v.bytes().len() <= u64::MAX,
    ensures
        v.bytes() == content(0x0a, v.buffer),
        TerminalBufferView::parse(content(0x0a, v.buffer)) == Some(v),
{
    lemma_content(1, v.buffer);
    let fs = v.fields();
    assert forall|i: int| 0 <= i < fs.len() implies plain(#[trigger] fs[i]) by {
        lemma_field_len(fs, i);
    }
    law_terminal_buffer_round_trip(v);
}

/// Two of them one after the other are one: what comes later counts, and lists
/// add up.
pub proof fn law_terminal_buffer_adds_up(a: Seq<u8>, b: Seq<u8>)
    requires
        TerminalBufferView::parse(a) is Some,
        TerminalBufferView::parse(b) is Some,
    ensures
        ({
            let x = TerminalBufferView::parse(a)->0;
            let y = TerminalBufferView::parse(b)->0;
            TerminalBufferView::parse(a + b) == Some(TerminalBufferView { buffer: later(x.buffer, y.buffer) })
        }),
{
    let fa = parse_fields(a)->0;
    let fb = parse_fields(b)->0;
    lemma_parse_concat(a, b, NESTING as nat);
    lemma_last_of_concat(fa, fb, 1, bytes_kind());
}

/// A field with another number than those of the message is passed over. One
/// of the message that is of another kind makes the bytes no message.
pub proof fn law_terminal_buffer_other_fields(f: Field)
    requires
        plain(f),
    ensures
        f.tag > 1 ==> TerminalBufferView::parse(field_bytes(f)) == Some(TerminalBufferView { buffer: None }),
        (f.tag == 1 && !(f.value is Bytes)) ==> TerminalBufferView::parse(field_bytes(f)) is None,
{
    lemma_parse_one(f);
    lemma_one(f, 1, bytes_kind());
}

/// How a [`crate::messages::TerminalInfo`] stands on the wire: each field under its
/// number, in order. Those bytes read back as the message.
pub proof fn law_terminal_info_layout(v: TerminalInfoView)
    requires
        v.bytes().len() <= u64::MAX,
    ensures
        v.bytes() == words(0x0a, v.id) + number(0x10, v.row) + number(0x18, v.column) + number(0x20, v.width) + number(0x28, v.height),
        TerminalInfoView::parse(words(0x0a, v.id) + number(0x10, v.row) + number(0x18, v.column) + number(0x20, v.width) + number(0x28, v.height)) == Some(v),
{
    lemma_words(1, v.id);
    lemma_number(2, v.row);
    lemma_fields_bytes_concat(text_field(1, v.id), i32_field(2, v.row));
    lemma_number(3, v.column);
    lemma_fields_bytes_concat(text_field(1, v.id) + i32_field(2, v.row), i32_field(3, v.column));
    lemma_number(4, v.width);
    lemma_fields_bytes_concat(text_field(1, v.id) + i32_field(2, v.row) + i32_field(3, v.column), i32_field(4, v.width));
    lemma_number(5, v.height);
    lemma_fields_bytes_concat(text_field(1, v.id) + i32_field(2, v.row) + i32_field(3, v.column) + i32_field(4, v.width), i32_field(5, v.height));
    let fs = v.fields();
    assert forall|i: int| 0 <= i < fs.len() implies plain(#[trigger] fs[i]) by {
        lemma_field_len(fs, i);
    }
    law_terminal_info_round_trip(v);
}

/// Two of them one after the other are one: what comes later counts, and lists
/// add up.
pub proof fn law_terminal_info_adds_up(a: Seq<u8>, b: Seq<u8>)
    requires
        TerminalInfoView::parse(a) is Some,
        TerminalInfoView::parse(b) is Some,
    ensures
        ({
            let x = TerminalInfoView::parse(a)->0;
            let y = TerminalInfoView::parse(b)->0;
            TerminalInfoView::parse(a + b) == Some(TerminalInfoView { id: later(x.id, y.id), row: later(x.row, y.row), column: later(x.column, y.column), width: later(x.width, y.width), height: later(x.height, y.height) })
        }),
{
    let fa = parse_fields(a)->0;
    let fb = parse_fields(b)->0;
    lemma_parse_concat(a, b, NESTING as nat);
    lemma_last_of_concat(fa, fb, 1, text_kind());
    lemma_last_of_concat(fa, fb, 2, i32_kind());
    lemma_last_of_concat(fa, fb, 3, i32_kind());
    lemma_last_of_concat(fa, fb, 4, i32_kind());
    lemma_last_of_concat(fa, fb, 5, i32_kind());
}

/// A field with another number than those of the message is passed over. One
/// of the message that is of another kind makes the bytes no message.
pub proof fn law_terminal_info_other_fields(f: Field)
    requires
        plain(f),
    ensures
        f.tag > 5 ==> TerminalInfoView::parse(field_bytes(f)) == Some(TerminalInfoView { id: None, row: None, column: None, width: None, height: None }),
        (f.tag == 1 && !(f.value is Bytes)) || (f.tag == 2 && !(f.value is Varint)) || (f.tag == 3 && !(f.value is Varint)) || (f.tag == 4 && !(f.value is Varint)) || (f.tag == 5 && !(f.value is Varint)) ==> TerminalInfoView::parse(field_bytes(f)) is None,
{
    lemma_parse_one(f);
    lemma_one(f, 1, text_kind());
    lemma_one(f, 2, i32_kind());
    lemma_one(f, 3, i32_kind());
    lemma_one(f, 4, i32_kind());
    lemma_one(f, 5, i32_kind());
}

/// How a [`crate::messages::PortForwardSourceResponse`] stands on the wire: each field under its
/// number, in order. Those bytes read back as the message.
pub proof fn law_port_forward_source_response_layout(v: PortForwardSourceResponseView)
    requires
        v.bytes().len() <= u64::MAX,
    ensures
        v.bytes() == words(0x0a, v.error),
        PortForwardSourceResponseView::parse(words(0x0a, v.error)) == Some(v),
{
    lemma_words(1, v.error);
    let fs = v.fields();
    assert forall|i: int| 0 <= i < fs.len() implies plain(#[trigger] fs[i]) by {
        lemma_field_len(fs, i);
    }
    law_port_forward_source_response_round_trip(v);
}

/// Two of them one after the other are one: what comes later counts, and lists
/// add up.
pub proof fn law_port_forward_source_response_adds_up(a: Seq<u8>, b: Seq<u8>)
    requires
        PortForwardSourceResponseView::parse(a) is Some,
        PortForwardSourceResponseView::parse(b) is Some,
    ensures
        ({
            let x = PortForwardSourceResponseView::parse(a)->0;
            let y = PortForwardSourceResponseView::parse(b)->0;
            PortForwardSourceResponseView::parse(a + b) == Some(PortForwardSourceResponseView { error: later(x.error, y.error) })
        }),
{
    let fa = parse_fields(a)->0;
    let fb = parse_fields(b)->0;
    lemma_parse_concat(a, b, NESTING as nat);
    lemma_last_of_concat(fa, fb, 1, text_kind());
}

/// A field with another number than those of the message is passed over. One
/// of the message that is of another kind makes the bytes no message.
pub proof fn law_port_forward_source_response_other_fields(f: Field)
    requires
        plain(f),
    ensures
        f.tag > 1 ==> PortForwardSourceResponseView::parse(field_bytes(f)) == Some(PortForwardSourceResponseView { error: None }),
        (f.tag == 1 && !(f.value is Bytes)) ==> PortForwardSourceResponseView::parse(field_bytes(f)) is None,
{
    lemma_parse_one(f);
    lemma_one(f, 1, text_kind());
}

/// How a [`crate::messages::PortForwardDestinationResponse`] stands on the wire: each field under its
/// number, in order. Those bytes read back as the message.
pub proof fn law_port_forward_destination_response_layout(v: PortForwardDestinationResponseView)
    requires
        v.bytes().len() <= u64::MAX,
    ensures
        v.bytes() == number(0x08, v.clientfd) + number(0x10, v.socketid) + words(0x1a, v.error),
        PortForwardDestinationResponseView::parse(number(0x08, v.clientfd) + number(0x10, v.socketid) + words(0x1a, v.error)) == Some(v),
{
    lemma_number(1, v.clientfd);
    lemma_number(2, v.socketid);
    lemma_fields_bytes_concat(i32_field(1, v.clientfd), i32_field(2, v.socketid));
    lemma_words(3, v.error);
    lemma_fields_bytes_concat(i32_field(1, v.clientfd) + i32_field(2, v.socketid), text_field(3, v.error));
    let fs = v.fields();
    assert forall|i: int| 0 <= i < fs.len() implies plain(#[trigger] fs[i]) by {
        lemma_field_len(fs, i);
    }
    law_port_forward_destination_response_round_trip(v);
}

/// Two of them one after the other are one: what comes later counts, and lists
/// add up.
pub proof fn law_port_forward_destination_response_adds_up(a: Seq<u8>, b: Seq<u8>)
    requires
        PortForwardDestinationResponseView::parse(a) is Some,
        PortForwardDestinationResponseView::parse(b) is Some,
    ensures
        ({
            let x = PortForwardDestinationResponseView::parse(a)->0;
            let y = PortForwardDestinationResponseView::parse(b)->0;
            PortForwardDestinationResponseView::parse(a + b) == Some(PortForwardDestinationResponseView { clientfd: later(x.clientfd, y.clientfd), socketid: later(x.socketid, y.socketid), error: later(x.error, y.error) })
        }),
{
    let fa = parse_fields(a)->0;
    let fb = parse_fields(b)->0;
    lemma_parse_concat(a, b, NESTING as nat);
    lemma_last_of_concat(fa, fb, 1, i32_kind());
    lemma_last_of_concat(fa, fb, 2, i32_kind());
    lemma_last_of_concat(fa, fb, 3, text_kind());
}

/// A field with another number than those of the message is passed over. One
/// of the message that is of another kind makes the bytes no message.
pub proof fn law_port_forward_destination_response_other_fields(f: Field)
    requires
        plain(f),
    ensures
        f.tag > 3 ==> PortForwardDestinationResponseView::parse(field_bytes(f)) == Some(PortForwardDestinationResponseView { clientfd: None, socketid: None, error: None }),
        (f.tag == 1 && !(f.value is Varint)) || (f.tag == 2 && !(f.value is Varint)) || (f.tag == 3 && !(f.value is Bytes)) ==> PortForwardDestinationResponseView::parse(field_bytes(f)) is None,
{
    lemma_parse_one(f);
    lemma_one(f, 1, i32_kind());
    lemma_one(f, 2, i32_kind());
    lemma_one(f, 3, text_kind());
}

/// How a [`crate::messages::PortForwardData`] stands on the wire: each field under its
/// number, in order. Those bytes read back as the message.
pub proof fn law_port_forward_data_layout(v: PortForwardDataView)
    requires
        v.bytes().len() <= u64::MAX,
    ensures
        v.bytes() == flag(0x08, v.sourcetodestination) + number(0x10, v.socketid) + content(0x1a, v.buffer) + words(0x22, v.error) + flag(0x28, v.closed),
        PortForwardDataView::parse(flag(0x08, v.sourcetodestination) + number(0x10, v.socketid) + content(0x1a, v.buffer) + words(0x22, v.error) + flag(0x28, v.closed)) == Some(v),
{
    lemma_flag(1, v.sourcetodestination);
    lemma_number(2, v.socketid);
    lemma_fields_bytes_concat(bool_field(1, v.sourcetodestination), i32_field(2, v.socketid));
    lemma_content(3, v.buffer);
    lemma_fields_bytes_concat(bool_field(1, v.sourcetodestination) + i32_field(2, v.socketid), bytes_field(3, v.buffer));
    lemma_words(4, v.error);
    lemma_fields_bytes_concat(bool_field(1, v.sourcetodestination) + i32_field(2, v.socketid) + bytes_field(3, v.buffer), text_field(4, v.error));
    lemma_flag(5, v.closed);
    lemma_fields_bytes_concat(bool_field(1, v.sourcetodestination) + i32_field(2, v.socketid) + bytes_field(3, v.buffer) + text_field(4, v.error), bool_field(5, v.closed));
    let fs = v.fields();
    assert forall|i: int| 0 <= i < fs.len() implies plain(#[trigger] fs[i]) by {
        lemma_field_len(fs, i);
    }
    law_port_forward_data_round_trip(v);
}

/// Two of them one after the other are one: what comes later counts, and lists
/// add up.
pub proof fn law_port_forward_data_adds_up(a: Seq<u8>, b: Seq<u8>)
    requires
        PortForwardDataView::parse(a) is Some,
        PortForwardDataView::parse(b) is Some,
    ensures
        ({
            let x = PortForwardDataView::parse(a)->0;
            let y = PortForwardDataView::parse(b)->0;
            PortForwardDataView::parse(a + b) == Some(PortForwardDataView { sourcetodestination: later(x.sourcetodestination, y.sourcetodestination), socketid: later(x.socketid, y.socketid), buffer: later(x.buffer, y.buffer), error: later(x.error, y.error), closed: later(x.closed, y.closed) })
        }),
{
    let fa = parse_fields(a)->0;
    let fb = parse_fields(b)->0;
    lemma_parse_concat(a, b, NESTING as nat);
    lemma_last_of_concat(fa, fb, 1, bool_kind());
    lemma_last_of_concat(fa, fb, 2, i32_kind());
    lemma_last_of_concat(fa, fb, 3, bytes_kind());
    lemma_last_of_concat(fa, fb, 4, text_kind());
    lemma_last_of_concat(fa, fb, 5, bool_kind());
}

/// A field with another number than those of the message is passed over. One
/// of the message that is of another kind makes the bytes no message.
pub proof fn law_port_forward_data_other_fields(f: Field)
    requires
        plain(f),
    ensures
        f.tag > 5 ==> PortForwardDataView::parse(field_bytes(f)) == Some(PortForwardDataView { sourcetodestination: None, socketid: None, buffer: None, error: None, closed: None }),
        (f.tag == 1 && !(f.value is Varint)) || (f.tag == 2 && !(f.value is Varint)) || (f.tag == 3 && !(f.value is Bytes)) || (f.tag == 4 && !(f.value is Bytes)) || (f.tag == 5 && !(f.value is Varint)) ==> PortForwardDataView::parse(field_bytes(f)) is None,
{
    lemma_parse_one(f);
    lemma_one(f, 1, bool_kind());
    lemma_one(f, 2, i32_kind());
    lemma_one(f, 3, bytes_kind());
    lemma_one(f, 4, text_kind());
    lemma_one(f, 5, bool_kind());
}

/// How a [`crate::messages::InitialResponse`] stands on the wire: each field under its
/// number, in order. Those bytes read back as the message.
pub proof fn law_initial_response_layout(v: InitialResponseView)
    requires
        v.bytes().len() <= u64::MAX,
    ensures
        v.bytes() == words(0x0a, v.error),
        InitialResponseView::parse(words(0x0a, v.error)) == Some(v),
{
    lemma_words(1, v.error);
    let fs = v.fields();
    assert forall|i: int| 0 <= i < fs.len() implies plain(#[trigger] fs[i]) by {
        lemma_field_len(fs, i);
    }
    law_initial_response_round_trip(v);
}

/// Two of them one after the other are one: what comes later counts, and lists
/// add up.
pub proof fn law_initial_response_adds_up(a: Seq<u8>, b: Seq<u8>)
    requires
        InitialResponseView::parse(a) is Some,
        InitialResponseView::parse(b) is Some,
    ensures
        ({
            let x = InitialResponseView::parse(a)->0;
            let y = InitialResponseView::parse(b)->0;
            InitialResponseView::parse(a + b) == Some(InitialResponseView { error: later(x.error, y.error) })
        }),
{
    let fa = parse_fields(a)->0;
    let fb = parse_fields(b)->0;
    lemma_parse_concat(a, b, NESTING as nat);
    lemma_last_of_concat(fa, fb, 1, text_kind());
}

/// A field with another number than those of the message is passed over. One
/// of the message that is of another kind makes the bytes no message.
pub proof fn law_initial_response_other_fields(f: Field)
    requires
        plain(f),
    ensures
        f.tag > 1 ==> InitialResponseView::parse(field_bytes(f)) == Some(InitialResponseView { error: None }),
        (f.tag == 1 && !(f.value is Bytes)) ==> InitialResponseView::parse(field_bytes(f)) is None,
{
    lemma_parse_one(f);
    lemma_one(f, 1, text_kind());
}

/// How a [`crate::messages::ConfigParams`] stands on the wire: each field under its
/// number, in order. Those bytes read back as the message.
pub proof fn law_config_params_layout(v: ConfigParamsView)
    requires
        v.bytes().len() <= u64::MAX,
    ensures
        v.bytes() == number(0x08, v.vlevel) + number(0x10, v.minloglevel),
        ConfigParamsView::parse(number(0x08, v.vlevel) + number(0x10, v.minloglevel)) == Some(v),
{
    lemma_number(1, v.vlevel);
    lemma_number(2, v.minloglevel);
    lemma_fields_bytes_concat(i32_field(1, v.vlevel), i32_field(2, v.minloglevel));
    let fs = v.fields();
    assert forall|i: int| 0 <= i < fs.len() implies plain(#[trigger] fs[i]) by {
        lemma_field_len(fs, i);
    }
    law_config_params_round_trip(v);
}

/// Two of them one after the other are one: what comes later counts, and lists
/// add up.
pub proof fn law_config_params_adds_up(a: Seq<u8>, b: Seq<u8>)
    requires
        ConfigParamsView::parse(a) is Some,
        ConfigParamsView::parse(b) is Some,
    ensures
        ({
            let x = ConfigParamsView::parse(a)->0;
            let y = ConfigParamsView::parse(b)->0;
            ConfigParamsView::parse(a + b) == Some(ConfigParamsView { vlevel: later(x.vlevel, y.vlevel), minloglevel: later(x.minloglevel, y.minloglevel) })
        }),
{
    let fa = parse_fields(a)->0;
    let fb = parse_fields(b)->0;
    lemma_parse_concat(a, b, NESTING as nat);
    lemma_last_of_concat(fa, fb, 1, i32_kind());
    lemma_last_of_concat(fa, fb, 2, i32_kind());
}

/// A field with another number than those of the message is passed over. One
/// of the message that is of another kind makes the bytes no message.
pub proof fn law_config_params_other_fields(f: Field)
    requires
        plain(f),
    ensures
        f.tag > 2 ==> ConfigParamsView::parse(field_bytes(f)) == Some(ConfigParamsView { vlevel: None, minloglevel: None }),
        (f.tag == 1 && !(f.value is Varint)) || (f.tag == 2 && !(f.value is Varint)) ==> ConfigParamsView::parse(field_bytes(f)) is None,
{
    lemma_parse_one(f);
    lemma_one(f, 1, i32_kind());
    lemma_one(f, 2, i32_kind());
}

/// How a [`crate::messages::TermInit`] stands on the wire: each field under its
/// number, in order. Those bytes read back as the message.
pub proof fn law_term_init_layout(v: TermInitView)
    requires
        v.bytes().len() <= u64::MAX,
    ensures
        v.bytes() == all_words(0x0a, v.environmentnames) + all_words(0x12, v.environmentvalues),
        TermInitView::parse(all_words(0x0a, v.environmentnames) + all_words(0x12, v.environmentvalues)) == Some(v),
{
    lemma_all_words(1, v.environmentnames);
    lemma_all_words(2, v.environmentvalues);
    lemma_fields_bytes_concat(texts_field(1, v.environmentnames), texts_field(2, v.environmentvalues));
    let fs = v.fields();
    assert forall|i: int| 0 <= i < fs.len() implies plain(#[trigger] fs[i]) by {
        lemma_field_len(fs, i);
    }
    law_term_init_round_trip(v);
}

/// Two of them one after the other are one: what comes later counts, and lists
/// add up.
pub proof fn law_term_init_adds_up(a: Seq<u8>, b: Seq<u8>)
    requires
        TermInitView::parse(a) is Some,
        TermInitView::parse(b) is Some,
    ensures
        ({
            let x = TermInitView::parse(a)->0;
            let y = TermInitView::parse(b)->0;
            TermInitView::parse(a + b) == Some(TermInitView { environmentnames: x.environmentnames + y.environmentnames, environmentvalues: x.environmentvalues + y.environmentvalues })
        }),
{
    let fa = parse_fields(a)->0;
    let fb = parse_fields(b)->0;
    lemma_parse_concat(a, b, NESTING as nat);
    lemma_all_of_concat(fa, fb, 1, text_kind());
    lemma_all_of_concat(fa, fb, 2, text_kind());
}

/// A field with another number than those of the message is passed over. One
/// of the message that is of another kind makes the bytes no message.
pub proof fn law_term_init_other_fields(f: Field)
    requires
        plain(f),
    ensures
        f.tag > 2 ==> TermInitView::parse(field_bytes(f)) == Some(TermInitView { environmentnames: Seq::empty(), environmentvalues: Seq::empty() }),
        (f.tag == 1 && !(f.value is Bytes)) || (f.tag == 2 && !(f.value is Bytes)) ==> TermInitView::parse(field_bytes(f)) is None,
{
    lemma_parse_one(f);
    lemma_one(f, 1, text_kind());
    lemma_one(f, 2, text_kind());
}

/// How a [`crate::messages::TerminalUserInfo`] stands on the wire: each field under its
/// number, in order. Those bytes read back as the message.
pub proof fn law_terminal_user_info_layout(v: TerminalUserInfoView)
    requires
        v.bytes().len() <= u64::MAX,
    ensures
        v.bytes() == words(0x0a, v.id) + words(0x12, v.passkey) + long_number(0x18, v.uid) + long_number(0x20, v.gid) + long_number(0x28, v.fd),
        TerminalUserInfoView::parse(words(0x0a, v.id) + words(0x12, v.passkey) + long_number(0x18, v.uid) + long_number(0x20, v.gid) + long_number(0x28, v.fd)) == Some(v),
{
    lemma_words(1, v.id);
    lemma_words(2, v.passkey);
    lemma_fields_bytes_concat(text_field(1, v.id), text_field(2, v.passkey));
    lemma_long_number(3, v.uid);
    lemma_fields_bytes_concat(text_field(1, v.id) + text_field(2, v.passkey), i64_field(3, v.uid));
    lemma_long_number(4, v.gid);
    lemma_fields_bytes_concat(text_field(1, v.id) + text_field(2, v.passkey) + i64_field(3, v.uid), i64_field(4, v.gid));
    lemma_long_number(5, v.fd);
    lemma_fields_bytes_concat(text_field(1, v.id) + text_field(2, v.passkey) + i64_field(3, v.uid) + i64_field(4, v.gid), i64_field(5, v.fd));
    let fs = v.fields();
    assert forall|i: int| 0 <= i < fs.len() implies plain(#[trigger] fs[i]) by {
        lemma_field_len(fs, i);
    }
    law_terminal_user_info_round_trip(v);
}

/// Two of them one after the other are one: what comes later counts, and lists
/// add up.
pub proof fn law_terminal_user_info_adds_up(a: Seq<u8>, b: Seq<u8>)
    requires
        TerminalUserInfoView::parse(a) is Some,
        TerminalUserInfoView::parse(b) is Some,
    ensures
        ({
            let x = TerminalUserInfoView::parse(a)->0;
            let y = TerminalUserInfoView::parse(b)->0;
            TerminalUserInfoView::parse(a + b) == Some(TerminalUserInfoView { id: later(x.id, y.id), passkey: later(x.passkey, y.passkey), uid: later(x.uid, y.uid), gid: later(x.gid, y.gid), fd: later(x.fd, y.fd) })
        }),
{
    let fa = parse_fields(a)->0;
    let fb = parse_fields(b)->0;
    lemma_parse_concat(a, b, NESTING as nat);
    lemma_last_of_concat(fa, fb, 1, text_kind());
    lemma_last_of_concat(fa, fb, 2, text_kind());
    lemma_last_of_concat(fa, fb, 3, i64_kind());
    lemma_last_of_concat(fa, fb, 4, i64_kind());
    lemma_last_of_concat(fa, fb, 5, i64_kind());
}

/// A field with another number than those of the message is passed over. One
/// of the message that is of another kind makes the bytes no message.
pub proof fn law_terminal_user_info_other_fields(f: Field)
    requires
        plain(f),
    ensures
        f.tag > 5 ==> TerminalUserInfoView::parse(field_bytes(f)) == Some(TerminalUserInfoView { id: None, passkey: None, uid: None, gid: None, fd: None }),
        (f.tag == 1 && !(f.value is Bytes)) || (f.tag == 2 && !(f.value is Bytes)) || (f.tag == 3 && !(f.value is Varint)) || (f.tag == 4 && !(f.value is Varint)) || (f.tag == 5 && !(f.value is Varint)) ==> TerminalUserInfoView::parse(field_bytes(f)) is None,
{
    lemma_parse_one(f);
    lemma_one(f, 1, text_kind());
    lemma_one(f, 2, text_kind());
    lemma_one(f, 3, i64_kind());
    lemma_one(f, 4, i64_kind());
    lemma_one(f, 5, i64_kind());
}

/// How a [`crate::messages::PortForwardSourceRequest`] stands on the wire: each field under its
/// number, in order. Those bytes read back as the message.
pub proof fn law_port_forward_source_request_layout(v: PortForwardSourceRequestView)
    requires
        v.bytes().len() <= u64::MAX,
    ensures
        v.bytes() == place(0x0a, v.source) + place(0x12, v.destination) + words(0x1a, v.environmentvariable),
        PortForwardSourceRequestView::parse(place(0x0a, v.source) + place(0x12, v.destination) + words(0x1a, v.environmentvariable)) == Some(v),
{
    lemma_place(1, v.source);
    lemma_place(2, v.destination);
    lemma_fields_bytes_concat(endpoint_field(1, v.source), endpoint_field(2, v.destination));
    lemma_words(3, v.environmentvariable);
    lemma_fields_bytes_concat(endpoint_field(1, v.source) + endpoint_field(2, v.destination), text_field(3, v.environmentvariable));
    let fs = v.fields();
    assert forall|i: int| 0 <= i < fs.len() implies plain(#[trigger] fs[i]) by {
        lemma_field_len(fs, i);
    }
    law_port_forward_source_request_round_trip(v, 0);
}

/// Two of them one after the other are one: what comes later counts, and lists
/// add up.
pub proof fn law_port_forward_source_request_adds_up(a: Seq<u8>, b: Seq<u8>)
    requires
        PortForwardSourceRequestView::parse(a) is Some,
        PortForwardSourceRequestView::parse(b) is Some,
    ensures
        ({
            let x = PortForwardSourceRequestView::parse(a)->0;
            let y = PortForwardSourceRequestView::parse(b)->0;
            PortForwardSourceRequestView::parse(a + b) == Some(PortForwardSourceRequestView { source: later_place(x.source, y.source), destination: later_place(x.destination, y.destination), environmentvariable: later(x.environmentvariable, y.environmentvariable) })
        }),
{
    let fa = parse_fields(a)->0;
    let fb = parse_fields(b)->0;
    lemma_parse_concat(a, b, NESTING as nat);
    lemma_endpoint_concat(fa, fb, 1, NESTING as nat);
    lemma_endpoint_concat(fa, fb, 2, NESTING as nat);
    lemma_last_of_concat(fa, fb, 3, text_kind());
}

/// A field with another number than those of the message is passed over. One
/// of the message that is of another kind makes the bytes no message.
pub proof fn law_port_forward_source_request_other_fields(f: Field)
    requires
        plain(f),
    ensures
        f.tag > 3 ==> PortForwardSourceRequestView::parse(field_bytes(f)) == Some(PortForwardSourceRequestView { source: None, destination: None, environmentvariable: None }),
        (f.tag == 1 && !(f.value is Bytes)) || (f.tag == 2 && !(f.value is Bytes)) || (f.tag == 3 && !(f.value is Bytes)) ==> PortForwardSourceRequestView::parse(field_bytes(f)) is None,
{
    lemma_parse_one(f);
    lemma_one(f, 1, bytes_kind());
    lemma_one(f, 2, bytes_kind());
    lemma_one(f, 3, text_kind());
}

/// How a [`crate::messages::PortForwardDestinationRequest`] stands on the wire: each field under its
/// number, in order. Those bytes read back as the message.
pub proof fn law_port_forward_destination_request_layout(v: PortForwardDestinationRequestView)
    requires
        v.bytes().len() <= u64::MAX,
    ensures
        v.bytes() == place(0x0a, v.destination) + number(0x10, v.fd),
        PortForwardDestinationRequestView::parse(place(0x0a, v.destination) + number(0x10, v.fd)) == Some(v),
{
    lemma_place(1, v.destination);
    lemma_number(2, v.fd);
    lemma_fields_bytes_concat(endpoint_field(1, v.destination), i32_field(2, v.fd));
    let fs = v.fields();
    assert forall|i: int| 0 <= i < fs.len() implies plain(#[trigger] fs[i]) by {
        lemma_field_len(fs, i);
    }
    law_port_forward_destination_request_round_trip(v);
}

/// Two of them one after the other are one: what comes later counts, and lists
/// add up.
pub proof fn law_port_forward_destination_request_adds_up(a: Seq<u8>, b: Seq<u8>)
    requires
        PortForwardDestinationRequestView::parse(a) is Some,
        PortForwardDestinationRequestView::parse(b) is Some,
    ensures
        ({
            let x = PortForwardDestinationRequestView::parse(a)->0;
            let y = PortForwardDestinationRequestView::parse(b)->0;
            PortForwardDestinationRequestView::parse(a + b) == Some(PortForwardDestinationRequestView { destination: later_place(x.destination, y.destination), fd: later(x.fd, y.fd) })
        }),
{
    let fa = parse_fields(a)->0;
    let fb = parse_fields(b)->0;
    lemma_parse_concat(a, b, NESTING as nat);
    lemma_endpoint_concat(fa, fb, 1, NESTING as nat);
    lemma_last_of_concat(fa, fb, 2, i32_kind());
}

/// A field with another number than those of the message is passed over. One
/// of the message that is of another kind makes the bytes no message.
pub proof fn law_port_forward_destination_request_other_fields(f: Field)
    requires
        plain(f),
    ensures
        f.tag > 2 ==> PortForwardDestinationRequestView::parse(field_bytes(f)) == Some(PortForwardDestinationRequestView { destination: None, fd: None }),
        (f.tag == 1 && !(f.value is Bytes)) || (f.tag == 2 && !(f.value is Varint)) ==> PortForwardDestinationRequestView::parse(field_bytes(f)) is None,
{
    lemma_parse_one(f);
    lemma_one(f, 1, bytes_kind());
    lemma_one(f, 2, i32_kind());
}

/// How a [`crate::messages::InitialPayload`] stands on the wire: each field under its
/// number, in order. Those bytes read back as the message.
pub proof fn law_initial_payload_layout(v: InitialPayloadView)
    requires
        v.bytes().len() <= u64::MAX,
        ascending(v.environmentvariables),
    ensures
        v.bytes() == flag(0x08, v.jumphost) + places(0x12, v.reversetunnels) + variables(0x1a, v.environmentvariables),
        InitialPayloadView::parse(flag(0x08, v.jumphost) + places(0x12, v.reversetunnels) + variables(0x1a, v.environmentvariables)) == Some(v),
{
    lemma_flag(1, v.jumphost);
    lemma_places(2, v.reversetunnels);
    lemma_fields_bytes_concat(bool_field(1, v.jumphost), requests_field(2, v.reversetunnels));
    lemma_variables(3, v.environmentvariables);
    lemma_fields_bytes_concat(bool_field(1, v.jumphost) + requests_field(2, v.reversetunnels), env_field(3, v.environmentvariables));
    let fs = v.fields();
    assert forall|i: int| 0 <= i < fs.len() implies plain(#[trigger] fs[i]) by {
        lemma_field_len(fs, i);
    }
    law_initial_payload_round_trip(v);
}

/// Two of them one after the other are one: what comes later counts, and lists
/// add up.
pub proof fn law_initial_payload_adds_up(a: Seq<u8>, b: Seq<u8>)
    requires
        InitialPayloadView::parse(a) is Some,
        InitialPayloadView::parse(b) is Some,
    ensures
        ({
            let x = InitialPayloadView::parse(a)->0;
            let y = InitialPayloadView::parse(b)->0;
            let z = InitialPayloadView::parse(a + b)->0;
            &&& InitialPayloadView::parse(a + b) is Some
            &&& z.jumphost == later(x.jumphost, y.jumphost)
            &&& z.reversetunnels == x.reversetunnels + y.reversetunnels
            &&& ascending(z.environmentvariables)
            &&& forall|k: Seq<char>| #[trigger]
                var_in(z.environmentvariables, k) == later(
                    var_in(x.environmentvariables, k),
                    var_in(y.environmentvariables, k),
                )
        }),
{
    let fa = parse_fields(a)->0;
    let fb = parse_fields(b)->0;
    lemma_parse_concat(a, b, NESTING as nat);
    lemma_last_of_concat(fa, fb, 1, bool_kind());
    lemma_all_of_concat(fa, fb, 2, request_kind());
    lemma_all_of_concat(fa, fb, 3, entry_kind());
    lemma_collect_concat(
        all_of(fa, 3, entry_kind())->0,
        all_of(fb, 3, entry_kind())->0,
    );
}

/// A field with another number than those of the message is passed over. One
/// of the message that is of another kind makes the bytes no message.
pub proof fn law_initial_payload_other_fields(f: Field)
    requires
        plain(f),
    ensures
        f.tag > 3 ==> InitialPayloadView::parse(field_bytes(f)) == Some(InitialPayloadView { jumphost: None, reversetunnels: Seq::empty(), environmentvariables: Seq::empty() }),
        (f.tag == 1 && !(f.value is Varint)) || (f.tag == 2 && !(f.value is Bytes)) || (f.tag == 3 && !(f.value is Bytes)) ==> InitialPayloadView::parse(field_bytes(f)) is None,
{
    lemma_parse_one(f);
    lemma_one(f, 1, bool_kind());
    lemma_one(f, 2, request_kind());
    lemma_one(f, 3, entry_kind());
}

proof fn lemma_varint_size(v: nat, k: nat)
    requires
        k <= 9,
        v < varint_limit(k),
    ensures
        1 <= varint_bytes(v).len() <= 10 - k,
    decreases v,
{
    reveal_with_fuel(varint_limit, 2);
    if v >= 128 {
        lemma_varint_size(v / 128, k + 1);
    }
}

/// An integer takes ten bytes at most.
pub proof fn law_varint_size(v: nat)
    requires
        v <= u64::MAX,
    ensures
        1 <= varint_bytes(v).len() <= 10,
{
    lemma_varint_limit();
    lemma_varint_size(v, 0);
}

/// What surrounds shell input or output takes eleven bytes at most.
pub proof fn law_terminal_buffer_size(v: TerminalBufferView, data: Seq<u8>)
    requires
        v.buffer == Some(data),
        data.len() <= u64::MAX,
    ensures
        v.bytes().len() <= data.len() + 11,
{
    lemma_content(1, Some(data));
    law_varint_size(data.len());
}

/// A window size is a short message.
pub proof fn law_terminal_info_size(v: TerminalInfoView)
    requires
        v.id == Some(Seq::<char>::empty()),
    ensures
        v.bytes().len() <= 48,
{
    lemma_words(1, v.id);
    lemma_number(2, v.row);
    lemma_fields_bytes_concat(text_field(1, v.id), i32_field(2, v.row));
    lemma_number(3, v.column);
    lemma_fields_bytes_concat(text_field(1, v.id) + i32_field(2, v.row), i32_field(3, v.column));
    lemma_number(4, v.width);
    lemma_fields_bytes_concat(
        text_field(1, v.id) + i32_field(2, v.row) + i32_field(3, v.column),
        i32_field(4, v.width),
    );
    lemma_number(5, v.height);
    lemma_fields_bytes_concat(
        text_field(1, v.id) + i32_field(2, v.row) + i32_field(3, v.column) + i32_field(4, v.width),
        i32_field(5, v.height),
    );
    assert(encode_utf8(Seq::<char>::empty()).len() == 0);
    law_varint_size(0);
    lemma_number_size(0x10, v.row);
    lemma_number_size(0x18, v.column);
    lemma_number_size(0x20, v.width);
    lemma_number_size(0x28, v.height);
}

proof fn lemma_number_size(key: u8, v: Option<i32>)
    ensures
        number(key, v).len() <= 11,
{
    if let Some(n) = v {
        law_varint_size(as_wire(n as int));
    }
}

/// The bytes of a reply without words: one key and the number of its status.
pub proof fn law_status_layout(v: ConnectResponseView, s: ConnectStatus)
    requires
        v.status == Some(s.code()),
        v.error is None,
    ensures
        v.bytes() == match s {
            ConnectStatus::NewClient => seq![0x08u8, 1u8],
            ConnectStatus::ReturningClient => seq![0x08u8, 2u8],
            ConnectStatus::InvalidKey => seq![0x08u8, 3u8],
            ConnectStatus::MismatchedProtocol => seq![0x08u8, 4u8],
        },
        ConnectStatus::of_code(s.code()) == Some(s),
{
    lemma_number(1, v.status);
    lemma_words(2, v.error);
    lemma_fields_bytes_concat(i32_field(1, v.status), text_field(2, v.error));
    assert(fields_bytes(Seq::<Field>::empty()) =~= Seq::<u8>::empty());
    assert(varint_bytes(s.code() as nat) =~= seq![s.code() as u8]);
    assert(v.bytes() =~= seq![0x08u8, s.code() as u8]);
}

/// What surrounds the words of a reply is short.
pub proof fn law_connect_response_size(v: ConnectResponseView, n: nat)
    requires
        v.error matches Some(e) ==> encode_utf8(e).len() <= n,
        n <= u64::MAX,
    ensures
        v.bytes().len() <= n + 22,
{
    lemma_number(1, v.status);
    lemma_words(2, v.error);
    lemma_fields_bytes_concat(i32_field(1, v.status), text_field(2, v.error));
    lemma_number_size(0x08, v.status);
    if let Some(e) = v.error {
        law_varint_size(encode_utf8(e).len());
    }
}

/// What surrounds the words of an answer to an initial payload is short.
pub proof fn law_initial_response_size(v: InitialResponseView, n: nat)
    requires
        v.error matches Some(e) ==> encode_utf8(e).len() <= n,
        n <= u64::MAX,
    ensures
        v.bytes().len() <= n + 11,
{
    lemma_words(1, v.error);
    if let Some(e) = v.error {
        law_varint_size(encode_utf8(e).len());
    }
}

proof fn lemma_one_number(tag: u32, v: u64)
    requires
        1 <= tag <= 15,
    ensures
        ({
            let b = seq![(tag * 8) as u8] + varint_bytes(v as nat);
            let fs = seq![Field { tag, value: Value::Varint(v) }];
            parse_fields(b) == Some(fs)
        }),
{
    let f = Field { tag, value: Value::Varint(v) };
    lemma_single(f);
    lemma_parse_one(f);
    assert(field_bytes(f) =~= seq![(tag * 8) as u8] + varint_bytes(v as nat));
}

/// A number that is too large for its field keeps its low 32 bits, of which the
/// top one is the sign.
pub proof fn law_numbers_keep_their_low_bits(v: u64)
    ensures
        ({
            let r = SequenceHeaderView::parse(seq![0x08u8] + varint_bytes(v as nat));
            let low = v as int % 0x1_0000_0000;
            &&& r is Some
            &&& r->0.sequence_number is Some
            &&& r->0.sequence_number->0 == if low < 0x8000_0000 {
                low
            } else {
                low - 0x1_0000_0000
            }
        }),
{
    lemma_one_number(1, v);
    let f = Field { tag: 1, value: Value::Varint(v) };
    lemma_one(f, 1, i32_kind());
    reveal(last_of);
}

/// A long number keeps all its 64 bits, of which the top one is the sign.
pub proof fn law_long_numbers_keep_their_bits(v: u64)
    ensures
        ({
            let r = TerminalUserInfoView::parse(seq![0x18u8] + varint_bytes(v as nat));
            &&& r is Some
            &&& r->0.uid is Some
            &&& r->0.uid->0 == if v < 0x8000_0000_0000_0000 {
                v as int
            } else {
                v - 0x1_0000_0000_0000_0000
            }
            &&& r->0.gid is None && r->0.fd is None && r->0.id is None && r->0.passkey is None
        }),
{
    lemma_one_number(3, v);
    let f = Field { tag: 3, value: Value::Varint(v) };
    lemma_one(f, 1, text_kind());
    lemma_one(f, 2, text_kind());
    lemma_one(f, 3, i64_kind());
    lemma_one(f, 4, i64_kind());
    lemma_one(f, 5, i64_kind());
    reveal(last_of);
}

/// A yes is any number but zero.
pub proof fn law_flags_are_numbers(v: u64)
    ensures
        ({
            let r = PortForwardDataView::parse(seq![0x08u8] + varint_bytes(v as nat));
            &&& r is Some
            &&& r->0.sourcetodestination == Some(v != 0)
        }),
{
    lemma_one_number(1, v);
    let f = Field { tag: 1, value: Value::Varint(v) };
    lemma_one(f, 1, bool_kind());
    lemma_one(f, 2, i32_kind());
    lemma_one(f, 3, bytes_kind());
    lemma_one(f, 4, text_kind());
    lemma_one(f, 5, bool_kind());
    reveal(last_of);
}

/// A status that there is not counts as none, and the words of the reply stay.
pub proof fn law_unknown_status(v: ConnectResponseView, n: i32)
    requires
        v.status == Some(n),
        v.bytes().len() <= u64::MAX,
    ensures
        ({
            let r = ConnectResponseView::parse(v.bytes());
            &&& r is Some
            &&& r->0.error == v.error
            &&& 1 <= n <= 4 ==> r->0.status == Some(n)
            &&& !(1 <= n <= 4) ==> r->0.status is None
        }),
{
    law_connect_response_layout(v);
}

/// A number may be written with a group more than it needs: it reads the same,
/// and takes a byte more.
pub proof fn law_padded_numbers(v: u8, rest: Seq<u8>)
    requires
        v < 128,
    ensures
        varint(seq![(v + 128) as u8, 0u8] + rest) == Some((v as nat, 2int)),
        varint(seq![v] + rest) == Some((v as nat, 1int)),
        varint(seq![(v + 128) as u8]) is None,
{
    reveal_with_fuel(crate::wire::varint_from, 3);
    let b = seq![(v + 128) as u8, 0u8] + rest;
    assert(b.skip(1) =~= seq![0u8] + rest);
    assert(seq![(v + 128) as u8].skip(1) =~= Seq::<u8>::empty());
}

proof fn lemma_one_text(tag: u32, t: Seq<char>)
    requires
        1 <= tag <= 15,
        encode_utf8(t).len() <= 0x7fff_ffff,
    ensures
        parse_fields(words((tag * 8 + 2) as u8, Some(t))) == Some(
            seq![Field { tag, value: Value::Bytes(encode_utf8(t)) }],
        ),
        words((tag * 8 + 2) as u8, Some(t)).len() <= 0x1_0000_0000,
{
    let f = Field { tag, value: Value::Bytes(encode_utf8(t)) };
    lemma_words(tag, Some(t));
    lemma_single(f);
    lemma_parse_one(f);
    law_varint_size(encode_utf8(t).len());
    assert(field_bytes(f) =~= words((tag * 8 + 2) as u8, Some(t)));
}

/// A variable without a name has an empty one, and one without a value an empty
/// one.
pub proof fn law_partial_variables(name: Seq<char>, value: Seq<char>)
    requires
        encode_utf8(name).len() <= 0x7fff_ffff,
        encode_utf8(value).len() <= 0x7fff_ffff,
    ensures
        ({
            let a = InitialPayloadView::parse(content(0x1a, Some(words(0x0a, Some(name)))));
            let b = InitialPayloadView::parse(content(0x1a, Some(words(0x12, Some(value)))));
            &&& a is Some
            &&& a->0.environmentvariables == seq![(name, Seq::<char>::empty())]
            &&& b is Some
            &&& b->0.environmentvariables == seq![(Seq::<char>::empty(), value)]
        }),
{
    lemma_one_text(1, name);
    lemma_one_text(2, value);
    lemma_one_variable(words(0x0a, Some(name)), name, Seq::empty());
    lemma_one_variable(words(0x12, Some(value)), Seq::empty(), value);
}

proof fn lemma_one_variable(body: Seq<u8>, name: Seq<char>, value: Seq<char>)
    requires
        body.len() <= 0x1_0000_0000,
        parse_fields(body) matches Some(fs) && fs.len() == 1 && {
            ||| fs[0] == (Field { tag: 1, value: Value::Bytes(encode_utf8(name)) }) && value
                == Seq::<char>::empty()
            ||| fs[0] == (Field { tag: 2, value: Value::Bytes(encode_utf8(value)) }) && name
                == Seq::<char>::empty()
        },
    ensures
        ({
            let a = InitialPayloadView::parse(content(0x1a, Some(body)));
            a is Some && a->0.environmentvariables == seq![(name, value)]
        }),
{
    broadcast use vstd::utf8::group_utf8_lib;

    let inner = parse_fields(body)->0;
    assert(inner =~= seq![inner[0]]);
    lemma_one(inner[0], 1, text_kind());
    lemma_one(inner[0], 2, text_kind());
    reveal(last_of);
    vstd::utf8::encode_utf8_valid_utf8(name);
    vstd::utf8::encode_utf8_decode_utf8(name);
    vstd::utf8::encode_utf8_valid_utf8(value);
    vstd::utf8::encode_utf8_decode_utf8(value);
    assert(crate::messages::as_entry(Value::Bytes(body)) == Some((name, value)));
    let f = Field { tag: 3, value: Value::Bytes(body) };
    lemma_single(f);
    lemma_parse_one(f);
    assert(field_bytes(f) =~= content(0x1a, Some(body)));
    lemma_one(f, 1, bool_kind());
    lemma_one(f, 2, request_kind());
    lemma_one(f, 3, entry_kind());
    let e = seq![(name, value)];
    assert(e.drop_last() =~= Seq::<Var>::empty());
    assert(collect(e.drop_last()) =~= Seq::<Var>::empty());
    assert(collect(e) =~= e);
}

} // verus!
