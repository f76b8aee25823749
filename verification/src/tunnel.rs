//! Tunnel arguments: `src:dst` pairs of ports or port ranges, and
//! `bind:port:host:hostport` quadruples, separated by commas.

use vstd::prelude::*;
use crate::messages::{
    requests, PortForwardSourceRequest, PortForwardSourceRequestView, SocketEndpoint,
    SocketEndpointView,
};
use crate::text::{
    chars_of, copy_text, decimal, decimal_int, decimal_int_text, has_char, is_digit, join,
    law_decimal_has_only, law_decimal_reads_back, law_join_of_split, law_split_adds_up,
    law_split_of_join, law_trim_ignores_blanks, law_trim_keeps, number_within, parse_i64, pieces,
    split, split_at_char, string_of, trim, trimmed, white,
};

verus! {

/// Why a tunnel argument was refused.
#[derive(Clone, Debug, PartialEq, Eq)]
pub enum TunnelParseError {
    MissingDestination,
    RangeLengthMismatch,
    HalfRange,
    Invalid(String, String),
    PortOutOfRange(i64),
    UnsupportedSocket(String),
}

/// What a refusal says.
pub enum TunnelFault {
    MissingDestination,
    RangeLengthMismatch,
    HalfRange,
    Invalid(Seq<char>, Seq<char>),
    PortOutOfRange(i64),
    UnsupportedSocket(Seq<char>),
}

impl View for TunnelParseError {
    type V = TunnelFault;

    open spec fn view(&self) -> TunnelFault {
        match self {
            TunnelParseError::MissingDestination => TunnelFault::MissingDestination,
            TunnelParseError::RangeLengthMismatch => TunnelFault::RangeLengthMismatch,
            TunnelParseError::HalfRange => TunnelFault::HalfRange,
            TunnelParseError::Invalid(a, b) => TunnelFault::Invalid(a@, b@),
            TunnelParseError::PortOutOfRange(n) => TunnelFault::PortOutOfRange(*n),
            TunnelParseError::UnsupportedSocket(s) => TunnelFault::UnsupportedSocket(s@),
        }
    }
}

impl TunnelParseError {
    /// The error in words.
    pub fn message(&self) -> (res: String)
        ensures
            res@ == match self@ {
                TunnelFault::MissingDestination =>
                    "tunnel argument must have source and destination between a ':'"@,
                TunnelFault::RangeLengthMismatch =>
                    "source/destination port range must have same length"@,
                TunnelFault::HalfRange =>
                    "invalid port range syntax: if source is a range, destination must be a range (and vice versa)"@,
                TunnelFault::Invalid(a, b) => "invalid tunnel argument '"@ + a + "': "@ + b,
                TunnelFault::PortOutOfRange(n) => "port "@ + decimal_int(n as int)
                    + " is out of range (must be 0-65535)"@,
                TunnelFault::UnsupportedSocket(s) => "unix-socket forwarding ('"@ + s
                    + "') is not supported in this build"@,
            },
    {
        match self {
            TunnelParseError::MissingDestination => {
                "tunnel argument must have source and destination between a ':'".to_owned()
            },
            TunnelParseError::RangeLengthMismatch => {
                "source/destination port range must have same length".to_owned()
            },
            TunnelParseError::HalfRange => {
                "invalid port range syntax: if source is a range, destination must be a range (and vice versa)".to_owned()
            },
            TunnelParseError::Invalid(a, b) => {
                let mut s = "invalid tunnel argument '".to_owned();
                s.append(a.as_str());
                s.append("': ");
                s.append(b.as_str());
                s
            },
            TunnelParseError::PortOutOfRange(n) => {
                let mut s = "port ".to_owned();
                s.append(decimal_int_text(*n).as_str());
                s.append(" is out of range (must be 0-65535)");
                s
            },
            TunnelParseError::UnsupportedSocket(p) => {
                let mut s = "unix-socket forwarding ('".to_owned();
                s.append(p.as_str());
                s.append("') is not supported in this build");
                s
            },
        }
    }
}

// ---------------------------------------------------------------------------
// What an argument means
// ---------------------------------------------------------------------------

/// A local request: listen on a port of the local host, and lead to a port.
pub open spec fn local_request(from: i32, to: i32) -> PortForwardSourceRequestView {
    PortForwardSourceRequestView {
        source: Some(SocketEndpointView { name: Some("localhost"@), port: Some(from) }),
        destination: Some(SocketEndpointView { name: None, port: Some(to) }),
        environmentvariable: None,
    }
}

/// A request with both hosts named.
pub open spec fn named_request(
    bind: Seq<char>,
    from: i32,
    host: Seq<char>,
    to: i32,
) -> PortForwardSourceRequestView {
    PortForwardSourceRequestView {
        source: Some(SocketEndpointView { name: Some(bind), port: Some(from) }),
        destination: Some(SocketEndpointView { name: Some(host), port: Some(to) }),
        environmentvariable: None,
    }
}

/// Whether a part names a socket path.
pub open spec fn socket_path(s: Seq<char>) -> bool {
    s.len() > 0 && s[0] == '/'
}

/// Whether a part is made of digits and dashes.
pub open spec fn port_like(s: Seq<char>) -> bool {
    s.len() > 0 && forall|i: int| 0 <= i < s.len() ==> is_digit(#[trigger] s[i]) || s[i] == '-'
}

/// The port that a text denotes.
pub open spec fn port_of(s: Seq<char>, input: Seq<char>) -> Result<i32, TunnelFault> {
    match number_within(s, true, i64::MIN as int, i64::MAX as int) {
        None => Err(TunnelFault::Invalid(input, "bad port"@)),
        Some(n) => if 0 <= n <= 65535 {
            Ok(n as i32)
        } else {
            Err(TunnelFault::PortOutOfRange(n as i64))
        },
    }
}

/// The requests of two ranges, pairwise; none when the ranges run downward.
pub open spec fn range_requests(a: i32, b: i32, c: i32) -> Seq<PortForwardSourceRequestView> {
    Seq::new(
        if b >= a {
            (b - a + 1) as nat
        } else {
            0
        },
        |i: int| local_request((a + i) as i32, (c + i) as i32),
    )
}

/// What a pair of ranges means.
pub open spec fn range_pair(src: Seq<char>, dst: Seq<char>, input: Seq<char>) -> Result<
    Seq<PortForwardSourceRequestView>,
    TunnelFault,
> {
    let s = split(src, '-');
    let d = split(dst, '-');
    if s.len() != 2 || d.len() != 2 {
        Err(TunnelFault::Invalid(input, "bad range"@))
    } else {
        match port_of(s[0], input) {
            Err(e) => Err(e),
            Ok(a) => match port_of(s[1], input) {
                Err(e) => Err(e),
                Ok(b) => match port_of(d[0], input) {
                    Err(e) => Err(e),
                    Ok(c) => match port_of(d[1], input) {
                        Err(e) => Err(e),
                        Ok(f) => if b - a != f - c {
                            Err(TunnelFault::RangeLengthMismatch)
                        } else {
                            Ok(range_requests(a, b, c))
                        },
                    },
                },
            },
        }
    }
}

/// What the parts of a pair mean.
pub open spec fn pair(parts: Seq<Seq<char>>, input: Seq<char>) -> Result<
    Seq<PortForwardSourceRequestView>,
    TunnelFault,
> {
    if parts.len() < 2 {
        Err(TunnelFault::MissingDestination)
    } else {
        let src = parts[0];
        let dst = parts[1];
        if socket_path(src) {
            Err(TunnelFault::UnsupportedSocket(src))
        } else if socket_path(dst) && port_like(src) {
            Err(TunnelFault::UnsupportedSocket(dst))
        } else if !port_like(src) && !port_like(dst) && src.len() > 0 {
            Err(TunnelFault::UnsupportedSocket(src + ":"@ + dst))
        } else if src.contains('-') && dst.contains('-') {
            range_pair(src, dst, input)
        } else if src.contains('-') || dst.contains('-') {
            Err(TunnelFault::HalfRange)
        } else {
            match port_of(src, input) {
                Err(e) => Err(e),
                Ok(a) => match port_of(dst, input) {
                    Err(e) => Err(e),
                    Ok(b) => Ok(seq![local_request(a, b)]),
                },
            }
        }
    }
}

/// The parts of a quadruple: what stands between colons outside of brackets,
/// without the brackets.
pub open spec fn bracket_split(s: Seq<char>, inside: bool, current: Seq<char>) -> Seq<Seq<char>>
    decreases s.len(),
{
    if s.len() == 0 {
        seq![current]
    } else if s[0] == '[' {
        bracket_split(s.skip(1), true, current)
    } else if s[0] == ']' {
        bracket_split(s.skip(1), false, current)
    } else if s[0] == ':' && !inside {
        seq![current] + bracket_split(s.skip(1), inside, Seq::empty())
    } else {
        bracket_split(s.skip(1), inside, current.push(s[0]))
    }
}

/// The four parts of a quadruple.
pub open spec fn quadruple(s: Seq<char>) -> Result<Seq<Seq<char>>, TunnelFault> {
    let parts = bracket_split(s, false, Seq::empty());
    if parts.len() < 4 {
        Err(
            TunnelFault::Invalid(
                s,
                "the 4 part ssh-style tunneling arg (bind_address:port:host:hostport) must be supplied"@,
            ),
        )
    } else if parts.len() > 4 {
        Err(
            TunnelFault::Invalid(
                s,
                "ipv6 addresses must be inside of square brackets, ie [::1]:8080:[::]:9090"@,
            ),
        )
    } else {
        Ok(parts)
    }
}

/// What one element of an argument means.
pub open spec fn element(e: Seq<char>, input: Seq<char>) -> Result<
    Seq<PortForwardSourceRequestView>,
    TunnelFault,
> {
    if e.len() == 0 {
        Ok(Seq::empty())
    } else {
        let parts = split(e, ':');
        if parts.len() <= 2 {
            pair(parts, input)
        } else {
            match quadruple(e) {
                Err(f) => Err(f),
                Ok(q) => match port_of(q[1], input) {
                    Err(f) => Err(f),
                    Ok(a) => match port_of(q[3], input) {
                        Err(f) => Err(f),
                        Ok(b) => Ok(seq![named_request(q[0], a, q[2], b)]),
                    },
                },
            }
        }
    }
}

/// What a list of elements means; the first refusal counts.
pub open spec fn elements(es: Seq<Seq<char>>, input: Seq<char>) -> Result<
    Seq<PortForwardSourceRequestView>,
    TunnelFault,
>
    decreases es.len(),
{
    if es.len() == 0 {
        Ok(Seq::empty())
    } else {
        match elements(es.drop_last(), input) {
            Err(f) => Err(f),
            Ok(before) => match element(trim(es.last()), input) {
                Err(f) => Err(f),
                Ok(more) => Ok(before + more),
            },
        }
    }
}

/// What a tunnel argument means.
pub open spec fn ranges(input: Seq<char>) -> Result<
    Seq<PortForwardSourceRequestView>,
    TunnelFault,
> {
    elements(split(input, ','), input)
}

/// Whether `res` is `want`.
pub open spec fn agrees(
    res: Result<Vec<PortForwardSourceRequest>, TunnelParseError>,
    want: Result<Seq<PortForwardSourceRequestView>, TunnelFault>,
) -> bool {
    match (res, want) {
        (Ok(v), Ok(w)) => requests(v@) == w,
        (Err(e), Err(f)) => e@ == f,
        _ => false,
    }
}

// ---------------------------------------------------------------------------
// Parsing
// ---------------------------------------------------------------------------

/// Whether a part names a socket path.
pub fn is_socket_path(s: &[char]) -> (res: bool)
    ensures
        res == socket_path(s@),
{
    s.len() > 0 && s[0] == '/'
}

/// Whether a part is made of digits and dashes.
pub fn numeric_or_range(s: &[char]) -> (res: bool)
    ensures
        res == port_like(s@),
{
    if s.len() == 0 {
        return false;
    }
    let mut i: usize = 0;
    while i < s.len()
        invariant
            i <= s@.len(),
            forall|k: int| 0 <= k < i ==> is_digit(#[trigger] s@[k]) || s@[k] == '-',
        decreases s@.len() - i,
    {
        let c = s[i];
        if !(('0' <= c && c <= '9') || c == '-') {
            assert(!(is_digit(s@[i as int]) || s@[i as int] == '-'));
            return false;
        }
        i += 1;
    }
    true
}

fn invalid(input: &str, why: &str) -> (res: TunnelParseError)
    ensures
        res@ == TunnelFault::Invalid(input@, why@),
{
    TunnelParseError::Invalid(copy_text(input), copy_text(why))
}

/// The port that a text denotes.
pub fn parse_port(v: &[char], input: &str) -> (res: Result<i32, TunnelParseError>)
    ensures
        match res {
            Ok(p) => port_of(v@, input@) == Ok::<i32, TunnelFault>(p) && 0 <= p <= 65535,
            Err(e) => port_of(v@, input@) == Err::<i32, TunnelFault>(e@),
        },
{
    match parse_i64(v) {
        None => Err(invalid(input, "bad port")),
        Some(n) => {
            if n < 0 || n > 65535 {
                Err(TunnelParseError::PortOutOfRange(n))
            } else {
                Ok(n as i32)
            }
        },
    }
}

/// An endpoint.
pub fn endpoint(name: Option<&str>, port: Option<i32>) -> (res: SocketEndpoint)
    ensures
        res@ == (SocketEndpointView {
            name: match name {
                Some(n) => Some(n@),
                None => None,
            },
            port,
        }),
{
    SocketEndpoint {
        name: match name {
            Some(n) => Some(copy_text(n)),
            None => None,
        },
        port,
    }
}

fn make_local_request(from: i32, to: i32) -> (res: PortForwardSourceRequest)
    ensures
        res@ == local_request(from, to),
{
    PortForwardSourceRequest {
        source: Some(endpoint(Some("localhost"), Some(from))),
        destination: Some(endpoint(None, Some(to))),
        environmentvariable: None,
    }
}

fn parse_range_pair(src: &[char], dst: &[char], input: &str) -> (res: Result<
    Vec<PortForwardSourceRequest>,
    TunnelParseError,
>)
    ensures
        agrees(res, range_pair(src@, dst@, input@)),
{
    let s = split_at_char(src, '-');
    let d = split_at_char(dst, '-');
    assert(pieces(s@).len() == s@.len());
    assert(pieces(d@).len() == d@.len());
    if s.len() != 2 || d.len() != 2 {
        return Err(invalid(input, "bad range"));
    }
    assert(pieces(s@)[0] == s@[0]@ && pieces(s@)[1] == s@[1]@);
    assert(pieces(d@)[0] == d@[0]@ && pieces(d@)[1] == d@[1]@);
    let a: i32 = match parse_port(s[0].as_slice(), input) {
        Ok(p) => p,
        Err(e) => {
            return Err(e);
        },
    };
    let b: i32 = match parse_port(s[1].as_slice(), input) {
        Ok(p) => p,
        Err(e) => {
            return Err(e);
        },
    };
    let c: i32 = match parse_port(d[0].as_slice(), input) {
        Ok(p) => p,
        Err(e) => {
            return Err(e);
        },
    };
    let f: i32 = match parse_port(d[1].as_slice(), input) {
        Ok(p) => p,
        Err(e) => {
            return Err(e);
        },
    };
    if b - a != f - c {
        return Err(TunnelParseError::RangeLengthMismatch);
    }
    let mut out: Vec<PortForwardSourceRequest> = Vec::new();
    let ghost want = range_requests(a, b, c);
    let mut i: i32 = 0;
    assert(requests(out@) =~= want.take(0));
    while i <= b - a
        invariant
            0 <= a <= 65535,
            0 <= b <= 65535,
            0 <= c <= 65535,
            0 <= f <= 65535,
            b - a == f - c,
            0 <= i,
            i <= b - a + 1 || i == 0,
            want == range_requests(a, b, c),
            i <= want.len(),
            requests(out@) == want.take(i as int),
        decreases b - a + 1 - i,
    {
        let ghost before = requests(out@);
        let r = make_local_request(a + i, c + i);
        out.push(r);
        assert(requests(out@) =~= before.push(want[i as int]));
        i = i + 1;
        assert(requests(out@) =~= want.take(i as int));
    }
    assert(want.take(i as int) =~= want);
    Ok(out)
}

/// What the parts of a pair mean.
pub fn process_et_style(parts: &Vec<Vec<char>>, input: &str) -> (res: Result<
    Vec<PortForwardSourceRequest>,
    TunnelParseError,
>)
    ensures
        agrees(res, pair(pieces(parts@), input@)),
{
    assert(pieces(parts@).len() == parts@.len());
    if parts.len() < 2 {
        return Err(TunnelParseError::MissingDestination);
    }
    assert(pieces(parts@)[0] == parts@[0]@ && pieces(parts@)[1] == parts@[1]@);
    let src = parts[0].as_slice();
    let dst = parts[1].as_slice();
    let src_is_numeric = numeric_or_range(src);
    let dst_is_numeric = numeric_or_range(dst);
    if is_socket_path(src) {
        return Err(TunnelParseError::UnsupportedSocket(string_of(src)));
    }
    if is_socket_path(dst) && src_is_numeric {
        return Err(TunnelParseError::UnsupportedSocket(string_of(dst)));
    }
    if !src_is_numeric && !dst_is_numeric && src.len() > 0 {
        let mut s = string_of(src);
        s.append(":");
        s.append(string_of(dst).as_str());
        return Err(TunnelParseError::UnsupportedSocket(s));
    }
    let src_range = has_char(src, '-');
    let dst_range = has_char(dst, '-');
    if src_range && dst_range {
        return parse_range_pair(src, dst, input);
    }
    if src_range || dst_range {
        return Err(TunnelParseError::HalfRange);
    }
    let a: i32 = match parse_port(src, input) {
        Ok(p) => p,
        Err(e) => {
            return Err(e);
        },
    };
    let b: i32 = match parse_port(dst, input) {
        Ok(p) => p,
        Err(e) => {
            return Err(e);
        },
    };
    let mut out: Vec<PortForwardSourceRequest> = Vec::new();
    out.push(make_local_request(a, b));
    assert(requests(out@) =~= seq![local_request(a, b)]);
    Ok(out)
}

/// The four parts of a quadruple.
pub fn parse_ssh_tunnel_arg(input: &[char]) -> (res: Result<Vec<Vec<char>>, TunnelParseError>)
    ensures
        match (res, quadruple(input@)) {
            (Ok(v), Ok(w)) => pieces(v@) == w && w.len() == 4,
            (Err(e), Err(f)) => e@ == f,
            _ => false,
        },
{
    let mut parts: Vec<Vec<char>> = Vec::new();
    let mut current: Vec<char> = Vec::new();
    let mut inside = false;
    let mut i: usize = 0;
    let ghost want = bracket_split(input@, false, Seq::empty());
    assert(input@.skip(0) =~= input@);
    assert(pieces(parts@) + want =~= want);
    while i < input.len()
        invariant
            i <= input@.len(),
            want == pieces(parts@) + bracket_split(input@.skip(i as int), inside, current@),
        decreases input@.len() - i,
    {
        let ghost rest = input@.skip(i as int);
        let ghost before = pieces(parts@);
        let c = input[i];
        assert(rest[0] == c);
        assert(rest.skip(1) =~= input@.skip(i + 1));
        if c == '[' {
            inside = true;
        } else if c == ']' {
            inside = false;
        } else if c == ':' && !inside {
            let ghost done = current@;
            parts.push(current);
            current = Vec::new();
            assert(pieces(parts@) =~= before.push(done));
            assert(pieces(parts@) + bracket_split(input@.skip(i + 1), inside, current@) =~= before
                + (seq![done] + bracket_split(input@.skip(i + 1), inside, Seq::empty())));
        } else {
            current.push(c);
        }
        i += 1;
    }
    let ghost before = pieces(parts@);
    let ghost last = current@;
    parts.push(current);
    assert(pieces(parts@) =~= before.push(last));
    assert(pieces(parts@) =~= want);
    assert(pieces(parts@).len() == parts@.len());
    if parts.len() < 4 {
        return Err(
            TunnelParseError::Invalid(
                string_of(input),
                "the 4 part ssh-style tunneling arg (bind_address:port:host:hostport) must be supplied".to_owned(),
            ),
        );
    }
    if parts.len() > 4 {
        return Err(
            TunnelParseError::Invalid(
                string_of(input),
                "ipv6 addresses must be inside of square brackets, ie [::1]:8080:[::]:9090".to_owned(),
            ),
        );
    }
    Ok(parts)
}

fn parse_element(e: &[char], input: &str) -> (res: Result<
    Vec<PortForwardSourceRequest>,
    TunnelParseError,
>)
    ensures
        agrees(res, element(e@, input@)),
{
    let mut out: Vec<PortForwardSourceRequest> = Vec::new();
    if e.len() == 0 {
        assert(requests(out@) =~= Seq::<PortForwardSourceRequestView>::empty());
        return Ok(out);
    }
    let parts = split_at_char(e, ':');
    assert(pieces(parts@).len() == parts@.len());
    if parts.len() <= 2 {
        return process_et_style(&parts, input);
    }
    let q = match parse_ssh_tunnel_arg(e) {
        Ok(q) => q,
        Err(f) => {
            return Err(f);
        },
    };
    assert(pieces(q@).len() == q@.len());
    assert(pieces(q@)[0] == q@[0]@ && pieces(q@)[1] == q@[1]@ && pieces(q@)[2] == q@[2]@ && pieces(
        q@,
    )[3] == q@[3]@);
    let a: i32 = match parse_port(q[1].as_slice(), input) {
        Ok(p) => p,
        Err(f) => {
            return Err(f);
        },
    };
    let b: i32 = match parse_port(q[3].as_slice(), input) {
        Ok(p) => p,
        Err(f) => {
            return Err(f);
        },
    };
    let r = PortForwardSourceRequest {
        source: Some(endpoint(Some(string_of(q[0].as_slice()).as_str()), Some(a))),
        destination: Some(endpoint(Some(string_of(q[2].as_slice()).as_str()), Some(b))),
        environmentvariable: None,
    };
    out.push(r);
    assert(requests(out@) =~= seq![named_request(q@[0]@, a, q@[2]@, b)]);
    Ok(out)
}

proof fn lemma_elements_prefix(es: Seq<Seq<char>>, input: Seq<char>, i: int)
    requires
        0 <= i <= es.len(),
        elements(es.take(i), input) is Err,
    ensures
        elements(es, input) == elements(es.take(i), input),
    decreases es.len() - i,
{
    if i == es.len() {
        assert(es.take(i) =~= es);
    } else {
        assert(es.take(i + 1).drop_last() =~= es.take(i));
        lemma_elements_prefix(es, input, i + 1);
    }
}

/// The listeners that a tunnel argument asks for.
pub fn parse_ranges(input: &str) -> (res: Result<
    Vec<PortForwardSourceRequest>,
    TunnelParseError,
>)
    ensures
        agrees(res, ranges(input@)),
{
    let chars = chars_of(input);
    let es = split_at_char(chars.as_slice(), ',');
    let ghost all = pieces(es@);
    let mut out: Vec<PortForwardSourceRequest> = Vec::new();
    let mut i: usize = 0;
    assert(all.take(0) =~= Seq::<Seq<char>>::empty());
    assert(requests(out@) =~= Seq::<PortForwardSourceRequestView>::empty());
    while i < es.len()
        invariant
            i <= es@.len(),
            all == pieces(es@),
            all == split(input@, ','),
            elements(all.take(i as int), input@) == Ok::<
                Seq<PortForwardSourceRequestView>,
                TunnelFault,
            >(requests(out@)),
        decreases es.len() - i,
    {
        let e = trimmed(es[i].as_slice());
        assert(all.take(i + 1).drop_last() =~= all.take(i as int));
        assert(all.take(i + 1).last() == es@[i as int]@);
        match parse_element(e.as_slice(), input) {
            Err(f) => {
                proof {
                    lemma_elements_prefix(all, input@, i + 1);
                }
                return Err(f);
            },
            Ok(more) => {
                let mut more = more;
                let ghost before = requests(out@);
                let ghost added = requests(more@);
                out.append(&mut more);
                assert(requests(out@) =~= before + added);
            },
        }
        i += 1;
    }
    assert(all.take(es@.len() as int) =~= all);
    Ok(out)
}

// ---------------------------------------------------------------------------
// Laws
// ---------------------------------------------------------------------------

/// Whether a request names a port at both ends, within the range of ports.
pub open spec fn ports_in_range(r: PortForwardSourceRequestView) -> bool {
    &&& r.source matches Some(e) && (e.port matches Some(p) && 0 <= p <= 65535)
    &&& r.destination matches Some(e) && (e.port matches Some(p) && 0 <= p <= 65535)
}

proof fn lemma_elements_in_range(es: Seq<Seq<char>>, input: Seq<char>, i: int)
    requires
        elements(es, input) is Ok,
        0 <= i < elements(es, input)->Ok_0.len(),
    ensures
        ports_in_range(elements(es, input)->Ok_0[i]),
    decreases es.len(),
{
    let before = elements(es.drop_last(), input)->Ok_0;
    if i < before.len() {
        lemma_elements_in_range(es.drop_last(), input, i);
    } else {
        let more = element(trim(es.last()), input)->Ok_0;
        assert(elements(es, input)->Ok_0[i] == more[i - before.len()]);
    }
}

/// No port is ever cut to fit: every listener that an argument asks for has a
/// port within the range of ports at both ends. An argument with any other
/// port is refused as a whole.
pub proof fn law_ports_in_range(input: Seq<char>, i: int)
    requires
        ranges(input) is Ok,
        0 <= i < ranges(input)->Ok_0.len(),
    ensures
        ports_in_range(ranges(input)->Ok_0[i]),
{
    lemma_elements_in_range(split(input, ','), input, i);
}

/// Whether a request is to listen at `host`, port `from`, and leads to port
/// `to`, of `there` if that is named.
pub open spec fn leads(
    r: PortForwardSourceRequestView,
    host: Seq<char>,
    from: int,
    there: Option<Seq<char>>,
    to: int,
) -> bool {
    &&& r.source matches Some(e) && e.name == Some(host) && (e.port matches Some(p) && p == from)
    &&& r.destination matches Some(e) && e.name == there && (e.port matches Some(p) && p == to)
    &&& r.environmentvariable is None
}

proof fn lemma_port_text(n: u16, input: Seq<char>)
    ensures
        port_of(decimal(n as nat), input) == Ok::<i32, TunnelFault>(n as i32),
        port_like(decimal(n as nat)),
        decimal(n as nat).len() > 0,
        !socket_path(decimal(n as nat)),
        !decimal(n as nat).contains('-'),
        !decimal(n as nat).contains(':'),
        !decimal(n as nat).contains(','),
        !decimal(n as nat).contains('['),
        !decimal(n as nat).contains(']'),
        !white(decimal(n as nat)[0]),
        !white(decimal(n as nat).last()),
{
    let d = decimal(n as nat);
    law_decimal_reads_back(n as nat);
    law_decimal_has_only(n as nat, '-');
    law_decimal_has_only(n as nat, ':');
    law_decimal_has_only(n as nat, ',');
    law_decimal_has_only(n as nat, '[');
    law_decimal_has_only(n as nat, ']');
    assert(is_digit(d[0]));
    assert(is_digit(d[d.len() - 1]));
}

/// An argument without a comma has one element.
#[verifier::rlimit(40)]
proof fn lemma_single_element(e: Seq<char>)
    requires
        !e.contains(','),
        e.len() > 0,
        !white(e[0]),
        !white(e.last()),
    ensures
        ranges(e) == element(e, e),
{
    assert(seq![e].drop_last() =~= Seq::<Seq<char>>::empty());
    assert(join(seq![e], ',') == e);
    law_split_of_join(seq![e], ',');
    law_trim_keeps(e);
    assert(elements(seq![e].drop_last(), e) == Ok::<Seq<PortForwardSourceRequestView>, TunnelFault>(
        Seq::empty(),
    ));
    if let Ok(more) = element(e, e) {
        assert(Seq::<PortForwardSourceRequestView>::empty() + more =~= more);
    }
}

/// A pair of ports asks for one listener: at the first port of the local host,
/// leading to the second port, of no host by name.
#[verifier::rlimit(40)]
pub proof fn law_pair_of_ports(a: u16, b: u16)
    ensures
        ({
            let r = ranges(decimal(a as nat) + ":"@ + decimal(b as nat));
            &&& r is Ok
            &&& r->Ok_0.len() == 1
            &&& leads(r->Ok_0[0], "localhost"@, a as int, None, b as int)
        }),
{
    reveal_strlit(":");
    assert(":"@ =~= seq![':']);
    let x = decimal(a as nat);
    let y = decimal(b as nat);
    let e = x + seq![':'] + y;
    lemma_port_text(a, e);
    lemma_port_text(b, e);
    lemma_pair_text(x, y);
    lemma_single_element(e);
    assert(pair(seq![x, y], e) is Ok);
}

/// Two parts without colons and commas make up an element of those parts.
#[verifier::rlimit(40)]
proof fn lemma_pair_text(x: Seq<char>, y: Seq<char>)
    requires
        !x.contains(':'),
        !y.contains(':'),
        !x.contains(','),
        !y.contains(','),
        x.len() > 0,
        y.len() > 0,
        !white(x[0]),
        !white(y.last()),
    ensures
        ({
            let e = x + seq![':'] + y;
            &&& split(e, ':') == seq![x, y]
            &&& !e.contains(',')
            &&& e.len() > 0
            &&& !white(e[0])
            &&& !white(e.last())
        }),
{
    let e = x + seq![':'] + y;
    assert(seq![x, y].skip(1) =~= seq![y]);
    assert(join(seq![y], ':') == y);
    assert(join(seq![x, y], ':') =~= e);
    law_split_of_join(seq![x, y], ':');
    assert forall|i: int| 0 <= i < e.len() implies e[i] != ',' by {
        if i < x.len() {
            assert(x.contains(x[i]));
        } else if i > x.len() {
            assert(y.contains(y[i - x.len() - 1]));
        }
    }
}

/// The text of a range of ports.
pub open spec fn range_text(a: u16, b: u16) -> Seq<char> {
    decimal(a as nat) + "-"@ + decimal(b as nat)
}

#[verifier::rlimit(40)]
proof fn lemma_range_text(a: u16, b: u16)
    ensures
        ({
            let x = range_text(a, b);
            &&& split(x, '-') == seq![decimal(a as nat), decimal(b as nat)]
            &&& port_like(x)
            &&& !socket_path(x)
            &&& x.contains('-')
            &&& !x.contains(':')
            &&& !x.contains(',')
            &&& x.len() > 0
            &&& !white(x[0])
            &&& !white(x.last())
        }),
{
    reveal_strlit("-");
    assert("-"@ =~= seq!['-']);
    let d = decimal(a as nat);
    let f = decimal(b as nat);
    let x = range_text(a, b);
    lemma_port_text(a, x);
    lemma_port_text(b, x);
    assert(seq![d, f].skip(1) =~= seq![f]);
    assert(join(seq![f], '-') == f);
    assert(join(seq![d, f], '-') =~= x);
    law_split_of_join(seq![d, f], '-');
    assert(x[d.len() as int] == '-');
    assert forall|i: int| 0 <= i < x.len() implies (is_digit(#[trigger] x[i]) || x[i] == '-') && x[i]
        != ':' && x[i] != ',' by {
        if i < d.len() {
            assert(d.contains(d[i]));
            assert(is_digit(d[i]) || d[i] == '-');
        } else if i > d.len() {
            assert(f.contains(f[i - d.len() - 1]));
            assert(is_digit(f[i - d.len() - 1]) || f[i - d.len() - 1] == '-');
        }
    }
}

/// Two ranges of the same length ask for a listener for each pair of their
/// ports, in order. Ranges of different lengths are refused.
#[verifier::rlimit(40)]
pub proof fn law_pair_of_ranges(a: u16, b: u16, c: u16, d: u16)
    requires
        a <= b,
    ensures
        ({
            let r = ranges(range_text(a, b) + ":"@ + range_text(c, d));
            &&& b - a == d - c ==> r is Ok && r->Ok_0.len() == b - a + 1
            &&& b - a == d - c ==> (forall|i: int|
                0 <= i <= b - a ==> leads(
                    #[trigger] r->Ok_0[i],
                    "localhost"@,
                    a + i,
                    None,
                    c + i,
                ))
            &&& b - a != d - c ==> r == Err::<Seq<PortForwardSourceRequestView>, TunnelFault>(
                TunnelFault::RangeLengthMismatch,
            )
        }),
{
    reveal_strlit(":");
    assert(":"@ =~= seq![':']);
    let x = range_text(a, b);
    let y = range_text(c, d);
    let e = x + seq![':'] + y;
    lemma_range_text(a, b);
    lemma_range_text(c, d);
    lemma_pair_text(x, y);
    lemma_single_element(e);
    lemma_port_text(a, e);
    lemma_port_text(b, e);
    lemma_port_text(c, e);
    lemma_port_text(d, e);
    assert(element(e, e) == pair(seq![x, y], e));
    assert(pair(seq![x, y], e) == range_pair(x, y, e));
}

/// A range on one side only is refused.
#[verifier::rlimit(40)]
pub proof fn law_half_range_is_refused(a: u16, b: u16, c: u16)
    ensures
        ranges(range_text(a, b) + ":"@ + decimal(c as nat)) == Err::<
            Seq<PortForwardSourceRequestView>,
            TunnelFault,
        >(TunnelFault::HalfRange),
        ranges(decimal(c as nat) + ":"@ + range_text(a, b)) == Err::<
            Seq<PortForwardSourceRequestView>,
            TunnelFault,
        >(TunnelFault::HalfRange),
        ranges(decimal(c as nat)) == Err::<Seq<PortForwardSourceRequestView>, TunnelFault>(
            TunnelFault::MissingDestination,
        ),
{
    reveal_strlit(":");
    assert(":"@ =~= seq![':']);
    let x = range_text(a, b);
    let y = decimal(c as nat);
    lemma_range_text(a, b);
    lemma_port_text(c, y);
    lemma_pair_text(x, y);
    lemma_pair_text(y, x);
    lemma_single_element(x + seq![':'] + y);
    lemma_single_element(y + seq![':'] + x);
    lemma_single_element(y);
    assert(element(x + seq![':'] + y, x + seq![':'] + y) == pair(
        seq![x, y],
        x + seq![':'] + y,
    ));
    assert(element(y + seq![':'] + x, y + seq![':'] + x) == pair(
        seq![y, x],
        y + seq![':'] + x,
    ));
    assert(join(seq![y], ':') == y);
    law_split_of_join(seq![y], ':');
}

/// What an element means does not depend on the argument that it stands in, but
/// for what is said of it when it is refused.
#[verifier::rlimit(40)]
proof fn lemma_element_alone(e: Seq<char>, one: Seq<char>, other: Seq<char>)
    requires
        element(e, one) is Ok,
    ensures
        element(e, other) == element(e, one),
{
}

#[verifier::rlimit(40)]
proof fn lemma_elements_alone(es: Seq<Seq<char>>, one: Seq<char>, other: Seq<char>)
    requires
        elements(es, one) is Ok,
    ensures
        elements(es, other) == elements(es, one),
    decreases es.len(),
{
    if es.len() > 0 {
        lemma_elements_alone(es.drop_last(), one, other);
        lemma_element_alone(trim(es.last()), one, other);
    }
}

#[verifier::rlimit(40)]
proof fn lemma_elements_concat(a: Seq<Seq<char>>, b: Seq<Seq<char>>, input: Seq<char>)
    requires
        elements(a, input) is Ok,
        elements(b, input) is Ok,
    ensures
        elements(a + b, input) == Ok::<Seq<PortForwardSourceRequestView>, TunnelFault>(
            elements(a, input)->Ok_0 + elements(b, input)->Ok_0,
        ),
    decreases b.len(),
{
    let x = elements(a, input)->Ok_0;
    if b.len() == 0 {
        assert(a + b =~= a);
        assert(x + elements(b, input)->Ok_0 =~= x);
    } else {
        let y = elements(b.drop_last(), input)->Ok_0;
        let last = element(trim(b.last()), input);
        lemma_last_element(b, input);
        lemma_last_element(a + b, input);
        assert((a + b).drop_last() =~= a + b.drop_last());
        assert((a + b).last() == b.last());
        lemma_elements_concat(a, b.drop_last(), input);
        assert(x + (y + last->Ok_0) =~= (x + y) + last->Ok_0);
    }
}

#[verifier::rlimit(40)]
proof fn lemma_last_element(es: Seq<Seq<char>>, input: Seq<char>)
    requires
        es.len() > 0,
    ensures
        elements(es, input) is Ok ==> elements(es.drop_last(), input) is Ok && element(
            trim(es.last()),
            input,
        ) is Ok,
        elements(es.drop_last(), input) is Ok && element(trim(es.last()), input) is Ok ==> elements(
            es,
            input,
        ) == Ok::<Seq<PortForwardSourceRequestView>, TunnelFault>(
            elements(es.drop_last(), input)->Ok_0 + element(trim(es.last()), input)->Ok_0,
        ),
{
}

/// Arguments with a comma between them ask for what each of them asks for, in
/// order.
#[verifier::rlimit(40)]
pub proof fn law_arguments_add_up(x: Seq<char>, y: Seq<char>)
    requires
        ranges(x) is Ok,
        ranges(y) is Ok,
    ensures
        ranges(x + ","@ + y) == Ok::<Seq<PortForwardSourceRequestView>, TunnelFault>(
            ranges(x)->Ok_0 + ranges(y)->Ok_0,
        ),
{
    reveal_strlit(",");
    assert(","@ =~= seq![',']);
    let all = x + seq![','] + y;
    law_split_adds_up(x, y, ',');
    lemma_elements_alone(split(x, ','), x, all);
    lemma_elements_alone(split(y, ','), y, all);
    lemma_elements_concat(split(x, ','), split(y, ','), all);
}

/// A run of characters that are no brackets, and no colons unless in brackets,
/// belongs to one part.
proof fn lemma_run(s: Seq<char>, rest: Seq<char>, inside: bool, current: Seq<char>)
    requires
        !s.contains('['),
        !s.contains(']'),
        inside || !s.contains(':'),
    ensures
        bracket_split(s + rest, inside, current) == bracket_split(rest, inside, current + s),
    decreases s.len(),
{
    if s.len() == 0 {
        assert(s + rest =~= rest);
        assert(current + s =~= current);
    } else {
        let t = s.skip(1);
        assert(s.contains(s[0]));
        assert forall|c: char| t.contains(c) implies s.contains(c) by {
            let i = choose|i: int| 0 <= i < t.len() && t[i] == c;
            assert(s[i + 1] == c);
        }
        assert((s + rest)[0] == s[0]);
        assert((s + rest).skip(1) =~= t + rest);
        lemma_run(t, rest, inside, current.push(s[0]));
        assert(current.push(s[0]) + t =~= current + s);
    }
}

/// The text of a host in an argument with four parts: in brackets if so asked.
pub open spec fn host_text(h: Seq<char>, bracketed: bool) -> Seq<char> {
    if bracketed {
        "["@ + h + "]"@
    } else {
        h
    }
}

/// Whether a host can stand in an argument with four parts: it holds neither
/// brackets nor commas, and no colons unless it stands in brackets.
pub open spec fn host_fits(h: Seq<char>, bracketed: bool) -> bool {
    &&& !h.contains('[')
    &&& !h.contains(']')
    &&& !h.contains(',')
    &&& bracketed || !h.contains(':')
}

proof fn lemma_host(h: Seq<char>, bracketed: bool, rest: Seq<char>)
    requires
        host_fits(h, bracketed),
    ensures
        bracket_split(host_text(h, bracketed) + rest, false, Seq::empty()) == bracket_split(
            rest,
            false,
            h,
        ),
        !host_text(h, bracketed).contains(','),
{
    reveal_strlit("[");
    reveal_strlit("]");
    assert("["@ =~= seq!['[']);
    assert("]"@ =~= seq![']']);
    assert(Seq::<char>::empty() + h =~= h);
    let t = host_text(h, bracketed);
    if bracketed {
        let s = t + rest;
        assert(s[0] == '[');
        assert(s.skip(1) =~= h + (seq![']'] + rest));
        lemma_run(h, seq![']'] + rest, true, Seq::empty());
        assert((seq![']'] + rest).skip(1) =~= rest);
        assert forall|i: int| 0 <= i < t.len() implies t[i] != ',' by {
            if 0 < i <= h.len() {
                assert(h.contains(h[i - 1]));
            }
        }
    } else {
        lemma_run(h, rest, false, Seq::empty());
    }
}

/// The text of an argument with four parts.
pub open spec fn quadruple_text(
    bind: Seq<char>,
    bracketed: bool,
    a: u16,
    host: Seq<char>,
    host_bracketed: bool,
    b: u16,
) -> Seq<char> {
    host_text(bind, bracketed) + ":"@ + decimal(a as nat) + ":"@ + host_text(host, host_bracketed)
        + ":"@ + decimal(b as nat)
}

/// An argument with four parts asks for one listener: at the first host and
/// port, leading to the second host and port. Hosts with colons stand in
/// brackets.
#[verifier::rlimit(40)]
pub proof fn law_quadruple(
    bind: Seq<char>,
    bracketed: bool,
    a: u16,
    host: Seq<char>,
    host_bracketed: bool,
    b: u16,
)
    requires
        host_fits(bind, bracketed),
        host_fits(host, host_bracketed),
        bracketed || bind.len() == 0 || !white(bind[0]),
    ensures
        ({
            let r = ranges(quadruple_text(bind, bracketed, a, host, host_bracketed, b));
            &&& r is Ok
            &&& r->Ok_0.len() == 1
            &&& leads(r->Ok_0[0], bind, a as int, Some(host), b as int)
        }),
{
    let e = quadruple_text(bind, bracketed, a, host, host_bracketed, b);
    lemma_quadruple_parts(bind, bracketed, a, host, host_bracketed, b);
    lemma_quadruple_ends(bind, bracketed, a, host, host_bracketed, b);
    lemma_single_element(e);
    lemma_element_of_four(e, bind, a, host, b);
}

#[verifier::rlimit(40)]
proof fn lemma_element_of_four(e: Seq<char>, bind: Seq<char>, a: u16, host: Seq<char>, b: u16)
    requires
        e.len() > 0,
        split(e, ':').len() >= 4,
        bracket_split(e, false, Seq::empty()) == seq![
            bind,
            decimal(a as nat),
            host,
            decimal(b as nat),
        ],
    ensures
        element(e, e) == Ok::<Seq<PortForwardSourceRequestView>, TunnelFault>(
            seq![named_request(bind, a as i32, host, b as i32)],
        ),
{
    lemma_port_text(a, e);
    lemma_port_text(b, e);
    let q = seq![bind, decimal(a as nat), host, decimal(b as nat)];
    assert(quadruple(e) == Ok::<Seq<Seq<char>>, TunnelFault>(q));
    assert(q[1] == decimal(a as nat) && q[3] == decimal(b as nat));
}

proof fn lemma_quadruple_ends(
    bind: Seq<char>,
    bracketed: bool,
    a: u16,
    host: Seq<char>,
    host_bracketed: bool,
    b: u16,
)
    requires
        bracketed || bind.len() == 0 || !white(bind[0]),
    ensures
        ({
            let e = quadruple_text(bind, bracketed, a, host, host_bracketed, b);
            &&& e.len() > 0
            &&& !white(e[0])
            &&& !white(e.last())
        }),
{
    reveal_strlit(":");
    reveal_strlit("[");
    assert(":"@ =~= seq![':']);
    let t = host_text(bind, bracketed);
    let y = decimal(b as nat);
    let e = quadruple_text(bind, bracketed, a, host, host_bracketed, b);
    lemma_port_text(b, e);
    assert(e.last() == y.last());
    assert(e[0] == if t.len() > 0 {
        t[0]
    } else {
        ':'
    });
}

#[verifier::rlimit(40)]
proof fn lemma_quadruple_parts(
    bind: Seq<char>,
    bracketed: bool,
    a: u16,
    host: Seq<char>,
    host_bracketed: bool,
    b: u16,
)
    requires
        host_fits(bind, bracketed),
        host_fits(host, host_bracketed),
    ensures
        ({
            let e = quadruple_text(bind, bracketed, a, host, host_bracketed, b);
            &&& bracket_split(e, false, Seq::empty()) == seq![
                bind,
                decimal(a as nat),
                host,
                decimal(b as nat),
            ]
            &&& !e.contains(',')
            &&& split(e, ':').len() >= 4
        }),
{
    reveal_strlit(":");
    assert(":"@ =~= seq![':']);
    let t = host_text(bind, bracketed);
    let x = decimal(a as nat);
    let u = host_text(host, host_bracketed);
    let y = decimal(b as nat);
    let e = quadruple_text(bind, bracketed, a, host, host_bracketed, b);
    lemma_port_text(a, e);
    lemma_port_text(b, e);
    lemma_host(bind, bracketed, Seq::empty());
    lemma_host(host, host_bracketed, Seq::empty());
    lemma_four_parts(bind, bracketed, x, host, host_bracketed, y);
    lemma_four_pieces(t, x, u, y);
}

/// Four texts with colons between them.
spec fn four(t: Seq<char>, x: Seq<char>, u: Seq<char>, y: Seq<char>) -> Seq<char> {
    t + seq![':'] + x + seq![':'] + u + seq![':'] + y
}

#[verifier::rlimit(40)]
proof fn lemma_four_pieces(t: Seq<char>, x: Seq<char>, u: Seq<char>, y: Seq<char>)
    requires
        !t.contains(','),
        !x.contains(','),
        !u.contains(','),
        !y.contains(','),
    ensures
        !four(t, x, u, y).contains(','),
        split(four(t, x, u, y), ':').len() >= 4,
{
    let e = four(t, x, u, y);
    assert forall|i: int| 0 <= i < e.len() implies e[i] != ',' by {
        let p = t.len() as int;
        let q = p + 1 + x.len();
        let s = q + 1 + u.len();
        if i < p {
            assert(e[i] == t[i] && t.contains(t[i]));
        } else if p < i < q {
            assert(e[i] == x[i - p - 1] && x.contains(x[i - p - 1]));
        } else if q < i < s {
            assert(e[i] == u[i - q - 1] && u.contains(u[i - q - 1]));
        } else if s < i {
            assert(e[i] == y[i - s - 1] && y.contains(y[i - s - 1]));
        }
    }
    assert(e =~= t + seq![':'] + (x + seq![':'] + (u + seq![':'] + y)));
    law_split_adds_up(t, x + seq![':'] + (u + seq![':'] + y), ':');
    law_split_adds_up(x, u + seq![':'] + y, ':');
    law_split_adds_up(u, y, ':');
    law_join_of_split(t, ':');
    law_join_of_split(x, ':');
    law_join_of_split(u, ':');
    law_join_of_split(y, ':');
}

#[verifier::rlimit(40)]
proof fn lemma_four_parts(
    bind: Seq<char>,
    bracketed: bool,
    x: Seq<char>,
    host: Seq<char>,
    host_bracketed: bool,
    y: Seq<char>,
)
    requires
        host_fits(bind, bracketed),
        host_fits(host, host_bracketed),
        host_fits(x, false),
        host_fits(y, false),
    ensures
        bracket_split(
            four(host_text(bind, bracketed), x, host_text(host, host_bracketed), y),
            false,
            Seq::empty(),
        ) == seq![bind, x, host, y],
{
    let t = host_text(bind, bracketed);
    let u = host_text(host, host_bracketed);
    let e = four(t, x, u, y);
    let r3 = seq![':'] + y;
    let r2 = seq![':'] + (u + r3);
    let r1 = seq![':'] + (x + r2);
    assert(e =~= t + r1);
    lemma_host(bind, bracketed, r1);
    assert(r1.skip(1) =~= x + r2);
    lemma_run(x, r2, false, Seq::empty());
    assert(Seq::<char>::empty() + x =~= x);
    assert(r2.skip(1) =~= u + r3);
    lemma_host(host, host_bracketed, r3);
    assert(r3.skip(1) =~= y);
    lemma_run(y, Seq::empty(), false, Seq::empty());
    assert(y + Seq::<char>::empty() =~= y);
    assert(Seq::<char>::empty() + y =~= y);
    assert(bracket_split(Seq::<char>::empty(), false, y) =~= seq![y]);
    assert(bracket_split(r3, false, host) =~= seq![host, y]);
    assert(bracket_split(r2, false, x) =~= seq![x, host, y]);
    assert(bracket_split(e, false, Seq::empty()) =~= seq![bind, x, host, y]);
}

/// White space around an argument does not count.
#[verifier::rlimit(40)]
pub proof fn law_blanks_do_not_count(x: Seq<char>)
    requires
        !x.contains(','),
        ranges(x) is Ok,
    ensures
        ranges(" "@ + x) == ranges(x),
        ranges(x + " "@) == ranges(x),
{
    reveal_strlit(" ");
    assert(" "@ =~= seq![' ']);
    let left = seq![' '] + x;
    let right = x.push(' ');
    assert(x + seq![' '] =~= right);
    law_trim_ignores_blanks(x, ' ');
    lemma_one_piece(x);
    assert forall|i: int| 0 <= i < left.len() implies left[i] != ',' by {
        if i > 0 {
            assert(x.contains(x[i - 1]));
        }
    }
    assert forall|i: int| 0 <= i < right.len() implies right[i] != ',' by {
        if i < x.len() {
            assert(x.contains(x[i]));
        }
    }
    lemma_one_piece(left);
    lemma_one_piece(right);
    lemma_element_alone(trim(x), x, left);
    lemma_element_alone(trim(x), x, right);
}

proof fn lemma_one_piece(x: Seq<char>)
    requires
        !x.contains(','),
    ensures
        ranges(x) == element(trim(x), x),
{
    assert(seq![x].drop_last() =~= Seq::<Seq<char>>::empty());
    assert(join(seq![x], ',') == x);
    law_split_of_join(seq![x], ',');
    assert(elements(seq![x].drop_last(), x) == Ok::<Seq<PortForwardSourceRequestView>, TunnelFault>(
        Seq::empty(),
    ));
    if let Ok(more) = element(trim(x), x) {
        assert(Seq::<PortForwardSourceRequestView>::empty() + more =~= more);
    }
}

/// A number beyond the ports is refused, on either side, and named.
#[verifier::rlimit(40)]
pub proof fn law_big_ports_are_refused(n: nat, b: u16)
    requires
        65535 < n <= i64::MAX,
    ensures
        ranges(decimal(n) + ":"@ + decimal(b as nat)) == Err::<
            Seq<PortForwardSourceRequestView>,
            TunnelFault,
        >(TunnelFault::PortOutOfRange(n as i64)),
        ranges(decimal(b as nat) + ":"@ + decimal(n)) == Err::<
            Seq<PortForwardSourceRequestView>,
            TunnelFault,
        >(TunnelFault::PortOutOfRange(n as i64)),
{
    reveal_strlit(":");
    assert(":"@ =~= seq![':']);
    let x = decimal(n);
    let y = decimal(b as nat);
    law_decimal_reads_back(n);
    law_decimal_has_only(n, '-');
    law_decimal_has_only(n, ':');
    law_decimal_has_only(n, ',');
    assert(is_digit(x[0]));
    assert(is_digit(x[x.len() - 1]));
    lemma_port_text(b, x + seq![':'] + y);
    lemma_port_text(b, y + seq![':'] + x);
    lemma_pair_text(x, y);
    lemma_pair_text(y, x);
    lemma_single_element(x + seq![':'] + y);
    lemma_single_element(y + seq![':'] + x);
    assert(element(x + seq![':'] + y, x + seq![':'] + y) == pair(
        seq![x, y],
        x + seq![':'] + y,
    ));
    assert(element(y + seq![':'] + x, y + seq![':'] + x) == pair(
        seq![y, x],
        y + seq![':'] + x,
    ));
}

/// Socket paths are refused, on either side, and named.
#[verifier::rlimit(40)]
pub proof fn law_socket_paths_are_refused(path: Seq<char>, b: u16)
    requires
        path.len() > 1,
        path[0] == '/',
        !path.contains(':'),
        !path.contains(','),
        !white(path.last()),
    ensures
        ranges(path + ":"@ + decimal(b as nat)) == Err::<
            Seq<PortForwardSourceRequestView>,
            TunnelFault,
        >(TunnelFault::UnsupportedSocket(path)),
        ranges(decimal(b as nat) + ":"@ + path) == Err::<
            Seq<PortForwardSourceRequestView>,
            TunnelFault,
        >(TunnelFault::UnsupportedSocket(path)),
{
    reveal_strlit(":");
    assert(":"@ =~= seq![':']);
    let y = decimal(b as nat);
    lemma_port_text(b, y);
    lemma_pair_text(path, y);
    lemma_pair_text(y, path);
    lemma_single_element(path + seq![':'] + y);
    lemma_single_element(y + seq![':'] + path);
    assert(element(path + seq![':'] + y, path + seq![':'] + y) == pair(
        seq![path, y],
        path + seq![':'] + y,
    ));
    assert(element(y + seq![':'] + path, y + seq![':'] + path) == pair(
        seq![y, path],
        y + seq![':'] + path,
    ));
}

/// An argument without content asks for nothing.
pub proof fn law_empty_arguments_ask_for_nothing()
    ensures
        ranges(Seq::empty()) == Ok::<Seq<PortForwardSourceRequestView>, TunnelFault>(Seq::empty()),
{
    lemma_one_piece(Seq::empty());
    law_trim_keeps(Seq::empty());
}

proof fn lemma_parts_of_join(parts: Seq<Seq<char>>)
    requires
        parts.len() > 0,
        forall|i: int| 0 <= i < parts.len() ==> host_fits(#[trigger] parts[i], false),
    ensures
        bracket_split(join(parts, ':'), false, Seq::empty()) == parts,
    decreases parts.len(),
{
    let p = parts[0];
    assert(host_fits(parts[0], false));
    assert(Seq::<char>::empty() + p =~= p);
    if parts.len() == 1 {
        lemma_run(p, Seq::empty(), false, Seq::empty());
        assert(p + Seq::<char>::empty() =~= p);
        assert(bracket_split(Seq::<char>::empty(), false, p) =~= parts);
    } else {
        let rest = parts.skip(1);
        assert forall|i: int| 0 <= i < rest.len() implies host_fits(#[trigger] rest[i], false) by {
            assert(rest[i] == parts[i + 1]);
        }
        lemma_parts_of_join(rest);
        let more = seq![':'] + join(rest, ':');
        lemma_run(p, more, false, Seq::empty());
        assert(join(parts, ':') =~= p + more);
        assert(more.skip(1) =~= join(rest, ':'));
        assert(seq![p] + rest =~= parts);
    }
}

/// An element of more than two parts has four of them, or is refused.
pub proof fn law_number_of_parts(parts: Seq<Seq<char>>, input: Seq<char>)
    requires
        parts.len() > 2,
        parts.len() != 4,
        forall|i: int| 0 <= i < parts.len() ==> host_fits(#[trigger] parts[i], false),
    ensures
        element(join(parts, ':'), input) is Err,
{
    let e = join(parts, ':');
    lemma_parts_of_join(parts);
    assert forall|i: int| 0 <= i < parts.len() implies !(#[trigger] parts[i]).contains(':') by {
        assert(host_fits(parts[i], false));
    }
    law_split_of_join(parts, ':');
    assert(e.len() > 0) by {
        assert(e =~= parts[0] + seq![':'] + join(parts.skip(1), ':'));
    }
    assert(quadruple(e) is Err);
}

} // verus!
