//! The protocol's messages and their wire form.
//!
//! Every optional field is present or absent on its own: a field set to its
//! default value is written, an absent one is not.

use vstd::prelude::*;
use crate::env::{ascending, with_var, EnvMap, Var};
use crate::fault::{
    fault, find_fault, fits, law_no_fault_is_well_formed, lemma_all_of_total, lemma_fitting,
    well_formed, DecodeError, Kind, Shape,
};
use crate::text::{opt_text, texts};
use crate::wire::{
    all_of, as_bytes, blobs, blobs_field, bool_field, bool_kind, bytes_field, bytes_kind, fields,
    fields_bytes, get_blobs, get_bool, get_bytes, get_i32, get_i64, get_text, get_texts,
    group_fields, group_optional, i32_field, i32_kind, i64_field, i64_kind, last_of, law_fields_round_trip,
    lemma_all_of_concat, lemma_all_of_none, lemma_all_of_prefix,
    lemma_bool_field_own, lemma_i32_field_own, lemma_text_field_other, opt_blob, parse_fields,
    law_nested_round_trip, parse_nested, plain, plain_in, put, put_blobs,
    put_bool, put_bytes, put_i32, put_i64, put_text, put_texts, read_fields, read_nested, text_field,
    text_kind, texts_field, to_i32, write_fields, Malformed, Field, RawField, RawValue, Value, MAX_TAG,
    NESTING,
};

verus! {

/// Whether every field can be written so that it reads back.
pub open spec fn all_plain(fs: Seq<Field>) -> bool {
    forall|i: int| 0 <= i < fs.len() ==> plain(#[trigger] fs[i])
}

/// Fields in memory are short enough to be written.
proof fn lemma_all_plain(fs: Seq<RawField>)
    requires
        forall|i: int|
            0 <= i < fs.len() ==> 1 <= (#[trigger] fields(fs)[i]).tag <= MAX_TAG && (fields(
                fs,
            )[i].value is Varint || fields(fs)[i].value is Bytes),
    ensures
        all_plain(fields(fs)),
{
    assert forall|i: int| 0 <= i < fields(fs).len() implies plain(#[trigger] fields(fs)[i]) by {
        assert(fields(fs)[i] == fs[i]@);
        if let RawValue::Bytes(b) = fs[i].value {
            assert(b@.len() == b.len());
        }
    }
}

/// The status codes of a [`ConnectResponse`].
#[derive(Clone, Copy, Debug, PartialEq, Eq, Structural)]
pub enum ConnectStatus {
    NewClient,
    ReturningClient,
    InvalidKey,
    MismatchedProtocol,
}

impl ConnectStatus {
    /// The number that stands for the status.
    pub open spec fn code(self) -> i32 {
        match self {
            ConnectStatus::NewClient => 1,
            ConnectStatus::ReturningClient => 2,
            ConnectStatus::InvalidKey => 3,
            ConnectStatus::MismatchedProtocol => 4,
        }
    }

    /// The status that a number stands for.
    pub open spec fn of_code(n: i32) -> Option<ConnectStatus> {
        if n == 1 {
            Some(ConnectStatus::NewClient)
        } else if n == 2 {
            Some(ConnectStatus::ReturningClient)
        } else if n == 3 {
            Some(ConnectStatus::InvalidKey)
        } else if n == 4 {
            Some(ConnectStatus::MismatchedProtocol)
        } else {
            None
        }
    }

    /// The number that stands for the status.
    pub fn to_i32(self) -> (res: i32)
        ensures
            res == self.code(),
    {
        match self {
            ConnectStatus::NewClient => 1,
            ConnectStatus::ReturningClient => 2,
            ConnectStatus::InvalidKey => 3,
            ConnectStatus::MismatchedProtocol => 4,
        }
    }

    /// The status that a number stands for.
    pub fn from_i32(n: i32) -> (res: Option<ConnectStatus>)
        ensures
            res == ConnectStatus::of_code(n),
    {
        match n {
            1 => Some(ConnectStatus::NewClient),
            2 => Some(ConnectStatus::ReturningClient),
            3 => Some(ConnectStatus::InvalidKey),
            4 => Some(ConnectStatus::MismatchedProtocol),
            _ => None,
        }
    }
}

/// A status is the status of its own code, and a code is the code of its own
/// status.
pub proof fn law_status_codes(s: ConnectStatus, n: i32)
    ensures
        ConnectStatus::of_code(s.code()) == Some(s),
        ConnectStatus::of_code(n) matches Some(t) ==> t.code() == n,
{
}

impl ConnectResponse {
    /// The status, when the response carries one that is known.
    pub fn connect_status(&self) -> (res: Option<ConnectStatus>)
        ensures
            res == match self.status {
                Some(n) => ConnectStatus::of_code(n),
                None => None,
            },
    {
        match self.status {
            Some(n) => ConnectStatus::from_i32(n),
            None => None,
        }
    }
}

/// What a client opens a connection with: its id and protocol version.
#[derive(Clone, Debug, PartialEq, Eq)]
pub struct ConnectRequest {
    pub client_id: Option<String>,
    pub version: Option<i32>,
}

/// What a [`ConnectRequest`] holds.
#[verifier::ext_equal]
pub struct ConnectRequestView {
    pub client_id: Option<Seq<char>>,
    pub version: Option<i32>,
}

impl View for ConnectRequest {
    type V = ConnectRequestView;

    open spec fn view(&self) -> ConnectRequestView {
        ConnectRequestView {
            client_id: opt_text(self.client_id),
            version: self.version,
        }
    }
}

impl ConnectRequestView {
    /// The message as fields, by number.
    pub open spec fn fields(self) -> Seq<Field> {
        text_field(1, self.client_id) + i32_field(2, self.version)
    }

    /// The message that a list of fields makes up. Unknown fields are passed over.
    pub open spec fn from_fields(fs: Seq<Field>) -> Option<ConnectRequestView> {
        match (
            last_of(fs, 1, text_kind()),
            last_of(fs, 2, i32_kind()),
        ) {
            (Some(client_id), Some(version)) => Some(
                ConnectRequestView { client_id, version },
            ),
            _ => None,
        }
    }

    /// The message as bytes.
    pub open spec fn bytes(self) -> Seq<u8> {
        fields_bytes(self.fields())
    }

    /// The message that bytes encode.
    pub open spec fn parse(b: Seq<u8>) -> Option<ConnectRequestView> {
        match parse_fields(b) {
            Some(fs) => ConnectRequestView::from_fields(fs),
            None => None,
        }
    }
}

/// Reading a [`ConnectRequest`] gives back what was written.
pub proof fn law_connect_request_round_trip(v: ConnectRequestView)
    requires
        all_plain(v.fields()),
    ensures
        ConnectRequestView::parse(v.bytes()) == Some(v),
{
    broadcast use group_optional;

    law_fields_round_trip(v.fields());
}

impl ConnectRequest {
    /// The message on the wire, which reads back as the message.
    pub fn encode_to_vec(&self) -> (res: Vec<u8>)
        ensures
            res@ == self@.bytes(),
            ConnectRequestView::parse(res@) == Some(self@),
    {
        let mut fs: Vec<RawField> = Vec::new();
        put_text(&mut fs, 1, &self.client_id);
        put_i32(&mut fs, 2, self.version);
        proof {
            assert(fields(fs@) =~= self@.fields());
            lemma_all_plain(fs@);
            law_connect_request_round_trip(self@);
        }
        write_fields(&fs)
    }

    /// Reads a message; fails exactly when the bytes are not one, with the first
    /// thing wrong with them.
    pub fn decode(b: &[u8]) -> (res: Result<ConnectRequest, DecodeError>)
        ensures
            match res {
                Ok(m) => ConnectRequestView::parse(b@) == Some(m@),
                Err(e) => ConnectRequestView::parse(b@) is None && fault(Shape::ConnectRequest, b@) == Some(e),
            },
    {
        match ConnectRequest::read(b) {
            Ok(m) => Ok(m),
            Err(_) => {
                proof {
                    assert(b@.len() == b.len());
                    lemma_connect_request_fault(b@);
                }
                report(Shape::ConnectRequest, b)
            },
        }
    }

    fn read(b: &[u8]) -> (res: Result<ConnectRequest, Malformed>)
        ensures
            match res {
                Ok(m) => ConnectRequestView::parse(b@) == Some(m@),
                Err(_) => ConnectRequestView::parse(b@) is None,
            },
    {
        let fs = match read_fields(b) {
            Ok(fs) => fs,
            Err(e) => {
                return Err(e);
            },
        };
        let client_id = match get_text(&fs, 1) {
            Ok(v) => v,
            Err(e) => {
                return Err(e);
            },
        };
        let version = match get_i32(&fs, 2) {
            Ok(v) => v,
            Err(e) => {
                return Err(e);
            },
        };
        Ok(ConnectRequest { client_id, version })
    }
}

impl Default for ConnectRequest {
    fn default() -> (res: ConnectRequest)
        ensures
            res.client_id is None,
            res.version is None,
    {
        ConnectRequest { client_id: None, version: None }
    }
}

/// The answer to a [`ConnectRequest`].
#[derive(Clone, Debug, PartialEq, Eq)]
pub struct ConnectResponse {
    pub status: Option<i32>,
    pub error: Option<String>,
}

/// What a [`ConnectResponse`] holds.
#[verifier::ext_equal]
pub struct ConnectResponseView {
    pub status: Option<i32>,
    pub error: Option<Seq<char>>,
}

impl View for ConnectResponse {
    type V = ConnectResponseView;

    open spec fn view(&self) -> ConnectResponseView {
        ConnectResponseView {
            status: self.status,
            error: opt_text(self.error),
        }
    }
}

/// The last of the numbers that stand for a status. A number that stands for
/// none counts as an unknown field.
pub open spec fn last_known(codes: Seq<i32>) -> Option<i32>
    decreases codes.len(),
{
    if codes.len() == 0 {
        None
    } else if ConnectStatus::of_code(codes.last()) is Some {
        Some(codes.last())
    } else {
        last_known(codes.drop_last())
    }
}

/// The status that a list of fields gives. The outer `None` says that an
/// occurrence is not a number.
pub open spec fn status_of(fs: Seq<Field>, tag: u32) -> Option<Option<i32>> {
    match all_of(fs, tag, i32_kind()) {
        None => None,
        Some(codes) => Some(last_known(codes)),
    }
}

/// Reads the status.
fn get_status(fs: &Vec<RawField>, tag: u32) -> (res: Result<Option<i32>, Malformed>)
    ensures
        match res {
            Ok(v) => status_of(fields(fs@), tag) == Some(v),
            Err(_) => status_of(fields(fs@), tag) is None,
        },
{
    let mut out: Option<i32> = None;
    let mut i: usize = 0;
    let ghost all = fields(fs@);
    assert(all.take(0) =~= Seq::<Field>::empty());
    while i < fs.len()
        invariant
            i <= fs.len(),
            all == fields(fs@),
            status_of(all.take(i as int), tag) == Some(out),
        decreases fs.len() - i,
    {
        let ghost before = all_of(all.take(i as int), tag, i32_kind())->Some_0;
        assert(all.take(i + 1).drop_last() =~= all.take(i as int));
        assert(all.take(i + 1).last() == fs@[i as int]@);
        if fs[i].tag == tag {
            match &fs[i].value {
                RawValue::Varint(x) => {
                    let code: i32 = to_i32(*x);
                    if ConnectStatus::from_i32(code).is_some() {
                        out = Some(code);
                    }
                    assert(before.push(code).drop_last() =~= before);
                },
                _ => {
                    proof {
                        lemma_all_of_prefix(all, tag, i32_kind(), i + 1);
                    }
                    return Err(Malformed);
                },
            }
        }
        i += 1;
    }
    assert(all.take(fs@.len() as int) =~= all);
    Ok(out)
}

impl ConnectResponseView {
    /// The message as a reader takes it: a number that stands for no status is
    /// not one.
    pub open spec fn known(self) -> ConnectResponseView {
        ConnectResponseView {
            status: match self.status {
                Some(n) => match ConnectStatus::of_code(n) {
                    Some(_) => Some(n),
                    None => None,
                },
                None => None,
            },
            ..self
        }
    }

    /// The message as fields, by number.
    pub open spec fn fields(self) -> Seq<Field> {
        i32_field(1, self.status) + text_field(2, self.error)
    }

    /// The message that a list of fields makes up. Unknown fields are passed over.
    pub open spec fn from_fields(fs: Seq<Field>) -> Option<ConnectResponseView> {
        match (
            status_of(fs, 1),
            last_of(fs, 2, text_kind()),
        ) {
            (Some(status), Some(error)) => Some(
                ConnectResponseView { status, error },
            ),
            _ => None,
        }
    }

    /// The message as bytes.
    pub open spec fn bytes(self) -> Seq<u8> {
        fields_bytes(self.fields())
    }

    /// The message that bytes encode.
    pub open spec fn parse(b: Seq<u8>) -> Option<ConnectResponseView> {
        match parse_fields(b) {
            Some(fs) => ConnectResponseView::from_fields(fs),
            None => None,
        }
    }
}

/// Reading a [`ConnectResponse`] gives back what was written, but for a status
/// that is none.
pub proof fn law_connect_response_round_trip(v: ConnectResponseView)
    requires
        all_plain(v.fields()),
    ensures
        ConnectResponseView::parse(v.bytes()) == Some(v.known()),
{
    broadcast use group_optional;

    law_fields_round_trip(v.fields());
    lemma_all_of_concat(i32_field(1, v.status), text_field(2, v.error), 1, i32_kind());
    lemma_i32_field_own(1, v.status);
    lemma_text_field_other(2, v.error, 1, i32_kind());
    reveal_with_fuel(last_known, 2);
    if let Some(n) = v.status {
        assert(seq![n] + Seq::<i32>::empty() =~= seq![n]);
        assert(seq![n].drop_last() =~= Seq::<i32>::empty());
    } else {
        assert(Seq::<i32>::empty() + Seq::<i32>::empty() =~= Seq::<i32>::empty());
    }
}

impl ConnectResponse {
    /// The message on the wire, which reads back as the message with the status
    /// that it has.
    pub fn encode_to_vec(&self) -> (res: Vec<u8>)
        ensures
            res@ == self@.bytes(),
            ConnectResponseView::parse(res@) == Some(self@.known()),
    {
        let mut fs: Vec<RawField> = Vec::new();
        put_i32(&mut fs, 1, self.status);
        put_text(&mut fs, 2, &self.error);
        proof {
            assert(fields(fs@) =~= self@.fields());
            lemma_all_plain(fs@);
            law_connect_response_round_trip(self@);
        }
        write_fields(&fs)
    }

    /// Reads a message; fails exactly when the bytes are not one, with the first
    /// thing wrong with them.
    pub fn decode(b: &[u8]) -> (res: Result<ConnectResponse, DecodeError>)
        ensures
            match res {
                Ok(m) => ConnectResponseView::parse(b@) == Some(m@),
                Err(e) => ConnectResponseView::parse(b@) is None && fault(Shape::ConnectResponse, b@) == Some(e),
            },
    {
        match ConnectResponse::read(b) {
            Ok(m) => Ok(m),
            Err(_) => {
                proof {
                    assert(b@.len() == b.len());
                    lemma_connect_response_fault(b@);
                }
                report(Shape::ConnectResponse, b)
            },
        }
    }

    fn read(b: &[u8]) -> (res: Result<ConnectResponse, Malformed>)
        ensures
            match res {
                Ok(m) => ConnectResponseView::parse(b@) == Some(m@),
                Err(_) => ConnectResponseView::parse(b@) is None,
            },
    {
        let fs = match read_fields(b) {
            Ok(fs) => fs,
            Err(e) => {
                return Err(e);
            },
        };
        let status = match get_status(&fs, 1) {
            Ok(v) => v,
            Err(e) => {
                return Err(e);
            },
        };
        let error = match get_text(&fs, 2) {
            Ok(v) => v,
            Err(e) => {
                return Err(e);
            },
        };
        Ok(ConnectResponse { status, error })
    }
}

impl Default for ConnectResponse {
    fn default() -> (res: ConnectResponse)
        ensures
            res.status is None,
            res.error is None,
    {
        ConnectResponse { status: None, error: None }
    }
}

/// How many packets the sender has received so far.
#[derive(Clone, Debug, PartialEq, Eq)]
pub struct SequenceHeader {
    pub sequence_number: Option<i32>,
}

/// What a [`SequenceHeader`] holds.
#[verifier::ext_equal]
pub struct SequenceHeaderView {
    pub sequence_number: Option<i32>,
}

impl View for SequenceHeader {
    type V = SequenceHeaderView;

    open spec fn view(&self) -> SequenceHeaderView {
        SequenceHeaderView {
            sequence_number: self.sequence_number,
        }
    }
}

impl SequenceHeaderView {
    /// The message as fields, by number.
    pub open spec fn fields(self) -> Seq<Field> {
        i32_field(1, self.sequence_number)
    }

    /// The message that a list of fields makes up. Unknown fields are passed over.
    pub open spec fn from_fields(fs: Seq<Field>) -> Option<SequenceHeaderView> {
        match last_of(fs, 1, i32_kind()) {
            Some(sequence_number) => Some(SequenceHeaderView { sequence_number }),
            None => None,
        }
    }

    /// The message as bytes.
    pub open spec fn bytes(self) -> Seq<u8> {
        fields_bytes(self.fields())
    }

    /// The message that bytes encode.
    pub open spec fn parse(b: Seq<u8>) -> Option<SequenceHeaderView> {
        match parse_fields(b) {
            Some(fs) => SequenceHeaderView::from_fields(fs),
            None => None,
        }
    }
}

/// Reading a [`SequenceHeader`] gives back what was written.
pub proof fn law_sequence_header_round_trip(v: SequenceHeaderView)
    requires
        all_plain(v.fields()),
    ensures
        SequenceHeaderView::parse(v.bytes()) == Some(v),
{
    broadcast use group_optional;

    law_fields_round_trip(v.fields());
}

impl SequenceHeader {
    /// The message on the wire, which reads back as the message.
    pub fn encode_to_vec(&self) -> (res: Vec<u8>)
        ensures
            res@ == self@.bytes(),
            SequenceHeaderView::parse(res@) == Some(self@),
    {
        let mut fs: Vec<RawField> = Vec::new();
        put_i32(&mut fs, 1, self.sequence_number);
        proof {
            assert(fields(fs@) =~= self@.fields());
            lemma_all_plain(fs@);
            law_sequence_header_round_trip(self@);
        }
        write_fields(&fs)
    }

    /// Reads a message; fails exactly when the bytes are not one, with the first
    /// thing wrong with them.
    pub fn decode(b: &[u8]) -> (res: Result<SequenceHeader, DecodeError>)
        ensures
            match res {
                Ok(m) => SequenceHeaderView::parse(b@) == Some(m@),
                Err(e) => SequenceHeaderView::parse(b@) is None && fault(Shape::SequenceHeader, b@) == Some(e),
            },
    {
        match SequenceHeader::read(b) {
            Ok(m) => Ok(m),
            Err(_) => {
                proof {
                    assert(b@.len() == b.len());
                    lemma_sequence_header_fault(b@);
                }
                report(Shape::SequenceHeader, b)
            },
        }
    }

    fn read(b: &[u8]) -> (res: Result<SequenceHeader, Malformed>)
        ensures
            match res {
                Ok(m) => SequenceHeaderView::parse(b@) == Some(m@),
                Err(_) => SequenceHeaderView::parse(b@) is None,
            },
    {
        let fs = match read_fields(b) {
            Ok(fs) => fs,
            Err(e) => {
                return Err(e);
            },
        };
        let sequence_number = match get_i32(&fs, 1) {
            Ok(v) => v,
            Err(e) => {
                return Err(e);
            },
        };
        Ok(SequenceHeader { sequence_number })
    }
}

impl Default for SequenceHeader {
    fn default() -> (res: SequenceHeader)
        ensures
            res.sequence_number is None,
    {
        SequenceHeader { sequence_number: None }
    }
}

/// Serialized, still encrypted packets that the peer has not received.
#[derive(Clone, Debug, PartialEq, Eq)]
pub struct CatchupBuffer {
    pub buffer: Vec<Vec<u8>>,
}

/// What a [`CatchupBuffer`] holds.
#[verifier::ext_equal]
pub struct CatchupBufferView {
    pub buffer: Seq<Seq<u8>>,
}

impl View for CatchupBuffer {
    type V = CatchupBufferView;

    open spec fn view(&self) -> CatchupBufferView {
        CatchupBufferView {
            buffer: blobs(self.buffer@),
        }
    }
}

impl CatchupBufferView {
    /// The message as fields, by number.
    pub open spec fn fields(self) -> Seq<Field> {
        blobs_field(1, self.buffer)
    }

    /// The message that a list of fields makes up. Unknown fields are passed over.
    pub open spec fn from_fields(fs: Seq<Field>) -> Option<CatchupBufferView> {
        match all_of(fs, 1, bytes_kind()) {
            Some(buffer) => Some(CatchupBufferView { buffer }),
            None => None,
        }
    }

    /// The message as bytes.
    pub open spec fn bytes(self) -> Seq<u8> {
        fields_bytes(self.fields())
    }

    /// The message that bytes encode.
    pub open spec fn parse(b: Seq<u8>) -> Option<CatchupBufferView> {
        match parse_fields(b) {
            Some(fs) => CatchupBufferView::from_fields(fs),
            None => None,
        }
    }
}

/// Reading a [`CatchupBuffer`] gives back what was written.
pub proof fn law_catchup_buffer_round_trip(v: CatchupBufferView)
    requires
        all_plain(v.fields()),
    ensures
        CatchupBufferView::parse(v.bytes()) == Some(v),
{
    broadcast use group_fields;

    law_fields_round_trip(v.fields());
}

impl CatchupBuffer {
    /// The message on the wire, which reads back as the message.
    pub fn encode_to_vec(&self) -> (res: Vec<u8>)
        ensures
            res@ == self@.bytes(),
            CatchupBufferView::parse(res@) == Some(self@),
    {
        let mut fs: Vec<RawField> = Vec::new();
        put_blobs(&mut fs, 1, &self.buffer);
        proof {
            assert(fields(fs@) =~= self@.fields());
            lemma_all_plain(fs@);
            law_catchup_buffer_round_trip(self@);
        }
        write_fields(&fs)
    }

    /// Reads a message; fails exactly when the bytes are not one, with the first
    /// thing wrong with them.
    pub fn decode(b: &[u8]) -> (res: Result<CatchupBuffer, DecodeError>)
        ensures
            match res {
                Ok(m) => CatchupBufferView::parse(b@) == Some(m@),
                Err(e) => CatchupBufferView::parse(b@) is None && fault(Shape::CatchupBuffer, b@) == Some(e),
            },
    {
        match CatchupBuffer::read(b) {
            Ok(m) => Ok(m),
            Err(_) => {
                proof {
                    assert(b@.len() == b.len());
                    lemma_catchup_buffer_fault(b@);
                }
                report(Shape::CatchupBuffer, b)
            },
        }
    }

    fn read(b: &[u8]) -> (res: Result<CatchupBuffer, Malformed>)
        ensures
            match res {
                Ok(m) => CatchupBufferView::parse(b@) == Some(m@),
                Err(_) => CatchupBufferView::parse(b@) is None,
            },
    {
        let fs = match read_fields(b) {
            Ok(fs) => fs,
            Err(e) => {
                return Err(e);
            },
        };
        let buffer = match get_blobs(&fs, 1) {
            Ok(v) => v,
            Err(e) => {
                return Err(e);
            },
        };
        Ok(CatchupBuffer { buffer })
    }
}

impl Default for CatchupBuffer {
    fn default() -> (res: CatchupBuffer)
        ensures
            res.buffer@.len() == 0,
    {
        CatchupBuffer { buffer: Vec::new() }
    }
}

/// A unix path (`name`) or a TCP port (`port`).
#[derive(Clone, Debug, PartialEq, Eq)]
pub struct SocketEndpoint {
    pub name: Option<String>,
    pub port: Option<i32>,
}

/// What a [`SocketEndpoint`] holds.
#[verifier::ext_equal]
pub struct SocketEndpointView {
    pub name: Option<Seq<char>>,
    pub port: Option<i32>,
}

impl View for SocketEndpoint {
    type V = SocketEndpointView;

    open spec fn view(&self) -> SocketEndpointView {
        SocketEndpointView {
            name: opt_text(self.name),
            port: self.port,
        }
    }
}

impl SocketEndpointView {
    /// The message as fields, by number.
    pub open spec fn fields(self) -> Seq<Field> {
        text_field(1, self.name) + i32_field(2, self.port)
    }

    /// The message that a list of fields makes up. Unknown fields are passed over.
    pub open spec fn from_fields(fs: Seq<Field>) -> Option<SocketEndpointView> {
        match (
            last_of(fs, 1, text_kind()),
            last_of(fs, 2, i32_kind()),
        ) {
            (Some(name), Some(port)) => Some(
                SocketEndpointView { name, port },
            ),
            _ => None,
        }
    }

    /// The message as bytes.
    pub open spec fn bytes(self) -> Seq<u8> {
        fields_bytes(self.fields())
    }

    /// The message that bytes encode.
    pub open spec fn parse(b: Seq<u8>) -> Option<SocketEndpointView> {
        match parse_fields(b) {
            Some(fs) => SocketEndpointView::from_fields(fs),
            None => None,
        }
    }
}

/// Reading a [`SocketEndpoint`] gives back what was written.
pub proof fn law_socket_endpoint_round_trip(v: SocketEndpointView)
    requires
        all_plain(v.fields()),
    ensures
        SocketEndpointView::parse(v.bytes()) == Some(v),
{
    broadcast use group_optional;

    law_fields_round_trip(v.fields());
}

impl SocketEndpoint {
    /// The message on the wire, which reads back as the message.
    pub fn encode_to_vec(&self) -> (res: Vec<u8>)
        ensures
            res@ == self@.bytes(),
            SocketEndpointView::parse(res@) == Some(self@),
    {
        let mut fs: Vec<RawField> = Vec::new();
        put_text(&mut fs, 1, &self.name);
        put_i32(&mut fs, 2, self.port);
        proof {
            assert(fields(fs@) =~= self@.fields());
            lemma_all_plain(fs@);
            law_socket_endpoint_round_trip(self@);
        }
        write_fields(&fs)
    }

    /// Reads a message; fails exactly when the bytes are not one, with the first
    /// thing wrong with them.
    pub fn decode(b: &[u8]) -> (res: Result<SocketEndpoint, DecodeError>)
        ensures
            match res {
                Ok(m) => SocketEndpointView::parse(b@) == Some(m@),
                Err(e) => SocketEndpointView::parse(b@) is None && fault(Shape::SocketEndpoint, b@) == Some(e),
            },
    {
        match SocketEndpoint::read(b) {
            Ok(m) => Ok(m),
            Err(_) => {
                proof {
                    assert(b@.len() == b.len());
                    lemma_socket_endpoint_fault(b@);
                }
                report(Shape::SocketEndpoint, b)
            },
        }
    }

    fn read(b: &[u8]) -> (res: Result<SocketEndpoint, Malformed>)
        ensures
            match res {
                Ok(m) => SocketEndpointView::parse(b@) == Some(m@),
                Err(_) => SocketEndpointView::parse(b@) is None,
            },
    {
        let fs = match read_fields(b) {
            Ok(fs) => fs,
            Err(e) => {
                return Err(e);
            },
        };
        let name = match get_text(&fs, 1) {
            Ok(v) => v,
            Err(e) => {
                return Err(e);
            },
        };
        let port = match get_i32(&fs, 2) {
            Ok(v) => v,
            Err(e) => {
                return Err(e);
            },
        };
        Ok(SocketEndpoint { name, port })
    }
}

impl Default for SocketEndpoint {
    fn default() -> (res: SocketEndpoint)
        ensures
            res.name is None,
            res.port is None,
    {
        SocketEndpoint { name: None, port: None }
    }
}

/// Terminal input or output.
#[derive(Clone, Debug, PartialEq, Eq)]
pub struct TerminalBuffer {
    pub buffer: Option<Vec<u8>>,
}

/// What a [`TerminalBuffer`] holds.
#[verifier::ext_equal]
pub struct TerminalBufferView {
    pub buffer: Option<Seq<u8>>,
}

impl View for TerminalBuffer {
    type V = TerminalBufferView;

    open spec fn view(&self) -> TerminalBufferView {
        TerminalBufferView {
            buffer: opt_blob(self.buffer),
        }
    }
}

impl TerminalBufferView {
    /// The message as fields, by number.
    pub open spec fn fields(self) -> Seq<Field> {
        bytes_field(1, self.buffer)
    }

    /// The message that a list of fields makes up. Unknown fields are passed over.
    pub open spec fn from_fields(fs: Seq<Field>) -> Option<TerminalBufferView> {
        match last_of(fs, 1, bytes_kind()) {
            Some(buffer) => Some(TerminalBufferView { buffer }),
            None => None,
        }
    }

    /// The message as bytes.
    pub open spec fn bytes(self) -> Seq<u8> {
        fields_bytes(self.fields())
    }

    /// The message that bytes encode.
    pub open spec fn parse(b: Seq<u8>) -> Option<TerminalBufferView> {
        match parse_fields(b) {
            Some(fs) => TerminalBufferView::from_fields(fs),
            None => None,
        }
    }
}

/// Reading a [`TerminalBuffer`] gives back what was written.
pub proof fn law_terminal_buffer_round_trip(v: TerminalBufferView)
    requires
        all_plain(v.fields()),
    ensures
        TerminalBufferView::parse(v.bytes()) == Some(v),
{
    broadcast use group_optional;

    law_fields_round_trip(v.fields());
}

impl TerminalBuffer {
    /// The message on the wire, which reads back as the message.
    pub fn encode_to_vec(&self) -> (res: Vec<u8>)
        ensures
            res@ == self@.bytes(),
            TerminalBufferView::parse(res@) == Some(self@),
    {
        let mut fs: Vec<RawField> = Vec::new();
        put_bytes(&mut fs, 1, &self.buffer);
        proof {
            assert(fields(fs@) =~= self@.fields());
            lemma_all_plain(fs@);
            law_terminal_buffer_round_trip(self@);
        }
        write_fields(&fs)
    }

    /// Reads a message; fails exactly when the bytes are not one, with the first
    /// thing wrong with them.
    pub fn decode(b: &[u8]) -> (res: Result<TerminalBuffer, DecodeError>)
        ensures
            match res {
                Ok(m) => TerminalBufferView::parse(b@) == Some(m@),
                Err(e) => TerminalBufferView::parse(b@) is None && fault(Shape::TerminalBuffer, b@) == Some(e),
            },
    {
        match TerminalBuffer::read(b) {
            Ok(m) => Ok(m),
            Err(_) => {
                proof {
                    assert(b@.len() == b.len());
                    lemma_terminal_buffer_fault(b@);
                }
                report(Shape::TerminalBuffer, b)
            },
        }
    }

    fn read(b: &[u8]) -> (res: Result<TerminalBuffer, Malformed>)
        ensures
            match res {
                Ok(m) => TerminalBufferView::parse(b@) == Some(m@),
                Err(_) => TerminalBufferView::parse(b@) is None,
            },
    {
        let fs = match read_fields(b) {
            Ok(fs) => fs,
            Err(e) => {
                return Err(e);
            },
        };
        let buffer = match get_bytes(&fs, 1) {
            Ok(v) => v,
            Err(e) => {
                return Err(e);
            },
        };
        Ok(TerminalBuffer { buffer })
    }
}

impl Default for TerminalBuffer {
    fn default() -> (res: TerminalBuffer)
        ensures
            res.buffer is None,
    {
        TerminalBuffer { buffer: None }
    }
}

/// A window size: `row` and `column` in characters, `width` and `height` in
/// pixels.
#[derive(Clone, Debug, PartialEq, Eq)]
pub struct TerminalInfo {
    pub id: Option<String>,
    pub row: Option<i32>,
    pub column: Option<i32>,
    pub width: Option<i32>,
    pub height: Option<i32>,
}

/// What a [`TerminalInfo`] holds.
#[verifier::ext_equal]
pub struct TerminalInfoView {
    pub id: Option<Seq<char>>,
    pub row: Option<i32>,
    pub column: Option<i32>,
    pub width: Option<i32>,
    pub height: Option<i32>,
}

impl View for TerminalInfo {
    type V = TerminalInfoView;

    open spec fn view(&self) -> TerminalInfoView {
        TerminalInfoView {
            id: opt_text(self.id),
            row: self.row,
            column: self.column,
            width: self.width,
            height: self.height,
        }
    }
}

impl TerminalInfoView {
    /// The message as fields, by number.
    pub open spec fn fields(self) -> Seq<Field> {
        text_field(1, self.id) + i32_field(2, self.row) + i32_field(3, self.column) + i32_field(4, self.width) + i32_field(5, self.height)
    }

    /// The message that a list of fields makes up. Unknown fields are passed over.
    pub open spec fn from_fields(fs: Seq<Field>) -> Option<TerminalInfoView> {
        match (
            last_of(fs, 1, text_kind()),
            last_of(fs, 2, i32_kind()),
            last_of(fs, 3, i32_kind()),
            last_of(fs, 4, i32_kind()),
            last_of(fs, 5, i32_kind()),
        ) {
            (Some(id), Some(row), Some(column), Some(width), Some(height)) => Some(
                TerminalInfoView { id, row, column, width, height },
            ),
            _ => None,
        }
    }

    /// The message as bytes.
    pub open spec fn bytes(self) -> Seq<u8> {
        fields_bytes(self.fields())
    }

    /// The message that bytes encode.
    pub open spec fn parse(b: Seq<u8>) -> Option<TerminalInfoView> {
        match parse_fields(b) {
            Some(fs) => TerminalInfoView::from_fields(fs),
            None => None,
        }
    }
}

/// Reading a [`TerminalInfo`] gives back what was written.
pub proof fn law_terminal_info_round_trip(v: TerminalInfoView)
    requires
        all_plain(v.fields()),
    ensures
        TerminalInfoView::parse(v.bytes()) == Some(v),
{
    broadcast use group_optional;

    law_fields_round_trip(v.fields());
}

impl TerminalInfo {
    /// The message on the wire, which reads back as the message.
    pub fn encode_to_vec(&self) -> (res: Vec<u8>)
        ensures
            res@ == self@.bytes(),
            TerminalInfoView::parse(res@) == Some(self@),
    {
        let mut fs: Vec<RawField> = Vec::new();
        put_text(&mut fs, 1, &self.id);
        put_i32(&mut fs, 2, self.row);
        put_i32(&mut fs, 3, self.column);
        put_i32(&mut fs, 4, self.width);
        put_i32(&mut fs, 5, self.height);
        proof {
            assert(fields(fs@) =~= self@.fields());
            lemma_all_plain(fs@);
            law_terminal_info_round_trip(self@);
        }
        write_fields(&fs)
    }

    /// Reads a message; fails exactly when the bytes are not one, with the first
    /// thing wrong with them.
    pub fn decode(b: &[u8]) -> (res: Result<TerminalInfo, DecodeError>)
        ensures
            match res {
                Ok(m) => TerminalInfoView::parse(b@) == Some(m@),
                Err(e) => TerminalInfoView::parse(b@) is None && fault(Shape::TerminalInfo, b@) == Some(e),
            },
    {
        match TerminalInfo::read(b) {
            Ok(m) => Ok(m),
            Err(_) => {
                proof {
                    assert(b@.len() == b.len());
                    lemma_terminal_info_fault(b@);
                }
                report(Shape::TerminalInfo, b)
            },
        }
    }

    fn read(b: &[u8]) -> (res: Result<TerminalInfo, Malformed>)
        ensures
            match res {
                Ok(m) => TerminalInfoView::parse(b@) == Some(m@),
                Err(_) => TerminalInfoView::parse(b@) is None,
            },
    {
        let fs = match read_fields(b) {
            Ok(fs) => fs,
            Err(e) => {
                return Err(e);
            },
        };
        let id = match get_text(&fs, 1) {
            Ok(v) => v,
            Err(e) => {
                return Err(e);
            },
        };
        let row = match get_i32(&fs, 2) {
            Ok(v) => v,
            Err(e) => {
                return Err(e);
            },
        };
        let column = match get_i32(&fs, 3) {
            Ok(v) => v,
            Err(e) => {
                return Err(e);
            },
        };
        let width = match get_i32(&fs, 4) {
            Ok(v) => v,
            Err(e) => {
                return Err(e);
            },
        };
        let height = match get_i32(&fs, 5) {
            Ok(v) => v,
            Err(e) => {
                return Err(e);
            },
        };
        Ok(TerminalInfo { id, row, column, width, height })
    }
}

impl Default for TerminalInfo {
    fn default() -> (res: TerminalInfo)
        ensures
            res.id is None,
            res.row is None,
            res.column is None,
            res.width is None,
            res.height is None,
    {
        TerminalInfo { id: None, row: None, column: None, width: None, height: None }
    }
}

/// The answer to a [`PortForwardSourceRequest`].
#[derive(Clone, Debug, PartialEq, Eq)]
pub struct PortForwardSourceResponse {
    pub error: Option<String>,
}

/// What a [`PortForwardSourceResponse`] holds.
#[verifier::ext_equal]
pub struct PortForwardSourceResponseView {
    pub error: Option<Seq<char>>,
}

impl View for PortForwardSourceResponse {
    type V = PortForwardSourceResponseView;

    open spec fn view(&self) -> PortForwardSourceResponseView {
        PortForwardSourceResponseView {
            error: opt_text(self.error),
        }
    }
}

impl PortForwardSourceResponseView {
    /// The message as fields, by number.
    pub open spec fn fields(self) -> Seq<Field> {
        text_field(1, self.error)
    }

    /// The message that a list of fields makes up. Unknown fields are passed over.
    pub open spec fn from_fields(fs: Seq<Field>) -> Option<PortForwardSourceResponseView> {
        match last_of(fs, 1, text_kind()) {
            Some(error) => Some(PortForwardSourceResponseView { error }),
            None => None,
        }
    }

    /// The message as bytes.
    pub open spec fn bytes(self) -> Seq<u8> {
        fields_bytes(self.fields())
    }

    /// The message that bytes encode.
    pub open spec fn parse(b: Seq<u8>) -> Option<PortForwardSourceResponseView> {
        match parse_fields(b) {
            Some(fs) => PortForwardSourceResponseView::from_fields(fs),
            None => None,
        }
    }
}

/// Reading a [`PortForwardSourceResponse`] gives back what was written.
pub proof fn law_port_forward_source_response_round_trip(v: PortForwardSourceResponseView)
    requires
        all_plain(v.fields()),
    ensures
        PortForwardSourceResponseView::parse(v.bytes()) == Some(v),
{
    broadcast use group_optional;

    law_fields_round_trip(v.fields());
}

impl PortForwardSourceResponse {
    /// The message on the wire, which reads back as the message.
    pub fn encode_to_vec(&self) -> (res: Vec<u8>)
        ensures
            res@ == self@.bytes(),
            PortForwardSourceResponseView::parse(res@) == Some(self@),
    {
        let mut fs: Vec<RawField> = Vec::new();
        put_text(&mut fs, 1, &self.error);
        proof {
            assert(fields(fs@) =~= self@.fields());
            lemma_all_plain(fs@);
            law_port_forward_source_response_round_trip(self@);
        }
        write_fields(&fs)
    }

    /// Reads a message; fails exactly when the bytes are not one, with the first
    /// thing wrong with them.
    pub fn decode(b: &[u8]) -> (res: Result<PortForwardSourceResponse, DecodeError>)
        ensures
            match res {
                Ok(m) => PortForwardSourceResponseView::parse(b@) == Some(m@),
                Err(e) => PortForwardSourceResponseView::parse(b@) is None && fault(Shape::PortForwardSourceResponse, b@) == Some(e),
            },
    {
        match PortForwardSourceResponse::read(b) {
            Ok(m) => Ok(m),
            Err(_) => {
                proof {
                    assert(b@.len() == b.len());
                    lemma_port_forward_source_response_fault(b@);
                }
                report(Shape::PortForwardSourceResponse, b)
            },
        }
    }

    fn read(b: &[u8]) -> (res: Result<PortForwardSourceResponse, Malformed>)
        ensures
            match res {
                Ok(m) => PortForwardSourceResponseView::parse(b@) == Some(m@),
                Err(_) => PortForwardSourceResponseView::parse(b@) is None,
            },
    {
        let fs = match read_fields(b) {
            Ok(fs) => fs,
            Err(e) => {
                return Err(e);
            },
        };
        let error = match get_text(&fs, 1) {
            Ok(v) => v,
            Err(e) => {
                return Err(e);
            },
        };
        Ok(PortForwardSourceResponse { error })
    }
}

impl Default for PortForwardSourceResponse {
    fn default() -> (res: PortForwardSourceResponse)
        ensures
            res.error is None,
    {
        PortForwardSourceResponse { error: None }
    }
}

/// The answer to a [`PortForwardDestinationRequest`].
#[derive(Clone, Debug, PartialEq, Eq)]
pub struct PortForwardDestinationResponse {
    pub clientfd: Option<i32>,
    pub socketid: Option<i32>,
    pub error: Option<String>,
}

/// What a [`PortForwardDestinationResponse`] holds.
#[verifier::ext_equal]
pub struct PortForwardDestinationResponseView {
    pub clientfd: Option<i32>,
    pub socketid: Option<i32>,
    pub error: Option<Seq<char>>,
}

impl View for PortForwardDestinationResponse {
    type V = PortForwardDestinationResponseView;

    open spec fn view(&self) -> PortForwardDestinationResponseView {
        PortForwardDestinationResponseView {
            clientfd: self.clientfd,
            socketid: self.socketid,
            error: opt_text(self.error),
        }
    }
}

impl PortForwardDestinationResponseView {
    /// The message as fields, by number.
    pub open spec fn fields(self) -> Seq<Field> {
        i32_field(1, self.clientfd) + i32_field(2, self.socketid) + text_field(3, self.error)
    }

    /// The message that a list of fields makes up. Unknown fields are passed over.
    pub open spec fn from_fields(fs: Seq<Field>) -> Option<PortForwardDestinationResponseView> {
        match (
            last_of(fs, 1, i32_kind()),
            last_of(fs, 2, i32_kind()),
            last_of(fs, 3, text_kind()),
        ) {
            (Some(clientfd), Some(socketid), Some(error)) => Some(
                PortForwardDestinationResponseView { clientfd, socketid, error },
            ),
            _ => None,
        }
    }

    /// The message as bytes.
    pub open spec fn bytes(self) -> Seq<u8> {
        fields_bytes(self.fields())
    }

    /// The message that bytes encode.
    pub open spec fn parse(b: Seq<u8>) -> Option<PortForwardDestinationResponseView> {
        match parse_fields(b) {
            Some(fs) => PortForwardDestinationResponseView::from_fields(fs),
            None => None,
        }
    }
}

/// Reading a [`PortForwardDestinationResponse`] gives back what was written.
pub proof fn law_port_forward_destination_response_round_trip(v: PortForwardDestinationResponseView)
    requires
        all_plain(v.fields()),
    ensures
        PortForwardDestinationResponseView::parse(v.bytes()) == Some(v),
{
    broadcast use group_optional;

    law_fields_round_trip(v.fields());
}

impl PortForwardDestinationResponse {
    /// The message on the wire, which reads back as the message.
    pub fn encode_to_vec(&self) -> (res: Vec<u8>)
        ensures
            res@ == self@.bytes(),
            PortForwardDestinationResponseView::parse(res@) == Some(self@),
    {
        let mut fs: Vec<RawField> = Vec::new();
        put_i32(&mut fs, 1, self.clientfd);
        put_i32(&mut fs, 2, self.socketid);
        put_text(&mut fs, 3, &self.error);
        proof {
            assert(fields(fs@) =~= self@.fields());
            lemma_all_plain(fs@);
            law_port_forward_destination_response_round_trip(self@);
        }
        write_fields(&fs)
    }

    /// Reads a message; fails exactly when the bytes are not one, with the first
    /// thing wrong with them.
    pub fn decode(b: &[u8]) -> (res: Result<PortForwardDestinationResponse, DecodeError>)
        ensures
            match res {
                Ok(m) => PortForwardDestinationResponseView::parse(b@) == Some(m@),
                Err(e) => PortForwardDestinationResponseView::parse(b@) is None && fault(Shape::PortForwardDestinationResponse, b@) == Some(e),
            },
    {
        match PortForwardDestinationResponse::read(b) {
            Ok(m) => Ok(m),
            Err(_) => {
                proof {
                    assert(b@.len() == b.len());
                    lemma_port_forward_destination_response_fault(b@);
                }
                report(Shape::PortForwardDestinationResponse, b)
            },
        }
    }

    fn read(b: &[u8]) -> (res: Result<PortForwardDestinationResponse, Malformed>)
        ensures
            match res {
                Ok(m) => PortForwardDestinationResponseView::parse(b@) == Some(m@),
                Err(_) => PortForwardDestinationResponseView::parse(b@) is None,
            },
    {
        let fs = match read_fields(b) {
            Ok(fs) => fs,
            Err(e) => {
                return Err(e);
            },
        };
        let clientfd = match get_i32(&fs, 1) {
            Ok(v) => v,
            Err(e) => {
                return Err(e);
            },
        };
        let socketid = match get_i32(&fs, 2) {
            Ok(v) => v,
            Err(e) => {
                return Err(e);
            },
        };
        let error = match get_text(&fs, 3) {
            Ok(v) => v,
            Err(e) => {
                return Err(e);
            },
        };
        Ok(PortForwardDestinationResponse { clientfd, socketid, error })
    }
}

impl Default for PortForwardDestinationResponse {
    fn default() -> (res: PortForwardDestinationResponse)
        ensures
            res.clientfd is None,
            res.socketid is None,
            res.error is None,
    {
        PortForwardDestinationResponse { clientfd: None, socketid: None, error: None }
    }
}

/// Bytes, an error or the end of a forwarded connection.
#[derive(Clone, Debug, PartialEq, Eq)]
pub struct PortForwardData {
    pub sourcetodestination: Option<bool>,
    pub socketid: Option<i32>,
    pub buffer: Option<Vec<u8>>,
    pub error: Option<String>,
    pub closed: Option<bool>,
}

/// What a [`PortForwardData`] holds.
#[verifier::ext_equal]
pub struct PortForwardDataView {
    pub sourcetodestination: Option<bool>,
    pub socketid: Option<i32>,
    pub buffer: Option<Seq<u8>>,
    pub error: Option<Seq<char>>,
    pub closed: Option<bool>,
}

impl View for PortForwardData {
    type V = PortForwardDataView;

    open spec fn view(&self) -> PortForwardDataView {
        PortForwardDataView {
            sourcetodestination: self.sourcetodestination,
            socketid: self.socketid,
            buffer: opt_blob(self.buffer),
            error: opt_text(self.error),
            closed: self.closed,
        }
    }
}

impl PortForwardDataView {
    /// The message as fields, by number.
    pub open spec fn fields(self) -> Seq<Field> {
        bool_field(1, self.sourcetodestination) + i32_field(2, self.socketid) + bytes_field(3, self.buffer) + text_field(4, self.error) + bool_field(5, self.closed)
    }

    /// The message that a list of fields makes up. Unknown fields are passed over.
    pub open spec fn from_fields(fs: Seq<Field>) -> Option<PortForwardDataView> {
        match (
            last_of(fs, 1, bool_kind()),
            last_of(fs, 2, i32_kind()),
            last_of(fs, 3, bytes_kind()),
            last_of(fs, 4, text_kind()),
            last_of(fs, 5, bool_kind()),
        ) {
            (Some(sourcetodestination), Some(socketid), Some(buffer), Some(error), Some(closed)) => Some(
                PortForwardDataView { sourcetodestination, socketid, buffer, error, closed },
            ),
            _ => None,
        }
    }

    /// The message as bytes.
    pub open spec fn bytes(self) -> Seq<u8> {
        fields_bytes(self.fields())
    }

    /// The message that bytes encode.
    pub open spec fn parse(b: Seq<u8>) -> Option<PortForwardDataView> {
        match parse_fields(b) {
            Some(fs) => PortForwardDataView::from_fields(fs),
            None => None,
        }
    }
}

/// Reading a [`PortForwardData`] gives back what was written.
pub proof fn law_port_forward_data_round_trip(v: PortForwardDataView)
    requires
        all_plain(v.fields()),
    ensures
        PortForwardDataView::parse(v.bytes()) == Some(v),
{
    broadcast use group_optional;

    law_fields_round_trip(v.fields());
}

impl PortForwardData {
    /// The message on the wire, which reads back as the message.
    pub fn encode_to_vec(&self) -> (res: Vec<u8>)
        ensures
            res@ == self@.bytes(),
            PortForwardDataView::parse(res@) == Some(self@),
    {
        let mut fs: Vec<RawField> = Vec::new();
        put_bool(&mut fs, 1, self.sourcetodestination);
        put_i32(&mut fs, 2, self.socketid);
        put_bytes(&mut fs, 3, &self.buffer);
        put_text(&mut fs, 4, &self.error);
        put_bool(&mut fs, 5, self.closed);
        proof {
            assert(fields(fs@) =~= self@.fields());
            lemma_all_plain(fs@);
            law_port_forward_data_round_trip(self@);
        }
        write_fields(&fs)
    }

    /// Reads a message; fails exactly when the bytes are not one, with the first
    /// thing wrong with them.
    pub fn decode(b: &[u8]) -> (res: Result<PortForwardData, DecodeError>)
        ensures
            match res {
                Ok(m) => PortForwardDataView::parse(b@) == Some(m@),
                Err(e) => PortForwardDataView::parse(b@) is None && fault(Shape::PortForwardData, b@) == Some(e),
            },
    {
        match PortForwardData::read(b) {
            Ok(m) => Ok(m),
            Err(_) => {
                proof {
                    assert(b@.len() == b.len());
                    lemma_port_forward_data_fault(b@);
                }
                report(Shape::PortForwardData, b)
            },
        }
    }

    fn read(b: &[u8]) -> (res: Result<PortForwardData, Malformed>)
        ensures
            match res {
                Ok(m) => PortForwardDataView::parse(b@) == Some(m@),
                Err(_) => PortForwardDataView::parse(b@) is None,
            },
    {
        let fs = match read_fields(b) {
            Ok(fs) => fs,
            Err(e) => {
                return Err(e);
            },
        };
        let sourcetodestination = match get_bool(&fs, 1) {
            Ok(v) => v,
            Err(e) => {
                return Err(e);
            },
        };
        let socketid = match get_i32(&fs, 2) {
            Ok(v) => v,
            Err(e) => {
                return Err(e);
            },
        };
        let buffer = match get_bytes(&fs, 3) {
            Ok(v) => v,
            Err(e) => {
                return Err(e);
            },
        };
        let error = match get_text(&fs, 4) {
            Ok(v) => v,
            Err(e) => {
                return Err(e);
            },
        };
        let closed = match get_bool(&fs, 5) {
            Ok(v) => v,
            Err(e) => {
                return Err(e);
            },
        };
        Ok(PortForwardData { sourcetodestination, socketid, buffer, error, closed })
    }
}

impl Default for PortForwardData {
    fn default() -> (res: PortForwardData)
        ensures
            res.sourcetodestination is None,
            res.socketid is None,
            res.buffer is None,
            res.error is None,
            res.closed is None,
    {
        PortForwardData { sourcetodestination: None, socketid: None, buffer: None, error: None, closed: None }
    }
}

/// The answer to an [`InitialPayload`].
#[derive(Clone, Debug, PartialEq, Eq)]
pub struct InitialResponse {
    pub error: Option<String>,
}

/// What a [`InitialResponse`] holds.
#[verifier::ext_equal]
pub struct InitialResponseView {
    pub error: Option<Seq<char>>,
}

impl View for InitialResponse {
    type V = InitialResponseView;

    open spec fn view(&self) -> InitialResponseView {
        InitialResponseView {
            error: opt_text(self.error),
        }
    }
}

impl InitialResponseView {
    /// The message as fields, by number.
    pub open spec fn fields(self) -> Seq<Field> {
        text_field(1, self.error)
    }

    /// The message that a list of fields makes up. Unknown fields are passed over.
    pub open spec fn from_fields(fs: Seq<Field>) -> Option<InitialResponseView> {
        match last_of(fs, 1, text_kind()) {
            Some(error) => Some(InitialResponseView { error }),
            None => None,
        }
    }

    /// The message as bytes.
    pub open spec fn bytes(self) -> Seq<u8> {
        fields_bytes(self.fields())
    }

    /// The message that bytes encode.
    pub open spec fn parse(b: Seq<u8>) -> Option<InitialResponseView> {
        match parse_fields(b) {
            Some(fs) => InitialResponseView::from_fields(fs),
            None => None,
        }
    }
}

/// Reading a [`InitialResponse`] gives back what was written.
pub proof fn law_initial_response_round_trip(v: InitialResponseView)
    requires
        all_plain(v.fields()),
    ensures
        InitialResponseView::parse(v.bytes()) == Some(v),
{
    broadcast use group_optional;

    law_fields_round_trip(v.fields());
}

impl InitialResponse {
    /// The message on the wire, which reads back as the message.
    pub fn encode_to_vec(&self) -> (res: Vec<u8>)
        ensures
            res@ == self@.bytes(),
            InitialResponseView::parse(res@) == Some(self@),
    {
        let mut fs: Vec<RawField> = Vec::new();
        put_text(&mut fs, 1, &self.error);
        proof {
            assert(fields(fs@) =~= self@.fields());
            lemma_all_plain(fs@);
            law_initial_response_round_trip(self@);
        }
        write_fields(&fs)
    }

    /// Reads a message; fails exactly when the bytes are not one, with the first
    /// thing wrong with them.
    pub fn decode(b: &[u8]) -> (res: Result<InitialResponse, DecodeError>)
        ensures
            match res {
                Ok(m) => InitialResponseView::parse(b@) == Some(m@),
                Err(e) => InitialResponseView::parse(b@) is None && fault(Shape::InitialResponse, b@) == Some(e),
            },
    {
        match InitialResponse::read(b) {
            Ok(m) => Ok(m),
            Err(_) => {
                proof {
                    assert(b@.len() == b.len());
                    lemma_initial_response_fault(b@);
                }
                report(Shape::InitialResponse, b)
            },
        }
    }

    fn read(b: &[u8]) -> (res: Result<InitialResponse, Malformed>)
        ensures
            match res {
                Ok(m) => InitialResponseView::parse(b@) == Some(m@),
                Err(_) => InitialResponseView::parse(b@) is None,
            },
    {
        let fs = match read_fields(b) {
            Ok(fs) => fs,
            Err(e) => {
                return Err(e);
            },
        };
        let error = match get_text(&fs, 1) {
            Ok(v) => v,
            Err(e) => {
                return Err(e);
            },
        };
        Ok(InitialResponse { error })
    }
}

impl Default for InitialResponse {
    fn default() -> (res: InitialResponse)
        ensures
            res.error is None,
    {
        InitialResponse { error: None }
    }
}

/// Logging levels.
#[derive(Clone, Debug, PartialEq, Eq)]
pub struct ConfigParams {
    pub vlevel: Option<i32>,
    pub minloglevel: Option<i32>,
}

/// What a [`ConfigParams`] holds.
#[verifier::ext_equal]
pub struct ConfigParamsView {
    pub vlevel: Option<i32>,
    pub minloglevel: Option<i32>,
}

impl View for ConfigParams {
    type V = ConfigParamsView;

    open spec fn view(&self) -> ConfigParamsView {
        ConfigParamsView {
            vlevel: self.vlevel,
            minloglevel: self.minloglevel,
        }
    }
}

impl ConfigParamsView {
    /// The message as fields, by number.
    pub open spec fn fields(self) -> Seq<Field> {
        i32_field(1, self.vlevel) + i32_field(2, self.minloglevel)
    }

    /// The message that a list of fields makes up. Unknown fields are passed over.
    pub open spec fn from_fields(fs: Seq<Field>) -> Option<ConfigParamsView> {
        match (
            last_of(fs, 1, i32_kind()),
            last_of(fs, 2, i32_kind()),
        ) {
            (Some(vlevel), Some(minloglevel)) => Some(
                ConfigParamsView { vlevel, minloglevel },
            ),
            _ => None,
        }
    }

    /// The message as bytes.
    pub open spec fn bytes(self) -> Seq<u8> {
        fields_bytes(self.fields())
    }

    /// The message that bytes encode.
    pub open spec fn parse(b: Seq<u8>) -> Option<ConfigParamsView> {
        match parse_fields(b) {
            Some(fs) => ConfigParamsView::from_fields(fs),
            None => None,
        }
    }
}

/// Reading a [`ConfigParams`] gives back what was written.
pub proof fn law_config_params_round_trip(v: ConfigParamsView)
    requires
        all_plain(v.fields()),
    ensures
        ConfigParamsView::parse(v.bytes()) == Some(v),
{
    broadcast use group_optional;

    law_fields_round_trip(v.fields());
}

impl ConfigParams {
    /// The message on the wire, which reads back as the message.
    pub fn encode_to_vec(&self) -> (res: Vec<u8>)
        ensures
            res@ == self@.bytes(),
            ConfigParamsView::parse(res@) == Some(self@),
    {
        let mut fs: Vec<RawField> = Vec::new();
        put_i32(&mut fs, 1, self.vlevel);
        put_i32(&mut fs, 2, self.minloglevel);
        proof {
            assert(fields(fs@) =~= self@.fields());
            lemma_all_plain(fs@);
            law_config_params_round_trip(self@);
        }
        write_fields(&fs)
    }

    /// Reads a message; fails exactly when the bytes are not one, with the first
    /// thing wrong with them.
    pub fn decode(b: &[u8]) -> (res: Result<ConfigParams, DecodeError>)
        ensures
            match res {
                Ok(m) => ConfigParamsView::parse(b@) == Some(m@),
                Err(e) => ConfigParamsView::parse(b@) is None && fault(Shape::ConfigParams, b@) == Some(e),
            },
    {
        match ConfigParams::read(b) {
            Ok(m) => Ok(m),
            Err(_) => {
                proof {
                    assert(b@.len() == b.len());
                    lemma_config_params_fault(b@);
                }
                report(Shape::ConfigParams, b)
            },
        }
    }

    fn read(b: &[u8]) -> (res: Result<ConfigParams, Malformed>)
        ensures
            match res {
                Ok(m) => ConfigParamsView::parse(b@) == Some(m@),
                Err(_) => ConfigParamsView::parse(b@) is None,
            },
    {
        let fs = match read_fields(b) {
            Ok(fs) => fs,
            Err(e) => {
                return Err(e);
            },
        };
        let vlevel = match get_i32(&fs, 1) {
            Ok(v) => v,
            Err(e) => {
                return Err(e);
            },
        };
        let minloglevel = match get_i32(&fs, 2) {
            Ok(v) => v,
            Err(e) => {
                return Err(e);
            },
        };
        Ok(ConfigParams { vlevel, minloglevel })
    }
}

impl Default for ConfigParams {
    fn default() -> (res: ConfigParams)
        ensures
            res.vlevel is None,
            res.minloglevel is None,
    {
        ConfigParams { vlevel: None, minloglevel: None }
    }
}

/// The environment that the shell is started with.
#[derive(Clone, Debug, PartialEq, Eq)]
pub struct TermInit {
    pub environmentnames: Vec<String>,
    pub environmentvalues: Vec<String>,
}

/// What a [`TermInit`] holds.
#[verifier::ext_equal]
pub struct TermInitView {
    pub environmentnames: Seq<Seq<char>>,
    pub environmentvalues: Seq<Seq<char>>,
}

impl View for TermInit {
    type V = TermInitView;

    open spec fn view(&self) -> TermInitView {
        TermInitView {
            environmentnames: texts(self.environmentnames@),
            environmentvalues: texts(self.environmentvalues@),
        }
    }
}

impl TermInitView {
    /// The message as fields, by number.
    pub open spec fn fields(self) -> Seq<Field> {
        texts_field(1, self.environmentnames) + texts_field(2, self.environmentvalues)
    }

    /// The message that a list of fields makes up. Unknown fields are passed over.
    pub open spec fn from_fields(fs: Seq<Field>) -> Option<TermInitView> {
        match (
            all_of(fs, 1, text_kind()),
            all_of(fs, 2, text_kind()),
        ) {
            (Some(environmentnames), Some(environmentvalues)) => Some(
                TermInitView { environmentnames, environmentvalues },
            ),
            _ => None,
        }
    }

    /// The message as bytes.
    pub open spec fn bytes(self) -> Seq<u8> {
        fields_bytes(self.fields())
    }

    /// The message that bytes encode.
    pub open spec fn parse(b: Seq<u8>) -> Option<TermInitView> {
        match parse_fields(b) {
            Some(fs) => TermInitView::from_fields(fs),
            None => None,
        }
    }
}

/// Reading a [`TermInit`] gives back what was written.
pub proof fn law_term_init_round_trip(v: TermInitView)
    requires
        all_plain(v.fields()),
    ensures
        TermInitView::parse(v.bytes()) == Some(v),
{
    broadcast use group_fields;

    law_fields_round_trip(v.fields());
}

impl TermInit {
    /// The message on the wire, which reads back as the message.
    pub fn encode_to_vec(&self) -> (res: Vec<u8>)
        ensures
            res@ == self@.bytes(),
            TermInitView::parse(res@) == Some(self@),
    {
        let mut fs: Vec<RawField> = Vec::new();
        put_texts(&mut fs, 1, &self.environmentnames);
        put_texts(&mut fs, 2, &self.environmentvalues);
        proof {
            assert(fields(fs@) =~= self@.fields());
            lemma_all_plain(fs@);
            law_term_init_round_trip(self@);
        }
        write_fields(&fs)
    }

    /// Reads a message; fails exactly when the bytes are not one, with the first
    /// thing wrong with them.
    pub fn decode(b: &[u8]) -> (res: Result<TermInit, DecodeError>)
        ensures
            match res {
                Ok(m) => TermInitView::parse(b@) == Some(m@),
                Err(e) => TermInitView::parse(b@) is None && fault(Shape::TermInit, b@) == Some(e),
            },
    {
        match TermInit::read(b) {
            Ok(m) => Ok(m),
            Err(_) => {
                proof {
                    assert(b@.len() == b.len());
                    lemma_term_init_fault(b@);
                }
                report(Shape::TermInit, b)
            },
        }
    }

    fn read(b: &[u8]) -> (res: Result<TermInit, Malformed>)
        ensures
            match res {
                Ok(m) => TermInitView::parse(b@) == Some(m@),
                Err(_) => TermInitView::parse(b@) is None,
            },
    {
        let fs = match read_fields(b) {
            Ok(fs) => fs,
            Err(e) => {
                return Err(e);
            },
        };
        let environmentnames = match get_texts(&fs, 1) {
            Ok(v) => v,
            Err(e) => {
                return Err(e);
            },
        };
        let environmentvalues = match get_texts(&fs, 2) {
            Ok(v) => v,
            Err(e) => {
                return Err(e);
            },
        };
        Ok(TermInit { environmentnames, environmentvalues })
    }
}

impl Default for TermInit {
    fn default() -> (res: TermInit)
        ensures
            res.environmentnames@.len() == 0,
            res.environmentvalues@.len() == 0,
    {
        TermInit { environmentnames: Vec::new(), environmentvalues: Vec::new() }
    }
}

/// What a terminal registers with the server, unencrypted, over the local
/// socket.
#[derive(Clone, Debug, PartialEq, Eq)]
pub struct TerminalUserInfo {
    pub id: Option<String>,
    pub passkey: Option<String>,
    pub uid: Option<i64>,
    pub gid: Option<i64>,
    pub fd: Option<i64>,
}

/// What a [`TerminalUserInfo`] holds.
#[verifier::ext_equal]
pub struct TerminalUserInfoView {
    pub id: Option<Seq<char>>,
    pub passkey: Option<Seq<char>>,
    pub uid: Option<i64>,
    pub gid: Option<i64>,
    pub fd: Option<i64>,
}

impl View for TerminalUserInfo {
    type V = TerminalUserInfoView;

    open spec fn view(&self) -> TerminalUserInfoView {
        TerminalUserInfoView {
            id: opt_text(self.id),
            passkey: opt_text(self.passkey),
            uid: self.uid,
            gid: self.gid,
            fd: self.fd,
        }
    }
}

impl TerminalUserInfoView {
    /// The message as fields, by number.
    pub open spec fn fields(self) -> Seq<Field> {
        text_field(1, self.id) + text_field(2, self.passkey) + i64_field(3, self.uid) + i64_field(4, self.gid) + i64_field(5, self.fd)
    }

    /// The message that a list of fields makes up. Unknown fields are passed over.
    pub open spec fn from_fields(fs: Seq<Field>) -> Option<TerminalUserInfoView> {
        match (
            last_of(fs, 1, text_kind()),
            last_of(fs, 2, text_kind()),
            last_of(fs, 3, i64_kind()),
            last_of(fs, 4, i64_kind()),
            last_of(fs, 5, i64_kind()),
        ) {
            (Some(id), Some(passkey), Some(uid), Some(gid), Some(fd)) => Some(
                TerminalUserInfoView { id, passkey, uid, gid, fd },
            ),
            _ => None,
        }
    }

    /// The message as bytes.
    pub open spec fn bytes(self) -> Seq<u8> {
        fields_bytes(self.fields())
    }

    /// The message that bytes encode.
    pub open spec fn parse(b: Seq<u8>) -> Option<TerminalUserInfoView> {
        match parse_fields(b) {
            Some(fs) => TerminalUserInfoView::from_fields(fs),
            None => None,
        }
    }
}

/// Reading a [`TerminalUserInfo`] gives back what was written.
pub proof fn law_terminal_user_info_round_trip(v: TerminalUserInfoView)
    requires
        all_plain(v.fields()),
    ensures
        TerminalUserInfoView::parse(v.bytes()) == Some(v),
{
    broadcast use group_optional;

    law_fields_round_trip(v.fields());
}

impl TerminalUserInfo {
    /// The message on the wire, which reads back as the message.
    pub fn encode_to_vec(&self) -> (res: Vec<u8>)
        ensures
            res@ == self@.bytes(),
            TerminalUserInfoView::parse(res@) == Some(self@),
    {
        let mut fs: Vec<RawField> = Vec::new();
        put_text(&mut fs, 1, &self.id);
        put_text(&mut fs, 2, &self.passkey);
        put_i64(&mut fs, 3, self.uid);
        put_i64(&mut fs, 4, self.gid);
        put_i64(&mut fs, 5, self.fd);
        proof {
            assert(fields(fs@) =~= self@.fields());
            lemma_all_plain(fs@);
            law_terminal_user_info_round_trip(self@);
        }
        write_fields(&fs)
    }

    /// Reads a message; fails exactly when the bytes are not one, with the first
    /// thing wrong with them.
    pub fn decode(b: &[u8]) -> (res: Result<TerminalUserInfo, DecodeError>)
        ensures
            match res {
                Ok(m) => TerminalUserInfoView::parse(b@) == Some(m@),
                Err(e) => TerminalUserInfoView::parse(b@) is None && fault(Shape::TerminalUserInfo, b@) == Some(e),
            },
    {
        match TerminalUserInfo::read(b) {
            Ok(m) => Ok(m),
            Err(_) => {
                proof {
                    assert(b@.len() == b.len());
                    lemma_terminal_user_info_fault(b@);
                }
                report(Shape::TerminalUserInfo, b)
            },
        }
    }

    fn read(b: &[u8]) -> (res: Result<TerminalUserInfo, Malformed>)
        ensures
            match res {
                Ok(m) => TerminalUserInfoView::parse(b@) == Some(m@),
                Err(_) => TerminalUserInfoView::parse(b@) is None,
            },
    {
        let fs = match read_fields(b) {
            Ok(fs) => fs,
            Err(e) => {
                return Err(e);
            },
        };
        let id = match get_text(&fs, 1) {
            Ok(v) => v,
            Err(e) => {
                return Err(e);
            },
        };
        let passkey = match get_text(&fs, 2) {
            Ok(v) => v,
            Err(e) => {
                return Err(e);
            },
        };
        let uid = match get_i64(&fs, 3) {
            Ok(v) => v,
            Err(e) => {
                return Err(e);
            },
        };
        let gid = match get_i64(&fs, 4) {
            Ok(v) => v,
            Err(e) => {
                return Err(e);
            },
        };
        let fd = match get_i64(&fs, 5) {
            Ok(v) => v,
            Err(e) => {
                return Err(e);
            },
        };
        Ok(TerminalUserInfo { id, passkey, uid, gid, fd })
    }
}

impl Default for TerminalUserInfo {
    fn default() -> (res: TerminalUserInfo)
        ensures
            res.id is None,
            res.passkey is None,
            res.uid is None,
            res.gid is None,
            res.fd is None,
    {
        TerminalUserInfo { id: None, passkey: None, uid: None, gid: None, fd: None }
    }
}

/// What an optional endpoint holds.
pub open spec fn opt_endpoint(v: Option<SocketEndpoint>) -> Option<SocketEndpointView> {
    match v {
        Some(e) => Some(e@),
        None => None,
    }
}

/// The fields of several message bodies, one after the other, where `depth`
/// levels are left in each.
pub open spec fn merged_fields(bodies: Seq<Seq<u8>>, depth: nat) -> Option<Seq<Field>>
    decreases bodies.len(),
{
    if bodies.len() == 0 {
        Some(Seq::empty())
    } else {
        match (merged_fields(bodies.drop_last(), depth), parse_nested(bodies.last(), depth)) {
            (Some(a), Some(b)) => Some(a + b),
            _ => None,
        }
    }
}

/// The value of an optional endpoint field of a message with `depth` levels
/// left. Occurrences of one field add to each other; the outer `None` says that
/// one of them is not an endpoint.
pub open spec fn endpoint_of(fs: Seq<Field>, tag: u32, depth: nat) -> Option<
    Option<SocketEndpointView>,
> {
    match all_of(fs, tag, bytes_kind()) {
        None => None,
        Some(bodies) => if bodies.len() == 0 {
            Some(None)
        } else {
            match merged_fields(bodies, (depth - 1) as nat) {
                None => None,
                Some(inner) => match SocketEndpointView::from_fields(inner) {
                    None => None,
                    Some(v) => Some(Some(v)),
                },
            }
        },
    }
}

/// The fields of an optional endpoint.
pub open spec fn endpoint_field(tag: u32, v: Option<SocketEndpointView>) -> Seq<Field> {
    bytes_field(
        tag,
        match v {
            Some(e) => Some(e.bytes()),
            None => None,
        },
    )
}

/// The fields of a message are no longer than the message.
pub proof fn lemma_field_len(fs: Seq<Field>, i: int)
    requires
        0 <= i < fs.len(),
    ensures
        crate::wire::field_bytes(fs[i]).len() <= fields_bytes(fs).len(),
    decreases fs.len(),
{
    if i < fs.len() - 1 {
        lemma_field_len(fs.drop_last(), i);
    }
}

/// An endpoint whose bytes can be written as a field reads back from it.
proof fn lemma_endpoint_plain(v: SocketEndpointView)
    requires
        v.bytes().len() <= u64::MAX,
    ensures
        all_plain(v.fields()),
{
    let fs = v.fields();
    assert forall|i: int| 0 <= i < fs.len() implies plain(#[trigger] fs[i]) by {
        lemma_field_len(fs, i);
    }
}

/// A field list that holds for `tag` what an endpoint writes holds that
/// endpoint.
proof fn lemma_endpoint_own(fs: Seq<Field>, tag: u32, v: Option<SocketEndpointView>, depth: nat)
    requires
        all_of(fs, tag, bytes_kind()) == Some(
            match v {
                Some(e) => seq![e.bytes()],
                None => Seq::empty(),
            },
        ),
        v matches Some(e) ==> e.bytes().len() <= u64::MAX,
    ensures
        endpoint_of(fs, tag, depth) == Some(v),
{
    if let Some(e) = v {
        lemma_endpoint_plain(e);
        law_socket_endpoint_round_trip(e);
        let inner = (depth - 1) as nat;
        assert forall|i: int| 0 <= i < e.fields().len() implies plain_in(
            #[trigger] e.fields()[i],
            inner,
        ) by {
            assert(plain(e.fields()[i]));
        }
        law_nested_round_trip(e.fields(), inner);
        law_fields_round_trip(e.fields());
        let bodies = seq![e.bytes()];
        assert(bodies.drop_last() =~= Seq::<Seq<u8>>::empty());
        assert(merged_fields(Seq::<Seq<u8>>::empty(), inner) == Some(Seq::<Field>::empty()));
        assert(merged_fields(bodies, inner) == Some(Seq::<Field>::empty() + e.fields()));
        assert(Seq::<Field>::empty() + e.fields() =~= e.fields());
    }
}

/// The value of an optional endpoint field.
fn get_endpoint(fs: &Vec<RawField>, tag: u32, depth: u8) -> (res: Result<
    Option<SocketEndpoint>,
    Malformed,
>)
    requires
        depth > 0,
    ensures
        match res {
            Ok(v) => endpoint_of(fields(fs@), tag, depth as nat) == Some(opt_endpoint(v)),
            Err(_) => endpoint_of(fields(fs@), tag, depth as nat) is None,
        },
{
    let bodies = match get_blobs(fs, tag) {
        Ok(b) => b,
        Err(e) => {
            return Err(e);
        },
    };
    if bodies.len() == 0 {
        return Ok(None);
    }
    let ghost all = blobs(bodies@);
    let mut inner: Vec<RawField> = Vec::new();
    let mut i: usize = 0;
    assert(all.take(0) =~= Seq::<Seq<u8>>::empty());
    assert(fields(inner@) =~= Seq::<Field>::empty());
    while i < bodies.len()
        invariant
            i <= bodies.len(),
            all == blobs(bodies@),
            all.len() > 0,
            all_of(fields(fs@), tag, bytes_kind()) == Some(all),
            depth > 0,
            merged_fields(all.take(i as int), (depth - 1) as nat) == Some(fields(inner@)),
        decreases bodies.len() - i,
    {
        assert(all.take(i + 1).drop_last() =~= all.take(i as int));
        assert(all.take(i + 1).last() == bodies@[i as int]@);
        match read_nested(bodies[i].as_slice(), depth - 1) {
            Err(e) => {
                proof {
                    lemma_merged_prefix(all, i + 1, (depth - 1) as nat);
                }
                return Err(e);
            },
            Ok(more) => {
                let ghost before = inner@;
                let mut more = more;
                let ghost added = more@;
                inner.append(&mut more);
                assert(fields(inner@) =~= fields(before) + fields(added));
            },
        }
        i += 1;
    }
    assert(all.take(bodies@.len() as int) =~= all);
    let name = match get_text(&inner, 1) {
        Ok(v) => v,
        Err(e) => {
            return Err(e);
        },
    };
    let port = match get_i32(&inner, 2) {
        Ok(v) => v,
        Err(e) => {
            return Err(e);
        },
    };
    Ok(Some(SocketEndpoint { name, port }))
}

proof fn lemma_merged_prefix(bodies: Seq<Seq<u8>>, i: int, depth: nat)
    requires
        0 <= i <= bodies.len(),
        merged_fields(bodies.take(i), depth) is None,
    ensures
        merged_fields(bodies, depth) is None,
    decreases bodies.len() - i,
{
    if i == bodies.len() {
        assert(bodies.take(i) =~= bodies);
    } else {
        assert(bodies.take(i + 1).drop_last() =~= bodies.take(i));
        lemma_merged_prefix(bodies, i + 1, depth);
    }
}

/// Appends an optional endpoint field.
fn put_endpoint(fs: &mut Vec<RawField>, tag: u32, v: &Option<SocketEndpoint>)
    ensures
        fields(final(fs)@) == fields(old(fs)@) + endpoint_field(tag, opt_endpoint(*v)),
{
    if let Some(e) = v {
        put(fs, tag, RawValue::Bytes(e.encode_to_vec()));
    }
    assert(fields(fs@) =~= fields(old(fs)@) + endpoint_field(tag, opt_endpoint(*v)));
}

/// A listener to open: where to listen, and where its connections lead.
#[derive(Clone, Debug, PartialEq, Eq)]
pub struct PortForwardSourceRequest {
    pub source: Option<SocketEndpoint>,
    pub destination: Option<SocketEndpoint>,
    pub environmentvariable: Option<String>,
}

/// What a [`PortForwardSourceRequest`] holds.
#[verifier::ext_equal]
pub struct PortForwardSourceRequestView {
    pub source: Option<SocketEndpointView>,
    pub destination: Option<SocketEndpointView>,
    pub environmentvariable: Option<Seq<char>>,
}

impl View for PortForwardSourceRequest {
    type V = PortForwardSourceRequestView;

    open spec fn view(&self) -> PortForwardSourceRequestView {
        PortForwardSourceRequestView {
            source: opt_endpoint(self.source),
            destination: opt_endpoint(self.destination),
            environmentvariable: opt_text(self.environmentvariable),
        }
    }
}

impl PortForwardSourceRequestView {
    /// The message as fields, by number.
    pub open spec fn fields(self) -> Seq<Field> {
        endpoint_field(1, self.source) + endpoint_field(2, self.destination) + text_field(3, self.environmentvariable)
    }

    /// The message that a list of fields makes up, where `depth` levels are left.
    /// Unknown fields are passed over.
    pub open spec fn from_fields(fs: Seq<Field>, depth: nat) -> Option<
        PortForwardSourceRequestView,
    > {
        match (
            endpoint_of(fs, 1, depth),
            endpoint_of(fs, 2, depth),
            last_of(fs, 3, text_kind()),
        ) {
            (Some(source), Some(destination), Some(environmentvariable)) => Some(
                PortForwardSourceRequestView { source, destination, environmentvariable },
            ),
            _ => None,
        }
    }

    /// The message as bytes.
    pub open spec fn bytes(self) -> Seq<u8> {
        fields_bytes(self.fields())
    }

    /// The message that bytes encode.
    pub open spec fn parse(b: Seq<u8>) -> Option<PortForwardSourceRequestView> {
        PortForwardSourceRequestView::parse_in(b, NESTING as nat)
    }

    /// The message that bytes encode, where `depth` levels are left.
    pub open spec fn parse_in(b: Seq<u8>, depth: nat) -> Option<PortForwardSourceRequestView> {
        match parse_nested(b, depth) {
            Some(fs) => PortForwardSourceRequestView::from_fields(fs, depth),
            None => None,
        }
    }
}

/// A message read from its own fields is the message.
proof fn lemma_port_forward_source_request_fields(v: PortForwardSourceRequestView, depth: nat)
    requires
        all_plain(v.fields()),
    ensures
        PortForwardSourceRequestView::from_fields(v.fields(), depth) == Some(v),
{
    broadcast use {group_fields, group_optional};

    let fs = v.fields();
    if v.source is Some {
        assert(fs[0] == endpoint_field(1, v.source)[0]);
    }
    lemma_endpoint_own(fs, 1, v.source, depth);
    if v.destination is Some {
        assert(fs[endpoint_field(1, v.source).len() as int] == endpoint_field(2, v.destination)[0]);
    }
    lemma_endpoint_own(fs, 2, v.destination, depth);
}

/// Reading a [`PortForwardSourceRequest`] gives back what was written, wherever
/// it stands.
pub proof fn law_port_forward_source_request_round_trip(
    v: PortForwardSourceRequestView,
    depth: nat,
)
    requires
        all_plain(v.fields()),
    ensures
        PortForwardSourceRequestView::parse(v.bytes()) == Some(v),
        PortForwardSourceRequestView::parse_in(v.bytes(), depth) == Some(v),
{
    lemma_port_forward_source_request_fields(v, depth);
    lemma_port_forward_source_request_fields(v, NESTING as nat);
    assert forall|i: int| 0 <= i < v.fields().len() implies plain_in(
        #[trigger] v.fields()[i],
        depth,
    ) by {
        assert(plain(v.fields()[i]));
    }
    law_nested_round_trip(v.fields(), depth);
    law_fields_round_trip(v.fields());
}

impl PortForwardSourceRequest {
    /// The message on the wire, which reads back as the message.
    pub fn encode_to_vec(&self) -> (res: Vec<u8>)
        ensures
            res@ == self@.bytes(),
            PortForwardSourceRequestView::parse(res@) == Some(self@),
    {
        let mut fs: Vec<RawField> = Vec::new();
        put_endpoint(&mut fs, 1, &self.source);
        put_endpoint(&mut fs, 2, &self.destination);
        put_text(&mut fs, 3, &self.environmentvariable);
        proof {
            assert(fields(fs@) =~= self@.fields());
            lemma_all_plain(fs@);
            law_port_forward_source_request_round_trip(self@, 0);
        }
        write_fields(&fs)
    }

    /// Reads a message; fails exactly when the bytes are not one, with the first
    /// thing wrong with them.
    pub fn decode(b: &[u8]) -> (res: Result<PortForwardSourceRequest, DecodeError>)
        ensures
            match res {
                Ok(m) => PortForwardSourceRequestView::parse(b@) == Some(m@),
                Err(e) => PortForwardSourceRequestView::parse(b@) is None && fault(Shape::PortForwardSourceRequest, b@) == Some(e),
            },
    {
        match PortForwardSourceRequest::read(b) {
            Ok(m) => Ok(m),
            Err(_) => {
                proof {
                    assert(b@.len() == b.len());
                    lemma_port_forward_source_request_fault(b@);
                }
                report(Shape::PortForwardSourceRequest, b)
            },
        }
    }

    fn read(b: &[u8]) -> (res: Result<PortForwardSourceRequest, Malformed>)
        ensures
            match res {
                Ok(m) => PortForwardSourceRequestView::parse(b@) == Some(m@),
                Err(_) => PortForwardSourceRequestView::parse(b@) is None,
            },
    {
        PortForwardSourceRequest::decode_in(b, NESTING)
    }

    /// Reads a message where `depth` levels are left.
    fn decode_in(b: &[u8], depth: u8) -> (res: Result<PortForwardSourceRequest, Malformed>)
        requires
            depth > 0,
        ensures
            match res {
                Ok(m) => PortForwardSourceRequestView::parse_in(b@, depth as nat) == Some(m@),
                Err(_) => PortForwardSourceRequestView::parse_in(b@, depth as nat) is None,
            },
    {
        let fs = match read_nested(b, depth) {
            Ok(fs) => fs,
            Err(e) => {
                return Err(e);
            },
        };
        let source = match get_endpoint(&fs, 1, depth) {
            Ok(v) => v,
            Err(e) => {
                return Err(e);
            },
        };
        let destination = match get_endpoint(&fs, 2, depth) {
            Ok(v) => v,
            Err(e) => {
                return Err(e);
            },
        };
        let environmentvariable = match get_text(&fs, 3) {
            Ok(v) => v,
            Err(e) => {
                return Err(e);
            },
        };
        Ok(PortForwardSourceRequest { source, destination, environmentvariable })
    }
}

impl Default for PortForwardSourceRequest {
    fn default() -> (res: PortForwardSourceRequest)
        ensures
            res.source is None,
            res.destination is None,
            res.environmentvariable is None,
    {
        PortForwardSourceRequest { source: None, destination: None, environmentvariable: None }
    }
}

/// A connection to open on behalf of the peer's `fd`.
#[derive(Clone, Debug, PartialEq, Eq)]
pub struct PortForwardDestinationRequest {
    pub destination: Option<SocketEndpoint>,
    pub fd: Option<i32>,
}

/// What a [`PortForwardDestinationRequest`] holds.
#[verifier::ext_equal]
pub struct PortForwardDestinationRequestView {
    pub destination: Option<SocketEndpointView>,
    pub fd: Option<i32>,
}

impl View for PortForwardDestinationRequest {
    type V = PortForwardDestinationRequestView;

    open spec fn view(&self) -> PortForwardDestinationRequestView {
        PortForwardDestinationRequestView {
            destination: opt_endpoint(self.destination),
            fd: self.fd,
        }
    }
}

impl PortForwardDestinationRequestView {
    /// The message as fields, by number.
    pub open spec fn fields(self) -> Seq<Field> {
        endpoint_field(1, self.destination) + i32_field(2, self.fd)
    }

    /// The message that a list of fields makes up. Unknown fields are passed over.
    pub open spec fn from_fields(fs: Seq<Field>) -> Option<PortForwardDestinationRequestView> {
        match (
            endpoint_of(fs, 1, NESTING as nat),
            last_of(fs, 2, i32_kind()),
        ) {
            (Some(destination), Some(fd)) => Some(
                PortForwardDestinationRequestView { destination, fd },
            ),
            _ => None,
        }
    }

    /// The message as bytes.
    pub open spec fn bytes(self) -> Seq<u8> {
        fields_bytes(self.fields())
    }

    /// The message that bytes encode.
    pub open spec fn parse(b: Seq<u8>) -> Option<PortForwardDestinationRequestView> {
        match parse_fields(b) {
            Some(fs) => PortForwardDestinationRequestView::from_fields(fs),
            None => None,
        }
    }
}

/// A message read from its own fields is the message.
proof fn lemma_port_forward_destination_request_fields(v: PortForwardDestinationRequestView)
    requires
        all_plain(v.fields()),
    ensures
        PortForwardDestinationRequestView::from_fields(v.fields()) == Some(v),
{
    broadcast use {group_fields, group_optional};

    let fs = v.fields();
    if v.destination is Some {
        assert(fs[0] == endpoint_field(1, v.destination)[0]);
    }
    lemma_endpoint_own(fs, 1, v.destination, NESTING as nat);
}

/// Reading a [`PortForwardDestinationRequest`] gives back what was written.
pub proof fn law_port_forward_destination_request_round_trip(v: PortForwardDestinationRequestView)
    requires
        all_plain(v.fields()),
    ensures
        PortForwardDestinationRequestView::parse(v.bytes()) == Some(v),
{
    lemma_port_forward_destination_request_fields(v);
    law_fields_round_trip(v.fields());
}

impl PortForwardDestinationRequest {
    /// The message on the wire, which reads back as the message.
    pub fn encode_to_vec(&self) -> (res: Vec<u8>)
        ensures
            res@ == self@.bytes(),
            PortForwardDestinationRequestView::parse(res@) == Some(self@),
    {
        let mut fs: Vec<RawField> = Vec::new();
        put_endpoint(&mut fs, 1, &self.destination);
        put_i32(&mut fs, 2, self.fd);
        proof {
            assert(fields(fs@) =~= self@.fields());
            lemma_all_plain(fs@);
            law_port_forward_destination_request_round_trip(self@);
        }
        write_fields(&fs)
    }

    /// Reads a message; fails exactly when the bytes are not one, with the first
    /// thing wrong with them.
    pub fn decode(b: &[u8]) -> (res: Result<PortForwardDestinationRequest, DecodeError>)
        ensures
            match res {
                Ok(m) => PortForwardDestinationRequestView::parse(b@) == Some(m@),
                Err(e) => PortForwardDestinationRequestView::parse(b@) is None && fault(Shape::PortForwardDestinationRequest, b@) == Some(e),
            },
    {
        match PortForwardDestinationRequest::read(b) {
            Ok(m) => Ok(m),
            Err(_) => {
                proof {
                    assert(b@.len() == b.len());
                    lemma_port_forward_destination_request_fault(b@);
                }
                report(Shape::PortForwardDestinationRequest, b)
            },
        }
    }

    fn read(b: &[u8]) -> (res: Result<PortForwardDestinationRequest, Malformed>)
        ensures
            match res {
                Ok(m) => PortForwardDestinationRequestView::parse(b@) == Some(m@),
                Err(_) => PortForwardDestinationRequestView::parse(b@) is None,
            },
    {
        let fs = match read_fields(b) {
            Ok(fs) => fs,
            Err(e) => {
                return Err(e);
            },
        };
        let destination = match get_endpoint(&fs, 1, NESTING) {
            Ok(v) => v,
            Err(e) => {
                return Err(e);
            },
        };
        let fd = match get_i32(&fs, 2) {
            Ok(v) => v,
            Err(e) => {
                return Err(e);
            },
        };
        Ok(PortForwardDestinationRequest { destination, fd })
    }
}

impl Default for PortForwardDestinationRequest {
    fn default() -> (res: PortForwardDestinationRequest)
        ensures
            res.destination is None,
            res.fd is None,
    {
        PortForwardDestinationRequest { destination: None, fd: None }
    }
}

/// What a list of requests holds.
pub open spec fn requests(v: Seq<PortForwardSourceRequest>) -> Seq<PortForwardSourceRequestView> {
    v.map_values(|r: PortForwardSourceRequest| r@)
}

pub open spec fn as_request(v: Value) -> Option<PortForwardSourceRequestView> {
    match as_bytes(v) {
        Some(b) => PortForwardSourceRequestView::parse_in(b, (NESTING - 1) as nat),
        None => None,
    }
}

pub open spec fn request_kind() -> spec_fn(Value) -> Option<PortForwardSourceRequestView> {
    |v: Value| as_request(v)
}

/// The fields of a list of requests, one for each.
pub open spec fn requests_field(tag: u32, v: Seq<PortForwardSourceRequestView>) -> Seq<Field> {
    v.map_values(
        |r: PortForwardSourceRequestView| Field { tag, value: Value::Bytes(r.bytes()) },
    )
}

proof fn lemma_request_plain(v: PortForwardSourceRequestView)
    requires
        v.bytes().len() <= u64::MAX,
    ensures
        all_plain(v.fields()),
{
    let fs = v.fields();
    assert forall|i: int| 0 <= i < fs.len() implies plain(#[trigger] fs[i]) by {
        lemma_field_len(fs, i);
    }
}

proof fn lemma_requests_field_own(tag: u32, v: Seq<PortForwardSourceRequestView>)
    requires
        all_plain(requests_field(tag, v)),
    ensures
        all_of(requests_field(tag, v), tag, request_kind()) == Some(v),
    decreases v.len(),
{
    let fs = requests_field(tag, v);
    if v.len() == 0 {
        assert(v =~= Seq::<PortForwardSourceRequestView>::empty());
    } else {
        let front = requests_field(tag, v.drop_last());
        assert(fs.drop_last() =~= front);
        assert forall|i: int| 0 <= i < front.len() implies plain(#[trigger] front[i]) by {
            assert(front[i] == fs[i]);
        }
        lemma_requests_field_own(tag, v.drop_last());
        assert(plain(fs[fs.len() - 1]));
        lemma_request_plain(v.last());
        law_port_forward_source_request_round_trip(v.last(), (NESTING - 1) as nat);
        assert(request_kind()(fs.last().value) == Some(v.last()));
        assert(v.drop_last().push(v.last()) =~= v);
    }
}

/// The requests of a repeated field.
fn get_requests(fs: &Vec<RawField>, tag: u32) -> (res: Result<
    Vec<PortForwardSourceRequest>,
    Malformed,
>)
    ensures
        match res {
            Ok(v) => all_of(fields(fs@), tag, request_kind()) == Some(requests(v@)),
            Err(_) => all_of(fields(fs@), tag, request_kind()) is None,
        },
{
    let mut out: Vec<PortForwardSourceRequest> = Vec::new();
    let mut i: usize = 0;
    let ghost all = fields(fs@);
    assert(all.take(0) =~= Seq::<Field>::empty());
    assert(requests(out@) =~= Seq::<PortForwardSourceRequestView>::empty());
    while i < fs.len()
        invariant
            i <= fs.len(),
            all == fields(fs@),
            all_of(all.take(i as int), tag, request_kind()) == Some(requests(out@)),
        decreases fs.len() - i,
    {
        assert(all.take(i + 1).drop_last() =~= all.take(i as int));
        assert(all.take(i + 1).last() == fs@[i as int]@);
        if fs[i].tag == tag {
            let one = match &fs[i].value {
                RawValue::Bytes(b) => PortForwardSourceRequest::decode_in(b.as_slice(), NESTING - 1),
                _ => Err(Malformed),
            };
            match one {
                Err(e) => {
                    proof {
                        lemma_all_of_prefix(all, tag, request_kind(), i + 1);
                    }
                    return Err(e);
                },
                Ok(r) => {
                    let ghost before = out@;
                    out.push(r);
                    assert(requests(out@) =~= requests(before).push(r@));
                },
            }
        }
        i += 1;
    }
    assert(all.take(fs@.len() as int) =~= all);
    Ok(out)
}

/// Appends a repeated request field.
fn put_requests(fs: &mut Vec<RawField>, tag: u32, v: &Vec<PortForwardSourceRequest>)
    ensures
        fields(final(fs)@) == fields(old(fs)@) + requests_field(tag, requests(v@)),
{
    let ghost start = fields(fs@);
    let mut i: usize = 0;
    assert(start + requests_field(tag, requests(v@).take(0)) =~= start);
    while i < v.len()
        invariant
            i <= v.len(),
            fields(fs@) == start + requests_field(tag, requests(v@).take(i as int)),
        decreases v.len() - i,
    {
        put(fs, tag, RawValue::Bytes(v[i].encode_to_vec()));
        i += 1;
        assert(fields(fs@) =~= start + requests_field(tag, requests(v@).take(i as int)));
    }
    assert(requests(v@).take(v@.len() as int) =~= requests(v@));
}

/// One entry of a variable map as fields: the name, then the value.
pub open spec fn entry_fields(e: Var) -> Seq<Field> {
    text_field(1, Some(e.0)) + text_field(2, Some(e.1))
}

/// The entry that a list of fields makes up; a missing part is empty.
pub open spec fn entry_from_fields(fs: Seq<Field>) -> Option<Var> {
    match (last_of(fs, 1, text_kind()), last_of(fs, 2, text_kind())) {
        (Some(k), Some(v)) => Some(
            (
                match k {
                    Some(t) => t,
                    None => Seq::empty(),
                },
                match v {
                    Some(t) => t,
                    None => Seq::empty(),
                },
            ),
        ),
        _ => None,
    }
}

pub open spec fn as_entry(v: Value) -> Option<Var> {
    match as_bytes(v) {
        Some(b) => match parse_fields(b) {
            Some(fs) => entry_from_fields(fs),
            None => None,
        },
        None => None,
    }
}

pub open spec fn entry_kind() -> spec_fn(Value) -> Option<Var> {
    |v: Value| as_entry(v)
}

/// The variables that entries set, one after the other.
pub open spec fn collect(entries: Seq<Var>) -> Seq<Var>
    decreases entries.len(),
{
    if entries.len() == 0 {
        Seq::empty()
    } else {
        with_var(collect(entries.drop_last()), entries.last().0, entries.last().1)
    }
}

/// The value of a variable map field.
pub open spec fn env_of(fs: Seq<Field>, tag: u32) -> Option<Seq<Var>> {
    match all_of(fs, tag, entry_kind()) {
        Some(entries) => Some(collect(entries)),
        None => None,
    }
}

/// The fields of a variable map, one for each entry.
pub open spec fn env_field(tag: u32, v: Seq<Var>) -> Seq<Field> {
    v.map_values(|e: Var| Field { tag, value: Value::Bytes(fields_bytes(entry_fields(e))) })
}

proof fn lemma_entry_round_trip(e: Var)
    requires
        fields_bytes(entry_fields(e)).len() <= u64::MAX,
    ensures
        as_entry(Value::Bytes(fields_bytes(entry_fields(e)))) == Some(e),
{
    broadcast use group_optional;

    let fs = entry_fields(e);
    assert forall|i: int| 0 <= i < fs.len() implies plain(#[trigger] fs[i]) by {
        lemma_field_len(fs, i);
    }
    law_fields_round_trip(fs);
}

proof fn lemma_env_field_own(tag: u32, v: Seq<Var>)
    requires
        all_plain(env_field(tag, v)),
    ensures
        all_of(env_field(tag, v), tag, entry_kind()) == Some(v),
    decreases v.len(),
{
    let fs = env_field(tag, v);
    if v.len() == 0 {
        assert(v =~= Seq::<Var>::empty());
    } else {
        let front = env_field(tag, v.drop_last());
        assert(fs.drop_last() =~= front);
        assert forall|i: int| 0 <= i < front.len() implies plain(#[trigger] front[i]) by {
            assert(front[i] == fs[i]);
        }
        lemma_env_field_own(tag, v.drop_last());
        assert(plain(fs[fs.len() - 1]));
        lemma_entry_round_trip(v.last());
        assert(entry_kind()(fs.last().value) == Some(v.last()));
        assert(v.drop_last().push(v.last()) =~= v);
    }
}

/// Setting ordered variables one after the other gives them in that order.
pub proof fn lemma_collect_ascending(v: Seq<Var>)
    requires
        ascending(v),
    ensures
        collect(v) == v,
    decreases v.len(),
{
    if v.len() == 0 {
        assert(v =~= Seq::<Var>::empty());
    } else {
        let front = v.drop_last();
        assert forall|i: int, j: int| 0 <= i < j < front.len() implies crate::env::text_less(
            (#[trigger] front[i]).0,
            (#[trigger] front[j]).0,
        ) by {
            assert(front[i] == v[i] && front[j] == v[j]);
        }
        lemma_collect_ascending(front);
        let last = v.last();
        assert forall|i: int| 0 <= i < front.len() implies crate::env::text_less(
            (#[trigger] front[i]).0,
            last.0,
        ) by {
            assert(front[i] == v[i] && last == v[v.len() - 1]);
        }
        lemma_with_last(front, last);
        assert(front.push(last) =~= v);
    }
}

/// A name above all others goes to the end.
proof fn lemma_with_last(s: Seq<Var>, e: Var)
    requires
        forall|i: int| 0 <= i < s.len() ==> crate::env::text_less((#[trigger] s[i]).0, e.0),
    ensures
        with_var(s, e.0, e.1) == s.push(e),
    decreases s.len(),
{
    if s.len() == 0 {
        assert(s.push(e) =~= seq![e]);
    } else {
        assert(crate::env::text_less(s[0].0, e.0));
        crate::env::lemma_text_less_irreflexive(e.0);
        if crate::env::text_less(e.0, s[0].0) {
            crate::env::lemma_text_less_transitive(e.0, s[0].0, e.0);
        }
        let t = s.skip(1);
        assert forall|i: int| 0 <= i < t.len() implies crate::env::text_less(
            (#[trigger] t[i]).0,
            e.0,
        ) by {
            assert(t[i] == s[i + 1]);
        }
        lemma_with_last(t, e);
        assert(seq![s[0]] + t.push(e) =~= s.push(e));
    }
}

/// The variables of a map field.
fn get_env(fs: &Vec<RawField>, tag: u32) -> (res: Result<EnvMap, Malformed>)
    ensures
        match res {
            Ok(m) => env_of(fields(fs@), tag) == Some(m@),
            Err(_) => env_of(fields(fs@), tag) is None,
        },
{
    let mut out = EnvMap::new();
    let mut i: usize = 0;
    let ghost all = fields(fs@);
    assert(all.take(0) =~= Seq::<Field>::empty());
    while i < fs.len()
        invariant
            i <= fs.len(),
            all == fields(fs@),
            env_of(all.take(i as int), tag) == Some(out@),
        decreases fs.len() - i,
    {
        assert(all.take(i + 1).drop_last() =~= all.take(i as int));
        assert(all.take(i + 1).last() == fs@[i as int]@);
        if fs[i].tag == tag {
            match get_entry(&fs[i].value) {
                Err(e) => {
                    proof {
                        lemma_all_of_prefix(all, tag, entry_kind(), i + 1);
                    }
                    return Err(e);
                },
                Ok((k, v)) => {
                    proof {
                        let before = all_of(all.take(i as int), tag, entry_kind())->0;
                        assert(before.push((k@, v@)).drop_last() =~= before);
                    }
                    out.insert(k, v);
                },
            }
        }
        i += 1;
    }
    assert(all.take(fs@.len() as int) =~= all);
    Ok(out)
}

/// One entry of a map field.
fn get_entry(value: &RawValue) -> (res: Result<(String, String), Malformed>)
    ensures
        match res {
            Ok((k, v)) => as_entry(value@) == Some((k@, v@)),
            Err(_) => as_entry(value@) is None,
        },
{
    let fs = match value {
        RawValue::Bytes(b) => match read_fields(b.as_slice()) {
            Ok(fs) => fs,
            Err(e) => {
                return Err(e);
            },
        },
        _ => {
            return Err(Malformed);
        },
    };
    let k = match get_text(&fs, 1) {
        Ok(Some(t)) => t,
        Ok(None) => String::new(),
        Err(e) => {
            return Err(e);
        },
    };
    let v = match get_text(&fs, 2) {
        Ok(Some(t)) => t,
        Ok(None) => String::new(),
        Err(e) => {
            return Err(e);
        },
    };
    Ok((k, v))
}

/// Appends a map field.
fn put_env(fs: &mut Vec<RawField>, tag: u32, v: &EnvMap)
    ensures
        fields(final(fs)@) == fields(old(fs)@) + env_field(tag, v@),
{
    let ghost start = fields(fs@);
    let mut i: usize = 0;
    let n: usize = v.len();
    assert(start + env_field(tag, v@.take(0)) =~= start);
    while i < n
        invariant
            i <= n,
            n == v@.len(),
            fields(fs@) == start + env_field(tag, v@.take(i as int)),
        decreases n - i,
    {
        let mut entry: Vec<RawField> = Vec::new();
        put_text(&mut entry, 1, &Some(crate::text::copy_text(v.name(i))));
        put_text(&mut entry, 2, &Some(crate::text::copy_text(v.value(i))));
        assert(fields(entry@) =~= entry_fields(v@[i as int]));
        put(fs, tag, RawValue::Bytes(write_fields(&entry)));
        i += 1;
        assert(fields(fs@) =~= start + env_field(tag, v@.take(i as int)));
    }
    assert(v@.take(v@.len() as int) =~= v@);
}

/// The first encrypted packet that a client sends.
#[derive(Clone, Debug, PartialEq, Eq)]
pub struct InitialPayload {
    pub jumphost: Option<bool>,
    pub reversetunnels: Vec<PortForwardSourceRequest>,
    pub environmentvariables: EnvMap,
}

/// What a [`InitialPayload`] holds.
#[verifier::ext_equal]
pub struct InitialPayloadView {
    pub jumphost: Option<bool>,
    pub reversetunnels: Seq<PortForwardSourceRequestView>,
    pub environmentvariables: Seq<Var>,
}

impl View for InitialPayload {
    type V = InitialPayloadView;

    open spec fn view(&self) -> InitialPayloadView {
        InitialPayloadView {
            jumphost: self.jumphost,
            reversetunnels: requests(self.reversetunnels@),
            environmentvariables: self.environmentvariables@,
        }
    }
}

impl InitialPayloadView {
    /// The message as fields, by number.
    pub open spec fn fields(self) -> Seq<Field> {
        bool_field(1, self.jumphost) + requests_field(2, self.reversetunnels) + env_field(3, self.environmentvariables)
    }

    /// The message that a list of fields makes up. Unknown fields are passed over.
    pub open spec fn from_fields(fs: Seq<Field>) -> Option<InitialPayloadView> {
        match (
            last_of(fs, 1, bool_kind()),
            all_of(fs, 2, request_kind()),
            env_of(fs, 3),
        ) {
            (Some(jumphost), Some(reversetunnels), Some(environmentvariables)) => Some(
                InitialPayloadView { jumphost, reversetunnels, environmentvariables },
            ),
            _ => None,
        }
    }

    /// The message as bytes.
    pub open spec fn bytes(self) -> Seq<u8> {
        fields_bytes(self.fields())
    }

    /// The message that bytes encode.
    pub open spec fn parse(b: Seq<u8>) -> Option<InitialPayloadView> {
        match parse_fields(b) {
            Some(fs) => InitialPayloadView::from_fields(fs),
            None => None,
        }
    }
}

/// Reading a [`InitialPayload`] gives back what was written.
pub proof fn law_initial_payload_round_trip(v: InitialPayloadView)
    requires
        all_plain(v.fields()),
        ascending(v.environmentvariables),
    ensures
        InitialPayloadView::parse(v.bytes()) == Some(v),
{
    let flag = bool_field(1, v.jumphost);
    let own = requests_field(2, v.reversetunnels);
    let env = env_field(3, v.environmentvariables);
    let all = v.fields();
    assert forall|i: int| 0 <= i < own.len() implies plain(#[trigger] own[i]) by {
        assert(own[i] == all[flag.len() + i]);
    }
    assert forall|i: int| 0 <= i < env.len() implies plain(#[trigger] env[i]) by {
        assert(env[i] == all[flag.len() + own.len() + i]);
    }
    lemma_requests_field_own(2, v.reversetunnels);
    lemma_env_field_own(3, v.environmentvariables);
    lemma_all_of_none(flag, 2, request_kind());
    lemma_all_of_none(env, 2, request_kind());
    lemma_all_of_concat(flag, own, 2, request_kind());
    lemma_all_of_concat(flag + own, env, 2, request_kind());
    let none = Seq::<PortForwardSourceRequestView>::empty();
    assert(none + v.reversetunnels + none =~= v.reversetunnels);
    lemma_all_of_none(flag, 3, entry_kind());
    lemma_all_of_none(own, 3, entry_kind());
    lemma_all_of_concat(flag, own, 3, entry_kind());
    lemma_all_of_concat(flag + own, env, 3, entry_kind());
    let no_vars = Seq::<Var>::empty();
    assert(no_vars + no_vars + v.environmentvariables =~= v.environmentvariables);
    reveal(last_of);
    lemma_bool_field_own(1, v.jumphost);
    lemma_all_of_none(own, 1, bool_kind());
    lemma_all_of_none(env, 1, bool_kind());
    lemma_all_of_concat(flag, own, 1, bool_kind());
    lemma_all_of_concat(flag + own, env, 1, bool_kind());
    let flags = all_of(flag, 1, bool_kind())->0;
    assert(flags + Seq::<bool>::empty() + Seq::<bool>::empty() =~= flags);
    lemma_collect_ascending(v.environmentvariables);
    law_fields_round_trip(v.fields());
}

impl InitialPayload {
    /// The message on the wire, which reads back as the message.
    pub fn encode_to_vec(&self) -> (res: Vec<u8>)
        ensures
            res@ == self@.bytes(),
            InitialPayloadView::parse(res@) == Some(self@),
    {
        let mut fs: Vec<RawField> = Vec::new();
        put_bool(&mut fs, 1, self.jumphost);
        put_requests(&mut fs, 2, &self.reversetunnels);
        put_env(&mut fs, 3, &self.environmentvariables);
        let _ = self.environmentvariables.len();
        proof {
            assert(fields(fs@) =~= self@.fields());
            lemma_all_plain(fs@);
            law_initial_payload_round_trip(self@);
        }
        write_fields(&fs)
    }

    /// Reads a message; fails exactly when the bytes are not one, with the first
    /// thing wrong with them.
    pub fn decode(b: &[u8]) -> (res: Result<InitialPayload, DecodeError>)
        ensures
            match res {
                Ok(m) => InitialPayloadView::parse(b@) == Some(m@),
                Err(e) => InitialPayloadView::parse(b@) is None && fault(Shape::InitialPayload, b@) == Some(e),
            },
    {
        match InitialPayload::read(b) {
            Ok(m) => Ok(m),
            Err(_) => {
                proof {
                    assert(b@.len() == b.len());
                    lemma_initial_payload_fault(b@);
                }
                report(Shape::InitialPayload, b)
            },
        }
    }

    fn read(b: &[u8]) -> (res: Result<InitialPayload, Malformed>)
        ensures
            match res {
                Ok(m) => InitialPayloadView::parse(b@) == Some(m@),
                Err(_) => InitialPayloadView::parse(b@) is None,
            },
    {
        let fs = match read_fields(b) {
            Ok(fs) => fs,
            Err(e) => {
                return Err(e);
            },
        };
        let jumphost = match get_bool(&fs, 1) {
            Ok(v) => v,
            Err(e) => {
                return Err(e);
            },
        };
        let reversetunnels = match get_requests(&fs, 2) {
            Ok(v) => v,
            Err(e) => {
                return Err(e);
            },
        };
        let environmentvariables = match get_env(&fs, 3) {
            Ok(v) => v,
            Err(e) => {
                return Err(e);
            },
        };
        Ok(InitialPayload { jumphost, reversetunnels, environmentvariables })
    }
}

impl Default for InitialPayload {
    fn default() -> (res: InitialPayload)
        ensures
            res.jumphost is None,
            res.reversetunnels@.len() == 0,
            res.environmentvariables@.len() == 0,
    {
        InitialPayload { jumphost: None, reversetunnels: Vec::new(), environmentvariables: EnvMap::new() }
    }
}

// ---------------------------------------------------------------------------
// What is wrong with bytes that are no message
// ---------------------------------------------------------------------------

/// Reports the first thing wrong with bytes that are no message.
fn report<T>(m: Shape, b: &[u8]) -> (res: Result<T, DecodeError>)
    requires
        fault(m, b@) is Some,
    ensures
        res matches Err(e) && fault(m, b@) == Some(e),
{
    match find_fault(m, b) {
        Some(e) => Err(e),
        None => Err(DecodeError::UnexpectedEof),
    }
}

proof fn lemma_connect_request_fault(b: Seq<u8>)
    requires
        b.len() <= usize::MAX,
        ConnectRequestView::parse(b) is None,
    ensures
        fault(Shape::ConnectRequest, b) is Some,
{
    if fault(Shape::ConnectRequest, b) is None {
        law_no_fault_is_well_formed(Shape::ConnectRequest, b);
        let fs = parse_fields(b)->0;
        lemma_fitting(Shape::ConnectRequest, fs, NESTING as nat, 1);
        lemma_fitting(Shape::ConnectRequest, fs, NESTING as nat, 2);
    }
}

proof fn lemma_connect_response_fault(b: Seq<u8>)
    requires
        b.len() <= usize::MAX,
        ConnectResponseView::parse(b) is None,
    ensures
        fault(Shape::ConnectResponse, b) is Some,
{
    if fault(Shape::ConnectResponse, b) is None {
        law_no_fault_is_well_formed(Shape::ConnectResponse, b);
        let fs = parse_fields(b)->0;
        lemma_fitting(Shape::ConnectResponse, fs, NESTING as nat, 1);
        lemma_fitting(Shape::ConnectResponse, fs, NESTING as nat, 2);
    }
}

proof fn lemma_sequence_header_fault(b: Seq<u8>)
    requires
        b.len() <= usize::MAX,
        SequenceHeaderView::parse(b) is None,
    ensures
        fault(Shape::SequenceHeader, b) is Some,
{
    if fault(Shape::SequenceHeader, b) is None {
        law_no_fault_is_well_formed(Shape::SequenceHeader, b);
        let fs = parse_fields(b)->0;
        lemma_fitting(Shape::SequenceHeader, fs, NESTING as nat, 1);
    }
}

proof fn lemma_catchup_buffer_fault(b: Seq<u8>)
    requires
        b.len() <= usize::MAX,
        CatchupBufferView::parse(b) is None,
    ensures
        fault(Shape::CatchupBuffer, b) is Some,
{
    if fault(Shape::CatchupBuffer, b) is None {
        law_no_fault_is_well_formed(Shape::CatchupBuffer, b);
        let fs = parse_fields(b)->0;
        lemma_fitting(Shape::CatchupBuffer, fs, NESTING as nat, 1);
    }
}

proof fn lemma_socket_endpoint_fault(b: Seq<u8>)
    requires
        b.len() <= usize::MAX,
        SocketEndpointView::parse(b) is None,
    ensures
        fault(Shape::SocketEndpoint, b) is Some,
{
    if fault(Shape::SocketEndpoint, b) is None {
        law_no_fault_is_well_formed(Shape::SocketEndpoint, b);
        let fs = parse_fields(b)->0;
        lemma_fitting(Shape::SocketEndpoint, fs, NESTING as nat, 1);
        lemma_fitting(Shape::SocketEndpoint, fs, NESTING as nat, 2);
    }
}

proof fn lemma_terminal_buffer_fault(b: Seq<u8>)
    requires
        b.len() <= usize::MAX,
        TerminalBufferView::parse(b) is None,
    ensures
        fault(Shape::TerminalBuffer, b) is Some,
{
    if fault(Shape::TerminalBuffer, b) is None {
        law_no_fault_is_well_formed(Shape::TerminalBuffer, b);
        let fs = parse_fields(b)->0;
        lemma_fitting(Shape::TerminalBuffer, fs, NESTING as nat, 1);
    }
}

proof fn lemma_terminal_info_fault(b: Seq<u8>)
    requires
        b.len() <= usize::MAX,
        TerminalInfoView::parse(b) is None,
    ensures
        fault(Shape::TerminalInfo, b) is Some,
{
    if fault(Shape::TerminalInfo, b) is None {
        law_no_fault_is_well_formed(Shape::TerminalInfo, b);
        let fs = parse_fields(b)->0;
        lemma_fitting(Shape::TerminalInfo, fs, NESTING as nat, 1);
        lemma_fitting(Shape::TerminalInfo, fs, NESTING as nat, 2);
        lemma_fitting(Shape::TerminalInfo, fs, NESTING as nat, 3);
        lemma_fitting(Shape::TerminalInfo, fs, NESTING as nat, 4);
        lemma_fitting(Shape::TerminalInfo, fs, NESTING as nat, 5);
    }
}

proof fn lemma_port_forward_source_response_fault(b: Seq<u8>)
    requires
        b.len() <= usize::MAX,
        PortForwardSourceResponseView::parse(b) is None,
    ensures
        fault(Shape::PortForwardSourceResponse, b) is Some,
{
    if fault(Shape::PortForwardSourceResponse, b) is None {
        law_no_fault_is_well_formed(Shape::PortForwardSourceResponse, b);
        let fs = parse_fields(b)->0;
        lemma_fitting(Shape::PortForwardSourceResponse, fs, NESTING as nat, 1);
    }
}

proof fn lemma_port_forward_destination_response_fault(b: Seq<u8>)
    requires
        b.len() <= usize::MAX,
        PortForwardDestinationResponseView::parse(b) is None,
    ensures
        fault(Shape::PortForwardDestinationResponse, b) is Some,
{
    if fault(Shape::PortForwardDestinationResponse, b) is None {
        law_no_fault_is_well_formed(Shape::PortForwardDestinationResponse, b);
        let fs = parse_fields(b)->0;
        lemma_fitting(Shape::PortForwardDestinationResponse, fs, NESTING as nat, 1);
        lemma_fitting(Shape::PortForwardDestinationResponse, fs, NESTING as nat, 2);
        lemma_fitting(Shape::PortForwardDestinationResponse, fs, NESTING as nat, 3);
    }
}

proof fn lemma_port_forward_data_fault(b: Seq<u8>)
    requires
        b.len() <= usize::MAX,
        PortForwardDataView::parse(b) is None,
    ensures
        fault(Shape::PortForwardData, b) is Some,
{
    if fault(Shape::PortForwardData, b) is None {
        law_no_fault_is_well_formed(Shape::PortForwardData, b);
        let fs = parse_fields(b)->0;
        lemma_fitting(Shape::PortForwardData, fs, NESTING as nat, 1);
        lemma_fitting(Shape::PortForwardData, fs, NESTING as nat, 2);
        lemma_fitting(Shape::PortForwardData, fs, NESTING as nat, 3);
        lemma_fitting(Shape::PortForwardData, fs, NESTING as nat, 4);
        lemma_fitting(Shape::PortForwardData, fs, NESTING as nat, 5);
    }
}

proof fn lemma_initial_response_fault(b: Seq<u8>)
    requires
        b.len() <= usize::MAX,
        InitialResponseView::parse(b) is None,
    ensures
        fault(Shape::InitialResponse, b) is Some,
{
    if fault(Shape::InitialResponse, b) is None {
        law_no_fault_is_well_formed(Shape::InitialResponse, b);
        let fs = parse_fields(b)->0;
        lemma_fitting(Shape::InitialResponse, fs, NESTING as nat, 1);
    }
}

proof fn lemma_config_params_fault(b: Seq<u8>)
    requires
        b.len() <= usize::MAX,
        ConfigParamsView::parse(b) is None,
    ensures
        fault(Shape::ConfigParams, b) is Some,
{
    if fault(Shape::ConfigParams, b) is None {
        law_no_fault_is_well_formed(Shape::ConfigParams, b);
        let fs = parse_fields(b)->0;
        lemma_fitting(Shape::ConfigParams, fs, NESTING as nat, 1);
        lemma_fitting(Shape::ConfigParams, fs, NESTING as nat, 2);
    }
}

proof fn lemma_term_init_fault(b: Seq<u8>)
    requires
        b.len() <= usize::MAX,
        TermInitView::parse(b) is None,
    ensures
        fault(Shape::TermInit, b) is Some,
{
    if fault(Shape::TermInit, b) is None {
        law_no_fault_is_well_formed(Shape::TermInit, b);
        let fs = parse_fields(b)->0;
        lemma_fitting(Shape::TermInit, fs, NESTING as nat, 1);
        lemma_fitting(Shape::TermInit, fs, NESTING as nat, 2);
    }
}

proof fn lemma_terminal_user_info_fault(b: Seq<u8>)
    requires
        b.len() <= usize::MAX,
        TerminalUserInfoView::parse(b) is None,
    ensures
        fault(Shape::TerminalUserInfo, b) is Some,
{
    if fault(Shape::TerminalUserInfo, b) is None {
        law_no_fault_is_well_formed(Shape::TerminalUserInfo, b);
        let fs = parse_fields(b)->0;
        lemma_fitting(Shape::TerminalUserInfo, fs, NESTING as nat, 1);
        lemma_fitting(Shape::TerminalUserInfo, fs, NESTING as nat, 2);
        lemma_fitting(Shape::TerminalUserInfo, fs, NESTING as nat, 3);
        lemma_fitting(Shape::TerminalUserInfo, fs, NESTING as nat, 4);
        lemma_fitting(Shape::TerminalUserInfo, fs, NESTING as nat, 5);
    }
}

proof fn lemma_port_forward_source_request_fault(b: Seq<u8>)
    requires
        b.len() <= usize::MAX,
        PortForwardSourceRequestView::parse(b) is None,
    ensures
        fault(Shape::PortForwardSourceRequest, b) is Some,
{
    if fault(Shape::PortForwardSourceRequest, b) is None {
        law_no_fault_is_well_formed(Shape::PortForwardSourceRequest, b);
        lemma_source_request_total(b, NESTING as nat);
    }
}

proof fn lemma_port_forward_destination_request_fault(b: Seq<u8>)
    requires
        b.len() <= usize::MAX,
        PortForwardDestinationRequestView::parse(b) is None,
    ensures
        fault(Shape::PortForwardDestinationRequest, b) is Some,
{
    if fault(Shape::PortForwardDestinationRequest, b) is None {
        law_no_fault_is_well_formed(Shape::PortForwardDestinationRequest, b);
        let fs = parse_fields(b)->0;
        lemma_endpoint_total(Shape::PortForwardDestinationRequest, fs, NESTING as nat, 1);
        lemma_fitting(Shape::PortForwardDestinationRequest, fs, NESTING as nat, 2);
    }
}

proof fn lemma_initial_payload_fault(b: Seq<u8>)
    requires
        b.len() <= usize::MAX,
        InitialPayloadView::parse(b) is None,
    ensures
        fault(Shape::InitialPayload, b) is Some,
{
    if fault(Shape::InitialPayload, b) is None {
        law_no_fault_is_well_formed(Shape::InitialPayload, b);
        let fs = parse_fields(b)->0;
        lemma_fitting(Shape::InitialPayload, fs, NESTING as nat, 1);
        assert forall|i: int| 0 <= i < fs.len() && (#[trigger] fs[i]).tag == 2 implies request_kind()(
            fs[i].value,
        ) is Some by {
            assert(fits(Shape::InitialPayload, fs[i], NESTING as nat));
            lemma_source_request_total(fs[i].value->Bytes_0, (NESTING - 1) as nat);
        }
        lemma_all_of_total(fs, 2, request_kind());
        assert forall|i: int| 0 <= i < fs.len() && (#[trigger] fs[i]).tag == 3 implies entry_kind()(
            fs[i].value,
        ) is Some by {
            assert(fits(Shape::InitialPayload, fs[i], NESTING as nat));
            let inner = parse_fields(fs[i].value->Bytes_0)->0;
            lemma_fitting(Shape::Variable, inner, NESTING as nat, 1);
            lemma_fitting(Shape::Variable, inner, NESTING as nat, 2);
        }
        lemma_all_of_total(fs, 3, entry_kind());
    }
}

/// The contents of a message field in fields that fit.
proof fn lemma_bodies(m: Shape, inner: Shape, fs: Seq<Field>, depth: nat, tag: u32)
    requires
        m.kind(tag) == Some(Kind::Message(inner)),
        forall|i: int| 0 <= i < fs.len() ==> fits(m, #[trigger] fs[i], depth),
    ensures
        all_of(fs, tag, bytes_kind()) matches Some(bodies) && forall|i: int|
            0 <= i < bodies.len() ==> well_formed(inner, #[trigger] bodies[i], (depth - 1) as nat),
    decreases fs.len(),
{
    if fs.len() > 0 {
        let front = fs.drop_last();
        assert forall|i: int| 0 <= i < front.len() implies fits(m, #[trigger] front[i], depth) by {
            assert(front[i] == fs[i]);
        }
        lemma_bodies(m, inner, front, depth, tag);
        assert(fits(m, fs[fs.len() - 1], depth));
    }
}

proof fn lemma_merged_fit(bodies: Seq<Seq<u8>>, depth: nat)
    requires
        forall|i: int|
            0 <= i < bodies.len() ==> well_formed(
                Shape::SocketEndpoint,
                #[trigger] bodies[i],
                depth,
            ),
    ensures
        merged_fields(bodies, depth) matches Some(fs) && forall|i: int|
            0 <= i < fs.len() ==> fits(Shape::SocketEndpoint, #[trigger] fs[i], depth),
    decreases bodies.len(),
{
    if bodies.len() > 0 {
        let front = bodies.drop_last();
        assert forall|i: int| 0 <= i < front.len() implies well_formed(
            Shape::SocketEndpoint,
            #[trigger] front[i],
            depth,
        ) by {
            assert(front[i] == bodies[i]);
        }
        lemma_merged_fit(front, depth);
        assert(well_formed(Shape::SocketEndpoint, bodies[bodies.len() - 1], depth));
        let a = merged_fields(front, depth)->0;
        let b = parse_nested(bodies.last(), depth)->0;
        assert forall|i: int| 0 <= i < (a + b).len() implies fits(
            Shape::SocketEndpoint,
            #[trigger] (a + b)[i],
            depth,
        ) by {
            if i < a.len() {
                assert((a + b)[i] == a[i]);
            } else {
                assert((a + b)[i] == b[i - a.len()]);
            }
        }
    }
}

proof fn lemma_endpoint_total(m: Shape, fs: Seq<Field>, depth: nat, tag: u32)
    requires
        m.kind(tag) == Some(Kind::Message(Shape::SocketEndpoint)),
        forall|i: int| 0 <= i < fs.len() ==> fits(m, #[trigger] fs[i], depth),
    ensures
        endpoint_of(fs, tag, depth) is Some,
{
    lemma_bodies(m, Shape::SocketEndpoint, fs, depth, tag);
    let bodies = all_of(fs, tag, bytes_kind())->0;
    let inner = (depth - 1) as nat;
    lemma_merged_fit(bodies, inner);
    let all = merged_fields(bodies, inner)->0;
    lemma_fitting(Shape::SocketEndpoint, all, inner, 1);
    lemma_fitting(Shape::SocketEndpoint, all, inner, 2);
}

proof fn lemma_source_request_total(b: Seq<u8>, depth: nat)
    requires
        well_formed(Shape::PortForwardSourceRequest, b, depth),
    ensures
        PortForwardSourceRequestView::parse_in(b, depth) is Some,
{
    let fs = parse_nested(b, depth)->0;
    lemma_endpoint_total(Shape::PortForwardSourceRequest, fs, depth, 1);
    lemma_endpoint_total(Shape::PortForwardSourceRequest, fs, depth, 2);
    lemma_fitting(Shape::PortForwardSourceRequest, fs, depth, 3);
}

} // verus!
