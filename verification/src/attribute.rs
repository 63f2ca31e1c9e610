//! The attribute services a Stream takes: a Read of one node's value
//! attribute, with its source timestamp asked for, and a Write of one, each
//! answered with its one result.

use vstd::prelude::*;

use crate::codec::{
    agrees, i32_bytes, lemma_join, u16_bytes, u16_le, u32_bytes, u32_le, u64_bytes, u64_le,
    ByteWriter, Cursor, Parsed,
};
use crate::error::{permanent, protocol_error, Result};
use crate::node::{node_bytes, NodeId, NodeIdView};
use crate::service::{
    body, body_bytes, body_type, law_body_says_its_type, law_request_header_reads_back,
    law_response_header_reads_back, request_header, request_header_bytes, response_header,
    response_header_bytes, RequestHeader, RequestHeaderView, ResponseHeader,
};
use crate::wire::{
    count, data_value, diagnostic_array, group_reads_back, node_id, string, string_bytes,
    value_bytes, DataValue, DataValueView, UaBinary, UaBinaryWrite,
};

verus! {

/// `ReadRequest_Encoding_DefaultBinary`.
pub const READ_REQUEST: u32 = 631;

/// `ReadResponse_Encoding_DefaultBinary`.
pub const READ_RESPONSE: u32 = 634;

/// `WriteRequest_Encoding_DefaultBinary`.
pub const WRITE_REQUEST: u32 = 673;

/// `WriteResponse_Encoding_DefaultBinary`.
pub const WRITE_RESPONSE: u32 = 676;

/// The attribute a Stream is: `Value`.
pub const VALUE_ATTRIBUTE: u32 = 13;

/// The bit pattern of the double that is zero: a value of any age will not
/// do.
pub const NO_AGE: u64 = 0;

/// `ReadRequest` for one node's value, source timestamp asked for.
#[derive(Debug, PartialEq, Eq)]
pub struct Read {
    pub header: RequestHeader,
    pub node: NodeId,
}

/// What a [`Read`] asks.
pub struct ReadView {
    pub header: RequestHeaderView,
    pub node: NodeIdView,
}

impl View for Read {
    type V = ReadView;

    open spec fn view(&self) -> ReadView {
        ReadView { header: self.header@, node: self.node@ }
    }
}

impl ReadView {
    /// That the encoding can say how long each name is.
    pub open spec fn fits(self) -> bool {
        self.header.token.fits() && self.node.fits()
    }
}

impl Clone for Read {
    fn clone(&self) -> (copy: Self)
        ensures
            copy@ == self@,
    {
        Read { header: self.header.clone(), node: self.node.clone() }
    }
}

/// A read request: one node, its value, the source timestamp, no range, no
/// data encoding.
pub open spec fn read_bytes(read: ReadView) -> Seq<u8> {
    body_bytes(READ_REQUEST) + (request_header_bytes(read.header) + (u64_bytes(NO_AGE) + (u32_bytes(
        0,
    ) + (i32_bytes(1) + (node_bytes(read.node) + (u32_bytes(VALUE_ATTRIBUTE) + (string_bytes(None)
        + (u16_bytes(0) + string_bytes(None)))))))))
}

/// The read request at a cursor: it reads one node, and the value of it.
pub open spec fn read_request(bytes: Seq<u8>) -> Parsed<ReadView> {
    request_header(bytes).and(
        |header: RequestHeaderView, rest: Seq<u8>|
    u64_le(rest).and(
        |age: u64, rest: Seq<u8>|
    u32_le(rest).and(
        |timestamps: u32, rest: Seq<u8>|
    count(rest).and(
        |number: usize, rest: Seq<u8>|
    if number != 1 {
        Parsed::Failed(permanent("a read of other than one node"@), rest)
    } else {
    node_id(rest).and(
        |node: NodeIdView, rest: Seq<u8>|
    u32_le(rest).and(
        |attribute: u32, rest: Seq<u8>|
    if attribute != VALUE_ATTRIBUTE {
        Parsed::Failed(permanent("a read of an attribute other than the value"@), rest)
    } else {
    string(rest).and(
        |range: Option<Seq<char>>, rest: Seq<u8>|
    u16_le(rest).and(
        |encoding_namespace: u16, rest: Seq<u8>|
    string(rest).and(
        |encoding: Option<Seq<char>>, rest: Seq<u8>|
            Parsed::Read(ReadView { header, node }, rest),
    )))}))}))))
}

impl Read {
    #[must_use]
    pub fn to_bytes(&self) -> (out: Vec<u8>)
        ensures
            out@ == read_bytes(self@),
    {
        broadcast use lemma_join;

        let mut out = body(READ_REQUEST);
        self.header.put(&mut out);
        out.u64_le(NO_AGE).u32_le(0).i32_le(1);
        self.node.put(&mut out);
        out.u32_le(VALUE_ATTRIBUTE).string(None).u16_le(0).string(None);
        out
    }

    /// # Errors
    /// Where the request is cut short, reads more than one node, or an
    /// attribute other than the value.
    pub fn take(reader: &mut Cursor<'_>) -> (result: Result<Self>)
        ensures
            agrees(result, final(reader)@, read_request(old(reader)@)),
    {
        let header = RequestHeader::take(reader)?;
        reader.u64_le()?;
        reader.u32_le()?;
        let number = reader.count()?;
        if number != 1 {
            return Err(protocol_error("a read of other than one node"));
        }
        let node = reader.node_id()?;
        let attribute = reader.u32_le()?;
        if attribute != VALUE_ATTRIBUTE {
            return Err(protocol_error("a read of an attribute other than the value"));
        }
        reader.string()?;
        reader.u16_le()?;
        reader.string()?;
        Ok(Read { header, node })
    }
}

/// `ReadResponse` with one result.
#[derive(Debug, PartialEq, Eq)]
pub struct ReadResult {
    pub header: ResponseHeader,
    pub value: DataValue,
}

/// What a [`ReadResult`] answers.
pub struct ReadResultView {
    pub header: ResponseHeader,
    pub value: DataValueView,
}

impl View for ReadResult {
    type V = ReadResultView;

    open spec fn view(&self) -> ReadResultView {
        ReadResultView { header: self.header, value: self.value@ }
    }
}

impl Clone for ReadResult {
    fn clone(&self) -> (copy: Self)
        ensures
            copy@ == self@,
    {
        ReadResult { header: self.header, value: self.value.clone() }
    }
}

/// A read response: one result, no diagnostics.
pub open spec fn read_result_bytes(result: ReadResultView) -> Seq<u8> {
    body_bytes(READ_RESPONSE) + (response_header_bytes(result.header) + (i32_bytes(1) + (value_bytes(
        result.value,
    ) + i32_bytes(0))))
}

/// The read response at a cursor: one result, and diagnostics.
pub open spec fn read_result(bytes: Seq<u8>) -> Parsed<ReadResultView> {
    response_header(bytes).and(
        |header: ResponseHeader, rest: Seq<u8>|
    count(rest).and(
        |number: usize, rest: Seq<u8>|
    if number != 1 {
        Parsed::Failed(permanent("a read answered with other than one result"@), rest)
    } else {
    data_value(rest).and(
        |value: DataValueView, rest: Seq<u8>|
    diagnostic_array(rest).and(
        |diagnostics: (), rest: Seq<u8>| Parsed::Read(ReadResultView { header, value }, rest),
    ))}))
}

impl ReadResult {
    #[must_use]
    pub fn to_bytes(&self) -> (out: Vec<u8>)
        ensures
            out@ == read_result_bytes(self@),
    {
        broadcast use lemma_join;

        let mut out = body(READ_RESPONSE);
        self.header.put(&mut out);
        out.i32_le(1);
        self.value.put(&mut out);
        out.i32_le(0);
        out
    }

    /// # Errors
    /// Where the response is cut short or carries other than one result.
    pub fn take(reader: &mut Cursor<'_>) -> (result: Result<Self>)
        ensures
            agrees(result, final(reader)@, read_result(old(reader)@)),
    {
        let header = ResponseHeader::take(reader)?;
        let number = reader.count()?;
        if number != 1 {
            return Err(protocol_error("a read answered with other than one result"));
        }
        let value = DataValue::take(reader)?;
        reader.skip_diagnostics()?;
        Ok(ReadResult { header, value })
    }
}

/// `WriteRequest` of one node's value.
#[derive(Debug, PartialEq, Eq)]
pub struct Write {
    pub header: RequestHeader,
    pub node: NodeId,
    pub value: DataValue,
}

/// What a [`Write`] asks.
pub struct WriteView {
    pub header: RequestHeaderView,
    pub node: NodeIdView,
    pub value: DataValueView,
}

impl View for Write {
    type V = WriteView;

    open spec fn view(&self) -> WriteView {
        WriteView { header: self.header@, node: self.node@, value: self.value@ }
    }
}

impl WriteView {
    /// That the encoding can say how long each name, and the value, are.
    pub open spec fn fits(self) -> bool {
        self.header.token.fits() && self.node.fits() && self.value.fits()
    }
}

impl Clone for Write {
    fn clone(&self) -> (copy: Self)
        ensures
            copy@ == self@,
    {
        Write { header: self.header.clone(), node: self.node.clone(), value: self.value.clone() }
    }
}

/// What stands before the value of a write request: one node, its value, no
/// range.
pub open spec fn write_target_bytes(header: RequestHeaderView, node: NodeIdView) -> Seq<u8> {
    request_header_bytes(header) + (i32_bytes(1) + (node_bytes(node) + (u32_bytes(VALUE_ATTRIBUTE)
        + string_bytes(None))))
}

/// A write request: one node, its value, no range.
pub open spec fn write_bytes(write: WriteView) -> Seq<u8> {
    body_bytes(WRITE_REQUEST) + (write_target_bytes(write.header, write.node) + value_bytes(
        write.value,
    ))
}

/// Who writes, and which node, at a cursor, as far as the value: one node is
/// written, and the value of it.
pub open spec fn write_target(bytes: Seq<u8>) -> Parsed<(RequestHeaderView, NodeIdView)> {
    request_header(bytes).and(
        |header: RequestHeaderView, rest: Seq<u8>|
    count(rest).and(
        |number: usize, rest: Seq<u8>|
    if number != 1 {
        Parsed::Failed(permanent("a write of other than one node"@), rest)
    } else {
    node_id(rest).and(
        |node: NodeIdView, rest: Seq<u8>|
    u32_le(rest).and(
        |attribute: u32, rest: Seq<u8>|
    if attribute != VALUE_ATTRIBUTE {
        Parsed::Failed(permanent("a write of an attribute other than the value"@), rest)
    } else {
    string(rest).and(
        |range: Option<Seq<char>>, rest: Seq<u8>| Parsed::Read((header, node), rest),
    )}))}))
}

/// The write request at a cursor: who writes which node, and its value.
pub open spec fn write_request(bytes: Seq<u8>) -> Parsed<WriteView> {
    write_target(bytes).and(
        |target: (RequestHeaderView, NodeIdView), rest: Seq<u8>|
    data_value(rest).and(
        |value: DataValueView, rest: Seq<u8>|
            Parsed::Read(WriteView { header: target.0, node: target.1, value }, rest),
    ))
}

impl Write {
    #[must_use]
    pub fn to_bytes(&self) -> (out: Vec<u8>)
        ensures
            out@ == write_bytes(self@),
    {
        broadcast use lemma_join;

        let mut out = body(WRITE_REQUEST);
        self.header.put(&mut out);
        out.i32_le(1);
        self.node.put(&mut out);
        out.u32_le(VALUE_ATTRIBUTE).string(None);
        self.value.put(&mut out);
        out
    }

    /// Who writes, and which node, as far as the value.
    ///
    /// # Errors
    /// Where the request is cut short, writes more than one node, or an
    /// attribute other than the value.
    pub fn take_target(reader: &mut Cursor<'_>) -> (result: Result<(RequestHeader, NodeId)>)
        ensures
            agrees(result, final(reader)@, write_target(old(reader)@)),
    {
        let header = RequestHeader::take(reader)?;
        let number = reader.count()?;
        if number != 1 {
            return Err(protocol_error("a write of other than one node"));
        }
        let node = reader.node_id()?;
        let attribute = reader.u32_le()?;
        if attribute != VALUE_ATTRIBUTE {
            return Err(protocol_error("a write of an attribute other than the value"));
        }
        reader.string()?;
        Ok((header, node))
    }

    /// # Errors
    /// Where the request is cut short, writes more than one node, an
    /// attribute other than the value, or a value that is not bytes.
    pub fn take(reader: &mut Cursor<'_>) -> (result: Result<Self>)
        ensures
            agrees(result, final(reader)@, write_request(old(reader)@)),
    {
        let (header, node) = Self::take_target(reader)?;
        let value = DataValue::take(reader)?;
        Ok(Write { header, node, value })
    }
}

/// `WriteResponse` with one result.
#[derive(Clone, Copy, Debug, PartialEq, Eq)]
pub struct WriteResult {
    pub header: ResponseHeader,
    pub status: u32,
}

impl View for WriteResult {
    type V = WriteResult;

    open spec fn view(&self) -> WriteResult {
        *self
    }
}

/// A write response: one result, no diagnostics.
pub open spec fn write_result_bytes(result: WriteResult) -> Seq<u8> {
    body_bytes(WRITE_RESPONSE) + (response_header_bytes(result.header) + (i32_bytes(1) + (u32_bytes(
        result.status,
    ) + i32_bytes(0))))
}

/// The write response at a cursor: one result, and diagnostics.
pub open spec fn write_result(bytes: Seq<u8>) -> Parsed<WriteResult> {
    response_header(bytes).and(
        |header: ResponseHeader, rest: Seq<u8>|
    count(rest).and(
        |number: usize, rest: Seq<u8>|
    if number != 1 {
        Parsed::Failed(permanent("a write answered with other than one result"@), rest)
    } else {
    u32_le(rest).and(
        |status: u32, rest: Seq<u8>|
    diagnostic_array(rest).and(
        |diagnostics: (), rest: Seq<u8>| Parsed::Read(WriteResult { header, status }, rest),
    ))}))
}

impl WriteResult {
    #[must_use]
    pub fn to_bytes(&self) -> (out: Vec<u8>)
        ensures
            out@ == write_result_bytes(*self),
    {
        broadcast use lemma_join;

        let mut out = body(WRITE_RESPONSE);
        self.header.put(&mut out);
        out.i32_le(1).u32_le(self.status).i32_le(0);
        out
    }

    /// # Errors
    /// Where the response is cut short or carries other than one result.
    pub fn take(reader: &mut Cursor<'_>) -> (result: Result<Self>)
        ensures
            agrees(result, final(reader)@, write_result(old(reader)@)),
    {
        let header = ResponseHeader::take(reader)?;
        let number = reader.count()?;
        if number != 1 {
            return Err(protocol_error("a write answered with other than one result"));
        }
        let status = reader.u32_le()?;
        reader.skip_diagnostics()?;
        Ok(WriteResult { header, status })
    }
}

/// A read request says its type and reads back, to its last byte. Left out
/// are names too long for their length field.
pub proof fn law_read_reads_back(read: ReadView)
    requires
        read.fits(),
    ensures
        body_type(read_bytes(read)) matches Parsed::Read(id, rest) && id == READ_REQUEST
            && read_request(rest) == Parsed::Read(read, Seq::empty()),
{
    broadcast use {group_reads_back, law_body_says_its_type, law_request_header_reads_back};

    let end = Seq::<u8>::empty();
    assert(string_bytes(None) + end == string_bytes(None));
}

/// A read response says its type and reads back, to its last byte. Left out
/// is a value too long for its length field.
pub proof fn law_read_result_reads_back(result: ReadResultView)
    requires
        result.value.fits(),
    ensures
        body_type(read_result_bytes(result)) matches Parsed::Read(id, rest) && id == READ_RESPONSE
            && read_result(rest) == Parsed::Read(result, Seq::empty()),
{
    broadcast use {group_reads_back, law_body_says_its_type, law_response_header_reads_back};

    let end = Seq::<u8>::empty();
    assert(i32_bytes(0) + end == i32_bytes(0));
}

/// Who writes, and which node, reads back, and the value behind it is not
/// touched. Left out are names too long for their length field.
pub proof fn law_write_target_reads_back(
    header: RequestHeaderView,
    node: NodeIdView,
    rest: Seq<u8>,
)
    requires
        header.token.fits(),
        node.fits(),
    ensures
        write_target(write_target_bytes(header, node) + rest) == Parsed::Read(
            (header, node),
            rest,
        ),
{
    broadcast use {group_reads_back, law_request_header_reads_back};

}

/// A write request says its type and reads back, to its last byte. Left out
/// are names and a value too long for their length field.
pub proof fn law_write_reads_back(write: WriteView)
    requires
        write.fits(),
    ensures
        body_type(write_bytes(write)) matches Parsed::Read(id, rest) && id == WRITE_REQUEST
            && write_request(rest) == Parsed::Read(write, Seq::empty()),
{
    broadcast use {group_reads_back, law_body_says_its_type};

    law_write_target_reads_back(write.header, write.node, value_bytes(write.value));
    let end = Seq::<u8>::empty();
    assert(value_bytes(write.value) + end == value_bytes(write.value));
}

/// A write response says its type and reads back, to its last byte.
pub proof fn law_write_result_reads_back(result: WriteResult)
    ensures
        body_type(write_result_bytes(result)) matches Parsed::Read(id, rest) && id
            == WRITE_RESPONSE && write_result(rest) == Parsed::Read(
            result,
            Seq::empty(),
        ),
{
    broadcast use {group_reads_back, law_body_says_its_type, law_response_header_reads_back};

    let end = Seq::<u8>::empty();
    assert(i32_bytes(0) + end == i32_bytes(0));
}

} // verus!
