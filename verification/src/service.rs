//! The services a Stream takes: the request header every call carries and
//! the response header every answer carries, the secure channel opened and
//! closed, and the fault a server answers a call it will not run. A body
//! opens with the node id of what it is; the ids are the numeric ones of
//! the default binary encoding.

use vstd::prelude::*;

use crate::channel::PROTOCOL_VERSION;
use crate::codec::{
    agrees, byte, i32_bytes, i64_bytes, i64_le, lemma_join, u32_bytes, u32_le, ByteWriter, Cursor,
    Parsed,
};
use crate::error::{permanent, protocol_error, Failure, Result, TransportError};
use crate::node::{node_bytes, node_text, NodeId, NodeIdView};
use crate::text::{hex, hex_text};
use crate::wire::{
    byte_string, byte_string_bytes, diagnostic_info, group_reads_back, node_id, now, string,
    string_array, string_bytes, told_by_a_clock, UaBinary, UaBinaryWrite, EPOCH_1601,
};

verus! {

/// `OpenSecureChannelRequest_Encoding_DefaultBinary`.
pub const OPEN_CHANNEL_REQUEST: u32 = 446;

/// `OpenSecureChannelResponse_Encoding_DefaultBinary`.
pub const OPEN_CHANNEL_RESPONSE: u32 = 449;

/// `CloseSecureChannelRequest_Encoding_DefaultBinary`.
pub const CLOSE_CHANNEL_REQUEST: u32 = 452;

/// `ServiceFault_Encoding_DefaultBinary`.
pub const SERVICE_FAULT: u32 = 397;

/// `Good`.
pub const GOOD: u32 = 0;

/// `Bad_ServiceUnsupported`.
pub const BAD_SERVICE_UNSUPPORTED: u32 = 0x800B_0000;

/// `Bad_SecureChannelIdInvalid`.
pub const BAD_SECURE_CHANNEL_ID_INVALID: u32 = 0x8022_0000;

/// `Bad_SessionIdInvalid`.
pub const BAD_SESSION_ID_INVALID: u32 = 0x8025_0000;

/// `Bad_SessionNotActivated`.
pub const BAD_SESSION_NOT_ACTIVATED: u32 = 0x8027_0000;

/// `Bad_IdentityTokenRejected`.
pub const BAD_IDENTITY_TOKEN_REJECTED: u32 = 0x8021_0000;

/// `Bad_NodeIdUnknown`.
pub const BAD_NODE_ID_UNKNOWN: u32 = 0x8034_0000;

/// `Bad_TypeMismatch`.
pub const BAD_TYPE_MISMATCH: u32 = 0x8074_0000;

/// `Bad_TcpEndpointUrlInvalid`.
pub const BAD_ENDPOINT_URL_INVALID: u32 = 0x8083_0000;

/// `Bad_TcpMessageTooLarge`.
pub const BAD_MESSAGE_TOO_LARGE: u32 = 0x8080_0000;

/// `Bad_ServerNotConnected`, a transient the client may retry.
pub const BAD_SERVER_NOT_CONNECTED: u32 = 0x8095_0000;

/// `Bad_ResourceUnavailable`, a transient the client may retry.
pub const BAD_RESOURCE_UNAVAILABLE: u32 = 0x8004_0000;

/// `Bad_CommunicationError`, a transient the client may retry.
pub const BAD_COMMUNICATION_ERROR: u32 = 0x8005_0000;

/// What a status code says in words.
pub open spec fn status_name(code: u32) -> Seq<char> {
    if code == BAD_SERVICE_UNSUPPORTED {
        "the service is not supported"@
    } else if code == BAD_SECURE_CHANNEL_ID_INVALID {
        "no such secure channel"@
    } else if code == BAD_SESSION_ID_INVALID {
        "no such session"@
    } else if code == BAD_SESSION_NOT_ACTIVATED {
        "the session is not activated"@
    } else if code == BAD_IDENTITY_TOKEN_REJECTED {
        "the identity token was rejected"@
    } else if code == BAD_NODE_ID_UNKNOWN {
        "no such node"@
    } else if code == BAD_TYPE_MISMATCH {
        "the value is not of the node's type"@
    } else if code == BAD_ENDPOINT_URL_INVALID {
        "no such endpoint"@
    } else if code == BAD_MESSAGE_TOO_LARGE {
        "the message is too large"@
    } else if code == BAD_SERVER_NOT_CONNECTED {
        "the server is not connected"@
    } else if 0x8000_0000 <= code <= 0xBFFF_FFFF {
        "a bad status"@
    } else {
        "an uncertain status"@
    }
}

/// That a server with this status is busy or not yet up.
pub open spec fn may_pass(code: u32) -> bool {
    code == BAD_SERVER_NOT_CONNECTED || code == BAD_RESOURCE_UNAVAILABLE || code
        == BAD_COMMUNICATION_ERROR
}

/// The failure a status code names.
pub open spec fn status_failure(what: Seq<char>, code: u32) -> Failure {
    Failure {
        message: what + ": status 0x"@ + hex(code as nat, 8) + ", "@ + status_name(code),
        retryable: may_pass(code),
    }
}

/// The failure a status code names, for a message: retryable where the
/// server said it is busy or not yet up.
#[must_use]
pub fn status_error(what: &str, code: u32) -> (error: TransportError)
    ensures
        error@ == status_failure(what@, code),
{
    let name = match code {
        BAD_SERVICE_UNSUPPORTED => "the service is not supported",
        BAD_SECURE_CHANNEL_ID_INVALID => "no such secure channel",
        BAD_SESSION_ID_INVALID => "no such session",
        BAD_SESSION_NOT_ACTIVATED => "the session is not activated",
        BAD_IDENTITY_TOKEN_REJECTED => "the identity token was rejected",
        BAD_NODE_ID_UNKNOWN => "no such node",
        BAD_TYPE_MISMATCH => "the value is not of the node's type",
        BAD_ENDPOINT_URL_INVALID => "no such endpoint",
        BAD_MESSAGE_TOO_LARGE => "the message is too large",
        BAD_SERVER_NOT_CONNECTED => "the server is not connected",
        0x8000_0000..=0xBFFF_FFFF => "a bad status",
        _ => "an uncertain status",
    };
    let mut message = what.to_string();
    message.append(": status 0x");
    message.append(hex_text(code, 8).as_str());
    message.append(", ");
    message.append(name);
    if code == BAD_SERVER_NOT_CONNECTED || code == BAD_RESOURCE_UNAVAILABLE || code
        == BAD_COMMUNICATION_ERROR {
        TransportError::retryable(message)
    } else {
        TransportError::permanent(message)
    }
}

/// The node id that stands for none.
pub open spec fn null_node() -> NodeIdView {
    NodeIdView::Numeric { namespace: 0, id: 0 }
}

/// What every request opens with.
#[derive(Debug, PartialEq, Eq)]
pub struct RequestHeader {
    /// The session's authentication token; null before there is one.
    pub token: NodeId,
    pub timestamp: i64,
    pub handle: u32,
    pub timeout_hint: u32,
}

/// What a [`RequestHeader`] says.
pub struct RequestHeaderView {
    pub token: NodeIdView,
    pub timestamp: i64,
    pub handle: u32,
    pub timeout_hint: u32,
}

impl View for RequestHeader {
    type V = RequestHeaderView;

    open spec fn view(&self) -> RequestHeaderView {
        RequestHeaderView {
            token: self.token@,
            timestamp: self.timestamp,
            handle: self.handle,
            timeout_hint: self.timeout_hint,
        }
    }
}

impl Clone for RequestHeader {
    fn clone(&self) -> (copy: Self)
        ensures
            copy@ == self@,
    {
        RequestHeader {
            token: self.token.clone(),
            timestamp: self.timestamp,
            handle: self.handle,
            timeout_hint: self.timeout_hint,
        }
    }
}

/// A request header: no diagnostics asked for, no audit entry, no
/// additional header.
#[verifier::opaque]
pub open spec fn request_header_bytes(header: RequestHeaderView) -> Seq<u8> {
    node_bytes(header.token) + (i64_bytes(header.timestamp) + (u32_bytes(header.handle) + (u32_bytes(
        0,
    ) + (string_bytes(None) + (u32_bytes(header.timeout_hint) + (node_bytes(null_node())
        + seq![0u8]))))))
}

/// The request header at a cursor; one with an additional header is
/// refused.
#[verifier::opaque]
pub open spec fn request_header(bytes: Seq<u8>) -> Parsed<RequestHeaderView> {
    node_id(bytes).and(
        |token: NodeIdView, rest: Seq<u8>|
    i64_le(rest).and(
        |timestamp: i64, rest: Seq<u8>|
    u32_le(rest).and(
        |handle: u32, rest: Seq<u8>|
    u32_le(rest).and(
        |diagnostics: u32, rest: Seq<u8>|
    string(rest).and(
        |audit: Option<Seq<char>>, rest: Seq<u8>|
    u32_le(rest).and(
        |timeout_hint: u32, rest: Seq<u8>|
    node_id(rest).and(
        |additional: NodeIdView, rest: Seq<u8>|
    byte(rest).and(
        |encoding: u8, rest: Seq<u8>|
            if encoding != 0 {
                Parsed::Failed(permanent("a request with an additional header"@), rest)
            } else {
                Parsed::Read(RequestHeaderView { token, timestamp, handle, timeout_hint }, rest)
            },
    ))))))))
}

impl RequestHeader {
    /// A header for `handle` now, `token` in hand, hinting `timeout_hint`
    /// milliseconds.
    #[must_use]
    pub fn new(token: NodeId, handle: u32, timeout_hint: u32) -> (header: Self)
        ensures
            header@.token == token@,
            header@.handle == handle,
            header@.timeout_hint == timeout_hint,
            header@.timestamp >= EPOCH_1601,
            told_by_a_clock(header@.timestamp),
    {
        RequestHeader { token, timestamp: now(), handle, timeout_hint }
    }

    pub fn put(&self, out: &mut Vec<u8>)
        ensures
            final(out)@ == old(out)@ + request_header_bytes(self@),
    {
        broadcast use lemma_join;

        reveal(request_header_bytes);
        self.token.put(out);
        out.i64_le(self.timestamp).u32_le(self.handle).u32_le(0).string(None).u32_le(
            self.timeout_hint,
        );
        NodeId::numeric(0, 0).put(out);
        out.byte(0);
    }

    /// # Errors
    /// Where the header is cut short, or is followed by an additional one.
    pub fn take(reader: &mut Cursor<'_>) -> (result: Result<Self>)
        ensures
            agrees(result, final(reader)@, request_header(old(reader)@)),
    {
        reveal(request_header);
        let token = reader.node_id()?;
        let timestamp = reader.i64_le()?;
        let handle = reader.u32_le()?;
        reader.u32_le()?;
        reader.string()?;
        let timeout_hint = reader.u32_le()?;
        reader.node_id()?;
        let encoding = reader.byte()?;
        if encoding != 0 {
            return Err(protocol_error("a request with an additional header"));
        }
        Ok(RequestHeader { token, timestamp, handle, timeout_hint })
    }
}

/// What every response opens with.
#[derive(Clone, Copy, Debug, PartialEq, Eq)]
pub struct ResponseHeader {
    pub timestamp: i64,
    pub handle: u32,
    pub result: u32,
}

impl View for ResponseHeader {
    type V = ResponseHeader;

    open spec fn view(&self) -> ResponseHeader {
        *self
    }
}

/// A response header: no diagnostics, no strings, no additional header.
#[verifier::opaque]
pub open spec fn response_header_bytes(header: ResponseHeader) -> Seq<u8> {
    i64_bytes(header.timestamp) + (u32_bytes(header.handle) + (u32_bytes(header.result) + (seq![0u8]
        + (i32_bytes(0) + (node_bytes(null_node()) + seq![0u8])))))
}

/// The response header at a cursor; one with an additional header is
/// refused.
#[verifier::opaque]
pub open spec fn response_header(bytes: Seq<u8>) -> Parsed<ResponseHeader> {
    i64_le(bytes).and(
        |timestamp: i64, rest: Seq<u8>|
    u32_le(rest).and(
        |handle: u32, rest: Seq<u8>|
    u32_le(rest).and(
        |result: u32, rest: Seq<u8>|
    diagnostic_info(rest).and(
        |diagnostics: (), rest: Seq<u8>|
    string_array(rest).and(
        |table: (), rest: Seq<u8>|
    node_id(rest).and(
        |additional: NodeIdView, rest: Seq<u8>|
    byte(rest).and(
        |encoding: u8, rest: Seq<u8>|
            if encoding != 0 {
                Parsed::Failed(permanent("a response with an additional header"@), rest)
            } else {
                Parsed::Read(ResponseHeader { timestamp, handle, result }, rest)
            },
    )))))))
}

impl ResponseHeader {
    /// An answer to `handle` now, with `result`.
    #[must_use]
    pub fn new(handle: u32, result: u32) -> (header: Self)
        ensures
            header.handle == handle,
            header.result == result,
            header.timestamp >= EPOCH_1601,
            told_by_a_clock(header.timestamp),
    {
        ResponseHeader { timestamp: now(), handle, result }
    }

    pub fn put(&self, out: &mut Vec<u8>)
        ensures
            final(out)@ == old(out)@ + response_header_bytes(*self),
    {
        broadcast use lemma_join;

        reveal(response_header_bytes);
        out.i64_le(self.timestamp).u32_le(self.handle).u32_le(
            self.result,
        ).no_diagnostic_info().i32_le(0);
        NodeId::numeric(0, 0).put(out);
        out.byte(0);
    }

    /// # Errors
    /// Where the header is cut short, or is followed by an additional one.
    pub fn take(reader: &mut Cursor<'_>) -> (result: Result<Self>)
        ensures
            agrees(result, final(reader)@, response_header(old(reader)@)),
    {
        reveal(response_header);
        let timestamp = reader.i64_le()?;
        let handle = reader.u32_le()?;
        let result = reader.u32_le()?;
        reader.skip_diagnostic_info()?;
        reader.skip_strings()?;
        reader.node_id()?;
        let encoding = reader.byte()?;
        if encoding != 0 {
            return Err(protocol_error("a response with an additional header"));
        }
        Ok(ResponseHeader { timestamp, handle, result })
    }
}

/// The node id that opens a body of a type.
pub open spec fn body_bytes(type_id: u32) -> Seq<u8> {
    node_bytes(NodeIdView::Numeric { namespace: 0, id: type_id })
}

/// That a node id is in a form whose id is carried: numeric or a string.
pub open spec fn carried(bytes: Seq<u8>) -> bool {
    bytes[0] & 0x3f <= 0x03
}

/// The type a body is: it opens with a numeric node id of namespace 0.
pub open spec fn body_type(bytes: Seq<u8>) -> Parsed<u32> {
    node_id(bytes).and(
        |node: NodeIdView, rest: Seq<u8>|
            match node {
                NodeIdView::Numeric { namespace, id } if namespace == 0 && carried(
                    bytes,
                ) => Parsed::Read(id, rest),
                _ => Parsed::Failed(permanent("a body of type "@ + node_text(node)), rest),
            },
    )
}

/// A body opened with the node id of `type_id`.
#[must_use]
pub fn body(type_id: u32) -> (out: Vec<u8>)
    ensures
        out@ == body_bytes(type_id),
{
    broadcast use crate::codec::lemma_nothing_join;

    let mut out: Vec<u8> = Vec::new();
    NodeId::numeric(0, type_id).put(&mut out);
    out
}

/// The type a body is, and a reader over what follows.
///
/// # Errors
/// Where the body does not open with a numeric node id of namespace 0.
pub fn type_of<'a>(bytes: &'a [u8]) -> (result: Result<(u32, Cursor<'a>)>)
    ensures
        match body_type(bytes@) {
            Parsed::Read(id, rest) => result matches Ok(opened) && opened.0 == id && opened.1@
                == rest,
            Parsed::Failed(failure, rest) => result matches Err(error) && error@ == failure,
        },
{
    let mut reader = Cursor::new(bytes);
    let node = reader.node_id()?;
    if bytes[0] & 0x3f <= 0x03 {
        if let NodeId::Numeric { namespace: 0, id } = node {
            return Ok((id, reader));
        }
    }
    let mut message = "a body of type ".to_string();
    message.append(node.to_string().as_str());
    Err(TransportError::permanent(message))
}

/// `OpenSecureChannelRequest`: issue a token for a channel with security
/// mode None, for `requested_lifetime` milliseconds.
#[derive(Debug, PartialEq, Eq)]
pub struct OpenChannel {
    pub header: RequestHeader,
    pub requested_lifetime: u32,
}

/// What an [`OpenChannel`] asks.
pub struct OpenChannelView {
    pub header: RequestHeaderView,
    pub requested_lifetime: u32,
}

impl View for OpenChannel {
    type V = OpenChannelView;

    open spec fn view(&self) -> OpenChannelView {
        OpenChannelView { header: self.header@, requested_lifetime: self.requested_lifetime }
    }
}

impl Clone for OpenChannel {
    fn clone(&self) -> (copy: Self)
        ensures
            copy@ == self@,
    {
        OpenChannel { header: self.header.clone(), requested_lifetime: self.requested_lifetime }
    }
}

/// An open request: issue, security mode None, no nonce.
pub open spec fn open_channel_bytes(open: OpenChannelView) -> Seq<u8> {
    body_bytes(OPEN_CHANNEL_REQUEST) + (request_header_bytes(open.header) + (u32_bytes(
        PROTOCOL_VERSION,
    ) + (u32_bytes(0) + (u32_bytes(1) + (byte_string_bytes(None) + u32_bytes(
        open.requested_lifetime,
    ))))))
}

/// The open request at a cursor: one that renews, or asks for a security
/// mode other than None, is refused.
pub open spec fn open_channel(bytes: Seq<u8>) -> Parsed<OpenChannelView> {
    request_header(bytes).and(
        |header: RequestHeaderView, rest: Seq<u8>|
    u32_le(rest).and(
        |version: u32, rest: Seq<u8>|
    u32_le(rest).and(
        |request_type: u32, rest: Seq<u8>|
    if request_type != 0 {
        Parsed::Failed(permanent("a token renewal, and this side issues only"@), rest)
    } else {
    u32_le(rest).and(
        |mode: u32, rest: Seq<u8>|
    if mode != 1 {
        Parsed::Failed(permanent("a security mode other than None"@), rest)
    } else {
    byte_string(rest).and(
        |nonce: Option<Seq<u8>>, rest: Seq<u8>|
    u32_le(rest).and(
        |requested_lifetime: u32, rest: Seq<u8>|
            Parsed::Read(OpenChannelView { header, requested_lifetime }, rest),
    ))})})))
}

impl OpenChannel {
    #[must_use]
    pub fn to_bytes(&self) -> (out: Vec<u8>)
        ensures
            out@ == open_channel_bytes(self@),
    {
        broadcast use lemma_join;

        let mut out = body(OPEN_CHANNEL_REQUEST);
        self.header.put(&mut out);
        out.u32_le(PROTOCOL_VERSION).u32_le(0).u32_le(1).byte_string(None).u32_le(
            self.requested_lifetime,
        );
        out
    }

    /// # Errors
    /// Where the request is cut short, renews rather than issues, or asks
    /// for a security mode other than None.
    pub fn take(reader: &mut Cursor<'_>) -> (result: Result<Self>)
        ensures
            agrees(result, final(reader)@, open_channel(old(reader)@)),
    {
        let header = RequestHeader::take(reader)?;
        reader.u32_le()?;
        let request_type = reader.u32_le()?;
        if request_type != 0 {
            return Err(protocol_error("a token renewal, and this side issues only"));
        }
        let mode = reader.u32_le()?;
        if mode != 1 {
            return Err(protocol_error("a security mode other than None"));
        }
        reader.byte_string()?;
        let requested_lifetime = reader.u32_le()?;
        Ok(OpenChannel { header, requested_lifetime })
    }
}

/// `OpenSecureChannelResponse`: the channel and its token.
#[derive(Clone, Copy, Debug, PartialEq, Eq)]
pub struct ChannelOpened {
    pub header: ResponseHeader,
    pub channel_id: u32,
    pub token_id: u32,
    pub lifetime: u32,
}

impl View for ChannelOpened {
    type V = ChannelOpened;

    open spec fn view(&self) -> ChannelOpened {
        *self
    }
}

/// An open response: the token is created when the answer is, no nonce.
pub open spec fn channel_opened_bytes(opened: ChannelOpened) -> Seq<u8> {
    body_bytes(OPEN_CHANNEL_RESPONSE) + (response_header_bytes(opened.header) + (u32_bytes(
        PROTOCOL_VERSION,
    ) + (u32_bytes(opened.channel_id) + (u32_bytes(opened.token_id) + (i64_bytes(
        opened.header.timestamp,
    ) + (u32_bytes(opened.lifetime) + byte_string_bytes(None)))))))
}

/// The open response at a cursor.
pub open spec fn channel_opened(bytes: Seq<u8>) -> Parsed<ChannelOpened> {
    response_header(bytes).and(
        |header: ResponseHeader, rest: Seq<u8>|
    u32_le(rest).and(
        |version: u32, rest: Seq<u8>|
    u32_le(rest).and(
        |channel_id: u32, rest: Seq<u8>|
    u32_le(rest).and(
        |token_id: u32, rest: Seq<u8>|
    i64_le(rest).and(
        |created: i64, rest: Seq<u8>|
    u32_le(rest).and(
        |lifetime: u32, rest: Seq<u8>|
    byte_string(rest).and(
        |nonce: Option<Seq<u8>>, rest: Seq<u8>|
            Parsed::Read(ChannelOpened { header, channel_id, token_id, lifetime }, rest),
    )))))))
}

impl ChannelOpened {
    #[must_use]
    pub fn to_bytes(&self) -> (out: Vec<u8>)
        ensures
            out@ == channel_opened_bytes(*self),
    {
        broadcast use lemma_join;

        let mut out = body(OPEN_CHANNEL_RESPONSE);
        self.header.put(&mut out);
        out.u32_le(PROTOCOL_VERSION).u32_le(self.channel_id).u32_le(self.token_id).i64_le(
            self.header.timestamp,
        ).u32_le(self.lifetime).byte_string(None);
        out
    }

    /// # Errors
    /// Where the response is cut short.
    pub fn take(reader: &mut Cursor<'_>) -> (result: Result<Self>)
        ensures
            agrees(result, final(reader)@, channel_opened(old(reader)@)),
    {
        let header = ResponseHeader::take(reader)?;
        reader.u32_le()?;
        let channel_id = reader.u32_le()?;
        let token_id = reader.u32_le()?;
        reader.i64_le()?;
        let lifetime = reader.u32_le()?;
        reader.byte_string()?;
        Ok(ChannelOpened { header, channel_id, token_id, lifetime })
    }
}

/// `CloseSecureChannelRequest`: the header alone.
#[must_use]
pub fn close_channel(header: &RequestHeader) -> (out: Vec<u8>)
    ensures
        out@ == body_bytes(CLOSE_CHANNEL_REQUEST) + request_header_bytes(header@),
{
    let mut out = body(CLOSE_CHANNEL_REQUEST);
    header.put(&mut out);
    out
}

/// `ServiceFault`: the header alone, its result the fault.
#[must_use]
pub fn fault(header: &ResponseHeader) -> (out: Vec<u8>)
    ensures
        out@ == fault_bytes(*header),
{
    let mut out = body(SERVICE_FAULT);
    header.put(&mut out);
    out
}

/// A service fault.
pub open spec fn fault_bytes(header: ResponseHeader) -> Seq<u8> {
    body_bytes(SERVICE_FAULT) + response_header_bytes(header)
}

/// A body says its type, and what follows is untouched.
pub broadcast proof fn law_body_says_its_type(type_id: u32, rest: Seq<u8>)
    ensures
        #[trigger] body_type(body_bytes(type_id) + rest) == Parsed::Read(type_id, rest),
{
    broadcast use group_reads_back;

    let bytes = body_bytes(type_id) + rest;
    assert(bytes[0] == 0 || bytes[0] == 1 || bytes[0] == 2);
    assert(0u8 & 0x3f <= 3 && 1u8 & 0x3f <= 3 && 2u8 & 0x3f <= 3) by (bit_vector);
}

/// What is written of a request header is read back. Left out is a token
/// too long for its length field.
pub broadcast proof fn law_request_header_reads_back(header: RequestHeaderView, rest: Seq<u8>)
    requires
        header.token.fits(),
    ensures
        #[trigger] request_header(request_header_bytes(header) + rest) == Parsed::Read(header, rest),
{
    broadcast use group_reads_back;

    reveal(request_header);
    reveal(request_header_bytes);
}

/// What is written of a response header is read back.
pub broadcast proof fn law_response_header_reads_back(header: ResponseHeader, rest: Seq<u8>)
    ensures
        #[trigger] response_header(response_header_bytes(header) + rest) == Parsed::Read(
            header,
            rest,
        ),
{
    broadcast use group_reads_back;

    reveal(response_header);
    reveal(response_header_bytes);
}

/// An open request says its type and reads back, to its last byte.
pub proof fn law_open_channel_reads_back(open: OpenChannelView)
    requires
        open.header.token.fits(),
    ensures
        body_type(open_channel_bytes(open)) matches Parsed::Read(id, rest) && id
            == OPEN_CHANNEL_REQUEST && open_channel(rest) == Parsed::Read(open, Seq::empty()),
{
    broadcast use {group_reads_back, law_body_says_its_type, law_request_header_reads_back};

    let end = Seq::<u8>::empty();
    assert(u32_bytes(open.requested_lifetime) + end == u32_bytes(open.requested_lifetime));
}

/// An open response says its type and reads back, to its last byte.
pub proof fn law_channel_opened_reads_back(opened: ChannelOpened)
    ensures
        body_type(channel_opened_bytes(opened)) matches Parsed::Read(id, rest) && id
            == OPEN_CHANNEL_RESPONSE && channel_opened(rest) == Parsed::Read(opened, Seq::empty()),
{
    broadcast use {group_reads_back, law_body_says_its_type, law_response_header_reads_back};

    let end = Seq::<u8>::empty();
    assert(byte_string_bytes(None) + end == byte_string_bytes(None));
}

/// A fault says its type and the status it carries.
pub proof fn law_fault_reads_back(header: ResponseHeader)
    ensures
        body_type(fault_bytes(header)) matches Parsed::Read(id, rest) && id == SERVICE_FAULT
            && response_header(rest) == Parsed::Read(header, Seq::empty()),
{
    broadcast use {group_reads_back, law_body_says_its_type, law_response_header_reads_back};

    let end = Seq::<u8>::empty();
    assert(response_header_bytes(header) + end == response_header_bytes(header));
}

} // verus!
