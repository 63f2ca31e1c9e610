//! The server's side of one connection: what a test puts at the far end,
//! and what a Receive Location that accepts writes directly runs.
//!
//! Not an OPC UA server. One session answers one client's Hello, opens
//! its one secure channel under policy None, creates and activates its
//! one session for an anonymous identity, and serves reads and writes of
//! the value attribute over a namespace of nodes kept in memory: what is
//! written is handed up as a Stream and served back to reads. Browsing,
//! subscriptions and every other service are answered as unsupported.
//!
//! No socket is touched here. A session is handed each message that arrived,
//! and appends what is to be sent in answer.

use vstd::prelude::*;

use crate::attribute::{
    law_read_reads_back, law_write_reads_back, law_write_target_reads_back, read_bytes,
    read_request, read_result_bytes, write_bytes, write_result_bytes, write_target,
    write_target_bytes, Read, ReadResult, ReadResultView, ReadView, Write, WriteResult, WriteView,
    READ_REQUEST, WRITE_REQUEST,
};
use crate::channel::{
    chunk_count, chunks, fault_bytes, hello, limits_bytes, numbered, piece_of, raw_bytes, raw_view,
    sendable, write_raw, write_secure, Acknowledge, Fault, FaultView, Hello, Limits, Raw, RawView,
    Secure, SecureView, ACKNOWLEDGE, CHUNK_OVERHEAD, CLOSE, ERROR, FINAL, HELLO, MESSAGE,
    NONE_POLICY, OPEN,
};
use crate::codec::{held, lemma_le_bytes_len, Cursor, Parsed};
use crate::endpoint::{
    activate_session, close_session_bytes, create_session, law_close_session_reads_back,
    session_activated, session_activated_bytes, session_closed, session_closed_bytes,
    session_created_bytes, ActivateSession, CreateSession, Endpoint, EndpointView, SessionCreated,
    SessionCreatedView, ACTIVATE_SESSION_REQUEST, CLOSE_SESSION_REQUEST, CREATE_SESSION_REQUEST,
};
use crate::error::{permanent, protocol_error, Failure, Result, TransportError};
use crate::node::{node_text, NodeId, NodeIdView};
use crate::service::{
    body_bytes, body_type, channel_opened_bytes, law_body_says_its_type, open_channel,
    request_header, type_of, ChannelOpened, OpenChannel, OpenChannelView, RequestHeader,
    RequestHeaderView, ResponseHeader, BAD_ENDPOINT_URL_INVALID, BAD_IDENTITY_TOKEN_REJECTED,
    BAD_NODE_ID_UNKNOWN, BAD_SECURE_CHANNEL_ID_INVALID, BAD_SERVICE_UNSUPPORTED,
    BAD_SESSION_ID_INVALID, BAD_SESSION_NOT_ACTIVATED, BAD_TYPE_MISMATCH, GOOD,
    OPEN_CHANNEL_REQUEST, SERVICE_FAULT,
};
use crate::text::{decimal, decimal_text, lossy, same_bytes, same_text, text_of};
use crate::transport::{Arrived, ArrivedView};
use crate::values::Values;
use crate::wire::{data_value, is_not_bytes, lemma_encoded_len, DataValue, DataValueView};

verus! {

/// The one user token policy this session offers.
pub const ANONYMOUS_POLICY: &'static str = "anonymous";

/// What the client did, as [`Session::next_event`] reports it.
#[derive(Debug, PartialEq, Eq)]
pub enum Event {
    /// The client created a session by this name.
    SessionCreated(String),
    /// The client activated its session under this policy.
    SessionActivated(String),
    /// The client read this node.
    Read(NodeId),
    /// The client wrote a node; here is the Stream.
    Written(Arrived),
    /// The client wrote a value that is not bytes, and was told so.
    Refused(NodeId),
    /// The client closed its session.
    SessionClosed,
    /// The client closed the channel.
    Closed,
    /// The client made a call that was answered with a fault of this status.
    Faulted(u32),
}

/// What an [`Event`] tells.
pub enum EventView {
    SessionCreated(Seq<char>),
    SessionActivated(Seq<char>),
    Read(NodeIdView),
    Written(ArrivedView),
    Refused(NodeIdView),
    SessionClosed,
    Closed,
    Faulted(u32),
}

impl View for Event {
    type V = EventView;

    open spec fn view(&self) -> EventView {
        match self {
            Event::SessionCreated(name) => EventView::SessionCreated(name@),
            Event::SessionActivated(policy) => EventView::SessionActivated(policy@),
            Event::Read(node) => EventView::Read(node@),
            Event::Written(arrived) => EventView::Written(arrived@),
            Event::Refused(node) => EventView::Refused(node@),
            Event::SessionClosed => EventView::SessionClosed,
            Event::Closed => EventView::Closed,
            Event::Faulted(code) => EventView::Faulted(*code),
        }
    }
}

impl Clone for Event {
    fn clone(&self) -> (copy: Self)
        ensures
            copy@ == self@,
    {
        match self {
            Event::SessionCreated(name) => Event::SessionCreated(name.clone()),
            Event::SessionActivated(policy) => Event::SessionActivated(policy.clone()),
            Event::Read(node) => Event::Read(node.clone()),
            Event::Written(arrived) => Event::Written(arrived.clone()),
            Event::Refused(node) => Event::Refused(node.clone()),
            Event::SessionClosed => Event::SessionClosed,
            Event::Closed => Event::Closed,
            Event::Faulted(code) => Event::Faulted(*code),
        }
    }
}

impl EventView {
    /// The Stream that was written, where one was.
    pub open spec fn stream(self) -> Option<ArrivedView> {
        match self {
            EventView::Written(stream) => Some(stream),
            _ => None,
        }
    }
}

impl Event {
    /// The Stream that was written, where one was.
    #[must_use]
    pub fn written(self) -> (arrived: Option<Arrived>)
        ensures
            held(arrived) == self@.stream(),
    {
        match self {
            Event::Written(arrived) => Some(arrived),
            _ => None,
        }
    }
}

/// What a session knows of its connection, and the values it serves.
pub struct Session {
    peer: String,
    /// What the client said it wanted.
    endpoint_url: String,
    /// The largest body the client reads in one chunk.
    chunk: usize,
    channel_id: u32,
    token_id: u32,
    sequence: u32,
    /// The session's authentication token once one is created.
    token: Option<NodeId>,
    activated: bool,
    values: Values,
}

/// What a [`Session`] knows, and the values it serves.
#[verifier::ext_equal]
pub struct SessionView {
    pub peer: Seq<char>,
    pub endpoint_url: Seq<char>,
    pub chunk: usize,
    pub channel_id: u32,
    pub token_id: u32,
    pub sequence: u32,
    pub token: Option<NodeIdView>,
    pub activated: bool,
    pub values: Map<NodeIdView, DataValueView>,
}

impl View for Session {
    type V = SessionView;

    closed spec fn view(&self) -> SessionView {
        SessionView {
            peer: self.peer@,
            endpoint_url: self.endpoint_url@,
            chunk: self.chunk,
            channel_id: self.channel_id,
            token_id: self.token_id,
            sequence: self.sequence,
            token: held(self.token),
            activated: self.activated,
            values: self.values@,
        }
    }
}

/// What serving one call comes to: the session after it, the answer and the
/// event; a status to fault with; or a request that could not be read.
pub enum ServedView {
    Answered(SessionView, Seq<u8>, EventView),
    Faulted(u32),
    Unread,
}

/// A response header answering `handle` at `now`.
pub open spec fn answering(handle: u32, result: u32, now: i64) -> ResponseHeader {
    ResponseHeader { timestamp: now, handle, result }
}

/// A service fault with `code`.
pub open spec fn faulting(code: u32, now: i64) -> Seq<u8> {
    crate::service::fault_bytes(answering(0, code, now))
}

impl SessionView {
    /// The token of the session on this channel.
    pub open spec fn own_token(self) -> NodeIdView {
        NodeIdView::String {
            namespace: 0,
            id: "xmip-session-"@ + decimal(self.channel_id as nat),
        }
    }

    /// The one endpoint offered.
    pub open spec fn offer(self) -> EndpointView {
        EndpointView {
            url: self.endpoint_url,
            security_policy: NONE_POLICY@,
            anonymous_policy: Some(ANONYMOUS_POLICY@),
        }
    }

    /// What comes of the client's first message: the session after it, the
    /// failure where it is not taken, and what is sent back.
    pub open spec fn greets(self, given: RawView) -> (SessionView, Option<Failure>, Seq<u8>) {
        if given.kind != HELLO@ {
            (
                self,
                Some(permanent(text_of(given.kind) + " where Hello was expected"@)),
                raw_bytes(
                    RawView {
                        kind: ERROR@,
                        is_final: FINAL,
                        body: fault_bytes(
                            FaultView { code: BAD_ENDPOINT_URL_INVALID, reason: "not Hello"@ },
                        ),
                    },
                ),
            )
        } else {
            match hello(given.body) {
                Parsed::Failed(failure, _) => (self, Some(failure), Seq::empty()),
                Parsed::Read(hello, _) => (
                    SessionView {
                        endpoint_url: hello.endpoint_url,
                        chunk: (hello.limits.receive_buffer - CHUNK_OVERHEAD) as usize,
                        ..self
                    },
                    None,
                    raw_bytes(
                        RawView {
                            kind: ACKNOWLEDGE@,
                            is_final: FINAL,
                            body: limits_bytes(
                                Limits {
                                    receive_buffer: 65_535,
                                    send_buffer: 65_535,
                                    max_message: 0,
                                    max_chunks: 0,
                                },
                            ),
                        },
                    ),
                ),
            }
        }
    }

    /// The channel that is opened where it is asked for.
    pub open spec fn opened(self, open: OpenChannelView, now: i64) -> ChannelOpened {
        ChannelOpened {
            header: answering(open.header.handle, GOOD, now),
            channel_id: self.channel_id,
            token_id: self.token_id,
            lifetime: open.requested_lifetime,
        }
    }

    /// Serving these values, stamped `now`.
    pub open spec fn serving(self, values: Seq<(NodeId, Vec<u8>)>, now: i64) -> SessionView {
        SessionView { values: stamped(values, now), ..self }
    }

    /// The bytes `node` holds.
    pub open spec fn holding(self, node: NodeIdView) -> Option<Seq<u8>> {
        if self.values.contains_key(node) {
            self.values[node].bytes
        } else {
            None
        }
    }

    /// What a create comes to: a session, not activated yet.
    #[verifier::opaque]
    pub open spec fn creates(self, request: Seq<u8>, now: i64) -> ServedView {
        match create_session(request) {
            Parsed::Failed(_, _) => ServedView::Unread,
            Parsed::Read(create, _) => ServedView::Answered(
                SessionView { token: Some(self.own_token()), activated: false, ..self },
                session_created_bytes(
                    SessionCreatedView {
                        header: answering(create.header.handle, GOOD, now),
                        session_id: NodeIdView::Numeric { namespace: 1, id: self.channel_id },
                        token: self.own_token(),
                        endpoints: seq![self.offer()],
                    },
                ),
                EventView::SessionCreated(create.session_name),
            ),
        }
    }

    /// What an activate comes to: the session activated, where it is this
    /// one and the identity is taken.
    #[verifier::opaque]
    pub open spec fn activates(self, request: Seq<u8>, now: i64) -> ServedView {
        match activate_session(request) {
            Parsed::Failed(_, _) => ServedView::Unread,
            Parsed::Read(activate, _) => if self.token != Some(activate.header.token) {
                ServedView::Faulted(BAD_SESSION_ID_INVALID)
            } else if activate.policy_id != ANONYMOUS_POLICY@ {
                ServedView::Faulted(BAD_IDENTITY_TOKEN_REJECTED)
            } else {
                ServedView::Answered(
                    SessionView { activated: true, ..self },
                    session_activated_bytes(answering(activate.header.handle, GOOD, now)),
                    EventView::SessionActivated(activate.policy_id),
                )
            },
        }
    }

    /// Why a call with `token` in hand is not served: it must be on the
    /// activated session.
    pub open spec fn refusal(self, token: NodeIdView) -> Option<u32> {
        if self.token != Some(token) {
            Some(BAD_SESSION_ID_INVALID)
        } else if !self.activated {
            Some(BAD_SESSION_NOT_ACTIVATED)
        } else {
            None
        }
    }

    /// The value read of `node`.
    pub open spec fn served(self, node: NodeIdView) -> DataValueView {
        if self.values.contains_key(node) {
            self.values[node]
        } else {
            DataValueView { bytes: None, status: BAD_NODE_ID_UNKNOWN, source_timestamp: None }
        }
    }

    /// What a read comes to: the node's value.
    #[verifier::opaque]
    pub open spec fn reads(self, request: Seq<u8>, now: i64) -> ServedView {
        match read_request(request) {
            Parsed::Failed(_, _) => ServedView::Unread,
            Parsed::Read(read, _) => match self.refusal(read.header.token) {
                Some(code) => ServedView::Faulted(code),
                None => ServedView::Answered(
                    self,
                    read_result_bytes(
                        ReadResultView {
                            header: answering(read.header.handle, GOOD, now),
                            value: self.served(read.node),
                        },
                    ),
                    EventView::Read(read.node),
                ),
            },
        }
    }

    /// Where what is written to `node` comes from.
    pub open spec fn origin(self, node: NodeIdView) -> Seq<char> {
        "opc-ua://"@ + self.peer + "#"@ + node_text(node)
    }

    /// What a write of a value that is not bytes comes to: it is refused, and
    /// the node keeps what it held.
    pub open spec fn refuses(
        self,
        header: RequestHeaderView,
        node: NodeIdView,
        now: i64,
    ) -> ServedView {
        ServedView::Answered(
            self,
            write_result_bytes(
                WriteResult {
                    header: answering(header.handle, GOOD, now),
                    status: BAD_TYPE_MISMATCH,
                },
            ),
            EventView::Refused(node),
        )
    }

    /// What a write of `bytes` comes to: the node holds them, stamped `now`
    /// where they have no stamp of their own.
    pub open spec fn holds(
        self,
        header: RequestHeaderView,
        node: NodeIdView,
        bytes: Seq<u8>,
        source_timestamp: Option<i64>,
        now: i64,
    ) -> ServedView {
        let stamp = match source_timestamp {
            Some(stamp) => stamp,
            None => now,
        };
        ServedView::Answered(
            SessionView {
                values: self.values.insert(
                    node,
                    DataValueView {
                        bytes: Some(bytes),
                        status: GOOD,
                        source_timestamp: Some(stamp),
                    },
                ),
                ..self
            },
            write_result_bytes(
                WriteResult { header: answering(header.handle, GOOD, now), status: GOOD },
            ),
            EventView::Written(ArrivedView { origin_uri: self.origin(node), bytes }),
        )
    }

    /// What a write comes to: the node holds the value, unless it is null or
    /// of a type that is not bytes.
    #[verifier::opaque]
    pub open spec fn writes(self, request: Seq<u8>, now: i64) -> ServedView {
        match write_target(request) {
            Parsed::Failed(_, _) => ServedView::Unread,
            Parsed::Read((header, node), rest) => if is_not_bytes(rest) {
                match self.refusal(header.token) {
                    Some(code) => ServedView::Faulted(code),
                    None => self.refuses(header, node, now),
                }
            } else {
                match data_value(rest) {
                    Parsed::Failed(_, _) => ServedView::Unread,
                    Parsed::Read(value, _) => match self.refusal(header.token) {
                        Some(code) => ServedView::Faulted(code),
                        None => match value.bytes {
                            None => self.refuses(header, node, now),
                            Some(bytes) => self.holds(
                                header,
                                node,
                                bytes,
                                value.source_timestamp,
                                now,
                            ),
                        },
                    },
                }
            },
        }
    }

    /// What a close of the session comes to: none is left.
    #[verifier::opaque]
    pub open spec fn closes(self, request: Seq<u8>, now: i64) -> ServedView {
        match request_header(request) {
            Parsed::Failed(_, _) => ServedView::Unread,
            Parsed::Read(header, _) => if self.token != Some(header.token) {
                ServedView::Faulted(BAD_SESSION_ID_INVALID)
            } else {
                ServedView::Answered(
                    SessionView { token: None, activated: false, ..self },
                    session_closed_bytes(answering(header.handle, GOOD, now)),
                    EventView::SessionClosed,
                )
            },
        }
    }

    /// What a call of type `id` comes to.
    pub open spec fn serves(self, id: u32, request: Seq<u8>, now: i64) -> ServedView {
        if id == CREATE_SESSION_REQUEST {
            self.creates(request, now)
        } else if id == ACTIVATE_SESSION_REQUEST {
            self.activates(request, now)
        } else if id == READ_REQUEST {
            self.reads(request, now)
        } else if id == WRITE_REQUEST {
            self.writes(request, now)
        } else if id == CLOSE_SESSION_REQUEST {
            self.closes(request, now)
        } else {
            ServedView::Faulted(BAD_SERVICE_UNSUPPORTED)
        }
    }

    /// The session after a call that is faulted with `code`, which changes
    /// nothing, the fault, and the event.
    pub open spec fn faults(self, code: u32, now: i64) -> (SessionView, Seq<u8>, EventView) {
        (self, faulting(code, now), EventView::Faulted(code))
    }

    /// The session after the call that `body` is, the answer, and the event.
    /// A call that cannot be read is faulted as unsupported.
    pub open spec fn answers(self, body: Seq<u8>, now: i64) -> (SessionView, Seq<u8>, EventView) {
        match body_type(body) {
            Parsed::Failed(_, _) => self.faults(BAD_SERVICE_UNSUPPORTED, now),
            Parsed::Read(id, request) => match self.serves(id, request, now) {
                ServedView::Answered(after, answer, event) => (after, answer, event),
                ServedView::Faulted(code) => self.faults(code, now),
                ServedView::Unread => self.faults(BAD_SERVICE_UNSUPPORTED, now),
            },
        }
    }

    /// What comes of a message on an open channel: the session after it, the
    /// reply where there is one, and the event, or the failure where it is on
    /// another channel.
    pub open spec fn takes(self, request: SecureView, now: i64) -> (
        SessionView,
        Option<Seq<u8>>,
        std::result::Result<EventView, Failure>,
    ) {
        if request.kind == CLOSE@ {
            (self, None, Ok(EventView::Closed))
        } else if request.channel_id != self.channel_id {
            (
                self,
                Some(faulting(BAD_SECURE_CHANNEL_ID_INVALID, now)),
                Err(permanent("a message on another channel"@)),
            )
        } else {
            let (after, answer, event) = self.answers(request.body, now);
            (after, Some(answer), Ok(event))
        }
    }

    /// The next message sent, in reply to `request_id`.
    pub open spec fn message(self, kind: Seq<u8>, request_id: u32, body: Seq<u8>) -> SecureView {
        SecureView {
            kind,
            channel_id: self.channel_id,
            token_id: self.token_id,
            sequence: self.sequence,
            request_id,
            body,
        }
    }

    /// With `body` sent.
    pub open spec fn replied(self, body: Seq<u8>) -> SessionView {
        SessionView {
            sequence: numbered(self.sequence, chunk_count(body.len(), piece_of(self.chunk))),
            ..self
        }
    }
}

/// That a session replied with `body` to `request_id`: its chunks are
/// appended to what is sent, and the numbers behind it are used up. Where its
/// size cannot be said it is an error, and nothing is sent.
pub open spec fn replies(
    before: SessionView,
    after: SessionView,
    kind: Seq<u8>,
    request_id: u32,
    body: Seq<u8>,
    out_before: Seq<u8>,
    out_after: Seq<u8>,
) -> bool {
    let message = before.message(kind, request_id, body);
    if sendable(message, piece_of(before.chunk)) {
        after == before.replied(body) && out_after == out_before + chunks(
            message,
            message.sequence,
            body,
            piece_of(before.chunk),
        )
    } else {
        after == before && out_after == out_before
    }
}

/// That a reply with `body` can be sent.
pub open spec fn can_reply(session: SessionView, kind: Seq<u8>, request_id: u32, body: Seq<u8>) -> bool {
    sendable(session.message(kind, request_id, body), piece_of(session.chunk))
}

/// A message too long for its size.
pub open spec fn too_long() -> Failure {
    permanent("a message longer than its size can say"@)
}

/// A session with the client at `peer`, which has said nothing yet.
pub open spec fn new_session(peer: Seq<char>, channel_id: u32) -> SessionView {
    SessionView {
        peer,
        endpoint_url: ""@,
        chunk: (65_535 - CHUNK_OVERHEAD) as usize,
        channel_id,
        token_id: 1,
        sequence: 1,
        token: None,
        activated: false,
        values: Map::empty(),
    }
}

/// That an event, or a failure, is what `expected` says.
pub open spec fn tells(
    result: Result<Event>,
    expected: std::result::Result<EventView, Failure>,
) -> bool {
    match (result, expected) {
        (Ok(event), Ok(told)) => event@ == told,
        (Err(error), Err(failure)) => error@ == failure,
        _ => false,
    }
}

/// What each of some nodes holds, stamped `now`; the last of one node twice.
pub open spec fn stamped(values: Seq<(NodeId, Vec<u8>)>, now: i64) -> Map<NodeIdView, DataValueView>
    decreases values.len(),
{
    if values.len() == 0 {
        Map::empty()
    } else {
        stamped(values.drop_last(), now).insert(
            values.last().0@,
            DataValueView {
                bytes: Some(values.last().1@),
                status: GOOD,
                source_timestamp: Some(now),
            },
        )
    }
}

/// What serving one call comes to: the answer and the event, a status
/// to fault with, or a request that could not be read.
type Served = Result<std::result::Result<(Vec<u8>, Event), u32>>;

/// That what serving a call came to, with the session left after it, is what
/// `expected` says.
spec fn agrees_served(
    result: Served,
    before: SessionView,
    after: SessionView,
    expected: ServedView,
) -> bool {
    match (result, expected) {
        (Ok(Ok(answered)), ServedView::Answered(session, body, event)) => answered.0@ == body
            && answered.1@ == event && after == session,
        (Ok(Err(code)), ServedView::Faulted(expected_code)) => code == expected_code && after
            == before,
        (Err(_), ServedView::Unread) => after == before,
        _ => false,
    }
}

fn header(handle: u32, result: u32, now: i64) -> (header: ResponseHeader)
    ensures
        header == answering(handle, result, now),
{
    ResponseHeader { timestamp: now, handle, result }
}

/// A service fault with `code`.
fn fault(code: u32, now: i64) -> (out: Vec<u8>)
    ensures
        out@ == faulting(code, now),
{
    crate::service::fault(&header(0, code, now))
}

impl Session {
    /// A session with the client at `peer`, which has said nothing yet.
    #[must_use]
    pub fn new(peer: &str, channel_id: u32) -> (session: Self)
        ensures
            session@ == new_session(peer@, channel_id),
    {
        Session {
            peer: peer.to_string(),
            endpoint_url: "".to_string(),
            chunk: Limits::default().chunk_body(),
            channel_id,
            token_id: 1,
            sequence: 1,
            token: None,
            activated: false,
            values: Values::new(),
        }
    }

    /// Take the client's Hello, and acknowledge it; anything else is
    /// answered with an error.
    ///
    /// # Errors
    /// Where the client did not say Hello, or its buffers are under the
    /// minimum.
    pub fn hello(&mut self, message: &Raw, out: &mut Vec<u8>) -> (result: Result<()>)
        ensures
            ({
                let (after, failure, sent) = old(self)@.greets(raw_view(*message));
                final(self)@ == after && final(out)@ == old(out)@ + sent && match failure {
                    Some(failure) => result matches Err(error) && error@ == failure,
                    None => result is Ok,
                }
            }),
    {
        broadcast use lemma_le_bytes_len;

        let kind = message.0.as_slice();
        if !same_bytes(kind, HELLO.as_slice()) {
            proof {
                reveal_strlit("not Hello");
                lemma_encoded_len("not Hello"@);
            }
            let fault = Fault {
                code: BAD_ENDPOINT_URL_INVALID,
                reason: "not Hello".to_string(),
            };
            write_raw(out, ERROR, FINAL, fault.to_bytes().as_slice())?;
            let mut text = lossy(kind);
            text.append(" where Hello was expected");
            return Err(TransportError::permanent(text));
        }
        assert(out@ + Seq::<u8>::empty() =~= out@);
        let hello = Hello::from_bytes(message.2.as_slice())?;
        self.chunk = hello.limits.chunk_body();
        self.endpoint_url = hello.endpoint_url;
        let acknowledge = Acknowledge { limits: Limits::default() };
        write_raw(out, ACKNOWLEDGE, FINAL, acknowledge.to_bytes().as_slice())
    }

    /// Open the client's one channel.
    ///
    /// # Errors
    /// Where the message is not an open, or cannot be read as one.
    pub fn open_channel(&mut self, request: &Secure, now: i64, out: &mut Vec<u8>) -> (result:
        Result<()>)
        ensures
            match channel_opening(request@) {
                Parsed::Failed(failure, _) => result matches Err(error) && error@ == failure
                    && final(self)@ == old(self)@ && final(out)@ == old(out)@,
                Parsed::Read(open, _) => {
                    let body = channel_opened_bytes(old(self)@.opened(open, now));
                    replies(
                        old(self)@,
                        final(self)@,
                        OPEN@,
                        request.request_id,
                        body,
                        old(out)@,
                        final(out)@,
                    ) && if can_reply(old(self)@, OPEN@, request.request_id, body) {
                        result is Ok
                    } else {
                        result matches Err(error) && error@ == too_long()
                    }
                },
            },
    {
        if !same_bytes(request.kind.as_slice(), OPEN.as_slice()) {
            return Err(protocol_error("a message before the channel was opened"));
        }
        let (id, mut reader) = type_of(request.body.as_slice())?;
        if id != OPEN_CHANNEL_REQUEST {
            return Err(protocol_error("an open that is not an OpenSecureChannel"));
        }
        let open = OpenChannel::take(&mut reader)?;
        let opened = ChannelOpened {
            header: header(open.header.handle, GOOD, now),
            channel_id: self.channel_id,
            token_id: self.token_id,
            lifetime: open.requested_lifetime,
        };
        self.reply(OPEN, request.request_id, opened.to_bytes(), out)
    }

    /// Serve these values to reads, stamped `now`.
    #[must_use]
    pub fn with_values(self, values: Vec<(NodeId, Vec<u8>)>, now: i64) -> (session: Self)
        ensures
            session@ == self@.serving(values@, now),
    {
        let mut session = self;
        let ghost before = session@;
        let mut served = Values::new();
        let mut at: usize = 0;
        while at < values.len()
            invariant
                at <= values@.len(),
                served@ == stamped(values@.take(at as int), now),
            decreases values@.len() - at,
        {
            let (node, bytes) = &values[at];
            assert(values@.take(at + 1).drop_last() =~= values@.take(at as int));
            served.insert(node.clone(), DataValue::bytes_at(bytes.as_slice(), now));
            at += 1;
        }
        assert(values@.take(at as int) =~= values@);
        session.values = served;
        session
    }

    /// What `node` holds now.
    #[must_use]
    pub fn value(&self, node: &NodeId) -> (bytes: Option<&[u8]>)
        ensures
            match bytes {
                Some(bytes) => self@.holding(node@) == Some(bytes@),
                None => self@.holding(node@) is None,
            },
    {
        match self.values.get(node) {
            Some(value) => match &value.bytes {
                Some(bytes) => Some(bytes.as_slice()),
                None => None,
            },
            None => None,
        }
    }

    /// The endpoint the client said Hello to.
    #[must_use]
    pub fn endpoint_url(&self) -> (url: &str)
        ensures
            url@ == self@.endpoint_url,
    {
        self.endpoint_url.as_str()
    }

    /// What the client did with this message, answered.
    ///
    /// # Errors
    /// Where the message is on another channel, or its answer too long.
    pub fn next_event(&mut self, request: &Secure, now: i64, out: &mut Vec<u8>) -> (result:
        Result<Event>)
        ensures
            (result matches Ok(event) && event@ is Closed) <==> request@.kind == CLOSE@,
            ({
                let (after, reply, told) = old(self)@.takes(request@, now);
                match reply {
                    None => final(self)@ == after && final(out)@ == old(out)@ && tells(
                        result,
                        told,
                    ),
                    Some(body) => replies(
                        after,
                        final(self)@,
                        MESSAGE@,
                        request.request_id,
                        body,
                        old(out)@,
                        final(out)@,
                    ) && if can_reply(after, MESSAGE@, request.request_id, body) {
                        tells(result, told)
                    } else {
                        result matches Err(error) && error@ == too_long()
                    },
                }
            }),
    {
        if same_bytes(request.kind.as_slice(), CLOSE.as_slice()) {
            return Ok(Event::Closed);
        }
        if request.channel_id != self.channel_id {
            self.reply(
                MESSAGE,
                request.request_id,
                fault(BAD_SECURE_CHANNEL_ID_INVALID, now),
                out,
            )?;
            return Err(protocol_error("a message on another channel"));
        }
        proof {
            law_call_does_not_close_the_channel(self@, request.body@, now);
        }
        let (answer, event) = self.answer(request.body.as_slice(), now);
        self.reply(MESSAGE, request.request_id, answer, out)?;
        Ok(event)
    }

    /// The answer to one service call, and what it was.
    fn answer(&mut self, body: &[u8], now: i64) -> (answered: (Vec<u8>, Event))
        ensures
            ({
                let (after, answer, event) = old(self)@.answers(body@, now);
                final(self)@ == after && answered.0@ == answer && answered.1@ == event
            }),
    {
        let (id, mut reader) = match type_of(body) {
            Ok(opened) => opened,
            Err(_) => {
                return (
                    fault(BAD_SERVICE_UNSUPPORTED, now),
                    Event::Faulted(BAD_SERVICE_UNSUPPORTED),
                );
            },
        };
        let served = match id {
            CREATE_SESSION_REQUEST => self.create_session(&mut reader, now),
            ACTIVATE_SESSION_REQUEST => self.activate_session(&mut reader, now),
            READ_REQUEST => self.read(&mut reader, now),
            WRITE_REQUEST => self.write(&mut reader, now),
            CLOSE_SESSION_REQUEST => self.close_session(&mut reader, now),
            _ => Ok(Err(BAD_SERVICE_UNSUPPORTED)),
        };
        match served {
            Ok(Ok(answered)) => answered,
            Ok(Err(code)) => (fault(code, now), Event::Faulted(code)),
            Err(_) => (
                fault(BAD_SERVICE_UNSUPPORTED, now),
                Event::Faulted(BAD_SERVICE_UNSUPPORTED),
            ),
        }
    }

    fn create_session(&mut self, reader: &mut Cursor<'_>, now: i64) -> (result: Served)
        ensures
            agrees_served(
                result,
                old(self)@,
                final(self)@,
                old(self)@.creates(old(reader)@, now),
            ),
    {
        reveal(SessionView::creates);
        let create = CreateSession::take(reader)?;
        let mut name = "xmip-session-".to_string();
        name.append(decimal_text(self.channel_id as u64).as_str());
        let token = NodeId::string(0, name.as_str());
        self.token = Some(token.clone());
        self.activated = false;
        let mut endpoints: Vec<Endpoint> = Vec::new();
        endpoints.push(
            Endpoint {
                url: self.endpoint_url.clone(),
                security_policy: NONE_POLICY.to_string(),
                anonymous_policy: Some(ANONYMOUS_POLICY.to_string()),
            },
        );
        let created = SessionCreated {
            header: header(create.header.handle, GOOD, now),
            session_id: NodeId::numeric(1, self.channel_id),
            token,
            endpoints,
        };
        assert(created@.endpoints =~= seq![old(self)@.offer()]);
        Ok(Ok((created.to_bytes(), Event::SessionCreated(create.session_name))))
    }

    fn activate_session(&mut self, reader: &mut Cursor<'_>, now: i64) -> (result: Served)
        ensures
            agrees_served(
                result,
                old(self)@,
                final(self)@,
                old(self)@.activates(old(reader)@, now),
            ),
    {
        reveal(SessionView::activates);
        let activate = ActivateSession::take(reader)?;
        if !self.is_own(&activate.header) {
            return Ok(Err(BAD_SESSION_ID_INVALID));
        }
        if !same_text(activate.policy_id.as_str(), ANONYMOUS_POLICY) {
            return Ok(Err(BAD_IDENTITY_TOKEN_REJECTED));
        }
        self.activated = true;
        let header = header(activate.header.handle, GOOD, now);
        Ok(Ok((session_activated(&header), Event::SessionActivated(activate.policy_id))))
    }

    fn read(&mut self, reader: &mut Cursor<'_>, now: i64) -> (result: Served)
        ensures
            agrees_served(result, old(self)@, final(self)@, old(self)@.reads(old(reader)@, now)),
    {
        reveal(SessionView::reads);
        let read = Read::take(reader)?;
        if let Err(code) = self.check(&read.header) {
            return Ok(Err(code));
        }
        let value = match self.values.get(&read.node) {
            Some(value) => value.clone(),
            None => DataValue {
                bytes: None,
                status: BAD_NODE_ID_UNKNOWN,
                source_timestamp: None,
            },
        };
        let result = ReadResult { header: header(read.header.handle, GOOD, now), value };
        Ok(Ok((result.to_bytes(), Event::Read(read.node))))
    }

    #[verifier::spinoff_prover]
    #[verifier::rlimit(40)]
    fn write(&mut self, reader: &mut Cursor<'_>, now: i64) -> (result: Served)
        ensures
            agrees_served(result, old(self)@, final(self)@, old(self)@.writes(old(reader)@, now)),
    {
        reveal(SessionView::writes);
        let (request, node) = Write::take_target(reader)?;
        let header = header(request.handle, GOOD, now);
        if DataValue::is_not_bytes(reader) {
            if let Err(code) = self.check(&request) {
                return Ok(Err(code));
            }
            let result = WriteResult { header, status: BAD_TYPE_MISMATCH };
            return Ok(Ok((result.to_bytes(), Event::Refused(node))));
        }
        let value = DataValue::take(reader)?;
        if let Err(code) = self.check(&request) {
            return Ok(Err(code));
        }
        let bytes = match value.bytes {
            Some(bytes) => bytes,
            None => {
                let result = WriteResult { header, status: BAD_TYPE_MISMATCH };
                return Ok(Ok((result.to_bytes(), Event::Refused(node))));
            },
        };
        let mut origin_uri = "opc-ua://".to_string();
        origin_uri.append(self.peer.as_str());
        origin_uri.append("#");
        origin_uri.append(node.to_string().as_str());
        let stamp: i64 = match value.source_timestamp {
            Some(stamp) => stamp,
            None => now,
        };
        self.values.insert(node, DataValue::bytes_at(bytes.as_slice(), stamp));
        let result = WriteResult { header, status: GOOD };
        Ok(Ok((result.to_bytes(), Event::Written(Arrived { origin_uri, bytes }))))
    }

    fn close_session(&mut self, reader: &mut Cursor<'_>, now: i64) -> (result: Served)
        ensures
            agrees_served(result, old(self)@, final(self)@, old(self)@.closes(old(reader)@, now)),
    {
        reveal(SessionView::closes);
        let request = RequestHeader::take(reader)?;
        if !self.is_own(&request) {
            return Ok(Err(BAD_SESSION_ID_INVALID));
        }
        self.token = None;
        self.activated = false;
        Ok(Ok((session_closed(&header(request.handle, GOOD, now)), Event::SessionClosed)))
    }

    /// That the call has the session's token.
    fn is_own(&self, header: &RequestHeader) -> (own: bool)
        ensures
            own == (self@.token == Some(header@.token)),
    {
        match &self.token {
            Some(token) => token.same(&header.token),
            None => false,
        }
    }

    /// That the call is on the activated session.
    fn check(&self, header: &RequestHeader) -> (result: std::result::Result<(), u32>)
        ensures
            match self@.refusal(header@.token) {
                Some(code) => result == Err::<(), u32>(code),
                None => result is Ok,
            },
    {
        if !self.is_own(header) {
            return Err(BAD_SESSION_ID_INVALID);
        }
        if !self.activated {
            return Err(BAD_SESSION_NOT_ACTIVATED);
        }
        Ok(())
    }

    fn reply(&mut self, kind: [u8; 3], request_id: u32, body: Vec<u8>, out: &mut Vec<u8>) -> (result:
        Result<()>)
        ensures
            replies(
                old(self)@,
                final(self)@,
                kind@,
                request_id,
                body@,
                old(out)@,
                final(out)@,
            ),
            if can_reply(old(self)@, kind@, request_id, body@) {
                result is Ok
            } else {
                result matches Err(error) && error@ == too_long()
            },
    {
        let message = Secure {
            kind,
            channel_id: self.channel_id,
            token_id: self.token_id,
            sequence: self.sequence,
            request_id,
            body,
        };
        self.sequence = write_secure(out, &message, self.chunk)?;
        Ok(())
    }
}

/// The open that a message is: it must be an `OPN`, and carry one.
pub open spec fn channel_opening(request: SecureView) -> Parsed<OpenChannelView> {
    if request.kind != OPEN@ {
        Parsed::Failed(permanent("a message before the channel was opened"@), request.body)
    } else {
        body_type(request.body).and(
            |id: u32, rest: Seq<u8>|
                if id != OPEN_CHANNEL_REQUEST {
                    Parsed::Failed(
                        permanent("an open that is not an OpenSecureChannel"@),
                        rest,
                    )
                } else {
                    open_channel(rest)
                },
        )
    }
}

impl SessionView {
    /// That a session that is activated is there.
    pub open spec fn sound(self) -> bool {
        self.activated ==> self.token is Some
    }
}

/// No call leaves a session activated that is not there.
pub proof fn law_session_stays_sound(session: SessionView, body: Seq<u8>, now: i64)
    requires
        session.sound(),
    ensures
        session.answers(body, now).0.sound(),
{
    if let Parsed::Read(id, request) = body_type(body) {
        if id == CREATE_SESSION_REQUEST {
            reveal(SessionView::creates);
        } else if id == ACTIVATE_SESSION_REQUEST {
            reveal(SessionView::activates);
        } else if id == READ_REQUEST {
            reveal(SessionView::reads);
        } else if id == WRITE_REQUEST {
            reveal(SessionView::writes);
        } else if id == CLOSE_SESSION_REQUEST {
            reveal(SessionView::closes);
        }
    }
}

/// No call changes whom the session is with, what it is on, or how it is
/// numbered.
pub proof fn law_call_leaves_the_channel(session: SessionView, body: Seq<u8>, now: i64)
    ensures
        ({
            let after = session.answers(body, now).0;
            after == SessionView {
                token: after.token,
                activated: after.activated,
                values: after.values,
                ..session
            }
        }),
{
    if let Parsed::Read(id, request) = body_type(body) {
        if id == CREATE_SESSION_REQUEST {
            reveal(SessionView::creates);
        } else if id == ACTIVATE_SESSION_REQUEST {
            reveal(SessionView::activates);
        } else if id == READ_REQUEST {
            reveal(SessionView::reads);
        } else if id == WRITE_REQUEST {
            reveal(SessionView::writes);
        } else if id == CLOSE_SESSION_REQUEST {
            reveal(SessionView::closes);
        }
    }
}

/// The node that the write which `body` is would write.
pub open spec fn target_of(body: Seq<u8>) -> Option<NodeIdView> {
    match body_type(body) {
        Parsed::Read(_, request) => match write_target(request) {
            Parsed::Read(target, _) => Some(target.1),
            Parsed::Failed(_, _) => None,
        },
        Parsed::Failed(_, _) => None,
    }
}

/// What the client did tells what a call changed: a session created is there
/// and not activated, one activated took an anonymous identity, one closed is
/// gone, and a node written holds another value. All else stays as it was.
pub proof fn law_event_tells_what_changed(session: SessionView, body: Seq<u8>, now: i64)
    ensures
        ({
            let (after, answer, event) = session.answers(body, now);
            &&& event matches EventView::SessionActivated(policy) ==> policy == ANONYMOUS_POLICY@
            &&& after.token == match event {
                EventView::SessionCreated(_) => Some(session.own_token()),
                EventView::SessionClosed => None,
                _ => session.token,
            }
            &&& after.activated == match event {
                EventView::SessionCreated(_) => false,
                EventView::SessionActivated(_) => true,
                EventView::SessionClosed => false,
                _ => session.activated,
            }
            &&& event !is Written ==> after.values == session.values
            &&& event is Written ==> (target_of(body) matches Some(node) && after.values
                == session.values.insert(node, after.values[node]))
        }),
{
    if let Parsed::Read(id, request) = body_type(body) {
        if id == CREATE_SESSION_REQUEST {
            reveal(SessionView::creates);
        } else if id == ACTIVATE_SESSION_REQUEST {
            reveal(SessionView::activates);
        } else if id == READ_REQUEST {
            reveal(SessionView::reads);
        } else if id == WRITE_REQUEST {
            reveal(SessionView::writes);
        } else if id == CLOSE_SESSION_REQUEST {
            reveal(SessionView::closes);
        }
    }
}

/// A read on the activated session is answered with what its node holds, any
/// other is faulted, and neither changes anything. Left out are names too
/// long for their length field.
pub proof fn law_read_is_answered(session: SessionView, read: ReadView, now: i64)
    requires
        read.fits(),
    ensures
        session.answers(read_bytes(read), now) == match session.refusal(read.header.token) {
            Some(code) => session.faults(code, now),
            None => (
                session,
                read_result_bytes(
                    ReadResultView {
                        header: answering(read.header.handle, GOOD, now),
                        value: session.served(read.node),
                    },
                ),
                EventView::Read(read.node),
            ),
        },
{
    law_read_reads_back(read);
    reveal(SessionView::reads);
}

/// A write on the activated session leaves its node holding its value, or is
/// refused where that is null; any other is faulted, and changes nothing.
/// Left out are names and values too long for their length field.
pub proof fn law_write_is_answered(session: SessionView, write: WriteView, now: i64)
    requires
        write.fits(),
    ensures
        session.answers(write_bytes(write), now) == match session.refusal(write.header.token) {
            Some(code) => session.faults(code, now),
            None => {
                let served = match write.value.bytes {
                    None => session.refuses(write.header, write.node, now),
                    Some(bytes) => session.holds(
                        write.header,
                        write.node,
                        bytes,
                        write.value.source_timestamp,
                        now,
                    ),
                };
                (served->Answered_0, served->Answered_1, served->Answered_2)
            },
        },
{
    law_write_reads_back(write);
    reveal(SessionView::writes);
}

/// A value that is written on the activated session is handed up as a
/// Stream, and served back to the next read of its node, with the stamp it
/// was written with, or that of the write where it had none. Left out are
/// names and values too long for their length field.
pub proof fn law_written_value_is_served_back(
    session: SessionView,
    write: WriteView,
    read: ReadView,
    now: i64,
    later: i64,
)
    requires
        write.fits(),
        read.fits(),
        session.refusal(write.header.token) is None,
        read.header.token == write.header.token,
        read.node == write.node,
        write.value.bytes is Some,
    ensures
        ({
            let (after, answer, event) = session.answers(write_bytes(write), now);
            let (same, served, reading) = after.answers(read_bytes(read), later);
            let bytes = write.value.bytes->0;
            let stamp = match write.value.source_timestamp {
                Some(stamp) => stamp,
                None => now,
            };
            &&& answer == write_result_bytes(
                WriteResult { header: answering(write.header.handle, GOOD, now), status: GOOD },
            )
            &&& event == EventView::Written(
                ArrivedView { origin_uri: session.origin(write.node), bytes },
            )
            &&& same == after
            &&& served == read_result_bytes(
                ReadResultView {
                    header: answering(read.header.handle, GOOD, later),
                    value: DataValueView {
                        bytes: Some(bytes),
                        status: GOOD,
                        source_timestamp: Some(stamp),
                    },
                },
            )
            &&& reading == EventView::Read(read.node)
        }),
{
    law_write_is_answered(session, write, now);
    law_read_is_answered(session.answers(write_bytes(write), now).0, read, later);
}

/// A write changes what its node holds, and nothing else.
pub proof fn law_write_leaves_other_nodes(
    session: SessionView,
    write: WriteView,
    other: NodeIdView,
    now: i64,
)
    requires
        write.fits(),
        other != write.node,
    ensures
        session.answers(write_bytes(write), now).0.served(other) == session.served(other),
{
    law_write_is_answered(session, write, now);
}

/// A read or a write before there is a session, with another token, or
/// before the session is activated is answered with a fault that says so,
/// and changes nothing.
pub proof fn law_call_off_the_session_is_refused(
    session: SessionView,
    read: ReadView,
    write: WriteView,
    now: i64,
)
    requires
        read.fits(),
        write.fits(),
    ensures
        session.refusal(read.header.token) matches Some(code) ==> session.answers(
            read_bytes(read),
            now,
        ) == session.faults(code, now),
        session.refusal(write.header.token) matches Some(code) ==> session.answers(
            write_bytes(write),
            now,
        ) == session.faults(code, now),
{
    law_read_is_answered(session, read, now);
    law_write_is_answered(session, write, now);
}

/// A value that is not bytes, of whatever type it is or null, is refused on
/// the activated session, the client is told so, and every node keeps what
/// it held. Left out are names too long for their length field.
pub proof fn law_value_that_is_not_bytes_is_refused(
    session: SessionView,
    header: RequestHeaderView,
    node: NodeIdView,
    value: Seq<u8>,
    now: i64,
)
    requires
        header.token.fits(),
        node.fits(),
        session.refusal(header.token) is None,
        is_not_bytes(value) || (data_value(value) matches Parsed::Read(null, _)
            && null.bytes is None),
    ensures
        session.answers(
            body_bytes(WRITE_REQUEST) + (write_target_bytes(header, node) + value),
            now,
        ) == (
            session,
            write_result_bytes(
                WriteResult {
                    header: answering(header.handle, GOOD, now),
                    status: BAD_TYPE_MISMATCH,
                },
            ),
            EventView::Refused(node),
        ),
{
    reveal(SessionView::writes);
    law_body_says_its_type(WRITE_REQUEST, write_target_bytes(header, node) + value);
    law_write_target_reads_back(header, node, value);
}

/// Every service but the five served is answered as unsupported, and changes
/// nothing.
pub proof fn law_other_services_are_unsupported(
    session: SessionView,
    id: u32,
    request: Seq<u8>,
    now: i64,
)
    requires
        id != CREATE_SESSION_REQUEST,
        id != ACTIVATE_SESSION_REQUEST,
        id != READ_REQUEST,
        id != WRITE_REQUEST,
        id != CLOSE_SESSION_REQUEST,
    ensures
        session.answers(body_bytes(id) + request, now) == session.faults(
            BAD_SERVICE_UNSUPPORTED,
            now,
        ),
{
    law_body_says_its_type(id, request);
}

/// A session that was closed is gone: a call with its token is refused from
/// then on.
pub proof fn law_closed_session_is_gone(session: SessionView, header: RequestHeaderView, now: i64)
    requires
        header.token.fits(),
        session.token == Some(header.token),
    ensures
        ({
            let (after, answer, event) = session.answers(close_session_bytes(header), now);
            &&& answer == session_closed_bytes(answering(header.handle, GOOD, now))
            &&& event == EventView::SessionClosed
            &&& after.values == session.values
            &&& forall|token: NodeIdView| #[trigger]
                after.refusal(token) == Some(BAD_SESSION_ID_INVALID)
        }),
{
    reveal(SessionView::closes);
    law_close_session_reads_back(header);
}

/// A call is answered with a service fault exactly where the event is that it
/// was faulted, and then the session, its activation and what every node
/// holds are as they were before.
#[verifier::spinoff_prover]
#[verifier::rlimit(40)]
pub proof fn law_faulted_call_changes_nothing(session: SessionView, body: Seq<u8>, now: i64)
    ensures
        ({
            let (after, answer, event) = session.answers(body, now);
            &&& body_type(answer).gives(SERVICE_FAULT) <==> event is Faulted
            &&& event matches EventView::Faulted(code) ==> answer == faulting(code, now)
            &&& event is Faulted ==> after == session
        }),
{
    broadcast use law_body_says_its_type;

    if let Parsed::Read(id, request) = body_type(body) {
        if id == CREATE_SESSION_REQUEST {
            reveal(SessionView::creates);
        } else if id == ACTIVATE_SESSION_REQUEST {
            reveal(SessionView::activates);
        } else if id == READ_REQUEST {
            reveal(SessionView::reads);
        } else if id == WRITE_REQUEST {
            reveal(SessionView::writes);
        } else if id == CLOSE_SESSION_REQUEST {
            reveal(SessionView::closes);
        }
    }
}

/// No call is taken for the close of the channel.
pub proof fn law_call_does_not_close_the_channel(session: SessionView, body: Seq<u8>, now: i64)
    ensures
        session.answers(body, now).2 !is Closed,
{
    if let Parsed::Read(id, request) = body_type(body) {
        if id == CREATE_SESSION_REQUEST {
            reveal(SessionView::creates);
        } else if id == ACTIVATE_SESSION_REQUEST {
            reveal(SessionView::activates);
        } else if id == READ_REQUEST {
            reveal(SessionView::reads);
        } else if id == WRITE_REQUEST {
            reveal(SessionView::writes);
        } else if id == CLOSE_SESSION_REQUEST {
            reveal(SessionView::closes);
        }
    }
}

/// A read changes nothing, served or not.
pub proof fn law_read_changes_nothing(session: SessionView, body: Seq<u8>, now: i64)
    requires
        body_type(body).gives(READ_REQUEST),
    ensures
        session.answers(body, now).0 == session,
{
    reveal(SessionView::reads);
}

/// A node that was written is read the same as often as it is read, and a
/// node that never held a value is read as unknown; no read changes what any
/// node holds. Left out are names and values too long for their length
/// field.
pub proof fn law_node_is_read_the_same_until_written(
    session: SessionView,
    write: WriteView,
    first: ReadView,
    again: ReadView,
    unknown: ReadView,
    now: i64,
    later: i64,
)
    requires
        write.fits(),
        first.fits(),
        again.fits(),
        unknown.fits(),
        session.refusal(write.header.token) is None,
        write.value.bytes is Some,
        first.header.token == write.header.token,
        again.header.token == write.header.token,
        unknown.header.token == write.header.token,
        first.node == write.node,
        again.node == write.node,
        unknown.node != write.node,
        !session.values.contains_key(unknown.node),
    ensures
        ({
            let written = session.answers(write_bytes(write), now).0;
            let once = written.answers(read_bytes(first), later);
            let twice = once.0.answers(read_bytes(again), later);
            let other = twice.0.answers(read_bytes(unknown), later);
            let value = DataValueView {
                bytes: write.value.bytes,
                status: GOOD,
                source_timestamp: Some(
                    match write.value.source_timestamp {
                        Some(stamp) => stamp,
                        None => now,
                    },
                ),
            };
            &&& once == (
                written,
                read_result_bytes(
                    ReadResultView { header: answering(first.header.handle, GOOD, later), value },
                ),
                EventView::Read(write.node),
            )
            &&& twice == (
                written,
                read_result_bytes(
                    ReadResultView { header: answering(again.header.handle, GOOD, later), value },
                ),
                EventView::Read(write.node),
            )
            &&& other == (
                written,
                read_result_bytes(
                    ReadResultView {
                        header: answering(unknown.header.handle, GOOD, later),
                        value: DataValueView {
                            bytes: None,
                            status: BAD_NODE_ID_UNKNOWN,
                            source_timestamp: None,
                        },
                    },
                ),
                EventView::Read(unknown.node),
            )
        }),
{
    law_write_is_answered(session, write, now);
    let written = session.answers(write_bytes(write), now).0;
    law_read_is_answered(written, first, later);
    law_read_is_answered(written, again, later);
    law_read_is_answered(written, unknown, later);
}

/// Every node that is given is served the bytes that were given for it last,
/// good and stamped with the time they were given.
pub proof fn law_every_node_given_is_served(values: Seq<(NodeId, Vec<u8>)>, now: i64, at: int)
    requires
        0 <= at < values.len(),
        forall|later: int|
            at < later < values.len() ==> (#[trigger] values[later]).0@ != values[at].0@,
    ensures
        stamped(values, now).contains_key(values[at].0@),
        stamped(values, now)[values[at].0@] == (DataValueView {
            bytes: Some(values[at].1@),
            status: 0,
            source_timestamp: Some(now),
        }),
    decreases values.len(),
{
    let before = values.drop_last();
    if at < values.len() - 1 {
        assert(before[at] == values[at]);
        assert forall|later: int| at < later < before.len() implies (
        #[trigger] before[later]).0@ != before[at].0@ by {
            assert(before[later] == values[later]);
        }
        law_every_node_given_is_served(before, now, at);
        assert(values.last().0@ != values[at].0@);
    }
}

/// No node is served that was not given.
pub proof fn law_no_other_node_is_served(
    values: Seq<(NodeId, Vec<u8>)>,
    now: i64,
    other: NodeIdView,
)
    requires
        forall|at: int| 0 <= at < values.len() ==> (#[trigger] values[at]).0@ != other,
    ensures
        !stamped(values, now).contains_key(other),
    decreases values.len(),
{
    if values.len() > 0 {
        let before = values.drop_last();
        assert forall|at: int| 0 <= at < before.len() implies (#[trigger] before[at]).0@
            != other by {
            assert(before[at] == values[at]);
        }
        law_no_other_node_is_served(before, now, other);
        assert(values.last().0@ != other);
    }
}

/// A session that is given values serves those in place of all it held, each
/// node the bytes that were given for it last, and nothing else of it changes.
pub proof fn law_values_given_are_held(
    session: SessionView,
    values: Seq<(NodeId, Vec<u8>)>,
    now: i64,
    node: NodeIdView,
)
    ensures
        session.serving(values, now) == (SessionView {
            values: session.serving(values, now).values,
            ..session
        }),
        session.serving(values, now).holding(node) matches Some(bytes) ==> exists|at: int|
            0 <= at < values.len() && (#[trigger] values[at]).0@ == node && values[at].1@ == bytes
                && forall|later: int|
                at < later < values.len() ==> (#[trigger] values[later]).0@ != node,
        session.serving(values, now).holding(node) is None <==> forall|at: int|
            0 <= at < values.len() ==> (#[trigger] values[at]).0@ != node,
{
    if exists|at: int| 0 <= at < values.len() && (#[trigger] values[at]).0@ == node {
        let at = lemma_last_given(values, node);
        law_every_node_given_is_served(values, now, at);
    } else {
        law_no_other_node_is_served(values, now, node);
    }
}

proof fn lemma_last_given(values: Seq<(NodeId, Vec<u8>)>, node: NodeIdView) -> (last: int)
    requires
        exists|at: int| 0 <= at < values.len() && (#[trigger] values[at]).0@ == node,
    ensures
        0 <= last < values.len(),
        values[last].0@ == node,
        forall|later: int| last < later < values.len() ==> (#[trigger] values[later]).0@ != node,
    decreases values.len(),
{
    if values.last().0@ == node {
        values.len() - 1
    } else {
        let before = values.drop_last();
        let at = choose|at: int| 0 <= at < values.len() && (#[trigger] values[at]).0@ == node;
        assert(before[at].0@ == node);
        let last = lemma_last_given(before, node);
        assert forall|later: int| last < later < values.len() implies (
        #[trigger] values[later]).0@ != node by {
            if later < before.len() {
                assert(before[later] == values[later]);
            }
        }
        last
    }
}

} // verus!
