//! What a session does with each message, to the byte and the status code:
//! what it takes a message for, what it answers, and what it is after it.

use vstd::prelude::*;

use crate::attribute::{
    read_request, read_result_bytes, write_result_bytes, write_target, ReadResultView, ReadView,
    WriteResult,
};
use crate::channel::{
    chunk_count, chunks, fault_bytes, hello, numbered, piece_of, raw_bytes, sendable, FaultView,
    HelloView, Limits, RawView, SecureView, ACKNOWLEDGE, CLOSE, ERROR, HELLO, OPEN,
};
use crate::codec::Parsed;
use crate::endpoint::{
    activate_session, create_session, session_activated_bytes, session_closed_bytes,
    session_created_bytes, ActivateSessionView, CreateSessionView, EndpointView, SessionCreatedView,
};
use crate::error::Failure;
use crate::node::{node_text, NodeIdView};
use crate::service::{
    body_type, open_channel, request_header, ChannelOpened, OpenChannelView, RequestHeaderView,
    ResponseHeader,
};
use crate::session::{
    can_reply, channel_opening, new_session, replies, too_long, EventView, SessionView,
};
use crate::text::{decimal, text_of};
use crate::transport::ArrivedView;
use crate::wire::{data_value, is_not_bytes, DataValueView};

verus! {

/// A call that is faulted with `code` leaves the session as it was, and is
/// answered with that code at that time, to no handle.
pub open spec fn faulted(session: SessionView, code: u32, now: i64) -> (
    SessionView,
    Seq<u8>,
    EventView,
) {
    (
        session,
        crate::service::fault_bytes(
            ResponseHeader { timestamp: now, handle: 0, result: code },
        ),
        EventView::Faulted(code),
    )
}

/// A session begins with its peer and its channel, nothing said, no session
/// created, no value, its first numbers, and the most bytes in a chunk that a
/// buffer of sixty-four kibibytes, less one, has room for.
pub proof fn law_session_begins_empty(peer: Seq<char>, channel_id: u32)
    ensures
        new_session(peer, channel_id) == (SessionView {
            peer,
            endpoint_url: ""@,
            chunk: 65_511,
            channel_id,
            token_id: 1,
            sequence: 1,
            token: None,
            activated: false,
            values: Map::empty(),
        }),
{
}

/// Any hello is acknowledged with the session's own limits; the endpoint it
/// names is kept, and chunks that fit the client's buffer are sent from then
/// on.
pub proof fn law_any_hello_is_acknowledged(
    session: SessionView,
    given: RawView,
    said: HelloView,
    rest: Seq<u8>,
)
    requires
        given.kind == seq![0x48u8, 0x45, 0x4c],
        hello(given.body) == Parsed::Read(said, rest),
    ensures
        session.greets(given).0 == (SessionView {
            endpoint_url: said.endpoint_url,
            chunk: (said.limits.receive_buffer - 24) as usize,
            ..session
        }),
        session.greets(given).1 is None,
        session.greets(given).2 == raw_bytes(
            RawView {
                kind: seq![0x41u8, 0x43, 0x4b],
                is_final: 0x46,
                body: crate::channel::limits_bytes(
                    Limits {
                        receive_buffer: 65_535,
                        send_buffer: 65_535,
                        max_message: 0,
                        max_chunks: 0,
                    },
                ),
            },
        ),
{
    assert(HELLO@ =~= seq![0x48u8, 0x45, 0x4c]);
    assert(ACKNOWLEDGE@ =~= seq![0x41u8, 0x43, 0x4b]);
}

/// What is not a hello is answered with an error that says so, and a hello
/// that cannot be read with nothing; both are failures, and neither changes
/// the session.
pub proof fn law_other_greetings_are_refused(session: SessionView, given: RawView)
    ensures
        given.kind != seq![0x48u8, 0x45, 0x4c] ==> session.greets(given) == (
            session,
            Some(
                Failure {
                    message: text_of(given.kind) + " where Hello was expected"@,
                    retryable: false,
                },
            ),
            raw_bytes(
                RawView {
                    kind: seq![0x45u8, 0x52, 0x52],
                    is_final: 0x46,
                    body: fault_bytes(FaultView { code: 0x8083_0000, reason: "not Hello"@ }),
                },
            ),
        ),
        given.kind == seq![0x48u8, 0x45, 0x4c] ==> (hello(given.body) matches Parsed::Failed(
            failure,
            _,
        ) ==> session.greets(given) == (session, Some(failure), Seq::<u8>::empty())),
{
    assert(HELLO@ =~= seq![0x48u8, 0x45, 0x4c]);
    assert(ERROR@ =~= seq![0x45u8, 0x52, 0x52]);
}

/// A channel is opened by an open of that type that can be read, and by
/// nothing else.
pub proof fn law_only_an_open_opens_the_channel(request: SecureView)
    ensures
        channel_opening(request) == if request.kind != seq![0x4fu8, 0x50, 0x4e] {
            Parsed::Failed(
                Failure { message: "a message before the channel was opened"@, retryable: false },
                request.body,
            )
        } else {
            match body_type(request.body) {
                Parsed::Failed(failure, rest) => Parsed::Failed(failure, rest),
                Parsed::Read(id, rest) => if id == 446 {
                    open_channel(rest)
                } else {
                    Parsed::Failed(
                        Failure {
                            message: "an open that is not an OpenSecureChannel"@,
                            retryable: false,
                        },
                        rest,
                    )
                },
            }
        },
{
    assert(OPEN@ =~= seq![0x4fu8, 0x50, 0x4e]);
}

/// The channel that is opened is the session's own, for as long as the client
/// asks, and the answer is to the client's handle.
pub proof fn law_channel_is_opened_as_asked(
    session: SessionView,
    open: OpenChannelView,
    now: i64,
)
    ensures
        session.opened(open, now) == (ChannelOpened {
            header: ResponseHeader { timestamp: now, handle: open.header.handle, result: 0 },
            channel_id: session.channel_id,
            token_id: session.token_id,
            lifetime: open.requested_lifetime,
        }),
{
}

/// A close is not answered, whatever channel it is on; any other message on
/// another channel is faulted, and a failure; and every other message is
/// answered as the call its body is.
pub proof fn law_message_is_taken_on_its_own_channel(
    session: SessionView,
    request: SecureView,
    now: i64,
)
    ensures
        session.takes(request, now) == if request.kind == seq![0x43u8, 0x4c, 0x4f] {
            (session, None::<Seq<u8>>, Ok::<EventView, Failure>(EventView::Closed))
        } else if request.channel_id != session.channel_id {
            (
                session,
                Some(faulted(session, 0x8022_0000, now).1),
                Err(Failure { message: "a message on another channel"@, retryable: false }),
            )
        } else {
            (
                session.answers(request.body, now).0,
                Some(session.answers(request.body, now).1),
                Ok(session.answers(request.body, now).2),
            )
        },
{
    assert(CLOSE@ =~= seq![0x43u8, 0x4c, 0x4f]);
}

/// A reply is the whole of its body, on the session's channel and token, to
/// the request it answers, cut and numbered from where the session was; the
/// session's number goes on by one for each chunk, and nothing else of it
/// changes. Where its size cannot be said nothing is sent and nothing
/// changes.
pub proof fn law_reply_is_numbered(
    before: SessionView,
    after: SessionView,
    kind: Seq<u8>,
    request_id: u32,
    body: Seq<u8>,
    out_before: Seq<u8>,
    out_after: Seq<u8>,
)
    requires
        replies(before, after, kind, request_id, body, out_before, out_after),
    ensures
        ({
            let message = SecureView {
                kind,
                channel_id: before.channel_id,
                token_id: before.token_id,
                sequence: before.sequence,
                request_id,
                body,
            };
            let piece = piece_of(before.chunk);
            &&& can_reply(before, kind, request_id, body) <==> sendable(message, piece)
            &&& sendable(message, piece) ==> out_after == out_before + chunks(
                message,
                before.sequence,
                body,
                piece,
            ) && after == (SessionView {
                sequence: numbered(before.sequence, chunk_count(body.len(), piece)),
                ..before
            })
            &&& !sendable(message, piece) ==> out_after == out_before && after == before
            &&& too_long() == (Failure {
                message: "a message longer than its size can say"@,
                retryable: false,
            })
        }),
{
}

/// Any create is answered with a token named for the channel, a session id
/// that is its number, and one endpoint: the one the client said hello to,
/// under no security, with an anonymous login. A session there was is
/// replaced, and is not activated.
pub proof fn law_any_create_is_answered(
    session: SessionView,
    body: Seq<u8>,
    request: Seq<u8>,
    create: CreateSessionView,
    rest: Seq<u8>,
    now: i64,
)
    requires
        body_type(body) == Parsed::Read(461u32, request),
        create_session(request) == Parsed::Read(create, rest),
    ensures
        ({
            let token = NodeIdView::String {
                namespace: 0,
                id: "xmip-session-"@ + decimal(session.channel_id as nat),
            };
            session.answers(body, now) == (
                SessionView { token: Some(token), activated: false, ..session },
                session_created_bytes(
                    SessionCreatedView {
                        header: ResponseHeader {
                            timestamp: now,
                            handle: create.header.handle,
                            result: 0,
                        },
                        session_id: NodeIdView::Numeric { namespace: 1, id: session.channel_id },
                        token,
                        endpoints: seq![
                            EndpointView {
                                url: session.endpoint_url,
                                security_policy: "http://opcfoundation.org/UA/SecurityPolicy#None"@,
                                anonymous_policy: Some("anonymous"@),
                            },
                        ],
                    },
                ),
                EventView::SessionCreated(create.session_name),
            )
        }),
{
    reveal(SessionView::creates);
}

/// Any activate with the session's token under the policy it offers is taken;
/// one with another token, or before there is a session, is faulted for that,
/// and one under another policy for its identity.
pub proof fn law_any_activate_is_answered(
    session: SessionView,
    body: Seq<u8>,
    request: Seq<u8>,
    activate: ActivateSessionView,
    rest: Seq<u8>,
    now: i64,
)
    requires
        body_type(body) == Parsed::Read(467u32, request),
        activate_session(request) == Parsed::Read(activate, rest),
    ensures
        session.answers(body, now) == if session.token != Some(activate.header.token) {
            faulted(session, 0x8025_0000, now)
        } else if activate.policy_id != "anonymous"@ {
            faulted(session, 0x8021_0000, now)
        } else {
            (
                SessionView { activated: true, ..session },
                session_activated_bytes(
                    ResponseHeader { timestamp: now, handle: activate.header.handle, result: 0 },
                ),
                EventView::SessionActivated("anonymous"@),
            )
        },
{
    reveal(SessionView::activates);
}

/// Any read on the activated session is answered with what its node holds,
/// bytes, status and stamp, or, where it holds nothing, with a null value
/// whose status is that there is no such node; any other read is faulted.
pub proof fn law_any_read_is_answered(
    session: SessionView,
    body: Seq<u8>,
    request: Seq<u8>,
    read: ReadView,
    rest: Seq<u8>,
    now: i64,
)
    requires
        body_type(body) == Parsed::Read(631u32, request),
        read_request(request) == Parsed::Read(read, rest),
    ensures
        session.answers(body, now) == if session.token != Some(read.header.token) {
            faulted(session, 0x8025_0000, now)
        } else if !session.activated {
            faulted(session, 0x8027_0000, now)
        } else {
            (
                session,
                read_result_bytes(
                    ReadResultView {
                        header: ResponseHeader {
                            timestamp: now,
                            handle: read.header.handle,
                            result: 0,
                        },
                        value: if session.values.contains_key(read.node) {
                            session.values[read.node]
                        } else {
                            DataValueView {
                                bytes: None,
                                status: 0x8034_0000,
                                source_timestamp: None,
                            }
                        },
                    },
                ),
                EventView::Read(read.node),
            )
        },
{
    reveal(SessionView::reads);
}

/// Any write of bytes on the activated session leaves its node holding all of
/// them, good, stamped with their own time or else with that of the write,
/// whatever status they were written with and whatever the node held; no
/// other node changes. They are handed up as one Stream from that node at
/// that peer. Any other write of bytes is faulted.
pub proof fn law_any_write_of_bytes_is_answered(
    session: SessionView,
    body: Seq<u8>,
    request: Seq<u8>,
    header: RequestHeaderView,
    node: NodeIdView,
    written: Seq<u8>,
    bytes: Seq<u8>,
    status: u32,
    stamp: Option<i64>,
    rest: Seq<u8>,
    now: i64,
)
    requires
        body_type(body) == Parsed::Read(673u32, request),
        write_target(request) == Parsed::Read((header, node), written),
        !is_not_bytes(written),
        data_value(written) == Parsed::Read(
            DataValueView { bytes: Some(bytes), status, source_timestamp: stamp },
            rest,
        ),
    ensures
        session.answers(body, now) == if session.token != Some(header.token) {
            faulted(session, 0x8025_0000, now)
        } else if !session.activated {
            faulted(session, 0x8027_0000, now)
        } else {
            (
                SessionView {
                    values: session.values.insert(
                        node,
                        DataValueView {
                            bytes: Some(bytes),
                            status: 0,
                            source_timestamp: Some(
                                if stamp is Some {
                                    stamp->0
                                } else {
                                    now
                                },
                            ),
                        },
                    ),
                    ..session
                },
                write_result_bytes(
                    WriteResult {
                        header: ResponseHeader { timestamp: now, handle: header.handle, result: 0 },
                        status: 0,
                    },
                ),
                EventView::Written(
                    ArrivedView {
                        origin_uri: "opc-ua://"@ + session.peer + "#"@ + node_text(node),
                        bytes,
                    },
                ),
            )
        },
{
    reveal(SessionView::writes);
}

/// Any write of a value of another type, or of none, is answered on the
/// activated session with the status that the type does not match, and
/// changes nothing; any other such write is faulted.
pub proof fn law_any_other_write_is_refused(
    session: SessionView,
    body: Seq<u8>,
    request: Seq<u8>,
    header: RequestHeaderView,
    node: NodeIdView,
    written: Seq<u8>,
    now: i64,
)
    requires
        body_type(body) == Parsed::Read(673u32, request),
        write_target(request) == Parsed::Read((header, node), written),
        is_not_bytes(written) || (data_value(written) matches Parsed::Read(null, _)
            && null.bytes is None),
    ensures
        session.answers(body, now) == if session.token != Some(header.token) {
            faulted(session, 0x8025_0000, now)
        } else if !session.activated {
            faulted(session, 0x8027_0000, now)
        } else {
            (
                session,
                write_result_bytes(
                    WriteResult {
                        header: ResponseHeader { timestamp: now, handle: header.handle, result: 0 },
                        status: 0x8074_0000,
                    },
                ),
                EventView::Refused(node),
            )
        },
{
    reveal(SessionView::writes);
}

/// Any close with the session's token ends it, activated or not, and keeps
/// what every node holds; one with another token, or where there is no
/// session, is faulted.
pub proof fn law_any_close_is_answered(
    session: SessionView,
    body: Seq<u8>,
    request: Seq<u8>,
    header: RequestHeaderView,
    rest: Seq<u8>,
    now: i64,
)
    requires
        body_type(body) == Parsed::Read(473u32, request),
        request_header(request) == Parsed::Read(header, rest),
    ensures
        session.answers(body, now) == if session.token != Some(header.token) {
            faulted(session, 0x8025_0000, now)
        } else {
            (
                SessionView { token: None, activated: false, ..session },
                session_closed_bytes(
                    ResponseHeader { timestamp: now, handle: header.handle, result: 0 },
                ),
                EventView::SessionClosed,
            )
        },
{
    reveal(SessionView::closes);
}

/// A body of no type, or of a type that is not served, and a call that cannot
/// be read, are faulted as unsupported.
pub proof fn law_unread_call_is_unsupported(session: SessionView, body: Seq<u8>, now: i64)
    requires
        match body_type(body) {
            Parsed::Failed(_, _) => true,
            Parsed::Read(id, request) => if id == 461 {
                create_session(request) is Failed
            } else if id == 467 {
                activate_session(request) is Failed
            } else if id == 473 {
                request_header(request) is Failed
            } else if id == 631 {
                read_request(request) is Failed
            } else if id == 673 {
                match write_target(request) {
                    Parsed::Failed(_, _) => true,
                    Parsed::Read(_, written) => !is_not_bytes(written) && data_value(
                        written,
                    ) is Failed,
                }
            } else {
                true
            },
        },
    ensures
        session.answers(body, now) == faulted(session, 0x800B_0000, now),
{
    reveal(SessionView::creates);
    reveal(SessionView::activates);
    reveal(SessionView::reads);
    reveal(SessionView::writes);
    reveal(SessionView::closes);
}

/// What a node holds is its bytes as they were last served or written, and
/// nothing where it holds none; and a Stream is told of a write alone.
pub proof fn law_value_held_is_told(
    session: SessionView,
    node: NodeIdView,
    value: DataValueView,
    event: EventView,
    stream: ArrivedView,
)
    ensures
        (SessionView { values: session.values.insert(node, value), ..session }).holding(node)
            == value.bytes,
        !session.values.contains_key(node) ==> session.holding(node) is None,
        session.values.contains_key(node) ==> session.holding(node) == session.values[node].bytes,
        event.stream() == Some(stream) <==> event == EventView::Written(stream),
{
}

} // verus!
