//! What a client says and takes, to the byte and the status code: what it asks
//! of a server, what it makes of each answer, and how it connects.

use vstd::prelude::*;

use crate::attribute::{read_bytes, read_result, write_bytes, write_result, ReadView, WriteView};
use crate::channel::{
    acknowledge, chunk_count, chunks, fault, hello_bytes, numbered, piece_of, sendable, Acknowledge,
    HelloView, Limits, RawView, SecureView, ACKNOWLEDGE, ERROR, MESSAGE, OPEN,
};
use crate::client::{
    acknowledge_answer, answer_to, channel_opened_answer, connecting_to, first_hello, new_client,
    read_answer, sends, session_activated_answer, session_closed_answer, session_created_answer,
    steps, write_answer, Awaiting, ClientView, ConnectingView, StepView,
};
use crate::codec::Parsed;
use crate::endpoint::{
    activate_session_bytes, anonymous_under_none, close_session_bytes, create_session_bytes,
    session_created, ActivateSessionView, CreateSessionView, SessionCreatedView,
};
use crate::error::{Failure, Result};
use crate::node::NodeIdView;
use crate::service::{
    body_bytes, body_type, channel_opened, open_channel_bytes, request_header_bytes,
    response_header, status_failure, ChannelOpened, OpenChannelView, RequestHeaderView,
};
use crate::text::{decimal, text_of};
use crate::wire::DataValueView;

verus! {

/// The header of a client's next call: its token, the time, one more than its
/// last handle, from zero behind the last number there is, and that it waits
/// ten seconds.
pub open spec fn next_header(client: ClientView, now: i64) -> RequestHeaderView {
    RequestHeaderView {
        token: client.token,
        timestamp: now,
        handle: if client.handle == u32::MAX {
            0
        } else {
            (client.handle + 1) as u32
        },
        timeout_hint: 10_000,
    }
}

/// A client begins on no channel, with the null token, and with its first
/// numbers; it says hello with its own limits, to the server it was told to,
/// and waits for an acknowledge.
pub proof fn law_client_begins_with_hello(endpoint_url: Seq<char>)
    ensures
        connecting_to(endpoint_url) == (ConnectingView {
            client: ClientView {
                chunk: 65_511,
                channel_id: 0,
                token_id: 0,
                sequence: 1,
                request_id: 0,
                handle: 0,
                token: NodeIdView::Numeric { namespace: 0, id: 0 },
            },
            endpoint_url,
            awaiting: Awaiting::Acknowledge,
        }),
        new_client() == connecting_to(endpoint_url).client,
        first_hello(endpoint_url) == hello_bytes(
            HelloView {
                limits: Limits {
                    receive_buffer: 65_535,
                    send_buffer: 65_535,
                    max_message: 0,
                    max_chunks: 0,
                },
                endpoint_url,
            },
        ),
{
}

/// Each call says what it was asked to say: the channel and the session for
/// an hour, the session by this side's name on the endpoint that was given,
/// the policy, the node, and all of the bytes, good and stamped with the time
/// of the write; each under the header of the next call.
pub proof fn law_calls_say_what_was_asked(
    client: ClientView,
    endpoint_url: Seq<char>,
    policy_id: Seq<char>,
    node: NodeIdView,
    bytes: Seq<u8>,
    now: i64,
)
    ensures
        client.opening(now) == open_channel_bytes(
            OpenChannelView { header: next_header(client, now), requested_lifetime: 3_600_000 },
        ),
        client.creating(endpoint_url, now) == create_session_bytes(
            CreateSessionView {
                header: next_header(client, now),
                endpoint_url,
                session_name: "xmip"@,
            },
        ),
        client.activating(policy_id, now) == activate_session_bytes(
            ActivateSessionView { header: next_header(client, now), policy_id },
        ),
        client.reading(node, now) == read_bytes(
            ReadView { header: next_header(client, now), node },
        ),
        client.writing(node, bytes, now) == write_bytes(
            WriteView {
                header: next_header(client, now),
                node,
                value: DataValueView {
                    bytes: Some(bytes),
                    status: 0,
                    source_timestamp: Some(now),
                },
            },
        ),
        client.closing(now) == close_session_bytes(next_header(client, now)),
        client.leaving(now) == body_bytes(452) + request_header_bytes(next_header(client, now)),
        client.calling() == (ClientView { handle: next_header(client, now).handle, ..client }),
{
    crate::framing::law_chunks_are_counted(0, 0, client.handle, 0);
}

/// A call is sent whole, on the client's channel and token, as one more
/// request, cut and numbered from where the client was; its number goes on by
/// one for each chunk, and nothing else of it changes. Where its size cannot
/// be said nothing is sent, and only the request's number is left of it.
pub proof fn law_call_is_numbered(
    before: ClientView,
    after: ClientView,
    kind: Seq<u8>,
    body: Seq<u8>,
    out_before: Seq<u8>,
    out_after: Seq<u8>,
    result: Result<()>,
)
    requires
        sends(before, after, kind, body, out_before, out_after, result),
    ensures
        ({
            let request_id = if before.request_id == u32::MAX {
                0u32
            } else {
                (before.request_id + 1) as u32
            };
            let message = SecureView {
                kind,
                channel_id: before.channel_id,
                token_id: before.token_id,
                sequence: before.sequence,
                request_id,
                body,
            };
            let piece = piece_of(before.chunk);
            &&& result is Ok <==> sendable(message, piece)
            &&& result is Ok ==> out_after == out_before + chunks(
                message,
                before.sequence,
                body,
                piece,
            ) && after == (ClientView {
                request_id,
                sequence: numbered(before.sequence, chunk_count(body.len(), piece)),
                ..before
            })
            &&& result matches Err(error) ==> error@ == (Failure {
                message: "a message longer than its size can say"@,
                retryable: false,
            }) && out_after == out_before && after == (ClientView { request_id, ..before })
        }),
{
    crate::framing::law_chunks_are_counted(0, 0, before.request_id, 0);
}

/// An answer is taken where it is to the last request and of the type that
/// was expected; a service fault is the status that it carries.
pub proof fn law_answer_is_to_the_last_request(
    client: ClientView,
    answer: SecureView,
    expected: u32,
)
    requires
        expected != 397,
    ensures
        answer_to(client, answer, expected) == if answer.request_id != client.request_id {
            Parsed::Failed(
                Failure {
                    message: "an answer to request "@ + decimal(answer.request_id as nat)
                        + " where "@ + decimal(client.request_id as nat) + " was awaited"@,
                    retryable: false,
                },
                answer.body,
            )
        } else {
            match body_type(answer.body) {
                Parsed::Failed(failure, rest) => Parsed::Failed(failure, rest),
                Parsed::Read(id, rest) => if id == expected {
                    Parsed::Read((), rest)
                } else if id == 397 {
                    match response_header(rest) {
                        Parsed::Failed(failure, rest) => Parsed::Failed(failure, rest),
                        Parsed::Read(header, rest) => Parsed::Failed(
                            status_failure("the server answered"@, header.result),
                            rest,
                        ),
                    }
                } else {
                    Parsed::Failed(
                        Failure {
                            message: "a response of type "@ + decimal(id as nat) + " where "@
                                + decimal(expected as nat) + " was expected"@,
                            retryable: false,
                        },
                        rest,
                    )
                },
            }
        },
{
}

/// The channel and the session are taken as the server answers them, where it
/// answers with what was asked for and with a good status, and with any other
/// status refused by it.
pub proof fn law_channel_and_session_are_taken(client: ClientView, answer: SecureView)
    ensures
        channel_opened_answer(client, answer) == match answer_to(client, answer, 449) {
            Parsed::Failed(failure, rest) => Parsed::Failed(failure, rest),
            Parsed::Read(_, rest) => match channel_opened(rest) {
                Parsed::Failed(failure, rest) => Parsed::Failed(failure, rest),
                Parsed::Read(opened, rest) => if opened.header.result == 0 {
                    Parsed::Read(opened, rest)
                } else {
                    Parsed::Failed(
                        status_failure("opening the channel"@, opened.header.result),
                        rest,
                    )
                },
            },
        },
        session_created_answer(client, answer) == match answer_to(client, answer, 464) {
            Parsed::Failed(failure, rest) => Parsed::Failed(failure, rest),
            Parsed::Read(_, rest) => match session_created(rest) {
                Parsed::Failed(failure, rest) => Parsed::Failed(failure, rest),
                Parsed::Read(created, rest) => if created.header.result == 0 {
                    Parsed::Read(created, rest)
                } else {
                    Parsed::Failed(
                        status_failure("creating the session"@, created.header.result),
                        rest,
                    )
                },
            },
        },
{
}

/// That the session was activated or closed is taken where the server answers
/// with that and with a good status, and with any other status refused by it.
pub proof fn law_activation_and_close_are_taken(client: ClientView, answer: SecureView)
    ensures
        session_activated_answer(client, answer) == match answer_to(client, answer, 470) {
            Parsed::Failed(failure, rest) => Parsed::Failed(failure, rest),
            Parsed::Read(_, rest) => match response_header(rest) {
                Parsed::Failed(failure, rest) => Parsed::Failed(failure, rest),
                Parsed::Read(header, rest) => if header.result == 0 {
                    Parsed::Read((), rest)
                } else {
                    Parsed::Failed(status_failure("activating the session"@, header.result), rest)
                },
            },
        },
        session_closed_answer(client, answer) == match answer_to(client, answer, 476) {
            Parsed::Failed(failure, rest) => Parsed::Failed(failure, rest),
            Parsed::Read(_, rest) => match response_header(rest) {
                Parsed::Failed(failure, rest) => Parsed::Failed(failure, rest),
                Parsed::Read(header, rest) => if header.result == 0 {
                    Parsed::Read((), rest)
                } else {
                    Parsed::Failed(status_failure("closing the session"@, header.result), rest)
                },
            },
        },
{
}

/// The value that a read gives is the server's, whatever its own status is,
/// where the call's is good; and a write is taken where both the call's
/// status and the node's are.
pub proof fn law_read_and_write_are_taken(client: ClientView, answer: SecureView)
    ensures
        read_answer(client, answer) == match answer_to(client, answer, 634) {
            Parsed::Failed(failure, rest) => Parsed::Failed(failure, rest),
            Parsed::Read(_, rest) => match read_result(rest) {
                Parsed::Failed(failure, rest) => Parsed::Failed(failure, rest),
                Parsed::Read(result, rest) => if result.header.result == 0 {
                    Parsed::Read(result.value, rest)
                } else {
                    Parsed::Failed(status_failure("reading"@, result.header.result), rest)
                },
            },
        },
        write_answer(client, answer) == match answer_to(client, answer, 676) {
            Parsed::Failed(failure, rest) => Parsed::Failed(failure, rest),
            Parsed::Read(_, rest) => match write_result(rest) {
                Parsed::Failed(failure, rest) => Parsed::Failed(failure, rest),
                Parsed::Read(result, rest) => if result.header.result != 0 {
                    Parsed::Failed(status_failure("writing"@, result.header.result), rest)
                } else if result.status != 0 {
                    Parsed::Failed(
                        status_failure("the node refused the write"@, result.status),
                        rest,
                    )
                } else {
                    Parsed::Read((), rest)
                },
            },
        },
{
}

/// What comes back of a hello is an acknowledge, an error that is the status
/// it names, or a failure.
pub proof fn law_hello_is_acknowledged_or_refused(message: RawView)
    ensures
        acknowledge_answer(message) == if message.kind == seq![0x41u8, 0x43, 0x4b] {
            acknowledge(message.body)
        } else if message.kind == seq![0x45u8, 0x52, 0x52] {
            match fault(message.body) {
                Parsed::Failed(failure, rest) => Parsed::Failed(failure, rest),
                Parsed::Read(fault, rest) => Parsed::Failed(
                    status_failure(fault.reason, fault.code),
                    rest,
                ),
            }
        } else {
            Parsed::Failed(
                Failure {
                    message: text_of(message.kind) + " where the acknowledge was expected"@,
                    retryable: false,
                },
                message.body,
            )
        },
{
    assert(ACKNOWLEDGE@ =~= seq![0x41u8, 0x43, 0x4b]);
    assert(ERROR@ =~= seq![0x45u8, 0x52, 0x52]);
    assert(ACKNOWLEDGE@[0] != ERROR@[0]);
}

/// What a client takes from an answer is in what it knows from then on, and
/// nothing else changes: chunks that fit the server's buffer, the channel and
/// its token, and the session's token. A session with no endpoint under
/// policy None that takes an anonymous identity is not taken.
pub proof fn law_client_keeps_what_it_takes(
    client: ClientView,
    limits: Acknowledge,
    opened: ChannelOpened,
    created: SessionCreatedView,
)
    ensures
        client.limited(limits) == (ClientView {
            chunk: (limits.limits.receive_buffer - 24) as usize,
            ..client
        }),
        client.on_channel(opened) == (ClientView {
            channel_id: opened.channel_id,
            token_id: opened.token_id,
            ..client
        }),
        client.in_session(created) == match anonymous_under_none(created.endpoints) {
            Some(policy) => Ok::<(ClientView, Seq<char>), Failure>(
                (ClientView { token: created.token, ..client }, policy),
            ),
            None => Err(
                Failure {
                    message: "the server offers no anonymous login under security policy None"@,
                    retryable: false,
                },
            ),
        },
{
}

/// A client connects step by step: behind the acknowledge it asks for a
/// channel, on it for a session on the endpoint it said hello to, in it to be
/// activated under the policy that was offered, and then it is connected. A
/// message that is not awaited, or refuses what was asked, is a failure.
pub proof fn law_client_connects_step_by_step(
    connecting: ConnectingView,
    message: RawView,
    answer: SecureView,
    now: i64,
)
    ensures
        connecting.past_acknowledge(message, now) == if connecting.awaiting !is Acknowledge {
            StepView::Failed(
                Failure { message: "a message that was not awaited"@, retryable: false },
            )
        } else {
            match acknowledge_answer(message) {
                Parsed::Failed(failure, _) => StepView::Failed(failure),
                Parsed::Read(limits, _) => StepView::Asks(
                    connecting.client.limited(limits),
                    seq![0x4fu8, 0x50, 0x4e],
                    connecting.client.limited(limits).opening(now),
                    Awaiting::Channel,
                ),
            }
        },
        connecting.awaiting is Channel ==> connecting.past_answer(answer, now)
            == match channel_opened_answer(connecting.client, answer) {
            Parsed::Failed(failure, _) => StepView::Failed(failure),
            Parsed::Read(opened, _) => StepView::Asks(
                connecting.client.on_channel(opened),
                seq![0x4du8, 0x53, 0x47],
                connecting.client.on_channel(opened).creating(connecting.endpoint_url, now),
                Awaiting::Session,
            ),
        },
        connecting.awaiting is Session ==> connecting.past_answer(answer, now)
            == match session_created_answer(connecting.client, answer) {
            Parsed::Failed(failure, _) => StepView::Failed(failure),
            Parsed::Read(created, _) => match connecting.client.in_session(created) {
                Err(failure) => StepView::Failed(failure),
                Ok((client, policy)) => StepView::Asks(
                    client,
                    seq![0x4du8, 0x53, 0x47],
                    client.activating(policy, now),
                    Awaiting::Activation,
                ),
            },
        },
        connecting.awaiting is Activation ==> connecting.past_answer(answer, now)
            == match session_activated_answer(connecting.client, answer) {
            Parsed::Failed(failure, _) => StepView::Failed(failure),
            Parsed::Read(_, _) => StepView::Connected,
        },
        connecting.awaiting is Acknowledge || connecting.awaiting is Nothing
            ==> connecting.past_answer(answer, now) == StepView::Failed(
            Failure { message: "a message that was not awaited"@, retryable: false },
        ),
        connecting.connected() is Some <==> connecting.awaiting is Nothing,
        connecting.connected() matches Some(client) ==> client == connecting.client,
{
    assert(OPEN@ =~= seq![0x4fu8, 0x50, 0x4e]);
    assert(MESSAGE@ =~= seq![0x4du8, 0x53, 0x47]);
}

/// A step that asks for something is sent as one more call, and waits for
/// what it asks for where it could be sent; one that fails sends nothing and
/// changes nothing; and one behind which there is nothing more to ask sends
/// nothing, and waits for nothing.
pub proof fn law_step_waits_for_what_it_asks(
    before: ConnectingView,
    after: ConnectingView,
    step: StepView,
    out_before: Seq<u8>,
    out_after: Seq<u8>,
    result: Result<()>,
)
    requires
        steps(before, after, step, out_before, out_after, result),
    ensures
        after.endpoint_url == before.endpoint_url,
        step matches StepView::Asks(client, kind, body, next) ==> sends(
            client.calling(),
            after.client,
            kind,
            body,
            out_before,
            out_after,
            result,
        ) && (result is Ok ==> after.awaiting == next) && (result is Err ==> after.awaiting
            == before.awaiting),
        step is Connected ==> result is Ok && out_after == out_before && after.client
            == before.client && after.awaiting is Nothing,
        step matches StepView::Failed(failure) ==> (result matches Err(error) && error@ == failure)
            && out_after == out_before && after == before,
{
}

} // verus!
