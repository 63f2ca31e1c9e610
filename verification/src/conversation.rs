//! What a client and a session come to between them: each answer that a
//! session gives is the one that its client takes.

use vstd::prelude::*;

use crate::attribute::{
    law_read_result_reads_back, law_write_result_reads_back, read_bytes, write_bytes,
    ReadResultView, ReadView, WriteResult, WriteView,
};
use crate::channel::{
    fault_bytes, large_enough, law_acknowledge_reads_back, law_fault_reads_back,
    law_hello_reads_back, limits_bytes, raw_bytes, Acknowledge, FaultView, HelloView, Limits,
    RawView, SecureView, ACKNOWLEDGE, ERROR, FINAL, HELLO, MESSAGE, OPEN,
};
use crate::client::{
    acknowledge_answer, answer_to, channel_opened_answer, connecting_to, first_hello, header_answer,
    new_client, read_answer, session_closed_answer, session_created_answer, write_answer, Awaiting,
    ClientView, ConnectingView, StepView,
};
use crate::codec::Parsed;
use crate::endpoint::{
    activate_session_bytes, anonymous_under_none, create_session_bytes,
    law_activate_session_reads_back, law_create_session_reads_back,
    law_session_activated_reads_back, law_session_closed_reads_back, law_session_created_reads_back,
    ActivateSessionView, CreateSessionView, SessionCreatedView, ACTIVATE_SESSION_RESPONSE,
};
use crate::node::{node_text, NodeIdView};
use crate::service::{
    channel_opened_bytes, law_channel_opened_reads_back, law_open_channel_reads_back,
    status_failure, ChannelOpened, OpenChannelView, GOOD,
};
use crate::session::{
    answering, channel_opening, faulting, law_closed_session_is_gone, law_event_tells_what_changed,
    law_read_is_answered, law_write_is_answered, law_written_value_is_served_back, new_session,
    EventView, SessionView, ANONYMOUS_POLICY,
};
use crate::text::{decimal, lemma_decimal_len};
use crate::transport::ArrivedView;
use crate::wire::{lemma_text_fits, text_fits, DataValueView};

verus! {

/// That `answer` is a message in reply to the last request of `client`.
pub open spec fn is_reply(client: ClientView, answer: SecureView, body: Seq<u8>) -> bool {
    answer.request_id == client.request_id && answer.body == body
}

/// The limits with which a session acknowledges are those its client takes.
pub proof fn law_acknowledge_is_taken(limits: Limits, is_final: u8)
    requires
        large_enough(limits),
    ensures
        acknowledge_answer(
            RawView { kind: ACKNOWLEDGE@, is_final, body: limits_bytes(limits) },
        ).gives(Acknowledge { limits }),
{
    law_acknowledge_reads_back(Acknowledge { limits });
    assert(ACKNOWLEDGE@[0] != ERROR@[0]);
}

/// An error in answer to a hello is the status it names. Left out is a
/// reason too long for its length field.
pub proof fn law_refused_hello_is_the_error(fault: FaultView, is_final: u8)
    requires
        text_fits(fault.reason),
    ensures
        acknowledge_answer(
            RawView { kind: ERROR@, is_final, body: fault_bytes(fault) },
        ) matches Parsed::Failed(failure, _) && failure == status_failure(
            fault.reason,
            fault.code,
        ),
{
    law_fault_reads_back(fault);
}

/// The channel that a session opens is the one its client is on.
pub proof fn law_opened_channel_is_taken(
    client: ClientView,
    opened: ChannelOpened,
    answer: SecureView,
)
    requires
        opened.header.result == GOOD,
        is_reply(client, answer, channel_opened_bytes(opened)),
    ensures
        channel_opened_answer(client, answer).gives(opened),
{
    law_channel_opened_reads_back(opened);
}

proof fn lemma_own_token_fits(session: SessionView)
    ensures
        session.own_token().fits(),
{
    reveal_strlit("xmip-session-");
    lemma_decimal_len(session.channel_id as nat);
    lemma_text_fits("xmip-session-"@ + decimal(session.channel_id as nat));
}

/// A client that asks for a session is given a token, and finds the one
/// policy under which an anonymous identity is taken; presenting it with
/// that token activates the session. Left out are texts too long for their
/// length field.
pub proof fn law_anonymous_login_is_taken(
    client: ClientView,
    session: SessionView,
    create: CreateSessionView,
    answer: SecureView,
    activate: ActivateSessionView,
    activated: SecureView,
    now: i64,
    later: i64,
)
    requires
        create.fits(),
        text_fits(session.endpoint_url),
        is_reply(client, answer, session.answers(create_session_bytes(create), now).1),
        activate.header.token == session.own_token(),
        activate.policy_id == ANONYMOUS_POLICY@,
        is_reply(
            client,
            activated,
            session.answers(create_session_bytes(create), now).0.answers(
                activate_session_bytes(activate),
                later,
            ).1,
        ),
    ensures
        session_created_answer(client, answer) matches Parsed::Read(created, _) && created.token
            == session.own_token() && anonymous_under_none(created.endpoints) == Some(
            ANONYMOUS_POLICY@,
        ),
        session.answers(create_session_bytes(create), now).2 == EventView::SessionCreated(
            create.session_name,
        ),
        header_answer(
            client,
            activated,
            ACTIVATE_SESSION_RESPONSE,
            "activating the session"@,
        ).gives(()),
        session.answers(create_session_bytes(create), now).0.answers(
            activate_session_bytes(activate),
            later,
        ).0.refusal(session.own_token()) is None,
{
    reveal(SessionView::creates);
    reveal(SessionView::activates);
    law_create_session_reads_back(create);
    lemma_own_token_fits(session);
    reveal_strlit("http://opcfoundation.org/UA/SecurityPolicy#None");
    reveal_strlit("anonymous");
    lemma_text_fits(session.offer().security_policy);
    lemma_text_fits(ANONYMOUS_POLICY@);
    let created = SessionCreatedView {
        header: answering(create.header.handle, GOOD, now),
        session_id: NodeIdView::Numeric { namespace: 1, id: session.channel_id },
        token: session.own_token(),
        endpoints: seq![session.offer()],
    };
    law_session_created_reads_back(created);
    crate::wire::lemma_encoded_len(ANONYMOUS_POLICY@);
    assert(activate.fits()) by {
        broadcast use crate::codec::lemma_le_bytes_len;

    }
    law_activate_session_reads_back(activate);
    law_session_activated_reads_back(answering(activate.header.handle, GOOD, later));
}

/// What a client reads is what the session serves, status and stamp too.
/// Left out are names and values too long for their length field.
pub proof fn law_read_gives_what_is_served(
    client: ClientView,
    session: SessionView,
    read: ReadView,
    answer: SecureView,
    now: i64,
)
    requires
        read.fits(),
        session.refusal(read.header.token) is None,
        session.served(read.node).fits(),
        is_reply(client, answer, session.answers(read_bytes(read), now).1),
    ensures
        read_answer(client, answer).gives(session.served(read.node)),
{
    law_read_is_answered(session, read, now);
    law_read_result_reads_back(
        ReadResultView {
            header: answering(read.header.handle, GOOD, now),
            value: session.served(read.node),
        },
    );
}

/// A client whose value was written is told so, and a later read gives the
/// value back, good, with the stamp it was written with. Left out are names
/// and values too long for their length field.
pub proof fn law_read_gives_back_what_was_written(
    client: ClientView,
    reader: ClientView,
    session: SessionView,
    write: WriteView,
    answer: SecureView,
    read: ReadView,
    value: SecureView,
    now: i64,
    later: i64,
)
    requires
        write.fits(),
        read.fits(),
        session.refusal(write.header.token) is None,
        write.value.bytes is Some,
        is_reply(client, answer, session.answers(write_bytes(write), now).1),
        read.header.token == write.header.token,
        read.node == write.node,
        is_reply(
            reader,
            value,
            session.answers(write_bytes(write), now).0.answers(read_bytes(read), later).1,
        ),
    ensures
        write_answer(client, answer).gives(()),
        read_answer(reader, value) matches Parsed::Read(given, _) && given.bytes
            == write.value.bytes && given.status == GOOD && (
        write.value.source_timestamp is Some ==> given.source_timestamp
            == write.value.source_timestamp),
{
    law_write_is_answered(session, write, now);
    law_write_result_reads_back(
        WriteResult { header: answering(write.header.handle, GOOD, now), status: GOOD },
    );
    let after = session.answers(write_bytes(write), now).0;
    law_read_gives_what_is_served(reader, after, read, value, later);
}

/// A call that a session faults is, to its client, the status of the fault.
pub proof fn law_fault_is_the_error_it_carries(
    client: ClientView,
    answer: SecureView,
    expected: u32,
    code: u32,
    now: i64,
)
    requires
        is_reply(client, answer, faulting(code, now)),
    ensures
        answer_to(client, answer, expected) matches Parsed::Failed(failure, _) && failure
            == status_failure("the server answered"@, code),
{
    crate::service::law_fault_reads_back(answering(0, code, now));
}

/// A message in reply to the last request of `client`, on its channel.
pub open spec fn reply_to(client: ClientView, sequence: u32, body: Seq<u8>) -> SecureView {
    SecureView {
        kind: MESSAGE@,
        channel_id: client.channel_id,
        token_id: client.token_id,
        sequence,
        request_id: client.request_id,
        body,
    }
}

/// A client that says hello to a new session is acknowledged, asks for a
/// channel, and is given the session's, for the hour that it asks for. Left
/// out is an endpoint too long for its length field.
pub proof fn law_client_and_session_meet(
    peer: Seq<char>,
    channel_id: u32,
    endpoint_url: Seq<char>,
    open: SecureView,
    sequence: u32,
    now: i64,
    later: i64,
)
    requires
        text_fits(endpoint_url),
        open.kind == OPEN@,
        open.body == new_client().opening(now),
    ensures
        ({
            let hello = RawView { kind: HELLO@, is_final: FINAL, body: first_hello(endpoint_url) };
            let (session, failure, sent) = new_session(peer, channel_id).greets(hello);
            let acknowledge = RawView {
                kind: ACKNOWLEDGE@,
                is_final: FINAL,
                body: limits_bytes(
                    Limits {
                        receive_buffer: 65_535,
                        send_buffer: 65_535,
                        max_message: 0,
                        max_chunks: 0,
                    },
                ),
            };
            let asked = new_client().calling().sent(OPEN@, new_client().opening(now));
            let awaiting = ConnectingView {
                client: asked,
                endpoint_url,
                awaiting: Awaiting::Channel,
            };
            let opened = session.opened(channel_opening(open)->Read_0, later);
            let answer = reply_to(asked, sequence, channel_opened_bytes(opened));
            let on_channel = ClientView { channel_id, token_id: 1, ..asked };
            &&& failure is None
            &&& sent == raw_bytes(acknowledge)
            &&& session == SessionView { endpoint_url, ..new_session(peer, channel_id) }
            &&& connecting_to(endpoint_url).past_acknowledge(acknowledge, now) == StepView::Asks(
                new_client(),
                OPEN@,
                new_client().opening(now),
                Awaiting::Channel,
            )
            &&& channel_opening(open) is Read
            &&& opened.lifetime == 3_600_000
            &&& awaiting.past_answer(answer, later) == StepView::Asks(
                on_channel,
                MESSAGE@,
                on_channel.creating(endpoint_url, later),
                Awaiting::Session,
            )
        }),
{
    let limits = Limits {
        receive_buffer: 65_535,
        send_buffer: 65_535,
        max_message: 0,
        max_chunks: 0,
    };
    law_hello_reads_back(HelloView { limits, endpoint_url });
    law_acknowledge_is_taken(limits, FINAL);
    let asking = OpenChannelView {
        header: new_client().calling().header(now),
        requested_lifetime: 3_600_000,
    };
    law_open_channel_reads_back(asking);
    let session = SessionView { endpoint_url, ..new_session(peer, channel_id) };
    let asked = new_client().calling().sent(OPEN@, new_client().opening(now));
    let opened = session.opened(asking, later);
    law_opened_channel_is_taken(
        asked,
        opened,
        reply_to(asked, sequence, channel_opened_bytes(opened)),
    );
}

/// A client on a session's channel that asks for a session and then to be
/// activated is logged in: it is connected, it has the session's token, and
/// its calls are served. Left out is an endpoint, or a token from before, too
/// long for its length field.
#[verifier::spinoff_prover]
#[verifier::rlimit(40)]
pub proof fn law_client_logs_in(
    client: ClientView,
    session: SessionView,
    sequence: u32,
    times: (i64, i64, i64, i64),
)
    requires
        client.token.fits(),
        text_fits(session.endpoint_url),
    ensures
        ({
            let (now, later, then, last) = times;
            let create = client.creating(session.endpoint_url, now);
            let asked = client.calling().sent(MESSAGE@, create);
            let (created, answer, event) = session.answers(create, later);
            let in_session = ClientView { token: session.own_token(), ..asked };
            let activate = in_session.activating("anonymous"@, then);
            let presented = in_session.calling().sent(MESSAGE@, activate);
            let (activated, taken, then_event) = created.answers(activate, last);
            &&& event == EventView::SessionCreated("xmip"@)
            &&& (ConnectingView {
                client: asked,
                endpoint_url: session.endpoint_url,
                awaiting: Awaiting::Session,
            }).past_answer(reply_to(asked, sequence, answer), then) == StepView::Asks(
                in_session,
                MESSAGE@,
                activate,
                Awaiting::Activation,
            )
            &&& then_event == EventView::SessionActivated("anonymous"@)
            &&& (ConnectingView {
                client: presented,
                endpoint_url: session.endpoint_url,
                awaiting: Awaiting::Activation,
            }).past_answer(reply_to(presented, sequence, taken), last) is Connected
            &&& activated.refusal(presented.token) is None
            &&& activated.values == session.values
        }),
{
    let (now, later, then, last) = times;
    let create = CreateSessionView {
        header: client.calling().header(now),
        endpoint_url: session.endpoint_url,
        session_name: "xmip"@,
    };
    reveal_strlit("xmip");
    lemma_text_fits("xmip"@);
    let asked = client.calling().sent(MESSAGE@, create_session_bytes(create));
    let (created, answer, event) = session.answers(create_session_bytes(create), later);
    let in_session = ClientView { token: session.own_token(), ..asked };
    let activate = ActivateSessionView {
        header: in_session.calling().header(then),
        policy_id: "anonymous"@,
    };
    let presented = in_session.calling().sent(MESSAGE@, activate_session_bytes(activate));
    let taken = created.answers(activate_session_bytes(activate), last).1;
    law_anonymous_login_is_taken(
        asked,
        session,
        create,
        reply_to(asked, sequence, answer),
        activate,
        reply_to(asked, sequence, taken),
        later,
        last,
    );
    law_anonymous_login_is_taken(
        presented,
        session,
        create,
        reply_to(presented, sequence, answer),
        activate,
        reply_to(presented, sequence, taken),
        later,
        last,
    );
    law_event_tells_what_changed(session, create_session_bytes(create), later);
    law_event_tells_what_changed(created, activate_session_bytes(activate), last);
    assert(created.answers(activate_session_bytes(activate), last).2
        == EventView::SessionActivated("anonymous"@)) by {
        reveal(SessionView::activates);
        reveal(SessionView::creates);
        law_create_session_reads_back(create);
        lemma_own_token_fits(session);
        reveal_strlit("anonymous");
        lemma_text_fits("anonymous"@);
        crate::wire::lemma_encoded_len("anonymous"@);
        broadcast use crate::codec::lemma_le_bytes_len;

        law_activate_session_reads_back(activate);
    }
}

/// What a logged-in client writes is handed up whole, as a Stream of the node
/// it was written to, and is what a client that reads the node then takes:
/// the same bytes, good, and stamped with the time they were written. Left
/// out are names and values too long for their length field.
pub proof fn law_client_reads_what_a_client_wrote(
    writer: ClientView,
    reader: ClientView,
    session: SessionView,
    node: NodeIdView,
    bytes: Seq<u8>,
    sequence: u32,
    times: (i64, i64, i64, i64),
)
    requires
        writer.token.fits(),
        node.fits(),
        bytes.len() <= i32::MAX,
        session.token == Some(writer.token),
        reader.token == writer.token,
        session.activated,
    ensures
        ({
            let (now, later, then, last) = times;
            let write = writer.writing(node, bytes, now);
            let wrote = writer.calling().sent(MESSAGE@, write);
            let (written, told, event) = session.answers(write, later);
            let read = reader.reading(node, then);
            let asked = reader.calling().sent(MESSAGE@, read);
            let (after, value, reading) = written.answers(read, last);
            &&& event == EventView::Written(
                ArrivedView {
                    origin_uri: "opc-ua://"@ + session.peer + "#"@ + node_text(node),
                    bytes,
                },
            )
            &&& written.holding(node) == Some(bytes)
            &&& write_answer(wrote, reply_to(wrote, sequence, told)).gives(())
            &&& reading == EventView::Read(node)
            &&& after == written
            &&& read_answer(asked, reply_to(asked, sequence, value)).gives(
                DataValueView { bytes: Some(bytes), status: 0, source_timestamp: Some(now) },
            )
        }),
{
    let (now, later, then, last) = times;
    let write = WriteView {
        header: writer.calling().header(now),
        node,
        value: DataValueView { bytes: Some(bytes), status: 0, source_timestamp: Some(now) },
    };
    let read = ReadView { header: reader.calling().header(then), node };
    let wrote = writer.calling().sent(MESSAGE@, write_bytes(write));
    let asked = reader.calling().sent(MESSAGE@, read_bytes(read));
    let (written, told, event) = session.answers(write_bytes(write), later);
    let value = written.answers(read_bytes(read), last).1;
    law_written_value_is_served_back(session, write, read, later, last);
    law_write_is_answered(session, write, later);
    law_read_gives_back_what_was_written(
        wrote,
        asked,
        session,
        write,
        reply_to(wrote, sequence, told),
        read,
        reply_to(asked, sequence, value),
        later,
        last,
    );
    law_read_gives_what_is_served(asked, written, read, reply_to(asked, sequence, value), last);
}

/// A client that closes its session is told that it is closed, whether it was
/// activated or not, and no call with its token is served from then on. Left
/// out is a token too long for its length field.
pub proof fn law_client_closes_its_session(
    client: ClientView,
    session: SessionView,
    sequence: u32,
    now: i64,
    later: i64,
)
    requires
        client.token.fits(),
        session.token == Some(client.token),
    ensures
        ({
            let close = client.closing(now);
            let asked = client.calling().sent(MESSAGE@, close);
            let (after, told, event) = session.answers(close, later);
            &&& event is SessionClosed
            &&& session_closed_answer(asked, reply_to(asked, sequence, told)).gives(())
            &&& after.refusal(client.token) is Some
            &&& after.values == session.values
        }),
{
    let header = client.calling().header(now);
    law_closed_session_is_gone(session, header, later);
    law_session_closed_reads_back(answering(header.handle, GOOD, later));
}

} // verus!
