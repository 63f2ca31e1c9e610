//! Xmip's side of one connection to an OPC UA server: Hello and the
//! Acknowledge, a secure channel under policy None, a session created and
//! activated anonymously, then a Read or a Write of one node's value, and
//! the session and channel closed behind it.
//!
//! No socket is touched here. A call that asks something of the server
//! appends the bytes to send, and a call that takes an answer is handed the
//! message that came back.

use vstd::prelude::*;

use crate::attribute::{
    read_bytes, read_result, write_bytes, write_result, Read, ReadResult, ReadResultView, ReadView,
    Write, WriteResult, WriteView, READ_RESPONSE, WRITE_RESPONSE,
};
use crate::channel::{
    acknowledge, agrees_body, chunk_count, chunks, fault, hello_bytes, numbered, piece_of,
    raw_bytes, raw_view, sendable, write_raw, write_secure, Acknowledge, Fault, FaultView, Hello,
    HelloView, Limits, Raw, RawView, Secure, SecureView, ACKNOWLEDGE, CHUNK_OVERHEAD, CLOSE, ERROR,
    FINAL, HELLO, MAX_RAW_BODY, MESSAGE, OPEN,
};
use crate::codec::{held, Cursor, Parsed};
use crate::endpoint::{
    activate_session_bytes, anonymous_under_none, close_session, close_session_bytes,
    create_session_bytes, session_created, ActivateSession, ActivateSessionView, CreateSession,
    CreateSessionView, SessionCreated, SessionCreatedView, ACTIVATE_SESSION_RESPONSE,
    CLOSE_SESSION_RESPONSE, CREATE_SESSION_RESPONSE,
};
use crate::error::{permanent, protocol_error, Failure, Result, TransportError};
use crate::node::{NodeId, NodeIdView};
use crate::service::{
    body_bytes, body_type, channel_opened, close_channel, open_channel_bytes, request_header_bytes,
    response_header, status_error, status_failure, type_of, ChannelOpened, OpenChannel,
    OpenChannelView, RequestHeader, RequestHeaderView, ResponseHeader, CLOSE_CHANNEL_REQUEST, GOOD,
    OPEN_CHANNEL_RESPONSE, SERVICE_FAULT,
};
use crate::text::{decimal, decimal_text, lossy, same_bytes, text_of};
use crate::wire::{DataValue, DataValueView};

verus! {

/// How long a channel token and a session are asked for, in milliseconds.
pub const LIFETIME: u32 = 3_600_000;

/// What a call hints the server it will wait, in milliseconds.
pub const TIMEOUT_HINT: u32 = 10_000;

/// What a session created here is called.
pub const SESSION_NAME: &'static str = "xmip";

/// What a client knows of its connection.
pub struct Client {
    /// The largest body the server reads in one chunk.
    chunk: usize,
    channel_id: u32,
    token_id: u32,
    sequence: u32,
    request_id: u32,
    handle: u32,
    /// The session's authentication token; null until there is one.
    token: NodeId,
}

/// What a [`Client`] knows.
pub struct ClientView {
    pub chunk: usize,
    pub channel_id: u32,
    pub token_id: u32,
    pub sequence: u32,
    pub request_id: u32,
    pub handle: u32,
    pub token: NodeIdView,
}

impl View for Client {
    type V = ClientView;

    closed spec fn view(&self) -> ClientView {
        ClientView {
            chunk: self.chunk,
            channel_id: self.channel_id,
            token_id: self.token_id,
            sequence: self.sequence,
            request_id: self.request_id,
            handle: self.handle,
            token: self.token@,
        }
    }
}

impl ClientView {
    /// With one more call made.
    pub open spec fn calling(self) -> ClientView {
        ClientView { handle: numbered(self.handle, 1), ..self }
    }

    /// The header of the last call made, at `now`.
    pub open spec fn header(self, now: i64) -> RequestHeaderView {
        RequestHeaderView {
            token: self.token,
            timestamp: now,
            handle: self.handle,
            timeout_hint: TIMEOUT_HINT,
        }
    }

    /// With the limits that the server acknowledges with.
    pub open spec fn limited(self, acknowledge: Acknowledge) -> ClientView {
        ClientView {
            chunk: (acknowledge.limits.receive_buffer - CHUNK_OVERHEAD) as usize,
            ..self
        }
    }

    /// On the channel that was opened.
    pub open spec fn on_channel(self, opened: ChannelOpened) -> ClientView {
        ClientView { channel_id: opened.channel_id, token_id: opened.token_id, ..self }
    }

    /// In the session that was created, with the policy id to activate it
    /// under; or why there is none.
    pub open spec fn in_session(self, created: SessionCreatedView) -> std::result::Result<
        (ClientView, Seq<char>),
        Failure,
    > {
        match anonymous_under_none(created.endpoints) {
            Some(policy) => Ok((ClientView { token: created.token, ..self }, policy)),
            None => Err(
                permanent("the server offers no anonymous login under security policy None"@),
            ),
        }
    }

    /// The next call, for a channel.
    pub open spec fn opening(self, now: i64) -> Seq<u8> {
        open_channel_bytes(
            OpenChannelView { header: self.calling().header(now), requested_lifetime: LIFETIME },
        )
    }

    /// The next call, for a session on `endpoint_url`.
    pub open spec fn creating(self, endpoint_url: Seq<char>, now: i64) -> Seq<u8> {
        create_session_bytes(
            CreateSessionView {
                header: self.calling().header(now),
                endpoint_url,
                session_name: SESSION_NAME@,
            },
        )
    }

    /// The next call, with an identity under `policy_id`.
    pub open spec fn activating(self, policy_id: Seq<char>, now: i64) -> Seq<u8> {
        activate_session_bytes(
            ActivateSessionView { header: self.calling().header(now), policy_id },
        )
    }

    /// The next call, for the value of `node`.
    pub open spec fn reading(self, node: NodeIdView, now: i64) -> Seq<u8> {
        read_bytes(ReadView { header: self.calling().header(now), node })
    }

    /// The next call, with `bytes` for the value of `node`.
    pub open spec fn writing(self, node: NodeIdView, bytes: Seq<u8>, now: i64) -> Seq<u8> {
        write_bytes(
            WriteView {
                header: self.calling().header(now),
                node,
                value: DataValueView {
                    bytes: Some(bytes),
                    status: GOOD,
                    source_timestamp: Some(now),
                },
            },
        )
    }

    /// The next call, to close the session.
    pub open spec fn closing(self, now: i64) -> Seq<u8> {
        close_session_bytes(self.calling().header(now))
    }

    /// The next call, to close the channel.
    pub open spec fn leaving(self, now: i64) -> Seq<u8> {
        body_bytes(CLOSE_CHANNEL_REQUEST) + request_header_bytes(self.calling().header(now))
    }

    /// The next message sent.
    pub open spec fn message(self, kind: Seq<u8>, body: Seq<u8>) -> SecureView {
        SecureView {
            kind,
            channel_id: self.channel_id,
            token_id: self.token_id,
            sequence: self.sequence,
            request_id: numbered(self.request_id, 1),
            body,
        }
    }

    /// With `body` sent as a message of `kind`.
    pub open spec fn sent(self, kind: Seq<u8>, body: Seq<u8>) -> ClientView {
        let message = self.message(kind, body);
        ClientView {
            request_id: message.request_id,
            sequence: numbered(self.sequence, chunk_count(body.len(), piece_of(self.chunk))),
            ..self
        }
    }
}

/// A client that has said nothing yet.
pub open spec fn new_client() -> ClientView {
    ClientView {
        chunk: (65_535 - CHUNK_OVERHEAD) as usize,
        channel_id: 0,
        token_id: 0,
        sequence: 1,
        request_id: 0,
        handle: 0,
        token: NodeIdView::Numeric { namespace: 0, id: 0 },
    }
}

/// A hello to the server that `endpoint_url` names, with the limits this
/// side keeps to.
pub open spec fn first_hello(endpoint_url: Seq<char>) -> Seq<u8> {
    hello_bytes(
        HelloView {
            limits: Limits {
                receive_buffer: 65_535,
                send_buffer: 65_535,
                max_message: 0,
                max_chunks: 0,
            },
            endpoint_url,
        },
    )
}

/// That a client sent `body` as a message of `kind`: its chunks are appended
/// to what is sent, and the numbers behind it are used up. Where its size
/// cannot be said it is an error, of which only the request's number is left.
pub open spec fn sends(
    before: ClientView,
    after: ClientView,
    kind: Seq<u8>,
    body: Seq<u8>,
    out_before: Seq<u8>,
    out_after: Seq<u8>,
    result: Result<()>,
) -> bool {
    let message = before.message(kind, body);
    let piece = piece_of(before.chunk);
    if sendable(message, piece) {
        result is Ok && after == before.sent(kind, body) && out_after == out_before + chunks(
            message,
            message.sequence,
            body,
            piece,
        )
    } else {
        result matches Err(error) && error@ == permanent("a message longer than its size can say"@)
            && after == (ClientView { request_id: message.request_id, ..before }) && out_after
            == out_before
    }
}

/// An answer to another request than the last.
pub open spec fn not_awaited(answered: u32, awaited: u32) -> Failure {
    permanent(
        "an answer to request "@ + decimal(answered as nat) + " where "@ + decimal(awaited as nat)
            + " was awaited"@,
    )
}

/// Past the type of an answer, which must be `expected`; a service fault is
/// the error it carries.
pub open spec fn expected_body(body: Seq<u8>, expected: u32) -> Parsed<()> {
    body_type(body).and(
        |id: u32, rest: Seq<u8>|
            if id == SERVICE_FAULT {
                response_header(rest).and(
                    |header: ResponseHeader, rest: Seq<u8>|
                        Parsed::Failed(
                            status_failure("the server answered"@, header.result),
                            rest,
                        ),
                )
            } else if id != expected {
                Parsed::Failed(
                    permanent(
                        "a response of type "@ + decimal(id as nat) + " where "@ + decimal(
                            expected as nat,
                        ) + " was expected"@,
                    ),
                    rest,
                )
            } else {
                Parsed::Read((), rest)
            },
    )
}

/// Past the type of the answer to a client's last request.
pub open spec fn answer_to(client: ClientView, answer: SecureView, expected: u32) -> Parsed<()> {
    if answer.request_id != client.request_id {
        Parsed::Failed(not_awaited(answer.request_id, client.request_id), answer.body)
    } else {
        expected_body(answer.body, expected)
    }
}

/// A header's result, as a failure where it is not good.
pub open spec fn good_or(header: ResponseHeader, what: Seq<char>, rest: Seq<u8>) -> Parsed<()> {
    if header.result == GOOD {
        Parsed::Read((), rest)
    } else {
        Parsed::Failed(status_failure(what, header.result), rest)
    }
}

/// The answer to an open.
pub open spec fn channel_opened_answer(client: ClientView, answer: SecureView) -> Parsed<
    ChannelOpened,
> {
    answer_to(client, answer, OPEN_CHANNEL_RESPONSE).and(
        |past: (), rest: Seq<u8>|
    channel_opened(rest).and(
        |opened: ChannelOpened, rest: Seq<u8>|
    good_or(opened.header, "opening the channel"@, rest).and(
        |past: (), rest: Seq<u8>| Parsed::Read(opened, rest),
    )))
}

/// The answer to a create.
pub open spec fn session_created_answer(client: ClientView, answer: SecureView) -> Parsed<
    SessionCreatedView,
> {
    answer_to(client, answer, CREATE_SESSION_RESPONSE).and(
        |past: (), rest: Seq<u8>|
    session_created(rest).and(
        |created: SessionCreatedView, rest: Seq<u8>|
    good_or(created.header, "creating the session"@, rest).and(
        |past: (), rest: Seq<u8>| Parsed::Read(created, rest),
    )))
}

/// An answer that is a header alone.
pub open spec fn header_answer(
    client: ClientView,
    answer: SecureView,
    expected: u32,
    what: Seq<char>,
) -> Parsed<()> {
    answer_to(client, answer, expected).and(
        |past: (), rest: Seq<u8>|
    response_header(rest).and(
        |header: ResponseHeader, rest: Seq<u8>| good_or(header, what, rest),
    ))
}

/// The answer to an activate.
pub open spec fn session_activated_answer(client: ClientView, answer: SecureView) -> Parsed<()> {
    header_answer(client, answer, ACTIVATE_SESSION_RESPONSE, "activating the session"@)
}

/// The answer to a close of the session.
pub open spec fn session_closed_answer(client: ClientView, answer: SecureView) -> Parsed<()> {
    header_answer(client, answer, CLOSE_SESSION_RESPONSE, "closing the session"@)
}

/// The answer to a read.
pub open spec fn read_answer(client: ClientView, answer: SecureView) -> Parsed<DataValueView> {
    answer_to(client, answer, READ_RESPONSE).and(
        |past: (), rest: Seq<u8>|
    read_result(rest).and(
        |result: ReadResultView, rest: Seq<u8>|
    good_or(result.header, "reading"@, rest).and(
        |past: (), rest: Seq<u8>| Parsed::Read(result.value, rest),
    )))
}

/// The answer to a write: the call was served, and the node took the value.
pub open spec fn write_answer(client: ClientView, answer: SecureView) -> Parsed<()> {
    answer_to(client, answer, WRITE_RESPONSE).and(
        |past: (), rest: Seq<u8>|
    write_result(rest).and(
        |result: WriteResult, rest: Seq<u8>|
    good_or(result.header, "writing"@, rest).and(
        |past: (), rest: Seq<u8>|
            if result.status != GOOD {
                Parsed::Failed(
                    status_failure("the node refused the write"@, result.status),
                    rest,
                )
            } else {
                Parsed::Read((), rest)
            },
    )))
}

/// What the raw message behind a hello says: the server's limits, or why
/// there are none. An `ERR` is the status it names.
pub open spec fn acknowledge_answer(message: RawView) -> Parsed<Acknowledge> {
    if message.kind == ERROR@ {
        fault(message.body).and(
            |fault: FaultView, rest: Seq<u8>|
                Parsed::Failed(status_failure(fault.reason, fault.code), rest),
        )
    } else if message.kind != ACKNOWLEDGE@ {
        Parsed::Failed(
            permanent(text_of(message.kind) + " where the acknowledge was expected"@),
            message.body,
        )
    } else {
        acknowledge(message.body)
    }
}

/// A reader over the answer past its type, which must be `expected`;
/// a service fault is the error it carries.
fn expect<'a>(body: &'a [u8], expected: u32) -> (result: Result<Cursor<'a>>)
    ensures
        match (result, expected_body(body@, expected)) {
            (Ok(reader), Parsed::Read(_, rest)) => reader@ == rest,
            (Err(error), Parsed::Failed(failure, _)) => error@ == failure,
            _ => false,
        },
{
    let (id, mut reader) = type_of(body)?;
    if id == SERVICE_FAULT {
        let header = ResponseHeader::take(&mut reader)?;
        return Err(status_error("the server answered", header.result));
    }
    if id != expected {
        let mut message = "a response of type ".to_string();
        message.append(decimal_text(id as u64).as_str());
        message.append(" where ");
        message.append(decimal_text(expected as u64).as_str());
        message.append(" was expected");
        return Err(TransportError::permanent(message));
    }
    Ok(reader)
}

/// The header's result, as an error where it is not good.
fn good(header: &ResponseHeader, what: &str) -> (result: Result<()>)
    ensures
        header.result == GOOD ==> result is Ok,
        header.result != GOOD ==> (result matches Err(error) && error@ == status_failure(
            what@,
            header.result,
        )),
{
    if header.result == GOOD {
        Ok(())
    } else {
        Err(status_error(what, header.result))
    }
}

impl Client {
    /// A client that has said nothing yet.
    #[must_use]
    pub fn new() -> (client: Self)
        ensures
            client@ == new_client(),
    {
        Client {
            chunk: Limits::default().chunk_body(),
            channel_id: 0,
            token_id: 0,
            sequence: 1,
            request_id: 0,
            handle: 0,
            token: NodeId::numeric(0, 0),
        }
    }

    /// Say Hello to the server that `endpoint_url` names, on the way to an
    /// anonymous session there.
    ///
    /// # Errors
    /// Where the message's size cannot be said; nothing is sent then.
    pub fn connect(endpoint_url: &str, out: &mut Vec<u8>) -> (result: Result<Connecting>)
        ensures
            if first_hello(endpoint_url@).len() <= MAX_RAW_BODY {
                result matches Ok(connecting) && connecting@ == connecting_to(endpoint_url@)
                    && final(out)@ == old(out)@ + raw_bytes(
                    RawView {
                        kind: HELLO@,
                        is_final: FINAL,
                        body: first_hello(endpoint_url@),
                    },
                )
            } else {
                result matches Err(error) && error@ == permanent(
                    "a message longer than its size can say"@,
                ) && final(out)@ == old(out)@
            },
    {
        let client = Client::new();
        client.hello(endpoint_url, out)?;
        Ok(
            Connecting {
                client,
                endpoint_url: endpoint_url.to_string(),
                awaiting: Awaiting::Acknowledge,
            },
        )
    }

    /// Say Hello to the server that `endpoint_url` names.
    ///
    /// # Errors
    /// Where the message's size cannot be said; nothing is sent then.
    pub fn hello(&self, endpoint_url: &str, out: &mut Vec<u8>) -> (result: Result<()>)
        ensures
            ({
                let body = first_hello(endpoint_url@);
                if body.len() <= MAX_RAW_BODY {
                    result is Ok && final(out)@ == old(out)@ + raw_bytes(
                        RawView { kind: HELLO@, is_final: FINAL, body },
                    )
                } else {
                    result matches Err(error) && error@ == permanent(
                        "a message longer than its size can say"@,
                    ) && final(out)@ == old(out)@
                }
            }),
    {
        let hello = Hello { limits: Limits::default(), endpoint_url: endpoint_url.to_string() };
        write_raw(out, HELLO, FINAL, hello.to_bytes().as_slice())
    }

    /// Take what came back of Hello: the server's limits.
    ///
    /// # Errors
    /// Where the server closed with an error, answered with anything but an
    /// acknowledge, or its buffers are under the minimum.
    pub fn acknowledged(&mut self, message: &Raw) -> (result: Result<()>)
        ensures
            match acknowledge_answer(raw_view(*message)) {
                Parsed::Read(acknowledge, _) => result is Ok && final(self)@ == old(self)@.limited(
                    acknowledge,
                ),
                Parsed::Failed(failure, _) => result matches Err(error) && error@ == failure
                    && final(self)@ == old(self)@,
            },
    {
        let kind = message.0.as_slice();
        let body = message.2.as_slice();
        if same_bytes(kind, ERROR.as_slice()) {
            let fault = Fault::from_bytes(body)?;
            return Err(status_error(fault.reason.as_str(), fault.code));
        }
        if !same_bytes(kind, ACKNOWLEDGE.as_slice()) {
            let mut text = lossy(kind);
            text.append(" where the acknowledge was expected");
            return Err(TransportError::permanent(text));
        }
        let acknowledge = Acknowledge::from_bytes(body)?;
        self.chunk = acknowledge.limits.chunk_body();
        Ok(())
    }

    /// Ask for a channel under policy None.
    ///
    /// # Errors
    /// Where the message's size cannot be said; nothing is sent then.
    pub fn open_channel(&mut self, now: i64, out: &mut Vec<u8>) -> (result: Result<()>)
        ensures
            sends(
                old(self)@.calling(),
                final(self)@,
                OPEN@,
                old(self)@.opening(now),
                old(out)@,
                final(out)@,
                result,
            ),
    {
        let request = OpenChannel { header: self.header(now), requested_lifetime: LIFETIME };
        self.send(OPEN, request.to_bytes(), out)
    }

    /// Take the channel that was opened.
    ///
    /// # Errors
    /// Where the answer is to another request, or refuses the channel.
    pub fn channel_opened(&mut self, answer: &Secure) -> (result: Result<()>)
        ensures
            match channel_opened_answer(old(self)@, answer@) {
                Parsed::Read(opened, _) => result is Ok && final(self)@ == old(self)@.on_channel(
                    opened,
                ),
                Parsed::Failed(failure, _) => result matches Err(error) && error@ == failure
                    && final(self)@ == old(self)@,
            },
    {
        let mut reader = self.answered(answer, OPEN_CHANNEL_RESPONSE)?;
        let opened = ChannelOpened::take(&mut reader)?;
        good(&opened.header, "opening the channel")?;
        self.channel_id = opened.channel_id;
        self.token_id = opened.token_id;
        Ok(())
    }

    /// Ask for a session on `endpoint_url`.
    ///
    /// # Errors
    /// Where the message's size cannot be said; nothing is sent then.
    pub fn create_session(&mut self, endpoint_url: &str, now: i64, out: &mut Vec<u8>) -> (result:
        Result<()>)
        ensures
            sends(
                old(self)@.calling(),
                final(self)@,
                MESSAGE@,
                old(self)@.creating(endpoint_url@, now),
                old(out)@,
                final(out)@,
                result,
            ),
    {
        let request = CreateSession {
            header: self.header(now),
            endpoint_url: endpoint_url.to_string(),
            session_name: SESSION_NAME.to_string(),
        };
        self.send(MESSAGE, request.to_bytes(), out)
    }

    /// Take the session that was created; the policy id to activate it under
    /// comes back.
    ///
    /// # Errors
    /// Where the answer is to another request, refuses the session, or
    /// offers no anonymous login under policy None.
    pub fn session_created(&mut self, answer: &Secure) -> (result: Result<String>)
        ensures
            match session_created_answer(old(self)@, answer@) {
                Parsed::Read(created, _) => match old(self)@.in_session(created) {
                    Ok((client, policy)) => result matches Ok(found) && found@ == policy
                        && final(self)@ == client,
                    Err(failure) => result matches Err(error) && error@ == failure && final(self)@
                        == old(self)@,
                },
                Parsed::Failed(failure, _) => result matches Err(error) && error@ == failure
                    && final(self)@ == old(self)@,
            },
    {
        let mut reader = self.answered(answer, CREATE_SESSION_RESPONSE)?;
        let created = SessionCreated::take(&mut reader)?;
        good(&created.header, "creating the session")?;
        let policy = created.anonymous_policy()?.to_string();
        self.token = created.token;
        Ok(policy)
    }

    /// Present an anonymous identity under `policy_id`.
    ///
    /// # Errors
    /// Where the message's size cannot be said; nothing is sent then.
    pub fn activate_session(&mut self, policy_id: &str, now: i64, out: &mut Vec<u8>) -> (result:
        Result<()>)
        ensures
            sends(
                old(self)@.calling(),
                final(self)@,
                MESSAGE@,
                old(self)@.activating(policy_id@, now),
                old(out)@,
                final(out)@,
                result,
            ),
    {
        let request = ActivateSession {
            header: self.header(now),
            policy_id: policy_id.to_string(),
        };
        self.send(MESSAGE, request.to_bytes(), out)
    }

    /// Take that the session was activated.
    ///
    /// # Errors
    /// Where the answer is to another request, or refuses the identity.
    pub fn session_activated(&self, answer: &Secure) -> (result: Result<()>)
        ensures
            agrees_body(result, session_activated_answer(self@, answer@)),
    {
        let mut reader = self.answered(answer, ACTIVATE_SESSION_RESPONSE)?;
        let header = ResponseHeader::take(&mut reader)?;
        good(&header, "activating the session")
    }

    /// Ask for the value of `node`.
    ///
    /// # Errors
    /// Where the message's size cannot be said; nothing is sent then.
    pub fn read(&mut self, node: &NodeId, now: i64, out: &mut Vec<u8>) -> (result: Result<()>)
        ensures
            sends(
                old(self)@.calling(),
                final(self)@,
                MESSAGE@,
                old(self)@.reading(node@, now),
                old(out)@,
                final(out)@,
                result,
            ),
    {
        let request = Read { header: self.header(now), node: node.clone() };
        self.send(MESSAGE, request.to_bytes(), out)
    }

    /// Take the value that was read, with its status and source timestamp.
    ///
    /// # Errors
    /// Where the answer is to another request, the server refused the read,
    /// or the value is not bytes.
    pub fn read_answer(&self, answer: &Secure) -> (result: Result<DataValue>)
        ensures
            agrees_body(result, read_answer(self@, answer@)),
    {
        let mut reader = self.answered(answer, READ_RESPONSE)?;
        let result = ReadResult::take(&mut reader)?;
        good(&result.header, "reading")?;
        Ok(result.value)
    }

    /// Write `bytes` as the value of `node`, stamped `now`.
    ///
    /// # Errors
    /// Where the message's size cannot be said; nothing is sent then.
    pub fn write(&mut self, node: &NodeId, bytes: &[u8], now: i64, out: &mut Vec<u8>) -> (result:
        Result<()>)
        ensures
            sends(
                old(self)@.calling(),
                final(self)@,
                MESSAGE@,
                old(self)@.writing(node@, bytes@, now),
                old(out)@,
                final(out)@,
                result,
            ),
    {
        let request = Write {
            header: self.header(now),
            node: node.clone(),
            value: DataValue::bytes_at(bytes, now),
        };
        self.send(MESSAGE, request.to_bytes(), out)
    }

    /// Take that the value was written.
    ///
    /// # Errors
    /// Where the answer is to another request, the server refused the write,
    /// or the node did not take it.
    pub fn write_answer(&self, answer: &Secure) -> (result: Result<()>)
        ensures
            agrees_body(result, write_answer(self@, answer@)),
    {
        let mut reader = self.answered(answer, WRITE_RESPONSE)?;
        let result = WriteResult::take(&mut reader)?;
        good(&result.header, "writing")?;
        if result.status != GOOD {
            return Err(status_error("the node refused the write", result.status));
        }
        Ok(())
    }

    /// Close the session.
    ///
    /// # Errors
    /// Where the message's size cannot be said; nothing is sent then.
    pub fn close_session(&mut self, now: i64, out: &mut Vec<u8>) -> (result: Result<()>)
        ensures
            sends(
                old(self)@.calling(),
                final(self)@,
                MESSAGE@,
                old(self)@.closing(now),
                old(out)@,
                final(out)@,
                result,
            ),
    {
        let header = self.header(now);
        self.send(MESSAGE, close_session(&header), out)
    }

    /// Take that the session was closed.
    ///
    /// # Errors
    /// Where the answer is to another request, or refuses the close.
    pub fn session_closed(&self, answer: &Secure) -> (result: Result<()>)
        ensures
            agrees_body(result, session_closed_answer(self@, answer@)),
    {
        let mut reader = self.answered(answer, CLOSE_SESSION_RESPONSE)?;
        let header = ResponseHeader::take(&mut reader)?;
        good(&header, "closing the session")
    }

    /// Close the channel, which is not answered.
    ///
    /// # Errors
    /// Where the message's size cannot be said; nothing is sent then.
    pub fn close_channel(&mut self, now: i64, out: &mut Vec<u8>) -> (result: Result<()>)
        ensures
            sends(
                old(self)@.calling(),
                final(self)@,
                CLOSE@,
                old(self)@.leaving(now),
                old(out)@,
                final(out)@,
                result,
            ),
    {
        let header = self.header(now);
        self.send(CLOSE, close_channel(&header), out)
    }

    fn header(&mut self, now: i64) -> (header: RequestHeader)
        ensures
            final(self)@ == old(self)@.calling(),
            header@ == old(self)@.calling().header(now),
    {
        self.handle = self.handle.wrapping_add(1);
        RequestHeader {
            token: self.token.clone(),
            timestamp: now,
            handle: self.handle,
            timeout_hint: TIMEOUT_HINT,
        }
    }

    fn send(&mut self, kind: [u8; 3], body: Vec<u8>, out: &mut Vec<u8>) -> (result: Result<()>)
        ensures
            sends(
                old(self)@,
                final(self)@,
                kind@,
                body@,
                old(out)@,
                final(out)@,
                result,
            ),
    {
        self.request_id = self.request_id.wrapping_add(1);
        let message = Secure {
            kind,
            channel_id: self.channel_id,
            token_id: self.token_id,
            sequence: self.sequence,
            request_id: self.request_id,
            body,
        };
        self.sequence = write_secure(out, &message, self.chunk)?;
        Ok(())
    }

    /// The answer to the last request, matched by request id, past its type.
    fn answered<'a>(&self, answer: &'a Secure, expected: u32) -> (result: Result<Cursor<'a>>)
        ensures
            match (result, answer_to(self@, answer@, expected)) {
                (Ok(reader), Parsed::Read(_, rest)) => reader@ == rest,
                (Err(error), Parsed::Failed(failure, _)) => error@ == failure,
                _ => false,
            },
    {
        if answer.request_id != self.request_id {
            let mut message = "an answer to request ".to_string();
            message.append(decimal_text(answer.request_id as u64).as_str());
            message.append(" where ");
            message.append(decimal_text(self.request_id as u64).as_str());
            message.append(" was awaited");
            return Err(TransportError::permanent(message));
        }
        expect(answer.body.as_slice(), expected)
    }
}

/// What a client that is connecting waits for.
#[derive(Clone, Copy, Debug, PartialEq, Eq)]
pub enum Awaiting {
    /// What comes back of Hello.
    Acknowledge,
    /// The channel it asked for.
    Channel,
    /// The session it asked for.
    Session,
    /// That its identity was taken.
    Activation,
    /// Nothing more: it is connected.
    Nothing,
}

/// A client on its way to an activated session.
pub struct Connecting {
    client: Client,
    endpoint_url: String,
    awaiting: Awaiting,
}

/// How far a [`Connecting`] client is.
pub struct ConnectingView {
    pub client: ClientView,
    pub endpoint_url: Seq<char>,
    pub awaiting: Awaiting,
}

impl View for Connecting {
    type V = ConnectingView;

    closed spec fn view(&self) -> ConnectingView {
        ConnectingView {
            client: self.client@,
            endpoint_url: self.endpoint_url@,
            awaiting: self.awaiting,
        }
    }
}

/// That a step of connecting asked for the next thing: `client` sent `body`,
/// and waits for `next` where it could be sent.
pub open spec fn asks_next(
    before: ConnectingView,
    after: ConnectingView,
    client: ClientView,
    kind: Seq<u8>,
    body: Seq<u8>,
    next: Awaiting,
    out_before: Seq<u8>,
    out_after: Seq<u8>,
    result: Result<()>,
) -> bool {
    &&& sends(client.calling(), after.client, kind, body, out_before, out_after, result)
    &&& after.endpoint_url == before.endpoint_url
    &&& after.awaiting == if result is Ok {
        next
    } else {
        before.awaiting
    }
}

/// That a step of connecting failed with `failure`, and changed nothing.
pub open spec fn stays(
    before: ConnectingView,
    after: ConnectingView,
    failure: Failure,
    out_before: Seq<u8>,
    out_after: Seq<u8>,
    result: Result<()>,
) -> bool {
    result matches Err(error) && error@ == failure && after == before && out_after == out_before
}

/// A message where none, or another, was awaited.
pub open spec fn unawaited() -> Failure {
    permanent("a message that was not awaited"@)
}

/// What a step of connecting comes to: the next thing asked for, and by which
/// client; nothing more to ask; or a failure.
pub enum StepView {
    Asks(ClientView, Seq<u8>, Seq<u8>, Awaiting),
    Connected,
    Failed(Failure),
}

/// A client that says Hello to the server that `endpoint_url` names.
pub open spec fn connecting_to(endpoint_url: Seq<char>) -> ConnectingView {
    ConnectingView { client: new_client(), endpoint_url, awaiting: Awaiting::Acknowledge }
}

impl ConnectingView {
    /// What a raw message comes to: where it acknowledges, a channel is asked
    /// for.
    pub open spec fn past_acknowledge(self, message: RawView, now: i64) -> StepView {
        if self.awaiting != Awaiting::Acknowledge {
            StepView::Failed(unawaited())
        } else {
            match acknowledge_answer(message) {
                Parsed::Failed(failure, _) => StepView::Failed(failure),
                Parsed::Read(acknowledge, _) => {
                    let client = self.client.limited(acknowledge);
                    StepView::Asks(client, OPEN@, client.opening(now), Awaiting::Channel)
                },
            }
        }
    }

    /// What an answer comes to: on a channel a session is asked for, in a
    /// session that it be activated, and then nothing more.
    pub open spec fn past_answer(self, answer: SecureView, now: i64) -> StepView {
        match self.awaiting {
            Awaiting::Channel => match channel_opened_answer(self.client, answer) {
                Parsed::Failed(failure, _) => StepView::Failed(failure),
                Parsed::Read(opened, _) => {
                    let client = self.client.on_channel(opened);
                    StepView::Asks(
                        client,
                        MESSAGE@,
                        client.creating(self.endpoint_url, now),
                        Awaiting::Session,
                    )
                },
            },
            Awaiting::Session => match session_created_answer(self.client, answer) {
                Parsed::Failed(failure, _) => StepView::Failed(failure),
                Parsed::Read(created, _) => match self.client.in_session(created) {
                    Err(failure) => StepView::Failed(failure),
                    Ok((client, policy_id)) => StepView::Asks(
                        client,
                        MESSAGE@,
                        client.activating(policy_id, now),
                        Awaiting::Activation,
                    ),
                },
            },
            Awaiting::Activation => match session_activated_answer(self.client, answer) {
                Parsed::Failed(failure, _) => StepView::Failed(failure),
                Parsed::Read(_, _) => StepView::Connected,
            },
            _ => StepView::Failed(unawaited()),
        }
    }

    /// The client, once it is connected.
    pub open spec fn connected(self) -> Option<ClientView> {
        if self.awaiting is Nothing {
            Some(self.client)
        } else {
            None
        }
    }
}

/// That a step of connecting came to `step`: what it asks for was sent, or
/// nothing was.
pub open spec fn steps(
    before: ConnectingView,
    after: ConnectingView,
    step: StepView,
    out_before: Seq<u8>,
    out_after: Seq<u8>,
    result: Result<()>,
) -> bool {
    match step {
        StepView::Asks(client, kind, body, next) => asks_next(
            before,
            after,
            client,
            kind,
            body,
            next,
            out_before,
            out_after,
            result,
        ),
        StepView::Connected => result is Ok && out_after == out_before && after == (
        ConnectingView { awaiting: Awaiting::Nothing, ..before }),
        StepView::Failed(failure) => stays(before, after, failure, out_before, out_after, result),
    }
}

impl Connecting {
    /// What is awaited: a raw message, a secure one, or nothing more.
    #[must_use]
    pub fn awaiting(&self) -> (awaiting: Awaiting)
        ensures
            awaiting == self@.awaiting,
    {
        self.awaiting
    }

    /// Take what came back of Hello, and ask for a channel.
    ///
    /// # Errors
    /// Where the server closed with an error, or did not acknowledge; or
    /// where it did before.
    pub fn acknowledged(&mut self, message: &Raw, now: i64, out: &mut Vec<u8>) -> (result: Result<
        (),
    >)
        ensures
            steps(
                old(self)@,
                final(self)@,
                old(self)@.past_acknowledge(raw_view(*message), now),
                old(out)@,
                final(out)@,
                result,
            ),
    {
        if !matches!(self.awaiting, Awaiting::Acknowledge) {
            return Err(protocol_error("a message that was not awaited"));
        }
        self.client.acknowledged(message)?;
        self.client.open_channel(now, out)?;
        self.awaiting = Awaiting::Channel;
        Ok(())
    }

    /// Take the answer to what was last asked, and ask for what comes next:
    /// a session on the channel, then that it be activated.
    ///
    /// # Errors
    /// Where the answer is to another request or refuses what was asked, the
    /// server offers no anonymous login under policy None, or no answer was
    /// awaited.
    pub fn answered(&mut self, answer: &Secure, now: i64, out: &mut Vec<u8>) -> (result: Result<()>)
        ensures
            steps(
                old(self)@,
                final(self)@,
                old(self)@.past_answer(answer@, now),
                old(out)@,
                final(out)@,
                result,
            ),
    {
        match self.awaiting {
            Awaiting::Channel => {
                self.client.channel_opened(answer)?;
                self.client.create_session(self.endpoint_url.as_str(), now, out)?;
                self.awaiting = Awaiting::Session;
                Ok(())
            },
            Awaiting::Session => {
                let policy = self.client.session_created(answer)?;
                self.client.activate_session(policy.as_str(), now, out)?;
                self.awaiting = Awaiting::Activation;
                Ok(())
            },
            Awaiting::Activation => {
                self.client.session_activated(answer)?;
                self.awaiting = Awaiting::Nothing;
                Ok(())
            },
            _ => Err(protocol_error("a message that was not awaited")),
        }
    }

    /// The client, once it is connected.
    pub fn connected(self) -> (client: Option<Client>)
        ensures
            held(client) == self@.connected(),
    {
        match self.awaiting {
            Awaiting::Nothing => Some(self.client),
            _ => None,
        }
    }
}

} // verus!
