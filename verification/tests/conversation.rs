use std::time::Duration;

use opc_ua::attribute::{Read, Write, WRITE_REQUEST};
use opc_ua::channel::{
    expect_raw, expect_secure, read_secure, write_raw, write_secure, Acknowledge, Fault, Hello,
    Limits, Raw, Secure, ACKNOWLEDGE, CLOSE, ERROR, HELLO, MESSAGE, OPEN,
};
use opc_ua::client::Awaiting;
use opc_ua::codec::{ByteWriter, Cursor};
use opc_ua::endpoint::{ActivateSession, CreateSession};
use opc_ua::service::{
    body, close_channel, type_of, OpenChannel, RequestHeader, ResponseHeader,
    BAD_SECURE_CHANNEL_ID_INVALID, BAD_SERVICE_UNSUPPORTED, BAD_SESSION_ID_INVALID,
    BAD_SESSION_NOT_ACTIVATED, CLOSE_CHANNEL_REQUEST, SERVICE_FAULT,
};
use opc_ua::transport::split;
use opc_ua::wire::{now, UaBinaryWrite};
use opc_ua::{Arrived, Client, DataValue, Event, NodeId, OpcUaTransport, Session};

const MAX: usize = 1 << 24;

fn secs(n: u64) -> Duration {
    Duration::from_secs(n)
}

fn node() -> NodeId {
    NodeId::string(2, "Orders")
}

fn raw(bytes: &[u8]) -> Raw {
    let mut input = Cursor::new(bytes);
    let message = expect_raw(&mut input, MAX).expect("a raw message");
    assert!(input.remaining().is_empty());
    message
}

fn secure(bytes: &[u8]) -> Secure {
    let mut input = Cursor::new(bytes);
    let message = expect_secure(&mut input, MAX).expect("a secure message");
    assert!(input.remaining().is_empty());
    message
}

/// The session's answer to what the client sent, and what the session saw.
fn serve(session: &mut Session, sent: &[u8]) -> (Secure, Event) {
    let mut out = Vec::new();
    let event = session
        .next_event(&secure(sent), now(), &mut out)
        .expect("served");
    (secure(&out), event)
}

/// A client with its channel open.
fn open(session: &mut Session, endpoint: &str) -> Client {
    let mut client = Client::new();
    let mut sent = Vec::new();
    client.hello(endpoint, &mut sent).expect("hello");
    let mut answer = Vec::new();
    session.hello(&raw(&sent), &mut answer).expect("greeted");
    client.acknowledged(&raw(&answer)).expect("acknowledged");
    let mut sent = Vec::new();
    client.open_channel(now(), &mut sent).expect("open");
    let mut answer = Vec::new();
    session
        .open_channel(&secure(&sent), now(), &mut answer)
        .expect("opened");
    client.channel_opened(&secure(&answer)).expect("channel");
    client
}

/// A client with its session activated, and what the session saw.
fn connect(session: &mut Session, endpoint: &str) -> (Client, Vec<Event>) {
    let mut client = open(session, endpoint);
    let mut sent = Vec::new();
    client.create_session(endpoint, now(), &mut sent).expect("create");
    let (answer, created) = serve(session, &sent);
    let policy = client.session_created(&answer).expect("created");
    let mut sent = Vec::new();
    client.activate_session(&policy, now(), &mut sent).expect("activate");
    let (answer, activated) = serve(session, &sent);
    client.session_activated(&answer).expect("activated");
    (client, vec![created, activated])
}

fn read(client: &mut Client, session: &mut Session, node: &NodeId) -> (DataValue, Event) {
    let mut sent = Vec::new();
    client.read(node, now(), &mut sent).expect("read");
    let (answer, event) = serve(session, &sent);
    (client.read_answer(&answer).expect("value"), event)
}

fn write(client: &mut Client, session: &mut Session, node: &NodeId, bytes: &[u8]) -> Event {
    let mut sent = Vec::new();
    client.write(node, bytes, now(), &mut sent).expect("write");
    let (answer, event) = serve(session, &sent);
    client.write_answer(&answer).expect("written");
    event
}

fn close(client: &mut Client, session: &mut Session) -> Vec<Event> {
    let mut sent = Vec::new();
    client.close_session(now(), &mut sent).expect("close");
    let (answer, closed) = serve(session, &sent);
    client.session_closed(&answer).expect("closed");
    let mut sent = Vec::new();
    client.close_channel(now(), &mut sent).expect("close");
    let mut out = Vec::new();
    let gone = session
        .next_event(&secure(&sent), now(), &mut out)
        .expect("gone");
    assert!(out.is_empty(), "a close is not answered");
    vec![closed, gone]
}

/// One payload from the near end of a pair to its far end.
fn round(pair: &OpcUaTransport, payload: &[u8]) -> Arrived {
    let mut session = Session::new("127.0.0.1:50000", 7);
    let near = pair.near_end("127.0.0.1:4840", secs(1));
    let (endpoint, node) = near.resolve(&pair.node().to_string()).expect("target");
    let (mut client, _) = connect(&mut session, &endpoint);
    let arrived = write(&mut client, &mut session, &node, payload)
        .written()
        .expect("a Stream");
    close(&mut client, &mut session);
    arrived
}

#[test]
fn the_loopback_writes_one_value_and_takes_it_in_chunks_where_long() {
    let pair = OpcUaTransport::loopback(secs(1));
    let arrived = round(&pair, b"ISA*00*");
    assert_eq!(arrived.bytes, b"ISA*00*");
    assert!(arrived.origin_uri.starts_with("opc-ua://127.0.0.1:"));
    assert!(arrived.origin_uri.ends_with("#ns=2;s=Probe"));
    let long: Vec<u8> = (0..200_000u32).map(|n| (n % 251) as u8).collect();
    assert_eq!(round(&pair, &long).bytes, long);
    assert_eq!(pair.name(), "opc-ua");
}

#[test]
fn the_loopback_returns_the_edge_payloads_whole() {
    let pair = OpcUaTransport::loopback(secs(1));
    for (name, payload) in [
        ("empty", Vec::new()),
        ("one byte", vec![0u8]),
        ("every byte", (0..=255u8).collect()),
        ("not text", vec![0xff, 0xfe, 0x80, 0xc3]),
        ("line ends", b"\r\n\r\n\n".to_vec()),
        ("a chunk less one", vec![1; 65_510]),
        ("a chunk", vec![2; 65_511]),
        ("a chunk and one", vec![3; 65_512]),
        ("a mebibyte", vec![4; 1 << 20]),
    ] {
        assert_eq!(round(&pair, &payload).bytes, payload, "{name}");
    }
}

#[test]
fn a_receive_reads_the_node_and_a_send_writes_the_node_the_target_names() {
    let endpoint = "opc.tcp://127.0.0.1:4840/plant";
    let near = OpcUaTransport::new(endpoint, node()).timing_out_after(secs(2));
    let mut session = Session::new("127.0.0.1:50001", 1)
        .with_values(vec![(node(), b"ISA*00*".to_vec())], now());
    let (mut client, mut events) = connect(&mut session, near.endpoint());
    assert!(session.endpoint_url().ends_with("/plant"));
    let (value, event) = read(&mut client, &mut session, near.node());
    events.push(event);
    events.extend(close(&mut client, &mut session));
    let read_back = near.received(value).expect("received");
    assert_eq!(events[0], Event::SessionCreated("xmip".to_string()));
    assert_eq!(events[1], Event::SessionActivated("anonymous".to_string()));
    assert_eq!(events[2], Event::Read(node()));
    assert_eq!(events[3], Event::SessionClosed);
    assert_eq!(events[4], Event::Closed);
    let mut session = Session::new("127.0.0.1:50002", 2);
    let (target, recipe) = near
        .resolve(&format!("{endpoint}#ns=2;s=Recipe"))
        .expect("target");
    let (mut client, _) = connect(&mut session, &target);
    let written = write(&mut client, &mut session, &recipe, b"\0\xff")
        .written()
        .expect("one");
    assert_eq!(written.bytes, b"\0\xff");
    assert!(written.origin_uri.ends_with("#ns=2;s=Recipe"));
    assert_eq!(
        session.value(&NodeId::string(2, "Recipe")),
        Some(&b"\0\xff"[..])
    );
    let mut session = Session::new("127.0.0.1:50003", 3);
    let unknown = OpcUaTransport::new(endpoint, NodeId::string(2, "Unknown"));
    let (mut client, _) = connect(&mut session, endpoint);
    let (value, _) = read(&mut client, &mut session, unknown.node());
    assert_eq!(read_back.len(), 1);
    assert_eq!(read_back[0].bytes, b"ISA*00*");
    assert!(read_back[0].origin_uri.starts_with("opc-ua://127.0.0.1:"));
    assert!(read_back[0].origin_uri.contains("/plant#ns=2;s=Orders?source="));
    let error = unknown.received(value).expect_err("an unknown node is refused");
    assert!(error.message.contains("no such node"), "{}", error.message);
    assert!(!error.retryable);
}

#[test]
fn a_bad_target_another_policy_and_a_call_before_the_session_are_refused() {
    let far_end =
        OpcUaTransport::new("opc.tcp://127.0.0.1:0/plant", node()).timing_out_after(secs(2));
    assert!(far_end.resolve("Orders").is_err());
    assert!(
        far_end.resolve("opc.tcp://h:4840/plant").is_err(),
        "no node"
    );
    assert_eq!(
        far_end.resolve("i=2253").expect("bare"),
        (
            "opc.tcp://127.0.0.1:0/plant".to_string(),
            NodeId::numeric(0, 2253)
        )
    );
    assert!(split(OpcUaTransport::new("http://h/", node()).endpoint()).is_err());
    let mut session = Session::new("127.0.0.1:50004", 4);
    let hello = Hello {
        limits: Limits::default(),
        endpoint_url: "opc.tcp://127.0.0.1:4840/plant".to_string(),
    };
    let mut wire = Vec::new();
    write_raw(&mut wire, HELLO, b'F', &hello.to_bytes()).expect("hello");
    let mut ack = Vec::new();
    session.hello(&raw(&wire), &mut ack).expect("ack");
    assert_eq!(raw(&ack).0, ACKNOWLEDGE);
    let open = OpenChannel {
        header: RequestHeader::new(NodeId::numeric(0, 0), 1, 1000),
        requested_lifetime: 1000,
    };
    let message = Secure {
        kind: OPEN,
        channel_id: 0,
        token_id: 0,
        sequence: 1,
        request_id: 1,
        body: open.to_bytes(),
    };
    let mut wire = Vec::new();
    write_secure(&mut wire, &message, 4096).expect("open");
    let mut answer = Vec::new();
    session
        .open_channel(&secure(&wire), now(), &mut answer)
        .expect("opened");
    let opened = secure(&answer);
    let read = Read {
        header: RequestHeader::new(NodeId::numeric(0, 0), 2, 1000),
        node: node(),
    };
    let message = Secure {
        kind: MESSAGE,
        channel_id: opened.channel_id,
        token_id: opened.token_id,
        sequence: 2,
        request_id: 2,
        body: read.to_bytes(),
    };
    let mut wire = Vec::new();
    write_secure(&mut wire, &message, 4096).expect("read");
    let (answer, _) = serve(&mut session, &wire);
    let (id, mut reader) = type_of(&answer.body).expect("type");
    assert_eq!(
        (
            id,
            ResponseHeader::take(&mut reader).expect("header").result
        ),
        (SERVICE_FAULT, BAD_SESSION_ID_INVALID)
    );
}

/// What a session answers to one call on its own channel: the status of its
/// fault, and what it saw.
fn fault_of(session: &mut Session, channel_id: u32, call: Vec<u8>) -> (u32, Event) {
    let request = Secure {
        kind: MESSAGE,
        channel_id,
        token_id: 1,
        sequence: 9,
        request_id: 9,
        body: call,
    };
    let mut out = Vec::new();
    let event = session
        .next_event(&request, now(), &mut out)
        .expect("answered");
    let answer = secure(&out);
    assert_eq!(answer.request_id, 9);
    let (id, mut reader) = type_of(&answer.body).expect("type");
    assert_eq!(id, SERVICE_FAULT);
    let header = ResponseHeader::take(&mut reader).expect("header");
    assert_eq!(header.handle, 0);
    (header.result, event)
}

#[test]
fn a_written_value_is_served_back_and_other_nodes_keep_theirs() {
    let other = NodeId::string(2, "Other");
    let mut session = Session::new("10.0.0.1:1", 1)
        .with_values(vec![(other.clone(), b"kept".to_vec())], 77);
    let (mut client, _) = connect(&mut session, "opc.tcp://h/p");
    let mut sent = Vec::new();
    client.write(&node(), b"first", 1234, &mut sent).expect("write");
    let (answer, event) = serve(&mut session, &sent);
    client.write_answer(&answer).expect("written");
    assert_eq!(
        event,
        Event::Written(Arrived {
            origin_uri: "opc-ua://10.0.0.1:1#ns=2;s=Orders".to_string(),
            bytes: b"first".to_vec(),
        })
    );
    let (value, _) = read(&mut client, &mut session, &node());
    assert_eq!(value, DataValue::bytes_at(b"first", 1234));
    write(&mut client, &mut session, &node(), b"second");
    assert_eq!(session.value(&node()), Some(&b"second"[..]));
    let (value, _) = read(&mut client, &mut session, &other);
    assert_eq!(value, DataValue::bytes_at(b"kept", 77));
    assert_eq!(session.value(&NodeId::numeric(0, 1)), None);
}

#[test]
fn calls_off_the_activated_session_are_refused_and_change_nothing() {
    let mut session = Session::new("peer", 5);
    let mut client = open(&mut session, "opc.tcp://h/p");
    let token = NodeId::string(0, "xmip-session-5");
    let header = |token: &NodeId| RequestHeader::new(token.clone(), 2, 1000);
    let write_call = |token: &NodeId| {
        Write {
            header: header(token),
            node: node(),
            value: DataValue::bytes(b"x"),
        }
        .to_bytes()
    };
    assert_eq!(
        fault_of(&mut session, 5, write_call(&token)),
        (BAD_SESSION_ID_INVALID, Event::Faulted(BAD_SESSION_ID_INVALID))
    );
    let mut sent = Vec::new();
    client.create_session("opc.tcp://h/p", now(), &mut sent).expect("create");
    let (answer, _) = serve(&mut session, &sent);
    assert_eq!(client.session_created(&answer).expect("created"), "anonymous");
    assert_eq!(
        fault_of(&mut session, 5, write_call(&token)),
        (
            BAD_SESSION_NOT_ACTIVATED,
            Event::Faulted(BAD_SESSION_NOT_ACTIVATED)
        )
    );
    let activate = |policy: &str, token: &NodeId| {
        ActivateSession {
            header: header(token),
            policy_id: policy.to_string(),
        }
        .to_bytes()
    };
    assert_eq!(
        fault_of(&mut session, 5, activate("user", &token)).0,
        0x8021_0000
    );
    assert_eq!(
        fault_of(&mut session, 5, activate("anonymous", &NodeId::numeric(0, 0))).0,
        BAD_SESSION_ID_INVALID
    );
    let mut sent = Vec::new();
    client.activate_session("anonymous", now(), &mut sent).expect("activate");
    let (answer, _) = serve(&mut session, &sent);
    client.session_activated(&answer).expect("activated");
    assert_eq!(
        fault_of(&mut session, 5, write_call(&NodeId::string(0, "xmip-session-6"))),
        (BAD_SESSION_ID_INVALID, Event::Faulted(BAD_SESSION_ID_INVALID))
    );
    assert_eq!(session.value(&node()), None);
    close(&mut client, &mut session);
    assert_eq!(
        fault_of(&mut session, 5, write_call(&token)).0,
        BAD_SESSION_ID_INVALID
    );
}

#[test]
fn other_services_and_calls_that_cannot_be_read_are_unsupported() {
    let mut session = Session::new("peer", 5);
    open(&mut session, "opc.tcp://h/p");
    for call in [body(527), Vec::new(), body(631), b"\x03garbage".to_vec()] {
        assert_eq!(
            fault_of(&mut session, 5, call),
            (
                BAD_SERVICE_UNSUPPORTED,
                Event::Faulted(BAD_SERVICE_UNSUPPORTED)
            )
        );
    }
}

#[test]
fn a_null_value_is_refused_as_not_of_the_type() {
    let mut session = Session::new("peer", 5);
    let (client, _) = connect(&mut session, "opc.tcp://h/p");
    let call = Write {
        header: RequestHeader::new(NodeId::string(0, "xmip-session-5"), 2, 1000),
        node: node(),
        value: DataValue {
            bytes: None,
            status: 0,
            source_timestamp: None,
        },
    };
    let request = Secure {
        kind: MESSAGE,
        channel_id: 5,
        token_id: 1,
        sequence: 9,
        request_id: 3,
        body: call.to_bytes(),
    };
    let mut out = Vec::new();
    let event = session.next_event(&request, now(), &mut out).expect("answered");
    assert_eq!(event, Event::Refused(node()));
    let error = client.write_answer(&secure(&out)).expect_err("refused");
    assert_eq!(
        error.message,
        "the node refused the write: status 0x80740000, the value is not of the node's type"
    );
    assert_eq!(session.value(&node()), None);
}

#[test]
fn a_value_of_another_type_is_refused_as_not_of_the_type() {
    let mut session = Session::new("peer", 5);
    let (client, _) = connect(&mut session, "opc.tcp://h/p");
    let write_of = |token: &NodeId, value: &[u8]| {
        let mut call = body(WRITE_REQUEST);
        RequestHeader::new(token.clone(), 2, 1000).put(&mut call);
        call.i32_le(1);
        node().put(&mut call);
        call.u32_le(13).string(None).bytes(value);
        call
    };
    let token = NodeId::string(0, "xmip-session-5");
    for value in [
        &[0x01, 6, 1, 0, 0, 0][..],
        &[0x05, 11, 0, 0, 0, 0, 0, 0, 0xf8, 0x3f, 1, 0, 0, 0, 0, 0, 0, 0],
        &[0x01, 0],
        &[0x01, 0x8f, 1, 0, 0, 0, 0, 0, 0, 0],
    ] {
        let request = Secure {
            kind: MESSAGE,
            channel_id: 5,
            token_id: 1,
            sequence: 9,
            request_id: 3,
            body: write_of(&token, value),
        };
        let mut out = Vec::new();
        let event = session
            .next_event(&request, now(), &mut out)
            .expect("answered");
        assert_eq!(event, Event::Refused(node()));
        let error = client.write_answer(&secure(&out)).expect_err("refused");
        assert_eq!(
            error.message,
            "the node refused the write: status 0x80740000, the value is not of the node's type"
        );
        assert_eq!(session.value(&node()), None);
    }
    assert_eq!(
        fault_of(
            &mut session,
            5,
            write_of(&NodeId::numeric(0, 0), &[0x01, 6, 1, 0, 0, 0])
        ),
        (
            BAD_SESSION_ID_INVALID,
            Event::Faulted(BAD_SESSION_ID_INVALID)
        )
    );
    assert_eq!(
        fault_of(&mut session, 5, write_of(&token, &[0x01])).0,
        BAD_SERVICE_UNSUPPORTED
    );
}

#[test]
fn only_a_close_is_reported_as_closed() {
    let mut session = Session::new("peer", 5);
    open(&mut session, "opc.tcp://h/p");
    let mut request = Secure {
        kind: MESSAGE,
        channel_id: 5,
        token_id: 1,
        sequence: 9,
        request_id: 9,
        body: b"\xff".to_vec(),
    };
    let mut out = Vec::new();
    assert_eq!(
        session.next_event(&request, now(), &mut out).expect("event"),
        Event::Faulted(BAD_SERVICE_UNSUPPORTED)
    );
    request.kind = CLOSE;
    assert_eq!(
        session.next_event(&request, now(), &mut out).expect("event"),
        Event::Closed
    );
}

#[test]
fn a_node_is_read_the_same_until_it_is_written_again() {
    let unknown = NodeId::string(2, "Unknown");
    let mut session = Session::new("peer", 5);
    let (mut client, _) = connect(&mut session, "opc.tcp://h/p");
    let mut sent = Vec::new();
    client.write(&node(), b"b", 99, &mut sent).expect("write");
    serve(&mut session, &sent);
    for _ in 0..2 {
        let (value, event) = read(&mut client, &mut session, &node());
        assert_eq!(value, DataValue::bytes_at(b"b", 99));
        assert_eq!(event, Event::Read(node()));
        let (value, event) = read(&mut client, &mut session, &unknown);
        assert_eq!(
            value,
            DataValue {
                bytes: None,
                status: 0x8034_0000,
                source_timestamp: None,
            }
        );
        assert_eq!(event, Event::Read(unknown.clone()));
        write(&mut client, &mut session, &NodeId::numeric(2, 1), b"other");
    }
    assert_eq!(session.value(&unknown), None);
}

#[test]
fn the_last_session_created_decides_who_is_served() {
    let mut session = Session::new("peer", 5);
    let (mut client, _) = connect(&mut session, "opc.tcp://h/p");
    write(&mut client, &mut session, &node(), b"x");
    let mut sent = Vec::new();
    client.create_session("opc.tcp://h/p", now(), &mut sent).expect("create");
    let (answer, _) = serve(&mut session, &sent);
    let policy = client.session_created(&answer).expect("created");
    let mut sent = Vec::new();
    client.read(&node(), now(), &mut sent).expect("read");
    let (answer, event) = serve(&mut session, &sent);
    assert_eq!(event, Event::Faulted(BAD_SESSION_NOT_ACTIVATED));
    let error = client.read_answer(&answer).expect_err("not activated");
    assert!(error.message.contains("the session is not activated"));
    let mut sent = Vec::new();
    client.activate_session(&policy, now(), &mut sent).expect("activate");
    let (answer, _) = serve(&mut session, &sent);
    client.session_activated(&answer).expect("activated");
    let (value, _) = read(&mut client, &mut session, &node());
    assert_eq!(value.bytes, Some(b"x".to_vec()));
}

#[test]
fn a_message_on_another_channel_is_told_so() {
    let mut session = Session::new("peer", 5);
    open(&mut session, "opc.tcp://h/p");
    let request = Secure {
        kind: MESSAGE,
        channel_id: 6,
        token_id: 1,
        sequence: 9,
        request_id: 9,
        body: Vec::new(),
    };
    let mut out = Vec::new();
    let error = session
        .next_event(&request, now(), &mut out)
        .expect_err("another channel");
    assert_eq!(error.message, "a message on another channel");
    let answer = secure(&out);
    let (_, mut reader) = type_of(&answer.body).expect("type");
    assert_eq!(
        ResponseHeader::take(&mut reader).expect("header").result,
        BAD_SECURE_CHANNEL_ID_INVALID
    );
}

#[test]
fn what_is_not_hello_and_what_is_not_an_open_are_refused() {
    let mut session = Session::new("peer", 5);
    let mut out = Vec::new();
    let error = session
        .hello(&(MESSAGE, b'F', Vec::new()), &mut out)
        .expect_err("not hello");
    assert_eq!(error.message, "MSG where Hello was expected");
    let (kind, _, fault) = raw(&out);
    assert_eq!(kind, ERROR);
    assert_eq!(
        Fault::from_bytes(&fault).expect("fault"),
        Fault {
            code: 0x8083_0000,
            reason: "not Hello".to_string(),
        }
    );
    let mut client = Client::new();
    let error = client.acknowledged(&raw(&out)).expect_err("refused");
    assert_eq!(error.message, "not Hello: status 0x80830000, no such endpoint");
    let error = client
        .acknowledged(&(HELLO, b'F', Vec::new()))
        .expect_err("not an acknowledge");
    assert_eq!(error.message, "HEL where the acknowledge was expected");
    let mut request = Secure {
        kind: MESSAGE,
        channel_id: 0,
        token_id: 0,
        sequence: 1,
        request_id: 1,
        body: close_channel(&RequestHeader::new(NodeId::numeric(0, 0), 1, 1)),
    };
    let mut out = Vec::new();
    let error = session
        .open_channel(&request, now(), &mut out)
        .expect_err("before the open");
    assert_eq!(error.message, "a message before the channel was opened");
    request.kind = OPEN;
    let error = session
        .open_channel(&request, now(), &mut out)
        .expect_err("another service");
    assert_eq!(error.message, "an open that is not an OpenSecureChannel");
    assert!(out.is_empty());
}

#[test]
fn an_answer_is_matched_by_request_type_and_status() {
    let mut session = Session::new("peer", 5);
    let (mut client, _) = connect(&mut session, "opc.tcp://h/p");
    let mut sent = Vec::new();
    client.read(&node(), now(), &mut sent).expect("read");
    let (answer, _) = serve(&mut session, &sent);
    assert_eq!(answer.request_id, 4);
    let stale = Secure {
        request_id: 3,
        ..answer.clone()
    };
    let error = client.read_answer(&stale).expect_err("stale");
    assert_eq!(error.message, "an answer to request 3 where 4 was awaited");
    let error = client.write_answer(&answer).expect_err("another type");
    assert_eq!(error.message, "a response of type 634 where 676 was expected");
    let fault = opc_ua::service::fault(&ResponseHeader::new(0, 0x8095_0000));
    let error = client
        .read_answer(&Secure {
            body: fault,
            ..answer.clone()
        })
        .expect_err("a fault");
    assert_eq!(
        error.message,
        "the server answered: status 0x80950000, the server is not connected"
    );
    assert!(error.retryable);
    let closed = opc_ua::endpoint::session_closed(&ResponseHeader::new(0, 0x8025_0000));
    let error = client
        .session_closed(&Secure {
            body: closed,
            ..answer
        })
        .expect_err("refused");
    assert_eq!(
        error.message,
        "closing the session: status 0x80250000, no such session"
    );
}

#[test]
fn the_buffers_agreed_are_those_each_side_keeps_to() {
    let mut client = Client::new();
    let small = Acknowledge {
        limits: Limits {
            receive_buffer: 8_192,
            ..Limits::default()
        },
    };
    client
        .acknowledged(&(ACKNOWLEDGE, b'F', small.to_bytes()))
        .expect("acknowledged");
    let mut sent = Vec::new();
    client.write(&node(), &[5; 20_000], now(), &mut sent).expect("write");
    let mut input = Cursor::new(&sent);
    let mut sizes = Vec::new();
    while let Some((_, _, body)) = opc_ua::channel::read_raw(&mut input, MAX).expect("raw") {
        sizes.push(body.len() + 8);
    }
    assert_eq!(sizes.len(), 3);
    assert!(sizes.iter().all(|size| *size <= 8_192));
    let request = read_secure(&mut Cursor::new(&sent), MAX)
        .expect("read")
        .expect("one");
    let (_, mut reader) = type_of(&request.body).expect("type");
    let write = Write::take(&mut reader).expect("write");
    assert_eq!(write.value.bytes, Some(vec![5; 20_000]));
}

#[test]
fn connecting_asks_for_one_thing_after_the_other() {
    let endpoint = "opc.tcp://h/p";
    let mut session = Session::new("peer", 9);
    let mut out = Vec::new();
    let mut connecting = Client::connect(endpoint, &mut out).expect("hello");
    assert_eq!(connecting.awaiting(), Awaiting::Acknowledge);
    let early = Secure {
        kind: MESSAGE,
        channel_id: 0,
        token_id: 0,
        sequence: 1,
        request_id: 0,
        body: Vec::new(),
    };
    let mut nothing = Vec::new();
    let error = connecting
        .answered(&early, now(), &mut nothing)
        .expect_err("early");
    assert_eq!(error.message, "a message that was not awaited");
    assert!(nothing.is_empty());
    let mut answer = Vec::new();
    session.hello(&raw(&out), &mut answer).expect("greeted");
    let acknowledge = raw(&answer);
    let mut out = Vec::new();
    connecting
        .acknowledged(&acknowledge, now(), &mut out)
        .expect("acknowledged");
    assert_eq!(connecting.awaiting(), Awaiting::Channel);
    assert!(connecting
        .acknowledged(&acknowledge, now(), &mut nothing)
        .is_err());
    let mut answer = Vec::new();
    session
        .open_channel(&secure(&out), now(), &mut answer)
        .expect("opened");
    let mut out = Vec::new();
    connecting
        .answered(&secure(&answer), now(), &mut out)
        .expect("channel");
    assert_eq!(connecting.awaiting(), Awaiting::Session);
    let (answer, created) = serve(&mut session, &out);
    assert_eq!(created, Event::SessionCreated("xmip".to_string()));
    let mut out = Vec::new();
    connecting.answered(&answer, now(), &mut out).expect("session");
    assert_eq!(connecting.awaiting(), Awaiting::Activation);
    let (answer, activated) = serve(&mut session, &out);
    assert_eq!(activated, Event::SessionActivated("anonymous".to_string()));
    let mut out = Vec::new();
    connecting.answered(&answer, now(), &mut out).expect("activated");
    assert!(out.is_empty());
    assert_eq!(connecting.awaiting(), Awaiting::Nothing);
    let mut client = connecting.connected().expect("connected");
    write(&mut client, &mut session, &node(), b"x");
    assert_eq!(session.value(&node()), Some(&b"x"[..]));
    let mut out = Vec::new();
    let unfinished = Client::connect(endpoint, &mut out).expect("hello");
    assert!(unfinished.connected().is_none());
}

#[test]
fn replies_stay_on_the_channel_and_are_numbered() {
    let mut session = Session::new("peer", 5);
    let (mut client, _) = connect(&mut session, "opc.tcp://h/p");
    let mut numbers = Vec::new();
    for _ in 0..3 {
        let mut sent = Vec::new();
        client.read(&node(), now(), &mut sent).expect("read");
        let (answer, _) = serve(&mut session, &sent);
        assert_eq!((answer.channel_id, answer.token_id), (5, 1));
        numbers.push(answer.sequence);
    }
    assert_eq!(numbers, [4, 5, 6]);
}

#[test]
fn a_client_numbers_what_it_sends() {
    let mut client = Client::new();
    let mut sent = Vec::new();
    client.open_channel(7, &mut sent).expect("open");
    let first = secure(&sent);
    assert_eq!((first.kind, first.sequence, first.request_id), (OPEN, 1, 1));
    let (_, mut reader) = type_of(&first.body).expect("type");
    let request = OpenChannel::take(&mut reader).expect("open");
    assert_eq!(request.requested_lifetime, 3_600_000);
    assert_eq!(
        request.header,
        RequestHeader {
            token: NodeId::numeric(0, 0),
            timestamp: 7,
            handle: 1,
            timeout_hint: 10_000,
        }
    );
    let mut sent = Vec::new();
    client.create_session("opc.tcp://h/p", 8, &mut sent).expect("create");
    let second = secure(&sent);
    assert_eq!((second.sequence, second.request_id), (2, 2));
    let (_, mut reader) = type_of(&second.body).expect("type");
    let create = CreateSession::take(&mut reader).expect("create");
    assert_eq!(create.session_name, "xmip");
    assert_eq!(create.endpoint_url, "opc.tcp://h/p");
    assert_eq!(create.header.handle, 2);
    let mut sent = Vec::new();
    client.close_channel(9, &mut sent).expect("close");
    let (id, _) = type_of(&secure(&sent).body).map(|(id, _)| (id, ())).expect("type");
    assert_eq!(id, CLOSE_CHANNEL_REQUEST);
}
