use opc_ua::channel::NONE_POLICY;
use opc_ua::codec::{ByteWriter, Cursor};
use opc_ua::endpoint::{
    close_session, session_activated, session_closed, ActivateSession, CreateSession, Endpoint,
    SessionCreated, ACTIVATE_SESSION_REQUEST, ACTIVATE_SESSION_RESPONSE, CLOSE_SESSION_REQUEST,
    CLOSE_SESSION_RESPONSE, CREATE_SESSION_REQUEST, CREATE_SESSION_RESPONSE, SESSION_TIMEOUT,
};
use opc_ua::service::{body, type_of, RequestHeader, ResponseHeader, GOOD};
use opc_ua::wire::{UaBinary, UaBinaryWrite};
use opc_ua::NodeId;

fn request() -> RequestHeader {
    RequestHeader {
        token: NodeId::numeric(0, 0),
        timestamp: 1,
        handle: 5,
        timeout_hint: 10_000,
    }
}

#[test]
fn a_session_is_created_with_the_endpoints_and_the_anonymous_policy_found() {
    let create = CreateSession {
        header: request(),
        endpoint_url: "opc.tcp://localhost:4840/xmip".to_string(),
        session_name: "xmip".to_string(),
    };
    let bytes = create.to_bytes();
    let (id, mut reader) = type_of(&bytes).expect("type");
    assert_eq!(id, CREATE_SESSION_REQUEST);
    assert_eq!(CreateSession::take(&mut reader).expect("create"), create);
    let created = SessionCreated {
        header: ResponseHeader::new(5, GOOD),
        session_id: NodeId::numeric(1, 42),
        token: NodeId::string(0, "token"),
        endpoints: vec![
            Endpoint {
                url: "opc.tcp://localhost:4840/xmip".to_string(),
                security_policy: "http://opcfoundation.org/UA/SecurityPolicy#Basic256Sha256"
                    .to_string(),
                anonymous_policy: Some("anon-secure".to_string()),
            },
            Endpoint {
                url: "opc.tcp://localhost:4840/xmip".to_string(),
                security_policy: NONE_POLICY.to_string(),
                anonymous_policy: None,
            },
            Endpoint {
                url: "opc.tcp://localhost:4840/xmip".to_string(),
                security_policy: NONE_POLICY.to_string(),
                anonymous_policy: Some("anonymous".to_string()),
            },
        ],
    };
    let bytes = created.to_bytes();
    let (id, mut reader) = type_of(&bytes).expect("type");
    assert_eq!(id, CREATE_SESSION_RESPONSE);
    let read = SessionCreated::take(&mut reader).expect("created");
    assert_eq!(read, created);
    assert_eq!(read.anonymous_policy().expect("policy"), "anonymous");
    let none = SessionCreated {
        endpoints: Vec::new(),
        ..created
    };
    assert!(none.anonymous_policy().is_err());
}

#[test]
fn a_session_is_activated_anonymously_and_closed() {
    let activate = ActivateSession {
        header: request(),
        policy_id: "anonymous".to_string(),
    };
    let bytes = activate.to_bytes();
    let (id, mut reader) = type_of(&bytes).expect("type");
    assert_eq!(id, ACTIVATE_SESSION_REQUEST);
    assert_eq!(
        ActivateSession::take(&mut reader).expect("activate"),
        activate
    );
    let bytes = session_activated(&ResponseHeader::new(5, GOOD));
    let (id, mut reader) = type_of(&bytes).expect("type");
    assert_eq!(id, ACTIVATE_SESSION_RESPONSE);
    assert_eq!(
        ResponseHeader::take(&mut reader).expect("header").result,
        GOOD
    );
    let bytes = close_session(&request());
    let (id, mut reader) = type_of(&bytes).expect("type");
    assert_eq!(id, CLOSE_SESSION_REQUEST);
    assert_eq!(RequestHeader::take(&mut reader).expect("header"), request());
    assert!(reader.bool().expect("delete subscriptions"));
    let bytes = session_closed(&ResponseHeader::new(5, GOOD));
    let (id, _) = type_of(&bytes).expect("type");
    assert_eq!(id, CLOSE_SESSION_RESPONSE);
    let mut user = body(ACTIVATE_SESSION_REQUEST);
    request().put(&mut user);
    user.string(None);
    user.byte_string(None);
    user.i32_le(0);
    user.i32_le(0);
    NodeId::numeric(0, 324).put(&mut user);
    user.byte(1);
    let bytes = user;
    let (_, mut reader) = type_of(&bytes).expect("type");
    let error = ActivateSession::take(&mut reader).expect_err("a user name token");
    assert!(error.message.contains("i=324"), "{}", error.message);
}

#[test]
fn an_identity_says_what_is_wrong_with_it() {
    let activating = |kind: NodeId, encoding: u8| {
        let mut out = Vec::new();
        request().put(&mut out);
        out.string(None).byte_string(None).i32_le(0).i32_le(0);
        kind.put(&mut out);
        out.byte(encoding);
        out
    };
    let error = ActivateSession::take(&mut Cursor::new(&activating(NodeId::numeric(0, 324), 1)))
        .expect_err("a user name");
    assert_eq!(
        error.message,
        "an identity token of type i=324, and this side takes anonymous"
    );
    let error = ActivateSession::take(&mut Cursor::new(&activating(NodeId::numeric(0, 321), 2)))
        .expect_err("an xml body");
    assert_eq!(
        error.message,
        "an identity token of type i=321, and this side takes anonymous"
    );
    let mut nameless = activating(NodeId::numeric(0, 321), 1);
    nameless.byte_string(None);
    assert!(ActivateSession::take(&mut Cursor::new(&nameless)).is_err(), "no token");
}

#[test]
fn certificates_and_locales_are_read_past() {
    let mut out = Vec::new();
    request().put(&mut out);
    out.string(Some("algorithm")).byte_string(Some(b"signature"));
    out.i32_le(2);
    out.byte_string(Some(b"c1")).byte_string(None);
    out.byte_string(None).byte_string(Some(b"s2"));
    out.i32_le(2).string(Some("en")).string(Some("sv"));
    NodeId::numeric(0, 321).put(&mut out);
    let mut token = Vec::new();
    token.string(Some("open"));
    out.byte(1).byte_string(Some(&token));
    out.string(Some("algorithm")).byte_string(Some(b"signature"));
    let read = ActivateSession::take(&mut Cursor::new(&out)).expect("activate");
    assert_eq!(read.policy_id, "open");
    assert_eq!(read.header, request());
}

#[test]
fn an_endpoint_with_many_token_policies_offers_its_first_anonymous_one() {
    let mut out = Vec::new();
    ResponseHeader::new(5, GOOD).put(&mut out);
    NodeId::numeric(1, 1).put(&mut out);
    NodeId::numeric(1, 2).put(&mut out);
    out.u64_le(SESSION_TIMEOUT).byte_string(None).byte_string(None);
    out.i32_le(1);
    out.string(Some("opc.tcp://h/"));
    out.string(Some("uri")).string(Some("product")).localized_text("name");
    out.u32_le(0).string(None).string(None).i32_le(1).string(Some("discovery"));
    out.byte_string(None).u32_le(1).string(Some(NONE_POLICY));
    out.i32_le(3);
    for (policy, kind) in [("user", 1u32), ("first", 0), ("second", 0)] {
        out.string(Some(policy)).u32_le(kind).string(None).string(None).string(None);
    }
    out.string(None).byte(0);
    out.i32_le(1).byte_string(Some(b"c")).byte_string(Some(b"s"));
    out.string(Some("algorithm")).byte_string(Some(b"signature")).u32_le(7);
    let read = SessionCreated::take(&mut Cursor::new(&out)).expect("created");
    assert_eq!(read.anonymous_policy().expect("policy"), "first");
    assert_eq!(read.endpoints.len(), 1);
    assert_eq!(read.endpoints[0].url, "opc.tcp://h/");
}

#[test]
fn no_anonymous_login_says_so() {
    let none = SessionCreated {
        header: ResponseHeader::new(5, GOOD),
        session_id: NodeId::numeric(1, 42),
        token: NodeId::string(0, "token"),
        endpoints: Vec::new(),
    };
    let error = none.anonymous_policy().expect_err("none");
    assert_eq!(
        error.message,
        "the server offers no anonymous login under security policy None"
    );
    assert!(!error.retryable);
}

#[test]
fn a_session_is_asked_for_a_minute_of_idling() {
    assert_eq!(SESSION_TIMEOUT, 60_000.0f64.to_bits());
    let created = SessionCreated {
        header: ResponseHeader::new(5, GOOD),
        session_id: NodeId::numeric(1, 42),
        token: NodeId::numeric(0, 7),
        endpoints: Vec::new(),
    };
    let bytes = created.to_bytes();
    let (_, mut reader) = type_of(&bytes).expect("type");
    ResponseHeader::take(&mut reader).expect("header");
    reader.node_id().expect("session");
    reader.node_id().expect("token");
    let timeout = f64::from_bits(reader.u64_le().expect("timeout"));
    assert!((timeout - 60_000.0).abs() < f64::EPSILON);
}

#[test]
fn what_is_cut_short_anywhere_is_refused() {
    let create = CreateSession {
        header: request(),
        endpoint_url: "opc.tcp://h/p".to_string(),
        session_name: "xmip".to_string(),
    }
    .to_bytes();
    let created = SessionCreated {
        header: ResponseHeader::new(5, GOOD),
        session_id: NodeId::numeric(1, 42),
        token: NodeId::string(0, "token"),
        endpoints: vec![Endpoint {
            url: "opc.tcp://h/p".to_string(),
            security_policy: NONE_POLICY.to_string(),
            anonymous_policy: Some("anonymous".to_string()),
        }],
    }
    .to_bytes();
    let activate = ActivateSession {
        header: request(),
        policy_id: "anonymous".to_string(),
    }
    .to_bytes();
    for cut in 4..create.len() {
        let mut reader = type_of(&create[..cut]).expect("type").1;
        assert!(CreateSession::take(&mut reader).is_err(), "{cut}");
    }
    for cut in 4..created.len() {
        let mut reader = type_of(&created[..cut]).expect("type").1;
        assert!(SessionCreated::take(&mut reader).is_err(), "{cut}");
    }
    for cut in 4..activate.len() {
        let mut reader = type_of(&activate[..cut]).expect("type").1;
        assert!(ActivateSession::take(&mut reader).is_err(), "{cut}");
    }
    let mut reader = type_of(&created).expect("type").1;
    SessionCreated::take(&mut reader).expect("whole");
    assert!(reader.remaining().is_empty());
}
