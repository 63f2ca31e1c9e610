use opc_ua::codec::{ByteWriter, Cursor};
use opc_ua::service::{
    body, close_channel, fault, status_error, type_of, ChannelOpened, OpenChannel, RequestHeader,
    ResponseHeader, BAD_NODE_ID_UNKNOWN, BAD_SERVER_NOT_CONNECTED, CLOSE_CHANNEL_REQUEST, GOOD,
    OPEN_CHANNEL_REQUEST, OPEN_CHANNEL_RESPONSE, SERVICE_FAULT,
};
use opc_ua::wire::{UaBinaryWrite, EPOCH_1601};
use opc_ua::NodeId;

fn request() -> RequestHeader {
    RequestHeader {
        token: NodeId::numeric(0, 0),
        timestamp: 1,
        handle: 3,
        timeout_hint: 10_000,
    }
}

#[test]
fn the_channel_services_read_back_and_a_body_says_its_type() {
    let open = OpenChannel {
        header: request(),
        requested_lifetime: 60_000,
    };
    let bytes = open.to_bytes();
    let (id, mut reader) = type_of(&bytes).expect("type");
    assert_eq!(id, OPEN_CHANNEL_REQUEST);
    assert_eq!(OpenChannel::take(&mut reader).expect("open"), open);
    let opened = ChannelOpened {
        header: ResponseHeader::new(3, GOOD),
        channel_id: 1,
        token_id: 2,
        lifetime: 60_000,
    };
    let bytes = opened.to_bytes();
    let (id, mut reader) = type_of(&bytes).expect("type");
    assert_eq!(id, OPEN_CHANNEL_RESPONSE);
    assert_eq!(ChannelOpened::take(&mut reader).expect("opened"), opened);
    let bytes = close_channel(&request());
    let (id, mut reader) = type_of(&bytes).expect("type");
    assert_eq!(id, CLOSE_CHANNEL_REQUEST);
    assert_eq!(RequestHeader::take(&mut reader).expect("header"), request());
    let bytes = fault(&ResponseHeader::new(3, BAD_NODE_ID_UNKNOWN));
    let (id, mut reader) = type_of(&bytes).expect("type");
    assert_eq!(id, SERVICE_FAULT);
    assert_eq!(
        ResponseHeader::take(&mut reader).expect("header").result,
        BAD_NODE_ID_UNKNOWN
    );
    let mut string_typed = Vec::new();
    NodeId::string(2, "x").put(&mut string_typed);
    assert!(type_of(&string_typed).is_err());
}

#[test]
fn a_status_names_its_failure_and_a_server_not_up_is_retryable() {
    let error = status_error("reading", BAD_NODE_ID_UNKNOWN);
    assert_eq!(error.message, "reading: status 0x80340000, no such node");
    assert!(!error.retryable);
    assert!(status_error("connecting", BAD_SERVER_NOT_CONNECTED).retryable);
    assert!(status_error("x", 0x8099_0000)
        .message
        .ends_with("a bad status"));
    assert!(status_error("x", 0x4000_0000)
        .message
        .ends_with("an uncertain status"));
}

#[test]
fn every_named_status_has_its_words() {
    for (code, words, retryable) in [
        (0x800B_0000u32, "the service is not supported", false),
        (0x8022_0000, "no such secure channel", false),
        (0x8025_0000, "no such session", false),
        (0x8027_0000, "the session is not activated", false),
        (0x8021_0000, "the identity token was rejected", false),
        (0x8034_0000, "no such node", false),
        (0x8074_0000, "the value is not of the node's type", false),
        (0x8083_0000, "no such endpoint", false),
        (0x8080_0000, "the message is too large", false),
        (0x8095_0000, "the server is not connected", true),
        (0x8004_0000, "a bad status", true),
        (0x8005_0000, "a bad status", true),
    ] {
        let error = status_error("x", code);
        assert_eq!(
            error.message,
            format!("x: status {code:#010x}, {words}"),
            "{words}"
        );
        assert_eq!(error.retryable, retryable, "{words}");
    }
}

#[test]
fn a_header_is_these_bytes_and_is_stamped_now() {
    let mut out = Vec::new();
    request().put(&mut out);
    assert_eq!(
        out,
        [
            &[0u8, 0][..],
            &[1, 0, 0, 0, 0, 0, 0, 0],
            &[3, 0, 0, 0],
            &[0, 0, 0, 0],
            &[0xff, 0xff, 0xff, 0xff],
            &[0x10, 0x27, 0, 0],
            &[0, 0],
            &[0],
        ]
        .concat()
    );
    let mut out = Vec::new();
    ResponseHeader {
        timestamp: 2,
        handle: 3,
        result: 0x8034_0000,
    }
    .put(&mut out);
    assert_eq!(
        out,
        [
            &[2u8, 0, 0, 0, 0, 0, 0, 0][..],
            &[3, 0, 0, 0],
            &[0, 0, 0x34, 0x80],
            &[0],
            &[0, 0, 0, 0],
            &[0, 0],
            &[0],
        ]
        .concat()
    );
    let stamped = RequestHeader::new(NodeId::string(0, "t"), 7, 9);
    assert!(stamped.timestamp > EPOCH_1601);
    assert_eq!((stamped.handle, stamped.timeout_hint), (7, 9));
    assert!(ResponseHeader::new(1, 2).timestamp > EPOCH_1601);
}

#[test]
fn an_additional_header_a_renewal_and_a_security_mode_are_refused() {
    let mut extra = Vec::new();
    request().put(&mut extra);
    let last = extra.len() - 1;
    extra[last] = 1;
    let error = RequestHeader::take(&mut Cursor::new(&extra)).expect_err("extra");
    assert_eq!(error.message, "a request with an additional header");
    let mut extra = Vec::new();
    ResponseHeader::new(1, 2).put(&mut extra);
    let last = extra.len() - 1;
    extra[last] = 1;
    let error = ResponseHeader::take(&mut Cursor::new(&extra)).expect_err("extra");
    assert_eq!(error.message, "a response with an additional header");
    let mut renewal = Vec::new();
    request().put(&mut renewal);
    renewal.u32_le(0).u32_le(1);
    let error = OpenChannel::take(&mut Cursor::new(&renewal)).expect_err("renewal");
    assert_eq!(error.message, "a token renewal, and this side issues only");
    let mut signed = Vec::new();
    request().put(&mut signed);
    signed.u32_le(0).u32_le(0).u32_le(2).byte_string(None).u32_le(1);
    let error = OpenChannel::take(&mut Cursor::new(&signed)).expect_err("signed");
    assert_eq!(error.message, "a security mode other than None");
}

#[test]
fn a_body_opens_with_a_numeric_node_of_namespace_zero() {
    assert_eq!(body(84), [0, 84]);
    assert_eq!(body(631), [1, 0, 0x77, 2]);
    let mut elsewhere = Vec::new();
    NodeId::numeric(2, 631).put(&mut elsewhere);
    let error = type_of(&elsewhere).err().expect("namespace two");
    assert_eq!(error.message, "a body of type ns=2;i=631");
    let mut guid = vec![0x04, 0, 0];
    guid.extend_from_slice(&[9; 16]);
    assert!(type_of(&guid).is_err(), "a guid");
    assert!(type_of(&[]).is_err(), "nothing");
    let behind = [0, 84, 5, 6];
    let (id, reader) = type_of(&behind).expect("type");
    assert_eq!(id, 84);
    assert_eq!(reader.remaining(), [5, 6]);
}
