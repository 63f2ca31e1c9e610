use opc_ua::codec::Cursor;
use opc_ua::wire::UaBinary;
use opc_ua::NodeId;

#[test]
fn a_node_id_takes_its_shortest_form_and_reads_back() {
    for (text, first_byte) in [
        ("i=84", 0x00),
        ("ns=1;i=5", 0x01),
        ("ns=300;i=5", 0x02),
        ("ns=2;s=Orders", 0x03),
    ] {
        let node = NodeId::parse(text).expect(text);
        let mut out = Vec::new();
        node.put(&mut out);
        assert_eq!(out[0], first_byte, "{text}");
        assert_eq!(Cursor::new(&out).node_id().expect("read"), node);
        assert_eq!(node.to_string(), text);
    }
    assert!(NodeId::parse("ns=x;i=1").is_err());
    assert!(NodeId::parse("Orders").is_err());
    assert!(NodeId::parse("ns=1").is_err());
    let mut guid = vec![0x04, 0, 0];
    guid.extend_from_slice(&[9; 16]);
    assert_eq!(
        Cursor::new(&guid).node_id().expect("guid"),
        NodeId::numeric(0, 0)
    );
    assert!(Cursor::new(&[0x09]).node_id().is_err());
}

#[test]
fn each_form_is_these_bytes() {
    let bytes = |node: NodeId| {
        let mut out = Vec::new();
        node.put(&mut out);
        out
    };
    assert_eq!(bytes(NodeId::numeric(0, 255)), [0, 255]);
    assert_eq!(bytes(NodeId::numeric(0, 256)), [1, 0, 0, 1]);
    assert_eq!(bytes(NodeId::numeric(255, 65_535)), [1, 255, 255, 255]);
    assert_eq!(bytes(NodeId::numeric(256, 1)), [2, 0, 1, 1, 0, 0, 0]);
    assert_eq!(bytes(NodeId::numeric(1, 65_536)), [2, 1, 0, 0, 0, 1, 0]);
    assert_eq!(
        bytes(NodeId::string(2, "ab")),
        [3, 2, 0, 2, 0, 0, 0, b'a', b'b']
    );
}

#[test]
fn every_node_prints_what_it_parses_from() {
    for node in [
        NodeId::numeric(0, 0),
        NodeId::numeric(0, u32::MAX),
        NodeId::numeric(65_535, 10),
        NodeId::string(0, ""),
        NodeId::string(0, "i=7;ns=3"),
        NodeId::string(9, "f\u{f6}rr\u{e5}d"),
    ] {
        assert_eq!(NodeId::parse(&node.to_string()).expect("parsed"), node);
    }
    assert_eq!(NodeId::string(0, "a").to_string(), "ns=0;s=a");
    assert_eq!(NodeId::numeric(0, 2253).to_string(), "i=2253");
    assert_eq!(
        NodeId::parse("s=Orders").expect("no namespace"),
        NodeId::string(0, "Orders")
    );
}

#[test]
fn a_text_that_names_no_node_is_quoted() {
    let error = NodeId::parse("Ord\"ers\n").expect_err("not a node");
    assert_eq!(
        error.message,
        "\"Ord\\\"ers\\n\" is not ns=<n>;s=<name> or ns=<n>;i=<n>"
    );
    assert!(!error.retryable);
    assert!(NodeId::parse("ns=65536;i=1").is_err());
    assert!(NodeId::parse("i=4294967296").is_err());
    assert!(NodeId::parse("i=").is_err());
    assert!(NodeId::parse("").is_err());
}

#[test]
fn nodes_are_the_same_by_their_fields() {
    assert!(NodeId::numeric(1, 2).same(&NodeId::numeric(1, 2)));
    assert!(!NodeId::numeric(1, 2).same(&NodeId::numeric(2, 2)));
    assert!(!NodeId::numeric(1, 2).same(&NodeId::string(1, "2")));
    assert!(NodeId::string(1, "x").same(&NodeId::string(1, "x").clone()));
    assert!(!NodeId::string(1, "x").same(&NodeId::string(1, "y")));
}

#[test]
fn forms_that_are_not_carried_are_read_past() {
    let opaque = [0x05, 1, 0, 2, 0, 0, 0, 8, 8, 77];
    let mut reader = Cursor::new(&opaque);
    assert_eq!(reader.node_id().expect("opaque"), NodeId::numeric(0, 0));
    assert_eq!(reader.remaining(), [77]);
    assert!(Cursor::new(&[0x02, 1, 0]).node_id().is_err(), "cut short");
}
