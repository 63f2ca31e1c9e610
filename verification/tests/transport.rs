use std::time::Duration;

use opc_ua::transport::split;
use opc_ua::{Arrived, DataValue, NodeId, OpcUaTransport};

fn orders() -> NodeId {
    NodeId::string(2, "Orders")
}

#[test]
fn an_endpoint_splits_into_authority_and_path() {
    assert_eq!(
        split("opc.tcp://host:4840/plant/one").expect("split"),
        ("host:4840", "plant/one")
    );
    assert_eq!(split("opc.tcp://host:4840").expect("split"), ("host:4840", ""));
    assert_eq!(split("opc.tcp://host/").expect("split"), ("host", ""));
    let error = split("http://h/").expect_err("another scheme");
    assert_eq!(error.message, "\"http://h/\" is not opc.tcp://host:port/path");
}

#[test]
fn a_target_names_an_endpoint_and_a_node_or_a_node_alone() {
    let transport = OpcUaTransport::new("opc.tcp://a:1/x", orders());
    assert_eq!(
        transport.resolve("opc.tcp://b:2/y#ns=2;s=Recipe#1").expect("both"),
        ("opc.tcp://b:2/y".to_string(), NodeId::string(2, "Recipe#1"))
    );
    assert_eq!(
        transport.resolve("ns=2;s=Orders").expect("bare"),
        ("opc.tcp://a:1/x".to_string(), orders())
    );
    let error = transport.resolve("opc.tcp://b:2/y").expect_err("no node");
    assert_eq!(
        error.message,
        "\"opc.tcp://b:2/y\" names no node: opc.tcp://host/path#node"
    );
    let error = transport.resolve("opc.tcp://b:2/y#Orders").expect_err("no node");
    assert_eq!(
        error.message,
        "\"Orders\" is not ns=<n>;s=<name> or ns=<n>;i=<n>"
    );
    assert!(transport.resolve("Orders").is_err());
}

#[test]
fn a_value_read_is_one_stream_or_none() {
    let transport = OpcUaTransport::new("opc.tcp://h:4840/plant", orders());
    let value = DataValue::bytes_at(b"ISA*00*", 133_000_000_000_000_000);
    assert_eq!(
        transport.received(value).expect("received"),
        vec![Arrived {
            origin_uri: "opc-ua://h:4840/plant#ns=2;s=Orders?source=133000000000000000".to_string(),
            bytes: b"ISA*00*".to_vec(),
        }]
    );
    let unstamped = DataValue {
        bytes: Some(Vec::new()),
        status: 0,
        source_timestamp: None,
    };
    let all = transport.received(unstamped).expect("received");
    assert_eq!(all[0].origin_uri, "opc-ua://h:4840/plant#ns=2;s=Orders?source=0");
    let null = DataValue {
        bytes: None,
        status: 0,
        source_timestamp: None,
    };
    assert!(transport.received(null).expect("null").is_empty());
    let bad = DataValue {
        bytes: Some(b"x".to_vec()),
        status: 0x8034_0000,
        source_timestamp: None,
    };
    let error = transport.received(bad).expect_err("bad");
    assert_eq!(
        error.message,
        "reading the node: status 0x80340000, no such node"
    );
    let nowhere = OpcUaTransport::new("h:4840", orders());
    let error = nowhere.received(DataValue::bytes_at(b"", 1)).expect_err("no endpoint");
    assert_eq!(error.message, "\"h:4840\" is not opc.tcp://host:port/path");
}

#[test]
fn origins_tell_a_new_value_from_one_read_again() {
    let transport = OpcUaTransport::new("opc.tcp://h/p", orders());
    let origin = |stamp: i64| {
        transport.received(DataValue::bytes_at(b"v", stamp)).expect("received")[0]
            .origin_uri
            .clone()
    };
    assert_eq!(origin(5), origin(5));
    assert_ne!(origin(5), origin(-5));
    assert_ne!(origin(5), origin(50));
}

#[test]
fn a_transport_is_what_it_was_given() {
    let transport = OpcUaTransport::new("opc.tcp://h/p", orders());
    assert_eq!(transport.name(), "opc-ua");
    assert_eq!(transport.timeout(), None);
    let transport = transport.timing_out_after(Duration::from_secs(2));
    assert_eq!(transport.timeout(), Some(Duration::from_secs(2)));
    let copy = transport.clone();
    assert_eq!((copy.endpoint(), copy.node()), ("opc.tcp://h/p", &orders()));
    let pair = OpcUaTransport::loopback(Duration::from_secs(1));
    assert_eq!(pair.endpoint(), "opc.tcp://127.0.0.1:0/xmip");
    assert_eq!(pair.node(), &NodeId::string(2, "Probe"));
    assert_eq!(pair.timeout(), Some(Duration::from_secs(1)));
    let near = pair.near_end("127.0.0.1:4840", Duration::from_secs(3));
    assert_eq!(near.endpoint(), "opc.tcp://127.0.0.1:4840/xmip");
    assert_eq!(near.node(), &NodeId::string(2, "Probe"));
}
