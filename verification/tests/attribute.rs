use opc_ua::attribute::{
    Read, ReadResult, Write, WriteResult, READ_REQUEST, READ_RESPONSE, WRITE_REQUEST,
    WRITE_RESPONSE,
};
use opc_ua::codec::{ByteWriter, Cursor};
use opc_ua::service::{
    body, type_of, RequestHeader, ResponseHeader, BAD_TYPE_MISMATCH, GOOD,
};
use opc_ua::wire::UaBinaryWrite;
use opc_ua::{DataValue, NodeId};

fn request() -> RequestHeader {
    RequestHeader {
        token: NodeId::numeric(0, 0),
        timestamp: 1,
        handle: 3,
        timeout_hint: 10_000,
    }
}

#[test]
fn a_read_and_a_write_of_one_value_read_back_and_more_is_refused() {
    let node = NodeId::string(2, "Orders");
    let read = Read {
        header: request(),
        node: node.clone(),
    };
    let bytes = read.to_bytes();
    let (id, mut reader) = type_of(&bytes).expect("type");
    assert_eq!(id, READ_REQUEST);
    assert_eq!(Read::take(&mut reader).expect("read"), read);
    let result = ReadResult {
        header: ResponseHeader::new(3, GOOD),
        value: DataValue::bytes(b"ISA*00*"),
    };
    let bytes = result.to_bytes();
    let (_, mut reader) = type_of(&bytes).expect("type");
    assert_eq!(ReadResult::take(&mut reader).expect("result"), result);
    let write = Write {
        header: request(),
        node,
        value: DataValue::bytes(&[0, 0xff]),
    };
    let bytes = write.to_bytes();
    let (id, mut reader) = type_of(&bytes).expect("type");
    assert_eq!(id, WRITE_REQUEST);
    assert_eq!(Write::take(&mut reader).expect("write"), write);
    let result = WriteResult {
        header: ResponseHeader::new(3, GOOD),
        status: BAD_TYPE_MISMATCH,
    };
    let bytes = result.to_bytes();
    let (_, mut reader) = type_of(&bytes).expect("type");
    assert_eq!(WriteResult::take(&mut reader).expect("result"), result);
    let mut two = body(READ_REQUEST);
    request().put(&mut two);
    two.u64_le(0.0f64.to_bits());
    two.u32_le(0);
    two.i32_le(2);
    let bytes = two;
    let (_, mut reader) = type_of(&bytes).expect("type");
    assert!(Read::take(&mut reader).is_err());
}

#[test]
fn a_read_is_these_bytes() {
    let read = Read {
        header: request(),
        node: NodeId::numeric(0, 84),
    };
    assert_eq!(
        read.to_bytes(),
        [
            &[0x01, 0x00, 0x77, 0x02][..],
            &[0, 0],
            &[1, 0, 0, 0, 0, 0, 0, 0],
            &[3, 0, 0, 0],
            &[0, 0, 0, 0],
            &[0xff, 0xff, 0xff, 0xff],
            &[0x10, 0x27, 0, 0],
            &[0, 0],
            &[0],
            &[0; 8],
            &[0, 0, 0, 0],
            &[1, 0, 0, 0],
            &[0, 84],
            &[13, 0, 0, 0],
            &[0xff, 0xff, 0xff, 0xff],
            &[0, 0],
            &[0xff, 0xff, 0xff, 0xff],
        ]
        .concat()
    );
}

#[test]
fn other_attributes_and_other_counts_are_refused_by_name() {
    let mut other = Vec::new();
    request().put(&mut other);
    other.u64_le(0).u32_le(0).i32_le(1);
    NodeId::numeric(0, 84).put(&mut other);
    other.u32_le(1);
    let error = Read::take(&mut Cursor::new(&other)).expect_err("a node id attribute");
    assert_eq!(error.message, "a read of an attribute other than the value");
    let mut other = Vec::new();
    request().put(&mut other);
    other.u64_le(0).u32_le(0).i32_le(0);
    let error = Read::take(&mut Cursor::new(&other)).expect_err("no node");
    assert_eq!(error.message, "a read of other than one node");
    let mut other = Vec::new();
    request().put(&mut other);
    other.i32_le(-1);
    let error = Write::take(&mut Cursor::new(&other)).expect_err("no node");
    assert_eq!(error.message, "a write of other than one node");
    let mut other = Vec::new();
    request().put(&mut other);
    other.i32_le(1);
    NodeId::numeric(0, 84).put(&mut other);
    other.u32_le(4);
    let error = Write::take(&mut Cursor::new(&other)).expect_err("a display name");
    assert_eq!(error.message, "a write of an attribute other than the value");
    let header = ResponseHeader::new(3, GOOD);
    let mut other = Vec::new();
    header.put(&mut other);
    other.i32_le(0);
    let error = ReadResult::take(&mut Cursor::new(&other)).expect_err("no result");
    assert_eq!(error.message, "a read answered with other than one result");
    let error = WriteResult::take(&mut Cursor::new(&other)).expect_err("no result");
    assert_eq!(error.message, "a write answered with other than one result");
    assert!(!error.retryable);
}

#[test]
fn a_write_of_a_number_says_its_variant_type() {
    let mut other = Vec::new();
    request().put(&mut other);
    other.i32_le(1);
    NodeId::string(2, "Orders").put(&mut other);
    other.u32_le(13).string(None).byte(0x01).byte(6).i32_le(1);
    let error = Write::take(&mut Cursor::new(&other)).expect_err("an Int32");
    assert_eq!(
        error.message,
        "a value of variant type 6, and a Stream is a byte string"
    );
}

#[test]
fn responses_say_their_types() {
    let header = ResponseHeader::new(3, GOOD);
    let read = ReadResult {
        header,
        value: DataValue::bytes_at(b"x", 7),
    };
    let (id, _) = type_of(&read.to_bytes()).map(|(id, _)| (id, ())).expect("type");
    assert_eq!(id, READ_RESPONSE);
    let write = WriteResult {
        header,
        status: GOOD,
    };
    let (id, _) = type_of(&write.to_bytes()).map(|(id, _)| (id, ())).expect("type");
    assert_eq!(id, WRITE_RESPONSE);
    assert_eq!((READ_RESPONSE, WRITE_RESPONSE), (634, 676));
}

#[test]
fn what_is_cut_short_anywhere_is_refused_too() {
    let node = NodeId::string(2, "Orders");
    let read = Read {
        header: request(),
        node: node.clone(),
    }
    .to_bytes();
    let cut = &read[..read.len() - 10];
    let mut reader = type_of(cut).expect("type").1;
    assert!(Read::take(&mut reader).is_err(), "no range");
    for cut in 4..read.len() {
        let mut reader = type_of(&read[..cut]).expect("type").1;
        assert!(Read::take(&mut reader).is_err(), "{cut}");
    }
    let result = ReadResult {
        header: ResponseHeader::new(3, GOOD),
        value: DataValue::bytes_at(b"abc", 9),
    }
    .to_bytes();
    for cut in 4..result.len() {
        let mut reader = type_of(&result[..cut]).expect("type").1;
        assert!(ReadResult::take(&mut reader).is_err(), "{cut}");
    }
    let write = Write {
        header: request(),
        node,
        value: DataValue::bytes_at(b"abc", 9),
    }
    .to_bytes();
    for cut in 4..write.len() {
        let mut reader = type_of(&write[..cut]).expect("type").1;
        assert!(Write::take(&mut reader).is_err(), "{cut}");
    }
    let result = WriteResult {
        header: ResponseHeader::new(3, GOOD),
        status: GOOD,
    }
    .to_bytes();
    for cut in 4..result.len() {
        let mut reader = type_of(&result[..cut]).expect("type").1;
        assert!(WriteResult::take(&mut reader).is_err(), "{cut}");
    }
}

#[test]
fn diagnostics_behind_a_result_are_read_past() {
    let mut out = Vec::new();
    ResponseHeader::new(3, GOOD).put(&mut out);
    out.i32_le(1).u32_le(5).i32_le(2).byte(0).byte(0x01).i32_le(7).byte(0xee);
    let mut reader = Cursor::new(&out);
    let result = WriteResult::take(&mut reader).expect("result");
    assert_eq!(result.status, 5);
    assert_eq!(reader.remaining(), [0xee]);
}
