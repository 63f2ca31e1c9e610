use std::time::{Duration, UNIX_EPOCH};

use opc_ua::codec::{ByteWriter, Cursor};
use opc_ua::wire::{now, stamp_of, ticks, DataValue, UaBinary, UaBinaryWrite, EPOCH_1601, STRING};

#[test]
fn every_primitive_reads_back_and_none_is_minus_one() {
    let mut out = Vec::new();
    out.byte(7)
        .u16_le(300)
        .u32_le(70_000)
        .i32_le(-2)
        .i64_le(-3)
        .u64_le(1.5f64.to_bits())
        .bool(true)
        .byte_string(Some(b"ab"))
        .byte_string(None)
        .string(Some("x"))
        .localized_text("text")
        .no_diagnostic_info();
    let mut reader = Cursor::new(&out);
    assert_eq!(reader.byte().expect("u8"), 7);
    assert_eq!(reader.u16_le().expect("u16"), 300);
    assert_eq!(reader.u32_le().expect("u32"), 70_000);
    assert_eq!(reader.i32_le().expect("i32"), -2);
    assert_eq!(reader.i64_le().expect("i64"), -3);
    assert!((f64::from_bits(reader.u64_le().expect("f64")) - 1.5).abs() < f64::EPSILON);
    assert!(reader.bool().expect("bool"));
    assert_eq!(reader.byte_string().expect("bytes"), Some(&b"ab"[..]));
    assert_eq!(reader.byte_string().expect("none"), None);
    assert_eq!(reader.string().expect("string"), Some("x".to_string()));
    reader.skip_localized_text().expect("text");
    reader.skip_diagnostic_info().expect("diagnostic");
    assert!(reader.remaining().is_empty());
    assert!(reader.byte().is_err(), "cut short");
    assert_eq!(Cursor::new(&[0xff; 4]).count().expect("minus one"), 0);
    assert!(Cursor::new(&[9, 0, 0, 0]).count().is_err(), "absurd");
    let error = Cursor::new(&[9, 0, 0, 0, 1])
        .byte_string()
        .expect_err("cut short");
    assert!(!error.retryable);
    assert!(error.message.contains("runs past"), "{}", error.message);
}

#[test]
fn a_data_value_carries_bytes_a_status_and_a_source_timestamp() {
    let value = DataValue::bytes(b"\0\xff");
    let mut out = Vec::new();
    value.put(&mut out);
    assert_eq!(out[0], 0x05);
    assert_eq!(
        DataValue::take(&mut Cursor::new(&out)).expect("value"),
        value
    );
    let bad = DataValue {
        bytes: None,
        status: 0x8034_0000,
        source_timestamp: None,
    };
    let mut out = Vec::new();
    bad.put(&mut out);
    assert_eq!(
        DataValue::take(&mut Cursor::new(&out)).expect("status"),
        bad
    );
    let mut text = vec![0x01, STRING];
    text.string(Some("hi"));
    assert_eq!(
        DataValue::take(&mut Cursor::new(&text))
            .expect("text")
            .bytes,
        Some(b"hi".to_vec())
    );
    let number = [0x01, 6, 1, 0, 0, 0];
    let error = DataValue::take(&mut Cursor::new(&number)).expect_err("an Int32");
    assert!(error.message.contains("variant type 6"), "{}", error.message);
    assert!(now() > EPOCH_1601);
}

#[test]
fn primitives_are_these_bytes() {
    let mut out = Vec::new();
    out.u16_le(0x0102).u32_le(0x0304_0506).i32_le(-1).u64_le(1).i64_le(-2);
    assert_eq!(
        out,
        [
            0x02, 0x01, 0x06, 0x05, 0x04, 0x03, 0xff, 0xff, 0xff, 0xff, 1, 0, 0, 0, 0, 0, 0, 0,
            0xfe, 0xff, 0xff, 0xff, 0xff, 0xff, 0xff, 0xff
        ]
    );
    let mut out = Vec::new();
    out.bool(false).bool(true).string(Some("\u{e5}")).localized_text("t");
    assert_eq!(
        out,
        [0, 1, 2, 0, 0, 0, 0xc3, 0xa5, 2, 1, 0, 0, 0, b't']
    );
    assert!(Cursor::new(&[7]).bool().expect("not zero"));
}

#[test]
fn what_is_cut_short_says_by_how_much() {
    let error = Cursor::new(&[1, 2]).u32_le().expect_err("cut short");
    assert_eq!(error.message, "a field of 4 bytes runs past the 2 left");
    let error = Cursor::new(&[9, 0, 0, 0, 1])
        .byte_string()
        .expect_err("cut short");
    assert_eq!(error.message, "a field of 9 bytes runs past the 1 left");
    assert!(!error.retryable);
    let mut reader = Cursor::new(&[1, 2, 3]);
    reader.skip(2).expect("two");
    assert_eq!(reader.remaining(), [3]);
    assert!(reader.skip(2).is_err());
    assert_eq!(reader.take(1).expect("one"), [3]);
}

#[test]
fn a_string_that_is_not_text_is_read_as_near_as_can_be() {
    let bytes = [3, 0, 0, 0, b'a', 0xff, b'b'];
    assert_eq!(
        Cursor::new(&bytes).string().expect("string"),
        Some("a\u{fffd}b".to_string())
    );
    assert_eq!(Cursor::new(&[0xff; 4]).string().expect("none"), None);
    assert_eq!(
        Cursor::new(&[0xff; 4]).string_or_empty().expect("none"),
        ""
    );
    assert_eq!(
        Cursor::new(&[0, 0, 0, 0]).byte_string().expect("empty"),
        Some(&[][..])
    );
}

#[test]
fn a_data_value_is_these_bytes() {
    let value = DataValue {
        bytes: Some(vec![9]),
        status: 0x8000_0001,
        source_timestamp: Some(3),
    };
    let mut out = Vec::new();
    value.put(&mut out);
    assert_eq!(
        out,
        [7, 15, 1, 0, 0, 0, 9, 1, 0, 0, 0x80, 3, 0, 0, 0, 0, 0, 0, 0]
    );
    let nothing = DataValue {
        bytes: None,
        status: 0,
        source_timestamp: None,
    };
    let mut out = Vec::new();
    nothing.put(&mut out);
    assert_eq!(out, [0]);
    assert_eq!(value.clone(), value);
}

#[test]
fn fields_of_a_data_value_that_are_not_kept_are_read_past() {
    let mut out = vec![0x3f, 15];
    out.byte_string(Some(b"x")).u32_le(5).i64_le(6).u16_le(7).i64_le(8).u16_le(9);
    let before = out.len();
    out.byte(0xaa);
    let mut reader = Cursor::new(&out);
    let value = DataValue::take(&mut reader).expect("value");
    assert_eq!(
        value,
        DataValue {
            bytes: Some(b"x".to_vec()),
            status: 5,
            source_timestamp: Some(6),
        }
    );
    assert_eq!(reader.remaining(), &out[before..]);
}

#[test]
fn diagnostics_nest_and_strings_are_read_past() {
    let mut out = Vec::new();
    out.byte(0x40).byte(0x50).string(Some("more")).byte(0x01).i32_le(4);
    let mut reader = Cursor::new(&out);
    reader.skip_diagnostic_info().expect("nested");
    assert!(reader.remaining().is_empty());
    let mut out = Vec::new();
    out.i32_le(2).string(Some("a")).string(None).byte(1);
    let mut reader = Cursor::new(&out);
    reader.skip_strings().expect("strings");
    assert_eq!(reader.remaining(), [1]);
}

#[test]
fn time_is_counted_in_ticks_since_the_epoch() {
    assert_eq!(EPOCH_1601, 116_444_736_000_000_000);
    assert_eq!(ticks(0), EPOCH_1601);
    assert_eq!(ticks(1_000_000_000), EPOCH_1601 + 10_000_000);
    assert_eq!(ticks(199), EPOCH_1601 + 1);
    assert_eq!(ticks(u128::MAX), i64::MAX);
    let later = UNIX_EPOCH + Duration::new(3, 500);
    assert_eq!(stamp_of(&later), EPOCH_1601 + 30_000_005);
    let earlier = UNIX_EPOCH - Duration::from_secs(1);
    assert_eq!(stamp_of(&earlier), EPOCH_1601);
    let stamp = DataValue::bytes(b"").source_timestamp.expect("stamped");
    assert!(stamp > EPOCH_1601 + 10_000_000 * 1_600_000_000);
}
