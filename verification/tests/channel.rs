use opc_ua::channel::{
    body_length, expect_raw, expect_secure, join_chunk, read_raw, read_secure, write_raw,
    write_secure, Acknowledge, Fault, Hello, Limits, Secure, Step, CLOSE, ERROR, HELLO, MESSAGE,
    NONE_POLICY, OPEN,
};
use opc_ua::codec::{ByteWriter, Cursor};
use opc_ua::wire::UaBinaryWrite;

#[test]
fn hello_acknowledge_and_error_read_back_and_a_small_buffer_is_refused() {
    let hello = Hello {
        limits: Limits::default(),
        endpoint_url: "opc.tcp://localhost:4840/xmip".to_string(),
    };
    assert_eq!(Hello::from_bytes(&hello.to_bytes()).expect("hello"), hello);
    let ack = Acknowledge {
        limits: Limits::default(),
    };
    assert_eq!(Acknowledge::from_bytes(&ack.to_bytes()).expect("ack"), ack);
    let fault = Fault {
        code: 0x8080_0000,
        reason: "too large".to_string(),
    };
    assert_eq!(Fault::from_bytes(&fault.to_bytes()).expect("fault"), fault);
    let small = Acknowledge {
        limits: Limits {
            receive_buffer: 100,
            ..Limits::default()
        },
    };
    assert!(Acknowledge::from_bytes(&small.to_bytes()).is_err());
    assert_eq!(Limits::default().chunk_body(), 65_535 - 24);
}

#[test]
fn a_long_message_crosses_in_chunks_and_an_error_on_the_way_is_the_error() {
    let message = Secure {
        kind: MESSAGE,
        channel_id: 7,
        token_id: 8,
        sequence: 50,
        request_id: 9,
        body: (0..10_000u32).map(|n| (n % 251) as u8).collect(),
    };
    let mut wire = Vec::new();
    let next = write_secure(&mut wire, &message, 4_000).expect("written");
    assert_eq!(next, 53, "three chunks");
    assert_eq!(
        expect_secure(&mut Cursor::new(&wire), 1 << 20).expect("read"),
        message
    );
    assert!(read_secure(&mut Cursor::new(&wire), 5_000).is_err(), "over max");
    assert!(
        read_secure(&mut Cursor::new(&wire[..100]), 1 << 20).is_err(),
        "cut mid-message"
    );
    let empty = Secure {
        body: Vec::new(),
        kind: CLOSE,
        ..message.clone()
    };
    let mut wire = Vec::new();
    assert_eq!(write_secure(&mut wire, &empty, 4_000).expect("written"), 51);
    assert_eq!(
        expect_secure(&mut Cursor::new(&wire), 1 << 20).expect("read"),
        empty
    );
    let open = Secure {
        kind: OPEN,
        token_id: 0,
        body: b"open".to_vec(),
        ..message
    };
    let mut wire = Vec::new();
    write_secure(&mut wire, &open, 4_000).expect("written");
    assert_eq!(
        expect_secure(&mut Cursor::new(&wire), 1 << 20).expect("read"),
        open
    );
    let mut wire = Vec::new();
    write_raw(
        &mut wire,
        ERROR,
        b'F',
        &Fault {
            code: 1,
            reason: "no".into(),
        }
        .to_bytes(),
    )
    .expect("written");
    let error = read_secure(&mut Cursor::new(&wire), 1 << 20).expect_err("an error");
    assert!(error.message.contains("0x00000001: no"), "{}", error.message);
    let mut wire = Vec::new();
    write_raw(&mut wire, MESSAGE, b'A', &[0; 16]).expect("written");
    assert!(
        read_secure(&mut Cursor::new(&wire), 1 << 20).is_err(),
        "aborted"
    );
    let mut wire = Vec::new();
    write_raw(&mut wire, HELLO, b'F', &[]).expect("written");
    assert!(
        read_secure(&mut Cursor::new(&wire), 1 << 20).is_err(),
        "not secure"
    );
    assert_eq!(
        read_raw(&mut Cursor::new(&wire[..0]), 64).expect("closed"),
        None
    );
    assert!(
        expect_raw(&mut Cursor::new(&wire[..0]), 64).is_err(),
        "closed"
    );
}

fn message(kind: [u8; 3], body: &[u8]) -> Secure {
    Secure {
        kind,
        channel_id: 1,
        token_id: 2,
        sequence: 3,
        request_id: 4,
        body: body.to_vec(),
    }
}

#[test]
fn limits_and_letters_are_these_bytes() {
    assert_eq!(&HELLO, b"HEL");
    assert_eq!(&opc_ua::channel::ACKNOWLEDGE, b"ACK");
    assert_eq!(&ERROR, b"ERR");
    assert_eq!(&OPEN, b"OPN");
    assert_eq!(&MESSAGE, b"MSG");
    assert_eq!(&CLOSE, b"CLO");
    let ack = Acknowledge {
        limits: Limits::default(),
    };
    assert_eq!(
        ack.to_bytes(),
        [0, 0, 0, 0, 0xff, 0xff, 0, 0, 0xff, 0xff, 0, 0, 0, 0, 0, 0, 0, 0, 0, 0]
    );
    let small = Hello {
        limits: Limits {
            send_buffer: 8_191,
            ..Limits::default()
        },
        endpoint_url: String::new(),
    };
    let error = Hello::from_bytes(&small.to_bytes()).expect_err("small");
    assert_eq!(
        error.message,
        "a buffer under the eight kibibytes the protocol asks"
    );
    let least = Acknowledge {
        limits: Limits {
            receive_buffer: 8_192,
            send_buffer: 8_192,
            max_message: 1,
            max_chunks: 2,
        },
    };
    assert_eq!(
        Acknowledge::from_bytes(&least.to_bytes()).expect("least"),
        least
    );
    assert_eq!(least.limits.chunk_body(), 8_168);
}

#[test]
fn a_raw_message_is_its_letters_its_size_and_its_body() {
    let mut wire = vec![9];
    write_raw(&mut wire, MESSAGE, b'C', b"ab").expect("written");
    assert_eq!(wire, b"\x09MSGC\x0a\0\0\0ab");
    let mut input = Cursor::new(&wire[1..]);
    assert_eq!(
        read_raw(&mut input, 2).expect("read"),
        Some((MESSAGE, b'C', b"ab".to_vec()))
    );
    assert!(input.remaining().is_empty());
    let error = read_raw(&mut Cursor::new(&wire[1..]), 1).expect_err("over max");
    assert_eq!(error.message, "a message of 10 bytes");
    assert_eq!(body_length(&wire[1..9], 2).expect("two"), 2);
    let error = body_length(b"MSGF\x07\0\0\0", 100).expect_err("less than a header");
    assert_eq!(error.message, "a message of 7 bytes");
    for cut in 1..10 {
        let error = read_raw(&mut Cursor::new(&wire[1..1 + cut]), 2).expect_err("cut");
        assert_eq!(error.message, "the connection closed mid-message");
        assert!(!error.retryable);
    }
    let error = expect_raw(&mut Cursor::new(&[]), 2).expect_err("closed");
    assert_eq!(error.message, "the other side closed the connection");
    let error = expect_secure(&mut Cursor::new(&[]), 2).expect_err("closed");
    assert_eq!(error.message, "the other side closed the connection");
    assert!(read_secure(&mut Cursor::new(&[]), 2).expect("closed").is_none());
}

#[test]
fn a_secure_message_is_its_headers_and_its_pieces() {
    let mut wire = Vec::new();
    let next = write_secure(&mut wire, &message(MESSAGE, b"abc"), 2).expect("written");
    assert_eq!(next, 5);
    assert_eq!(
        wire,
        [
            &b"MSGC"[..],
            &[26, 0, 0, 0, 1, 0, 0, 0, 2, 0, 0, 0, 3, 0, 0, 0, 4, 0, 0, 0],
            b"ab",
            b"MSGF",
            &[25, 0, 0, 0, 1, 0, 0, 0, 2, 0, 0, 0, 4, 0, 0, 0, 4, 0, 0, 0],
            b"c",
        ]
        .concat()
    );
    let mut open = Vec::new();
    write_secure(&mut open, &message(OPEN, b"o"), 100).expect("written");
    assert_eq!(open.len(), 8 + 4 + 4 + NONE_POLICY.len() + 4 + 4 + 8 + 1);
    let read = expect_secure(&mut Cursor::new(&open), 1 << 20).expect("read");
    assert_eq!(read.token_id, 0, "an open carries no token");
    assert_eq!(read.body, b"o");
}

#[test]
fn every_size_of_chunk_carries_the_same_message() {
    let body: Vec<u8> = (0..100u32).map(|n| n as u8).collect();
    for chunk in [0usize, 1, 2, 3, 7, 50, 99, 100, 101, 1 << 20] {
        let mut wire = Vec::new();
        let sent = message(CLOSE, &body);
        let next = write_secure(&mut wire, &sent, chunk).expect("written");
        let count = body.len().div_ceil(chunk.max(1)).max(1) as u32;
        assert_eq!(next, 3 + count, "{chunk}");
        wire.extend_from_slice(b"behind");
        let mut input = Cursor::new(&wire);
        assert_eq!(expect_secure(&mut input, 1 << 20).expect("read"), sent);
        assert_eq!(input.remaining(), b"behind");
    }
    let mut wire = Vec::new();
    let last = Secure {
        sequence: u32::MAX,
        ..message(MESSAGE, &body)
    };
    assert_eq!(write_secure(&mut wire, &last, 50).expect("written"), 1);
}

#[test]
fn a_message_cut_anywhere_is_an_error() {
    let mut wire = Vec::new();
    write_secure(&mut wire, &message(MESSAGE, b"abcdef"), 3).expect("written");
    for cut in 1..wire.len() {
        let error = read_secure(&mut Cursor::new(&wire[..cut]), 1 << 20).expect_err("cut");
        assert_eq!(error.message, "the connection closed mid-message");
        for max in [0usize, 3, 18, 19, 20] {
            assert!(read_secure(&mut Cursor::new(&wire[..cut]), max).is_err());
        }
    }
    let mut wire = Vec::new();
    write_secure(&mut wire, &message(HELLO, b"abcdef"), 3).expect("written");
    for cut in 1..wire.len() {
        assert!(read_secure(&mut Cursor::new(&wire[..cut]), 1 << 20).is_err());
    }
}

#[test]
fn a_message_over_what_is_read_says_so() {
    let mut wire = Vec::new();
    write_secure(&mut wire, &message(MESSAGE, &[7; 60]), 20).expect("written");
    let error = read_secure(&mut Cursor::new(&wire), 50).expect_err("over");
    assert_eq!(error.message, "a message over the 50 bytes read here");
    let error = read_secure(&mut Cursor::new(&wire), 30).expect_err("a chunk over");
    assert_eq!(error.message, "a message of 44 bytes");
}

#[test]
fn a_chunk_fits_the_receive_buffer_of_its_side() {
    let limits = Limits {
        receive_buffer: 8_192,
        ..Limits::default()
    };
    let mut wire = Vec::new();
    write_secure(&mut wire, &message(MESSAGE, &[1; 20_000]), limits.chunk_body())
        .expect("written");
    let mut input = Cursor::new(&wire);
    let mut sizes = Vec::new();
    while let Some((_, _, body)) = read_raw(&mut input, 1 << 20).expect("read") {
        sizes.push(body.len() + 8);
    }
    assert_eq!(sizes, [8_192, 8_192, 3_688]);
}

#[test]
fn what_is_not_of_the_message_is_refused_by_name() {
    let mut wire = Vec::new();
    write_raw(&mut wire, HELLO, b'F', &[]).expect("written");
    let error = read_secure(&mut Cursor::new(&wire), 64).expect_err("not secure");
    assert_eq!(error.message, "HEL where a secure message was expected");
    let mut wire = Vec::new();
    write_raw(&mut wire, [0xff, b'E', b'L'], b'F', &[]).expect("written");
    let error = read_secure(&mut Cursor::new(&wire), 64).expect_err("not secure");
    assert_eq!(error.message, "\u{fffd}EL where a secure message was expected");
    let mut wire = Vec::new();
    write_raw(&mut wire, MESSAGE, b'A', &[0; 16]).expect("written");
    let error = read_secure(&mut Cursor::new(&wire), 64).expect_err("aborted");
    assert_eq!(error.message, "the other side aborted the message");
    let mut wire = Vec::new();
    write_raw(&mut wire, MESSAGE, b'C', &[0; 16]).expect("written");
    let mut other = [0u8; 16];
    other[12] = 1;
    write_raw(&mut wire, MESSAGE, b'F', &other).expect("written");
    let error = read_secure(&mut Cursor::new(&wire), 64).expect_err("another request");
    assert_eq!(
        error.message,
        "a chunk of another message in the middle of this one"
    );
    let mut wire = Vec::new();
    write_raw(&mut wire, MESSAGE, b'C', &[0; 16]).expect("written");
    write_raw(&mut wire, CLOSE, b'F', &[0; 16]).expect("written");
    let error = read_secure(&mut Cursor::new(&wire), 64).expect_err("another kind");
    assert_eq!(
        error.message,
        "a chunk of another message in the middle of this one"
    );
    let mut signed = Vec::new();
    signed
        .u32_le(0)
        .string(Some("http://opcfoundation.org/UA/SecurityPolicy#Basic256Sha256"))
        .byte_string(None)
        .byte_string(None)
        .u32_le(1)
        .u32_le(1);
    let mut wire = Vec::new();
    write_raw(&mut wire, OPEN, b'F', &signed).expect("written");
    let error = read_secure(&mut Cursor::new(&wire), 1 << 10).expect_err("signed");
    assert_eq!(
        error.message,
        "security policy http://opcfoundation.org/UA/SecurityPolicy#Basic256Sha256, \
         and this crate speaks None"
    );
    let mut wire = Vec::new();
    write_raw(&mut wire, MESSAGE, b'F', &[0; 15]).expect("written");
    assert!(read_secure(&mut Cursor::new(&wire), 64).is_err(), "no header");
}

#[test]
fn an_error_between_two_chunks_is_the_error() {
    let mut wire = Vec::new();
    write_secure(&mut wire, &message(MESSAGE, b"abcdef"), 3).expect("written");
    let first = 8 + 16 + 3;
    let fault = Fault {
        code: 0x8080_0000,
        reason: "too large".to_string(),
    };
    let mut broken = wire[..first].to_vec();
    write_raw(&mut broken, ERROR, b'F', &fault.to_bytes()).expect("written");
    let error = read_secure(&mut Cursor::new(&broken), 1 << 20).expect_err("an error");
    assert_eq!(
        error.message,
        "the other side closed with 0x80800000: too large"
    );
}

#[test]
fn one_chunk_at_a_time_comes_to_the_same_message() {
    let mut wire = Vec::new();
    let sent = message(MESSAGE, b"abcde");
    write_secure(&mut wire, &sent, 2).expect("written");
    let mut input = Cursor::new(&wire);
    let mut so_far = None;
    let mut steps = 0;
    let whole = loop {
        let raw = expect_raw(&mut input, 64).expect("raw");
        steps += 1;
        match join_chunk(so_far.take(), &raw, 64).expect("joined") {
            Step::More(more) => so_far = Some(more),
            Step::Whole(whole) => break whole,
        }
    };
    assert_eq!(steps, 3);
    assert_eq!(whole, sent);
}
