//! End-to-end request/reply scenarios over the driver step, and the
//! codec properties on concrete frames.

use redis::backend::Backend;
use redis::network::{server_step, StepOutcome};
use redis::resp::array::RespArray;
use redis::resp::bulk_string::BulkString;
use redis::resp::double::RespDouble;
use redis::resp::frame::RespFrame;
use redis::resp::map::RespMap;
use redis::resp::null::RespNull;
use redis::resp::set::RespSet;
use redis::resp::simple_error::SimpleError;
use redis::resp::simple_string::SimpleString;
use redis::resp::{RespEncode, RespError};

/// Send one request through the driver and return the reply bytes.
fn roundtrip(backend: &Backend, req: &[u8]) -> Vec<u8> {
    let mut buf: Vec<u8> = req.to_vec();
    match server_step(&mut buf, backend.clone()) {
        StepOutcome::Reply(bytes) => {
            assert!(buf.is_empty());
            bytes
        },
        _ => panic!("expected a reply"),
    }
}

#[test]
fn scenario_set_get() {
    let backend = Backend::new();
    let reply = roundtrip(&backend, b"*3\r\n$3\r\nset\r\n$3\r\nkey\r\n$5\r\nvalue\r\n");
    assert_eq!(reply, b"+OK\r\n");
    let reply = roundtrip(&backend, b"*2\r\n$3\r\nget\r\n$3\r\nkey\r\n");
    assert_eq!(reply, b"$5\r\nvalue\r\n");
}

#[test]
fn scenario_get_missing() {
    let backend = Backend::new();
    let reply = roundtrip(&backend, b"*2\r\n$3\r\nget\r\n$4\r\nnope\r\n");
    assert_eq!(reply, b"$-1\r\n");
}

#[test]
fn scenario_hset_then_hgetall_sorted() {
    let backend = Backend::new();
    let reply = roundtrip(
        &backend,
        b"*4\r\n$4\r\nhset\r\n$1\r\nk\r\n$6\r\nfield2\r\n$6\r\nvalue2\r\n",
    );
    assert_eq!(reply, b"+OK\r\n");
    let reply = roundtrip(
        &backend,
        b"*4\r\n$4\r\nhset\r\n$1\r\nk\r\n$6\r\nfield1\r\n$6\r\nvalue1\r\n",
    );
    assert_eq!(reply, b"+OK\r\n");
    let reply = roundtrip(&backend, b"*2\r\n$7\r\nhgetall\r\n$1\r\nk\r\n");
    assert_eq!(
        reply,
        b"*4\r\n$6\r\nfield1\r\n$6\r\nvalue1\r\n$6\r\nfield2\r\n$6\r\nvalue2\r\n"
    );
}

#[test]
fn scenario_hmget_mixed_hit_miss() {
    let backend = Backend::new();
    roundtrip(
        &backend,
        b"*4\r\n$4\r\nhset\r\n$1\r\nk\r\n$6\r\nfield2\r\n$6\r\nvalue2\r\n",
    );
    roundtrip(
        &backend,
        b"*4\r\n$4\r\nhset\r\n$1\r\nk\r\n$6\r\nfield1\r\n$6\r\nvalue1\r\n",
    );
    let reply = roundtrip(
        &backend,
        b"*4\r\n$5\r\nhmget\r\n$1\r\nk\r\n$6\r\nfield1\r\n$5\r\nnopef\r\n",
    );
    assert_eq!(reply, b"*2\r\n$6\r\nvalue1\r\n$-1\r\n");
}

#[test]
fn scenario_echo() {
    let backend = Backend::new();
    let reply = roundtrip(&backend, b"*2\r\n$4\r\necho\r\n$5\r\nhello\r\n");
    assert_eq!(reply, b"+hello\r\n");
}

#[test]
fn scenario_sadd_then_sismember() {
    let backend = Backend::new();
    let reply = roundtrip(&backend, b"*3\r\n$4\r\nsadd\r\n$1\r\ns\r\n$1\r\na\r\n");
    assert_eq!(reply, b":+1\r\n");
    let reply = roundtrip(&backend, b"*3\r\n$9\r\nsismember\r\n$1\r\ns\r\n$1\r\na\r\n");
    assert_eq!(reply, b":+1\r\n");
    let reply = roundtrip(&backend, b"*3\r\n$9\r\nsismember\r\n$1\r\ns\r\n$1\r\nb\r\n");
    assert_eq!(reply, b":+0\r\n");
}

#[test]
fn step_needs_more_on_partial_input() {
    let backend = Backend::new();
    let mut buf: Vec<u8> = b"*2\r\n$3\r\nget".to_vec();
    match server_step(&mut buf, backend.clone()) {
        StepOutcome::NeedMore => {},
        _ => panic!("expected to wait for more bytes"),
    }
    assert_eq!(buf, b"*2\r\n$3\r\nget".to_vec());
}

#[test]
fn step_closes_on_malformed_input() {
    let backend = Backend::new();
    let mut buf: Vec<u8> = b"!xyz\r\n".to_vec();
    match server_step(&mut buf, backend.clone()) {
        StepOutcome::Close(bytes) => {
            assert_eq!(bytes[0], b'-');
        },
        _ => panic!("expected the connection to close"),
    }
    assert_eq!(buf, b"!xyz\r\n".to_vec());
}

// ------------------------------------------------------------------
// codec properties on concrete frames
// ------------------------------------------------------------------

fn sample_frames() -> Vec<RespFrame> {
    let mut map = RespMap::new();
    map.insert(
        b"hello".to_vec(),
        RespFrame::BulkString(BulkString::new(b"world".to_vec())),
    );
    map.insert(b"num".to_vec(), RespFrame::Integer(-42));
    vec![
        RespFrame::SimpleString(SimpleString::new(b"OK".to_vec())),
        RespFrame::SimpleError(SimpleError::new(b"Error message".to_vec())),
        RespFrame::Integer(0),
        RespFrame::Integer(i64::MIN),
        RespFrame::Integer(i64::MAX),
        RespFrame::BulkString(BulkString::new(b"with\r\ninner crlf".to_vec())),
        RespFrame::BulkString(BulkString::new_null_string()),
        RespFrame::Array(RespArray::new_null_array()),
        RespFrame::Array(RespArray::new(vec![])),
        RespFrame::Null(RespNull),
        RespFrame::Boolean(true),
        RespFrame::Boolean(false),
        RespFrame::Double(RespDouble::new(format!("{:+e}", -1.23456e-8).into_bytes())),
        RespFrame::MapFrame(map),
        RespFrame::SetFrame(RespSet::new(vec![
            RespFrame::Integer(7),
            RespFrame::Array(RespArray::new(vec![RespFrame::Boolean(true)])),
        ])),
    ]
}

#[test]
fn round_trip_every_variant() {
    for frame in sample_frames() {
        let encoded = frame.clone().encode();
        let mut buf = encoded.clone();
        let decoded = RespFrame::decode(&mut buf).unwrap();
        assert_eq!(decoded, frame);
        assert!(buf.is_empty());
    }
}

#[test]
fn incremental_decode_every_split() {
    for frame in sample_frames() {
        let encoded = frame.clone().encode();
        for k in 0..encoded.len() {
            let mut prefix: Vec<u8> = encoded[..k].to_vec();
            let before = prefix.clone();
            let r = RespFrame::decode(&mut prefix);
            assert_eq!(r.unwrap_err(), RespError::NotCompleteFrame);
            assert_eq!(prefix, before);
        }
        let mut full = encoded.clone();
        assert_eq!(RespFrame::decode(&mut full).unwrap(), frame);
        assert!(full.is_empty());
    }
}

#[test]
fn malformed_rejection() {
    // no CRLF yet: incomplete, not malformed
    let mut buf: Vec<u8> = b"+bad".to_vec();
    assert_eq!(
        RespFrame::decode(&mut buf).unwrap_err(),
        RespError::NotCompleteFrame
    );

    // length says three bytes but only two are present before the CRLF:
    // the frame claims more bytes than the buffer holds
    let mut buf: Vec<u8> = b"$3\r\nok\r\n".to_vec();
    assert_eq!(
        RespFrame::decode(&mut buf).unwrap_err(),
        RespError::NotCompleteFrame
    );

    // unknown prefix byte
    let mut buf: Vec<u8> = b"!xyz\r\n".to_vec();
    match RespFrame::decode(&mut buf).unwrap_err() {
        RespError::InvalidFrameType(_) => {},
        e => panic!("expected a frame type error, got {:?}", e),
    }
}

#[test]
fn decode_error_variants() {
    // unparsable integer payload
    let mut buf: Vec<u8> = b":abc\r\n".to_vec();
    assert_eq!(
        RespFrame::decode(&mut buf).unwrap_err(),
        RespError::ParseIntError
    );

    // integer overflowing an i64
    let mut buf: Vec<u8> = b":9223372036854775808\r\n".to_vec();
    assert_eq!(
        RespFrame::decode(&mut buf).unwrap_err(),
        RespError::ParseIntError
    );

    // unparsable double payload
    let mut buf: Vec<u8> = b",abc\r\n".to_vec();
    assert_eq!(
        RespFrame::decode(&mut buf).unwrap_err(),
        RespError::ParseFloatError
    );

    // a negative length other than -1
    let mut buf: Vec<u8> = b"$-2\r\n".to_vec();
    assert_eq!(
        RespFrame::decode(&mut buf).unwrap_err(),
        RespError::InvalidFrameLength(-2)
    );

    // a null form for a set, which has none
    let mut buf: Vec<u8> = b"~-1\r\n".to_vec();
    assert_eq!(
        RespFrame::decode(&mut buf).unwrap_err(),
        RespError::InvalidFrameLength(-1)
    );
}

#[test]
fn double_grammar_accepts_and_rejects() {
    for good in [",inf\r\n", ",-Infinity\r\n", ",nan\r\n", ",.5\r\n", ",5.\r\n", ",1E+3\r\n"] {
        let mut buf: Vec<u8> = good.as_bytes().to_vec();
        assert!(RespFrame::decode(&mut buf).is_ok(), "{}", good);
        assert!(buf.is_empty());
    }
    for bad in [",.\r\n", ",1.2.3\r\n", ",e5\r\n", ",1e\r\n", ",+\r\n", ", 1\r\n"] {
        let mut buf: Vec<u8> = bad.as_bytes().to_vec();
        assert_eq!(
            RespFrame::decode(&mut buf).unwrap_err(),
            RespError::ParseFloatError,
            "{}",
            bad
        );
    }
}

#[test]
fn two_frames_in_one_buffer() {
    let backend = Backend::new();
    let mut buf: Vec<u8> =
        b"*3\r\n$3\r\nset\r\n$1\r\na\r\n$1\r\nx\r\n*2\r\n$3\r\nget\r\n$1\r\na\r\n".to_vec();
    match server_step(&mut buf, backend.clone()) {
        StepOutcome::Reply(bytes) => assert_eq!(bytes, b"+OK\r\n"),
        _ => panic!("expected a reply"),
    }
    match server_step(&mut buf, backend.clone()) {
        StepOutcome::Reply(bytes) => assert_eq!(bytes, b"$1\r\nx\r\n"),
        _ => panic!("expected a reply"),
    }
    assert!(buf.is_empty());
}

#[test]
fn bad_command_replies_error_and_keeps_buffer_going() {
    let backend = Backend::new();
    // GET with the wrong arity parses as a command error, not a codec error
    let reply = roundtrip(&backend, b"*1\r\n$3\r\nget\r\n");
    assert_eq!(reply[0], b'-');
}

#[test]
fn sadd_requires_a_member() {
    let backend = Backend::new();
    // key alone, no member: rejected rather than silently adding nothing
    let reply = roundtrip(&backend, b"*2\r\n$4\r\nsadd\r\n$1\r\ns\r\n");
    assert_eq!(reply[0], b'-');
}

#[test]
fn set_always_replies_ok_even_when_overwriting() {
    let backend = Backend::new();
    let reply = roundtrip(&backend, b"*3\r\n$3\r\nset\r\n$1\r\nk\r\n$1\r\na\r\n");
    assert_eq!(reply, b"+OK\r\n");
    let reply = roundtrip(&backend, b"*3\r\n$3\r\nset\r\n$1\r\nk\r\n$1\r\nb\r\n");
    assert_eq!(reply, b"+OK\r\n");
    let reply = roundtrip(&backend, b"*2\r\n$3\r\nget\r\n$1\r\nk\r\n");
    assert_eq!(reply, b"$1\r\nb\r\n");
}
