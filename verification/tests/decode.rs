//! Incremental decoding of every frame variant, with the restartable
//! buffer behavior.

use redis::resp::array::RespArray;
use redis::resp::bulk_string::BulkString;
use redis::resp::double::RespDouble;
use redis::resp::frame::RespFrame;
use redis::resp::map::RespMap;
use redis::resp::null::RespNull;
use redis::resp::set::RespSet;
use redis::resp::simple_error::SimpleError;
use redis::resp::simple_string::SimpleString;
use redis::resp::RespError;

#[test]
fn decode_test_simple_string_decode() {
    let mut buf: Vec<u8> = b"+OK\r\n".to_vec();
    let frame = SimpleString::decode(&mut buf).unwrap();
    assert_eq!(frame, SimpleString::new(b"OK".to_vec()));

    buf.extend_from_slice(b"+hello\r");
    let frame = SimpleString::decode(&mut buf);
    assert_eq!(frame.unwrap_err(), RespError::NotCompleteFrame);
    buf.extend_from_slice(b"\n");
    let frame = SimpleString::decode(&mut buf).unwrap();
    assert_eq!(frame, SimpleString::new(b"hello".to_vec()));
}

#[test]
fn decode_test_simple_string_length() {
    let buf: Vec<u8> = b"+OK\r\n".to_vec();
    let len = SimpleString::expect_length(&buf).unwrap();
    assert_eq!(len, 5);
}

#[test]
fn decode_test_simple_error_decode() {
    let mut buf: Vec<u8> = b"-Error message\r\n".to_vec();
    let frame = SimpleError::decode(&mut buf).unwrap();
    assert_eq!(frame, SimpleError::new(b"Error message".to_vec()));
}

#[test]
fn decode_test_bulk_string_decode() {
    let mut buf: Vec<u8> = b"$5\r\nhello\r\n".to_vec();
    let frame = BulkString::decode(&mut buf).unwrap();
    assert_eq!(frame, BulkString::new(b"hello".to_vec()));

    buf.extend_from_slice(b"$5\r\nhello");
    let frame = BulkString::decode(&mut buf);
    assert_eq!(frame.unwrap_err(), RespError::NotCompleteFrame);
    buf.extend_from_slice(b"\r\n");
    let frame = BulkString::decode(&mut buf).unwrap();
    assert_eq!(frame, BulkString::new(b"hello".to_vec()));
}

#[test]
fn decode_test_bulk_string_length() {
    let buf: Vec<u8> = b"$5\r\nhello\r\n".to_vec();
    let len = BulkString::expect_length(&buf).unwrap();
    assert_eq!(len, 11);
}

#[test]
fn decode_test_null_bulk_string_decode() {
    let mut buf: Vec<u8> = b"$-1\r\n".to_vec();
    let frame = BulkString::decode(&mut buf).unwrap();
    assert_eq!(frame, BulkString::new_null_string());
}

#[test]
fn decode_test_null_decode() {
    let mut buf: Vec<u8> = b"_\r\n".to_vec();
    let frame = RespNull::decode(&mut buf).unwrap();
    assert_eq!(frame, RespNull);
}

#[test]
fn decode_test_double_decode() {
    let mut buf: Vec<u8> = b",1.23456e-8\r\n".to_vec();
    let frame = RespDouble::decode(&mut buf).unwrap();
    assert_eq!(frame, RespDouble::new(b"1.23456e-8".to_vec()));
    let parsed: f64 = String::from_utf8(frame.0).unwrap().parse().unwrap();
    assert_eq!(parsed, 1.23456e-8);

    let mut buf: Vec<u8> = b",1234.56\r\n".to_vec();
    let frame = RespDouble::decode(&mut buf).unwrap();
    let parsed: f64 = String::from_utf8(frame.0).unwrap().parse().unwrap();
    assert_eq!(parsed, 1.23456e3);
}

#[test]
fn decode_test_map_decode() {
    let mut buf: Vec<u8> =
        b"%3\r\n+hello\r\n$5\r\nworld\r\n+foo\r\n$3\r\nbar\r\n+array\r\n*-1\r\n".to_vec();
    let mut map = RespMap::new();
    map.insert(
        b"hello".to_vec(),
        RespFrame::BulkString(BulkString::new(b"world".to_vec())),
    );
    map.insert(
        b"foo".to_vec(),
        RespFrame::BulkString(BulkString::new(b"bar".to_vec())),
    );
    map.insert(b"array".to_vec(), RespFrame::Array(RespArray::new_null_array()));

    let frame = RespMap::decode(&mut buf).unwrap();
    assert_eq!(frame, map);
}

#[test]
fn decode_test_array_decode() {
    let mut buf: Vec<u8> =
        b"*4\r\n+foo\r\n+bar\r\n$3\r\nbaz\r\n%2\r\n+hello\r\n$5\r\nworld\r\n+foo\r\n".to_vec();
    let mut map = RespMap::new();
    map.insert(
        b"hello".to_vec(),
        RespFrame::BulkString(BulkString::new(b"world".to_vec())),
    );
    map.insert(
        b"foo".to_vec(),
        RespFrame::BulkString(BulkString::new(b"bar".to_vec())),
    );
    let array = RespArray::new(vec![
        RespFrame::SimpleString(SimpleString::new(b"foo".to_vec())),
        RespFrame::SimpleString(SimpleString::new(b"bar".to_vec())),
        RespFrame::BulkString(BulkString::new(b"baz".to_vec())),
        RespFrame::MapFrame(map),
    ]);
    let frame = RespArray::decode(&mut buf.clone());
    assert_eq!(frame.unwrap_err(), RespError::NotCompleteFrame);
    buf.extend_from_slice(b"$3\r\nbar\r\n");
    assert_eq!(RespArray::decode(&mut buf.clone()).unwrap(), array);
}

#[test]
fn decode_test_set_decode() {
    let mut buf: Vec<u8> = b"~3\r\n+foo\r\n+bar\r\n$3\r\nbaz\r\n".to_vec();
    let set: Vec<RespFrame> = vec![
        RespFrame::SimpleString(SimpleString::new(b"foo".to_vec())),
        RespFrame::SimpleString(SimpleString::new(b"bar".to_vec())),
        RespFrame::BulkString(BulkString::new(b"baz".to_vec())),
    ];
    let frame = RespSet::decode(&mut buf).unwrap();
    assert_eq!(frame, RespSet::new(set));
}

#[test]
fn simple_string_test_simple_string_decode() {
    let mut buf: Vec<u8> = b"+OK\r\n".to_vec();
    let frame = SimpleString::decode(&mut buf).unwrap();
    assert_eq!(frame, SimpleString::new(b"OK".to_vec()));

    buf.extend_from_slice(b"+hello\r");
    let frame = SimpleString::decode(&mut buf);
    assert_eq!(frame.unwrap_err(), RespError::NotCompleteFrame);
    buf.extend_from_slice(b"\n");
    let frame = SimpleString::decode(&mut buf).unwrap();
    assert_eq!(frame, SimpleString::new(b"hello".to_vec()));
}

#[test]
fn simple_string_test_simple_string_length() {
    let buf: Vec<u8> = b"+OK\r\n".to_vec();
    let len = SimpleString::expect_length(&buf).unwrap();
    assert_eq!(len, 5);
}

#[test]
fn simple_error_test_simple_error_decode() {
    let mut buf: Vec<u8> = b"-Error message\r\n".to_vec();
    let frame = SimpleError::decode(&mut buf).unwrap();
    assert_eq!(frame, SimpleError::new(b"Error message".to_vec()));
}

#[test]
fn bulk_string_test_bulk_string_decode() {
    let mut buf: Vec<u8> = b"$5\r\nhello\r\n".to_vec();
    let frame = BulkString::decode(&mut buf).unwrap();
    assert_eq!(frame, BulkString::new(b"hello".to_vec()));

    buf.extend_from_slice(b"$5\r\nhello");
    let frame = BulkString::decode(&mut buf);
    assert_eq!(frame.unwrap_err(), RespError::NotCompleteFrame);
    buf.extend_from_slice(b"\r\n");
    let frame = BulkString::decode(&mut buf).unwrap();
    assert_eq!(frame, BulkString::new(b"hello".to_vec()));
}

#[test]
fn bulk_string_test_bulk_string_length() {
    let buf: Vec<u8> = b"$5\r\nhello\r\n".to_vec();
    let len = BulkString::expect_length(&buf).unwrap();
    assert_eq!(len, 11);
}

#[test]
fn bulk_string_test_null_bulk_string_decode() {
    let mut buf: Vec<u8> = b"$-1\r\n".to_vec();
    let frame = BulkString::decode(&mut buf).unwrap();
    assert_eq!(frame, BulkString::new_null_string());
}

#[test]
fn null_test_null_decode() {
    let mut buf: Vec<u8> = b"_\r\n".to_vec();
    let frame = RespNull::decode(&mut buf).unwrap();
    assert_eq!(frame, RespNull);
}

#[test]
fn double_test_double_decode() {
    let mut buf: Vec<u8> = b",1.23456e-8\r\n".to_vec();
    let frame = RespDouble::decode(&mut buf).unwrap();
    let parsed: f64 = String::from_utf8(frame.0).unwrap().parse().unwrap();
    assert_eq!(parsed, 1.23456e-8);

    let mut buf: Vec<u8> = b",1234.56\r\n".to_vec();
    let frame = RespDouble::decode(&mut buf).unwrap();
    let parsed: f64 = String::from_utf8(frame.0).unwrap().parse().unwrap();
    assert_eq!(parsed, 1.23456e3);
}

#[test]
fn map_test_map_decode() {
    let mut buf: Vec<u8> =
        b"%3\r\n+hello\r\n$5\r\nworld\r\n+foo\r\n$3\r\nbar\r\n+array\r\n*-1\r\n".to_vec();
    let mut map = RespMap::new();
    map.insert(
        b"hello".to_vec(),
        RespFrame::BulkString(BulkString::new(b"world".to_vec())),
    );
    map.insert(
        b"foo".to_vec(),
        RespFrame::BulkString(BulkString::new(b"bar".to_vec())),
    );
    map.insert(b"array".to_vec(), RespFrame::Array(RespArray::new_null_array()));

    let frame = RespMap::decode(&mut buf).unwrap();
    assert_eq!(frame, map);
}

#[test]
fn set_test_set_decode() {
    let mut buf: Vec<u8> = b"~3\r\n+foo\r\n+bar\r\n$3\r\nbaz\r\n".to_vec();
    let set: Vec<RespFrame> = vec![
        RespFrame::SimpleString(SimpleString::new(b"foo".to_vec())),
        RespFrame::SimpleString(SimpleString::new(b"bar".to_vec())),
        RespFrame::BulkString(BulkString::new(b"baz".to_vec())),
    ];
    let frame = RespSet::decode(&mut buf).unwrap();
    assert_eq!(frame, RespSet::new(set));
}

#[test]
fn array_test_array_decode() {
    let mut buf: Vec<u8> =
        b"*4\r\n+foo\r\n+bar\r\n$3\r\nbaz\r\n%2\r\n+hello\r\n$5\r\nworld\r\n+foo\r\n".to_vec();
    let mut map = RespMap::new();
    map.insert(
        b"hello".to_vec(),
        RespFrame::BulkString(BulkString::new(b"world".to_vec())),
    );
    map.insert(
        b"foo".to_vec(),
        RespFrame::BulkString(BulkString::new(b"bar".to_vec())),
    );
    let array = RespArray::new(vec![
        RespFrame::SimpleString(SimpleString::new(b"foo".to_vec())),
        RespFrame::SimpleString(SimpleString::new(b"bar".to_vec())),
        RespFrame::BulkString(BulkString::new(b"baz".to_vec())),
        RespFrame::MapFrame(map),
    ]);
    let frame = RespArray::decode(&mut buf.clone());
    assert_eq!(frame.unwrap_err(), RespError::NotCompleteFrame);
    buf.extend_from_slice(b"$3\r\nbar\r\n");
    assert_eq!(RespArray::decode(&mut buf.clone()).unwrap(), array);
}
