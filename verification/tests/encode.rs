//! Encoding of every frame variant.

use redis::resp::array::RespArray;
use redis::resp::bulk_string::BulkString;
use redis::resp::double::RespDouble;
use redis::resp::frame::RespFrame;
use redis::resp::map::RespMap;
use redis::resp::null::RespNull;
use redis::resp::set::RespSet;
use redis::resp::simple_error::SimpleError;
use redis::resp::simple_string::SimpleString;
use redis::resp::RespEncode;

fn double_text(x: f64) -> Vec<u8> {
    format!("{:+e}", x).into_bytes()
}

#[test]
fn encode_test_simple_string_encode() {
    let frame = RespFrame::SimpleString(SimpleString::new(b"OK".to_vec()));
    assert_eq!(frame.encode(), b"+OK\r\n");
}

#[test]
fn encode_test_simple_error_encode() {
    let frame = RespFrame::SimpleError(SimpleError::new(b"Error message".to_vec()));
    assert_eq!(frame.encode(), b"-Error message\r\n");
}

#[test]
fn encode_test_integer_encode() {
    let frame = RespFrame::Integer(123);
    assert_eq!(frame.encode(), b":+123\r\n");

    let frame = RespFrame::Integer(-123);
    assert_eq!(frame.encode(), b":-123\r\n");
}

#[test]
fn encode_test_bulk_string_encode() {
    let frame = RespFrame::BulkString(BulkString::new(b"foobar".to_vec()));
    assert_eq!(frame.encode(), b"$6\r\nfoobar\r\n");
}

#[test]
fn encode_test_null_bulk_string_encode() {
    let frame = RespFrame::BulkString(BulkString::new_null_string());
    assert_eq!(frame.encode(), b"$-1\r\n");
}

#[test]
fn encode_test_array_encode() {
    let array: Vec<RespFrame> = vec![
        RespFrame::SimpleString(SimpleString::new(b"foo".to_vec())),
        RespFrame::SimpleString(SimpleString::new(b"bar".to_vec())),
        RespFrame::BulkString(BulkString::new(b"baz".to_vec())),
    ];
    let frame = RespFrame::Array(RespArray::new(array));
    assert_eq!(
        String::from_utf8_lossy(&frame.encode()),
        "*3\r\n+foo\r\n+bar\r\n$3\r\nbaz\r\n"
    );
}

#[test]
fn encode_test_null_array() {
    let frame = RespFrame::Array(RespArray::new_null_array());
    assert_eq!(frame.encode(), b"*-1\r\n");
}

#[test]
fn encode_test_boolean_encode() {
    let frame = RespFrame::Boolean(true);
    assert_eq!(frame.encode(), b"#t\r\n");

    let frame = RespFrame::Boolean(false);
    assert_eq!(frame.encode(), b"#f\r\n");
}

#[test]
fn encode_test_double_encode() {
    let frame = RespFrame::Double(RespDouble::new(double_text(5.21)));
    assert_eq!(String::from_utf8_lossy(&frame.encode()), ",+5.21e0\r\n");

    let frame = RespFrame::Double(RespDouble::new(double_text(-5.21)));
    assert_eq!(frame.encode(), b",-5.21e0\r\n");

    let frame = RespFrame::Double(RespDouble::new(double_text(1.23456e+8)));
    assert_eq!(String::from_utf8_lossy(&frame.encode()), ",+1.23456e8\r\n");

    let frame = RespFrame::Double(RespDouble::new(double_text(-1.23456e-8)));
    assert_eq!(frame.encode(), b",-1.23456e-8\r\n");
}

#[test]
fn encode_test_map_encode() {
    let mut map = RespMap::new();
    map.insert(
        b"hello".to_vec(),
        RespFrame::SimpleString(SimpleString::new(b"world".to_vec())),
    );
    map.insert(
        b"foo".to_vec(),
        RespFrame::Double(RespDouble::new(double_text(-123456.789))),
    );
    let frame = RespFrame::MapFrame(map);
    assert_eq!(
        String::from_utf8_lossy(&frame.encode()),
        "%2\r\n+foo\r\n,-1.23456789e5\r\n+hello\r\n+world\r\n"
    );
}

#[test]
fn encode_test_set_encode() {
    let set = vec![
        RespFrame::SimpleString(SimpleString::new(b"foo".to_vec())),
        RespFrame::SimpleString(SimpleString::new(b"bar".to_vec())),
        RespFrame::Double(RespDouble::new(double_text(-5.21))),
        RespFrame::Array(RespArray::new(vec![RespFrame::SimpleString(
            SimpleString::new(b"hello".to_vec()),
        )])),
    ];
    let frame = RespFrame::Array(RespArray::new(set));
    assert_eq!(frame.encode(), b"*4\r\n+foo\r\n+bar\r\n,-5.21e0\r\n*1\r\n+hello\r\n");
}

#[test]
fn integer_test_integer_encode() {
    let frame = RespFrame::Integer(123);
    assert_eq!(frame.encode(), b":+123\r\n");

    let frame = RespFrame::Integer(-123);
    assert_eq!(frame.encode(), b":-123\r\n");
}

#[test]
fn boolean_test_boolean_encode() {
    let frame = RespFrame::Boolean(true);
    assert_eq!(frame.encode(), b"#t\r\n");

    let frame = RespFrame::Boolean(false);
    assert_eq!(frame.encode(), b"#f\r\n");
}

#[test]
fn double_test_double_encode() {
    let frame = RespFrame::Double(RespDouble::new(double_text(5.21)));
    assert_eq!(String::from_utf8_lossy(&frame.encode()), ",+5.21e0\r\n");

    let frame = RespFrame::Double(RespDouble::new(double_text(-5.21)));
    assert_eq!(frame.encode(), b",-5.21e0\r\n");

    let frame = RespFrame::Double(RespDouble::new(double_text(1.23456e+8)));
    assert_eq!(String::from_utf8_lossy(&frame.encode()), ",+1.23456e8\r\n");

    let frame = RespFrame::Double(RespDouble::new(double_text(-1.23456e-8)));
    assert_eq!(frame.encode(), b",-1.23456e-8\r\n");
}

#[test]
fn map_test_map_encode() {
    let mut map = RespMap::new();
    map.insert(
        b"hello".to_vec(),
        RespFrame::SimpleString(SimpleString::new(b"world".to_vec())),
    );
    map.insert(
        b"foo".to_vec(),
        RespFrame::Double(RespDouble::new(double_text(-123456.789))),
    );
    let frame = RespFrame::MapFrame(map);
    assert_eq!(
        String::from_utf8_lossy(&frame.encode()),
        "%2\r\n+foo\r\n,-1.23456789e5\r\n+hello\r\n+world\r\n"
    );
}

#[test]
fn set_test_set_encode() {
    let arr = vec![
        RespFrame::SimpleString(SimpleString::new(b"foo".to_vec())),
        RespFrame::SimpleString(SimpleString::new(b"bar".to_vec())),
        RespFrame::Double(RespDouble::new(double_text(-5.21))),
        RespFrame::Array(RespArray::new(vec![RespFrame::SimpleString(
            SimpleString::new(b"hello".to_vec()),
        )])),
    ];
    let frame = RespFrame::Array(RespArray::new(arr));
    assert_eq!(frame.encode(), b"*4\r\n+foo\r\n+bar\r\n,-5.21e0\r\n*1\r\n+hello\r\n");
}

#[test]
fn array_test_array_encode() {
    let array: Vec<RespFrame> = vec![
        RespFrame::SimpleString(SimpleString::new(b"foo".to_vec())),
        RespFrame::SimpleString(SimpleString::new(b"bar".to_vec())),
        RespFrame::BulkString(BulkString::new(b"baz".to_vec())),
    ];
    let frame = RespFrame::Array(RespArray::new(array));
    assert_eq!(
        String::from_utf8_lossy(&frame.encode()),
        "*3\r\n+foo\r\n+bar\r\n$3\r\nbaz\r\n"
    );
}

#[test]
fn array_test_null_array() {
    let frame = RespFrame::Array(RespArray::new_null_array());
    assert_eq!(frame.encode(), b"*-1\r\n");
}

#[test]
fn bulk_string_test_bulk_string_encode() {
    let frame = RespFrame::BulkString(BulkString::new(b"foobar".to_vec()));
    assert_eq!(frame.encode(), b"$6\r\nfoobar\r\n");
}

#[test]
fn bulk_string_test_null_bulk_string_encode() {
    let frame = RespFrame::BulkString(BulkString::new_null_string());
    assert_eq!(frame.encode(), b"$-1\r\n");
}

#[test]
fn simple_string_test_simple_string_encode() {
    let frame = RespFrame::SimpleString(SimpleString::new(b"OK".to_vec()));
    assert_eq!(frame.encode(), b"+OK\r\n");
}

#[test]
fn simple_error_test_simple_error_encode() {
    let frame = RespFrame::SimpleError(SimpleError::new(b"Error message".to_vec()));
    assert_eq!(frame.encode(), b"-Error message\r\n");
}

#[test]
fn encode_null_frame() {
    let frame = RespFrame::Null(RespNull);
    assert_eq!(frame.encode(), b"_\r\n");
}

#[test]
fn encode_empty_set_frame() {
    let frame = RespFrame::SetFrame(RespSet::new(vec![]));
    assert_eq!(frame.encode(), b"~0\r\n");
}
