//! The shared codec helpers.

use redis::resp::frame::RespFrame;
use redis::resp::{calc_total_length, extract_simple_frame_data, find_crlf, parse_length};

#[test]
fn test_find_crlf() {
    let buf = b"hello\r\nworld";
    assert_eq!(find_crlf(buf), Some(5));
}

#[test]
fn test_calc_total_length() {
    let buf: Vec<u8> = b"%2\r\n+hello\r\n$5\r\nworld\r\n+foo\r\n$3\r\nbar\r\n".to_vec();
    let len = RespFrame::expect_length(&buf).unwrap();
    assert_eq!(len, 38);
    let buf: Vec<u8> =
        b"*5\r\n+hello\r\n$5\r\nworld\r\n+foo\r\n$3\r\nbar\r\n%2\r\n+hello\r\n$5\r\nworld\r\n+foo\r\n$3\r\nbar\r\n"
        .to_vec();
    let len = RespFrame::expect_length(&buf).unwrap();
    assert_eq!(len, 76);
}

#[test]
fn test_extract_simple_frame_data() {
    let buf = b"+OK\r\n";
    assert_eq!(extract_simple_frame_data(buf, b'+').unwrap(), 3);
}

#[test]
fn test_parse_length() {
    let buf = b"*12\r\n+foo\r\n";
    let (end, len) = parse_length(buf, b'*').unwrap();
    assert_eq!(end, 3);
    assert_eq!(len, 12);
}

#[test]
fn test_calc_total_length_direct() {
    let buf: Vec<u8> = b"*2\r\n+a\r\n+b\r\n".to_vec();
    // header ends at index 2; two children of four bytes each
    let total = calc_total_length(&buf, 2, 2, b'*').unwrap();
    assert_eq!(total, 12);
}
