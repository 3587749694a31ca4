//! Command parsing and execution against the store.

use redis::backend::Backend;
use redis::cmd::echo::Echo;
use redis::cmd::hmget::HmGet;
use redis::cmd::set::{SAdd, SisMember};
use redis::cmd::{
    extract_args, resp_ok, validate_command, Command, CommandError, CommandExecuter, Get, HGet,
    HGetAll, HSet, SetCmd,
};
use redis::resp::array::RespArray;
use redis::resp::bulk_string::BulkString;
use redis::resp::double::RespDouble;
use redis::resp::frame::RespFrame;
use redis::resp::simple_string::SimpleString;
use redis::resp::RespEncode;

#[test]
fn test_echo_encode() {
    let echo = Echo::new(b"hello".to_vec());
    let resp = echo.execute(Backend::new());
    let encoded = resp.encode();
    assert_eq!(encoded, b"+hello\r\n");
}

#[test]
fn test_echo_decode() {
    let mut buf: Vec<u8> = b"*2\r\n$4\r\necho\r\n$5\r\nhello\r\n".to_vec();
    let frame = RespArray::decode(&mut buf).unwrap();
    let echo = Echo::try_from(frame).unwrap();
    assert_eq!(echo.0, b"hello".to_vec());
}

#[test]
fn test_get_try_from_resp_array() {
    let frame = RespArray::new(vec![
        RespFrame::BulkString(BulkString::new(b"get".to_vec())),
        RespFrame::BulkString(BulkString::new(b"key".to_vec())),
    ]);
    let get_cmd = Get::try_from(frame).unwrap();
    assert_eq!(get_cmd.key, b"key".to_vec());
}

#[test]
fn test_set_try_from_resp_array() {
    let mut buf: Vec<u8> = b"*3\r\n$3\r\nset\r\n$3\r\nkey\r\n$5\r\nvalue\r\n".to_vec();
    let frame = RespArray::decode(&mut buf).unwrap();
    let set_cmd = SetCmd::try_from(frame).unwrap();
    assert_eq!(set_cmd.key, b"key".to_vec());
    assert_eq!(
        set_cmd.value,
        RespFrame::BulkString(BulkString::new(b"value".to_vec()))
    );
}

#[test]
fn test_hget_try_from_resp_array() {
    let mut buf: Vec<u8> = b"*3\r\n$4\r\nhget\r\n$3\r\nkey\r\n$5\r\nfield\r\n".to_vec();
    let frame = RespArray::decode(&mut buf).unwrap();
    let hget_cmd = HGet::try_from(frame).unwrap();
    assert_eq!(hget_cmd.key, b"key".to_vec());
    assert_eq!(hget_cmd.field, b"field".to_vec());
}

#[test]
fn test_hgetall_try_from_resp_array() {
    let mut buf: Vec<u8> = b"*2\r\n$7\r\nhgetall\r\n$3\r\nkey\r\n".to_vec();
    let frame = RespArray::decode(&mut buf).unwrap();
    let hgetall_cmd = HGetAll::try_from(frame).unwrap();
    assert_eq!(hgetall_cmd.key, b"key".to_vec());
}

#[test]
fn test_hset_try_from_resp_array() {
    let mut buf: Vec<u8> =
        b"*4\r\n$4\r\nhset\r\n$3\r\nkey\r\n$5\r\nfield\r\n$5\r\nvalue\r\n".to_vec();
    let frame = RespArray::decode(&mut buf).unwrap();
    let hset_cmd = HSet::try_from(frame).unwrap();
    assert_eq!(hset_cmd.key, b"key".to_vec());
    assert_eq!(hset_cmd.field, b"field".to_vec());
    assert_eq!(
        hset_cmd.value,
        RespFrame::BulkString(BulkString::new(b"value".to_vec()))
    );
}

#[test]
fn test_hset_hgetall() {
    let backend = Backend::new();
    let mut hset1: Vec<u8> =
        b"*4\r\n$4\r\nhset\r\n$3\r\nkey\r\n$6\r\nfield1\r\n$6\r\nvalue1\r\n".to_vec();
    let mut hset2: Vec<u8> =
        b"*4\r\n$4\r\nhset\r\n$3\r\nkey\r\n$6\r\nfield2\r\n$6\r\nvalue2\r\n".to_vec();
    let hset1 = RespArray::decode(&mut hset1).unwrap();
    let hset2 = RespArray::decode(&mut hset2).unwrap();
    let hset1 = HSet::try_from(hset1).unwrap();
    let hset2 = HSet::try_from(hset2).unwrap();
    assert_eq!(hset1.execute(backend.clone()), resp_ok());
    assert_eq!(hset2.execute(backend.clone()), resp_ok());

    let mut hgetall: Vec<u8> = b"*2\r\n$7\r\nhgetall\r\n$3\r\nkey\r\n".to_vec();
    let hgetall = RespArray::decode(&mut hgetall).unwrap();
    let hgetall = HGetAll::try_from(hgetall).unwrap();
    let resp = hgetall.execute(backend.clone());

    let resp_array: Vec<RespFrame> = vec![
        RespFrame::BulkString(BulkString::new(b"field1".to_vec())),
        RespFrame::BulkString(BulkString::new(b"value1".to_vec())),
        RespFrame::BulkString(BulkString::new(b"field2".to_vec())),
        RespFrame::BulkString(BulkString::new(b"value2".to_vec())),
    ];
    assert_eq!(resp, RespFrame::Array(RespArray::new(resp_array)));

    let mut hgetall2: Vec<u8> = b"*2\r\n$7\r\nhgetall\r\n$4\r\nkey2\r\n".to_vec();
    let hgetall2 = RespArray::decode(&mut hgetall2).unwrap();
    let hgetall2 = HGetAll::try_from(hgetall2).unwrap();
    let resp2 = hgetall2.execute(backend.clone());
    println!("{:?}", resp2);
    assert_eq!(resp2, RespFrame::Array(RespArray::new(vec![])));
}

#[test]
fn test_hmget() {
    let backend = Backend::new();
    let mut hmget: Vec<u8> =
        b"*4\r\n$5\r\nhmget\r\n$3\r\nkey\r\n$6\r\nfield1\r\n$5\r\nfield\r\n".to_vec();
    let mut hset1: Vec<u8> =
        b"*4\r\n$4\r\nhset\r\n$3\r\nkey\r\n$6\r\nfield1\r\n$6\r\nvalue1\r\n".to_vec();
    let mut hset2: Vec<u8> =
        b"*4\r\n$4\r\nhset\r\n$3\r\nkey\r\n$6\r\nfield2\r\n$6\r\nvalue2\r\n".to_vec();
    let frame1 = RespFrame::decode(&mut hset1).unwrap();
    let frame2 = RespFrame::decode(&mut hset2).unwrap();
    let frame = RespFrame::decode(&mut hmget).unwrap();
    let hset1 = Command::try_from(frame1).unwrap();
    let hset2 = Command::try_from(frame2).unwrap();
    let hmget = Command::try_from(frame).unwrap();

    hset1.execute(backend.clone());
    hset2.execute(backend.clone());
    let resp = hmget.execute(backend.clone());
    assert_eq!(
        resp,
        RespFrame::Array(RespArray::new(vec![
            RespFrame::BulkString(BulkString::new(b"value1".to_vec())),
            RespFrame::BulkString(BulkString::new_null_string()),
        ]))
    );
}

#[test]
fn test_sadd() {
    let backend = Backend::new();
    let cmd1 = SAdd {
        key: b"key1".to_vec(),
        members: vec![
            RespFrame::SimpleString(SimpleString::new(b"value1".to_vec())),
            RespFrame::Integer(1),
            RespFrame::Double(RespDouble::new(format!("{:+e}", 1.0).into_bytes())),
        ],
    };
    let cmd2 = SAdd {
        key: b"key2".to_vec(),
        members: vec![
            RespFrame::SimpleString(SimpleString::new(b"value2".to_vec())),
            RespFrame::Integer(2),
            RespFrame::Array(RespArray::new_null_array()),
        ],
    };
    let resp = cmd1.execute(backend.clone());
    assert_eq!(resp, RespFrame::Integer(0));
    let resp = cmd2.execute(backend.clone());
    assert_eq!(resp, RespFrame::Integer(1));
}

#[test]
fn test_sismember() {
    let backend = Backend::new();
    let cmd1 = SAdd {
        key: b"key1".to_vec(),
        members: vec![
            RespFrame::SimpleString(SimpleString::new(b"value1".to_vec())),
            RespFrame::Integer(1),
        ],
    };
    cmd1.execute(backend.clone());
    let cmd2 = SisMember {
        key: b"key1".to_vec(),
        member: RespFrame::SimpleString(SimpleString::new(b"value1".to_vec())),
    };
    let resp = cmd2.execute(backend.clone());
    assert_eq!(resp, RespFrame::Integer(1));

    let cmd2 = SisMember {
        key: b"key1".to_vec(),
        member: RespFrame::SimpleString(SimpleString::new(b"zack".to_vec())),
    };
    let resp = cmd2.execute(backend.clone());
    assert_eq!(resp, RespFrame::Integer(0));
}

#[test]
fn test_hmget_try_from() {
    let mut buf: Vec<u8> =
        b"*4\r\n$5\r\nhmget\r\n$3\r\nkey\r\n$6\r\nfield1\r\n$5\r\nnopef\r\n".to_vec();
    let frame = RespArray::decode(&mut buf).unwrap();
    let cmd = HmGet::try_from(frame).unwrap();
    assert_eq!(cmd.key, b"key".to_vec());
    assert_eq!(cmd.fields, vec![b"field1".to_vec(), b"nopef".to_vec()]);
}

#[test]
fn test_unknown_verb_is_ok() {
    let mut buf: Vec<u8> = b"*1\r\n$4\r\nping\r\n".to_vec();
    let frame = RespFrame::decode(&mut buf).unwrap();
    let cmd = Command::try_from(frame).unwrap();
    let resp = cmd.execute(Backend::new());
    assert_eq!(resp, resp_ok());
}

#[test]
fn test_sadd_try_from_rejects_no_members() {
    let frame = RespArray::new(vec![
        RespFrame::BulkString(BulkString::new(b"sadd".to_vec())),
        RespFrame::BulkString(BulkString::new(b"key".to_vec())),
    ]);
    let r = SAdd::try_from(frame);
    assert_eq!(r.unwrap_err(), redis::resp::RespError::InvalidFrameLength(2));
}

#[test]
fn test_extract_args_past_the_end_is_empty() {
    let frame = RespArray::new(vec![RespFrame::BulkString(BulkString::new(b"x".to_vec()))]);
    let args = redis::cmd::extract_args(frame, 5).unwrap();
    assert!(args.is_empty());
}

#[test]
fn test_validate_command_error_variants() {
    // wrong arity: an invalid argument
    let frame = RespArray::new(vec![RespFrame::BulkString(BulkString::new(b"get".to_vec()))]);
    match validate_command(&frame, b"get", 1).unwrap_err() {
        CommandError::InvalidArgument(_) => {}
        e => panic!("expected an argument error, got {:?}", e),
    }
    // non-bulk first element: an invalid argument
    let frame = RespArray::new(vec![RespFrame::Integer(1), RespFrame::Integer(2)]);
    match validate_command(&frame, b"get", 1).unwrap_err() {
        CommandError::InvalidArgument(_) => {}
        e => panic!("expected an argument error, got {:?}", e),
    }
    // wrong verb: an invalid command
    let frame = RespArray::new(vec![
        RespFrame::BulkString(BulkString::new(b"put".to_vec())),
        RespFrame::BulkString(BulkString::new(b"key".to_vec())),
    ]);
    match validate_command(&frame, b"get", 1).unwrap_err() {
        CommandError::InvalidCommand(_) => {}
        e => panic!("expected a command error, got {:?}", e),
    }
}

#[test]
fn test_get_key_invalid_utf8() {
    let frame = RespArray::new(vec![
        RespFrame::BulkString(BulkString::new(b"get".to_vec())),
        RespFrame::BulkString(BulkString::new(vec![0xff, 0xfe])),
    ]);
    let r = Get::try_from(frame);
    assert_eq!(r.unwrap_err(), redis::cmd::CommandError::Utf8Error);
}
