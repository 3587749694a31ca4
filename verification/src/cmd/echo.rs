//! The ECHO command: reply the message as a simple string.

use vstd::prelude::*;

verus! {

use crate::backend::Backend;
use crate::cmd::{bulk_bytes, is_utf8_bulk, CommandExecuter};
use crate::resp::array::RespArray;
use crate::resp::frame::{lemma_frames_view, RespFrame};
use crate::resp::model::FrameVal;
use crate::resp::simple_string::SimpleString;
use crate::resp::RespError;
use crate::utf8::check_utf8;

/// The message to echo back.
#[derive(Debug)]
pub struct Echo(pub Vec<u8>);

impl CommandExecuter for Echo {
    /// The reply is the message itself as a simple string.
    fn execute(self, _backend: Backend) -> (r: RespFrame)
        ensures
            r@ == FrameVal::Simple(self.0@),
    {
        RespFrame::SimpleString(SimpleString(self.0))
    }
}

impl Echo {
    pub fn new(data: Vec<u8>) -> (r: Self)
        ensures
            r.0@ == data@,
    {
        Echo(data)
    }

    /// `ECHO msg`: exactly one argument, a UTF-8 bulk-string message.
    pub fn try_from(value: RespArray) -> (r: Result<Echo, RespError>)
        ensures
            match r {
                Ok(echo) => value@ matches Some(items) && items.len() == 2 && is_utf8_bulk(
                    items[1],
                ) && echo.0@ == bulk_bytes(items[1]),
                Err(e) => match value@ {
                    Some(items) => !(items.len() == 2 && is_utf8_bulk(items[1])) && (
                    if items.len() != 2 {
                        e matches RespError::InvalidFrameLength(l) && (items.len() <= i64::MAX
                            ==> l as int == items.len() as int)
                    } else {
                        match items[1] {
                            FrameVal::Bulk(d) => e is InvalidFrame,
                            _ => e is InvalidFrameType,
                        }
                    }),
                    None => e matches RespError::InvalidFrameLength(l) && l == 0,
                },
            },
    {
        let len: usize = match &value.0 {
            Some(v) => {
                proof {
                    lemma_frames_view(v@);
                }
                v.len()
            },
            None => 0,
        };
        if len != 2 {
            return Err(RespError::InvalidFrameLength(len as i64));
        }
        match value.0 {
            Some(mut v) => {
                proof {
                    lemma_frames_view(v@);
                }
                let second = v.remove(1);
                match second {
                    RespFrame::BulkString(b) => match b.0 {
                        Some(m) => {
                            if !check_utf8(m.as_slice()) {
                                Err(RespError::InvalidFrame(crate::cmd::key_err_msg()))
                            } else {
                                Ok(Echo(m))
                            }
                        },
                        None => Err(RespError::InvalidFrame(crate::cmd::key_err_msg())),
                    },
                    _ => Err(RespError::InvalidFrameType(crate::cmd::key_err_msg())),
                }
            },
            None => Err(RespError::InvalidFrame(crate::cmd::key_err_msg())),
        }
    }
}

} // verus!
