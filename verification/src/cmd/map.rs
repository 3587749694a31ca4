//! The string keyspace commands GET and SET.

use vstd::prelude::*;

verus! {

use crate::backend::Backend;
use crate::cmd::{
    bulk_bytes, extract_args, is_utf8_bulk, resp_ok, validate_command, CommandError,
    CommandExecuter, Get, SetCmd, verb_is,
};
use crate::resp::array::RespArray;
use crate::resp::frame::{lemma_frames_view, RespFrame};
use crate::resp::model::FrameVal;
use crate::utf8::check_utf8;

/// The GET reply for a lookup result: the stored frame, or the null
/// bulk string when the key was absent.
pub fn get_reply(found: Option<RespFrame>) -> (r: RespFrame)
    ensures
        match found {
            Some(f) => r == f,
            None => r@ == FrameVal::Bulk(None),
        },
{
    match found {
        Some(f) => f,
        None => RespFrame::BulkString(crate::resp::bulk_string::BulkString(None)),
    }
}

impl CommandExecuter for Get {
    /// Look the key up in the string keyspace; which value is found is
    /// up to the shared store, and `get_reply` fixes the reply for
    /// every outcome.
    fn execute(self, backend: Backend) -> (r: RespFrame) {
        get_reply(backend.get(self.key.as_slice()))
    }
}

impl CommandExecuter for SetCmd {
    /// Store the value; the reply is always `+OK`, also when a previous
    /// value is overwritten.
    fn execute(self, backend: Backend) -> (r: RespFrame)
        ensures
            r@ == FrameVal::Simple(seq![79u8, 75u8]),
    {
        let SetCmd { key, value } = self;
        backend.set(key.as_slice(), value);
        resp_ok()
    }
}

impl Get {
    /// `GET key`: exactly one argument, a UTF-8 bulk-string key.
    pub fn try_from(value: RespArray) -> (r: Result<Get, CommandError>)
        ensures
            match r {
                Ok(g) => value@ matches Some(items) && items.len() == 2 && verb_is(
                    items,
                    seq![103u8, 101u8, 116u8],
                ) && is_utf8_bulk(items[1]) && g.key@ == bulk_bytes(items[1]),
                Err(e) => match value@ {
                    Some(items) => !(items.len() == 2 && verb_is(items, seq![103u8, 101u8, 116u8])
                        && is_utf8_bulk(items[1])),
                    None => true,
                },
            },
    {
        let name = super::verb_get();
        match validate_command(&value, name.as_slice(), 1) {
            Ok(_) => {},
            Err(e) => {
                return Err(e);
            },
        }
        let mut args = match extract_args(value, 1) {
            Ok(a) => a,
            Err(e) => {
                return Err(e);
            },
        };
        proof {
            lemma_frames_view(args@);
        }
        let first = args.remove(0);
        match first {
            RespFrame::BulkString(b) => match b.0 {
                Some(k) => {
                    if !check_utf8(k.as_slice()) {
                        Err(CommandError::Utf8Error)
                    } else {
                        Ok(Get { key: k })
                    }
                },
                None => Err(CommandError::Utf8Error),
            },
            _ => Err(CommandError::InvalidArgument(super::key_err_msg())),
        }
    }
}

impl SetCmd {
    /// `SET key value`: a UTF-8 bulk-string key and any frame as the
    /// value.
    pub fn try_from(value: RespArray) -> (r: Result<SetCmd, CommandError>)
        ensures
            match r {
                Ok(s) => value@ matches Some(items) && items.len() == 3 && verb_is(
                    items,
                    seq![115u8, 101u8, 116u8],
                ) && is_utf8_bulk(items[1]) && s.key@ == bulk_bytes(items[1]) && s.value@
                    == items[2],
                Err(e) => match value@ {
                    Some(items) => !(items.len() == 3 && verb_is(items, seq![115u8, 101u8, 116u8])
                        && is_utf8_bulk(items[1])),
                    None => true,
                },
            },
    {
        let name = super::verb_set();
        match validate_command(&value, name.as_slice(), 2) {
            Ok(_) => {},
            Err(e) => {
                return Err(e);
            },
        }
        let mut args = match extract_args(value, 1) {
            Ok(a) => a,
            Err(e) => {
                return Err(e);
            },
        };
        proof {
            lemma_frames_view(args@);
        }
        let first = args.remove(0);
        proof {
            lemma_frames_view(args@);
        }
        let second = args.remove(0);
        match first {
            RespFrame::BulkString(b) => match b.0 {
                Some(k) => {
                    if !check_utf8(k.as_slice()) {
                        Err(CommandError::Utf8Error)
                    } else {
                        Ok(SetCmd { key: k, value: second })
                    }
                },
                None => Err(CommandError::Utf8Error),
            },
            _ => Err(CommandError::InvalidArgument(super::key_err_msg())),
        }
    }
}

} // verus!
