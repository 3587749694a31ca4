//! The HMGET command: batch hash lookup.

use vstd::prelude::*;

verus! {

use crate::backend::Backend;
use crate::cmd::{bulk_bytes, is_utf8_bulk, CommandExecuter};
use crate::resp::array::RespArray;
use crate::resp::bulk_string::BulkString;
use crate::resp::frame::{lemma_frames_view, RespFrame};
use crate::resp::model::FrameVal;
use crate::resp::RespError;
use crate::utf8::check_utf8;

/// One key and the fields to look up in its hash.
#[derive(Debug)]
pub struct HmGet {
    pub key: Vec<u8>,
    pub fields: Vec<Vec<u8>>,
}

impl CommandExecuter for HmGet {
    /// Per-field lookup; each missing field yields a null bulk string.
    /// The reply is an array with one element per requested field.
    fn execute(self, backend: Backend) -> (r: RespFrame)
        ensures
            r@ matches FrameVal::Arr(items) && items matches Some(vs) && vs.len()
                == self.fields@.len(),
    {
        let HmGet { key, fields } = self;
        let mut out: Vec<RespFrame> = Vec::new();
        let mut i: usize = 0;
        while i < fields.len()
            invariant
                0 <= i <= fields@.len(),
                out@.len() == i,
            decreases fields@.len() - i,
        {
            let resp = crate::cmd::hmap::hget_reply(
                backend.hget(key.as_slice(), fields[i].as_slice()),
            );
            out.push(resp);
            i = i + 1;
        }
        proof {
            lemma_frames_view(out@);
        }
        RespFrame::Array(RespArray(Some(out)))
    }
}

impl HmGet {
    /// `HMGET key field...`: at least three elements; the key and every
    /// field must be UTF-8 bulk strings.
    pub fn try_from(value: RespArray) -> (r: Result<HmGet, RespError>)
        ensures
            match r {
                Ok(h) => value@ matches Some(items) && items.len() >= 3 && is_utf8_bulk(items[1])
                    && h.key@ == bulk_bytes(items[1]) && h.fields@.len() == items.len() - 2
                    && forall|j: int|
                    0 <= j < h.fields@.len() ==> is_utf8_bulk(#[trigger] items[j + 2]) && h.fields@[
                    j]@ == bulk_bytes(items[j + 2]),
                Err(e) => match value@ {
                    Some(items) => !(items.len() >= 3 && is_utf8_bulk(items[1]) && forall|j: int|
                        2 <= j < items.len() ==> is_utf8_bulk(#[trigger] items[j])) && (
                    if items.len() < 3 {
                        e matches RespError::InvalidFrameLength(l) && (items.len() <= i64::MAX
                            ==> l as int == items.len() as int)
                    } else {
                        e is InvalidFrame
                    }),
                    None => e matches RespError::InvalidFrameLength(l) && l == 0,
                },
            },
    {
        let len: usize = match &value.0 {
            Some(v) => {
                proof {
                    lemma_frames_view(v@);
                }
                v.len()
            },
            None => 0,
        };
        if len < 3 {
            return Err(RespError::InvalidFrameLength(len as i64));
        }
        let mut v = match value.0 {
            Some(v) => v,
            None => {
                return Err(RespError::InvalidFrame(crate::cmd::key_err_msg()));
            },
        };
        let ghost items = crate::resp::frame::frames_view(v@);
        proof {
            lemma_frames_view(v@);
        }
        let mut rest = v.split_off(2);
        proof {
            lemma_frames_view(v@);
        }
        let second = v.remove(1);
        proof {
            assert(second@ == items[1]);
        }
        let key = match second {
            RespFrame::BulkString(b) => match b.0 {
                Some(k) => k,
                None => {
                    return Err(RespError::InvalidFrame(crate::cmd::key_err_msg()));
                },
            },
            _ => {
                return Err(RespError::InvalidFrame(crate::cmd::key_err_msg()));
            },
        };
        if !check_utf8(key.as_slice()) {
            proof {
                assert(!is_utf8_bulk(items[1]));
            }
            return Err(RespError::InvalidFrame(crate::cmd::key_err_msg()));
        }
        proof {
            assert(is_utf8_bulk(items[1]) && key@ == bulk_bytes(items[1]));
        }
        let fields = match parse_fields(&rest) {
            Ok(fs) => fs,
            Err(e) => {
                proof {
                    lemma_frames_view(rest@);
                    let bad = choose|t: int|
                        0 <= t < rest@.len() && !is_utf8_bulk((#[trigger] rest@[t])@);
                    assert(rest@[bad]@ == items[bad + 2]);
                    assert(!is_utf8_bulk(items[bad + 2]));
                    assert(2 <= bad + 2 < items.len());
                }
                return Err(e);
            },
        };
        proof {
            lemma_frames_view(rest@);
            assert forall|j: int|
                0 <= j < fields@.len() implies is_utf8_bulk(#[trigger] items[j + 2]) && fields@[j]@
                == bulk_bytes(items[j + 2]) by {
                assert(rest@[j]@ == items[j + 2]);
                assert(is_utf8_bulk(rest@[j]@));
                assert(fields@[j]@ == bulk_bytes(rest@[j]@));
            }
        }
        Ok(HmGet { key, fields })
    }
}

/// Each element must be a UTF-8 bulk string; collect their payloads.
fn parse_fields(rest: &Vec<RespFrame>) -> (r: Result<Vec<Vec<u8>>, RespError>)
    ensures
        match r {
            Ok(fs) => fs@.len() == rest@.len() && forall|j: int|
                0 <= j < rest@.len() ==> is_utf8_bulk((#[trigger] rest@[j])@) && fs@[j]@
                    == bulk_bytes(rest@[j]@),
            Err(e) => e is InvalidFrame && exists|j: int|
                0 <= j < rest@.len() && !is_utf8_bulk((#[trigger] rest@[j])@),
        },
{
    let mut fields: Vec<Vec<u8>> = Vec::new();
    let mut i: usize = 0;
    while i < rest.len()
        invariant
            0 <= i <= rest@.len(),
            fields@.len() == i,
            forall|j: int|
                0 <= j < i ==> is_utf8_bulk((#[trigger] rest@[j])@) && fields@[j]@ == bulk_bytes(
                    rest@[j]@,
                ),
        decreases rest@.len() - i,
    {
        let f = match &rest[i] {
            RespFrame::BulkString(b) => match &b.0 {
                Some(fb) => crate::resp::frame::clone_bytes(fb),
                None => {
                    proof {
                        assert(!is_utf8_bulk(rest@[i as int]@));
                    }
                    return Err(RespError::InvalidFrame(crate::cmd::key_err_msg()));
                },
            },
            _ => {
                proof {
                    assert(!is_utf8_bulk(rest@[i as int]@));
                }
                return Err(RespError::InvalidFrame(crate::cmd::key_err_msg()));
            },
        };
        if !check_utf8(f.as_slice()) {
            proof {
                assert(!is_utf8_bulk(rest@[i as int]@));
            }
            return Err(RespError::InvalidFrame(crate::cmd::key_err_msg()));
        }
        fields.push(f);
        i = i + 1;
    }
    Ok(fields)
}

} // verus!
