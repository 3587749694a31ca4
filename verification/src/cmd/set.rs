//! The set keyspace commands SADD and SISMEMBER.

use vstd::prelude::*;

verus! {

use crate::backend::Backend;
use crate::cmd::{bulk_bytes, is_utf8_bulk, CommandExecuter};
use crate::resp::array::RespArray;
use crate::resp::frame::{frames_view, lemma_frames_view, RespFrame};
use crate::resp::model::FrameVal;
use crate::resp::RespError;
use crate::utf8::check_utf8;

/// Members to add to the set at `key`.
#[derive(Debug)]
pub struct SAdd {
    pub key: Vec<u8>,
    pub members: Vec<RespFrame>,
}

/// A membership test against the set at `key`.
#[derive(Debug)]
pub struct SisMember {
    pub key: Vec<u8>,
    pub member: RespFrame,
}

/// Whether some member is a double frame, which the set keyspace
/// refuses.
pub open spec fn has_double(ms: Seq<FrameVal>) -> bool {
    exists|i: int| 0 <= i < ms.len() && (#[trigger] ms[i]) matches FrameVal::Double(_)
}

impl CommandExecuter for SAdd {
    /// If any member is a double the whole command is rejected with `0`
    /// and nothing is stored; otherwise the members are added and the
    /// reply is `1`.
    fn execute(self, backend: Backend) -> (r: RespFrame)
        ensures
            r@ == FrameVal::Int(
                if has_double(frames_view(self.members@)) {
                    0
                } else {
                    1
                },
            ),
    {
        let ghost ms = frames_view(self.members@);
        proof {
            lemma_frames_view(self.members@);
        }
        let mut i: usize = 0;
        while i < self.members.len()
            invariant
                0 <= i <= self.members@.len(),
                ms == frames_view(self.members@),
                ms.len() == self.members@.len(),
                forall|j: int| 0 <= j < i ==> !((#[trigger] ms[j]) matches FrameVal::Double(_)),
            decreases self.members@.len() - i,
        {
            proof {
                lemma_frames_view(self.members@);
            }
            if matches!(&self.members[i], RespFrame::Double(_)) {
                proof {
                    assert(ms[i as int] matches FrameVal::Double(_));
                }
                return RespFrame::Integer(0);
            }
            i = i + 1;
        }
        proof {
            assert(!has_double(ms));
        }
        let SAdd { key, members } = self;
        backend.sadd(key.as_slice(), members);
        RespFrame::Integer(1)
    }
}

/// The SISMEMBER reply for a membership answer: `1` for a member,
/// `0` otherwise.
pub fn sismember_reply(found: bool) -> (r: RespFrame)
    ensures
        r@ == FrameVal::Int(
            if found {
                1
            } else {
                0
            },
        ),
{
    if found {
        RespFrame::Integer(1)
    } else {
        RespFrame::Integer(0)
    }
}

impl CommandExecuter for SisMember {
    /// Membership test; which answer the shared store gives is up to
    /// it, and `sismember_reply` fixes the reply for every answer.
    fn execute(self, backend: Backend) -> (r: RespFrame)
        ensures
            r@ == FrameVal::Int(0) || r@ == FrameVal::Int(1),
    {
        sismember_reply(backend.sismembers(self.key.as_slice(), &self.member))
    }
}

impl SAdd {
    /// `SADD key member...`: a UTF-8 bulk-string key, then at least one
    /// member frame of any variant.
    pub fn try_from(value: RespArray) -> (r: Result<SAdd, RespError>)
        ensures
            match r {
                Ok(a) => value@ matches Some(items) && items.len() >= 3 && is_utf8_bulk(items[1])
                    && a.key@ == bulk_bytes(items[1]) && frames_view(a.members@) == items.skip(2),
                Err(e) => match value@ {
                    Some(items) => !(items.len() >= 3 && is_utf8_bulk(items[1])) && (
                    if items.len() < 3 {
                        e matches RespError::InvalidFrameLength(l) && (items.len() <= i64::MAX
                            ==> l as int == items.len() as int)
                    } else {
                        match items[1] {
                            FrameVal::Bulk(d) => e is InvalidFrame,
                            _ => e is InvalidFrameType,
                        }
                    }),
                    None => e matches RespError::InvalidFrameLength(l) && l == 0,
                },
            },
    {
        let len: usize = match &value.0 {
            Some(v) => {
                proof {
                    lemma_frames_view(v@);
                }
                v.len()
            },
            None => 0,
        };
        if len < 3 {
            return Err(RespError::InvalidFrameLength(len as i64));
        }
        let mut v = match value.0 {
            Some(v) => v,
            None => {
                return Err(RespError::InvalidFrameLength(0));
            },
        };
        let ghost items = frames_view(v@);
        proof {
            lemma_frames_view(v@);
        }
        let members = v.split_off(2);
        proof {
            lemma_frames_view(v@);
            lemma_frames_view(members@);
            let fv = items.skip(2);
            assert forall|j: int| 0 <= j < frames_view(members@).len() implies frames_view(
                members@,
            )[j] == fv[j] by {
                assert(members@[j]@ == items[j + 2]);
            }
            assert(frames_view(members@) =~= fv);
        }
        let second = v.remove(1);
        proof {
            assert(second@ == items[1]);
        }
        let key = match second {
            RespFrame::BulkString(b) => match b.0 {
                Some(k) => k,
                None => {
                    return Err(RespError::InvalidFrame(crate::cmd::key_err_msg()));
                },
            },
            _ => {
                return Err(RespError::InvalidFrameType(crate::cmd::key_err_msg()));
            },
        };
        if !check_utf8(key.as_slice()) {
            proof {
                assert(!is_utf8_bulk(items[1]));
            }
            return Err(RespError::InvalidFrame(crate::cmd::key_err_msg()));
        }
        proof {
            assert(is_utf8_bulk(items[1]) && key@ == bulk_bytes(items[1]));
        }
        Ok(SAdd { key, members })
    }
}

impl SisMember {
    /// `SISMEMBER key member`: a UTF-8 bulk-string key and any frame as
    /// the member.
    pub fn try_from(value: RespArray) -> (r: Result<SisMember, RespError>)
        ensures
            match r {
                Ok(c) => value@ matches Some(items) && items.len() == 3 && is_utf8_bulk(items[1])
                    && c.key@ == bulk_bytes(items[1]) && c.member@ == items[2],
                Err(e) => match value@ {
                    Some(items) => !(items.len() == 3 && is_utf8_bulk(items[1])) && (
                    if items.len() != 3 {
                        e matches RespError::InvalidFrameLength(l) && (items.len() <= i64::MAX
                            ==> l as int == items.len() as int)
                    } else {
                        match items[1] {
                            FrameVal::Bulk(d) => e is InvalidFrame,
                            _ => e is InvalidFrameType,
                        }
                    }),
                    None => e matches RespError::InvalidFrameLength(l) && l == 0,
                },
            },
    {
        let len: usize = match &value.0 {
            Some(v) => {
                proof {
                    lemma_frames_view(v@);
                }
                v.len()
            },
            None => 0,
        };
        if len != 3 {
            return Err(RespError::InvalidFrameLength(len as i64));
        }
        let mut v = match value.0 {
            Some(v) => v,
            None => {
                return Err(RespError::InvalidFrame(crate::cmd::key_err_msg()));
            },
        };
        let ghost items = frames_view(v@);
        proof {
            lemma_frames_view(v@);
        }
        let member = v.remove(2);
        proof {
            assert(member@ == items[2]);
        }
        let second = v.remove(1);
        proof {
            assert(second@ == items[1]);
        }
        let key = match second {
            RespFrame::BulkString(b) => match b.0 {
                Some(k) => k,
                None => {
                    return Err(RespError::InvalidFrame(crate::cmd::key_err_msg()));
                },
            },
            _ => {
                return Err(RespError::InvalidFrameType(crate::cmd::key_err_msg()));
            },
        };
        if !check_utf8(key.as_slice()) {
            proof {
                assert(!is_utf8_bulk(items[1]));
            }
            return Err(RespError::InvalidFrame(crate::cmd::key_err_msg()));
        }
        proof {
            assert(is_utf8_bulk(items[1]) && key@ == bulk_bytes(items[1]));
        }
        Ok(SisMember { key, member })
    }
}

} // verus!
