//! The hash keyspace commands HGET, HSET and HGETALL.

use vstd::prelude::*;

verus! {

use crate::backend::Backend;
use crate::cmd::{
    bulk_bytes, extract_args, is_utf8_bulk, resp_ok, validate_command, CommandError,
    CommandExecuter, HGet, HGetAll, HSet, verb_is,
};
use crate::resp::array::RespArray;
use crate::resp::bulk_string::BulkString;
use crate::resp::frame::{clone_bytes, clone_frame, lemma_entries_view, lemma_frames_view, RespFrame};
use crate::resp::map::RespMap;
use crate::resp::model::{pairs_insert_all, pairs_sorted, FrameVal};
use crate::resp::order::lemma_pairs_insert_all_sorted;
use crate::utf8::check_utf8;

/// The flattened reply shape of HGETALL: for each entry, the field as a
/// bulk string and then the stored value.
pub open spec fn flat_pairs(ps: Seq<(Seq<u8>, FrameVal)>, i: int) -> Seq<FrameVal>
    decreases ps.len() - i,
{
    if 0 <= i < ps.len() {
        seq![FrameVal::Bulk(Some(ps[i].0)), ps[i].1] + flat_pairs(ps, i + 1)
    } else {
        Seq::empty()
    }
}

/// Turn a hash snapshot into the HGETALL reply: entries are inserted
/// into a key-sorted map and flattened in ascending field order.
pub fn hgetall_reply(entries: Vec<(Vec<u8>, RespFrame)>) -> (r: RespFrame)
    ensures
        ({
            let q = pairs_insert_all(crate::resp::frame::entries_view(entries@));
            pairs_sorted(q) && r@ == FrameVal::Arr(Some(flat_pairs(q, 0)))
        }),
{
    let ghost evs = crate::resp::frame::entries_view(entries@);
    let mut m = RespMap::new();
    let mut i: usize = 0;
    proof {
        lemma_entries_view(entries@);
        assert(pairs_insert_all(evs.subrange(0, 0)) =~= Seq::<(Seq<u8>, FrameVal)>::empty());
        assert(m@ =~= pairs_insert_all(evs.subrange(0, 0)));
    }
    while i < entries.len()
        invariant
            0 <= i <= entries@.len(),
            evs == crate::resp::frame::entries_view(entries@),
            evs.len() == entries@.len(),
            m@ == pairs_insert_all(evs.subrange(0, i as int)),
        decreases entries@.len() - i,
    {
        let key = clone_bytes(&entries[i].0);
        let val = clone_frame(&entries[i].1);
        m.insert(key, val);
        proof {
            lemma_entries_view(entries@);
            assert(evs.subrange(0, i + 1).drop_last() =~= evs.subrange(0, i as int));
            assert(evs.subrange(0, i + 1).last() == evs[i as int]);
            assert(evs[i as int] == (entries@[i as int].0@, entries@[i as int].1@));
        }
        i = i + 1;
    }
    proof {
        assert(evs.subrange(0, evs.len() as int) =~= evs);
        lemma_pairs_insert_all_sorted(evs);
    }
    let q = m;
    // flatten the sorted entries
    let ghost qs = q@;
    let mut out: Vec<RespFrame> = Vec::new();
    let mut j: usize = 0;
    proof {
        lemma_entries_view(q.0@);
    }
    while j < q.0.len()
        invariant
            0 <= j <= q.0@.len(),
            qs == crate::resp::frame::entries_view(q.0@),
            qs.len() == q.0@.len(),
            crate::resp::frame::frames_view(out@) + flat_pairs(qs, j as int) == flat_pairs(qs, 0),
        decreases q.0@.len() - j,
    {
        let ghost before = out@;
        let fkey = clone_bytes(&q.0[j].0);
        let fval = clone_frame(&q.0[j].1);
        let kf = RespFrame::BulkString(BulkString(Some(fkey)));
        let ghost kfv = kf@;
        let ghost fvv = fval@;
        proof {
            lemma_entries_view(q.0@);
            assert(qs[j as int] == (q.0@[j as int].0@, q.0@[j as int].1@));
            assert(kfv == FrameVal::Bulk(Some(qs[j as int].0)));
            assert(fvv == qs[j as int].1);
        }
        out.push(kf);
        out.push(fval);
        proof {
            lemma_frames_view(out@);
            lemma_frames_view(before);
            assert(out@.len() == before.len() + 2);
            assert(out@ == before.push(kf).push(fval));
            assert(flat_pairs(qs, j as int) == seq![
                FrameVal::Bulk(Some(qs[j as int].0)),
                qs[j as int].1,
            ] + flat_pairs(qs, j + 1));
            assert forall|t: int| 0 <= t < out@.len() implies crate::resp::frame::frames_view(
                out@,
            )[t] == (crate::resp::frame::frames_view(before) + seq![kfv, fvv])[t] by {
                if t < before.len() {
                    assert(out@[t] == before[t]);
                    assert(crate::resp::frame::frames_view(out@)[t] == out@[t]@);
                    assert(crate::resp::frame::frames_view(before)[t] == before[t]@);
                } else if t == before.len() {
                    assert(out@[t] == kf);
                } else {
                    assert(t == before.len() + 1);
                    assert(out@[t] == fval);
                }
            }
            assert(crate::resp::frame::frames_view(out@) =~= crate::resp::frame::frames_view(
                before,
            ) + seq![kfv, fvv]);
            assert(crate::resp::frame::frames_view(out@) + flat_pairs(qs, j + 1)
                =~= crate::resp::frame::frames_view(before) + flat_pairs(qs, j as int));
        }
        j = j + 1;
    }
    proof {
        assert(flat_pairs(qs, q.0@.len() as int) =~= Seq::<FrameVal>::empty());
        assert(crate::resp::frame::frames_view(out@) + flat_pairs(qs, q.0@.len() as int)
            =~= crate::resp::frame::frames_view(out@));
    }
    RespFrame::Array(crate::resp::array::RespArray(Some(out)))
}

/// The HGETALL reply for a snapshot: the sorted flattening of the
/// hash's entries, or the empty array when the key was absent.
pub open spec fn hgetall_reply_spec(snapshot: Option<Seq<(Seq<u8>, FrameVal)>>) -> FrameVal {
    match snapshot {
        Some(es) => FrameVal::Arr(Some(flat_pairs(pairs_insert_all(es), 0))),
        None => FrameVal::Arr(Some(Seq::empty())),
    }
}

/// Turn the store's whole snapshot answer into the HGETALL reply:
/// a present hash goes through `hgetall_reply`, a missing key replies
/// the empty array.
pub fn hgetall_snapshot_reply(snapshot: Option<Vec<(Vec<u8>, RespFrame)>>) -> (r: RespFrame)
    ensures
        r@ == hgetall_reply_spec(
            match snapshot {
                Some(entries) => Some(crate::resp::frame::entries_view(entries@)),
                None => None,
            },
        ),
{
    match snapshot {
        Some(entries) => hgetall_reply(entries),
        None => {
            let out: Vec<RespFrame> = Vec::new();
            let r = RespFrame::Array(crate::resp::array::RespArray(Some(out)));
            proof {
                lemma_frames_view(out@);
                assert(crate::resp::frame::frames_view(out@) =~= Seq::<FrameVal>::empty());
            }
            r
        },
    }
}

/// The HGET reply for a lookup result: the stored frame, or the null
/// bulk string when the key or field was absent.
pub fn hget_reply(found: Option<RespFrame>) -> (r: RespFrame)
    ensures
        match found {
            Some(f) => r == f,
            None => r@ == FrameVal::Bulk(None),
        },
{
    match found {
        Some(f) => f,
        None => RespFrame::BulkString(BulkString(None)),
    }
}

impl CommandExecuter for HGet {
    /// Hash field lookup; which value is found is up to the shared
    /// store, and `hget_reply` fixes the reply for every outcome.
    fn execute(self, backend: Backend) -> (r: RespFrame) {
        hget_reply(backend.hget(self.key.as_slice(), self.field.as_slice()))
    }
}

impl CommandExecuter for HSet {
    /// Store the field; the reply is always `+OK`, also when a previous
    /// field value is overwritten.
    fn execute(self, backend: Backend) -> (r: RespFrame)
        ensures
            r@ == FrameVal::Simple(seq![79u8, 75u8]),
    {
        let HSet { key, field, value } = self;
        backend.hset(key.as_slice(), field.as_slice(), value);
        resp_ok()
    }
}

impl CommandExecuter for HGetAll {
    /// Snapshot the hash and reply through `hgetall_snapshot_reply`:
    /// a flat array sorted ascending by field name for a present key,
    /// the empty array for a missing one.  Which snapshot the shared
    /// store yields is up to it.
    fn execute(self, backend: Backend) -> (r: RespFrame)
        ensures
            exists|s: Option<Seq<(Seq<u8>, FrameVal)>>| r@ == #[trigger] hgetall_reply_spec(s),
            exists|q: Seq<(Seq<u8>, FrameVal)>|
                pairs_sorted(q) && r@ == FrameVal::Arr(Some(flat_pairs(q, 0))),
    {
        let snapshot = backend.hget_all(self.key.as_slice());
        let ghost sv: Option<Seq<(Seq<u8>, FrameVal)>> = match &snapshot {
            Some(entries) => Some(crate::resp::frame::entries_view(entries@)),
            None => None,
        };
        let r = hgetall_snapshot_reply(snapshot);
        proof {
            assert(r@ == hgetall_reply_spec(sv));
            match sv {
                Some(es) => {
                    let q = pairs_insert_all(es);
                    crate::resp::order::lemma_pairs_insert_all_sorted(es);
                    assert(pairs_sorted(q) && r@ == FrameVal::Arr(Some(flat_pairs(q, 0))));
                },
                None => {
                    let q = Seq::<(Seq<u8>, FrameVal)>::empty();
                    assert(flat_pairs(q, 0) =~= Seq::<FrameVal>::empty());
                    assert(pairs_sorted(q) && r@ == FrameVal::Arr(Some(flat_pairs(q, 0))));
                },
            }
        }
        r
    }
}

impl HGet {
    /// `HGET key field`: two UTF-8 bulk-string arguments.
    pub fn try_from(value: RespArray) -> (r: Result<HGet, CommandError>)
        ensures
            match r {
                Ok(g) => value@ matches Some(items) && items.len() == 3 && verb_is(
                    items,
                    seq![104u8, 103u8, 101u8, 116u8],
                ) && is_utf8_bulk(items[1]) && is_utf8_bulk(items[2]) && g.key@ == bulk_bytes(
                    items[1],
                ) && g.field@ == bulk_bytes(items[2]),
                Err(e) => match value@ {
                    Some(items) => !(items.len() == 3 && verb_is(
                        items,
                        seq![104u8, 103u8, 101u8, 116u8],
                    ) && is_utf8_bulk(items[1]) && is_utf8_bulk(items[2])),
                    None => true,
                },
            },
    {
        let name = super::verb_hget();
        match validate_command(&value, name.as_slice(), 2) {
            Ok(_) => {},
            Err(e) => {
                return Err(e);
            },
        }
        let mut args = match extract_args(value, 1) {
            Ok(a) => a,
            Err(e) => {
                return Err(e);
            },
        };
        proof {
            lemma_frames_view(args@);
        }
        let first = args.remove(0);
        proof {
            lemma_frames_view(args@);
        }
        let second = args.remove(0);
        let key = match first {
            RespFrame::BulkString(b) => match b.0 {
                Some(k) => k,
                None => {
                    return Err(CommandError::Utf8Error);
                },
            },
            _ => {
                return Err(CommandError::InvalidArgument(super::key_err_msg()));
            },
        };
        let field = match second {
            RespFrame::BulkString(b) => match b.0 {
                Some(f) => f,
                None => {
                    return Err(CommandError::Utf8Error);
                },
            },
            _ => {
                return Err(CommandError::InvalidArgument(super::key_err_msg()));
            },
        };
        if !check_utf8(key.as_slice()) || !check_utf8(field.as_slice()) {
            return Err(CommandError::Utf8Error);
        }
        Ok(HGet { key, field })
    }
}

impl HGetAll {
    /// `HGETALL key`: one UTF-8 bulk-string argument.
    pub fn try_from(value: RespArray) -> (r: Result<HGetAll, CommandError>)
        ensures
            match r {
                Ok(g) => value@ matches Some(items) && items.len() == 2 && verb_is(
                    items,
                    seq![104u8, 103u8, 101u8, 116u8, 97u8, 108u8, 108u8],
                ) && is_utf8_bulk(items[1]) && g.key@ == bulk_bytes(items[1]),
                Err(e) => match value@ {
                    Some(items) => !(items.len() == 2 && verb_is(
                        items,
                        seq![104u8, 103u8, 101u8, 116u8, 97u8, 108u8, 108u8],
                    ) && is_utf8_bulk(items[1])),
                    None => true,
                },
            },
    {
        let name = super::verb_hgetall();
        match validate_command(&value, name.as_slice(), 1) {
            Ok(_) => {},
            Err(e) => {
                return Err(e);
            },
        }
        let mut args = match extract_args(value, 1) {
            Ok(a) => a,
            Err(e) => {
                return Err(e);
            },
        };
        proof {
            lemma_frames_view(args@);
        }
        let first = args.remove(0);
        match first {
            RespFrame::BulkString(b) => match b.0 {
                Some(k) => {
                    if !check_utf8(k.as_slice()) {
                        Err(CommandError::Utf8Error)
                    } else {
                        Ok(HGetAll { key: k })
                    }
                },
                None => Err(CommandError::Utf8Error),
            },
            _ => Err(CommandError::InvalidArgument(super::key_err_msg())),
        }
    }
}

impl HSet {
    /// `HSET key field value`: two UTF-8 bulk-string arguments and any
    /// frame as the value.
    pub fn try_from(value: RespArray) -> (r: Result<HSet, CommandError>)
        ensures
            match r {
                Ok(s) => value@ matches Some(items) && items.len() == 4 && verb_is(
                    items,
                    seq![104u8, 115u8, 101u8, 116u8],
                ) && is_utf8_bulk(items[1]) && is_utf8_bulk(items[2]) && s.key@ == bulk_bytes(
                    items[1],
                ) && s.field@ == bulk_bytes(items[2]) && s.value@ == items[3],
                Err(e) => match value@ {
                    Some(items) => !(items.len() == 4 && verb_is(
                        items,
                        seq![104u8, 115u8, 101u8, 116u8],
                    ) && is_utf8_bulk(items[1]) && is_utf8_bulk(items[2])),
                    None => true,
                },
            },
    {
        let name = super::verb_hset();
        match validate_command(&value, name.as_slice(), 3) {
            Ok(_) => {},
            Err(e) => {
                return Err(e);
            },
        }
        let mut args = match extract_args(value, 1) {
            Ok(a) => a,
            Err(e) => {
                return Err(e);
            },
        };
        proof {
            lemma_frames_view(args@);
        }
        let first = args.remove(0);
        proof {
            lemma_frames_view(args@);
        }
        let second = args.remove(0);
        proof {
            lemma_frames_view(args@);
        }
        let third = args.remove(0);
        let key = match first {
            RespFrame::BulkString(b) => match b.0 {
                Some(k) => k,
                None => {
                    return Err(CommandError::Utf8Error);
                },
            },
            _ => {
                return Err(CommandError::InvalidArgument(super::key_err_msg()));
            },
        };
        let field = match second {
            RespFrame::BulkString(b) => match b.0 {
                Some(f) => f,
                None => {
                    return Err(CommandError::Utf8Error);
                },
            },
            _ => {
                return Err(CommandError::InvalidArgument(super::key_err_msg()));
            },
        };
        if !check_utf8(key.as_slice()) || !check_utf8(field.as_slice()) {
            return Err(CommandError::Utf8Error);
        }
        Ok(HSet { key, field, value: third })
    }
}

} // verus!
