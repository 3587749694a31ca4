//! The frame tagged union and its abstract view.

use vstd::prelude::*;

verus! {

use crate::resp::array::RespArray;
use crate::resp::bulk_string::BulkString;
use crate::resp::double::RespDouble;
use crate::resp::map::RespMap;
use crate::resp::model::FrameVal;
use crate::resp::null::RespNull;
use crate::resp::set::RespSet;
use crate::resp::simple_error::SimpleError;
use crate::resp::simple_string::SimpleString;

broadcast use vstd::seq::axiom_seq_index_decreases, vstd::seq::axiom_seq_subrange_decreases;

/// One RESP frame of any variant.
#[derive(Debug, PartialEq, Eq, Hash)]
pub enum RespFrame {
    SimpleString(SimpleString),
    SimpleError(SimpleError),
    Integer(i64),
    BulkString(BulkString),
    Array(RespArray),
    Null(RespNull),
    Boolean(bool),
    Double(RespDouble),
    MapFrame(RespMap),
    SetFrame(RespSet),
}

impl Clone for RespFrame {
    fn clone(&self) -> (r: Self)
        ensures
            r@ == self@,
    {
        clone_frame(self)
    }
}

/// Deep copy of one frame, equal to the original in the model.
pub fn clone_frame(f: &RespFrame) -> (r: RespFrame)
    ensures
        r@ == f@,
    decreases f,
{
    match f {
        RespFrame::SimpleString(s) => RespFrame::SimpleString(SimpleString(clone_bytes(&s.0))),
        RespFrame::SimpleError(s) => RespFrame::SimpleError(SimpleError(clone_bytes(&s.0))),
        RespFrame::Integer(n) => RespFrame::Integer(*n),
        RespFrame::BulkString(b) => match &b.0 {
            Some(v) => RespFrame::BulkString(BulkString(Some(clone_bytes(v)))),
            None => RespFrame::BulkString(BulkString(None)),
        },
        RespFrame::Array(a) => match &a.0 {
            Some(v) => RespFrame::Array(RespArray(Some(clone_frames(v)))),
            None => RespFrame::Array(RespArray(None)),
        },
        RespFrame::Null(_) => RespFrame::Null(RespNull),
        RespFrame::Boolean(b) => RespFrame::Boolean(*b),
        RespFrame::Double(d) => RespFrame::Double(RespDouble(clone_bytes(&d.0))),
        RespFrame::MapFrame(m) => RespFrame::MapFrame(RespMap(clone_entries(&m.0))),
        RespFrame::SetFrame(s) => RespFrame::SetFrame(RespSet(clone_frames(&s.0))),
    }
}

/// Byte vector copy with an exact contract.
pub fn clone_bytes(v: &Vec<u8>) -> (r: Vec<u8>)
    ensures
        r@ == v@,
{
    let r = v.clone();
    proof {
        assert(forall|i: int| 0 <= i < v@.len() ==> #[trigger] r@[i] == v@[i]);
        assert(r@ =~= v@);
    }
    r
}

fn clone_frames(v: &Vec<RespFrame>) -> (r: Vec<RespFrame>)
    ensures
        frames_view(r@) == frames_view(v@),
        r@.len() == v@.len(),
    decreases v,
{
    let mut out: Vec<RespFrame> = Vec::new();
    let mut i: usize = 0;
    while i < v.len()
        invariant
            0 <= i <= v@.len(),
            out@.len() == i,
            forall|j: int| 0 <= j < i ==> (#[trigger] out@[j])@ == v@[j]@,
        decreases v@.len() - i,
    {
        let c = clone_frame(&v[i]);
        out.push(c);
        i = i + 1;
    }
    proof {
        lemma_frames_view(out@);
        lemma_frames_view(v@);
        assert forall|j: int|
            0 <= j < frames_view(out@).len() implies frames_view(out@)[j] == frames_view(
            v@,
        )[j] by {
            assert(out@[j]@ == v@[j]@);
        }
        assert(frames_view(out@) =~= frames_view(v@));
    }
    out
}

fn clone_entries(v: &Vec<(Vec<u8>, RespFrame)>) -> (r: Vec<(Vec<u8>, RespFrame)>)
    ensures
        entries_view(r@) == entries_view(v@),
        r@.len() == v@.len(),
    decreases v,
{
    let mut out: Vec<(Vec<u8>, RespFrame)> = Vec::new();
    let mut i: usize = 0;
    while i < v.len()
        invariant
            0 <= i <= v@.len(),
            out@.len() == i,
            forall|j: int|
                0 <= j < i ==> (#[trigger] out@[j]).0@ == v@[j].0@ && out@[j].1@ == v@[j].1@,
        decreases v@.len() - i,
    {
        let key = clone_bytes(&v[i].0);
        let val = clone_frame(&v[i].1);
        out.push((key, val));
        i = i + 1;
    }
    proof {
        lemma_entries_view(out@);
        lemma_entries_view(v@);
        assert forall|j: int|
            0 <= j < entries_view(out@).len() implies entries_view(out@)[j] == entries_view(
            v@,
        )[j] by {
            assert(out@[j].0@ == v@[j].0@ && out@[j].1@ == v@[j].1@);
        }
        assert(entries_view(out@) =~= entries_view(v@));
    }
    out
}


/// Pointwise view of a frame sequence.
pub open spec fn frames_view(s: Seq<RespFrame>) -> Seq<FrameVal>
    decreases s,
{
    if s.len() == 0 {
        Seq::empty()
    } else {
        frames_view(s.drop_last()).push(s.last()@)
    }
}

/// Pointwise view of a map's entry sequence.
pub open spec fn entries_view(s: Seq<(Vec<u8>, RespFrame)>) -> Seq<(Seq<u8>, FrameVal)>
    decreases s,
{
    if s.len() == 0 {
        Seq::empty()
    } else {
        entries_view(s.drop_last()).push((s.last().0@, s.last().1@))
    }
}

/// `frames_view` maps the sequence pointwise.
pub proof fn lemma_frames_view(s: Seq<RespFrame>)
    ensures
        frames_view(s).len() == s.len(),
        forall|i: int| 0 <= i < s.len() ==> frames_view(s)[i] == (#[trigger] s[i])@,
    decreases s.len(),
{
    if s.len() > 0 {
        lemma_frames_view(s.drop_last());
        assert(frames_view(s) == frames_view(s.drop_last()).push(s.last()@));
        assert forall|i: int| 0 <= i < s.len() implies frames_view(s)[i] == (#[trigger] s[i])@ by {
            if i < s.len() - 1 {
                assert(s.drop_last()[i] == s[i]);
                assert(frames_view(s)[i] == frames_view(s.drop_last())[i]);
            } else {
                assert(s.last() == s[i]);
            }
        }
    }
}

/// `entries_view` maps the sequence pointwise.
pub proof fn lemma_entries_view(s: Seq<(Vec<u8>, RespFrame)>)
    ensures
        entries_view(s).len() == s.len(),
        forall|i: int|
            0 <= i < s.len() ==> entries_view(s)[i] == ((#[trigger] s[i]).0@, s[i].1@),
    decreases s.len(),
{
    if s.len() > 0 {
        lemma_entries_view(s.drop_last());
        assert(entries_view(s) == entries_view(s.drop_last()).push((s.last().0@, s.last().1@)));
        assert forall|i: int|
            0 <= i < s.len() implies entries_view(s)[i] == ((#[trigger] s[i]).0@, s[i].1@) by {
            if i < s.len() - 1 {
                assert(s.drop_last()[i] == s[i]);
                assert(entries_view(s)[i] == entries_view(s.drop_last())[i]);
            } else {
                assert(s.last() == s[i]);
            }
        }
    }
}

impl RespFrame {
    /// Decode one frame of any variant from the front of the buffer,
    /// consuming exactly its bytes; on any error the buffer is
    /// unchanged.  Incomplete input reports `NotCompleteFrame`.
    pub fn decode(buf: &mut Vec<u8>) -> (r: Result<RespFrame, crate::resp::RespError>)
        ensures
            ({
                let d = crate::resp::model::decode_spec(old(buf)@, 0);
                match r {
                    Ok(f) => d matches crate::resp::model::SpecParse::Parsed(v, n) && v == f@
                        && final(buf)@ == old(buf)@.skip(n),
                    Err(e) => final(buf)@ == old(buf)@ && match d {
                        crate::resp::model::SpecParse::Incomplete => e is NotCompleteFrame,
                        crate::resp::model::SpecParse::Fail(k) => crate::resp::matches_err(e, k),
                        crate::resp::model::SpecParse::Parsed(v, n) => false,
                    },
                }
            }),
    {
        match crate::resp::decode::decode_at(buf.as_slice(), 0) {
            Ok((f, n)) => {
                crate::resp::decode::consume(buf, n);
                Ok(f)
            },
            Err(e) => Err(e),
        }
    }

    /// Total byte count of the frame at the start of the buffer,
    /// computed from headers alone.
    pub fn expect_length(buf: &[u8]) -> (r: Result<usize, crate::resp::RespError>)
        ensures
            ({
                match crate::resp::model::expect_spec(buf@, 0) {
                    crate::resp::model::SpecLen::Len(t) => r matches Ok(m) && m as int == t,
                    crate::resp::model::SpecLen::Incomplete => r matches Err(e)
                        && e is NotCompleteFrame,
                    crate::resp::model::SpecLen::Fail(k) => r matches Err(e)
                        && crate::resp::matches_err(e, k),
                }
            }),
    {
        crate::resp::decode::expect_at(buf, 0)
    }
}

impl View for RespFrame {
    type V = FrameVal;

    open spec fn view(&self) -> FrameVal
        decreases self,
    {
        match self {
            RespFrame::SimpleString(s) => FrameVal::Simple(s.0@),
            RespFrame::SimpleError(s) => FrameVal::Error(s.0@),
            RespFrame::Integer(n) => FrameVal::Int(*n as int),
            RespFrame::BulkString(b) => FrameVal::Bulk(
                match b.0 {
                    Some(v) => Some(v@),
                    None => None,
                },
            ),
            RespFrame::Array(a) => FrameVal::Arr(
                match a.0 {
                    Some(v) => Some(frames_view(v@)),
                    None => None,
                },
            ),
            RespFrame::Null(_) => FrameVal::Null,
            RespFrame::Boolean(b) => FrameVal::Bool(*b),
            RespFrame::Double(d) => FrameVal::Double(d.0@),
            RespFrame::MapFrame(m) => FrameVal::MapV(entries_view(m.0@)),
            RespFrame::SetFrame(s) => FrameVal::SetV(frames_view(s.0@)),
        }
    }
}

} // verus!
