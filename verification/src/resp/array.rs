//! The `*` array frame: a counted sequence of frames, or the null form
//! `*-1`.

use vstd::prelude::*;

verus! {

use crate::resp::frame::{frames_view, RespFrame};
use crate::resp::model::FrameVal;

/// A RESP array; `None` is the null array.
#[derive(Debug, Clone, PartialEq, Eq, Hash)]
pub struct RespArray(pub Option<Vec<RespFrame>>);

impl View for RespArray {
    type V = Option<Seq<FrameVal>>;

    open spec fn view(&self) -> Option<Seq<FrameVal>> {
        match self.0 {
            Some(v) => Some(frames_view(v@)),
            None => None,
        }
    }
}

impl RespArray {
    pub fn new(s: Vec<RespFrame>) -> (r: Self)
        ensures
            r@ == Some(frames_view(s@)),
    {
        RespArray(Some(s))
    }

    pub fn new_null_array() -> (r: Self)
        ensures
            r@ is None,
    {
        RespArray(None)
    }

    /// Number of elements; the null array counts as empty.
    pub fn len(&self) -> (r: usize)
        ensures
            r as int == match self@ {
                Some(s) => s.len() as int,
                None => 0,
            },
    {
        match &self.0 {
            Some(v) => {
                proof {
                    crate::resp::frame::lemma_frames_view(v@);
                }
                v.len()
            },
            None => 0,
        }
    }

    pub fn is_empty(&self) -> (r: bool)
        ensures
            r <==> match self@ {
                Some(s) => s.len() == 0,
                None => true,
            },
    {
        self.len() == 0
    }

    /// Decode one `*` frame from the front of the buffer, consuming
    /// exactly its bytes; on any error the buffer is unchanged.
    pub fn decode(buf: &mut Vec<u8>) -> (r: Result<RespArray, RespError>)
        ensures
            ({
                let d = spec_decode_array(old(buf)@, 0);
                match r {
                    Ok(f) => d matches SpecParse::Parsed(v, n) && v == FrameVal::Arr(f@) && final(buf)@ == old(buf)@.skip(n),
                    Err(e) => final(buf)@ == old(buf)@ && match d {
                        SpecParse::Incomplete => e is NotCompleteFrame,
                        SpecParse::Fail(k) => matches_err(e, k),
                        SpecParse::Parsed(v, n) => false,
                    },
                }
            }),
    {
        match crate::resp::decode::array_at(buf.as_slice(), 0) {
            Ok((f, n)) => {
                crate::resp::decode::consume(buf, n);
                Ok(f)
            },
            Err(e) => Err(e),
        }
    }

    /// Byte count of the `*` frame at the start of the buffer,
    /// preflighting every child.
    pub fn expect_length(buf: &[u8]) -> (r: Result<usize, RespError>)
        ensures
            ({
                match spec_length_header(buf@, 0, 42) {
                    SpecHead::Head(len, n) => if len == -1 {
                        r matches Ok(m) && m as int == n
                    } else if len < -1 {
                        r matches Err(e) && e matches RespError::InvalidFrameLength(l) && l as int
                            == len
                    } else {
                        match spec_expect_items(buf@, n, len) {
                            SpecLen::Len(t) => r matches Ok(m) && m as int == n + t,
                            SpecLen::Incomplete => r matches Err(e) && e is NotCompleteFrame,
                            SpecLen::Fail(k) => r matches Err(e) && matches_err(e, k),
                        }
                    },
                    SpecHead::Incomplete => r matches Err(e) && e is NotCompleteFrame,
                    SpecHead::WrongType => r matches Err(e) && e is InvalidFrameType,
                    SpecHead::Fail(k) => r matches Err(e) && matches_err(e, k),
                }
            }),
    {
        crate::resp::decode::aggregate_expect_length(buf, 42)
    }
}

use crate::resp::matches_err;
use crate::resp::model::{
    spec_decode_array, spec_expect_items, spec_length_header, SpecHead, SpecLen, SpecParse,
};
use crate::resp::RespError;

} // verus!
