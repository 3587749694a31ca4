//! The `~` set frame: semantically a set, ordered on the wire.

use vstd::prelude::*;

verus! {

use crate::resp::frame::{frames_view, RespFrame};
use crate::resp::model::FrameVal;

/// A RESP set, held in wire order.
#[derive(Debug, Clone, PartialEq, Eq, Hash)]
pub struct RespSet(pub Vec<RespFrame>);

impl View for RespSet {
    type V = Seq<FrameVal>;

    open spec fn view(&self) -> Seq<FrameVal> {
        frames_view(self.0@)
    }
}

impl RespSet {
    pub fn new(s: Vec<RespFrame>) -> (r: Self)
        ensures
            r@ == frames_view(s@),
    {
        RespSet(s)
    }

    /// Decode one `~` frame from the front of the buffer, consuming
    /// exactly its bytes; on any error the buffer is unchanged.
    pub fn decode(buf: &mut Vec<u8>) -> (r: Result<RespSet, RespError>)
        ensures
            ({
                let d = spec_decode_set(old(buf)@, 0);
                match r {
                    Ok(f) => d matches SpecParse::Parsed(v, n) && v == FrameVal::SetV(f@) && final(buf)@ == old(buf)@.skip(n),
                    Err(e) => final(buf)@ == old(buf)@ && match d {
                        SpecParse::Incomplete => e is NotCompleteFrame,
                        SpecParse::Fail(k) => matches_err(e, k),
                        SpecParse::Parsed(v, n) => false,
                    },
                }
            }),
    {
        match crate::resp::decode::set_at(buf.as_slice(), 0) {
            Ok((f, n)) => {
                crate::resp::decode::consume(buf, n);
                Ok(f)
            },
            Err(e) => Err(e),
        }
    }

    /// Byte count of the `~` frame at the start of the buffer,
    /// preflighting every child.
    pub fn expect_length(buf: &[u8]) -> (r: Result<usize, RespError>)
        ensures
            ({
                match spec_length_header(buf@, 0, 126) {
                    SpecHead::Head(len, n) => if len < 0 {
                        r matches Err(e) && e matches RespError::InvalidFrameLength(l) && l as int
                            == len
                    } else {
                        match spec_expect_items(buf@, n, len) {
                            SpecLen::Len(t) => r matches Ok(m) && m as int == n + t,
                            SpecLen::Incomplete => r matches Err(e) && e is NotCompleteFrame,
                            SpecLen::Fail(k) => r matches Err(e) && matches_err(e, k),
                        }
                    },
                    SpecHead::Incomplete => r matches Err(e) && e is NotCompleteFrame,
                    SpecHead::WrongType => r matches Err(e) && e is InvalidFrameType,
                    SpecHead::Fail(k) => r matches Err(e) && matches_err(e, k),
                }
            }),
    {
        crate::resp::decode::aggregate_expect_length(buf, 126)
    }
}

use crate::resp::matches_err;
use crate::resp::model::{
    spec_decode_set, spec_expect_items, spec_length_header, SpecHead, SpecLen, SpecParse,
};
use crate::resp::RespError;

} // verus!
