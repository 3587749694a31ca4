//! The `$` bulk string frame: arbitrary bytes with a length prefix, or
//! the null form `$-1`.

use vstd::prelude::*;

verus! {

/// A RESP bulk string; `None` is the null bulk string.
#[derive(Debug, Clone, PartialEq, Eq, Hash)]
pub struct BulkString(pub Option<Vec<u8>>);

impl View for BulkString {
    type V = Option<Seq<u8>>;

    open spec fn view(&self) -> Option<Seq<u8>> {
        match self.0 {
            Some(v) => Some(v@),
            None => None,
        }
    }
}

impl BulkString {
    pub fn new(s: Vec<u8>) -> (r: Self)
        ensures
            r@ == Some(s@),
    {
        BulkString(Some(s))
    }

    pub fn new_null_string() -> (r: Self)
        ensures
            r@ is None,
    {
        BulkString(None)
    }

    /// Decode one `$` frame from the front of the buffer, consuming
    /// exactly its bytes; on any error the buffer is unchanged.
    pub fn decode(buf: &mut Vec<u8>) -> (r: Result<BulkString, RespError>)
        ensures
            ({
                let d = spec_decode_bulk(old(buf)@, 0);
                match r {
                    Ok(f) => d matches SpecParse::Parsed(v, n) && v == FrameVal::Bulk(f@)
                        && final(buf)@ == old(buf)@.skip(n),
                    Err(e) => final(buf)@ == old(buf)@ && match d {
                        SpecParse::Incomplete => e is NotCompleteFrame,
                        SpecParse::Fail(k) => matches_err(e, k),
                        SpecParse::Parsed(v, n) => false,
                    },
                }
            }),
    {
        match crate::resp::decode::bulk_at(buf.as_slice(), 0) {
            Ok((f, n)) => {
                crate::resp::decode::consume(buf, n);
                Ok(f)
            },
            Err(e) => Err(e),
        }
    }

    /// Byte count of the `$` frame at the start of the buffer, computed
    /// from the length header alone: the payload need not be present.
    pub fn expect_length(buf: &[u8]) -> (r: Result<usize, RespError>)
        ensures
            ({
                match spec_length_header(buf@, 0, 36) {
                    SpecHead::Head(len, n) => if len == -1 {
                        r matches Ok(m) && m as int == n
                    } else if len < -1 {
                        r matches Err(e) && e matches RespError::InvalidFrameLength(l) && l as int
                            == len
                    } else if n + len + 2 > usize::MAX {
                        r matches Err(e) && e is NotCompleteFrame
                    } else {
                        r matches Ok(m) && m as int == n + len + 2
                    },
                    SpecHead::Incomplete => r matches Err(e) && e is NotCompleteFrame,
                    SpecHead::WrongType => r matches Err(e) && e is InvalidFrameType,
                    SpecHead::Fail(k) => r matches Err(e) && matches_err(e, k),
                }
            }),
    {
        let (n, len) = match crate::resp::decode::length_header_at(buf, 0, 36) {
            Ok(x) => x,
            Err(e) => {
                return Err(e);
            },
        };
        if len == -1 {
            return Ok(n);
        }
        if len < -1 {
            return Err(RespError::InvalidFrameLength(len));
        }
        let lenu = len as usize;
        if usize::MAX - n < 2 || usize::MAX - n - 2 < lenu {
            return Err(RespError::NotCompleteFrame);
        }
        Ok(n + lenu + 2)
    }
}

use crate::resp::matches_err;
use crate::resp::model::{spec_decode_bulk, spec_length_header, FrameVal, SpecHead, SpecParse};
use crate::resp::RespError;

} // verus!
