//! The `_` explicit null frame.

use vstd::prelude::*;

verus! {

/// The RESP explicit null.
#[derive(Debug, Clone, PartialEq, Eq, Hash)]
pub struct RespNull;

impl RespNull {
    /// Decode one `_` frame from the front of the buffer, consuming
    /// exactly its bytes; on any error the buffer is unchanged.
    pub fn decode(buf: &mut Vec<u8>) -> (r: Result<RespNull, crate::resp::RespError>)
        ensures
            ({
                let d = crate::resp::model::spec_decode_null(old(buf)@, 0);
                match r {
                    Ok(f) => d matches crate::resp::model::SpecParse::Parsed(v, n) && v
                        == crate::resp::model::FrameVal::Null && final(buf)@ == old(buf)@.skip(n),
                    Err(e) => final(buf)@ == old(buf)@ && match d {
                        crate::resp::model::SpecParse::Incomplete => e is NotCompleteFrame,
                        crate::resp::model::SpecParse::Fail(k) => crate::resp::matches_err(e, k),
                        crate::resp::model::SpecParse::Parsed(v, n) => false,
                    },
                }
            }),
    {
        match crate::resp::decode::null_at(buf.as_slice(), 0) {
            Ok((f, n)) => {
                crate::resp::decode::consume(buf, n);
                Ok(f)
            },
            Err(e) => Err(e),
        }
    }

    /// Byte count of the `_` frame at the start of the buffer.
    pub fn expect_length(buf: &[u8]) -> (r: Result<usize, crate::resp::RespError>)
        ensures
            ({
                match crate::resp::model::spec_simple_line(buf@, 0, 95) {
                    crate::resp::model::SpecLine::Line(p, n) => r matches Ok(m) && m as int == n,
                    crate::resp::model::SpecLine::Incomplete => r matches Err(e)
                        && e is NotCompleteFrame,
                    crate::resp::model::SpecLine::WrongType => r matches Err(e)
                        && e is InvalidFrameType,
                }
            }),
    {
        crate::resp::decode::line_at(buf, 0, 95)
    }
}

} // verus!
