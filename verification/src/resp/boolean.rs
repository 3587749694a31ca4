//! The `#` boolean frame.

use vstd::prelude::*;

verus! {

use crate::resp::matches_err;
use crate::resp::model::{spec_decode_bool, spec_simple_line, FrameVal, SpecLine, SpecParse};
use crate::resp::RespError;

/// Decode one `#` frame from the front of the buffer, consuming exactly
/// its bytes; on any error the buffer is unchanged.
pub fn decode_boolean(buf: &mut Vec<u8>) -> (r: Result<bool, RespError>)
    ensures
        ({
            let d = spec_decode_bool(old(buf)@, 0);
            match r {
                Ok(b) => d matches SpecParse::Parsed(v, n) && v == FrameVal::Bool(b) && final(buf)@ == old(buf)@.skip(n),
                Err(e) => final(buf)@ == old(buf)@ && match d {
                    SpecParse::Incomplete => e is NotCompleteFrame,
                    SpecParse::Fail(k) => matches_err(e, k),
                    SpecParse::Parsed(v, n) => false,
                },
            }
        }),
{
    match crate::resp::decode::boolean_at(buf.as_slice(), 0) {
        Ok((b, n)) => {
            crate::resp::decode::consume(buf, n);
            Ok(b)
        },
        Err(e) => Err(e),
    }
}

/// Byte count of the `#` frame at the start of the buffer.
pub fn boolean_expect_length(buf: &[u8]) -> (r: Result<usize, RespError>)
    ensures
        ({
            match spec_simple_line(buf@, 0, 35) {
                SpecLine::Line(p, n) => r matches Ok(m) && m as int == n,
                SpecLine::Incomplete => r matches Err(e) && e is NotCompleteFrame,
                SpecLine::WrongType => r matches Err(e) && e is InvalidFrameType,
            }
        }),
{
    crate::resp::decode::line_at(buf, 0, 35)
}

} // verus!
