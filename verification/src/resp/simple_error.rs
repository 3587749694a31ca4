//! The `-` simple error frame.

use vstd::prelude::*;

verus! {

/// A RESP simple error: one line of bytes that must not contain CRLF.
#[derive(Debug, Clone, PartialEq, Eq, Hash)]
pub struct SimpleError(pub Vec<u8>);

impl View for SimpleError {
    type V = Seq<u8>;

    open spec fn view(&self) -> Seq<u8> {
        self.0@
    }
}

impl SimpleError {
    pub fn new(s: Vec<u8>) -> (r: Self)
        ensures
            r@ == s@,
    {
        SimpleError(s)
    }

    /// Decode one `-` frame from the front of the buffer, consuming
    /// exactly its bytes; on any error the buffer is unchanged.
    pub fn decode(buf: &mut Vec<u8>) -> (r: Result<SimpleError, RespError>)
        ensures
            ({
                let d = spec_decode_simple(old(buf)@, 0, 45);
                match r {
                    Ok(f) => d matches SpecParse::Parsed(v, n) && v == FrameVal::Error(f@)
                        && final(buf)@ == old(buf)@.skip(n),
                    Err(e) => final(buf)@ == old(buf)@ && match d {
                        SpecParse::Incomplete => e is NotCompleteFrame,
                        SpecParse::Fail(k) => matches_err(e, k),
                        SpecParse::Parsed(v, n) => false,
                    },
                }
            }),
    {
        match crate::resp::decode::simple_error_at(buf.as_slice(), 0) {
            Ok((f, n)) => {
                crate::resp::decode::consume(buf, n);
                Ok(f)
            },
            Err(e) => Err(e),
        }
    }

    /// Byte count of the `-` frame at the start of the buffer.
    pub fn expect_length(buf: &[u8]) -> (r: Result<usize, RespError>)
        ensures
            ({
                match spec_simple_line(buf@, 0, 45) {
                    SpecLine::Line(p, n) => r matches Ok(m) && m as int == n,
                    SpecLine::Incomplete => r matches Err(e) && e is NotCompleteFrame,
                    SpecLine::WrongType => r matches Err(e) && e is InvalidFrameType,
                }
            }),
    {
        crate::resp::decode::line_at(buf, 0, 45)
    }
}

use crate::resp::model::{spec_decode_simple, spec_simple_line, FrameVal, SpecLine, SpecParse};
use crate::resp::{matches_err, RespError};

} // verus!
