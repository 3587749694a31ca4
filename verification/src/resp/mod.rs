//! RESP frames and their codec.

use vstd::prelude::*;

pub mod array;
pub mod boolean;
pub mod bulk_string;
pub mod decode;
pub mod digits;
pub mod encode;
pub mod double;
pub mod frame;
pub mod integer;
pub mod map;
pub mod model;
pub mod null;
pub mod order;
pub mod proofs;
pub mod set;
pub mod simple_error;
pub mod simple_string;

verus! {

use crate::resp::model::{spec_find_crlf, DecErr};

/// Errors arising while reading RESP frames from a byte buffer.
///
/// `NotCompleteFrame` is the internal "need more bytes" sentinel; the
/// remaining variants mark malformed input.
#[derive(Debug, Clone, PartialEq, Eq)]
pub enum RespError {
    InvalidFrame(Vec<u8>),
    InvalidFrameType(Vec<u8>),
    InvalidFrameLength(i64),
    NotCompleteFrame,
    ParseIntError,
    ParseFloatError,
}

/// Which abstract error class an exec error belongs to.  Message payloads
/// are not part of the model.
pub open spec fn matches_err(e: RespError, k: DecErr) -> bool {
    match k {
        DecErr::BadType => e is InvalidFrameType,
        DecErr::BadLength(l) => e matches RespError::InvalidFrameLength(x) && x as int == l,
        DecErr::BadInt => e is ParseIntError,
        DecErr::BadFloat => e is ParseFloatError,
    }
}

/// A type with a RESP wire form.  `spec_encode` is the type's abstract
/// byte image; `encode` produces exactly those bytes.
pub trait RespEncode: Sized {
    spec fn spec_encode(&self) -> Seq<u8>;

    fn encode(self) -> (r: Vec<u8>)
        ensures
            r@ == self.spec_encode(),
    ;
}

/// Index of the CR ending the prefix-tagged line at the start of the
/// buffer: the prefix byte must match, and a CRLF must be present.
pub fn extract_simple_frame_data(buf: &[u8], prefix: u8) -> (r: Result<usize, RespError>)
    requires
        prefix != 13,
    ensures
        ({
            match crate::resp::model::spec_simple_line(buf@, 0, prefix) {
                crate::resp::model::SpecLine::Line(p, n) => r matches Ok(end) && end + 2 == n,
                crate::resp::model::SpecLine::Incomplete => r matches Err(e)
                    && e is NotCompleteFrame,
                crate::resp::model::SpecLine::WrongType => r matches Err(e)
                    && e is InvalidFrameType,
            }
        }),
{
    match crate::resp::decode::line_at(buf, 0, prefix) {
        Ok(n) => Ok(n - 2),
        Err(e) => Err(e),
    }
}

/// Parse an aggregate length header at the start of the buffer: the
/// index of its CR and the signed length it carries.
pub fn parse_length(buf: &[u8], prefix: u8) -> (r: Result<(usize, i64), RespError>)
    requires
        prefix != 13,
    ensures
        ({
            match crate::resp::model::spec_length_header(buf@, 0, prefix) {
                crate::resp::model::SpecHead::Head(len, n) => r matches Ok(x) && x.0 + 2 == n
                    && x.1 as int == len,
                crate::resp::model::SpecHead::Incomplete => r matches Err(e)
                    && e is NotCompleteFrame,
                crate::resp::model::SpecHead::WrongType => r matches Err(e)
                    && e is InvalidFrameType,
                crate::resp::model::SpecHead::Fail(k) => r matches Err(e) && matches_err(e, k),
            }
        }),
{
    match crate::resp::decode::length_header_at(buf, 0, prefix) {
        Ok((n, len)) => Ok((n - 2, len)),
        Err(e) => Err(e),
    }
}

/// Total byte count of an aggregate frame whose length header ends at
/// `end` and announces `len` children (or, for any other prefix, of a
/// payload of `len` bytes and its CRLF).
pub fn calc_total_length(buf: &[u8], end: usize, len: usize, prefix: u8) -> (r: Result<
    usize,
    RespError,
>)
    requires
        end + 2 <= buf@.len(),
    ensures
        ({
            if prefix == 42 || prefix == 126 {
                match crate::resp::model::spec_expect_items(buf@, end + 2, len as int) {
                    crate::resp::model::SpecLen::Len(t) => r matches Ok(m) && m as int == end + 2
                        + t,
                    crate::resp::model::SpecLen::Incomplete => r matches Err(e)
                        && e is NotCompleteFrame,
                    crate::resp::model::SpecLen::Fail(k) => r matches Err(e) && matches_err(e, k),
                }
            } else if prefix == 37 {
                match crate::resp::model::spec_expect_pairs(buf@, end + 2, len as int) {
                    crate::resp::model::SpecLen::Len(t) => r matches Ok(m) && m as int == end + 2
                        + t,
                    crate::resp::model::SpecLen::Incomplete => r matches Err(e)
                        && e is NotCompleteFrame,
                    crate::resp::model::SpecLen::Fail(k) => r matches Err(e) && matches_err(e, k),
                }
            } else if len + 2 > usize::MAX {
                r matches Err(e) && e is NotCompleteFrame
            } else {
                r matches Ok(m) && m as int == len + 2
            }
        }),
{
    let blen: usize = buf.len();
    if prefix == 42 || prefix == 126 {
        match crate::resp::decode::expect_items_at(buf, end + 2, len) {
            Ok(t) => Ok(end + 2 + t),
            Err(e) => Err(e),
        }
    } else if prefix == 37 {
        match crate::resp::decode::expect_pairs_at(buf, end + 2, len) {
            Ok(t) => Ok(end + 2 + t),
            Err(e) => Err(e),
        }
    } else {
        if len > usize::MAX - 2 {
            return Err(RespError::NotCompleteFrame);
        }
        Ok(len + 2)
    }
}

/// Position of the first CRLF window in `buf`.
pub fn find_crlf(buf: &[u8]) -> (r: Option<usize>)
    ensures
        match r {
            Some(i) => spec_find_crlf(buf@, 0) == Some(i as int),
            None => spec_find_crlf(buf@, 0) is None,
        },
{
    proof {
        crate::resp::model::lemma_find_crlf(buf@, 0);
    }
    if buf.len() < 2 {
        return None;
    }
    let mut i: usize = 0;
    while i < buf.len() - 1
        invariant
            buf.len() >= 2,
            0 <= i,
            i + 2 <= buf.len() + 1,
            forall|j: int| 0 <= j < i ==> !(#[trigger] buf@[j] == 13 && buf@[j + 1] == 10),
        decreases buf.len() - i,
    {
        if buf[i] == 13 && buf[i + 1] == 10 {
            proof {
                crate::resp::model::lemma_find_crlf_found(buf@, 0, i as int);
            }
            return Some(i);
        }
        i = i + 1;
    }
    None
}

} // verus!
