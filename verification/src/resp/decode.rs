//! The incremental frame decoder, proved against `decode_spec` and
//! `expect_spec`.
//!
//! All functions here read from a slice at an offset and never consume;
//! the public `decode` methods on the frame types drain the buffer only
//! after a whole frame has parsed.

use vstd::prelude::*;

verus! {

use crate::resp::array::RespArray;
use crate::resp::bulk_string::BulkString;
use crate::resp::digits::parse_signed;
use crate::resp::double::{check_float_text, RespDouble};
use crate::resp::frame::{frames_view, RespFrame};
use crate::resp::map::RespMap;
use crate::resp::model::{
    decode_spec, expect_spec, lemma_find_crlf, pairs_insert_all, spec_decode_agg,
    spec_decode_array, spec_decode_bool, spec_decode_bulk, spec_decode_double, spec_decode_int,
    spec_decode_items, spec_decode_map, spec_decode_null, spec_decode_pairs, spec_decode_set,
    spec_decode_simple, spec_expect_items, spec_expect_pairs, spec_find_crlf, spec_length_header,
    spec_simple_line, DecErr, FrameVal, SpecHead, SpecItems, SpecLen, SpecLine, SpecPairs,
    SpecParse,
};
use crate::resp::null::RespNull;
use crate::resp::set::RespSet;
use crate::resp::simple_error::SimpleError;
use crate::resp::simple_string::SimpleString;
use crate::resp::{matches_err, RespError};

/// A short malformed-type message for the error payload.
fn type_err_msg() -> Vec<u8>
{
    let mut m: Vec<u8> = Vec::new();
    // "bad frame type"
    m.push(98);
    m.push(97);
    m.push(100);
    m.push(32);
    m.push(102);
    m.push(114);
    m.push(97);
    m.push(109);
    m.push(101);
    m.push(32);
    m.push(116);
    m.push(121);
    m.push(112);
    m.push(101);
    m
}

/// First CRLF window at or after `pos`.
pub fn find_crlf_from(buf: &[u8], pos: usize) -> (r: Option<usize>)
    ensures
        match r {
            Some(i) => spec_find_crlf(buf@, pos as int) == Some(i as int) && pos <= i && i + 2
                <= buf@.len(),
            None => spec_find_crlf(buf@, pos as int) is None,
        },
{
    proof {
        lemma_find_crlf(buf@, pos as int);
    }
    if buf.len() < 2 || pos > buf.len() - 2 {
        return None;
    }
    let mut i: usize = pos;
    while i <= buf.len() - 2
        invariant
            buf@.len() >= 2,
            pos <= i,
            i <= buf@.len(),
            forall|j: int| pos <= j < i ==> !(#[trigger] buf@[j] == 13 && buf@[j + 1] == 10),
        decreases buf@.len() - i,
    {
        if buf[i] == 13 && buf[i + 1] == 10 {
            proof {
                crate::resp::model::lemma_find_crlf_found(buf@, pos as int, i as int);
            }
            return Some(i);
        }
        i = i + 1;
    }
    None
}

/// Bytes `a..b` of the slice as a fresh vector.
pub fn copy_range(buf: &[u8], a: usize, b: usize) -> (r: Vec<u8>)
    requires
        a <= b <= buf@.len(),
    ensures
        r@ == buf@.subrange(a as int, b as int),
{
    let s = vstd::slice::slice_subrange(buf, a, b);
    vstd::slice::slice_to_vec(s)
}

/// Read one prefix-tagged line at `pos`; on success return its byte
/// count `n` (prefix, payload and CRLF), so the payload is
/// `buf[pos + 1 .. pos + n - 2]`.
pub fn line_at(buf: &[u8], pos: usize, prefix: u8) -> (r: Result<usize, RespError>)
    requires
        pos <= buf@.len(),
        prefix != 13,
    ensures
        ({
            let d = spec_simple_line(buf@, pos as int, prefix);
            match r {
                Ok(n) => d == SpecLine::Line(
                    buf@.subrange(pos + 1, pos + n - 2),
                    n as int,
                ) && 3 <= n && pos + n <= buf@.len(),
                Err(e) => match d {
                    SpecLine::Incomplete => e is NotCompleteFrame,
                    SpecLine::WrongType => e is InvalidFrameType,
                    SpecLine::Line(p, n) => false,
                },
            }
        }),
{
    if buf.len() - pos < 3 {
        return Err(RespError::NotCompleteFrame);
    }
    if buf[pos] != prefix {
        return Err(RespError::InvalidFrameType(type_err_msg()));
    }
    match find_crlf_from(buf, pos) {
        None => Err(RespError::NotCompleteFrame),
        Some(end) => {
            proof {
                lemma_find_crlf(buf@, pos as int);
                assert(buf@[end as int] == 13);
                assert(end != pos);
            }
            Ok(end + 2 - pos)
        },
    }
}

/// Read an aggregate length header at `pos`: the line's byte count and
/// the signed length it carries.
pub fn length_header_at(buf: &[u8], pos: usize, prefix: u8) -> (r: Result<
    (usize, i64),
    RespError,
>)
    requires
        pos <= buf@.len(),
        prefix != 13,
    ensures
        ({
            let d = spec_length_header(buf@, pos as int, prefix);
            match r {
                Ok((n, len)) => d == SpecHead::Head(len as int, n as int) && 3 <= n && pos + n
                    <= buf@.len(),
                Err(e) => match d {
                    SpecHead::Incomplete => e is NotCompleteFrame,
                    SpecHead::WrongType => e is InvalidFrameType,
                    SpecHead::Fail(k) => matches_err(e, k),
                    SpecHead::Head(len, n) => false,
                },
            }
        }),
{
    let blen: usize = buf.len();
    let n = match line_at(buf, pos, prefix) {
        Ok(n) => n,
        Err(e) => {
            return Err(e);
        },
    };
    let payload = vstd::slice::slice_subrange(buf, pos + 1, pos + n - 2);
    match parse_signed(payload) {
        Ok(v) => {
            if v >= 0 && (v as u64) > (usize::MAX as u64) {
                Err(RespError::ParseIntError)
            } else {
                Ok((n, v))
            }
        },
        Err(e) => Err(RespError::ParseIntError),
    }
}

// ---------------------------------------------------------------------
// per-variant decoders
// ---------------------------------------------------------------------

/// Read a line frame's payload at `pos`.
fn line_payload_at(buf: &[u8], pos: usize, prefix: u8) -> (r: Result<(Vec<u8>, usize), RespError>)
    requires
        pos <= buf@.len(),
        prefix != 13,
    ensures
        ({
            let d = spec_simple_line(buf@, pos as int, prefix);
            match r {
                Ok((p, n)) => d == SpecLine::Line(p@, n as int) && 3 <= n && pos + n <= buf@.len(),
                Err(e) => match d {
                    SpecLine::Incomplete => e is NotCompleteFrame,
                    SpecLine::WrongType => e is InvalidFrameType,
                    SpecLine::Line(p, n) => false,
                },
            }
        }),
{
    let blen: usize = buf.len();
    let n = match line_at(buf, pos, prefix) {
        Ok(n) => n,
        Err(e) => {
            return Err(e);
        },
    };
    let p = copy_range(buf, pos + 1, pos + n - 2);
    Ok((p, n))
}

pub fn simple_string_at(buf: &[u8], pos: usize) -> (r: Result<(SimpleString, usize), RespError>)
    requires
        pos <= buf@.len(),
    ensures
        ({
            let d = spec_decode_simple(buf@, pos as int, 43);
            match r {
                Ok((f, n)) => d == SpecParse::Parsed(FrameVal::Simple(f@), n as int) && 3 <= n
                    && pos + n <= buf@.len(),
                Err(e) => match d {
                    SpecParse::Incomplete => e is NotCompleteFrame,
                    SpecParse::Fail(k) => matches_err(e, k),
                    SpecParse::Parsed(v, n) => false,
                },
            }
        }),
{
    match line_payload_at(buf, pos, 43) {
        Ok((p, n)) => Ok((SimpleString(p), n)),
        Err(e) => Err(e),
    }
}

pub fn simple_error_at(buf: &[u8], pos: usize) -> (r: Result<(SimpleError, usize), RespError>)
    requires
        pos <= buf@.len(),
    ensures
        ({
            let d = spec_decode_simple(buf@, pos as int, 45);
            match r {
                Ok((f, n)) => d == SpecParse::Parsed(FrameVal::Error(f@), n as int) && 3 <= n
                    && pos + n <= buf@.len(),
                Err(e) => match d {
                    SpecParse::Incomplete => e is NotCompleteFrame,
                    SpecParse::Fail(k) => matches_err(e, k),
                    SpecParse::Parsed(v, n) => false,
                },
            }
        }),
{
    match line_payload_at(buf, pos, 45) {
        Ok((p, n)) => Ok((SimpleError(p), n)),
        Err(e) => Err(e),
    }
}

pub fn integer_at(buf: &[u8], pos: usize) -> (r: Result<(i64, usize), RespError>)
    requires
        pos <= buf@.len(),
    ensures
        ({
            let d = spec_decode_int(buf@, pos as int);
            match r {
                Ok((v, n)) => d == SpecParse::Parsed(FrameVal::Int(v as int), n as int) && 3 <= n
                    && pos + n <= buf@.len(),
                Err(e) => match d {
                    SpecParse::Incomplete => e is NotCompleteFrame,
                    SpecParse::Fail(k) => matches_err(e, k),
                    SpecParse::Parsed(v, n) => false,
                },
            }
        }),
{
    let blen: usize = buf.len();
    let n = match line_at(buf, pos, 58) {
        Ok(n) => n,
        Err(e) => {
            return Err(e);
        },
    };
    let payload = vstd::slice::slice_subrange(buf, pos + 1, pos + n - 2);
    match parse_signed(payload) {
        Ok(v) => Ok((v, n)),
        Err(e) => Err(RespError::ParseIntError),
    }
}

pub fn null_at(buf: &[u8], pos: usize) -> (r: Result<(RespNull, usize), RespError>)
    requires
        pos <= buf@.len(),
    ensures
        ({
            let d = spec_decode_null(buf@, pos as int);
            match r {
                Ok((f, n)) => d == SpecParse::Parsed(FrameVal::Null, n as int) && 3 <= n && pos + n
                    <= buf@.len(),
                Err(e) => match d {
                    SpecParse::Incomplete => e is NotCompleteFrame,
                    SpecParse::Fail(k) => matches_err(e, k),
                    SpecParse::Parsed(v, n) => false,
                },
            }
        }),
{
    let n = match line_at(buf, pos, 95) {
        Ok(n) => n,
        Err(e) => {
            return Err(e);
        },
    };
    if n != 3 {
        return Err(RespError::InvalidFrameType(type_err_msg()));
    }
    Ok((RespNull, 3))
}

pub fn boolean_at(buf: &[u8], pos: usize) -> (r: Result<(bool, usize), RespError>)
    requires
        pos <= buf@.len(),
    ensures
        ({
            let d = spec_decode_bool(buf@, pos as int);
            match r {
                Ok((b, n)) => d == SpecParse::Parsed(FrameVal::Bool(b), n as int) && 3 <= n && pos
                    + n <= buf@.len(),
                Err(e) => match d {
                    SpecParse::Incomplete => e is NotCompleteFrame,
                    SpecParse::Fail(k) => matches_err(e, k),
                    SpecParse::Parsed(v, n) => false,
                },
            }
        }),
{
    let blen: usize = buf.len();
    let n = match line_at(buf, pos, 35) {
        Ok(n) => n,
        Err(e) => {
            return Err(e);
        },
    };
    let ghost p = buf@.subrange(pos + 1, pos + n - 2);
    if n != 4 {
        proof {
            assert(p.len() != 1);
            assert(!(p =~= seq![116u8]));
            assert(!(p =~= seq![102u8]));
        }
        return Err(RespError::InvalidFrameType(type_err_msg()));
    }
    let c = buf[pos + 1];
    proof {
        assert(p.len() == 1 && p[0] == buf@[pos + 1]);
    }
    if c == 116 {
        proof {
            assert(p =~= seq![116u8]);
        }
        Ok((true, 4))
    } else if c == 102 {
        proof {
            assert(p =~= seq![102u8]);
            assert(!(p =~= seq![116u8]));
        }
        Ok((false, 4))
    } else {
        proof {
            assert(!(p =~= seq![116u8]));
            assert(!(p =~= seq![102u8]));
        }
        Err(RespError::InvalidFrameType(type_err_msg()))
    }
}

pub fn double_at(buf: &[u8], pos: usize) -> (r: Result<(RespDouble, usize), RespError>)
    requires
        pos <= buf@.len(),
    ensures
        ({
            let d = spec_decode_double(buf@, pos as int);
            match r {
                Ok((f, n)) => d == SpecParse::Parsed(FrameVal::Double(f@), n as int) && 3 <= n
                    && pos + n <= buf@.len(),
                Err(e) => match d {
                    SpecParse::Incomplete => e is NotCompleteFrame,
                    SpecParse::Fail(k) => matches_err(e, k),
                    SpecParse::Parsed(v, n) => false,
                },
            }
        }),
{
    let (p, n) = match line_payload_at(buf, pos, 44) {
        Ok(x) => x,
        Err(e) => {
            return Err(e);
        },
    };
    if !check_float_text(p.as_slice()) {
        return Err(RespError::ParseFloatError);
    }
    Ok((RespDouble(p), n))
}

pub fn bulk_at(buf: &[u8], pos: usize) -> (r: Result<(BulkString, usize), RespError>)
    requires
        pos <= buf@.len(),
    ensures
        ({
            let d = spec_decode_bulk(buf@, pos as int);
            match r {
                Ok((f, n)) => d == SpecParse::Parsed(FrameVal::Bulk(f@), n as int) && 3 <= n && pos
                    + n <= buf@.len(),
                Err(e) => match d {
                    SpecParse::Incomplete => e is NotCompleteFrame,
                    SpecParse::Fail(k) => matches_err(e, k),
                    SpecParse::Parsed(v, n) => false,
                },
            }
        }),
{
    let blen: usize = buf.len();
    let (n, len) = match length_header_at(buf, pos, 36) {
        Ok(x) => x,
        Err(e) => {
            return Err(e);
        },
    };
    if len == -1 {
        return Ok((BulkString(None), n));
    }
    if len < -1 {
        return Err(RespError::InvalidFrameLength(len));
    }
    let lenu = len as usize;
    let rem = blen - (pos + n);
    if rem < 2 || rem - 2 < lenu {
        return Err(RespError::NotCompleteFrame);
    }
    let data = copy_range(buf, pos + n, pos + n + lenu);
    Ok((BulkString(Some(data)), n + lenu + 2))
}

// ---------------------------------------------------------------------
// the size preflight
// ---------------------------------------------------------------------

/// Preflight of `cnt` frames starting at `pos`: their total byte count.
pub fn expect_items_at(buf: &[u8], pos: usize, cnt: usize) -> (r: Result<usize, RespError>)
    requires
        pos <= buf@.len(),
    ensures
        ({
            let d = spec_expect_items(buf@, pos as int, cnt as int);
            match r {
                Ok(t) => d == SpecLen::Len(t as int) && pos + t <= buf@.len(),
                Err(e) => match d {
                    SpecLen::Incomplete => e is NotCompleteFrame,
                    SpecLen::Fail(k) => matches_err(e, k),
                    SpecLen::Len(t) => false,
                },
            }
        }),
    decreases buf@.len() - pos, 2int,
{
    let blen: usize = buf.len();
    let mut p: usize = pos;
    let mut i: usize = 0;
    while i < cnt
        invariant
            pos <= p <= blen,
            blen == buf@.len(),
            0 <= i <= cnt,
            ({
                let d0 = spec_expect_items(buf@, pos as int, cnt as int);
                match spec_expect_items(buf@, p as int, (cnt - i) as int) {
                    SpecLen::Len(t) => d0 == SpecLen::Len((p - pos) + t),
                    SpecLen::Incomplete => d0 is Incomplete,
                    SpecLen::Fail(e) => d0 == SpecLen::Fail(e),
                }
            }),
        decreases cnt - i,
    {
        let l = match expect_at(buf, p) {
            Ok(l) => l,
            Err(e) => {
                return Err(e);
            },
        };
        if l == 0 || l > blen - p {
            return Err(RespError::NotCompleteFrame);
        }
        p = p + l;
        i = i + 1;
    }
    Ok(p - pos)
}

/// Preflight of `cnt` key/value pairs starting at `pos`.
pub fn expect_pairs_at(buf: &[u8], pos: usize, cnt: usize) -> (r: Result<usize, RespError>)
    requires
        pos <= buf@.len(),
    ensures
        ({
            let d = spec_expect_pairs(buf@, pos as int, cnt as int);
            match r {
                Ok(t) => d == SpecLen::Len(t as int) && pos + t <= buf@.len(),
                Err(e) => match d {
                    SpecLen::Incomplete => e is NotCompleteFrame,
                    SpecLen::Fail(k) => matches_err(e, k),
                    SpecLen::Len(t) => false,
                },
            }
        }),
    decreases buf@.len() - pos, 2int,
{
    let blen: usize = buf.len();
    let mut p: usize = pos;
    let mut i: usize = 0;
    while i < cnt
        invariant
            pos <= p <= blen,
            blen == buf@.len(),
            0 <= i <= cnt,
            ({
                let d0 = spec_expect_pairs(buf@, pos as int, cnt as int);
                match spec_expect_pairs(buf@, p as int, (cnt - i) as int) {
                    SpecLen::Len(t) => d0 == SpecLen::Len((p - pos) + t),
                    SpecLen::Incomplete => d0 is Incomplete,
                    SpecLen::Fail(e) => d0 == SpecLen::Fail(e),
                }
            }),
        decreases cnt - i,
    {
        let kn = match line_at(buf, p, 43) {
            Ok(kn) => kn,
            Err(e) => {
                return Err(e);
            },
        };
        let vn = match expect_at(buf, p + kn) {
            Ok(vn) => vn,
            Err(e) => {
                return Err(e);
            },
        };
        if vn == 0 || vn > blen - (p + kn) {
            return Err(RespError::NotCompleteFrame);
        }
        p = p + kn + vn;
        i = i + 1;
    }
    Ok(p - pos)
}

/// Total byte count of the frame at `pos`, from headers alone.
pub fn expect_at(buf: &[u8], pos: usize) -> (r: Result<usize, RespError>)
    requires
        pos <= buf@.len(),
    ensures
        ({
            let d = expect_spec(buf@, pos as int);
            match r {
                Ok(t) => d == SpecLen::Len(t as int) && t >= 3,
                Err(e) => match d {
                    SpecLen::Incomplete => e is NotCompleteFrame,
                    SpecLen::Fail(k) => matches_err(e, k),
                    SpecLen::Len(t) => false,
                },
            }
        }),
    decreases buf@.len() - pos, 1int,
{
    let blen: usize = buf.len();
    if pos >= blen {
        return Err(RespError::NotCompleteFrame);
    }
    let c = buf[pos];
    if c == 43 || c == 45 || c == 58 || c == 95 || c == 35 || c == 44 {
        match line_at(buf, pos, c) {
            Ok(n) => Ok(n),
            Err(e) => Err(e),
        }
    } else if c == 36 {
        let (n, len) = match length_header_at(buf, pos, 36) {
            Ok(x) => x,
            Err(e) => {
                return Err(e);
            },
        };
        if len == -1 {
            Ok(n)
        } else if len < -1 {
            Err(RespError::InvalidFrameLength(len))
        } else {
            let lenu = len as usize;
            if usize::MAX - n < 2 || usize::MAX - n - 2 < lenu {
                // the frame's byte count itself must fit in usize;
                // a frame this long can never be complete in memory
                return Err(RespError::NotCompleteFrame);
            }
            Ok(n + lenu + 2)
        }
    } else if c == 42 || c == 126 {
        let (n, len) = match length_header_at(buf, pos, c) {
            Ok(x) => x,
            Err(e) => {
                return Err(e);
            },
        };
        if c == 42 && len == -1 {
            return Ok(n);
        }
        if len < 0 {
            return Err(RespError::InvalidFrameLength(len));
        }
        let t = match expect_items_at(buf, pos + n, len as usize) {
            Ok(t) => t,
            Err(e) => {
                return Err(e);
            },
        };
        Ok(n + t)
    } else if c == 37 {
        let (n, len) = match length_header_at(buf, pos, 37) {
            Ok(x) => x,
            Err(e) => {
                return Err(e);
            },
        };
        if len < 0 {
            return Err(RespError::InvalidFrameLength(len));
        }
        let t = match expect_pairs_at(buf, pos + n, len as usize) {
            Ok(t) => t,
            Err(e) => {
                return Err(e);
            },
        };
        Ok(n + t)
    } else {
        Err(RespError::InvalidFrameType(type_err_msg()))
    }
}

// ---------------------------------------------------------------------
// aggregate decoders and the dispatcher
// ---------------------------------------------------------------------

/// Decode `cnt` frames starting at `pos`.
fn decode_items_at(buf: &[u8], pos: usize, cnt: usize) -> (r: Result<
    (Vec<RespFrame>, usize),
    RespError,
>)
    requires
        pos <= buf@.len(),
    ensures
        ({
            let d = spec_decode_items(buf@, pos as int, cnt as int);
            match r {
                Ok((vs, u)) => d == SpecItems::Items(frames_view(vs@), u as int) && pos + u
                    <= buf@.len(),
                Err(e) => match d {
                    SpecItems::Incomplete => e is NotCompleteFrame,
                    SpecItems::Fail(k) => matches_err(e, k),
                    SpecItems::Items(vs, u) => false,
                },
            }
        }),
    decreases buf@.len() - pos, 2int,
{
    let blen: usize = buf.len();
    let mut out: Vec<RespFrame> = Vec::new();
    let mut p: usize = pos;
    let mut i: usize = 0;
    proof {
        crate::resp::frame::lemma_frames_view(out@);
    }
    while i < cnt
        invariant
            pos <= p <= blen,
            blen == buf@.len(),
            0 <= i <= cnt,
            ({
                let d0 = spec_decode_items(buf@, pos as int, cnt as int);
                match spec_decode_items(buf@, p as int, (cnt - i) as int) {
                    SpecItems::Items(vs2, t) => d0 == SpecItems::Items(
                        frames_view(out@) + vs2,
                        (p - pos) + t,
                    ),
                    SpecItems::Incomplete => d0 is Incomplete,
                    SpecItems::Fail(e) => d0 == SpecItems::Fail(e),
                }
            }),
        decreases cnt - i,
    {
        let ghost prev = out@;
        let (f, used) = match decode_at(buf, p) {
            Ok(x) => x,
            Err(e) => {
                return Err(e);
            },
        };
        let ghost fv = f@;
        out.push(f);
        proof {
            assert(out@.drop_last() =~= prev);
            assert(frames_view(out@) == frames_view(prev).push(fv));
            assert forall|vs2: Seq<FrameVal>|
                true implies frames_view(prev) + (seq![fv] + vs2) =~= frames_view(prev).push(fv)
                + vs2 by {}
        }
        p = p + used;
        i = i + 1;
    }
    proof {
        assert(frames_view(out@) + Seq::<FrameVal>::empty() =~= frames_view(out@));
    }
    Ok((out, p - pos))
}

/// Decode `cnt` key/value pairs starting at `pos`, inserting each into
/// a fresh sorted map.
fn decode_pairs_at(buf: &[u8], pos: usize, cnt: usize) -> (r: Result<
    (RespMap, usize),
    RespError,
>)
    requires
        pos <= buf@.len(),
    ensures
        ({
            let d = spec_decode_pairs(buf@, pos as int, cnt as int);
            match r {
                Ok((m, u)) => (exists|ps: Seq<(Seq<u8>, FrameVal)>|
                    d == SpecPairs::Pairs(ps, u as int) && m@ == pairs_insert_all(ps)) && pos + u
                    <= buf@.len(),
                Err(e) => match d {
                    SpecPairs::Incomplete => e is NotCompleteFrame,
                    SpecPairs::Fail(k) => matches_err(e, k),
                    SpecPairs::Pairs(ps, u) => false,
                },
            }
        }),
    decreases buf@.len() - pos, 2int,
{
    let blen: usize = buf.len();
    let mut out: RespMap = RespMap::new();
    let mut p: usize = pos;
    let mut i: usize = 0;
    let ghost mut acc: Seq<(Seq<u8>, FrameVal)> = Seq::empty();
    proof {
        assert(pairs_insert_all(acc) =~= Seq::<(Seq<u8>, FrameVal)>::empty());
    }
    while i < cnt
        invariant
            pos <= p <= blen,
            blen == buf@.len(),
            0 <= i <= cnt,
            out@ == pairs_insert_all(acc),
            ({
                let d0 = spec_decode_pairs(buf@, pos as int, cnt as int);
                match spec_decode_pairs(buf@, p as int, (cnt - i) as int) {
                    SpecPairs::Pairs(ps2, t) => d0 == SpecPairs::Pairs(
                        acc + ps2,
                        (p - pos) + t,
                    ),
                    SpecPairs::Incomplete => d0 is Incomplete,
                    SpecPairs::Fail(e) => d0 == SpecPairs::Fail(e),
                }
            }),
        decreases cnt - i,
    {
        let (k, kn) = match line_payload_at(buf, p, 43) {
            Ok(x) => x,
            Err(e) => {
                return Err(e);
            },
        };
        let ghost kv = k@;
        let (f, vn) = match decode_at(buf, p + kn) {
            Ok(x) => x,
            Err(e) => {
                return Err(e);
            },
        };
        let ghost fv = f@;
        out.insert(k, f);
        proof {
            let acc2 = acc.push((kv, fv));
            assert(acc2.drop_last() =~= acc);
            assert(pairs_insert_all(acc2) == crate::resp::model::pairs_insert(
                pairs_insert_all(acc),
                kv,
                fv,
            ));
            assert forall|ps2: Seq<(Seq<u8>, FrameVal)>|
                true implies acc + (seq![(kv, fv)] + ps2) =~= acc2 + ps2 by {}
            acc = acc2;
        }
        p = p + kn + vn;
        i = i + 1;
    }
    proof {
        assert(acc + Seq::<(Seq<u8>, FrameVal)>::empty() =~= acc);
    }
    Ok((out, p - pos))
}

pub fn array_at(buf: &[u8], pos: usize) -> (r: Result<(RespArray, usize), RespError>)
    requires
        pos <= buf@.len(),
    ensures
        ({
            let d = spec_decode_array(buf@, pos as int);
            match r {
                Ok((f, n)) => d == SpecParse::Parsed(FrameVal::Arr(f@), n as int) && 3 <= n && pos
                    + n <= buf@.len(),
                Err(e) => match d {
                    SpecParse::Incomplete => e is NotCompleteFrame,
                    SpecParse::Fail(k) => matches_err(e, k),
                    SpecParse::Parsed(v, n) => false,
                },
            }
        }),
    decreases buf@.len() - pos, 0int,
{
    let blen: usize = buf.len();
    let (n, len) = match length_header_at(buf, pos, 42) {
        Ok(x) => x,
        Err(e) => {
            return Err(e);
        },
    };
    if len == -1 {
        return Ok((RespArray(None), n));
    }
    if len < -1 {
        return Err(RespError::InvalidFrameLength(len));
    }
    let cnt = len as usize;
    match expect_items_at(buf, pos + n, cnt) {
        Ok(t) => {},
        Err(e) => {
            return Err(e);
        },
    }
    let (vs, used) = match decode_items_at(buf, pos + n, cnt) {
        Ok(x) => x,
        Err(e) => {
            return Err(e);
        },
    };
    Ok((RespArray(Some(vs)), n + used))
}

pub fn set_at(buf: &[u8], pos: usize) -> (r: Result<(RespSet, usize), RespError>)
    requires
        pos <= buf@.len(),
    ensures
        ({
            let d = spec_decode_set(buf@, pos as int);
            match r {
                Ok((f, n)) => d == SpecParse::Parsed(FrameVal::SetV(f@), n as int) && 3 <= n && pos
                    + n <= buf@.len(),
                Err(e) => match d {
                    SpecParse::Incomplete => e is NotCompleteFrame,
                    SpecParse::Fail(k) => matches_err(e, k),
                    SpecParse::Parsed(v, n) => false,
                },
            }
        }),
    decreases buf@.len() - pos, 0int,
{
    let blen: usize = buf.len();
    let (n, len) = match length_header_at(buf, pos, 126) {
        Ok(x) => x,
        Err(e) => {
            return Err(e);
        },
    };
    if len < 0 {
        return Err(RespError::InvalidFrameLength(len));
    }
    let cnt = len as usize;
    match expect_items_at(buf, pos + n, cnt) {
        Ok(t) => {},
        Err(e) => {
            return Err(e);
        },
    }
    let (vs, used) = match decode_items_at(buf, pos + n, cnt) {
        Ok(x) => x,
        Err(e) => {
            return Err(e);
        },
    };
    Ok((RespSet(vs), n + used))
}

pub fn map_at(buf: &[u8], pos: usize) -> (r: Result<(RespMap, usize), RespError>)
    requires
        pos <= buf@.len(),
    ensures
        ({
            let d = spec_decode_map(buf@, pos as int);
            match r {
                Ok((f, n)) => d == SpecParse::Parsed(FrameVal::MapV(f@), n as int) && 3 <= n && pos
                    + n <= buf@.len(),
                Err(e) => match d {
                    SpecParse::Incomplete => e is NotCompleteFrame,
                    SpecParse::Fail(k) => matches_err(e, k),
                    SpecParse::Parsed(v, n) => false,
                },
            }
        }),
    decreases buf@.len() - pos, 0int,
{
    let blen: usize = buf.len();
    let (n, len) = match length_header_at(buf, pos, 37) {
        Ok(x) => x,
        Err(e) => {
            return Err(e);
        },
    };
    if len < 0 {
        return Err(RespError::InvalidFrameLength(len));
    }
    let cnt = len as usize;
    match expect_pairs_at(buf, pos + n, cnt) {
        Ok(t) => {},
        Err(e) => {
            return Err(e);
        },
    }
    let (m, used) = match decode_pairs_at(buf, pos + n, cnt) {
        Ok(x) => x,
        Err(e) => {
            return Err(e);
        },
    };
    Ok((m, n + used))
}

/// Decode the frame starting at `pos`: dispatch on the prefix byte.
pub fn decode_at(buf: &[u8], pos: usize) -> (r: Result<(RespFrame, usize), RespError>)
    requires
        pos <= buf@.len(),
    ensures
        ({
            let d = decode_spec(buf@, pos as int);
            match r {
                Ok((f, n)) => d == SpecParse::Parsed(f@, n as int) && 3 <= n && pos + n
                    <= buf@.len(),
                Err(e) => match d {
                    SpecParse::Incomplete => e is NotCompleteFrame,
                    SpecParse::Fail(k) => matches_err(e, k),
                    SpecParse::Parsed(v, n) => false,
                },
            }
        }),
    decreases buf@.len() - pos, 1int,
{
    let blen: usize = buf.len();
    if pos >= blen {
        return Err(RespError::NotCompleteFrame);
    }
    let c = buf[pos];
    if c == 43 {
        match simple_string_at(buf, pos) {
            Ok((f, n)) => Ok((RespFrame::SimpleString(f), n)),
            Err(e) => Err(e),
        }
    } else if c == 45 {
        match simple_error_at(buf, pos) {
            Ok((f, n)) => Ok((RespFrame::SimpleError(f), n)),
            Err(e) => Err(e),
        }
    } else if c == 58 {
        match integer_at(buf, pos) {
            Ok((v, n)) => Ok((RespFrame::Integer(v), n)),
            Err(e) => Err(e),
        }
    } else if c == 95 {
        match null_at(buf, pos) {
            Ok((f, n)) => Ok((RespFrame::Null(f), n)),
            Err(e) => Err(e),
        }
    } else if c == 35 {
        match boolean_at(buf, pos) {
            Ok((b, n)) => Ok((RespFrame::Boolean(b), n)),
            Err(e) => Err(e),
        }
    } else if c == 44 {
        match double_at(buf, pos) {
            Ok((f, n)) => Ok((RespFrame::Double(f), n)),
            Err(e) => Err(e),
        }
    } else if c == 36 {
        match bulk_at(buf, pos) {
            Ok((f, n)) => Ok((RespFrame::BulkString(f), n)),
            Err(e) => Err(e),
        }
    } else if c == 42 {
        match array_at(buf, pos) {
            Ok((f, n)) => Ok((RespFrame::Array(f), n)),
            Err(e) => Err(e),
        }
    } else if c == 126 {
        match set_at(buf, pos) {
            Ok((f, n)) => Ok((RespFrame::SetFrame(f), n)),
            Err(e) => Err(e),
        }
    } else if c == 37 {
        match map_at(buf, pos) {
            Ok((f, n)) => Ok((RespFrame::MapFrame(f), n)),
            Err(e) => Err(e),
        }
    } else {
        Err(RespError::InvalidFrameType(type_err_msg()))
    }
}

/// Size preflight shared by the `*`, `~` and `%` public
/// `expect_length` methods: length header, then the children.
pub fn aggregate_expect_length(buf: &[u8], prefix: u8) -> (r: Result<usize, RespError>)
    requires
        prefix == 42 || prefix == 126 || prefix == 37,
    ensures
        ({
            match spec_length_header(buf@, 0, prefix) {
                SpecHead::Head(len, n) => if prefix == 42 && len == -1 {
                    r matches Ok(m) && m as int == n
                } else if len < 0 {
                    r matches Err(e) && e matches RespError::InvalidFrameLength(l) && l as int
                        == len
                } else {
                    match (if prefix == 37 {
                        spec_expect_pairs(buf@, n, len)
                    } else {
                        spec_expect_items(buf@, n, len)
                    }) {
                        SpecLen::Len(t) => r matches Ok(m) && m as int == n + t,
                        SpecLen::Incomplete => r matches Err(e) && e is NotCompleteFrame,
                        SpecLen::Fail(k) => r matches Err(e) && matches_err(e, k),
                    }
                },
                SpecHead::Incomplete => r matches Err(e) && e is NotCompleteFrame,
                SpecHead::WrongType => r matches Err(e) && e is InvalidFrameType,
                SpecHead::Fail(k) => r matches Err(e) && matches_err(e, k),
            }
        }),
{
    let blen: usize = buf.len();
    let (n, len) = match length_header_at(buf, 0, prefix) {
        Ok(x) => x,
        Err(e) => {
            return Err(e);
        },
    };
    if prefix == 42 && len == -1 {
        return Ok(n);
    }
    if len < 0 {
        return Err(RespError::InvalidFrameLength(len));
    }
    let cnt = len as usize;
    let t = if prefix == 37 {
        match expect_pairs_at(buf, n, cnt) {
            Ok(t) => t,
            Err(e) => {
                return Err(e);
            },
        }
    } else {
        match expect_items_at(buf, n, cnt) {
            Ok(t) => t,
            Err(e) => {
                return Err(e);
            },
        }
    };
    Ok(n + t)
}

/// Drop the first `n` bytes of the buffer.
pub fn consume(buf: &mut Vec<u8>, n: usize)
    requires
        n <= old(buf)@.len(),
    ensures
        final(buf)@ == old(buf)@.skip(n as int),
{
    let tail = buf.split_off(n);
    *buf = tail;
    proof {
        assert(buf@ =~= old(buf)@.skip(n as int));
    }
}

} // verus!
