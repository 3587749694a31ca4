//! The frame encoder, proved to produce exactly `encode_spec` of the
//! frame's value.

use vstd::prelude::*;

verus! {

use crate::resp::array::RespArray;
use crate::resp::bulk_string::BulkString;
use crate::resp::digits::{push_int_text, push_uint};
use crate::resp::double::RespDouble;
use crate::resp::frame::{
    entries_view, frames_view, lemma_entries_view, lemma_frames_view, RespFrame,
};
use crate::resp::map::RespMap;
use crate::resp::model::{
    crlf, encode_items, encode_pairs, encode_spec, FrameVal,
};
use crate::resp::null::RespNull;
use crate::resp::set::RespSet;
use crate::resp::simple_error::SimpleError;
use crate::resp::simple_string::SimpleString;
use crate::resp::RespEncode;

broadcast use vstd::seq::axiom_seq_index_decreases;

/// Append a byte slice.
pub fn push_slice(out: &mut Vec<u8>, s: &[u8])
    ensures
        final(out)@ == old(out)@ + s@,
{
    out.extend_from_slice(s);
    proof {
        assert(forall|i: int| 0 <= i < s@.len() ==> out@[old(out)@.len() + i] == s@[i]);
        assert(out@ =~= old(out)@ + s@);
    }
}

/// Append the CRLF terminator.
pub fn push_crlf(out: &mut Vec<u8>)
    ensures
        final(out)@ == old(out)@ + crlf(),
{
    out.push(13);
    out.push(10);
    proof {
        assert(out@ =~= old(out)@ + crlf());
    }
}

/// Append the wire form of `f`.
pub fn encode_frame(f: &RespFrame, out: &mut Vec<u8>)
    ensures
        final(out)@ == old(out)@ + encode_spec(f@),
    decreases f,
{
    let ghost base = out@;
    match f {
        RespFrame::SimpleString(s) => {
            out.push(43);
            push_slice(out, s.0.as_slice());
            push_crlf(out);
            proof {
                assert(out@ =~= base + encode_spec(f@));
            }
        },
        RespFrame::SimpleError(s) => {
            out.push(45);
            push_slice(out, s.0.as_slice());
            push_crlf(out);
            proof {
                assert(out@ =~= base + encode_spec(f@));
            }
        },
        RespFrame::Integer(n) => {
            out.push(58);
            push_int_text(*n, out);
            push_crlf(out);
            proof {
                assert(out@ =~= base + encode_spec(f@));
            }
        },
        RespFrame::BulkString(b) => match &b.0 {
            Some(v) => {
                out.push(36);
                push_uint(v.len() as u64, out);
                push_crlf(out);
                push_slice(out, v.as_slice());
                push_crlf(out);
                proof {
                    assert(out@ =~= base + encode_spec(f@));
                }
            },
            None => {
                out.push(36);
                out.push(45);
                out.push(49);
                push_crlf(out);
                proof {
                    assert(out@ =~= base + encode_spec(f@));
                }
            },
        },
        RespFrame::Array(a) => match &a.0 {
            Some(v) => {
                out.push(42);
                push_uint(v.len() as u64, out);
                push_crlf(out);
                encode_frames(v, out);
                proof {
                    lemma_frames_view(v@);
                    assert(out@ =~= base + encode_spec(f@));
                }
            },
            None => {
                out.push(42);
                out.push(45);
                out.push(49);
                push_crlf(out);
                proof {
                    assert(out@ =~= base + encode_spec(f@));
                }
            },
        },
        RespFrame::Null(_) => {
            out.push(95);
            push_crlf(out);
            proof {
                assert(out@ =~= base + encode_spec(f@));
            }
        },
        RespFrame::Boolean(b) => {
            out.push(35);
            if *b {
                out.push(116);
            } else {
                out.push(102);
            }
            push_crlf(out);
            proof {
                assert(out@ =~= base + encode_spec(f@));
            }
        },
        RespFrame::Double(d) => {
            out.push(44);
            push_slice(out, d.0.as_slice());
            push_crlf(out);
            proof {
                assert(out@ =~= base + encode_spec(f@));
            }
        },
        RespFrame::MapFrame(m) => {
            out.push(37);
            push_uint(m.0.len() as u64, out);
            push_crlf(out);
            encode_map_entries(&m.0, out);
            proof {
                lemma_entries_view(m.0@);
                assert(out@ =~= base + encode_spec(f@));
            }
        },
        RespFrame::SetFrame(s) => {
            out.push(126);
            push_uint(s.0.len() as u64, out);
            push_crlf(out);
            encode_frames(&s.0, out);
            proof {
                lemma_frames_view(s.0@);
                assert(out@ =~= base + encode_spec(f@));
            }
        },
    }
}

/// Append the wire forms of all frames in `v`, in order.
fn encode_frames(v: &Vec<RespFrame>, out: &mut Vec<u8>)
    ensures
        final(out)@ == old(out)@ + encode_items(frames_view(v@), 0),
    decreases v,
{
    let ghost sv = frames_view(v@);
    let ghost base = out@;
    proof {
        lemma_frames_view(v@);
    }
    let mut i: usize = 0;
    while i < v.len()
        invariant
            0 <= i <= v@.len(),
            sv == frames_view(v@),
            sv.len() == v@.len(),
            base + encode_items(sv, 0) == out@ + encode_items(sv, i as int),
        decreases v@.len() - i,
    {
        let ghost before = out@;
        encode_frame(&v[i], out);
        proof {
            lemma_frames_view(v@);
            assert(sv[i as int] == v@[i as int]@);
            assert(encode_items(sv, i as int) == encode_spec(sv[i as int]) + encode_items(
                sv,
                i + 1,
            ));
            assert(out@ + encode_items(sv, i + 1) =~= before + encode_items(sv, i as int));
        }
        i = i + 1;
    }
    proof {
        assert(encode_items(sv, i as int) =~= Seq::<u8>::empty());
        assert(out@ + encode_items(sv, i as int) =~= out@);
    }
}

/// Append the wire forms of all map entries, each as a SimpleString key
/// followed by the value.
fn encode_map_entries(v: &Vec<(Vec<u8>, RespFrame)>, out: &mut Vec<u8>)
    ensures
        final(out)@ == old(out)@ + encode_pairs(entries_view(v@), 0),
    decreases v,
{
    let ghost sv = entries_view(v@);
    let ghost base = out@;
    proof {
        lemma_entries_view(v@);
    }
    let mut i: usize = 0;
    while i < v.len()
        invariant
            0 <= i <= v@.len(),
            sv == entries_view(v@),
            sv.len() == v@.len(),
            base + encode_pairs(sv, 0) == out@ + encode_pairs(sv, i as int),
        decreases v@.len() - i,
    {
        let ghost before = out@;
        out.push(43);
        push_slice(out, v[i].0.as_slice());
        push_crlf(out);
        encode_frame(&v[i].1, out);
        proof {
            lemma_entries_view(v@);
            assert(sv[i as int] == (v@[i as int].0@, v@[i as int].1@));
            assert(encode_pairs(sv, i as int) == seq![43u8] + sv[i as int].0 + crlf()
                + encode_spec(sv[i as int].1) + encode_pairs(sv, i + 1));
            assert(out@ + encode_pairs(sv, i + 1) =~= before + encode_pairs(sv, i as int));
        }
        i = i + 1;
    }
    proof {
        assert(encode_pairs(sv, i as int) =~= Seq::<u8>::empty());
        assert(out@ + encode_pairs(sv, i as int) =~= out@);
    }
}

impl RespEncode for RespFrame {
    open spec fn spec_encode(&self) -> Seq<u8> {
        encode_spec(self@)
    }

    fn encode(self) -> (r: Vec<u8>) {
        let mut out: Vec<u8> = Vec::new();
        encode_frame(&self, &mut out);
        proof {
            assert(out@ =~= self.spec_encode());
        }
        out
    }
}

impl RespEncode for SimpleString {
    open spec fn spec_encode(&self) -> Seq<u8> {
        encode_spec(FrameVal::Simple(self@))
    }

    fn encode(self) -> (r: Vec<u8>) {
        RespFrame::SimpleString(self).encode()
    }
}

impl RespEncode for SimpleError {
    open spec fn spec_encode(&self) -> Seq<u8> {
        encode_spec(FrameVal::Error(self@))
    }

    fn encode(self) -> (r: Vec<u8>) {
        RespFrame::SimpleError(self).encode()
    }
}

impl RespEncode for i64 {
    open spec fn spec_encode(&self) -> Seq<u8> {
        encode_spec(FrameVal::Int(*self as int))
    }

    fn encode(self) -> (r: Vec<u8>) {
        RespFrame::Integer(self).encode()
    }
}

impl RespEncode for bool {
    open spec fn spec_encode(&self) -> Seq<u8> {
        encode_spec(FrameVal::Bool(*self))
    }

    fn encode(self) -> (r: Vec<u8>) {
        RespFrame::Boolean(self).encode()
    }
}

impl RespEncode for BulkString {
    open spec fn spec_encode(&self) -> Seq<u8> {
        encode_spec(FrameVal::Bulk(self@))
    }

    fn encode(self) -> (r: Vec<u8>) {
        RespFrame::BulkString(self).encode()
    }
}

impl RespEncode for RespArray {
    open spec fn spec_encode(&self) -> Seq<u8> {
        encode_spec(FrameVal::Arr(self@))
    }

    fn encode(self) -> (r: Vec<u8>) {
        RespFrame::Array(self).encode()
    }
}

impl RespEncode for RespNull {
    open spec fn spec_encode(&self) -> Seq<u8> {
        encode_spec(FrameVal::Null)
    }

    fn encode(self) -> (r: Vec<u8>) {
        RespFrame::Null(self).encode()
    }
}

impl RespEncode for RespDouble {
    open spec fn spec_encode(&self) -> Seq<u8> {
        encode_spec(FrameVal::Double(self@))
    }

    fn encode(self) -> (r: Vec<u8>) {
        RespFrame::Double(self).encode()
    }
}

impl RespEncode for RespMap {
    open spec fn spec_encode(&self) -> Seq<u8> {
        encode_spec(FrameVal::MapV(self@))
    }

    fn encode(self) -> (r: Vec<u8>) {
        RespFrame::MapFrame(self).encode()
    }
}

impl RespEncode for RespSet {
    open spec fn spec_encode(&self) -> Seq<u8> {
        encode_spec(FrameVal::SetV(self@))
    }

    fn encode(self) -> (r: Vec<u8>) {
        RespFrame::SetFrame(self).encode()
    }
}

} // verus!
