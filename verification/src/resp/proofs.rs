//! The codec round-trip law: decoding the encoding of any well-formed
//! frame yields that frame back and consumes exactly its bytes, whatever
//! else follows in the buffer.

use vstd::prelude::*;

verus! {

use crate::resp::model::{
    all_digits, crlf, dec_digits, decode_spec, digits_val, encode_items, encode_pairs,
    encode_spec, expect_spec, fits_len, frame_wf, frames_wf, int_of_text, int_text, is_digit,
    is_exponent, is_float_body, is_float_text, is_inf_text, is_mantissa, is_nan_text, is_sign,
    line_span, lower_byte, no_crlf, pairs_insert_all, pairs_sorted, pairs_wf, spec_decode_agg,
    spec_decode_items, spec_decode_pairs, spec_expect_items, spec_expect_pairs,
    spec_find_crlf, spec_length_header, spec_simple_line, FrameVal, SpecHead, SpecItems, SpecLen,
    SpecLine, SpecPairs, SpecParse,
};
use crate::resp::digits::{
    lemma_dec_digits_are_digits, lemma_dec_digits_no_crlf, lemma_dec_digits_val,
    lemma_digits_val_nonneg, lemma_int_text_no_crlf, lemma_int_text_val,
};
use crate::resp::model::{lemma_find_crlf, lemma_find_crlf_found};
use crate::resp::order::{lemma_insert_all_sorted_id, lemma_pairs_insert_at_end};

/// The bytes `s` sit in `b` starting at `pos`.
pub open spec fn bytes_at(b: Seq<u8>, pos: int, s: Seq<u8>) -> bool {
    0 <= pos && pos + s.len() <= b.len() && forall|k: int|
        0 <= k < s.len() ==> b[pos + k] == #[trigger] s[k]
}

/// Splitting a located concatenation.
pub proof fn lemma_bytes_at_split(b: Seq<u8>, pos: int, x: Seq<u8>, y: Seq<u8>)
    requires
        bytes_at(b, pos, x + y),
    ensures
        bytes_at(b, pos, x),
        bytes_at(b, pos + x.len(), y),
{
    assert forall|k: int| 0 <= k < x.len() implies b[pos + k] == #[trigger] x[k] by {
        assert((x + y)[k] == x[k]);
        assert(b[pos + k] == (x + y)[k]);
    }
    assert forall|k: int| 0 <= k < y.len() implies b[pos + x.len() + k] == #[trigger] y[k] by {
        assert((x + y)[x.len() + k] == y[k]);
        assert(b[pos + (x.len() + k)] == (x + y)[x.len() + k]);
    }
}

/// A prefix-tagged line whose payload holds no CRLF reads back exactly.
pub proof fn lemma_line_round(b: Seq<u8>, pos: int, prefix: u8, payload: Seq<u8>)
    requires
        prefix != 13,
        no_crlf(payload),
        bytes_at(b, pos, seq![prefix] + payload + crlf()),
    ensures
        spec_simple_line(b, pos, prefix) == SpecLine::Line(payload, payload.len() as int + 3),
{
    let enc = seq![prefix] + payload + crlf();
    let end = pos + 1 + payload.len();
    assert(b[pos] == enc[0]);
    assert(enc[0] == prefix);
    assert(b[end] == enc[1 + payload.len() as int]);
    assert(enc[1 + payload.len() as int] == 13);
    assert(b[end + 1] == enc[2 + payload.len() as int]);
    assert(enc[2 + payload.len() as int] == 10);
    assert forall|j: int| pos <= j < end implies !(#[trigger] b[j] == 13 && b[j + 1] == 10) by {
        if j == pos {
            assert(b[j] == prefix);
        } else {
            let t = j - pos - 1;
            assert(b[j] == enc[j - pos]);
            assert(enc[j - pos] == payload[t]);
            if t + 1 < payload.len() {
                assert(b[j + 1] == enc[j + 1 - pos]);
                assert(enc[j + 1 - pos] == payload[t + 1]);
                assert(!(payload[t] == 13 && payload[t + 1] == 10));
            } else {
                // the next byte is the CR of the terminator
                assert(b[j + 1] == enc[j + 1 - pos]);
                assert(enc[j + 1 - pos] == 13);
            }
        }
    }
    lemma_find_crlf_found(b, pos, end);
    assert(b.len() - pos >= 3);
    assert(line_span(b, pos, end) == payload.len() + 3);
    assert forall|k: int| 0 <= k < payload.len() implies b.subrange(pos + 1, end)[k]
        == payload[k] by {
        assert(b[pos + (1 + k)] == enc[1 + k]);
        assert(enc[1 + k] == payload[k]);
    }
    assert(b.subrange(pos + 1, end) =~= payload);
}

/// Every frame's wire form has at least the prefix byte and a CRLF.
pub proof fn lemma_encode_min_len(v: FrameVal)
    ensures
        encode_spec(v).len() >= 3,
{
    match v {
        FrameVal::Int(n) => {
            lemma_int_text_val(n);
        },
        FrameVal::Bulk(d) => {
            if d is Some {
                lemma_dec_digits_are_digits(d.unwrap().len() as int);
            }
        },
        FrameVal::Arr(items) => {
            if items is Some {
                lemma_dec_digits_are_digits(items.unwrap().len() as int);
            }
        },
        FrameVal::MapV(ps) => {
            lemma_dec_digits_are_digits(ps.len() as int);
        },
        FrameVal::SetV(s) => {
            lemma_dec_digits_are_digits(s.len() as int);
        },
        _ => {},
    }
}

/// A float text contains no CR and no LF.
pub proof fn lemma_float_no_crlf(s: Seq<u8>)
    requires
        is_float_text(s),
    ensures
        forall|i: int| 0 <= i < s.len() ==> #[trigger] s[i] != 13 && s[i] != 10,
{
    assert forall|i: int| 0 <= i < s.len() implies #[trigger] s[i] != 13 && s[i] != 10 by {
        if is_sign(s[0]) && i == 0 {
        } else {
            let body = if is_sign(s[0]) {
                s.subrange(1, s.len() as int)
            } else {
                s
            };
            let t = if is_sign(s[0]) {
                i - 1
            } else {
                i
            };
            assert(body[t] == s[i]);
            lemma_float_body_byte(body, t);
        }
    }
}

/// One byte of a float body is never CR or LF.
proof fn lemma_float_body_byte(s: Seq<u8>, i: int)
    requires
        is_float_body(s),
        0 <= i < s.len(),
    ensures
        s[i] != 13 && s[i] != 10,
{
    if is_inf_text(s) || is_nan_text(s) {
        assert(lower_byte(13) == 13);
        assert(lower_byte(10) == 10);
    } else {
        if is_mantissa(s) {
            lemma_mantissa_byte(s, i);
        } else {
            let k = choose|k: int|
                0 < k < s.len() && lower_byte(#[trigger] s[k]) == 101 && is_mantissa(
                    s.subrange(0, k),
                ) && is_exponent(s.subrange(k + 1, s.len() as int));
            if i < k {
                lemma_mantissa_byte(s.subrange(0, k), i);
            } else if i == k {
                assert(lower_byte(13) == 13);
                assert(lower_byte(10) == 10);
            } else {
                let e = s.subrange(k + 1, s.len() as int);
                let t = i - k - 1;
                assert(e[t] == s[i]);
                if e.len() > 0 && all_digits(e) {
                    assert(is_digit(e[t]));
                } else {
                    if t == 0 {
                        assert(is_sign(e[0]));
                    } else {
                        assert(is_digit(e.subrange(1, e.len() as int)[t - 1]));
                    }
                }
            }
        }
    }
}

proof fn lemma_mantissa_byte(s: Seq<u8>, i: int)
    requires
        is_mantissa(s),
        0 <= i < s.len(),
    ensures
        s[i] != 13 && s[i] != 10,
{
    if s.len() > 0 && all_digits(s) {
        assert(is_digit(s[i]));
    } else {
        let d = choose|d: int|
            0 <= d < s.len() && s[d] == 46 && all_digits(#[trigger] s.subrange(0, d))
                && all_digits(s.subrange(d + 1, s.len() as int));
        if i < d {
            assert(is_digit(s.subrange(0, d)[i]));
        } else if i > d {
            assert(is_digit(s.subrange(d + 1, s.len() as int)[i - d - 1]));
        }
    }
}

/// A length header built from `dec_digits` reads back as that length.
pub proof fn lemma_header_round(b: Seq<u8>, pos: int, prefix: u8, len: int)
    requires
        prefix != 13,
        fits_len(len),
        bytes_at(b, pos, seq![prefix] + dec_digits(len) + crlf()),
    ensures
        spec_length_header(b, pos, prefix) == SpecHead::Head(len, dec_digits(len).len() as int + 3),
{
    lemma_dec_digits_are_digits(len);
    lemma_dec_digits_no_crlf(len);
    lemma_dec_digits_val(len);
    let ds = dec_digits(len);
    assert(no_crlf(ds)) by {
        assert(forall|i: int| 0 <= i && i + 1 < ds.len() ==> #[trigger] ds[i] != 13);
    }
    lemma_line_round(b, pos, prefix, ds);
    lemma_digits_val_nonneg(ds);
    assert(ds[0] != 43 && ds[0] != 45) by {
        assert(is_digit(ds[0]));
    }
    assert(int_of_text(ds) == Some(len));
}

// ---------------------------------------------------------------------
// the round-trip law
// ---------------------------------------------------------------------

/// Decoding the encoding of a well-formed frame, wherever it sits in a
/// buffer, yields the frame back, consumes exactly its bytes, and the
/// size preflight agrees.  The byte-count bound only rules out frames
/// too large to sit in memory at all.
#[verifier::rlimit(60)]
pub proof fn lemma_round_trip(b: Seq<u8>, pos: int, v: FrameVal)
    requires
        frame_wf(v),
        bytes_at(b, pos, encode_spec(v)),
        encode_spec(v).len() <= usize::MAX,
    ensures
        decode_spec(b, pos) == SpecParse::Parsed(v, encode_spec(v).len() as int),
        expect_spec(b, pos) == SpecLen::Len(encode_spec(v).len() as int),
    decreases v, 3int, 0int,
{
    let enc = encode_spec(v);
    assert(b[pos] == enc[0]);
    match v {
        FrameVal::Simple(p) => {
            assert(enc[0] == 43);
            lemma_line_round(b, pos, 43, p);
        },
        FrameVal::Error(p) => {
            assert(enc[0] == 45);
            lemma_line_round(b, pos, 45, p);
        },
        FrameVal::Int(n) => {
            assert(enc[0] == 58);
            lemma_int_text_no_crlf(n);
            assert(no_crlf(int_text(n))) by {
                assert(forall|i: int|
                    0 <= i < int_text(n).len() ==> #[trigger] int_text(n)[i] != 13);
            }
            lemma_line_round(b, pos, 58, int_text(n));
            lemma_int_text_val(n);
        },
        FrameVal::Null => {
            assert(enc[0] == 95);
            assert(enc =~= seq![95u8] + Seq::<u8>::empty() + crlf());
            lemma_line_round(b, pos, 95, Seq::empty());
        },
        FrameVal::Bool(t) => {
            assert(enc[0] == 35);
            let p = if t { seq![116u8] } else { seq![102u8] };
            assert(enc =~= seq![35u8] + p + crlf());
            assert(no_crlf(p));
            lemma_line_round(b, pos, 35, p);
            if t {
                assert(!(p =~= seq![102u8]));
            } else {
                assert(!(p =~= seq![116u8]));
            }
        },
        FrameVal::Double(p) => {
            assert(enc[0] == 44);
            lemma_float_no_crlf(p);
            assert(no_crlf(p)) by {
                assert(forall|i: int| 0 <= i < p.len() ==> #[trigger] p[i] != 13);
            }
            lemma_line_round(b, pos, 44, p);
        },
        FrameVal::Bulk(d) => {
            assert(enc[0] == 36);
            match d {
                Some(data) => {
                    let len = data.len() as int;
                    let head = seq![36u8] + dec_digits(len) + crlf();
                    assert(enc =~= head + (data + crlf()));
                    lemma_bytes_at_split(b, pos, head, data + crlf());
                    lemma_header_round(b, pos, 36, len);
                    let n = dec_digits(len).len() as int + 3;
                    assert(b.len() - pos - n >= len + 2);
                    assert forall|k: int| 0 <= k < len implies b.subrange(pos + n, pos + n + len)[k]
                        == data[k] by {
                        assert(b[pos + n + k] == (data + crlf())[k]);
                    }
                    assert(b.subrange(pos + n, pos + n + len) =~= data);
                    assert(enc.len() == n + len + 2);
                },
                None => {
                    let p = seq![45u8, 49u8];
                    assert(enc =~= seq![36u8] + p + crlf());
                    assert(no_crlf(p));
                    lemma_line_round(b, pos, 36, p);
                    assert(all_digits(p.subrange(1, 2))) by {
                        assert(p.subrange(1, 2)[0] == 49);
                    }
                    assert(digits_val(p.subrange(1, 2)) == 1) by {
                        assert(p.subrange(1, 2).drop_last() =~= Seq::<u8>::empty());
                        assert(digits_val(Seq::<u8>::empty()) == 0);
                        assert(p.subrange(1, 2).last() == 49);
                    }
                    assert(int_of_text(p) == Some(-1int));
                    assert(spec_length_header(b, pos, 36) == SpecHead::Head(-1int, 5));
                },
            }
        },
        FrameVal::Arr(items_opt) => {
            assert(enc[0] == 42);
            match items_opt {
                Some(items) => {
                    lemma_round_arr(b, pos, items);
                },
                None => {
                    let p = seq![45u8, 49u8];
                    assert(enc =~= seq![42u8] + p + crlf());
                    assert(no_crlf(p));
                    lemma_line_round(b, pos, 42, p);
                    assert(all_digits(p.subrange(1, 2))) by {
                        assert(p.subrange(1, 2)[0] == 49);
                    }
                    assert(digits_val(p.subrange(1, 2)) == 1) by {
                        assert(p.subrange(1, 2).drop_last() =~= Seq::<u8>::empty());
                        assert(digits_val(Seq::<u8>::empty()) == 0);
                        assert(p.subrange(1, 2).last() == 49);
                    }
                    assert(int_of_text(p) == Some(-1int));
                    assert(spec_length_header(b, pos, 42) == SpecHead::Head(-1int, 5));
                },
            }
        },
        FrameVal::SetV(items) => {
            lemma_round_set(b, pos, items);
        },
        FrameVal::MapV(ps) => {
            lemma_round_map(b, pos, ps);
        },
    }
}

/// The `*` arm of the round trip for a non-null array.
proof fn lemma_round_arr(b: Seq<u8>, pos: int, items: Seq<FrameVal>)
    requires
        frame_wf(FrameVal::Arr(Some(items))),
        bytes_at(b, pos, encode_spec(FrameVal::Arr(Some(items)))),
        encode_spec(FrameVal::Arr(Some(items))).len() <= usize::MAX,
    ensures
        decode_spec(b, pos) == SpecParse::Parsed(
            FrameVal::Arr(Some(items)),
            encode_spec(FrameVal::Arr(Some(items))).len() as int,
        ),
        expect_spec(b, pos) == SpecLen::Len(encode_spec(FrameVal::Arr(Some(items))).len() as int),
    decreases items, 2int, 0int,
{
    let enc = encode_spec(FrameVal::Arr(Some(items)));
    assert(b[pos] == enc[0]);
    assert(enc[0] == 42);
    let len = items.len() as int;
    let head = seq![42u8] + dec_digits(len) + crlf();
    let body = encode_items(items, 0);
    assert(enc =~= head + body);
    lemma_bytes_at_split(b, pos, head, body);
    lemma_header_round(b, pos, 42, len);
    let n = dec_digits(len).len() as int + 3;
    lemma_items_round(b, pos + n, items, 0);
    assert(items.skip(0) =~= items);
    assert(spec_decode_agg(b, pos + n, len) == SpecItems::Items(items, body.len() as int));
    assert(enc.len() == n + body.len());
}

/// The `~` arm of the round trip.
proof fn lemma_round_set(b: Seq<u8>, pos: int, items: Seq<FrameVal>)
    requires
        frame_wf(FrameVal::SetV(items)),
        bytes_at(b, pos, encode_spec(FrameVal::SetV(items))),
        encode_spec(FrameVal::SetV(items)).len() <= usize::MAX,
    ensures
        decode_spec(b, pos) == SpecParse::Parsed(
            FrameVal::SetV(items),
            encode_spec(FrameVal::SetV(items)).len() as int,
        ),
        expect_spec(b, pos) == SpecLen::Len(encode_spec(FrameVal::SetV(items)).len() as int),
    decreases items, 2int, 0int,
{
    let enc = encode_spec(FrameVal::SetV(items));
    assert(b[pos] == enc[0]);
    assert(enc[0] == 126);
    let len = items.len() as int;
    let head = seq![126u8] + dec_digits(len) + crlf();
    let body = encode_items(items, 0);
    assert(enc =~= head + body);
    lemma_bytes_at_split(b, pos, head, body);
    lemma_header_round(b, pos, 126, len);
    let n = dec_digits(len).len() as int + 3;
    lemma_items_round(b, pos + n, items, 0);
    assert(items.skip(0) =~= items);
    assert(spec_decode_agg(b, pos + n, len) == SpecItems::Items(items, body.len() as int));
    assert(enc.len() == n + body.len());
}

/// The `%` arm of the round trip: the decoded entries re-insert to the
/// same sorted sequence.
proof fn lemma_round_map(b: Seq<u8>, pos: int, ps: Seq<(Seq<u8>, FrameVal)>)
    requires
        frame_wf(FrameVal::MapV(ps)),
        bytes_at(b, pos, encode_spec(FrameVal::MapV(ps))),
        encode_spec(FrameVal::MapV(ps)).len() <= usize::MAX,
    ensures
        decode_spec(b, pos) == SpecParse::Parsed(
            FrameVal::MapV(ps),
            encode_spec(FrameVal::MapV(ps)).len() as int,
        ),
        expect_spec(b, pos) == SpecLen::Len(encode_spec(FrameVal::MapV(ps)).len() as int),
    decreases ps, 2int, 0int,
{
    let enc = encode_spec(FrameVal::MapV(ps));
    assert(b[pos] == enc[0]);
    assert(enc[0] == 37);
    let len = ps.len() as int;
    let head = seq![37u8] + dec_digits(len) + crlf();
    let body = encode_pairs(ps, 0);
    assert(enc =~= head + body);
    lemma_bytes_at_split(b, pos, head, body);
    lemma_header_round(b, pos, 37, len);
    let n = dec_digits(len).len() as int + 3;
    lemma_pairs_round(b, pos + n, ps, 0);
    assert(ps.skip(0) =~= ps);
    lemma_insert_all_sorted_id(ps);
    assert(enc.len() == n + body.len());
}

/// Round trip of a run of frames: the preflight sums to the encoded
/// length and the child decodes return exactly the frames.
proof fn lemma_items_round(b: Seq<u8>, pos: int, items: Seq<FrameVal>, i: int)
    requires
        0 <= i <= items.len(),
        frames_wf(items, i),
        bytes_at(b, pos, encode_items(items, i)),
        encode_items(items, i).len() <= usize::MAX,
    ensures
        spec_expect_items(b, pos, items.len() - i) == SpecLen::Len(
            encode_items(items, i).len() as int,
        ),
        spec_decode_items(b, pos, items.len() - i) == SpecItems::Items(
            items.skip(i),
            encode_items(items, i).len() as int,
        ),
    decreases items, 1int, items.len() - i,
{
    if i == items.len() {
        assert(items.skip(i) =~= Seq::<FrameVal>::empty());
        assert(encode_items(items, i).len() == 0);
    } else {
        let child = encode_spec(items[i]);
        let rest = encode_items(items, i + 1);
        assert(encode_items(items, i) == child + rest);
        lemma_bytes_at_split(b, pos, child, rest);
        lemma_round_trip(b, pos, items[i]);
        lemma_encode_min_len(items[i]);
        lemma_items_round(b, pos + child.len(), items, i + 1);
        let n = child.len() as int;
        assert(n > 0);
        assert(n <= b.len() - pos);
        assert(seq![items[i]] + items.skip(i + 1) =~= items.skip(i));
    }
}

/// Round trip of a run of map entries.
proof fn lemma_pairs_round(b: Seq<u8>, pos: int, ps: Seq<(Seq<u8>, FrameVal)>, i: int)
    requires
        0 <= i <= ps.len(),
        pairs_wf(ps, i),
        bytes_at(b, pos, encode_pairs(ps, i)),
        encode_pairs(ps, i).len() <= usize::MAX,
    ensures
        spec_expect_pairs(b, pos, ps.len() - i) == SpecLen::Len(encode_pairs(ps, i).len() as int),
        spec_decode_pairs(b, pos, ps.len() - i) == SpecPairs::Pairs(
            ps.skip(i),
            encode_pairs(ps, i).len() as int,
        ),
    decreases ps, 1int, ps.len() - i,
{
    if i == ps.len() {
        assert(ps.skip(i) =~= Seq::<(Seq<u8>, FrameVal)>::empty());
        assert(encode_pairs(ps, i).len() == 0);
    } else {
        let keyline = seq![43u8] + ps[i].0 + crlf();
        let child = encode_spec(ps[i].1);
        let rest = encode_pairs(ps, i + 1);
        assert(encode_pairs(ps, i) == seq![43u8] + ps[i].0 + crlf() + child + rest);
        assert(encode_pairs(ps, i) =~= keyline + (child + rest));
        lemma_bytes_at_split(b, pos, keyline, child + rest);
        lemma_line_round(b, pos, 43, ps[i].0);
        let kn = ps[i].0.len() as int + 3;
        lemma_bytes_at_split(b, pos + kn, child, rest);
        lemma_round_trip(b, pos + kn, ps[i].1);
        lemma_encode_min_len(ps[i].1);
        lemma_pairs_round(b, pos + kn + child.len(), ps, i + 1);
        let vn = child.len() as int;
        assert(vn > 0);
        assert(vn <= b.len() - pos - kn);
        assert((ps[i].0, ps[i].1) == ps[i]);
        assert(seq![(ps[i].0, ps[i].1)] + ps.skip(i + 1) =~= ps.skip(i));
    }
}

// ---------------------------------------------------------------------
// the incremental-decode law
// ---------------------------------------------------------------------

/// The buffer ends strictly inside `s`: from `pos` on it holds a proper
/// prefix of `s`.
pub open spec fn partial_at(b: Seq<u8>, pos: int, s: Seq<u8>) -> bool {
    0 <= pos <= b.len() && b.len() - pos < s.len() && forall|k: int|
        0 <= k < b.len() - pos ==> b[pos + k] == #[trigger] s[k]
}

/// A cut-off simple line is always incomplete: its closing CRLF cannot
/// lie inside the buffer.
proof fn lemma_line_prefix(b: Seq<u8>, pos: int, prefix: u8, payload: Seq<u8>)
    requires
        prefix != 13,
        no_crlf(payload),
        partial_at(b, pos, seq![prefix] + payload + crlf()),
    ensures
        spec_simple_line(b, pos, prefix) is Incomplete,
{
    let enc = seq![prefix] + payload + crlf();
    let rem = b.len() - pos;
    if rem < 3 {
    } else {
        assert(b[pos] == enc[0]);
        assert(enc[0] == prefix);
        lemma_find_crlf(b, pos);
        match spec_find_crlf(b, pos) {
            Some(e) => {
                let t = e - pos;
                assert(b[e] == enc[t]);
                assert(b[e + 1] == enc[t + 1]);
                if t == 0 {
                    assert(enc[0] == prefix);
                } else if t <= payload.len() {
                    assert(enc[t] == payload[t - 1]);
                    if t < payload.len() {
                        assert(enc[t + 1] == payload[t]);
                        assert(!(payload[t - 1] == 13 && payload[t] == 10));
                    } else {
                        assert(enc[t + 1] == 13);
                    }
                } else {
                    // the real CRLF would need bytes past the cut
                    assert(t >= payload.len() + 1);
                    assert(e + 2 <= b.len());
                    assert(t + 2 <= rem);
                    assert(enc.len() == payload.len() + 3);
                    assert(rem < enc.len());
                }
            },
            None => {},
        }
    }
}

/// A cut-off frame always decodes as incomplete, and its preflight is
/// either incomplete or already announces the frame's full size.
pub proof fn lemma_prefix_incomplete(b: Seq<u8>, pos: int, v: FrameVal)
    requires
        frame_wf(v),
        encode_spec(v).len() <= usize::MAX,
        partial_at(b, pos, encode_spec(v)),
    ensures
        decode_spec(b, pos) is Incomplete,
        expect_spec(b, pos) is Incomplete || expect_spec(b, pos) == SpecLen::Len(
            encode_spec(v).len() as int,
        ),
    decreases v, 6int, 0int,
{
    let enc = encode_spec(v);
    let rem = b.len() - pos;
    if rem == 0 {
    } else {
        assert(b[pos] == enc[0]);
        match v {
            FrameVal::Simple(p) => {
                lemma_line_prefix(b, pos, 43, p);
            },
            FrameVal::Error(p) => {
                lemma_line_prefix(b, pos, 45, p);
            },
            FrameVal::Int(n) => {
                lemma_int_text_no_crlf(n);
                assert(no_crlf(int_text(n))) by {
                    assert(forall|i: int|
                        0 <= i < int_text(n).len() ==> #[trigger] int_text(n)[i] != 13);
                }
                lemma_line_prefix(b, pos, 58, int_text(n));
            },
            FrameVal::Null => {
                assert(enc =~= seq![95u8] + Seq::<u8>::empty() + crlf());
                lemma_line_prefix(b, pos, 95, Seq::empty());
            },
            FrameVal::Bool(t) => {
                let p = if t { seq![116u8] } else { seq![102u8] };
                assert(enc =~= seq![35u8] + p + crlf());
                assert(no_crlf(p));
                lemma_line_prefix(b, pos, 35, p);
            },
            FrameVal::Double(p) => {
                lemma_float_no_crlf(p);
                assert(no_crlf(p)) by {
                    assert(forall|i: int| 0 <= i < p.len() ==> #[trigger] p[i] != 13);
                }
                lemma_line_prefix(b, pos, 44, p);
            },
            FrameVal::Bulk(d) => {
                match d {
                    Some(data) => {
                        let len = data.len() as int;
                        let head = seq![36u8] + dec_digits(len) + crlf();
                        assert(enc =~= head + (data + crlf()));
                        if rem < head.len() {
                            lemma_dec_digits_no_crlf(len);
                            assert(no_crlf(dec_digits(len))) by {
                                assert(forall|i: int|
                                    0 <= i < dec_digits(len).len() ==> #[trigger] dec_digits(
                                        len,
                                    )[i] != 13);
                            }
                            assert(partial_at(b, pos, head)) by {
                                assert(forall|k: int|
                                    0 <= k < b.len() - pos ==> (head + (data + crlf()))[k]
                                        == #[trigger] head[k]);
                            }
                            lemma_line_prefix(b, pos, 36, dec_digits(len));
                        } else {
                            assert(bytes_at(b, pos, head)) by {
                                assert(forall|k: int|
                                    0 <= k < head.len() ==> (head + (data + crlf()))[k]
                                        == #[trigger] head[k]);
                            }
                            lemma_header_round(b, pos, 36, len);
                            let n = dec_digits(len).len() as int + 3;
                            assert(enc.len() == n + len + 2);
                            assert(b.len() - pos - n < len + 2);
                        }
                    },
                    None => {
                        let p = seq![45u8, 49u8];
                        assert(enc =~= seq![36u8] + p + crlf());
                        assert(no_crlf(p));
                        lemma_line_prefix(b, pos, 36, p);
                    },
                }
            },
            FrameVal::Arr(items_opt) => {
                match items_opt {
                    Some(items) => {
                        lemma_prefix_agg(b, pos, 42, items);
                    },
                    None => {
                        let p = seq![45u8, 49u8];
                        assert(enc =~= seq![42u8] + p + crlf());
                        assert(no_crlf(p));
                        lemma_line_prefix(b, pos, 42, p);
                    },
                }
            },
            FrameVal::SetV(items) => {
                lemma_prefix_agg(b, pos, 126, items);
            },
            FrameVal::MapV(ps) => {
                lemma_prefix_map(b, pos, ps);
            },
        }
    }
}

/// The cut-off case of `*` and `~` frames.
proof fn lemma_prefix_agg(b: Seq<u8>, pos: int, prefix: u8, items: Seq<FrameVal>)
    requires
        prefix == 42 || prefix == 126,
        fits_len(items.len() as int),
        frames_wf(items, 0),
        encode_spec(
            if prefix == 42 {
                FrameVal::Arr(Some(items))
            } else {
                FrameVal::SetV(items)
            },
        ).len() <= usize::MAX,
        partial_at(
            b,
            pos,
            encode_spec(
                if prefix == 42 {
                    FrameVal::Arr(Some(items))
                } else {
                    FrameVal::SetV(items)
                },
            ),
        ),
    ensures
        decode_spec(b, pos) is Incomplete,
        expect_spec(b, pos) is Incomplete,
    decreases items, 5int, 0int,
{
    let v = if prefix == 42 {
        FrameVal::Arr(Some(items))
    } else {
        FrameVal::SetV(items)
    };
    let enc = encode_spec(v);
    let rem = b.len() - pos;
    let len = items.len() as int;
    let head = seq![prefix] + dec_digits(len) + crlf();
    let body = encode_items(items, 0);
    assert(enc =~= head + body);
    if rem > 0 {
        agg_prefix_body(b, pos, prefix, items);
    }
}

proof fn agg_prefix_body(b: Seq<u8>, pos: int, prefix: u8, items: Seq<FrameVal>)
    requires
        prefix == 42 || prefix == 126,
        fits_len(items.len() as int),
        frames_wf(items, 0),
        encode_spec(
            if prefix == 42 {
                FrameVal::Arr(Some(items))
            } else {
                FrameVal::SetV(items)
            },
        ).len() <= usize::MAX,
        partial_at(
            b,
            pos,
            encode_spec(
                if prefix == 42 {
                    FrameVal::Arr(Some(items))
                } else {
                    FrameVal::SetV(items)
                },
            ),
        ),
        b.len() - pos > 0,
    ensures
        decode_spec(b, pos) is Incomplete,
        expect_spec(b, pos) is Incomplete,
    decreases items, 4int, 0int,
{
    let v = if prefix == 42 {
        FrameVal::Arr(Some(items))
    } else {
        FrameVal::SetV(items)
    };
    let enc = encode_spec(v);
    let rem = b.len() - pos;
    let len = items.len() as int;
    let head = seq![prefix] + dec_digits(len) + crlf();
    let body = encode_items(items, 0);
    assert(enc =~= head + body);
    assert(b[pos] == enc[0]);
    assert(enc[0] == prefix);
    if rem < head.len() {
        lemma_dec_digits_no_crlf(len);
        assert(no_crlf(dec_digits(len))) by {
            assert(forall|i: int|
                0 <= i < dec_digits(len).len() ==> #[trigger] dec_digits(len)[i] != 13);
        }
        assert(partial_at(b, pos, head)) by {
            assert(forall|k: int|
                0 <= k < b.len() - pos ==> (head + body)[k] == #[trigger] head[k]);
        }
        lemma_line_prefix(b, pos, prefix, dec_digits(len));
    } else {
        assert(bytes_at(b, pos, head)) by {
            assert(forall|k: int| 0 <= k < head.len() ==> (head + body)[k] == #[trigger] head[k]);
        }
        lemma_header_round(b, pos, prefix, len);
        let n = head.len() as int;
        assert(partial_at(b, pos + n, body)) by {
            assert(forall|k: int|
                0 <= k < b.len() - pos - n ==> b[pos + n + k] == (head + body)[n + k] && (head
                    + body)[n + k] == #[trigger] body[k]);
        }
        lemma_prefix_items(b, pos + n, items, 0);
    }
}

/// The cut-off case of `%` frames.
proof fn lemma_prefix_map(b: Seq<u8>, pos: int, ps: Seq<(Seq<u8>, FrameVal)>)
    requires
        frame_wf(FrameVal::MapV(ps)),
        encode_spec(FrameVal::MapV(ps)).len() <= usize::MAX,
        partial_at(b, pos, encode_spec(FrameVal::MapV(ps))),
    ensures
        decode_spec(b, pos) is Incomplete,
        expect_spec(b, pos) is Incomplete,
    decreases ps, 5int, 0int,
{
    let enc = encode_spec(FrameVal::MapV(ps));
    let rem = b.len() - pos;
    let len = ps.len() as int;
    let head = seq![37u8] + dec_digits(len) + crlf();
    let body = encode_pairs(ps, 0);
    assert(enc =~= head + body);
    if rem > 0 {
        map_prefix_body(b, pos, ps);
    }
}

proof fn map_prefix_body(b: Seq<u8>, pos: int, ps: Seq<(Seq<u8>, FrameVal)>)
    requires
        frame_wf(FrameVal::MapV(ps)),
        encode_spec(FrameVal::MapV(ps)).len() <= usize::MAX,
        partial_at(b, pos, encode_spec(FrameVal::MapV(ps))),
        b.len() - pos > 0,
    ensures
        decode_spec(b, pos) is Incomplete,
        expect_spec(b, pos) is Incomplete,
    decreases ps, 4int, 0int,
{
    let enc = encode_spec(FrameVal::MapV(ps));
    let rem = b.len() - pos;
    let len = ps.len() as int;
    let head = seq![37u8] + dec_digits(len) + crlf();
    let body = encode_pairs(ps, 0);
    assert(enc =~= head + body);
    assert(b[pos] == enc[0]);
    assert(enc[0] == 37);
    if rem < head.len() {
        lemma_dec_digits_no_crlf(len);
        assert(no_crlf(dec_digits(len))) by {
            assert(forall|i: int|
                0 <= i < dec_digits(len).len() ==> #[trigger] dec_digits(len)[i] != 13);
        }
        assert(partial_at(b, pos, head)) by {
            assert(forall|k: int|
                0 <= k < b.len() - pos ==> (head + body)[k] == #[trigger] head[k]);
        }
        lemma_line_prefix(b, pos, 37, dec_digits(len));
    } else {
        assert(bytes_at(b, pos, head)) by {
            assert(forall|k: int| 0 <= k < head.len() ==> (head + body)[k] == #[trigger] head[k]);
        }
        lemma_header_round(b, pos, 37, len);
        let n = head.len() as int;
        assert(partial_at(b, pos + n, body)) by {
            assert(forall|k: int|
                0 <= k < b.len() - pos - n ==> b[pos + n + k] == (head + body)[n + k] && (head
                    + body)[n + k] == #[trigger] body[k]);
        }
        lemma_prefix_pairs(b, pos + n, ps, 0);
    }
}

/// A cut-off run of frames preflights and decodes as incomplete.
proof fn lemma_prefix_items(b: Seq<u8>, pos: int, items: Seq<FrameVal>, i: int)
    requires
        0 <= i <= items.len(),
        frames_wf(items, i),
        encode_items(items, i).len() <= usize::MAX,
        partial_at(b, pos, encode_items(items, i)),
    ensures
        spec_expect_items(b, pos, items.len() - i) is Incomplete,
        spec_decode_items(b, pos, items.len() - i) is Incomplete,
    decreases items, 1int, items.len() - i,
{
    assert(i < items.len());
    let child = encode_spec(items[i]);
    let rest = encode_items(items, i + 1);
    assert(encode_items(items, i) == child + rest);
    let rem = b.len() - pos;
    lemma_encode_min_len(items[i]);
    if rem < child.len() {
        // the cut lies inside this child
        assert(partial_at(b, pos, child)) by {
            assert(forall|k: int|
                0 <= k < b.len() - pos ==> (child + rest)[k] == #[trigger] child[k]);
        }
        lemma_prefix_incomplete(b, pos, items[i]);
        match expect_spec(b, pos) {
            SpecLen::Incomplete => {},
            SpecLen::Len(l) => {
                assert(l == child.len());
                assert(l > b.len() - pos);
            },
            SpecLen::Fail(e) => {
                assert(false);
            },
        }
    } else {
        // this child is complete; the cut lies further right
        assert(bytes_at(b, pos, child)) by {
            assert(forall|k: int|
                0 <= k < child.len() ==> (child + rest)[k] == #[trigger] child[k]);
        }
        lemma_round_trip(b, pos, items[i]);
        let n = child.len() as int;
        assert(partial_at(b, pos + n, rest)) by {
            assert(forall|k: int|
                0 <= k < b.len() - pos - n ==> b[pos + n + k] == (child + rest)[n + k] && (child
                    + rest)[n + k] == #[trigger] rest[k]);
        }
        lemma_prefix_items(b, pos + n, items, i + 1);
    }
}

/// A cut-off run of map entries preflights and decodes as incomplete.
proof fn lemma_prefix_pairs(b: Seq<u8>, pos: int, ps: Seq<(Seq<u8>, FrameVal)>, i: int)
    requires
        0 <= i <= ps.len(),
        pairs_wf(ps, i),
        encode_pairs(ps, i).len() <= usize::MAX,
        partial_at(b, pos, encode_pairs(ps, i)),
    ensures
        spec_expect_pairs(b, pos, ps.len() - i) is Incomplete,
        spec_decode_pairs(b, pos, ps.len() - i) is Incomplete,
    decreases ps, 1int, ps.len() - i,
{
    assert(i < ps.len());
    let keyline = seq![43u8] + ps[i].0 + crlf();
    let child = encode_spec(ps[i].1);
    let rest = encode_pairs(ps, i + 1);
    assert(encode_pairs(ps, i) == seq![43u8] + ps[i].0 + crlf() + child + rest);
    assert(encode_pairs(ps, i) =~= keyline + (child + rest));
    let rem = b.len() - pos;
    lemma_encode_min_len(ps[i].1);
    if rem < keyline.len() {
        assert(partial_at(b, pos, keyline)) by {
            assert(forall|k: int|
                0 <= k < b.len() - pos ==> (keyline + (child + rest))[k] == #[trigger] keyline[k]);
        }
        lemma_line_prefix(b, pos, 43, ps[i].0);
    } else {
        assert(bytes_at(b, pos, keyline)) by {
            assert(forall|k: int|
                0 <= k < keyline.len() ==> (keyline + (child + rest))[k] == #[trigger] keyline[k]);
        }
        lemma_line_round(b, pos, 43, ps[i].0);
        let kn = keyline.len() as int;
        if rem - kn < child.len() {
            assert(partial_at(b, pos + kn, child)) by {
                let whole = encode_pairs(ps, i);
                assert forall|k: int| 0 <= k < b.len() - pos - kn implies b[pos + kn + k]
                    == #[trigger] child[k] by {
                    assert(b[pos + kn + k] == whole[kn + k]);
                    assert(whole[kn + k] == (keyline + (child + rest))[kn + k]);
                    assert((keyline + (child + rest))[kn + k] == (child + rest)[k]);
                    assert((child + rest)[k] == child[k]);
                }
            }
            lemma_prefix_incomplete(b, pos + kn, ps[i].1);
            match expect_spec(b, pos + kn) {
                SpecLen::Incomplete => {},
                SpecLen::Len(l) => {
                    assert(l == child.len());
                    assert(l > b.len() - pos - kn);
                },
                SpecLen::Fail(e) => {
                    assert(false);
                },
            }
        } else {
            assert(bytes_at(b, pos + kn, child)) by {
                let whole = encode_pairs(ps, i);
                assert forall|k: int| 0 <= k < child.len() implies b[pos + kn + k]
                    == #[trigger] child[k] by {
                    assert(b[pos + kn + k] == whole[kn + k]);
                    assert(whole[kn + k] == (keyline + (child + rest))[kn + k]);
                    assert((keyline + (child + rest))[kn + k] == (child + rest)[k]);
                    assert((child + rest)[k] == child[k]);
                }
            }
            lemma_round_trip(b, pos + kn, ps[i].1);
            let vn = child.len() as int;
            assert(partial_at(b, pos + kn + vn, rest)) by {
                assert(forall|k: int|
                    0 <= k < b.len() - pos - kn - vn ==> b[pos + kn + vn + k] == (keyline + (child
                        + rest))[kn + vn + k] && (keyline + (child + rest))[kn + vn + k]
                        == #[trigger] rest[k]);
            }
            lemma_prefix_pairs(b, pos + kn + vn, ps, i + 1);
        }
    }
}

/// Decoding any strict prefix of a frame's wire form reports an
/// incomplete frame: the decoder can always restart after more bytes
/// arrive.
pub proof fn lemma_incremental_decode(v: FrameVal, k: int)
    requires
        frame_wf(v),
        encode_spec(v).len() <= usize::MAX,
        0 <= k < encode_spec(v).len(),
    ensures
        decode_spec(encode_spec(v).take(k), 0) is Incomplete,
{
    let b = encode_spec(v).take(k);
    assert(partial_at(b, 0, encode_spec(v))) by {
        assert(forall|t: int| 0 <= t < k ==> b[t] == #[trigger] encode_spec(v)[t]);
    }
    lemma_prefix_incomplete(b, 0, v);
}

} // verus!
