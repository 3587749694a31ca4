//! The mathematical model of the RESP wire format.
//!
//! `FrameVal` is the abstract value of one frame; `encode_spec` says what
//! bytes a frame serializes to; `expect_spec` is the size preflight and
//! `decode_spec` the incremental parse, both defined over a byte sequence
//! and a start offset.  The executable codec is proved against these
//! functions.

use vstd::prelude::*;

verus! {

/// Abstract value of one RESP frame.
pub ghost enum FrameVal {
    Simple(Seq<u8>),
    Error(Seq<u8>),
    Int(int),
    Bulk(Option<Seq<u8>>),
    Arr(Option<Seq<FrameVal>>),
    Null,
    Bool(bool),
    Double(Seq<u8>),
    MapV(Seq<(Seq<u8>, FrameVal)>),
    SetV(Seq<FrameVal>),
}

/// Error classes a decode can report, mirroring `RespError` without the
/// free-form message payloads.
pub ghost enum DecErr {
    BadType,
    BadLength(int),
    BadInt,
    BadFloat,
}

/// Outcome of decoding one frame: more bytes needed, malformed input, or a
/// frame together with the number of bytes it occupies.
pub ghost enum SpecParse {
    Incomplete,
    Fail(DecErr),
    Parsed(FrameVal, int),
}

/// Outcome of the size preflight: more bytes needed, malformed input, or
/// the byte count of the frame at the given offset.
pub ghost enum SpecLen {
    Incomplete,
    Fail(DecErr),
    Len(int),
}

// ---------------------------------------------------------------------
// basic text helpers
// ---------------------------------------------------------------------

pub open spec fn is_digit(c: u8) -> bool {
    48 <= c <= 57
}

pub open spec fn is_sign(c: u8) -> bool {
    c == 43 || c == 45
}

pub open spec fn all_digits(s: Seq<u8>) -> bool {
    forall|i: int| 0 <= i < s.len() ==> is_digit(#[trigger] s[i])
}

/// Value of a digit string, most significant digit first.
pub open spec fn digits_val(s: Seq<u8>) -> int
    decreases s.len(),
{
    if s.len() == 0 {
        0
    } else {
        digits_val(s.drop_last()) * 10 + (s.last() - 48)
    }
}

/// The integer denoted by `s` under Rust's `i64`-style grammar
/// (`[+-]?[0-9]+`), without a range restriction; `None` if the grammar
/// does not match.
pub open spec fn int_of_text(s: Seq<u8>) -> Option<int> {
    if s.len() == 0 {
        None
    } else if s[0] == 43 {
        if s.len() > 1 && all_digits(s.subrange(1, s.len() as int)) {
            Some(digits_val(s.subrange(1, s.len() as int)))
        } else {
            None
        }
    } else if s[0] == 45 {
        if s.len() > 1 && all_digits(s.subrange(1, s.len() as int)) {
            Some(-digits_val(s.subrange(1, s.len() as int)))
        } else {
            None
        }
    } else {
        if all_digits(s) {
            Some(digits_val(s))
        } else {
            None
        }
    }
}

/// Decimal digits of a non-negative number, most significant first.
pub open spec fn dec_digits(n: int) -> Seq<u8>
    decreases n,
{
    if n < 10 {
        seq![(48 + n) as u8]
    } else {
        dec_digits(n / 10).push((48 + n % 10) as u8)
    }
}

/// Wire text of a signed integer: an explicit sign, then the digits.
pub open spec fn int_text(n: int) -> Seq<u8> {
    if n >= 0 {
        seq![43u8] + dec_digits(n)
    } else {
        seq![45u8] + dec_digits(-n)
    }
}

// ---------------------------------------------------------------------
// the grammar of a double's text (Rust's f64 string grammar)
// ---------------------------------------------------------------------

/// ASCII lower-casing of one byte.
pub open spec fn lower_byte(c: u8) -> u8 {
    if 65 <= c <= 90 {
        (c + 32) as u8
    } else {
        c
    }
}

pub open spec fn is_inf_text(s: Seq<u8>) -> bool {
    ||| (s.len() == 3 && lower_byte(s[0]) == 105 && lower_byte(s[1]) == 110 && lower_byte(s[2])
        == 102)
    ||| (s.len() == 8 && lower_byte(s[0]) == 105 && lower_byte(s[1]) == 110 && lower_byte(s[2])
        == 102 && lower_byte(s[3]) == 105 && lower_byte(s[4]) == 110 && lower_byte(s[5]) == 105
        && lower_byte(s[6]) == 116 && lower_byte(s[7]) == 121)
}

pub open spec fn is_nan_text(s: Seq<u8>) -> bool {
    s.len() == 3 && lower_byte(s[0]) == 110 && lower_byte(s[1]) == 97 && lower_byte(s[2]) == 110
}

/// `Digit+ | Digit+ '.' Digit* | Digit* '.' Digit+`
pub open spec fn is_mantissa(s: Seq<u8>) -> bool {
    ||| (s.len() > 0 && all_digits(s))
    ||| (s.len() > 1 && exists|d: int|
        0 <= d < s.len() && s[d] == 46 && all_digits(#[trigger] s.subrange(0, d)) && all_digits(
            s.subrange(d + 1, s.len() as int),
        ))
}

/// The part after the `e`/`E`: `Sign? Digit+`.
pub open spec fn is_exponent(s: Seq<u8>) -> bool {
    ||| (s.len() > 0 && all_digits(s))
    ||| (s.len() > 1 && is_sign(s[0]) && all_digits(s.subrange(1, s.len() as int)))
}

pub open spec fn is_number_text(s: Seq<u8>) -> bool {
    ||| is_mantissa(s)
    ||| (exists|k: int|
        0 < k < s.len() && lower_byte(#[trigger] s[k]) == 101 && is_mantissa(s.subrange(0, k))
            && is_exponent(s.subrange(k + 1, s.len() as int)))
}

pub open spec fn is_float_body(s: Seq<u8>) -> bool {
    is_inf_text(s) || is_nan_text(s) || is_number_text(s)
}

/// Exactly the strings Rust's `f64` parser accepts.
pub open spec fn is_float_text(s: Seq<u8>) -> bool {
    if s.len() == 0 {
        false
    } else if is_sign(s[0]) {
        is_float_body(s.subrange(1, s.len() as int))
    } else {
        is_float_body(s)
    }
}

// ---------------------------------------------------------------------
// frame well-formedness
// ---------------------------------------------------------------------

/// No CRLF window anywhere in `s`.
pub open spec fn no_crlf(s: Seq<u8>) -> bool {
    forall|i: int| 0 <= i && i + 1 < s.len() ==> !(#[trigger] s[i] == 13 && s[i + 1] == 10)
}

/// Aggregate and payload lengths that the codec can represent on the
/// wire: the length text must parse back as a non-negative `i64` that
/// also fits in `usize`.
pub open spec fn fits_len(n: int) -> bool {
    0 <= n <= 0x7fff_ffff_ffff_ffff && n <= usize::MAX
}

pub open spec fn frame_wf(v: FrameVal) -> bool
    decreases v, 0int, 0int,
{
    match v {
        FrameVal::Simple(s) => no_crlf(s),
        FrameVal::Error(s) => no_crlf(s),
        FrameVal::Int(n) => i64::MIN <= n <= i64::MAX,
        FrameVal::Bulk(d) => match d {
            Some(s) => fits_len(s.len() as int),
            None => true,
        },
        FrameVal::Arr(items) => match items {
            Some(s) => fits_len(s.len() as int) && frames_wf(s, 0),
            None => true,
        },
        FrameVal::Null => true,
        FrameVal::Bool(_) => true,
        FrameVal::Double(s) => is_float_text(s),
        FrameVal::MapV(ps) => fits_len(ps.len() as int) && pairs_wf(ps, 0) && pairs_sorted(ps),
        FrameVal::SetV(s) => fits_len(s.len() as int) && frames_wf(s, 0),
    }
}

pub open spec fn frames_wf(s: Seq<FrameVal>, i: int) -> bool
    decreases s, 1int, s.len() - i,
{
    if 0 <= i < s.len() {
        frame_wf(s[i]) && frames_wf(s, i + 1)
    } else {
        true
    }
}

pub open spec fn pairs_wf(ps: Seq<(Seq<u8>, FrameVal)>, i: int) -> bool
    decreases ps, 1int, ps.len() - i,
{
    if 0 <= i < ps.len() {
        no_crlf(ps[i].0) && frame_wf(ps[i].1) && pairs_wf(ps, i + 1)
    } else {
        true
    }
}

/// Byte-wise lexicographic strict order.
pub open spec fn lex_lt(a: Seq<u8>, b: Seq<u8>) -> bool
    decreases a.len(),
{
    if b.len() == 0 {
        false
    } else if a.len() == 0 {
        true
    } else if a[0] < b[0] {
        true
    } else if a[0] > b[0] {
        false
    } else {
        lex_lt(a.drop_first(), b.drop_first())
    }
}

/// Map entries strictly ascending by key (hence keys unique).
pub open spec fn pairs_sorted(ps: Seq<(Seq<u8>, FrameVal)>) -> bool {
    forall|i: int, j: int| 0 <= i < j < ps.len() ==> lex_lt(#[trigger] ps[i].0, #[trigger] ps[j].0)
}

/// Insertion into a key-sorted entry sequence: replaces an equal key,
/// otherwise splices the new entry before the first larger key.
pub open spec fn pairs_insert(
    ps: Seq<(Seq<u8>, FrameVal)>,
    k: Seq<u8>,
    v: FrameVal,
) -> Seq<(Seq<u8>, FrameVal)>
    decreases ps.len(),
{
    if ps.len() == 0 {
        seq![(k, v)]
    } else if lex_lt(ps[0].0, k) {
        seq![ps[0]] + pairs_insert(ps.drop_first(), k, v)
    } else if ps[0].0 == k {
        seq![(k, v)] + ps.drop_first()
    } else {
        seq![(k, v)] + ps
    }
}

/// Insert a sequence of entries left to right, starting from the empty
/// map: the value a map frame decodes to from its wire-order entries.
pub open spec fn pairs_insert_all(ps: Seq<(Seq<u8>, FrameVal)>) -> Seq<(Seq<u8>, FrameVal)>
    decreases ps.len(),
{
    if ps.len() == 0 {
        Seq::empty()
    } else {
        pairs_insert(pairs_insert_all(ps.drop_last()), ps.last().0, ps.last().1)
    }
}

// ---------------------------------------------------------------------
// encoding
// ---------------------------------------------------------------------

pub open spec fn crlf() -> Seq<u8> {
    seq![13u8, 10u8]
}

pub open spec fn encode_spec(v: FrameVal) -> Seq<u8>
    decreases v, 0int, 0int,
{
    match v {
        FrameVal::Simple(s) => seq![43u8] + s + crlf(),
        FrameVal::Error(s) => seq![45u8] + s + crlf(),
        FrameVal::Int(n) => seq![58u8] + int_text(n) + crlf(),
        FrameVal::Bulk(d) => match d {
            Some(s) => seq![36u8] + dec_digits(s.len() as int) + crlf() + s + crlf(),
            None => seq![36u8, 45u8, 49u8] + crlf(),
        },
        FrameVal::Arr(items) => match items {
            Some(s) => seq![42u8] + dec_digits(s.len() as int) + crlf() + encode_items(s, 0),
            None => seq![42u8, 45u8, 49u8] + crlf(),
        },
        FrameVal::Null => seq![95u8] + crlf(),
        FrameVal::Bool(b) => seq![35u8, if b { 116u8 } else { 102u8 }] + crlf(),
        FrameVal::Double(s) => seq![44u8] + s + crlf(),
        FrameVal::MapV(ps) => seq![37u8] + dec_digits(ps.len() as int) + crlf() + encode_pairs(
            ps,
            0,
        ),
        FrameVal::SetV(s) => seq![126u8] + dec_digits(s.len() as int) + crlf() + encode_items(s, 0),
    }
}

pub open spec fn encode_items(s: Seq<FrameVal>, i: int) -> Seq<u8>
    decreases s, 1int, s.len() - i,
{
    if 0 <= i < s.len() {
        encode_spec(s[i]) + encode_items(s, i + 1)
    } else {
        Seq::empty()
    }
}

/// Map entries encode as a SimpleString key followed by the value.
pub open spec fn encode_pairs(ps: Seq<(Seq<u8>, FrameVal)>, i: int) -> Seq<u8>
    decreases ps, 1int, ps.len() - i,
{
    if 0 <= i < ps.len() {
        seq![43u8] + ps[i].0 + crlf() + encode_spec(ps[i].1) + encode_pairs(ps, i + 1)
    } else {
        Seq::empty()
    }
}

// ---------------------------------------------------------------------
// decoding
// ---------------------------------------------------------------------

/// Position of the first CRLF window at or after `pos`.
pub open spec fn spec_find_crlf(b: Seq<u8>, pos: int) -> Option<int>
    decreases b.len() - pos,
{
    if pos < 0 {
        spec_find_crlf(b, 0)
    } else if pos + 2 > b.len() {
        None
    } else if b[pos] == 13 && b[pos + 1] == 10 {
        Some(pos)
    } else {
        spec_find_crlf(b, pos + 1)
    }
}

/// Byte count of a simple line running from `pos` to the CRLF ending at
/// `end + 2`.  The value is `end + 2 - pos`; the clamping only serves the
/// termination checker and never takes effect, since a found CRLF lies
/// between `pos + 1` and `b.len() - 2` whenever the byte at `pos` is not
/// itself a CR (see `lemma_find_crlf`).
pub open spec fn line_span(b: Seq<u8>, pos: int, end: int) -> int {
    let n = end + 2 - pos;
    let lo = if n < 3 {
        3
    } else {
        n
    };
    if lo > b.len() - pos {
        b.len() - pos
    } else {
        lo
    }
}

/// Where `spec_find_crlf` answers, the answer is the first CRLF window at
/// or after `pos`, and it lies within the buffer.
pub proof fn lemma_find_crlf(b: Seq<u8>, pos: int)
    requires
        pos >= 0,
    ensures
        match spec_find_crlf(b, pos) {
            Some(e) => pos <= e && e + 2 <= b.len() && b[e] == 13 && b[e + 1] == 10 && forall|
                j: int,
            |
                pos <= j < e ==> !(#[trigger] b[j] == 13 && b[j + 1] == 10),
            None => forall|j: int|
                pos <= j && j + 2 <= b.len() ==> !(#[trigger] b[j] == 13 && b[j + 1] == 10),
        },
    decreases b.len() - pos,
{
    if pos + 2 > b.len() {
    } else if b[pos] == 13 && b[pos + 1] == 10 {
    } else {
        lemma_find_crlf(b, pos + 1);
    }
}

/// If a CRLF window sits at `e` and none sits earlier, the search finds
/// exactly `e`.
pub proof fn lemma_find_crlf_found(b: Seq<u8>, pos: int, e: int)
    requires
        0 <= pos <= e,
        e + 2 <= b.len(),
        b[e] == 13 && b[e + 1] == 10,
        forall|j: int| pos <= j < e ==> !(#[trigger] b[j] == 13 && b[j + 1] == 10),
    ensures
        spec_find_crlf(b, pos) == Some(e),
{
    lemma_find_crlf(b, pos);
    match spec_find_crlf(b, pos) {
        Some(e2) => {
            if e2 < e {
                assert(!(b[e2] == 13 && b[e2 + 1] == 10));
            }
            if e < e2 {
                assert(!(b[e] == 13 && b[e + 1] == 10));
            }
        },
        None => {
            assert(!(b[e] == 13 && b[e + 1] == 10));
        },
    }
}

/// Outcome of reading one prefix-tagged simple line at `pos`: the payload
/// between the prefix byte and the first CRLF, and the line's byte count.
pub ghost enum SpecLine {
    Incomplete,
    WrongType,
    Line(Seq<u8>, int),
}

/// A simple line needs at least three bytes (prefix + CRLF), the expected
/// prefix byte, and a CRLF somewhere after it.
pub open spec fn spec_simple_line(b: Seq<u8>, pos: int, prefix: u8) -> SpecLine {
    if b.len() - pos < 3 {
        SpecLine::Incomplete
    } else if b[pos] != prefix {
        SpecLine::WrongType
    } else {
        match spec_find_crlf(b, pos) {
            None => SpecLine::Incomplete,
            Some(end) => SpecLine::Line(b.subrange(pos + 1, end), line_span(b, pos, end)),
        }
    }
}

/// Outcome of reading an aggregate length header at `pos`.
pub ghost enum SpecHead {
    Incomplete,
    WrongType,
    Fail(DecErr),
    Head(int, int),
}

/// Length header: a simple line whose payload must parse as an integer
/// within `i64` range (Rust's integer parse fails outside it) that also
/// fits in `usize`.
pub open spec fn spec_length_header(b: Seq<u8>, pos: int, prefix: u8) -> SpecHead {
    match spec_simple_line(b, pos, prefix) {
        SpecLine::Incomplete => SpecHead::Incomplete,
        SpecLine::WrongType => SpecHead::WrongType,
        SpecLine::Line(p, n) => match int_of_text(p) {
            None => SpecHead::Fail(DecErr::BadInt),
            Some(v) => if v < i64::MIN || v > i64::MAX || v > usize::MAX {
                SpecHead::Fail(DecErr::BadInt)
            } else {
                SpecHead::Head(v, n)
            },
        },
    }
}

/// Decode of a simple line frame (`+` or `-`) at `pos`.
pub open spec fn spec_decode_simple(b: Seq<u8>, pos: int, prefix: u8) -> SpecParse
    decreases b.len() - pos, 0int, 0int,
{
    match spec_simple_line(b, pos, prefix) {
        SpecLine::Incomplete => SpecParse::Incomplete,
        SpecLine::WrongType => SpecParse::Fail(DecErr::BadType),
        SpecLine::Line(p, n) => SpecParse::Parsed(
            if prefix == 43 {
                FrameVal::Simple(p)
            } else {
                FrameVal::Error(p)
            },
            n,
        ),
    }
}

/// Decode of an `:` integer frame at `pos`.
pub open spec fn spec_decode_int(b: Seq<u8>, pos: int) -> SpecParse
    decreases b.len() - pos, 0int, 0int,
{
    match spec_simple_line(b, pos, 58) {
        SpecLine::Incomplete => SpecParse::Incomplete,
        SpecLine::WrongType => SpecParse::Fail(DecErr::BadType),
        SpecLine::Line(p, n) => match int_of_text(p) {
            Some(v) => if i64::MIN <= v <= i64::MAX {
                SpecParse::Parsed(FrameVal::Int(v), n)
            } else {
                SpecParse::Fail(DecErr::BadInt)
            },
            None => SpecParse::Fail(DecErr::BadInt),
        },
    }
}

/// Decode of a `_` null frame at `pos`: the line payload must be empty.
pub open spec fn spec_decode_null(b: Seq<u8>, pos: int) -> SpecParse
    decreases b.len() - pos, 0int, 0int,
{
    match spec_simple_line(b, pos, 95) {
        SpecLine::Incomplete => SpecParse::Incomplete,
        SpecLine::WrongType => SpecParse::Fail(DecErr::BadType),
        SpecLine::Line(p, n) => if p.len() == 0 {
            SpecParse::Parsed(FrameVal::Null, n)
        } else {
            SpecParse::Fail(DecErr::BadType)
        },
    }
}

/// Decode of a `#` boolean frame at `pos`: the payload is `t` or `f`.
pub open spec fn spec_decode_bool(b: Seq<u8>, pos: int) -> SpecParse
    decreases b.len() - pos, 0int, 0int,
{
    match spec_simple_line(b, pos, 35) {
        SpecLine::Incomplete => SpecParse::Incomplete,
        SpecLine::WrongType => SpecParse::Fail(DecErr::BadType),
        SpecLine::Line(p, n) => if p =~= seq![116u8] {
            SpecParse::Parsed(FrameVal::Bool(true), n)
        } else if p =~= seq![102u8] {
            SpecParse::Parsed(FrameVal::Bool(false), n)
        } else {
            SpecParse::Fail(DecErr::BadType)
        },
    }
}

/// Decode of a `,` double frame at `pos`: the payload must match the
/// float grammar.
pub open spec fn spec_decode_double(b: Seq<u8>, pos: int) -> SpecParse
    decreases b.len() - pos, 0int, 0int,
{
    match spec_simple_line(b, pos, 44) {
        SpecLine::Incomplete => SpecParse::Incomplete,
        SpecLine::WrongType => SpecParse::Fail(DecErr::BadType),
        SpecLine::Line(p, n) => if is_float_text(p) {
            SpecParse::Parsed(FrameVal::Double(p), n)
        } else {
            SpecParse::Fail(DecErr::BadFloat)
        },
    }
}

/// Decode of a `$` bulk string frame at `pos`.
pub open spec fn spec_decode_bulk(b: Seq<u8>, pos: int) -> SpecParse
    decreases b.len() - pos, 0int, 0int,
{
    match spec_length_header(b, pos, 36) {
        SpecHead::Incomplete => SpecParse::Incomplete,
        SpecHead::WrongType => SpecParse::Fail(DecErr::BadType),
        SpecHead::Fail(e) => SpecParse::Fail(e),
        SpecHead::Head(len, n) => if len == -1 {
            SpecParse::Parsed(FrameVal::Bulk(None), n)
        } else if len < -1 {
            SpecParse::Fail(DecErr::BadLength(len))
        } else if b.len() - pos - n < len + 2 {
            SpecParse::Incomplete
        } else {
            SpecParse::Parsed(FrameVal::Bulk(Some(b.subrange(pos + n, pos + n + len))), n + len + 2)
        },
    }
}

/// Decode of a `*` array frame at `pos`.
pub open spec fn spec_decode_array(b: Seq<u8>, pos: int) -> SpecParse
    decreases b.len() - pos, 0int, 0int,
{
    match spec_length_header(b, pos, 42) {
        SpecHead::Incomplete => SpecParse::Incomplete,
        SpecHead::WrongType => SpecParse::Fail(DecErr::BadType),
        SpecHead::Fail(e) => SpecParse::Fail(e),
        SpecHead::Head(len, n) => if len == -1 {
            SpecParse::Parsed(FrameVal::Arr(None), n)
        } else if len < -1 {
            SpecParse::Fail(DecErr::BadLength(len))
        } else {
            match spec_decode_agg(b, pos + n, len) {
                SpecItems::Incomplete => SpecParse::Incomplete,
                SpecItems::Fail(e) => SpecParse::Fail(e),
                SpecItems::Items(vs, used) => SpecParse::Parsed(
                    FrameVal::Arr(Some(vs)),
                    n + used,
                ),
            }
        },
    }
}

/// Decode of a `~` set frame at `pos`, structurally an array without a
/// null form.
pub open spec fn spec_decode_set(b: Seq<u8>, pos: int) -> SpecParse
    decreases b.len() - pos, 0int, 0int,
{
    match spec_length_header(b, pos, 126) {
        SpecHead::Incomplete => SpecParse::Incomplete,
        SpecHead::WrongType => SpecParse::Fail(DecErr::BadType),
        SpecHead::Fail(e) => SpecParse::Fail(e),
        SpecHead::Head(len, n) => if len < 0 {
            SpecParse::Fail(DecErr::BadLength(len))
        } else {
            match spec_decode_agg(b, pos + n, len) {
                SpecItems::Incomplete => SpecParse::Incomplete,
                SpecItems::Fail(e) => SpecParse::Fail(e),
                SpecItems::Items(vs, used) => SpecParse::Parsed(FrameVal::SetV(vs), n + used),
            }
        },
    }
}

/// Decode of a `%` map frame at `pos`: preflight the pairs, demand that
/// many bytes, decode the pairs, and insert them left to right into the
/// sorted entry sequence.
pub open spec fn spec_decode_map(b: Seq<u8>, pos: int) -> SpecParse
    decreases b.len() - pos, 0int, 0int,
{
    match spec_length_header(b, pos, 37) {
        SpecHead::Incomplete => SpecParse::Incomplete,
        SpecHead::WrongType => SpecParse::Fail(DecErr::BadType),
        SpecHead::Fail(e) => SpecParse::Fail(e),
        SpecHead::Head(len, n) => if len < 0 {
            SpecParse::Fail(DecErr::BadLength(len))
        } else {
            match spec_expect_pairs(b, pos + n, len) {
                SpecLen::Incomplete => SpecParse::Incomplete,
                SpecLen::Fail(e) => SpecParse::Fail(e),
                SpecLen::Len(t) => if b.len() - pos - n < t {
                    SpecParse::Incomplete
                } else {
                    match spec_decode_pairs(b, pos + n, len) {
                        SpecPairs::Incomplete => SpecParse::Incomplete,
                        SpecPairs::Fail(e) => SpecParse::Fail(e),
                        SpecPairs::Pairs(ps, used) => SpecParse::Parsed(
                            FrameVal::MapV(pairs_insert_all(ps)),
                            n + used,
                        ),
                    }
                },
            }
        },
    }
}

/// Decode of the frame starting at `pos`: dispatch on the prefix byte.
///
/// Aggregates follow the preflight discipline: the children's total size
/// is computed first (`spec_expect_items` / `spec_expect_pairs`); if the
/// buffer holds fewer bytes than that total the whole frame is
/// incomplete, and only then are the children decoded.
pub open spec fn decode_spec(b: Seq<u8>, pos: int) -> SpecParse
    decreases b.len() - pos, 1int, 0int,
{
    if b.len() - pos <= 0 {
        SpecParse::Incomplete
    } else if b[pos] == 43 || b[pos] == 45 {
        spec_decode_simple(b, pos, b[pos])
    } else if b[pos] == 58 {
        spec_decode_int(b, pos)
    } else if b[pos] == 95 {
        spec_decode_null(b, pos)
    } else if b[pos] == 35 {
        spec_decode_bool(b, pos)
    } else if b[pos] == 44 {
        spec_decode_double(b, pos)
    } else if b[pos] == 36 {
        spec_decode_bulk(b, pos)
    } else if b[pos] == 42 {
        spec_decode_array(b, pos)
    } else if b[pos] == 126 {
        spec_decode_set(b, pos)
    } else if b[pos] == 37 {
        spec_decode_map(b, pos)
    } else {
        SpecParse::Fail(DecErr::BadType)
    }
}

pub ghost enum SpecItems {
    Incomplete,
    Fail(DecErr),
    Items(Seq<FrameVal>, int),
}

/// Shared preflight-then-decode step of `*` and `~`: size the `n`
/// children first, demand that many bytes, then decode them.
pub open spec fn spec_decode_agg(b: Seq<u8>, pos: int, n: int) -> SpecItems
    decreases b.len() - pos, 4int, 0int,
{
    match spec_expect_items(b, pos, n) {
        SpecLen::Incomplete => SpecItems::Incomplete,
        SpecLen::Fail(e) => SpecItems::Fail(e),
        SpecLen::Len(t) => if b.len() - pos < t {
            SpecItems::Incomplete
        } else {
            spec_decode_items(b, pos, n)
        },
    }
}

pub open spec fn spec_decode_items(b: Seq<u8>, pos: int, n: int) -> SpecItems
    decreases b.len() - pos, 3int, n,
{
    if n <= 0 {
        SpecItems::Items(Seq::empty(), 0)
    } else {
        match decode_spec(b, pos) {
            SpecParse::Incomplete => SpecItems::Incomplete,
            SpecParse::Fail(e) => SpecItems::Fail(e),
            SpecParse::Parsed(v, used) => if used <= 0 || used > b.len() - pos {
                // a parse never consumes zero bytes nor runs past the
                // buffer; see `lemma_decode_spec_bounds`
                SpecItems::Incomplete
            } else {
                match spec_decode_items(b, pos + used, n - 1) {
                    SpecItems::Incomplete => SpecItems::Incomplete,
                    SpecItems::Fail(e) => SpecItems::Fail(e),
                    SpecItems::Items(vs, t) => SpecItems::Items(seq![v] + vs, used + t),
                }
            },
        }
    }
}

pub ghost enum SpecPairs {
    Incomplete,
    Fail(DecErr),
    Pairs(Seq<(Seq<u8>, FrameVal)>, int),
}

/// Map children: a SimpleString key, then any frame as the value.
pub open spec fn spec_decode_pairs(b: Seq<u8>, pos: int, n: int) -> SpecPairs
    decreases b.len() - pos, 3int, n,
{
    if n <= 0 {
        SpecPairs::Pairs(Seq::empty(), 0)
    } else {
        match spec_simple_line(b, pos, 43) {
            SpecLine::Incomplete => SpecPairs::Incomplete,
            SpecLine::WrongType => SpecPairs::Fail(DecErr::BadType),
            SpecLine::Line(k, kn) => match decode_spec(b, pos + kn) {
                SpecParse::Incomplete => SpecPairs::Incomplete,
                SpecParse::Fail(e) => SpecPairs::Fail(e),
                SpecParse::Parsed(v, vn) => if vn <= 0 || vn > b.len() - pos - kn {
                    SpecPairs::Incomplete
                } else {
                    match spec_decode_pairs(b, pos + kn + vn, n - 1) {
                        SpecPairs::Incomplete => SpecPairs::Incomplete,
                        SpecPairs::Fail(e) => SpecPairs::Fail(e),
                        SpecPairs::Pairs(ps, t) => SpecPairs::Pairs(
                            seq![(k, v)] + ps,
                            kn + vn + t,
                        ),
                    }
                },
            },
        }
    }
}

// ---------------------------------------------------------------------
// the size preflight
// ---------------------------------------------------------------------

/// Size preflight for the frame at `pos`: the frame's total byte count,
/// computed from headers alone.  Payloads are not validated and, for a
/// bulk string, not required to be present yet.
pub open spec fn expect_spec(b: Seq<u8>, pos: int) -> SpecLen
    decreases b.len() - pos, 1int, 0int,
{
    if b.len() - pos <= 0 {
        SpecLen::Incomplete
    } else if b[pos] == 43 || b[pos] == 45 || b[pos] == 58 || b[pos] == 95 || b[pos] == 35 || b[pos]
        == 44 {
        match spec_simple_line(b, pos, b[pos]) {
            SpecLine::Incomplete => SpecLen::Incomplete,
            SpecLine::WrongType => SpecLen::Fail(DecErr::BadType),
            SpecLine::Line(p, n) => SpecLen::Len(n),
        }
    } else if b[pos] == 36 {
        match spec_length_header(b, pos, 36) {
            SpecHead::Incomplete => SpecLen::Incomplete,
            SpecHead::WrongType => SpecLen::Fail(DecErr::BadType),
            SpecHead::Fail(e) => SpecLen::Fail(e),
            SpecHead::Head(len, n) => if len == -1 {
                SpecLen::Len(n)
            } else if len < -1 {
                SpecLen::Fail(DecErr::BadLength(len))
            } else if n + len + 2 > usize::MAX {
                // a frame longer than the address space can never be
                // completed in memory
                SpecLen::Incomplete
            } else {
                SpecLen::Len(n + len + 2)
            },
        }
    } else if b[pos] == 42 || b[pos] == 126 {
        match spec_length_header(b, pos, b[pos]) {
            SpecHead::Incomplete => SpecLen::Incomplete,
            SpecHead::WrongType => SpecLen::Fail(DecErr::BadType),
            SpecHead::Fail(e) => SpecLen::Fail(e),
            SpecHead::Head(len, n) => if b[pos] == 42 && len == -1 {
                SpecLen::Len(n)
            } else if len < 0 {
                SpecLen::Fail(DecErr::BadLength(len))
            } else {
                match spec_expect_items(b, pos + n, len) {
                    SpecLen::Incomplete => SpecLen::Incomplete,
                    SpecLen::Fail(e) => SpecLen::Fail(e),
                    SpecLen::Len(t) => SpecLen::Len(n + t),
                }
            },
        }
    } else if b[pos] == 37 {
        match spec_length_header(b, pos, 37) {
            SpecHead::Incomplete => SpecLen::Incomplete,
            SpecHead::WrongType => SpecLen::Fail(DecErr::BadType),
            SpecHead::Fail(e) => SpecLen::Fail(e),
            SpecHead::Head(len, n) => if len < 0 {
                SpecLen::Fail(DecErr::BadLength(len))
            } else {
                match spec_expect_pairs(b, pos + n, len) {
                    SpecLen::Incomplete => SpecLen::Incomplete,
                    SpecLen::Fail(e) => SpecLen::Fail(e),
                    SpecLen::Len(t) => SpecLen::Len(n + t),
                }
            },
        }
    } else {
        SpecLen::Fail(DecErr::BadType)
    }
}

pub open spec fn spec_expect_items(b: Seq<u8>, pos: int, n: int) -> SpecLen
    decreases b.len() - pos, 3int, n,
{
    if n <= 0 {
        SpecLen::Len(0)
    } else {
        match expect_spec(b, pos) {
            SpecLen::Incomplete => SpecLen::Incomplete,
            SpecLen::Fail(e) => SpecLen::Fail(e),
            SpecLen::Len(l) => if l <= 0 || l > b.len() - pos {
                // a frame preflighted past the end of the buffer cannot
                // be complete yet
                SpecLen::Incomplete
            } else {
                match spec_expect_items(b, pos + l, n - 1) {
                    SpecLen::Incomplete => SpecLen::Incomplete,
                    SpecLen::Fail(e) => SpecLen::Fail(e),
                    SpecLen::Len(t) => SpecLen::Len(l + t),
                }
            },
        }
    }
}

pub open spec fn spec_expect_pairs(b: Seq<u8>, pos: int, n: int) -> SpecLen
    decreases b.len() - pos, 3int, n,
{
    if n <= 0 {
        SpecLen::Len(0)
    } else {
        match spec_simple_line(b, pos, 43) {
            SpecLine::Incomplete => SpecLen::Incomplete,
            SpecLine::WrongType => SpecLen::Fail(DecErr::BadType),
            SpecLine::Line(k, kn) => match expect_spec(b, pos + kn) {
                SpecLen::Incomplete => SpecLen::Incomplete,
                SpecLen::Fail(e) => SpecLen::Fail(e),
                SpecLen::Len(vn) => if vn <= 0 || vn > b.len() - pos - kn {
                    SpecLen::Incomplete
                } else {
                    match spec_expect_pairs(b, pos + kn + vn, n - 1) {
                        SpecLen::Incomplete => SpecLen::Incomplete,
                        SpecLen::Fail(e) => SpecLen::Fail(e),
                        SpecLen::Len(t) => SpecLen::Len(kn + vn + t),
                    }
                },
            },
        }
    }
}

} // verus!
