//! The `,` double frame.
//!
//! The frame carries the number's decimal wire text rather than a binary
//! float: the codec itself never computes with the number, and the text
//! form preserves exactly what was on the wire.  A well-formed text is
//! one that a float parser accepts (`is_float_text`).  One consequence:
//! re-encoding a decoded double emits the text in its original spelling,
//! not renormalized into signed scientific notation, since normalizing
//! would need floating-point formatting, which this library avoids.

use vstd::prelude::*;

verus! {

/// A RESP double, held as its decimal wire text.
#[derive(Debug, Clone, PartialEq, Eq, Hash)]
pub struct RespDouble(pub Vec<u8>);

impl View for RespDouble {
    type V = Seq<u8>;

    open spec fn view(&self) -> Seq<u8> {
        self.0@
    }
}

impl RespDouble {
    pub fn new(text: Vec<u8>) -> (r: Self)
        ensures
            r@ == text@,
    {
        RespDouble(text)
    }

    /// Decode one `,` frame from the front of the buffer, consuming
    /// exactly its bytes; on any error the buffer is unchanged.
    pub fn decode(buf: &mut Vec<u8>) -> (r: Result<RespDouble, crate::resp::RespError>)
        ensures
            ({
                let d = crate::resp::model::spec_decode_double(old(buf)@, 0);
                match r {
                    Ok(f) => d matches crate::resp::model::SpecParse::Parsed(v, n) && v
                        == crate::resp::model::FrameVal::Double(f@) && final(buf)@ == old(buf)@.skip(n),
                    Err(e) => final(buf)@ == old(buf)@ && match d {
                        crate::resp::model::SpecParse::Incomplete => e is NotCompleteFrame,
                        crate::resp::model::SpecParse::Fail(k) => crate::resp::matches_err(e, k),
                        crate::resp::model::SpecParse::Parsed(v, n) => false,
                    },
                }
            }),
    {
        match crate::resp::decode::double_at(buf.as_slice(), 0) {
            Ok((f, n)) => {
                crate::resp::decode::consume(buf, n);
                Ok(f)
            },
            Err(e) => Err(e),
        }
    }

    /// Byte count of the `,` frame at the start of the buffer.
    pub fn expect_length(buf: &[u8]) -> (r: Result<usize, crate::resp::RespError>)
        ensures
            ({
                match crate::resp::model::spec_simple_line(buf@, 0, 44) {
                    crate::resp::model::SpecLine::Line(p, n) => r matches Ok(m) && m as int == n,
                    crate::resp::model::SpecLine::Incomplete => r matches Err(e)
                        && e is NotCompleteFrame,
                    crate::resp::model::SpecLine::WrongType => r matches Err(e)
                        && e is InvalidFrameType,
                }
            }),
    {
        crate::resp::decode::line_at(buf, 0, 44)
    }
}

use crate::resp::model::{
    all_digits, is_digit, is_exponent, is_float_body, is_float_text, is_inf_text, is_mantissa,
    is_nan_text, is_number_text, is_sign, lower_byte,
};

fn lower_b(c: u8) -> (r: u8)
    ensures
        r == lower_byte(c),
{
    if c >= 65 && c <= 90 {
        c + 32
    } else {
        c
    }
}

fn check_all_digits(s: &[u8]) -> (r: bool)
    ensures
        r == all_digits(s@),
{
    let mut i: usize = 0;
    while i < s.len()
        invariant
            0 <= i <= s@.len(),
            forall|j: int| 0 <= j < i ==> is_digit(#[trigger] s@[j]),
        decreases s@.len() - i,
    {
        if s[i] < 48 || s[i] > 57 {
            return false;
        }
        i = i + 1;
    }
    true
}

/// `Digit+ | Digit+ '.' Digit* | Digit* '.' Digit+`: only digits and at
/// most one dot, with at least one digit.
fn check_mantissa(s: &[u8]) -> (r: bool)
    ensures
        r == is_mantissa(s@),
{
    let mut i: usize = 0;
    let mut digits: usize = 0;
    let mut dot: usize = 0;
    let ghost mut dpos: int = 0;
    while i < s.len()
        invariant
            0 <= i <= s@.len(),
            digits <= i,
            dot <= 1,
            digits + dot == i,
            forall|j: int| 0 <= j < i ==> is_digit(#[trigger] s@[j]) || s@[j] == 46,
            dot == 1 ==> 0 <= dpos < i && s@[dpos] == 46 && forall|j: int|
                0 <= j < i && j != dpos ==> is_digit(#[trigger] s@[j]),
            dot == 0 ==> forall|j: int| 0 <= j < i ==> is_digit(#[trigger] s@[j]),
        decreases s@.len() - i,
    {
        let c = s[i];
        if c >= 48 && c <= 57 {
            digits = digits + 1;
        } else if c == 46 {
            if dot == 1 {
                proof {
                    lemma_mantissa_needs_single_dot(s@, dpos, i as int);
                }
                return false;
            }
            dot = 1;
            proof {
                dpos = i as int;
            }
        } else {
            proof {
                lemma_mantissa_chars(s@, i as int);
            }
            return false;
        }
        i = i + 1;
    }
    if digits == 0 {
        proof {
            if dot == 1 {
                assert(s@.len() == 1 && s@[0] == 46);
                lemma_mantissa_needs_digit(s@);
            }
        }
        return false;
    }
    proof {
        if dot == 0 {
            assert(is_mantissa(s@));
        } else {
            assert(s@.len() > 1);
            assert(all_digits(s@.subrange(0, dpos)));
            assert(all_digits(s@.subrange(dpos + 1, s@.len() as int)));
            assert(is_mantissa(s@));
        }
    }
    true
}

/// A mantissa has no byte besides digits and one dot.
proof fn lemma_mantissa_chars(s: Seq<u8>, i: int)
    requires
        0 <= i < s.len(),
        !is_digit(s[i]),
        s[i] != 46,
    ensures
        !is_mantissa(s),
{
    if is_mantissa(s) {
        if s.len() > 0 && all_digits(s) {
            assert(is_digit(s[i]));
        } else {
            let d = choose|d: int|
                0 <= d < s.len() && s[d] == 46 && all_digits(#[trigger] s.subrange(0, d))
                    && all_digits(s.subrange(d + 1, s.len() as int));
            if i < d {
                assert(is_digit(s.subrange(0, d)[i]));
            } else if i > d {
                assert(is_digit(s.subrange(d + 1, s.len() as int)[i - d - 1]));
            }
        }
    }
}

/// A mantissa has at most one dot.
proof fn lemma_mantissa_needs_single_dot(s: Seq<u8>, d1: int, d2: int)
    requires
        0 <= d1 < d2 < s.len(),
        s[d1] == 46,
        s[d2] == 46,
    ensures
        !is_mantissa(s),
{
    if is_mantissa(s) {
        if s.len() > 0 && all_digits(s) {
            assert(is_digit(s[d1]));
        } else {
            let d = choose|d: int|
                0 <= d < s.len() && s[d] == 46 && all_digits(#[trigger] s.subrange(0, d))
                    && all_digits(s.subrange(d + 1, s.len() as int));
            if d1 < d {
                assert(is_digit(s.subrange(0, d)[d1]));
            } else if d1 > d {
                assert(is_digit(s.subrange(d + 1, s.len() as int)[d1 - d - 1]));
            } else {
                assert(d2 > d);
                assert(is_digit(s.subrange(d + 1, s.len() as int)[d2 - d - 1]));
            }
        }
    }
}

/// A mantissa has at least one digit.
proof fn lemma_mantissa_needs_digit(s: Seq<u8>)
    requires
        s.len() == 1,
        s[0] == 46,
    ensures
        !is_mantissa(s),
{
    if is_mantissa(s) {
        if all_digits(s) {
            assert(is_digit(s[0]));
        }
    }
}

/// `Sign? Digit+` after the exponent letter.
fn check_exponent(s: &[u8]) -> (r: bool)
    ensures
        r == is_exponent(s@),
{
    if s.len() == 0 {
        return false;
    }
    let c = s[0];
    if c == 43 || c == 45 {
        if s.len() == 1 {
            proof {
                assert(!is_digit(s@[0]));
            }
            return false;
        }
        let body = vstd::slice::slice_subrange(s, 1, s.len());
        let r = check_all_digits(body);
        proof {
            if !r {
                assert(!is_digit(s@[0]));
            }
        }
        r
    } else {
        let r = check_all_digits(s);
        proof {
            if r {
                assert(is_exponent(s@));
            } else {
                if is_exponent(s@) {
                    assert(is_sign(s@[0]));
                }
            }
        }
        r
    }
}

fn check_inf_nan(s: &[u8]) -> (r: bool)
    ensures
        r == (is_inf_text(s@) || is_nan_text(s@)),
{
    if s.len() == 3 {
        let a = lower_b(s[0]);
        let b = lower_b(s[1]);
        let c = lower_b(s[2]);
        (a == 105 && b == 110 && c == 102) || (a == 110 && b == 97 && c == 110)
    } else if s.len() == 8 {
        let r = lower_b(s[0]) == 105 && lower_b(s[1]) == 110 && lower_b(s[2]) == 102 && lower_b(
            s[3],
        ) == 105 && lower_b(s[4]) == 110 && lower_b(s[5]) == 105 && lower_b(s[6]) == 116
            && lower_b(s[7]) == 121;
        r
    } else {
        false
    }
}

/// `Mantissa | Mantissa ('e'|'E') Exponent`: the split, when there is
/// one, is at the first exponent letter, since a mantissa contains none.
fn check_number(s: &[u8]) -> (r: bool)
    ensures
        r == is_number_text(s@),
{
    let mut i: usize = 0;
    while i < s.len() && lower_b(s[i]) != 101
        invariant
            0 <= i <= s@.len(),
            forall|j: int| 0 <= j < i ==> lower_byte(#[trigger] s@[j]) != 101,
        decreases s@.len() - i,
    {
        i = i + 1;
    }
    if i == s.len() {
        // no exponent letter anywhere
        let r = check_mantissa(s);
        proof {
            if !r && is_number_text(s@) {
                let k = choose|k: int|
                    0 < k < s@.len() && lower_byte(#[trigger] s@[k]) == 101 && is_mantissa(
                        s@.subrange(0, k),
                    ) && is_exponent(s@.subrange(k + 1, s@.len() as int));
                assert(lower_byte(s@[k]) != 101);
            }
        }
        r
    } else {
        proof {
            assert(lower_byte(s@[i as int]) == 101);
        }
        if i == 0 {
            proof {
                if is_number_text(s@) {
                    if is_mantissa(s@) {
                        lemma_no_e_in_mantissa(s@);
                    } else {
                        let k = choose|k: int|
                            0 < k < s@.len() && lower_byte(#[trigger] s@[k]) == 101 && is_mantissa(
                                s@.subrange(0, k),
                            ) && is_exponent(s@.subrange(k + 1, s@.len() as int));
                        lemma_no_e_in_mantissa(s@.subrange(0, k));
                        assert(lower_byte(s@.subrange(0, k)[0]) != 101);
                    }
                }
            }
            return false;
        }
        let mant = vstd::slice::slice_subrange(s, 0, i);
        let expo = vstd::slice::slice_subrange(s, i + 1, s.len());
        let r = check_mantissa(mant) && check_exponent(expo);
        proof {
            if r {
                assert(is_number_text(s@));
            } else {
                if is_number_text(s@) {
                    if is_mantissa(s@) {
                        lemma_no_e_in_mantissa(s@);
                        assert(lower_byte(s@[i as int]) != 101);
                    } else {
                        let k = choose|k: int|
                            0 < k < s@.len() && lower_byte(#[trigger] s@[k]) == 101 && is_mantissa(
                                s@.subrange(0, k),
                            ) && is_exponent(s@.subrange(k + 1, s@.len() as int));
                        if k < i {
                            assert(lower_byte(s@[k]) != 101);
                        } else if k > i {
                            lemma_no_e_in_mantissa(s@.subrange(0, k));
                            assert(lower_byte(s@.subrange(0, k)[i as int]) != 101);
                        } else {
                            assert(mant@ == s@.subrange(0, k));
                            assert(expo@ == s@.subrange(k + 1, s@.len() as int));
                        }
                    }
                }
            }
        }
        r
    }
}

/// A mantissa contains no exponent letter.
proof fn lemma_no_e_in_mantissa(s: Seq<u8>)
    requires
        is_mantissa(s),
    ensures
        forall|j: int| 0 <= j < s.len() ==> lower_byte(#[trigger] s[j]) != 101,
{
    assert forall|j: int| 0 <= j < s.len() implies lower_byte(#[trigger] s[j]) != 101 by {
        if all_digits(s) {
            assert(is_digit(s[j]));
        } else {
            let d = choose|d: int|
                0 <= d < s.len() && s[d] == 46 && all_digits(#[trigger] s.subrange(0, d))
                    && all_digits(s.subrange(d + 1, s.len() as int));
            if j < d {
                assert(is_digit(s.subrange(0, d)[j]));
            } else if j > d {
                assert(is_digit(s.subrange(d + 1, s.len() as int)[j - d - 1]));
            }
        }
    }
}

/// Whether `s` is a text the float parser accepts.
pub fn check_float_text(s: &[u8]) -> (r: bool)
    ensures
        r == is_float_text(s@),
{
    if s.len() == 0 {
        return false;
    }
    let c = s[0];
    let body_start: usize = if c == 43 || c == 45 {
        1
    } else {
        0
    };
    let body = vstd::slice::slice_subrange(s, body_start, s.len());
    let r = check_inf_nan(body) || check_number(body);
    proof {
        if body_start == 0 {
            assert(body@ =~= s@);
        }
    }
    r
}

} // verus!
