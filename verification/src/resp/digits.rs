//! Verified decimal text: parsing integer payloads and printing lengths
//! and integers, against `digits_val` / `dec_digits` / `int_text` of the
//! wire model.

use vstd::prelude::*;

verus! {

use crate::resp::model::{all_digits, dec_digits, digits_val, int_of_text, int_text, is_digit};
use crate::resp::RespError;

// ---------------------------------------------------------------------
// lemmas about digit strings
// ---------------------------------------------------------------------

/// A digit string's value is non-negative.
pub proof fn lemma_digits_val_nonneg(s: Seq<u8>)
    requires
        all_digits(s),
    ensures
        digits_val(s) >= 0,
    decreases s.len(),
{
    if s.len() > 0 {
        assert(all_digits(s.drop_last())) by {
            assert(forall|i: int|
                0 <= i < s.len() - 1 ==> is_digit(#[trigger] s.drop_last()[i]) && s.drop_last()[i]
                    == s[i]);
        }
        lemma_digits_val_nonneg(s.drop_last());
    }
}

/// Extending a digit string on the right never shrinks its value.
pub proof fn lemma_digits_val_mono(s: Seq<u8>, j: int, m: int)
    requires
        all_digits(s),
        0 <= j <= m <= s.len(),
    ensures
        digits_val(s.subrange(0, j)) <= digits_val(s.subrange(0, m)),
    decreases m - j,
{
    if j < m {
        lemma_digits_val_mono(s, j, m - 1);
        let p = s.subrange(0, m);
        assert(p.drop_last() =~= s.subrange(0, m - 1));
        assert(all_digits(s.subrange(0, m - 1)));
        lemma_digits_val_nonneg(s.subrange(0, m - 1));
        assert(digits_val(p) == digits_val(s.subrange(0, m - 1)) * 10 + (p.last() - 48));
        assert(digits_val(s.subrange(0, m - 1)) * 10 >= digits_val(s.subrange(0, m - 1))) by {
            lemma_digits_val_nonneg(s.subrange(0, m - 1));
        }
    } else {
    }
}

pub proof fn lemma_dec_digits_are_digits(n: int)
    requires
        n >= 0,
    ensures
        all_digits(dec_digits(n)),
        dec_digits(n).len() >= 1,
    decreases n,
{
    if n < 10 {
    } else {
        lemma_dec_digits_are_digits(n / 10);
        let d = dec_digits(n / 10);
        assert(forall|i: int|
            0 <= i < dec_digits(n).len() ==> is_digit(#[trigger] dec_digits(n)[i])) by {
            assert(dec_digits(n) == d.push((48 + n % 10) as u8));
            assert(forall|i: int| 0 <= i < d.len() ==> is_digit(#[trigger] d[i]));
            assert(is_digit(dec_digits(n)[d.len() as int]));
            assert(forall|i: int| 0 <= i < d.len() ==> #[trigger] dec_digits(n)[i] == d[i]);
        }
    }
}

pub proof fn lemma_dec_digits_val(n: int)
    requires
        n >= 0,
    ensures
        digits_val(dec_digits(n)) == n,
    decreases n,
{
    if n < 10 {
        let d = dec_digits(n);
        assert(d.drop_last() =~= Seq::<u8>::empty());
        assert(digits_val(Seq::<u8>::empty()) == 0);
        assert(d.last() == (48 + n) as u8);
        assert(digits_val(d) == digits_val(d.drop_last()) * 10 + (d.last() - 48));
    } else {
        lemma_dec_digits_val(n / 10);
        let d = dec_digits(n);
        assert(d == dec_digits(n / 10).push((48 + n % 10) as u8));
        assert(d.drop_last() =~= dec_digits(n / 10));
        assert(d.last() == (48 + n % 10) as u8);
        assert(digits_val(d) == digits_val(d.drop_last()) * 10 + (d.last() - 48));
        assert(0 <= n % 10 < 10);
        assert(d.last() - 48 == n % 10);
        vstd::arithmetic::div_mod::lemma_fundamental_div_mod(n, 10);
        assert(digits_val(d) == n / 10 * 10 + n % 10);
    }
}

/// The signed wire text round-trips through the integer grammar.
pub proof fn lemma_int_text_val(n: int)
    ensures
        int_of_text(int_text(n)) == Some(n),
        int_text(n).len() >= 2,
{
    if n >= 0 {
        let t = int_text(n);
        lemma_dec_digits_are_digits(n);
        lemma_dec_digits_val(n);
        assert(t[0] == 43);
        assert(t.subrange(1, t.len() as int) =~= dec_digits(n));
    } else {
        let t = int_text(n);
        lemma_dec_digits_are_digits(-n);
        lemma_dec_digits_val(-n);
        assert(t[0] == 45);
        assert(t.subrange(1, t.len() as int) =~= dec_digits(-n));
    }
}

/// Digit and sign bytes contain no CR and no LF.
pub proof fn lemma_int_text_no_crlf(n: int)
    ensures
        crate::resp::model::no_crlf(int_text(n)),
        forall|i: int| 0 <= i < int_text(n).len() ==> #[trigger] int_text(n)[i] != 13,
        forall|i: int| 0 <= i < int_text(n).len() ==> #[trigger] int_text(n)[i] != 10,
{
    let m = if n >= 0 {
        n
    } else {
        -n
    };
    lemma_dec_digits_are_digits(m);
    let t = int_text(n);
    assert(forall|i: int| 0 <= i < t.len() ==> #[trigger] t[i] != 13 && t[i] != 10) by {
        assert(t[0] == 43 || t[0] == 45);
        assert(forall|i: int|
            1 <= i < t.len() ==> is_digit(#[trigger] dec_digits(m)[i - 1]) && t[i] == dec_digits(
                m,
            )[i - 1]);
    }
}

pub proof fn lemma_dec_digits_no_crlf(n: int)
    requires
        n >= 0,
    ensures
        forall|i: int|
            0 <= i < dec_digits(n).len() ==> #[trigger] dec_digits(n)[i] != 13 && dec_digits(
                n,
            )[i] != 10,
{
    lemma_dec_digits_are_digits(n);
    assert(forall|i: int|
        0 <= i < dec_digits(n).len() ==> is_digit(#[trigger] dec_digits(n)[i]));
}

// ---------------------------------------------------------------------
// executable parsing
// ---------------------------------------------------------------------

/// Parse the digits of `s` from `start` to the end as an unsigned value,
/// refusing empty or non-digit text and any value above `limit`.
fn parse_digits_u64(s: &[u8], start: usize, limit: u64) -> (r: Result<u64, RespError>)
    requires
        start <= s@.len(),
    ensures
        ({
            let body = s@.subrange(start as int, s@.len() as int);
            match r {
                Ok(v) => body.len() > 0 && all_digits(body) && digits_val(body) == v && v <= limit,
                Err(e) => e is ParseIntError && !(body.len() > 0 && all_digits(body) && digits_val(
                    body,
                ) <= limit),
            }
        }),
{
    let ghost body = s@.subrange(start as int, s@.len() as int);
    if start >= s.len() {
        return Err(RespError::ParseIntError);
    }
    let mut acc: u64 = 0;
    let mut j: usize = start;
    while j < s.len()
        invariant
            start <= j <= s@.len(),
            start < s@.len(),
            body == s@.subrange(start as int, s@.len() as int),
            all_digits(s@.subrange(start as int, j as int)),
            digits_val(s@.subrange(start as int, j as int)) == acc,
            acc <= limit,
        decreases s@.len() - j,
    {
        let c = s[j];
        if c < 48 || c > 57 {
            proof {
                assert(body[j - start] == s@[j as int]);
                assert(!is_digit(body[j - start]));
            }
            return Err(RespError::ParseIntError);
        }
        let d: u64 = (c - 48) as u64;
        proof {
            assert(s@.subrange(start as int, j + 1).drop_last() =~= s@.subrange(
                start as int,
                j as int,
            ));
            assert(s@.subrange(start as int, j + 1).last() == s@[j as int]);
        }
        // overflow test: acc * 10 + d > limit exactly when acc > (limit - d) / 10
        if d > limit || acc > (limit - d) / 10 {
            proof {
                let prev = s@.subrange(start as int, j as int);
                let cur = s@.subrange(start as int, j + 1);
                assert(digits_val(cur) == acc * 10 + d);
                assert(acc * 10 + d > limit) by (nonlinear_arith)
                    requires
                        d <= 57,
                        acc >= 0,
                        limit >= 0,
                        d > limit || acc > (limit - d) / 10,
                {}
                if all_digits(body) {
                    lemma_digits_val_mono(body, j + 1 - start, body.len() as int);
                    assert(body.subrange(0, j + 1 - start) =~= cur);
                    assert(body.subrange(0, body.len() as int) =~= body);
                    assert(digits_val(body) >= digits_val(cur));
                }
            }
            return Err(RespError::ParseIntError);
        }
        proof {
            assert(acc * 10 + d <= limit) by (nonlinear_arith)
                requires
                    d <= 57,
                    acc >= 0,
                    limit >= 0,
                    d <= limit,
                    acc <= (limit - d) / 10,
            {}
        }
        acc = acc * 10 + d;
        j = j + 1;
    }
    proof {
        assert(s@.subrange(start as int, j as int) =~= body);
    }
    Ok(acc)
}

/// Parse a signed decimal payload exactly as Rust's `i64` parser does:
/// optional sign, at least one digit, value within `i64`'s range.
pub fn parse_signed(s: &[u8]) -> (r: Result<i64, RespError>)
    ensures
        match r {
            Ok(v) => int_of_text(s@) == Some(v as int),
            Err(e) => e is ParseIntError && match int_of_text(s@) {
                None => true,
                Some(v) => !(i64::MIN <= v <= i64::MAX),
            },
        },
{
    if s.len() == 0 {
        return Err(RespError::ParseIntError);
    }
    let c0 = s[0];
    if c0 == 43 {
        match parse_digits_u64(s, 1, 0x7fff_ffff_ffff_ffffu64) {
            Ok(v) => Ok(v as i64),
            Err(e) => Err(RespError::ParseIntError),
        }
    } else if c0 == 45 {
        match parse_digits_u64(s, 1, 0x8000_0000_0000_0000u64) {
            Ok(v) => {
                proof {
                    lemma_digits_val_nonneg(s@.subrange(1, s@.len() as int));
                }
                if v == 0x8000_0000_0000_0000u64 {
                    Ok(i64::MIN)
                } else {
                    Ok(-(v as i64))
                }
            },
            Err(e) => Err(RespError::ParseIntError),
        }
    } else {
        match parse_digits_u64(s, 0, 0x7fff_ffff_ffff_ffffu64) {
            Ok(v) => {
                proof {
                    assert(s@.subrange(0, s@.len() as int) =~= s@);
                }
                Ok(v as i64)
            },
            Err(e) => {
                proof {
                    assert(s@.subrange(0, s@.len() as int) =~= s@);
                }
                Err(RespError::ParseIntError)
            },
        }
    }
}

// ---------------------------------------------------------------------
// executable printing
// ---------------------------------------------------------------------

/// Append the decimal digits of `n`, most significant first.
pub fn push_uint(n: u64, out: &mut Vec<u8>)
    ensures
        final(out)@ == old(out)@ + dec_digits(n as int),
    decreases n,
{
    if n < 10 {
        out.push((48 + n) as u8);
        proof {
            assert(out@ =~= old(out)@ + dec_digits(n as int));
        }
    } else {
        push_uint(n / 10, out);
        out.push((48 + n % 10) as u8);
        proof {
            assert(out@ =~= old(out)@ + dec_digits(n as int));
        }
    }
}

/// Append the signed wire text of `n`: an explicit `+` or `-`, then the
/// digits of its magnitude.
pub fn push_int_text(n: i64, out: &mut Vec<u8>)
    ensures
        final(out)@ == old(out)@ + int_text(n as int),
{
    if n >= 0 {
        out.push(43);
        push_uint(n as u64, out);
        proof {
            assert(out@ =~= old(out)@ + int_text(n as int));
        }
    } else {
        out.push(45);
        let mag: u64 = (-(n as i128)) as u64;
        push_uint(mag, out);
        proof {
            assert(mag as int == -(n as int));
            assert(out@ =~= old(out)@ + int_text(n as int));
        }
    }
}

} // verus!
