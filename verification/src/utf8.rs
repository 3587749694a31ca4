//! UTF-8 validity of byte strings, as the encoding scheme defines it:
//! one-byte sequences below 0x80, and two- to four-byte sequences whose
//! lead byte fixes the count and the admissible ranges of the
//! continuation bytes.

use vstd::prelude::*;

verus! {

pub open spec fn is_cont(c: u8) -> bool {
    0x80 <= c <= 0xBF
}

/// The bytes of `s` from `pos` on form valid UTF-8.
pub open spec fn is_utf8_from(s: Seq<u8>, pos: int) -> bool
    decreases s.len() - pos,
{
    if pos < 0 {
        false
    } else if pos >= s.len() {
        true
    } else {
        let c = s[pos];
        if c < 0x80 {
            is_utf8_from(s, pos + 1)
        } else if 0xC2 <= c <= 0xDF {
            pos + 2 <= s.len() && is_cont(s[pos + 1]) && is_utf8_from(s, pos + 2)
        } else if c == 0xE0 {
            pos + 3 <= s.len() && 0xA0 <= s[pos + 1] <= 0xBF && is_cont(s[pos + 2])
                && is_utf8_from(s, pos + 3)
        } else if c == 0xED {
            pos + 3 <= s.len() && 0x80 <= s[pos + 1] <= 0x9F && is_cont(s[pos + 2])
                && is_utf8_from(s, pos + 3)
        } else if 0xE1 <= c <= 0xEF {
            pos + 3 <= s.len() && is_cont(s[pos + 1]) && is_cont(s[pos + 2]) && is_utf8_from(
                s,
                pos + 3,
            )
        } else if c == 0xF0 {
            pos + 4 <= s.len() && 0x90 <= s[pos + 1] <= 0xBF && is_cont(s[pos + 2]) && is_cont(
                s[pos + 3],
            ) && is_utf8_from(s, pos + 4)
        } else if 0xF1 <= c <= 0xF3 {
            pos + 4 <= s.len() && is_cont(s[pos + 1]) && is_cont(s[pos + 2]) && is_cont(
                s[pos + 3],
            ) && is_utf8_from(s, pos + 4)
        } else if c == 0xF4 {
            pos + 4 <= s.len() && 0x80 <= s[pos + 1] <= 0x8F && is_cont(s[pos + 2]) && is_cont(
                s[pos + 3],
            ) && is_utf8_from(s, pos + 4)
        } else {
            false
        }
    }
}

pub open spec fn is_utf8(s: Seq<u8>) -> bool {
    is_utf8_from(s, 0)
}

fn cont_ok(c: u8) -> (r: bool)
    ensures
        r == is_cont(c),
{
    0x80 <= c && c <= 0xBF
}

/// Whether `s` is valid UTF-8.
pub fn check_utf8(s: &[u8]) -> (r: bool)
    ensures
        r == is_utf8(s@),
{
    let n = s.len();
    let mut pos: usize = 0;
    while pos < n
        invariant
            0 <= pos <= n,
            n == s@.len(),
            is_utf8(s@) == is_utf8_from(s@, pos as int),
        decreases n - pos,
    {
        let c = s[pos];
        if c < 0x80 {
            pos = pos + 1;
        } else if 0xC2 <= c && c <= 0xDF {
            if n - pos < 2 || !cont_ok(s[pos + 1]) {
                return false;
            }
            pos = pos + 2;
        } else if c == 0xE0 {
            if n - pos < 3 || !(0xA0 <= s[pos + 1] && s[pos + 1] <= 0xBF) || !cont_ok(
                s[pos + 2],
            ) {
                return false;
            }
            pos = pos + 3;
        } else if c == 0xED {
            if n - pos < 3 || !(0x80 <= s[pos + 1] && s[pos + 1] <= 0x9F) || !cont_ok(
                s[pos + 2],
            ) {
                return false;
            }
            pos = pos + 3;
        } else if 0xE1 <= c && c <= 0xEF {
            if n - pos < 3 || !cont_ok(s[pos + 1]) || !cont_ok(s[pos + 2]) {
                return false;
            }
            pos = pos + 3;
        } else if c == 0xF0 {
            if n - pos < 4 || !(0x90 <= s[pos + 1] && s[pos + 1] <= 0xBF) || !cont_ok(s[pos + 2])
                || !cont_ok(s[pos + 3]) {
                return false;
            }
            pos = pos + 4;
        } else if 0xF1 <= c && c <= 0xF3 {
            if n - pos < 4 || !cont_ok(s[pos + 1]) || !cont_ok(s[pos + 2]) || !cont_ok(
                s[pos + 3],
            ) {
                return false;
            }
            pos = pos + 4;
        } else if c == 0xF4 {
            if n - pos < 4 || !(0x80 <= s[pos + 1] && s[pos + 1] <= 0x8F) || !cont_ok(s[pos + 2])
                || !cont_ok(s[pos + 3]) {
                return false;
            }
            pos = pos + 4;
        } else {
            return false;
        }
    }
    true
}

} // verus!
