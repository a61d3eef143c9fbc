//! White space in UTF-8 text.
//!
//! A white-space character is one with the Unicode `White_Space` property.
//! Text is a byte sequence here, so the characters are recognised by their
//! UTF-8 encodings, which are one to three bytes long.

use vstd::prelude::*;
use vstd::slice::slice_subrange;

verus! {

/// The white-space characters that are encoded in one byte:
/// U+0009 to U+000D and U+0020.
pub open spec fn is_narrow_whitespace(b: u8) -> bool {
    (0x09 <= b && b <= 0x0D) || b == 0x20
}

/// The white-space characters that are encoded in two bytes:
/// U+0085 and U+00A0.
pub open spec fn is_medium_whitespace(a: u8, b: u8) -> bool {
    a == 0xC2 && (b == 0x85 || b == 0xA0)
}

/// The white-space characters that are encoded in three bytes: U+1680,
/// U+2000 to U+200A, U+2028, U+2029, U+202F, U+205F and U+3000.
pub open spec fn is_wide_whitespace(a: u8, b: u8, c: u8) -> bool {
    ||| a == 0xE1 && b == 0x9A && c == 0x80
    ||| a == 0xE2 && b == 0x80 && ((0x80 <= c && c <= 0x8A) || c == 0xA8 || c == 0xA9 || c == 0xAF)
    ||| a == 0xE2 && b == 0x81 && c == 0x9F
    ||| a == 0xE3 && b == 0x80 && c == 0x80
}

/// The number of bytes of the white-space character that starts at index `i`
/// of `s`, or 0 if none starts there.
pub open spec fn whitespace_len(s: Seq<u8>, i: int) -> int {
    if i < 0 || i >= s.len() {
        0
    } else if is_narrow_whitespace(s[i]) {
        1
    } else if i + 1 < s.len() && is_medium_whitespace(s[i], s[i + 1]) {
        2
    } else if i + 2 < s.len() && is_wide_whitespace(s[i], s[i + 1], s[i + 2]) {
        3
    } else {
        0
    }
}

/// The first index at or after `i` at which no white-space character starts,
/// going from one white-space character to the next.
pub open spec fn skip_whitespace(s: Seq<u8>, i: int) -> int
    decreases s.len() - i,
{
    if whitespace_len(s, i) > 0 {
        skip_whitespace(s, i + whitespace_len(s, i))
    } else {
        i
    }
}

/// `s` without its leading white space.
pub open spec fn spec_trim_start(s: Seq<u8>) -> Seq<u8> {
    s.subrange(skip_whitespace(s, 0), s.len() as int)
}

/// Whether `s` is empty or made of white space only.
pub open spec fn spec_is_blank(s: Seq<u8>) -> bool {
    skip_whitespace(s, 0) == s.len()
}

/// Skipping white space moves forward and stays inside the text.
pub proof fn lemma_skip_whitespace_bounds(s: Seq<u8>, i: int)
    requires
        0 <= i <= s.len(),
    ensures
        i <= skip_whitespace(s, i) <= s.len(),
        whitespace_len(s, skip_whitespace(s, i)) == 0,
        whitespace_len(s, i) > 0 ==> i < skip_whitespace(s, i),
    decreases s.len() - i,
{
    if whitespace_len(s, i) > 0 {
        lemma_skip_whitespace_bounds(s, i + whitespace_len(s, i));
    }
}

/// The length of the white-space character that starts at `s[i]`, 0 if none
/// does.
pub fn whitespace_len_at(s: &[u8], i: usize) -> (n: usize)
    ensures
        n == whitespace_len(s@, i as int),
        n <= 3,
        n > 0 ==> i + n <= s.len(),
{
    if i >= s.len() {
        return 0;
    }
    let a: u8 = s[i];
    if (0x09 <= a && a <= 0x0D) || a == 0x20 {
        return 1;
    }
    if s.len() - i >= 2 {
        let b: u8 = s[i + 1];
        if a == 0xC2 && (b == 0x85 || b == 0xA0) {
            return 2;
        }
        if s.len() - i >= 3 {
            let c: u8 = s[i + 2];
            if (a == 0xE1 && b == 0x9A && c == 0x80) || (a == 0xE2 && b == 0x80 && ((0x80 <= c
                && c <= 0x8A) || c == 0xA8 || c == 0xA9 || c == 0xAF)) || (a == 0xE2 && b == 0x81
                && c == 0x9F) || (a == 0xE3 && b == 0x80 && c == 0x80) {
                return 3;
            }
        }
    }
    0
}

/// The number of bytes of leading white space in `s`.
pub fn leading_whitespace(s: &[u8]) -> (n: usize)
    ensures
        n == skip_whitespace(s@, 0),
        n <= s.len(),
{
    let mut i: usize = 0;
    while i < s.len()
        invariant
            i <= s.len(),
            skip_whitespace(s@, 0) == skip_whitespace(s@, i as int),
        decreases s.len() - i,
    {
        let w: usize = whitespace_len_at(s, i);
        if w == 0 {
            return i;
        }
        i = i + w;
    }
    i
}

/// `s` without its leading white space.
pub fn trim_start<'a>(s: &'a [u8]) -> (rest: &'a [u8])
    ensures
        rest@ == spec_trim_start(s@),
{
    let n: usize = leading_whitespace(s);
    slice_subrange(s, n, s.len())
}

/// Whether `s` is empty or made of white space only.
pub fn is_blank(s: &[u8]) -> (blank: bool)
    ensures
        blank == spec_is_blank(s@),
{
    leading_whitespace(s) == s.len()
}

} // verus!
