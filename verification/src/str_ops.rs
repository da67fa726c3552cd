//! Verified building blocks over `str`/`String`: character views, byte
//! lengths, slicing at character boundaries and concatenation.
use vstd::prelude::*;
use vstd::string::*;
use vstd::utf8::*;

use crate::utf8_model::{
    byte_offset, lemma_encode_boundary, lemma_encode_injective, lemma_encode_len,
    lemma_encode_split, lemma_offset_mono, lemma_offset_skip, utf16_width, utf8_len, utf8_width,
};

verus! {

/// The characters of `s`, in order.
pub fn chars_of(s: &str) -> (v: Vec<char>)
    ensures
        v@ == s@,
{
    let mut v: Vec<char> = Vec::new();
    for c in it: s.chars()
        invariant
            v@ == it.seq().take(it.index() as int),
    {
        v.push(c);
    }
    v
}

/// Length of `s` in bytes.
pub fn byte_len(s: &str) -> (n: usize)
    ensures
        n == utf8_len(s@),
{
    let bytes = s.as_bytes();
    proof {
        lemma_encode_len(s@);
    }
    bytes.len()
}

/// Number of bytes in the UTF-8 encoding of `c`.
pub fn char_utf8_width(c: char) -> (w: usize)
    ensures
        w == utf8_width(c),
        1 <= w <= 4,
{
    let v = c as u32;
    if v < 0x80 {
        1
    } else if v < 0x800 {
        2
    } else if v < 0x10000 {
        3
    } else {
        4
    }
}

/// Number of UTF-16 code units needed for `c`.
pub fn char_utf16_width(c: char) -> (w: usize)
    ensures
        w == utf16_width(c),
        1 <= w <= 2,
{
    if (c as u32) < 0x10000 {
        1
    } else {
        2
    }
}

/// The part of `s` from the start of character `k` (at byte offset `b`) onward.
pub(crate) fn suffix_at<'a>(s: &'a str, b: usize, Ghost(k): Ghost<int>) -> (r: &'a str)
    requires
        0 <= k <= s@.len(),
        b == byte_offset(s@, k),
    ensures
        r@ == s@.skip(k),
{
    proof {
        lemma_encode_boundary(s@, k);
    }
    let (_, rest) = s.split_at(b);
    proof {
        lemma_encode_split(s@, k);
        lemma_encode_injective(rest@, s@.skip(k));
    }
    rest
}

/// The part of `s` before the start of character `k` (at byte offset `b`).
pub(crate) fn prefix_at<'a>(s: &'a str, b: usize, Ghost(k): Ghost<int>) -> (r: &'a str)
    requires
        0 <= k <= s@.len(),
        b == byte_offset(s@, k),
    ensures
        r@ == s@.take(k),
{
    proof {
        lemma_encode_boundary(s@, k);
    }
    let (first, _) = s.split_at(b);
    proof {
        lemma_encode_split(s@, k);
        lemma_encode_injective(first@, s@.take(k));
    }
    first
}

/// The characters of `s` with indices in `i..j`, located at byte offsets `a..b`.
pub(crate) fn slice_at<'a>(s: &'a str, a: usize, b: usize, Ghost(i): Ghost<int>, Ghost(j): Ghost<int>) -> (r: &'a str)
    requires
        0 <= i <= j <= s@.len(),
        a == byte_offset(s@, i),
        b == byte_offset(s@, j),
    ensures
        r@ == s@.subrange(i, j),
{
    proof {
        lemma_offset_skip(s@, i, j);
        lemma_offset_mono(s@, i, j);
    }
    let rest = suffix_at(s, a, Ghost(i));
    let r = prefix_at(rest, b - a, Ghost(j - i));
    assert(r@ =~= s@.subrange(i, j));
    r
}

/// A new string holding `a` followed by `b` and `c`.
pub fn concat3(a: &str, b: &str, c: &str) -> (r: String)
    ensures
        r@ == a@ + b@ + c@,
{
    let mut r = a.to_owned();
    r.append(b);
    r.append(c);
    r
}

} // verus!
