//! UTF-8 ↔ UTF-16 offset conversions and character-boundary clamping.
//!
//! Text is stored with UTF-8 byte offsets; platform text input speaks UTF-16
//! code units. Conversion happens only at that boundary.
use std::ops::Range;

use vstd::prelude::*;

use crate::str_ops::{byte_len, char_utf16_width, char_utf8_width, chars_of};
use crate::utf8_model::{
    byte_offset, ceil_boundary, chars_before, chars_within, chars_within16, floor_boundary,
    is_boundary, lemma_chars_before_unique, lemma_chars_within16_unique, lemma_chars_within_offset,
    lemma_chars_within_unique, lemma_floor_ceil, lemma_offset_bounds, lemma_offset_mono,
    lemma_offset_step, lemma_offset_zero_full, utf16_len, utf16_offset, utf8_len,
};

verus! {

/// The UTF-16 offset corresponding to byte offset `b`: the UTF-16 length of
/// the characters that start before `b`.
pub open spec fn utf8_to_utf16_spec(s: Seq<char>, b: int) -> nat {
    utf16_offset(s, chars_before(s, b) as int)
}

/// The byte offset corresponding to UTF-16 offset `u`: the byte length of the
/// longest prefix whose UTF-16 length is at most `u`.
pub open spec fn utf16_to_utf8_spec(s: Seq<char>, u: int) -> nat {
    byte_offset(s, chars_within16(s, u) as int)
}

/// Length of `s` in UTF-16 code units.
fn utf16_count(chars: &Vec<char>) -> (n: usize)
    requires
        utf8_len(chars@) <= usize::MAX,
    ensures
        n == utf16_len(chars@),
{
    let mut i: usize = 0;
    let mut n: usize = 0;
    proof {
        lemma_offset_zero_full(chars@);
        lemma_offset_bounds(chars@, chars@.len() as int);
    }
    while i < chars.len()
        invariant
            i <= chars@.len(),
            n == utf16_offset(chars@, i as int),
            utf8_len(chars@) <= usize::MAX,
        decreases chars@.len() - i,
    {
        proof {
            lemma_offset_step(chars@, i as int);
            lemma_offset_bounds(chars@, i + 1);
        }
        n = n + char_utf16_width(chars[i]);
        i = i + 1;
    }
    proof {
        lemma_offset_zero_full(chars@);
    }
    n
}

/// Convert a UTF-8 byte offset into the corresponding UTF-16 code unit offset.
pub fn utf8_offset_to_utf16(text: &str, utf8_offset: usize) -> (r: usize)
    ensures
        r == utf8_to_utf16_spec(text@, utf8_offset as int),
{
    let chars = chars_of(text);
    let len = byte_len(text);
    proof {
        lemma_offset_zero_full(chars@);
    }
    if utf8_offset >= len {
        proof {
            lemma_floor_ceil(text@, utf8_offset as int);
            if text@.len() > 0 {
                lemma_offset_step(text@, text@.len() - 1);
            }
            lemma_chars_before_unique(text@, utf8_offset as int, text@.len() as int);
            lemma_offset_bounds_all(text@);
        }
        return utf16_count(&chars);
    }
    let mut utf16: usize = 0;
    let mut utf8_seen: usize = 0;
    let mut i: usize = 0;
    while i < chars.len()
        invariant
            i <= chars@.len(),
            chars@ == text@,
            len == utf8_len(text@),
            utf8_seen == byte_offset(text@, i as int),
            utf16 == utf16_offset(text@, i as int),
            i > 0 ==> byte_offset(text@, i - 1) < utf8_offset,
        ensures
            i <= chars@.len(),
            utf16 == utf16_offset(text@, i as int),
            i > 0 ==> byte_offset(text@, i - 1) < utf8_offset,
            i < chars@.len() ==> byte_offset(text@, i as int) >= utf8_offset,
        decreases chars@.len() - i,
    {
        if utf8_seen >= utf8_offset {
            break;
        }
        proof {
            lemma_offset_step(text@, i as int);
            lemma_offset_bounds(text@, i + 1);
            lemma_offset_mono(text@, 0, i + 1);
        }
        utf8_seen = utf8_seen + char_utf8_width(chars[i]);
        utf16 = utf16 + char_utf16_width(chars[i]);
        i = i + 1;
    }
    proof {
        lemma_chars_before_unique(text@, utf8_offset as int, i as int);
    }
    utf16
}

proof fn lemma_offset_bounds_all(s: Seq<char>)
    ensures
        utf16_len(s) <= utf8_len(s),
{
    lemma_offset_bounds(s, 0);
}

/// Convert a UTF-16 code unit offset into the corresponding UTF-8 byte offset.
///
/// If the offset falls inside a surrogate pair or beyond the end of the text,
/// the result is clamped to the nearest character boundary before it.
pub fn utf16_offset_to_utf8(text: &str, utf16_offset_in: usize) -> (r: usize)
    ensures
        r == utf16_to_utf8_spec(text@, utf16_offset_in as int),
        is_boundary(text@, r as int),
        r <= utf8_len(text@),
{
    let chars = chars_of(text);
    let len = byte_len(text);
    let mut utf16_seen: usize = 0;
    let mut utf8_seen: usize = 0;
    let mut i: usize = 0;
    proof {
        lemma_offset_zero_full(text@);
    }
    while i < chars.len()
        invariant
            i <= chars@.len(),
            chars@ == text@,
            len == utf8_len(text@),
            utf8_seen == byte_offset(text@, i as int),
            utf16_seen == utf16_offset(text@, i as int),
            utf16_seen <= utf16_offset_in,
        ensures
            i <= chars@.len(),
            utf8_seen == byte_offset(text@, i as int),
            utf16_seen == utf16_offset(text@, i as int),
            utf16_seen <= utf16_offset_in,
            i < chars@.len() ==> utf16_offset(text@, i + 1) > utf16_offset_in,
        decreases chars@.len() - i,
    {
        proof {
            lemma_offset_step(text@, i as int);
            lemma_offset_bounds(text@, i + 1);
        }
        let w16 = char_utf16_width(chars[i]);
        if utf16_seen + w16 > utf16_offset_in {
            break;
        }
        utf16_seen = utf16_seen + w16;
        utf8_seen = utf8_seen + char_utf8_width(chars[i]);
        i = i + 1;
    }
    proof {
        if i < chars@.len() {
            lemma_offset_step(text@, i as int);
        }
        lemma_chars_within16_unique(text@, utf16_offset_in as int, i as int);
        lemma_chars_within_offset(text@, i as int);
        lemma_offset_bounds(text@, i as int);
    }
    utf8_seen
}

/// Convert a UTF-8 byte range to a UTF-16 code-unit range.
pub fn utf8_range_to_utf16(text: &str, range: Range<usize>) -> (r: Range<usize>)
    ensures
        r.start == utf8_to_utf16_spec(text@, range.start as int),
        r.end == utf8_to_utf16_spec(text@, range.end as int),
{
    let start = utf8_offset_to_utf16(text, range.start);
    let end = utf8_offset_to_utf16(text, range.end);
    start..end
}

/// Convert a UTF-16 code-unit range to a UTF-8 byte range.
pub fn utf16_range_to_utf8(text: &str, range: Range<usize>) -> (r: Range<usize>)
    ensures
        r.start == utf16_to_utf8_spec(text@, range.start as int),
        r.end == utf16_to_utf8_spec(text@, range.end as int),
        is_boundary(text@, r.start as int),
        is_boundary(text@, r.end as int),
{
    let start = utf16_offset_to_utf8(text, range.start);
    let end = utf16_offset_to_utf8(text, range.end);
    start..end
}

/// Clamp a UTF-8 byte offset to the nearest char boundary at or before it.
pub fn floor_char_boundary(text: &str, offset: usize) -> (r: usize)
    ensures
        r == floor_boundary(text@, offset as int),
        is_boundary(text@, r as int),
        r <= offset,
        r <= utf8_len(text@),
{
    let len = byte_len(text);
    proof {
        lemma_floor_ceil(text@, offset as int);
    }
    if offset >= len {
        return len;
    }
    let chars = chars_of(text);
    let mut i: usize = 0;
    let mut o: usize = 0;
    proof {
        lemma_offset_zero_full(text@);
    }
    while i < chars.len()
        invariant
            i <= chars@.len(),
            chars@ == text@,
            o == byte_offset(text@, i as int),
            o <= offset,
            offset < len,
            len == utf8_len(text@),
        ensures
            i <= chars@.len(),
            o == byte_offset(text@, i as int),
            o <= offset,
            i < chars@.len() ==> byte_offset(text@, i + 1) > offset,
        decreases chars@.len() - i,
    {
        proof {
            lemma_offset_step(text@, i as int);
            lemma_offset_bounds(text@, i + 1);
        }
        let w = char_utf8_width(chars[i]);
        if o + w > offset {
            break;
        }
        o = o + w;
        i = i + 1;
    }
    proof {
        if i < chars@.len() {
            lemma_offset_step(text@, i as int);
        }
        lemma_chars_within_unique(text@, offset as int, i as int);
    }
    o
}

/// Clamp a UTF-8 byte offset to the nearest char boundary at or after it.
pub fn ceil_char_boundary(text: &str, offset: usize) -> (r: usize)
    ensures
        r == ceil_boundary(text@, offset as int),
        is_boundary(text@, r as int),
        r <= utf8_len(text@),
        offset <= utf8_len(text@) ==> offset <= r,
{
    let len = byte_len(text);
    proof {
        lemma_floor_ceil(text@, offset as int);
    }
    if offset >= len {
        return len;
    }
    let chars = chars_of(text);
    let mut i: usize = 0;
    let mut o: usize = 0;
    proof {
        lemma_offset_zero_full(text@);
    }
    while i < chars.len()
        invariant
            i <= chars@.len(),
            chars@ == text@,
            o == byte_offset(text@, i as int),
            i > 0 ==> byte_offset(text@, i - 1) < offset,
            offset < len,
            len == utf8_len(text@),
        ensures
            i <= chars@.len(),
            o == byte_offset(text@, i as int),
            i > 0 ==> byte_offset(text@, i - 1) < offset,
            i < chars@.len() ==> byte_offset(text@, i as int) >= offset,
        decreases chars@.len() - i,
    {
        if o >= offset {
            break;
        }
        proof {
            lemma_offset_step(text@, i as int);
            lemma_offset_bounds(text@, i + 1);
        }
        o = o + char_utf8_width(chars[i]);
        i = i + 1;
    }
    proof {
        lemma_chars_before_unique(text@, offset as int, i as int);
    }
    o
}

/// Clamp a UTF-8 byte range so both endpoints sit on char boundaries.
///
/// Both endpoints are floored to the nearest preceding char boundary.
pub fn clamp_range(text: &str, range: &Range<usize>) -> (r: Range<usize>)
    ensures
        r.start == floor_boundary(text@, range.start as int),
        r.end == floor_boundary(text@, range.end as int),
        is_boundary(text@, r.start as int),
        is_boundary(text@, r.end as int),
        r.start <= range.start,
        r.end <= range.end,
{
    let start = floor_char_boundary(text, range.start);
    let end = floor_char_boundary(text, range.end);
    start..end
}

/// A converted UTF-16 offset lies on a character boundary within the text.
pub proof fn lemma_utf16_range_is_boundary(s: Seq<char>, u: int)
    ensures
        is_boundary(s, utf16_to_utf8_spec(s, u) as int),
        utf16_to_utf8_spec(s, u) <= utf8_len(s),
{
    crate::utf8_model::lemma_chars_within16(s, u);
    let k = chars_within16(s, u) as int;
    lemma_chars_within_offset(s, k);
    lemma_offset_bounds(s, k);
}

/// Converting a character boundary to UTF-16 and back gives the same offset.
pub proof fn lemma_utf8_utf16_round_trip(s: Seq<char>, b: int)
    requires
        is_boundary(s, b),
    ensures
        utf16_to_utf8_spec(s, utf8_to_utf16_spec(s, b) as int) == b,
{
    let k = chars_within(s, b) as int;
    lemma_floor_ceil(s, b);
    crate::utf8_model::lemma_chars_before(s, b);
    crate::utf8_model::lemma_chars_within(s, b);
    crate::utf8_model::lemma_boundary_index(s, b);
    // ceil_boundary(s, b) == b, so chars_before(s, b) indexes the character starting at b
    lemma_chars_within_offset(s, chars_before(s, b) as int);
    let m = chars_before(s, b) as int;
    if m < s.len() {
        lemma_offset_step(s, m);
    }
    lemma_chars_within16_unique(s, utf16_offset(s, m) as int, m);
}

/// Converting a UTF-16 offset to UTF-8 and back never moves past it, and is
/// exact when the offset does not split a surrogate pair and lies within the text.
pub proof fn lemma_utf16_utf8_round_trip(s: Seq<char>, u: int)
    requires
        u >= 0,
    ensures
        utf8_to_utf16_spec(s, utf16_to_utf8_spec(s, u) as int) <= u,
        (exists|k: int| 0 <= k <= s.len() && utf16_offset(s, k) == u) ==> utf8_to_utf16_spec(
            s,
            utf16_to_utf8_spec(s, u) as int,
        ) == u,
{
    crate::utf8_model::lemma_chars_within16(s, u);
    let k = chars_within16(s, u) as int;
    lemma_chars_within_offset(s, k);
    if k > 0 {
        lemma_offset_step(s, k - 1);
    }
    lemma_chars_before_unique(s, byte_offset(s, k) as int, k);
    if exists|j: int| 0 <= j <= s.len() && utf16_offset(s, j) == u {
        let j = choose|j: int| 0 <= j <= s.len() && utf16_offset(s, j) == u;
        if j < s.len() {
            lemma_offset_step(s, j);
        }
        lemma_chars_within16_unique(s, u, j);
    }
}

} // verus!
