//! Mathematical model of UTF-8 / UTF-16 offsets over a character sequence.
//!
//! Text is viewed as a `Seq<char>`. A byte offset is the length of the UTF-8
//! encoding of a prefix; a UTF-16 offset is the number of UTF-16 code units
//! of a prefix. Every public operation of the library is specified in terms
//! of the spec functions below.
use vstd::prelude::*;
use vstd::utf8::*;

verus! {

/// Number of bytes in the UTF-8 encoding of `c`.
pub open spec fn utf8_width(c: char) -> nat {
    if (c as u32) < 0x80 {
        1
    } else if (c as u32) < 0x800 {
        2
    } else if (c as u32) < 0x10000 {
        3
    } else {
        4
    }
}

/// Number of UTF-16 code units needed for `c`.
pub open spec fn utf16_width(c: char) -> nat {
    if (c as u32) < 0x10000 {
        1
    } else {
        2
    }
}

/// Length in bytes of the UTF-8 encoding of `s`.
pub open spec fn utf8_len(s: Seq<char>) -> nat
    decreases s.len(),
{
    if s.len() == 0 {
        0
    } else {
        utf8_len(s.drop_last()) + utf8_width(s.last())
    }
}

/// Length in UTF-16 code units of `s`.
pub open spec fn utf16_len(s: Seq<char>) -> nat
    decreases s.len(),
{
    if s.len() == 0 {
        0
    } else {
        utf16_len(s.drop_last()) + utf16_width(s.last())
    }
}

/// Byte offset at which the character with index `k` starts.
pub open spec fn byte_offset(s: Seq<char>, k: int) -> nat {
    utf8_len(s.take(k))
}

/// UTF-16 offset at which the character with index `k` starts.
pub open spec fn utf16_offset(s: Seq<char>, k: int) -> nat {
    utf16_len(s.take(k))
}

/// Number of leading characters whose encoding lies entirely within the first `b` bytes.
pub open spec fn chars_within(s: Seq<char>, b: int) -> nat
    decreases s.len(),
{
    if s.len() == 0 || b < utf8_width(s[0]) {
        0
    } else {
        1 + chars_within(s.drop_first(), b - utf8_width(s[0]))
    }
}

/// Number of characters that start strictly before byte `b`.
pub open spec fn chars_before(s: Seq<char>, b: int) -> nat
    decreases s.len(),
{
    if s.len() == 0 || b <= 0 {
        0
    } else {
        1 + chars_before(s.drop_first(), b - utf8_width(s[0]))
    }
}

/// Number of leading characters whose UTF-16 encoding lies entirely within the first `u` code units.
pub open spec fn chars_within16(s: Seq<char>, u: int) -> nat
    decreases s.len(),
{
    if s.len() == 0 || u < utf16_width(s[0]) {
        0
    } else {
        1 + chars_within16(s.drop_first(), u - utf16_width(s[0]))
    }
}

/// `b` is a byte offset at which a character starts, or the end of the text.
pub open spec fn is_boundary(s: Seq<char>, b: int) -> bool {
    0 <= b && byte_offset(s, chars_within(s, b) as int) == b
}

/// The greatest character boundary that is at most `b` (the text length if `b` is beyond it).
pub open spec fn floor_boundary(s: Seq<char>, b: int) -> nat {
    byte_offset(s, chars_within(s, b) as int)
}

/// The least character boundary that is at least `b` (the text length if `b` is beyond it).
pub open spec fn ceil_boundary(s: Seq<char>, b: int) -> nat {
    byte_offset(s, chars_before(s, b) as int)
}

/// The characters lying between two byte offsets.
pub open spec fn byte_slice(s: Seq<char>, a: int, b: int) -> Seq<char> {
    s.subrange(chars_within(s, a) as int, chars_within(s, b) as int)
}

/// `s` with the characters between byte offsets `a` and `b` replaced by `ins`.
pub open spec fn splice(s: Seq<char>, a: int, b: int, ins: Seq<char>) -> Seq<char> {
    s.take(chars_within(s, a) as int) + ins + s.skip(chars_within(s, b) as int)
}

pub proof fn lemma_utf8_len_concat(a: Seq<char>, b: Seq<char>)
    ensures
        utf8_len(a + b) == utf8_len(a) + utf8_len(b),
    decreases b.len(),
{
    if b.len() == 0 {
        assert(a + b =~= a);
    } else {
        assert((a + b).drop_last() =~= a + b.drop_last());
        assert((a + b).last() == b.last());
        lemma_utf8_len_concat(a, b.drop_last());
    }
}

pub proof fn lemma_utf16_len_concat(a: Seq<char>, b: Seq<char>)
    ensures
        utf16_len(a + b) == utf16_len(a) + utf16_len(b),
    decreases b.len(),
{
    if b.len() == 0 {
        assert(a + b =~= a);
    } else {
        assert((a + b).drop_last() =~= a + b.drop_last());
        assert((a + b).last() == b.last());
        lemma_utf16_len_concat(a, b.drop_last());
    }
}

pub proof fn lemma_utf8_len_single(c: char)
    ensures
        utf8_len(seq![c]) == utf8_width(c),
        utf16_len(seq![c]) == utf16_width(c),
{
    let e = Seq::<char>::empty();
    assert(seq![c].drop_last() =~= e);
    assert(seq![c].last() == c);
    assert(utf8_len(e) == 0);
    assert(utf16_len(e) == 0);
}

/// Stepping one character forward advances the offsets by its widths.
pub proof fn lemma_offset_step(s: Seq<char>, k: int)
    requires
        0 <= k < s.len(),
    ensures
        byte_offset(s, k + 1) == byte_offset(s, k) + utf8_width(s[k]),
        utf16_offset(s, k + 1) == utf16_offset(s, k) + utf16_width(s[k]),
{
    assert(s.take(k + 1).drop_last() =~= s.take(k));
    assert(s.take(k + 1).last() == s[k]);
}

pub proof fn lemma_offset_zero_full(s: Seq<char>)
    ensures
        byte_offset(s, 0) == 0,
        utf16_offset(s, 0) == 0,
        byte_offset(s, s.len() as int) == utf8_len(s),
        utf16_offset(s, s.len() as int) == utf16_len(s),
{
    assert(s.take(0) =~= Seq::<char>::empty());
    assert(s.take(s.len() as int) =~= s);
}

/// Offsets grow strictly with the character index.
pub proof fn lemma_offset_mono(s: Seq<char>, i: int, j: int)
    requires
        0 <= i <= j <= s.len(),
    ensures
        byte_offset(s, i) + (j - i) <= byte_offset(s, j),
        utf16_offset(s, i) + (j - i) <= utf16_offset(s, j),
        utf16_offset(s, j) - utf16_offset(s, i) <= byte_offset(s, j) - byte_offset(s, i),
    decreases j - i,
{
    if i < j {
        lemma_offset_mono(s, i, j - 1);
        lemma_offset_step(s, j - 1);
    }
}

pub proof fn lemma_offset_bounds(s: Seq<char>, k: int)
    requires
        0 <= k <= s.len(),
    ensures
        byte_offset(s, k) <= utf8_len(s),
        utf16_offset(s, k) <= utf16_len(s),
        utf16_len(s) <= utf8_len(s),
        k <= byte_offset(s, k),
{
    lemma_offset_zero_full(s);
    lemma_offset_mono(s, k, s.len() as int);
    lemma_offset_mono(s, 0, k);
    lemma_offset_mono(s, 0, s.len() as int);
}

/// Offsets within `s` seen from its first character onward.
pub proof fn lemma_offset_drop_first(s: Seq<char>, k: int)
    requires
        0 <= k < s.len(),
    ensures
        byte_offset(s, k + 1) == utf8_width(s[0]) + byte_offset(s.drop_first(), k),
        utf16_offset(s, k + 1) == utf16_width(s[0]) + utf16_offset(s.drop_first(), k),
{
    assert(s.take(k + 1) =~= seq![s[0]] + s.drop_first().take(k));
    lemma_utf8_len_concat(seq![s[0]], s.drop_first().take(k));
    lemma_utf16_len_concat(seq![s[0]], s.drop_first().take(k));
    lemma_utf8_len_single(s[0]);
}

/// Offsets within a suffix.
pub proof fn lemma_offset_skip(s: Seq<char>, i: int, j: int)
    requires
        0 <= i <= j <= s.len(),
    ensures
        byte_offset(s, j) == byte_offset(s, i) + byte_offset(s.skip(i), j - i),
        utf16_offset(s, j) == utf16_offset(s, i) + utf16_offset(s.skip(i), j - i),
{
    assert(s.take(j) =~= s.take(i) + s.skip(i).take(j - i));
    lemma_utf8_len_concat(s.take(i), s.skip(i).take(j - i));
    lemma_utf16_len_concat(s.take(i), s.skip(i).take(j - i));
}

/// Characterisation of `chars_within`.
pub proof fn lemma_chars_within(s: Seq<char>, b: int)
    ensures
        chars_within(s, b) <= s.len(),
        b >= 0 ==> byte_offset(s, chars_within(s, b) as int) <= b,
        chars_within(s, b) < s.len() ==> byte_offset(s, chars_within(s, b) as int + 1) > b,
    decreases s.len(),
{
    lemma_offset_zero_full(s);
    if s.len() == 0 {
    } else if b < utf8_width(s[0]) {
        lemma_offset_step(s, 0);
    } else {
        let t = s.drop_first();
        let b2 = b - utf8_width(s[0]);
        lemma_chars_within(t, b2);
        let k = chars_within(t, b2) as int;
        lemma_offset_drop_first(s, k);
        if k + 1 < s.len() {
            lemma_offset_drop_first(s, k + 1);
        }
    }
}

/// The value of `chars_within` is determined by the offsets around it.
pub proof fn lemma_chars_within_unique(s: Seq<char>, b: int, i: int)
    requires
        0 <= i <= s.len(),
        byte_offset(s, i) <= b,
        i < s.len() ==> byte_offset(s, i + 1) > b,
    ensures
        chars_within(s, b) == i,
{
    lemma_chars_within(s, b);
    let k = chars_within(s, b) as int;
    if k < i {
        lemma_offset_mono(s, k + 1, i);
    } else if k > i {
        lemma_offset_mono(s, i + 1, k);
    }
}

/// `chars_within` at a character's start offset is that character's index.
pub proof fn lemma_chars_within_offset(s: Seq<char>, j: int)
    requires
        0 <= j <= s.len(),
    ensures
        chars_within(s, byte_offset(s, j) as int) == j,
        is_boundary(s, byte_offset(s, j) as int),
{
    if j < s.len() {
        lemma_offset_step(s, j);
    }
    lemma_chars_within_unique(s, byte_offset(s, j) as int, j);
}

/// Characterisation of `chars_before`.
pub proof fn lemma_chars_before(s: Seq<char>, b: int)
    ensures
        chars_before(s, b) <= s.len(),
        chars_before(s, b) > 0 ==> byte_offset(s, chars_before(s, b) - 1) < b,
        chars_before(s, b) < s.len() ==> byte_offset(s, chars_before(s, b) as int) >= b,
    decreases s.len(),
{
    lemma_offset_zero_full(s);
    if s.len() == 0 || b <= 0 {
    } else {
        let t = s.drop_first();
        let b2 = b - utf8_width(s[0]);
        lemma_chars_before(t, b2);
        let k = chars_before(t, b2) as int;
        if k > 0 {
            lemma_offset_drop_first(s, k - 1);
        }
        if k + 1 < s.len() {
            lemma_offset_drop_first(s, k);
        }
    }
}

pub proof fn lemma_chars_before_unique(s: Seq<char>, b: int, i: int)
    requires
        0 <= i <= s.len(),
        i > 0 ==> byte_offset(s, i - 1) < b,
        i < s.len() ==> byte_offset(s, i) >= b,
    ensures
        chars_before(s, b) == i,
{
    lemma_chars_before(s, b);
    let k = chars_before(s, b) as int;
    if k < i {
        lemma_offset_mono(s, k, i - 1);
    } else if k > i {
        lemma_offset_mono(s, i, k - 1);
    }
}

/// Characterisation of `chars_within16`.
pub proof fn lemma_chars_within16(s: Seq<char>, u: int)
    ensures
        chars_within16(s, u) <= s.len(),
        u >= 0 ==> utf16_offset(s, chars_within16(s, u) as int) <= u,
        chars_within16(s, u) < s.len() ==> utf16_offset(s, chars_within16(s, u) as int + 1) > u,
    decreases s.len(),
{
    lemma_offset_zero_full(s);
    if s.len() == 0 {
    } else if u < utf16_width(s[0]) {
        lemma_offset_step(s, 0);
    } else {
        let t = s.drop_first();
        let u2 = u - utf16_width(s[0]);
        lemma_chars_within16(t, u2);
        let k = chars_within16(t, u2) as int;
        lemma_offset_drop_first(s, k);
        if k + 1 < s.len() {
            lemma_offset_drop_first(s, k + 1);
        }
    }
}

pub proof fn lemma_chars_within16_unique(s: Seq<char>, u: int, i: int)
    requires
        0 <= i <= s.len(),
        utf16_offset(s, i) <= u,
        i < s.len() ==> utf16_offset(s, i + 1) > u,
    ensures
        chars_within16(s, u) == i,
{
    lemma_chars_within16(s, u);
    let k = chars_within16(s, u) as int;
    if k < i {
        lemma_offset_mono(s, k + 1, i);
    } else if k > i {
        lemma_offset_mono(s, i + 1, k);
    }
}

/// Facts about floor/ceil boundaries.
pub proof fn lemma_floor_ceil(s: Seq<char>, b: int)
    ensures
        is_boundary(s, floor_boundary(s, b) as int),
        is_boundary(s, ceil_boundary(s, b) as int),
        floor_boundary(s, b) <= utf8_len(s),
        ceil_boundary(s, b) <= utf8_len(s),
        b >= 0 ==> floor_boundary(s, b) <= b,
        b <= utf8_len(s) ==> b <= ceil_boundary(s, b),
        b >= utf8_len(s) ==> floor_boundary(s, b) == utf8_len(s),
        b >= utf8_len(s) ==> ceil_boundary(s, b) == utf8_len(s),
        is_boundary(s, b) ==> floor_boundary(s, b) == b && ceil_boundary(s, b) == b,
{
    lemma_chars_within(s, b);
    lemma_chars_before(s, b);
    let k = chars_within(s, b) as int;
    let m = chars_before(s, b) as int;
    lemma_chars_within_offset(s, k);
    lemma_chars_within_offset(s, m);
    lemma_offset_bounds(s, k);
    lemma_offset_bounds(s, m);
    lemma_offset_zero_full(s);
    if b >= utf8_len(s) {
        if k < s.len() {
            lemma_offset_mono(s, k + 1, s.len() as int);
        }
        if m < s.len() {
            lemma_offset_mono(s, m + 1, s.len() as int);
            lemma_offset_step(s, m);
        }
    }
    if is_boundary(s, b) {
        if k > 0 {
            lemma_offset_step(s, k - 1);
        }
        lemma_chars_before_unique(s, b, k);
    }
}

/// A boundary lies at a character start: it is the offset of some index.
pub proof fn lemma_boundary_index(s: Seq<char>, b: int)
    requires
        is_boundary(s, b),
    ensures
        chars_within(s, b) <= s.len(),
        byte_offset(s, chars_within(s, b) as int) == b,
        b <= utf8_len(s),
{
    lemma_chars_within(s, b);
    lemma_offset_bounds(s, chars_within(s, b) as int);
}

/* Connection with vstd's UTF-8 encoding. */

pub proof fn lemma_encode_scalar_len(c: char)
    ensures
        encode_scalar(c as u32).len() == utf8_width(c),
{
    char_is_scalar(c);
}

pub proof fn lemma_encode_concat(a: Seq<char>, b: Seq<char>)
    ensures
        encode_utf8(a + b) == encode_utf8(a) + encode_utf8(b),
    decreases a.len(),
{
    if a.len() == 0 {
        assert(a + b =~= b);
        assert(encode_utf8(a) =~= Seq::<u8>::empty());
        assert(encode_utf8(a) + encode_utf8(b) =~= encode_utf8(b));
    } else {
        assert((a + b).drop_first() =~= a.drop_first() + b);
        assert((a + b)[0] == a[0]);
        lemma_encode_concat(a.drop_first(), b);
        assert(encode_utf8(a + b) =~= encode_scalar(a[0] as u32) + (encode_utf8(a.drop_first())
            + encode_utf8(b)));
    }
}

pub proof fn lemma_encode_len(s: Seq<char>)
    ensures
        encode_utf8(s).len() == utf8_len(s),
    decreases s.len(),
{
    if s.len() > 0 {
        lemma_encode_len(s.drop_first());
        lemma_encode_scalar_len(s[0]);
        assert(s =~= seq![s[0]] + s.drop_first());
        lemma_utf8_len_concat(seq![s[0]], s.drop_first());
        lemma_utf8_len_single(s[0]);
    }
}

/// Every character start offset is a char boundary of the encoded bytes.
pub proof fn lemma_encode_boundary(s: Seq<char>, k: int)
    requires
        0 <= k <= s.len(),
    ensures
        is_char_boundary(encode_utf8(s), byte_offset(s, k) as int),
    decreases k,
{
    broadcast use encode_utf8_valid_utf8;

    lemma_offset_zero_full(s);
    if k > 0 {
        let bytes = encode_utf8(s);
        lemma_offset_bounds(s, k);
        lemma_encode_len(s);
        encode_utf8_first_scalar(s);
        lemma_encode_scalar_len(s[0]);
        assert(pop_first_scalar(bytes) =~= encode_utf8(s.drop_first()));
        lemma_offset_drop_first(s, k - 1);
        lemma_encode_boundary(s.drop_first(), k - 1);
    }
}

/// The bytes of a suffix of the text are the bytes after that suffix's start offset.
pub proof fn lemma_encode_split(s: Seq<char>, k: int)
    requires
        0 <= k <= s.len(),
    ensures
        encode_utf8(s).subrange(0, byte_offset(s, k) as int) == encode_utf8(s.take(k)),
        encode_utf8(s).subrange(byte_offset(s, k) as int, encode_utf8(s).len() as int)
            == encode_utf8(s.skip(k)),
{
    assert(s =~= s.take(k) + s.skip(k));
    lemma_encode_concat(s.take(k), s.skip(k));
    lemma_encode_len(s.take(k));
    assert(encode_utf8(s).subrange(0, byte_offset(s, k) as int) =~= encode_utf8(s.take(k)));
    assert(encode_utf8(s).subrange(byte_offset(s, k) as int, encode_utf8(s).len() as int)
        =~= encode_utf8(s.skip(k)));
}

/// A character sequence is determined by its encoding.
pub proof fn lemma_encode_injective(a: Seq<char>, b: Seq<char>)
    requires
        encode_utf8(a) == encode_utf8(b),
    ensures
        a == b,
{
    encode_utf8_decode_utf8(a);
    encode_utf8_decode_utf8(b);
}

} // verus!
