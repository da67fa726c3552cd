//! Text transformations used by the editing state: newline normalization,
//! whitespace classification and splicing a byte range.
use vstd::prelude::*;

use crate::str_ops::{byte_len, char_utf8_width, chars_of, concat3, prefix_at, slice_at, suffix_at};
use crate::utf8_model::{
    byte_offset, chars_within, is_boundary, lemma_boundary_index, lemma_offset_bounds, lemma_offset_mono, lemma_offset_step, lemma_offset_zero_full,
    lemma_utf8_len_concat, splice, utf8_len,
};

verus! {

/// The character that replaces a line break: a space in single-line mode, `'\n'` otherwise.
pub open spec fn line_break(single_line: bool) -> char {
    if single_line {
        ' '
    } else {
        '\n'
    }
}

/// `s` with every `"\r\n"`, `'\r'` and `'\n'` replaced by one `line_break(single_line)`.
pub open spec fn normalize_newlines(s: Seq<char>, single_line: bool) -> Seq<char>
    decreases s.len(),
{
    if s.len() == 0 {
        Seq::empty()
    } else if s[0] == '\r' {
        let rest = if s.len() > 1 && s[1] == '\n' {
            s.skip(2)
        } else {
            s.skip(1)
        };
        seq![line_break(single_line)] + normalize_newlines(rest, single_line)
    } else if s[0] == '\n' {
        seq![line_break(single_line)] + normalize_newlines(s.skip(1), single_line)
    } else {
        seq![s[0]] + normalize_newlines(s.skip(1), single_line)
    }
}

/// Number of `"\r\n"` pairs in `s`, counted left to right without overlap.
pub open spec fn crlf_pairs(s: Seq<char>) -> nat
    decreases s.len(),
{
    if s.len() == 0 {
        0
    } else if s[0] == '\r' && s.len() > 1 && s[1] == '\n' {
        1 + crlf_pairs(s.skip(2))
    } else {
        crlf_pairs(s.skip(1))
    }
}

/// Unicode `White_Space` property, as `char::is_whitespace` documents it.
pub open spec fn is_white_space(c: char) -> bool {
    let v = c as u32;
    ||| 0x09 <= v <= 0x0D
    ||| v == 0x20
    ||| v == 0x85
    ||| v == 0xA0
    ||| v == 0x1680
    ||| 0x2000 <= v <= 0x200A
    ||| v == 0x2028
    ||| v == 0x2029
    ||| v == 0x202F
    ||| v == 0x205F
    ||| v == 0x3000
}

/// Whether `c` has the Unicode `White_Space` property.
pub fn is_white_space_char(c: char) -> (r: bool)
    ensures
        r == is_white_space(c),
{
    let v = c as u32;
    (0x09 <= v && v <= 0x0D) || v == 0x20 || v == 0x85 || v == 0xA0 || v == 0x1680 || (0x2000 <= v
        && v <= 0x200A) || v == 0x2028 || v == 0x2029 || v == 0x202F || v == 0x205F || v == 0x3000
}

/// Normalized text never holds a carriage return, and in single-line mode no line feed either.
pub proof fn lemma_normalize_no_breaks(s: Seq<char>, single_line: bool)
    ensures
        forall|i: int|
            0 <= i < normalize_newlines(s, single_line).len() ==> #[trigger] normalize_newlines(
                s,
                single_line,
            )[i] != '\r' && (single_line ==> normalize_newlines(s, single_line)[i] != '\n'),
        normalize_newlines(s, single_line).len() <= s.len(),
        utf8_len(normalize_newlines(s, single_line)) <= utf8_len(s),
    decreases s.len(),
{
    if s.len() > 0 {
        let rest = if s[0] == '\r' && s.len() > 1 && s[1] == '\n' {
            s.skip(2)
        } else {
            s.skip(1)
        };
        lemma_normalize_no_breaks(rest, single_line);
        let head = if s[0] == '\r' || s[0] == '\n' {
            line_break(single_line)
        } else {
            s[0]
        };
        let n = normalize_newlines(s, single_line);
        assert(n == seq![head] + normalize_newlines(rest, single_line));
        assert forall|i: int| 0 <= i < n.len() implies #[trigger] n[i] != '\r' && (single_line
            ==> n[i] != '\n') by {
            if i > 0 {
                assert(n[i] == normalize_newlines(rest, single_line)[i - 1]);
            }
        }
        lemma_utf8_len_concat(seq![head], normalize_newlines(rest, single_line));
        crate::utf8_model::lemma_utf8_len_single(head);
        crate::utf8_model::lemma_utf8_len_single(s[0]);
        assert(s =~= seq![s[0]] + s.skip(1));
        lemma_utf8_len_concat(seq![s[0]], s.skip(1));
        if s[0] == '\r' && s.len() > 1 && s[1] == '\n' {
            assert(s.skip(1) =~= seq![s[1]] + s.skip(2));
            lemma_utf8_len_concat(seq![s[1]], s.skip(2));
            crate::utf8_model::lemma_utf8_len_single(s[1]);
        }
    }
}

/// `text` with its line breaks normalized for the given mode.
pub fn normalize_newlines_str(text: &str, single_line: bool) -> (r: String)
    ensures
        r@ == normalize_newlines(text@, single_line),
{
    let chars = chars_of(text);
    let len = byte_len(text);
    let brk: &str = if single_line {
        " "
    } else {
        "\n"
    };
    proof {
        reveal_strlit(" ");
        reveal_strlit("\n");
        lemma_offset_zero_full(text@);
    }
    assert(brk@ == seq![line_break(single_line)]);
    let mut out = String::new();
    let mut i: usize = 0;
    let mut off: usize = 0;
    assert(text@.skip(0) =~= text@);
    while i < chars.len()
        invariant
            i <= chars@.len(),
            chars@ == text@,
            len == utf8_len(text@),
            off == byte_offset(text@, i as int),
            brk@ == seq![line_break(single_line)],
            out@ + normalize_newlines(text@.skip(i as int), single_line) == normalize_newlines(
                text@,
                single_line,
            ),
        decreases chars@.len() - i,
    {
        let c = chars[i];
        let w = char_utf8_width(c);
        proof {
            lemma_offset_step(text@, i as int);
            lemma_offset_bounds(text@, i + 1);
        }
        let ghost rest = text@.skip(i as int);
        assert(rest[0] == c);
        assert(rest.skip(1) =~= text@.skip(i + 1));
        if c == '\r' {
            out.append(brk);
            if i + 1 < chars.len() && chars[i + 1] == '\n' {
                proof {
                    lemma_offset_step(text@, i + 1);
                    lemma_offset_bounds(text@, i + 2);
                }
                assert(rest[1] == '\n');
                assert(rest.skip(2) =~= text@.skip(i + 2));
                off = off + w + 1;
                i = i + 2;
            } else {
                off = off + w;
                i = i + 1;
            }
            assert(out@ + normalize_newlines(text@.skip(i as int), single_line) =~= normalize_newlines(
                text@,
                single_line,
            ));
        } else if c == '\n' {
            out.append(brk);
            off = off + w;
            i = i + 1;
            assert(out@ + normalize_newlines(text@.skip(i as int), single_line) =~= normalize_newlines(
                text@,
                single_line,
            ));
        } else {
            let piece = slice_at(text, off, off + w, Ghost(i as int), Ghost(i + 1));
            assert(piece@ =~= seq![c]);
            out.append(piece);
            off = off + w;
            i = i + 1;
            assert(out@ + normalize_newlines(text@.skip(i as int), single_line) =~= normalize_newlines(
                text@,
                single_line,
            ));
        }
    }
    assert(text@.skip(i as int) =~= Seq::<char>::empty());
    assert(out@ =~= normalize_newlines(text@, single_line));
    out
}

/// A new string equal to `s` with the characters between byte offsets `a`
/// and `b` (character boundaries, `a <= b`) replaced by `ins`.
pub fn splice_str(s: &str, a: usize, b: usize, ins: &str) -> (r: String)
    requires
        is_boundary(s@, a as int),
        is_boundary(s@, b as int),
        a <= b,
    ensures
        r@ == splice(s@, a as int, b as int, ins@),
        utf8_len(r@) == a + utf8_len(ins@) + (utf8_len(s@) - b),
{
    proof {
        lemma_boundary_index(s@, a as int);
        lemma_boundary_index(s@, b as int);
        let i = chars_within(s@, a as int) as int;
        let j = chars_within(s@, b as int) as int;
        if i > j {
            lemma_offset_mono(s@, j, i);
        }
    }
    let ghost i = chars_within(s@, a as int) as int;
    let ghost j = chars_within(s@, b as int) as int;
    let pre = prefix_at(s, a, Ghost(i));
    let post = suffix_at(s, b, Ghost(j));
    let r = concat3(pre, ins, post);
    proof {
        lemma_utf8_len_concat(s@.take(i) + ins@, s@.skip(j));
        lemma_utf8_len_concat(s@.take(i), ins@);
        assert(s@ =~= s@.take(j) + s@.skip(j));
        lemma_utf8_len_concat(s@.take(j), s@.skip(j));
    }
    r
}

/// Normalization keeps one character per input character, except that each
/// `"\r\n"` pair becomes a single character.
pub proof fn lemma_normalize_len(s: Seq<char>, single_line: bool)
    ensures
        normalize_newlines(s, single_line).len() + crlf_pairs(s) == s.len(),
    decreases s.len(),
{
    if s.len() > 0 {
        if s[0] == '\r' && s.len() > 1 && s[1] == '\n' {
            lemma_normalize_len(s.skip(2), single_line);
        } else {
            lemma_normalize_len(s.skip(1), single_line);
        }
    }
}

/// Text without carriage returns, and without line feeds in single-line
/// mode, is left as it is by normalization.
proof fn lemma_normalize_fixed(s: Seq<char>, single_line: bool)
    requires
        forall|i: int| 0 <= i < s.len() ==> #[trigger] s[i] != '\r' && (single_line ==> s[i] != '\n'),
    ensures
        normalize_newlines(s, single_line) == s,
    decreases s.len(),
{
    if s.len() > 0 {
        assert forall|i: int| 0 <= i < s.skip(1).len() implies #[trigger] s.skip(1)[i] != '\r' && (
        single_line ==> s.skip(1)[i] != '\n') by {
            assert(s.skip(1)[i] == s[i + 1]);
        }
        lemma_normalize_fixed(s.skip(1), single_line);
        assert(s[0] != '\r');
        assert(seq![s[0]] + s.skip(1) =~= s);
    }
}

/// Normalizing twice gives the same text as normalizing once.
pub proof fn lemma_normalize_idempotent(s: Seq<char>, single_line: bool)
    ensures
        normalize_newlines(normalize_newlines(s, single_line), single_line) == normalize_newlines(
            s,
            single_line,
        ),
{
    lemma_normalize_no_breaks(s, single_line);
    lemma_normalize_fixed(normalize_newlines(s, single_line), single_line);
}

} // verus!
