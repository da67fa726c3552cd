//! Integer bookkeeping behind painting and hit-testing a field: which byte
//! range each shaped line covers, which parts of a selection fall on which
//! line, where the caret may sit, how the text splits into styled runs, and
//! how many rows the field asks for.
//!
//! Shaped lines are described by their byte lengths only (the length the text
//! shaper reports for each `'\n'`-separated logical line); geometry stays with
//! the renderer.
use std::ops::Range;

use vstd::prelude::*;
use vstd::utf8::encode_utf8;

use crate::str_ops::{byte_len, chars_of};
use crate::utf8_model::{lemma_encode_len, utf8_len};

verus! {

/// Whether the byte at `p` of the text's UTF-8 encoding is a line feed.
pub open spec fn newline_byte_at(text: Seq<char>, p: int) -> bool {
    0 <= p < encode_utf8(text).len() && encode_utf8(text)[p] == 10u8
}

/// The offset just past a logical line that starts at `byte_idx` and holds
/// `line_len` bytes: its trailing line feed is included when there is one.
pub open spec fn line_advance(text: Seq<char>, byte_idx: int, line_len: int) -> int {
    byte_idx + line_len + if byte_idx + line_len < utf8_len(text) && newline_byte_at(
        text,
        byte_idx + line_len,
    ) {
        1int
    } else {
        0int
    }
}

/// After processing a logical line, how many UTF-8 bytes it consumed in the
/// text, including its trailing `'\n'` if there is one.
pub fn advance_byte_idx(byte_idx: usize, line_len: usize, text: &str) -> (r: usize)
    requires
        byte_idx + line_len + 1 <= usize::MAX,
    ensures
        r == line_advance(text@, byte_idx as int, line_len as int),
{
    let bytes = text.as_bytes();
    proof {
        lemma_encode_len(text@);
    }
    let end = byte_idx + line_len;
    if end < bytes.len() && bytes[end] == 10u8 {
        end + 1
    } else {
        end
    }
}

/// The part of the selection `a..b` that lies on a line starting at `idx`
/// with `len` bytes, relative to the line start; empty parts are dropped.
pub open spec fn line_segment(a: int, b: int, idx: int, len: int) -> Option<(int, int)> {
    if a < idx + len && b > idx {
        let rs = if a > idx {
            a - idx
        } else {
            0
        };
        let re = if b < idx + len {
            b - idx
        } else {
            len
        };
        if rs != re {
            Some((rs, re))
        } else {
            None
        }
    } else {
        None
    }
}

/// `(line, start, end)` of each non-empty part of the selection `a..b`, line
/// by line, with line starts advancing past line feeds.
pub open spec fn selection_segments_from(
    text: Seq<char>,
    lens: Seq<usize>,
    a: int,
    b: int,
    line: int,
    idx: int,
) -> Seq<(usize, usize, usize)>
    decreases lens.len(),
{
    if lens.len() == 0 {
        Seq::empty()
    } else {
        let here = match line_segment(a, b, idx, lens[0] as int) {
            Some((rs, re)) => seq![(line as usize, rs as usize, re as usize)],
            None => Seq::empty(),
        };
        here + selection_segments_from(
            text,
            lens.drop_first(),
            a,
            b,
            line + 1,
            line_advance(text, idx, lens[0] as int),
        )
    }
}

/// Sum of the line lengths plus one byte per line for a separator: an upper
/// bound on every offset reached while walking the lines.
pub open spec fn lines_extent(lens: Seq<usize>) -> int
    decreases lens.len(),
{
    if lens.len() == 0 {
        0
    } else {
        lens[0] + 1 + lines_extent(lens.drop_first())
    }
}

proof fn lemma_lines_extent_skip(lens: Seq<usize>, i: int)
    requires
        0 <= i < lens.len(),
    ensures
        lines_extent(lens.skip(i)) == lens[i] + 1 + lines_extent(lens.skip(i + 1)),
        lines_extent(lens.skip(i + 1)) >= 0,
{
    assert(lens.skip(i).drop_first() =~= lens.skip(i + 1));
    lemma_lines_extent_nonneg(lens.skip(i + 1));
}

proof fn lemma_lines_extent_nonneg(lens: Seq<usize>)
    ensures
        lines_extent(lens) >= 0,
    decreases lens.len(),
{
    if lens.len() > 0 {
        lemma_lines_extent_nonneg(lens.drop_first());
    }
}

/// The parts of the selection `range` that fall on each shaped line, as
/// `(line index, start, end)` with offsets relative to the line start.
/// A collapsed selection has no parts.
pub fn selection_segments(line_lens: &[usize], text: &str, range: Range<usize>) -> (r: Vec<
    (usize, usize, usize),
>)
    requires
        lines_extent(line_lens@) <= usize::MAX,
    ensures
        range.start == range.end ==> r@.len() == 0,
        range.start != range.end ==> r@ == selection_segments_from(
            text@,
            line_lens@,
            range.start as int,
            range.end as int,
            0,
            0,
        ),
{
    let mut out: Vec<(usize, usize, usize)> = Vec::new();
    if range.start == range.end {
        return out;
    }
    let mut byte_idx: usize = 0;
    let mut i: usize = 0;
    assert(line_lens@.skip(0) =~= line_lens@);
    while i < line_lens.len()
        invariant
            i <= line_lens@.len(),
            range.start != range.end,
            byte_idx + lines_extent(line_lens@.skip(i as int)) <= usize::MAX,
            out@ + selection_segments_from(
                text@,
                line_lens@.skip(i as int),
                range.start as int,
                range.end as int,
                i as int,
                byte_idx as int,
            ) == selection_segments_from(
                text@,
                line_lens@,
                range.start as int,
                range.end as int,
                0,
                0,
            ),
        decreases line_lens@.len() - i,
    {
        let len = line_lens[i];
        proof {
            lemma_lines_extent_skip(line_lens@, i as int);
        }
        let ghost rest = line_lens@.skip(i as int);
        assert(rest[0] == len);
        assert(rest.drop_first() =~= line_lens@.skip(i + 1));
        let line_end = byte_idx + len;
        let ghost old_out = out@;
        if range.start < line_end && range.end > byte_idx {
            let rel_start = if range.start > byte_idx {
                range.start - byte_idx
            } else {
                0
            };
            let rel_end = if range.end < line_end {
                range.end - byte_idx
            } else {
                len
            };
            if rel_start != rel_end {
                out.push((i, rel_start, rel_end));
            }
        }
        let next = advance_byte_idx(byte_idx, len, text);
        proof {
            let here = match line_segment(range.start as int, range.end as int, byte_idx as int, len as int) {
                Some((rs, re)) => seq![(i as usize, rs as usize, re as usize)],
                None => Seq::empty(),
            };
            assert(out@ =~= old_out + here);
        }
        byte_idx = next;
        i = i + 1;
    }
    assert(line_lens@.skip(i as int) =~= Seq::<usize>::empty());
    assert(out@ =~= selection_segments_from(
        text@,
        line_lens@,
        range.start as int,
        range.end as int,
        0,
        0,
    ));
    out
}

/// The offset just past a logical line when every line but the last is
/// taken to end with a one-byte separator.
pub open spec fn line_advance_any(text: Seq<char>, byte_idx: int, line_len: int) -> int {
    byte_idx + line_len + if byte_idx + line_len < utf8_len(text) {
        1int
    } else {
        0int
    }
}

/// Next line start: past a line feed only (`check_newline`), or past any separator.
pub open spec fn next_line_start(text: Seq<char>, byte_idx: int, line_len: int, check_newline: bool) -> int {
    if check_newline {
        line_advance(text, byte_idx, line_len)
    } else {
        line_advance_any(text, byte_idx, line_len)
    }
}

/// `(line, offset within the line)` of each line the caret at `offset` could
/// be drawn on, in line order: every line that ends at or after the offset.
pub open spec fn caret_candidates_from(
    text: Seq<char>,
    lens: Seq<usize>,
    offset: int,
    line: int,
    idx: int,
    check_newline: bool,
) -> Seq<(usize, usize)>
    decreases lens.len(),
{
    if lens.len() == 0 {
        Seq::empty()
    } else {
        let end = idx + lens[0];
        let here = if offset <= end {
            seq![(line as usize, (if offset > idx { offset - idx } else { 0 }) as usize)]
        } else {
            Seq::empty()
        };
        here + caret_candidates_from(
            text,
            lens.drop_first(),
            offset,
            line + 1,
            next_line_start(text, idx, lens[0] as int, check_newline),
            check_newline,
        )
    }
}

/// Candidate lines for placing the offset `offset`: the renderer uses the
/// first one for which the shaped line can place the index. Line starts
/// advance past a line feed only when `check_newline`, past any one-byte
/// separator otherwise.
pub fn caret_candidates(line_lens: &[usize], text: &str, offset: usize, check_newline: bool) -> (r:
    Vec<(usize, usize)>)
    requires
        lines_extent(line_lens@) <= usize::MAX,
    ensures
        r@ == caret_candidates_from(text@, line_lens@, offset as int, 0, 0, check_newline),
{
    let len_text = byte_len(text);
    let mut out: Vec<(usize, usize)> = Vec::new();
    let mut byte_idx: usize = 0;
    let mut i: usize = 0;
    assert(line_lens@.skip(0) =~= line_lens@);
    while i < line_lens.len()
        invariant
            i <= line_lens@.len(),
            byte_idx + lines_extent(line_lens@.skip(i as int)) <= usize::MAX,
            out@ + caret_candidates_from(
                text@,
                line_lens@.skip(i as int),
                offset as int,
                i as int,
                byte_idx as int,
                check_newline,
            ) == caret_candidates_from(text@, line_lens@, offset as int, 0, 0, check_newline),
            len_text == utf8_len(text@),
        decreases line_lens@.len() - i,
    {
        let len = line_lens[i];
        proof {
            lemma_lines_extent_skip(line_lens@, i as int);
        }
        let ghost rest = line_lens@.skip(i as int);
        assert(rest[0] == len);
        assert(rest.drop_first() =~= line_lens@.skip(i + 1));
        let ghost old_out = out@;
        let line_end = byte_idx + len;
        if offset <= line_end {
            let rel = if offset > byte_idx {
                offset - byte_idx
            } else {
                0
            };
            out.push((i, rel));
        }
        let next = if check_newline {
            advance_byte_idx(byte_idx, len, text)
        } else if line_end < len_text {
            line_end + 1
        } else {
            line_end
        };
        proof {
            let here = if offset <= byte_idx + len {
                seq![(i as usize, (if offset > byte_idx { offset - byte_idx } else { 0 }) as usize)]
            } else {
                Seq::empty()
            };
            assert(out@ =~= old_out + here);
        }
        byte_idx = next;
        i = i + 1;
    }
    assert(line_lens@.skip(i as int) =~= Seq::<usize>::empty());
    assert(out@ =~= caret_candidates_from(text@, line_lens@, offset as int, 0, 0, check_newline));
    out
}

/// How the text splits into styled runs: `(length, underlined)`. Without a
/// marked range the whole text is one plain run; with one, the marked part is
/// underlined and the parts before and after it (when non-empty) are plain.
pub open spec fn text_runs_spec(len: int, marked: Option<Range<usize>>) -> Seq<(usize, bool)> {
    match marked {
        None => seq![(len as usize, false)],
        Some(m) => {
            let before = if m.start > 0 {
                seq![(m.start, false)]
            } else {
                Seq::empty()
            };
            let mid = seq![((if m.end > m.start { m.end - m.start } else { 0 }) as usize, true)];
            let after = if m.end < len {
                seq![((len - m.end) as usize, false)]
            } else {
                Seq::empty()
            };
            before + mid + after
        },
    }
}

/// Styled runs for painting `text` with an optional IME marked range.
pub fn text_run_lengths(text: &str, marked: Option<&Range<usize>>) -> (r: Vec<(usize, bool)>)
    ensures
        r@ == text_runs_spec(
            utf8_len(text@) as int,
            match marked {
                Some(m) => Some(*m),
                None => None,
            },
        ),
{
    let len = byte_len(text);
    let mut runs: Vec<(usize, bool)> = Vec::new();
    match marked {
        Some(m) => {
            if m.start > 0 {
                runs.push((m.start, false));
            }
            let mid = if m.end > m.start {
                m.end - m.start
            } else {
                0
            };
            runs.push((mid, true));
            if m.end < len {
                runs.push((len - m.end, false));
            }
            assert(runs@ =~= text_runs_spec(len as int, Some(*m)));
        },
        None => {
            runs.push((len, false));
            assert(runs@ =~= text_runs_spec(len as int, None));
        },
    }
    runs
}

/// Number of `'\n'`-separated logical lines of a text (at least one).
pub open spec fn logical_line_count(s: Seq<char>) -> nat
    decreases s.len(),
{
    if s.len() == 0 {
        1
    } else {
        logical_line_count(s.drop_last()) + if s.last() == '\n' {
            1nat
        } else {
            0nat
        }
    }
}

/// Rows the field requests: the logical line count, at least `min_lines`
/// (and at least one), at most `max(max_lines, min_lines)` when a maximum is set.
pub open spec fn visible_rows_spec(text: Seq<char>, min_lines: usize, max_lines: Option<usize>) -> int {
    let min = if min_lines >= 1 {
        min_lines as int
    } else {
        1
    };
    let lines = logical_line_count(text) as int;
    let rows = if lines > min {
        lines
    } else {
        min
    };
    match max_lines {
        Some(max) => {
            let cap = if max as int > min {
                max as int
            } else {
                min
            };
            if rows < cap {
                rows
            } else {
                cap
            }
        },
        None => rows,
    }
}

/// Rows the field requests for `text` under the given line limits.
pub fn visible_rows(text: &str, min_lines: usize, max_lines: Option<usize>) -> (r: usize)
    requires
        utf8_len(text@) < usize::MAX,
    ensures
        r == visible_rows_spec(text@, min_lines, max_lines),
{
    let chars = chars_of(text);
    proof {
        crate::utf8_model::lemma_offset_bounds(text@, text@.len() as int);
        crate::utf8_model::lemma_offset_zero_full(text@);
    }
    let mut lines: usize = 1;
    let mut i: usize = 0;
    assert(text@.take(0) =~= Seq::<char>::empty());
    while i < chars.len()
        invariant
            i <= chars@.len(),
            chars@ == text@,
            lines == logical_line_count(text@.take(i as int)),
            lines <= i + 1,
            chars@.len() < usize::MAX,
        decreases chars@.len() - i,
    {
        assert(text@.take(i + 1).drop_last() =~= text@.take(i as int));
        if chars[i] == '\n' {
            lines = lines + 1;
        }
        i = i + 1;
    }
    assert(text@.take(i as int) =~= text@);
    let min = if min_lines >= 1 {
        min_lines
    } else {
        1
    };
    let mut rows = if lines > min {
        lines
    } else {
        min
    };
    if let Some(max) = max_lines {
        let cap = if max > min {
            max
        } else {
            min
        };
        if rows > cap {
            rows = cap;
        }
    }
    rows
}

} // verus!
