//! Selection — caret/anchor/reversed model with grapheme, word, and line movement.
//!
//! A single `Selection` covers both the collapsed caret and an extended range:
//!
//! - `head`: the actively moving end of the selection (caret when collapsed).
//! - `anchor`: the fixed end of the selection (`None` for a freshly placed caret).
//! - `reversed`: whether `head < anchor` (the selection was extended backwards).
//!
//! `range_bounds()` always returns a normalized range with `start <= end`.
use std::ops::Range;

use vstd::prelude::*;

use crate::segmentation::{
    first_start_after, grapheme_start_offsets, grapheme_starts, last_start_before,
    lemma_first_start_after, lemma_last_start_before, lemma_word_start_after,
    lemma_word_start_before, next_start, next_word_start, previous_start, previous_word_start,
    word_offsets, word_spans, word_start_after, word_start_before,
};
use crate::str_ops::{byte_len, char_utf8_width, chars_of};
use crate::utf8_model::{
    byte_offset, chars_within, is_boundary, lemma_boundary_index, lemma_chars_within_offset,
    lemma_floor_ceil, lemma_offset_bounds, lemma_offset_step, lemma_offset_zero_full, utf8_len,
};

verus! {

/// The abstract value of a selection: `(head, anchor, reversed)`.
pub type SelectionModel = (usize, Option<usize>, bool);

#[derive(Debug, PartialEq, Eq, Structural)]
pub struct Selection {
    head: usize,
    anchor: Option<usize>,
    reversed: bool,
}

impl View for Selection {
    type V = SelectionModel;

    closed spec fn view(&self) -> SelectionModel {
        (self.head, self.anchor, self.reversed)
    }
}

/// Normalized `(start, end)` bounds of a selection model.
pub open spec fn model_bounds(m: SelectionModel) -> (usize, usize) {
    match m.1 {
        Some(a) => if a <= m.0 {
            (a, m.0)
        } else {
            (m.0, a)
        },
        None => (m.0, m.0),
    }
}

/// A selection is collapsed when it has no anchor or its anchor is its head.
pub open spec fn model_collapsed(m: SelectionModel) -> bool {
    match m.1 {
        Some(a) => a == m.0,
        None => true,
    }
}

/// The selection `set_range(start, end)` produces: `start` is the fixed end
/// and `end` the moving one; equal ends give a plain caret.
pub open spec fn model_range(start: usize, end: usize) -> SelectionModel {
    if start == end {
        (start, None, false)
    } else {
        (end, Some(start), end < start)
    }
}

/// The selection `select_to(offset)` produces from `m`: the anchor (the head
/// of a plain caret) stays fixed and the head moves to `offset`; moving the
/// head onto the anchor collapses the selection.
pub open spec fn model_select_to(m: SelectionModel, offset: usize) -> SelectionModel {
    let head = m.0;
    let anchor = match m.1 {
        Some(a) => a,
        None => head,
    };
    if offset == anchor && offset == head {
        (head, Some(anchor), m.2)
    } else if offset == anchor {
        (offset, None, false)
    } else {
        (offset, Some(anchor), offset < anchor)
    }
}

/// The selection an extending movement leaves when it arrives at `n`, having
/// started from the start of the selection `m` (from the head of a caret).
/// A caret is extended as by `select_to`. Otherwise, with `lo..hi` the
/// selection's range: arriving at `lo` collapses the selection there (or
/// leaves an empty one as it is); before `lo`, the range becomes `n..lo`;
/// inside a forward selection it becomes `n..hi`, reversed; past `hi` it
/// becomes `hi..n` for a reversed selection; otherwise `lo..n`, forward.
pub open spec fn model_extend(m: SelectionModel, n: usize) -> SelectionModel {
    match m.1 {
        None => model_select_to(m, n),
        Some(_) => {
            let (lo, hi) = model_bounds(m);
            if n == lo && n == hi {
                m
            } else if n == lo {
                (lo, None, false)
            } else if n < lo {
                (n, Some(lo), true)
            } else if n < hi && !m.2 {
                (n, Some(hi), true)
            } else if n > hi && m.2 {
                (n, Some(hi), false)
            } else {
                (n, Some(lo), false)
            }
        },
    }
}

/// The direction flag agrees with the ends: reversed exactly when the head
/// lies before the anchor.
pub open spec fn direction_consistent(m: SelectionModel) -> bool {
    m.2 == (match m.1 {
        Some(a) => m.0 < a,
        None => false,
    })
}

/// Carets and explicit ranges have a consistent direction flag, and extending
/// a selection keeps it consistent: `reversed` always means `head < anchor`.
pub proof fn lemma_direction_consistent(m: SelectionModel, offset: usize, start: usize, end: usize)
    requires
        direction_consistent(m),
    ensures
        direction_consistent((offset, None::<usize>, false)),
        direction_consistent(model_range(start, end)),
        direction_consistent(model_select_to(m, offset)),
        direction_consistent(model_extend(m, offset)),
{
}

/// An extending movement always leaves the head where the movement arrived.
/// A caret grows into the range between its offset and `n`; a selection of
/// any direction extended before its start becomes `n..lo`; a forward
/// selection extended to or past its end keeps its start: `lo..n`.
pub proof fn lemma_extend_law(m: SelectionModel, n: usize)
    requires
        direction_consistent(m),
    ensures
        model_extend(m, n).0 == n,
        direction_consistent(model_extend(m, n)),
        m.1 is None ==> model_bounds(model_extend(m, n)) == (if n <= m.0 {
            (n, m.0)
        } else {
            (m.0, n)
        }),
        m.1 is Some && n < model_bounds(m).0 ==> model_bounds(model_extend(m, n)) == (
            n,
            model_bounds(m).0,
        ),
        m.1 is Some && !m.2 && n >= model_bounds(m).1 ==> model_bounds(model_extend(m, n)) == (
            model_bounds(m).0,
            n,
        ),
{
}

/// A selection whose ends both lie on character boundaries of `text`.
pub open spec fn model_within(m: SelectionModel, text: Seq<char>) -> bool {
    &&& is_boundary(text, m.0 as int)
    &&& (m.1 matches Some(a) ==> is_boundary(text, a as int))
}

impl Selection {
    /// Build a collapsed caret at `offset` (no anchor, no extension).
    pub fn caret(offset: usize) -> (s: Self)
        ensures
            s@ == (offset, None::<usize>, false),
    {
        Self { head: offset, anchor: None, reversed: false }
    }

    /// Build a selection from `start` (the fixed end) to `end` (the moving
    /// end); it is reversed when `end < start`.
    pub fn range(start: usize, end: usize) -> (s: Self)
        ensures
            s@ == (end, Some(start), end < start),
    {
        Self { head: end, anchor: Some(start), reversed: end < start }
    }

    /// The moving side of the selection.
    pub fn head(&self) -> (r: usize)
        ensures
            r == self@.0,
    {
        self.head
    }

    /// The fixed side of the selection, or `None` for a collapsed caret.
    pub fn anchor(&self) -> (r: Option<usize>)
        ensures
            r == self@.1,
    {
        self.anchor
    }

    /// True if the selection was extended backwards (`head < anchor`).
    pub fn is_reversed(&self) -> (r: bool)
        ensures
            r == self@.2,
    {
        self.reversed
    }

    /// True if the selection is collapsed to a single offset.
    pub fn is_collapsed(&self) -> (r: bool)
        ensures
            r == model_collapsed(self@),
    {
        match self.anchor {
            Some(start) => start == self.head,
            None => true,
        }
    }

    /// Normalized range with `start <= end`. Collapsed carets return `head..head`.
    pub fn range_bounds(&self) -> (r: Range<usize>)
        ensures
            r.start == model_bounds(self@).0,
            r.end == model_bounds(self@).1,
            r.start <= r.end,
    {
        match self.anchor {
            Some(anchor) => {
                if anchor <= self.head {
                    anchor..self.head
                } else {
                    self.head..anchor
                }
            },
            None => self.head..self.head,
        }
    }

    /// Move the caret to `offset`, collapsing any extension. The anchor is cleared.
    pub fn set_caret(&mut self, offset: usize)
        ensures
            final(self)@ == (offset, None::<usize>, false),
    {
        self.head = offset;
        self.anchor = None;
        self.reversed = false;
    }

    /// Extend the selection to `offset`: the head moves there while the
    /// anchor, fixed on the first extension, stays put.
    pub fn select_to(&mut self, offset: usize)
        ensures
            final(self)@ == model_select_to(old(self)@, offset),
    {
        let anchor = match self.anchor {
            Some(a) => a,
            None => self.head,
        };
        self.anchor = Some(anchor);
        if offset == anchor && offset == self.head {
            return;
        }
        if offset == anchor {
            self.head = offset;
            self.anchor = None;
            self.reversed = false;
            return;
        }
        self.head = offset;
        self.reversed = offset < anchor;
    }

    /// Replace the entire selection: `start` becomes the fixed end and `end`
    /// the moving end; equal ends give a plain caret.
    pub fn set_range(&mut self, start: usize, end: usize)
        ensures
            final(self)@ == model_range(start, end),
    {
        if start == end {
            self.head = start;
            self.anchor = None;
            self.reversed = false;
        } else {
            self.head = end;
            self.anchor = Some(start);
            self.reversed = end < start;
        }
    }
}

impl Clone for Selection {
    fn clone(&self) -> (s: Self)
        ensures
            s == *self,
    {
        Selection { head: self.head, anchor: self.anchor, reversed: self.reversed }
    }
}

impl Default for Selection {
    fn default() -> (s: Self)
        ensures
            s@ == (0usize, None::<usize>, false),
    {
        Selection::caret(0)
    }
}

/// Movement units supported by selection navigation.
#[derive(Clone, Copy, Debug, PartialEq, Eq, Structural)]
pub enum Movement {
    /// Previous grapheme cluster to the left of the offset; `0` at the start.
    GraphemeLeft,
    /// Next grapheme cluster to the right of the offset; the text length at the end.
    GraphemeRight,
    /// Start of the word containing or ending at the offset.
    WordLeft,
    /// Start of the next word after the offset.
    WordRight,
    /// Start of the line containing the offset.
    LineStart,
    /// End of the line containing the offset.
    LineEnd,
    /// Start of the document.
    DocumentStart,
    /// End of the document.
    DocumentEnd,
}

/// Index of the last `'\n'` among the first `k` characters, or -1.
pub open spec fn last_newline_before(s: Seq<char>, k: int) -> int
    decreases k,
{
    if k <= 0 {
        -1
    } else if s[k - 1] == '\n' {
        k - 1
    } else {
        last_newline_before(s, k - 1)
    }
}

/// Index of the first `'\n'` at or after character `k`, or the length.
pub open spec fn next_newline_from(s: Seq<char>, k: int) -> int
    decreases s.len() - k,
{
    if k >= s.len() || k < 0 {
        s.len() as int
    } else if s[k] == '\n' {
        k
    } else {
        next_newline_from(s, k + 1)
    }
}

/// Byte offset of the start of the line that contains byte offset `b`.
pub open spec fn line_start_offset(s: Seq<char>, b: int) -> nat {
    byte_offset(s, last_newline_before(s, chars_within(s, b) as int) + 1)
}

/// Byte offset of the end of the line (its `'\n'`, or the text end) that contains byte offset `b`.
pub open spec fn line_end_offset(s: Seq<char>, b: int) -> nat {
    byte_offset(s, next_newline_from(s, chars_within(s, b) as int))
}

/// The offset a movement reaches from `start` in `text`, given the grapheme
/// starts and word spans of the text.
pub open spec fn movement_target(
    text: Seq<char>,
    start: int,
    movement: Movement,
    graphemes: Seq<usize>,
    words: Seq<(usize, usize)>,
) -> int {
    let len = utf8_len(text) as int;
    let st = if start < len {
        start
    } else {
        len
    };
    match movement {
        Movement::GraphemeLeft => last_start_before(graphemes, st),
        Movement::GraphemeRight => first_start_after(graphemes, st, len),
        Movement::WordLeft => word_start_before(words, st, 0),
        Movement::WordRight => word_start_after(words, st, len),
        Movement::LineStart => line_start_offset(text, st) as int,
        Movement::LineEnd => line_end_offset(text, st) as int,
        Movement::DocumentStart => 0,
        Movement::DocumentEnd => len,
    }
}

/// The start offset clamped to the text length.
pub open spec fn clamped_start(text: Seq<char>, start: int) -> int {
    if start < utf8_len(text) {
        start
    } else {
        utf8_len(text) as int
    }
}

/// Movements towards the start of the text.
pub open spec fn moves_backward(movement: Movement) -> bool {
    movement == Movement::GraphemeLeft || movement == Movement::WordLeft || movement
        == Movement::LineStart || movement == Movement::DocumentStart
}

/// Line movements need the clamped start to lie on a character boundary.
pub open spec fn movement_start_ok(text: Seq<char>, start: int, movement: Movement) -> bool {
    let len = utf8_len(text) as int;
    let st = if start < len {
        start
    } else {
        len
    };
    (movement == Movement::LineStart || movement == Movement::LineEnd) ==> is_boundary(text, st)
}

/// Start offset of the line containing the character with index `k` (a char boundary).
fn line_start_at(chars: &Vec<char>, k: usize, Ghost(len): Ghost<nat>) -> (r: usize)
    requires
        k <= chars@.len(),
        utf8_len(chars@) == len,
        len <= usize::MAX,
    ensures
        r == byte_offset(chars@, last_newline_before(chars@, k as int) + 1),
{
    let mut j = k;
    while j > 0 && chars[j - 1] != '\n'
        invariant
            j <= k <= chars@.len(),
            last_newline_before(chars@, k as int) == last_newline_before(chars@, j as int),
        decreases j,
    {
        j = j - 1;
    }
    // The newline (if any) is at index j - 1; the line starts at index j.
    proof {
        if j > 0 {
            assert(last_newline_before(chars@, j as int) == j - 1);
        }
    }
    byte_offset_of(chars, j, Ghost(len))
}

/// Byte offset at which character `k` starts.
pub(crate) fn byte_offset_of(chars: &Vec<char>, k: usize, Ghost(len): Ghost<nat>) -> (r: usize)
    requires
        k <= chars@.len(),
        utf8_len(chars@) == len,
        len <= usize::MAX,
    ensures
        r == byte_offset(chars@, k as int),
{
    let mut i: usize = 0;
    let mut o: usize = 0;
    proof {
        lemma_offset_zero_full(chars@);
    }
    while i < k
        invariant
            i <= k <= chars@.len(),
            o == byte_offset(chars@, i as int),
            utf8_len(chars@) == len,
            len <= usize::MAX,
        decreases k - i,
    {
        proof {
            lemma_offset_step(chars@, i as int);
            lemma_offset_bounds(chars@, i + 1);
        }
        o = o + char_utf8_width(chars[i]);
        i = i + 1;
    }
    o
}

/// Index of the character starting at byte offset `b` (a char boundary).
pub(crate) fn index_at(chars: &Vec<char>, b: usize, Ghost(len): Ghost<nat>) -> (k: usize)
    requires
        is_boundary(chars@, b as int),
        utf8_len(chars@) == len,
        len <= usize::MAX,
    ensures
        k == chars_within(chars@, b as int),
        k <= chars@.len(),
{
    proof {
        lemma_boundary_index(chars@, b as int);
    }
    let ghost target = chars_within(chars@, b as int);
    let n = chars.len();
    let mut i: usize = 0;
    let mut o: usize = 0;
    proof {
        lemma_offset_zero_full(chars@);
        crate::utf8_model::lemma_offset_mono(chars@, 0, target as int);
    }
    while o < b
        invariant
            i <= target <= chars@.len(),
            chars@.len() == n,
            o == byte_offset(chars@, i as int),
            byte_offset(chars@, target as int) == b,
            utf8_len(chars@) == len,
            len <= usize::MAX,
        decreases target - i,
    {
        proof {
            if i == target {
                assert(false);
            }
            crate::utf8_model::lemma_offset_mono(chars@, i + 1, target as int);
            lemma_offset_step(chars@, i as int);
        }
        o = o + char_utf8_width(chars[i]);
        i = i + 1;
    }
    proof {
        if i < target {
            crate::utf8_model::lemma_offset_mono(chars@, i + 1, target as int);
            lemma_offset_step(chars@, i as int);
        }
    }
    i
}

/// Apply a movement from a starting offset on `text`, returning the new offset.
///
/// All returned offsets land on a UTF-8 character boundary.
pub fn apply_movement(text: &str, start: usize, movement: Movement) -> (r: usize)
    requires
        movement_start_ok(text@, start as int, movement),
    ensures
        r == movement_target(text@, start as int, movement, grapheme_starts(text@), word_spans(text@)),
        is_boundary(text@, r as int),
        r <= utf8_len(text@),
        moves_backward(movement) ==> r <= clamped_start(text@, start as int),
        !moves_backward(movement) ==> r >= clamped_start(text@, start as int),
        movement == Movement::GraphemeLeft && clamped_start(text@, start as int) > 0 ==> r
            < clamped_start(text@, start as int),
        movement == Movement::GraphemeRight && clamped_start(text@, start as int) < utf8_len(
            text@,
        ) ==> r > clamped_start(text@, start as int),
        movement == Movement::GraphemeRight ==> (r == utf8_len(text@) || grapheme_starts(
            text@,
        ).contains(r)) && forall|i: int|
            0 <= i < grapheme_starts(text@).len() && #[trigger] grapheme_starts(text@)[i]
                > clamped_start(text@, start as int) ==> grapheme_starts(text@)[i] >= r,
        movement == Movement::WordRight ==> (r == utf8_len(text@) || exists|i: int|
            0 <= i < word_spans(text@).len() && word_spans(text@)[i].0 == r) && forall|i: int|
            0 <= i < word_spans(text@).len() && #[trigger] word_spans(text@)[i].0 > clamped_start(
                text@,
                start as int,
            ) ==> word_spans(text@)[i].0 >= r,
        movement == Movement::WordLeft ==> (r == 0 || exists|i: int|
            0 <= i < word_spans(text@).len() && word_spans(text@)[i].0 == r) && forall|i: int|
            0 <= i < word_spans(text@).len() && #[trigger] word_spans(text@)[i].0 < clamped_start(
                text@,
                start as int,
            ) ==> word_spans(text@)[i].0 <= r,
        movement == Movement::GraphemeLeft ==> (r == 0 || grapheme_starts(text@).contains(r))
            && forall|i: int|
            0 <= i < grapheme_starts(text@).len() && #[trigger] grapheme_starts(text@)[i]
                < clamped_start(text@, start as int) ==> grapheme_starts(text@)[i] <= r,
{
    let len = byte_len(text);
    let start = if start < len {
        start
    } else {
        len
    };
    proof {
        lemma_floor_ceil(text@, len as int);
        lemma_floor_ceil(text@, 0);
        lemma_chars_within_offset(text@, 0);
        lemma_offset_zero_full(text@);
    }
    match movement {
        Movement::GraphemeLeft => {
            let starts = grapheme_start_offsets(text);
            let r = previous_start(starts.as_slice(), start);
            proof {
                lemma_last_start_before(starts@, start as int);
                crate::segmentation::lemma_last_start_before_greatest(starts@, start as int);
            }
            r
        },
        Movement::GraphemeRight => {
            let starts = grapheme_start_offsets(text);
            let r = next_start(starts.as_slice(), start, len);
            proof {
                lemma_first_start_after(starts@, start as int, len as int);
                crate::segmentation::lemma_first_start_after_least(starts@, start as int, len as int);
            }
            r
        },
        Movement::WordLeft => {
            let spans = word_offsets(text);
            let r = previous_word_start(spans.as_slice(), start);
            proof {
                lemma_word_start_before(spans@, start as int, 0);
                crate::segmentation::lemma_word_start_before_greatest(spans@, start as int, 0);
            }
            r
        },
        Movement::WordRight => {
            let spans = word_offsets(text);
            let r = next_word_start(spans.as_slice(), start, len);
            proof {
                lemma_word_start_after(spans@, start as int, len as int);
                crate::segmentation::lemma_word_start_after_least(spans@, start as int, len as int);
            }
            r
        },
        Movement::LineStart => {
            let chars = chars_of(text);
            let k = index_at(&chars, start, Ghost(len as nat));
            let r = line_start_at(&chars, k, Ghost(len as nat));
            proof {
                lemma_last_newline_before(text@, k as int);
                lemma_chars_within_offset(text@, last_newline_before(text@, k as int) + 1);
                lemma_offset_bounds(text@, last_newline_before(text@, k as int) + 1);
                lemma_boundary_index(text@, start as int);
                crate::utf8_model::lemma_offset_mono(
                    text@,
                    last_newline_before(text@, k as int) + 1,
                    k as int,
                );
            }
            r
        },
        Movement::LineEnd => {
            let chars = chars_of(text);
            let k = index_at(&chars, start, Ghost(len as nat));
            let mut j = k;
            while j < chars.len() && chars[j] != '\n'
                invariant
                    k <= j <= chars@.len(),
                    chars@ == text@,
                    next_newline_from(text@, k as int) == next_newline_from(text@, j as int),
                decreases chars@.len() - j,
            {
                j = j + 1;
            }
            proof {
                if j < chars@.len() {
                    assert(next_newline_from(text@, j as int) == j);
                }
                lemma_chars_within_offset(text@, j as int);
                lemma_offset_bounds(text@, j as int);
                lemma_boundary_index(text@, start as int);
                crate::utf8_model::lemma_offset_mono(text@, k as int, j as int);
            }
            byte_offset_of(&chars, j, Ghost(len as nat))
        },
        Movement::DocumentStart => 0,
        Movement::DocumentEnd => len,
    }
}

pub proof fn lemma_last_newline_before(s: Seq<char>, k: int)
    requires
        0 <= k <= s.len(),
    ensures
        -1 <= last_newline_before(s, k) < k,
        last_newline_before(s, k) == -1 || s[last_newline_before(s, k)] == '\n',
        forall|j: int| last_newline_before(s, k) < j < k ==> #[trigger] s[j] != '\n',
    decreases k,
{
    if k > 0 && s[k - 1] != '\n' {
        lemma_last_newline_before(s, k - 1);
    }
}

/// Where `next_newline_from` lands: the first `'\n'` at or after `k`, or the length.
pub proof fn lemma_next_newline_from(s: Seq<char>, k: int)
    requires
        0 <= k <= s.len(),
    ensures
        k <= next_newline_from(s, k) <= s.len(),
        next_newline_from(s, k) == s.len() || s[next_newline_from(s, k)] == '\n',
        forall|j: int| k <= j < next_newline_from(s, k) ==> #[trigger] s[j] != '\n',
    decreases s.len() - k,
{
    if k < s.len() && s[k] != '\n' {
        lemma_next_newline_from(s, k + 1);
    }
}

/// Home from a character boundary `s` goes to the start of its line: the
/// result `r` lies at or before `s`, is the text start or directly follows a
/// `'\n'`, and no `'\n'` lies between `r` and `s`.
pub proof fn lemma_line_start_law(t: Seq<char>, s: int, g: Seq<usize>, w: Seq<(usize, usize)>)
    requires
        is_boundary(t, s),
    ensures
        ({
            let r = movement_target(t, s, Movement::LineStart, g, w);
            let i = chars_within(t, r) as int;
            let j = chars_within(t, s) as int;
            &&& is_boundary(t, r)
            &&& r <= s
            &&& i <= j
            &&& r == 0 || (i > 0 && t[i - 1] == '\n')
            &&& forall|k: int| i <= k < j ==> #[trigger] t[k] != '\n'
        }),
{
    lemma_boundary_index(t, s);
    let j = chars_within(t, s) as int;
    lemma_last_newline_before(t, j);
    let l = last_newline_before(t, j);
    lemma_chars_within_offset(t, l + 1);
    crate::utf8_model::lemma_offset_mono(t, l + 1, j);
    lemma_offset_zero_full(t);
}

/// End from a character boundary `s` goes to the end of its line: the
/// result `r` lies at or after `s`, is the text end or sits on a `'\n'`, and
/// no `'\n'` lies between `s` and `r`.
pub proof fn lemma_line_end_law(t: Seq<char>, s: int, g: Seq<usize>, w: Seq<(usize, usize)>)
    requires
        is_boundary(t, s),
    ensures
        ({
            let r = movement_target(t, s, Movement::LineEnd, g, w);
            let i = chars_within(t, s) as int;
            let j = chars_within(t, r) as int;
            &&& is_boundary(t, r)
            &&& s <= r
            &&& i <= j
            &&& r == utf8_len(t) || (j < t.len() && t[j] == '\n')
            &&& forall|k: int| i <= k < j ==> #[trigger] t[k] != '\n'
        }),
{
    lemma_boundary_index(t, s);
    let i = chars_within(t, s) as int;
    lemma_next_newline_from(t, i);
    let n = next_newline_from(t, i);
    lemma_chars_within_offset(t, n);
    crate::utf8_model::lemma_offset_mono(t, i, n);
    lemma_offset_zero_full(t);
    if n < t.len() {
        crate::utf8_model::lemma_offset_mono(t, n + 1, t.len() as int);
        lemma_offset_step(t, n);
    }
}

/// For ordered, non-empty words inside the text, moving right by a word from
/// `s` goes to the start of the next word starting after `s` (or the text
/// end), and moving left goes to the start of the last word starting before
/// `s` (or 0): no word starts strictly between `s` and either result.
pub proof fn lemma_word_movement_law(t: Seq<char>, s: int, g: Seq<usize>, w: Seq<(usize, usize)>)
    requires
        crate::segmentation::words_ordered(w),
        crate::segmentation::word_spans_in_text(t, w),
        0 <= s <= utf8_len(t),
    ensures
        ({
            let right = movement_target(t, s, Movement::WordRight, g, w);
            let len = utf8_len(t) as int;
            &&& s < len ==> s < right
            &&& right <= len
            &&& right == len || exists|i: int| 0 <= i < w.len() && w[i].0 == right
            &&& forall|i: int| 0 <= i < w.len() && #[trigger] w[i].0 > s ==> w[i].0 >= right
        }),
        ({
            let left = movement_target(t, s, Movement::WordLeft, g, w);
            &&& s > 0 ==> 0 <= left < s
            &&& left == 0 || exists|i: int| 0 <= i < w.len() && w[i].0 == left
            &&& forall|i: int| 0 <= i < w.len() && #[trigger] w[i].0 < s ==> w[i].0 <= left
        }),
{
    let len = utf8_len(t) as int;
    lemma_word_start_after(w, s, len);
    crate::segmentation::lemma_word_start_after_least(w, s, len);
    lemma_word_start_before(w, s, 0);
    crate::segmentation::lemma_word_start_before_greatest(w, s, 0);
    let right = word_start_after(w, s, len);
    if right != len {
        let i = choose|i: int| 0 <= i < w.len() && w[i].0 == right;
        assert(w[i].0 <= w[i].0 + w[i].1);
    }
    let left = word_start_before(w, s, 0);
    if s > 0 && left != 0 {
        let i = choose|i: int| 0 <= i < w.len() && w[i].0 == left;
        assert(w[i].1 > 0);
    }
}

/// For cluster starts that increase and lie inside the text, moving right by
/// a grapheme from `s` goes to the next cluster start after `s` (or the text
/// end), and moving left goes to the previous cluster start before `s` (or
/// 0): no cluster start lies strictly between `s` and either result.
pub proof fn lemma_grapheme_movement_law(t: Seq<char>, s: int, g: Seq<usize>, w: Seq<(usize, usize)>)
    requires
        crate::segmentation::strictly_increasing(g),
        crate::segmentation::grapheme_starts_in_text(t, g),
        0 <= s <= utf8_len(t),
    ensures
        ({
            let right = movement_target(t, s, Movement::GraphemeRight, g, w);
            let len = utf8_len(t) as int;
            &&& s < len ==> s < right
            &&& right <= len
            &&& right == len || g.contains(right as usize)
            &&& forall|i: int| 0 <= i < g.len() && #[trigger] g[i] > s ==> g[i] >= right
        }),
        ({
            let left = movement_target(t, s, Movement::GraphemeLeft, g, w);
            &&& s > 0 ==> 0 <= left < s
            &&& left == 0 || g.contains(left as usize)
            &&& forall|i: int| 0 <= i < g.len() && #[trigger] g[i] < s ==> g[i] <= left
        }),
{
    let len = utf8_len(t) as int;
    lemma_first_start_after(g, s, len);
    crate::segmentation::lemma_first_start_after_least(g, s, len);
    lemma_last_start_before(g, s);
    crate::segmentation::lemma_last_start_before_greatest(g, s);
    let right = first_start_after(g, s, len);
    if right != len {
        let i = choose|i: int| 0 <= i < g.len() && g[i] == right;
        assert(g[i] == right);
    }
}

} // verus!
