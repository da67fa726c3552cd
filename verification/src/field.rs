//! Decisions a text field takes in response to user actions, platform text
//! input (IME) and rendering, expressed over the editing state. The UI layer
//! performs the outside work (clipboard, focus, geometry, painting) and hands
//! the plain results to these functions.
use std::ops::Range;

use vstd::prelude::*;

use crate::edit::is_white_space;
use crate::mode::Mode;
use crate::segmentation::{grapheme_starts, word_spans};
use crate::selection::{
    apply_movement, byte_offset_of, index_at, model_bounds, model_collapsed, model_range, model_select_to, movement_target,
    Movement, };
use crate::state::{EditKind, TextBoxState};
use crate::str_ops::{byte_len, chars_of, slice_at};
use crate::utf::{
    utf16_offset_to_utf8, utf16_to_utf8_spec, utf8_to_utf16_spec,
};
use crate::utf8_model::{
    byte_offset, byte_slice, chars_within, floor_boundary, is_boundary, lemma_boundary_index,
    lemma_floor_ceil, lemma_offset_bounds, lemma_offset_mono,
    utf8_len,
};
use crate::validation::ValidationState;

verus! {

/// The first word span `(start, length)` containing the offset `o`, as a
/// byte range.
pub open spec fn word_containing(spans: Seq<(usize, usize)>, o: int) -> Option<(int, int)>
    decreases spans.len(),
{
    if spans.len() == 0 {
        None
    } else if spans[0].0 <= o < spans[0].0 + spans[0].1 {
        Some((spans[0].0 as int, spans[0].0 + spans[0].1))
    } else {
        word_containing(spans.drop_first(), o)
    }
}

/// Byte length of `s` once trailing whitespace is removed.
pub open spec fn trimmed_end_len(s: Seq<char>) -> nat
    decreases s.len(),
{
    if s.len() > 0 && is_white_space(s.last()) {
        trimmed_end_len(s.drop_last())
    } else {
        utf8_len(s)
    }
}

/// The range a double click selects away from any word: from the start of
/// the word at or before the offset up to the text before the next word
/// start with its trailing whitespace trimmed, and never ending before the
/// offset.
pub open spec fn scanned_word_range(t: Seq<char>, offset: int) -> (int, int) {
    let g = grapheme_starts(t);
    let w = word_spans(t);
    let start = movement_target(t, offset, Movement::WordLeft, g, w);
    let from = if start < offset {
        start
    } else {
        offset
    };
    let right = movement_target(t, from, Movement::WordRight, g, w);
    let len = utf8_len(t) as int;
    let r = if right < len {
        right
    } else {
        len
    };
    let trimmed = trimmed_end_len(t.take(chars_within(t, r) as int)) as int;
    (start, if trimmed > offset {
        trimmed
    } else {
        offset
    })
}

/// The range a double click at `offset` selects: the word containing the
/// offset (clamped to a character boundary); elsewhere, `scanned_word_range`.
pub open spec fn word_range_at(t: Seq<char>, offset: int) -> (int, int) {
    match word_containing(word_spans(t), floor_boundary(t, offset) as int) {
        Some(r) => r,
        None => scanned_word_range(t, offset),
    }
}

/// What a double click at `offset` does to `old`, giving `new`: the range of
/// `word_range_at` (its ends clamped to character boundaries) is selected
/// when it is not empty; otherwise the caret is placed at the offset.
pub open spec fn word_selected(old: TextBoxState, new: TextBoxState, offset: int) -> bool {
    let t = old.text_seq();
    let (start, end) = word_range_at(t, offset);
    &&& end > start ==> old.moved_to(
        &new,
        model_range(floor_boundary(t, start) as usize, floor_boundary(t, end) as usize),
        true,
    )
    &&& end <= start ==> old.moved_to(
        &new,
        (floor_boundary(t, offset) as usize, None::<usize>, false),
        false,
    )
}

/// Byte length of the first `k` characters with trailing whitespace removed.
fn trimmed_prefix_len(chars: &Vec<char>, k: usize, Ghost(len): Ghost<nat>) -> (r: usize)
    requires
        k <= chars@.len(),
        utf8_len(chars@) == len,
        len <= usize::MAX,
    ensures
        r == trimmed_end_len(chars@.take(k as int)),
{
    let mut j = k;
    while j > 0 && crate::edit::is_white_space_char(chars[j - 1])
        invariant
            j <= k <= chars@.len(),
            trimmed_end_len(chars@.take(k as int)) == trimmed_end_len(chars@.take(j as int)),
        decreases j,
    {
        assert(chars@.take(j as int).drop_last() =~= chars@.take(j - 1));
        j = j - 1;
    }
    proof {
        assert(chars@.take(j as int).len() == j);
        lemma_trimmed_is_offset(chars@, j as int);
    }
    byte_offset_of(chars, j, Ghost(len))
}

proof fn lemma_trimmed_is_offset(s: Seq<char>, j: int)
    requires
        0 <= j <= s.len(),
        !(j > 0 && is_white_space(s[j - 1])),
    ensures
        trimmed_end_len(s.take(j)) == byte_offset(s, j),
{
    if j > 0 {
        assert(s.take(j).last() == s[j - 1]);
    }
}

/// The word span containing `o`, if any.
fn find_word(spans: &Vec<(usize, usize)>, o: usize, Ghost(t): Ghost<Seq<char>>) -> (r: Option<
    (usize, usize),
>)
    requires
        crate::segmentation::word_spans_in_text(t, spans@),
        utf8_len(t) <= usize::MAX,
    ensures
        match word_containing(spans@, o as int) {
            Some(p) => r is Some && r.unwrap().0 == p.0 && r.unwrap().1 == p.1,
            None => r is None,
        },
        r is Some ==> is_boundary(t, r.unwrap().0 as int) && is_boundary(t, r.unwrap().1 as int),
{
    let mut i: usize = 0;
    assert(spans@.skip(0) =~= spans@);
    while i < spans.len()
        invariant
            i <= spans@.len(),
            crate::segmentation::word_spans_in_text(t, spans@),
            utf8_len(t) <= usize::MAX,
            word_containing(spans@.skip(i as int), o as int) == word_containing(spans@, o as int),
        decreases spans@.len() - i,
    {
        let (start, len) = spans[i];
        let ghost rest = spans@.skip(i as int);
        assert(rest[0] == spans@[i as int]);
        assert(rest.drop_first() =~= spans@.skip(i + 1));
        assert(is_boundary(t, spans@[i as int].0 as int));
        let end = start + len;
        if start <= o && o < end {
            return Some((start, end));
        }
        i = i + 1;
    }
    None
}

/// Select the word containing `offset` (a double click). Away from any word,
/// the range runs from the start of the word before the offset to the offset
/// or the end of that word, whichever is further; when that range is empty
/// the caret is placed at `offset` instead.
pub fn select_word_at(state: &mut TextBoxState, offset: usize)
    requires
        old(state).wf(),
    ensures
        final(state).wf(),
        word_selected(*old(state), *final(state), offset as int),
{
    let text = state.text();
    let len = byte_len(text);
    let o = crate::utf::floor_char_boundary(text, offset);
    let spans = crate::segmentation::word_offsets(text);
    let ghost t = text@;
    let (start, end) = match find_word(&spans, o, Ghost(t)) {
        Some(found) => {
            proof {
                lemma_floor_ceil(t, found.0 as int);
                lemma_floor_ceil(t, found.1 as int);
            }
            found
        },
        None => {
            let start = apply_movement(text, offset, Movement::WordLeft);
            let from = if start < offset {
                start
            } else {
                offset
            };
            let right = apply_movement(text, from, Movement::WordRight);
            let r = if right < len {
                right
            } else {
                len
            };
            let chars = chars_of(text);
            proof {
                lemma_boundary_index(text@, right as int);
            }
            let k = index_at(&chars, r, Ghost(len as nat));
            let trimmed = trimmed_prefix_len(&chars, k, Ghost(len as nat));
            let end = if trimmed > offset {
                trimmed
            } else {
                offset
            };
            (start, end)
        },
    };
    if end > start {
        state.set_selection_range(start, end);
    } else {
        state.collapse_to(offset);
    }
}

/// The line range a triple click at `offset` selects.
pub open spec fn line_range_at(t: Seq<char>, offset: int) -> (int, int) {
    let g = grapheme_starts(t);
    let w = word_spans(t);
    (
        movement_target(t, offset, Movement::LineStart, g, w),
        movement_target(t, offset, Movement::LineEnd, g, w),
    )
}

/// The offset clamped to the text lies on a character boundary.
pub open spec fn clamped_on_boundary(t: Seq<char>, offset: int) -> bool {
    is_boundary(
        t,
        if offset < utf8_len(t) {
            offset
        } else {
            utf8_len(t) as int
        },
    )
}

/// Select the whole logical line containing `offset` (a triple click).
pub fn select_line_at(state: &mut TextBoxState, offset: usize)
    requires
        old(state).wf(),
        clamped_on_boundary(old(state).text_seq(), offset as int),
    ensures
        final(state).wf(),
        old(state).moved_to(
            &*final(state),
            model_range(
                line_range_at(old(state).text_seq(), offset as int).0 as usize,
                line_range_at(old(state).text_seq(), offset as int).1 as usize,
            ),
            true,
        ),
{
    let text = state.text();
    let start = apply_movement(text, offset, Movement::LineStart);
    let end = apply_movement(text, offset, Movement::LineEnd);
    proof {
        lemma_floor_ceil(text@, start as int);
        lemma_floor_ceil(text@, end as int);
    }
    state.set_selection_range(start, end);
}

/// A primary-button press at `offset`: a double click selects the word, a
/// triple (or later) click the line, a single click places the caret or, with
/// shift held, extends the selection. Returns whether a drag-selection starts.
pub fn press_at(state: &mut TextBoxState, offset: usize, click_count: usize, shift: bool) -> (r: bool)
    requires
        old(state).wf(),
        click_count >= 3 ==> clamped_on_boundary(old(state).text_seq(), offset as int),
    ensures
        final(state).wf(),
        r == (click_count <= 1),
        final(state).text_seq() == old(state).text_seq(),
        final(state).hist() == old(state).hist(),
        final(state).ver() == old(state).ver(),
        click_count <= 1 && shift ==> old(state).moved_to(
            &*final(state),
            model_select_to(old(state).sel(), floor_boundary(old(state).text_seq(), offset as int) as usize),
            true,
        ),
        click_count <= 1 && !shift ==> old(state).moved_to(
            &*final(state),
            (floor_boundary(old(state).text_seq(), offset as int) as usize, None::<usize>, false),
            false,
        ),
        click_count >= 3 ==> old(state).moved_to(
            &*final(state),
            model_range(
                line_range_at(old(state).text_seq(), offset as int).0 as usize,
                line_range_at(old(state).text_seq(), offset as int).1 as usize,
            ),
            true,
        ),
        click_count == 2 ==> word_selected(*old(state), *final(state), offset as int),
{
    if click_count == 2 {
        select_word_at(state, offset);
    } else if click_count >= 3 {
        select_line_at(state, offset);
    } else if shift {
        state.select_to(offset);
    } else {
        state.collapse_to(offset);
    }
    click_count <= 1
}

/// The text a platform text-input query for the UTF-16 range `range_utf16`
/// receives, with the UTF-16 range it actually covers. The range is converted
/// to character boundaries and put in order.
pub open spec fn queried_bytes(t: Seq<char>, range_utf16: Range<usize>) -> (int, int) {
    let a = utf16_to_utf8_spec(t, range_utf16.start as int) as int;
    let b = utf16_to_utf8_spec(t, range_utf16.end as int) as int;
    if a <= b {
        (a, b)
    } else {
        (b, a)
    }
}

pub fn text_for_range(state: &TextBoxState, range_utf16: Range<usize>) -> (r: (String, Range<usize>))
    requires
        state.wf(),
    ensures
        ({
            let t = state.text_seq();
            let (a, b) = queried_bytes(t, range_utf16);
            &&& r.0@ == byte_slice(t, a, b)
            &&& r.1.start == utf8_to_utf16_spec(t, a)
            &&& r.1.end == utf8_to_utf16_spec(t, b)
        }),
{
    let range = state.utf16_range_to_utf8(&range_utf16);
    let text = state.text();
    let clamped = crate::utf::clamp_range(text, &range);
    proof {
        crate::utf::lemma_utf16_range_is_boundary(text@, range_utf16.start as int);
        crate::utf::lemma_utf16_range_is_boundary(text@, range_utf16.end as int);
        lemma_floor_ceil(text@, range.start as int);
        lemma_floor_ceil(text@, range.end as int);
    }
    let (start, end) = if clamped.start <= clamped.end {
        (clamped.start, clamped.end)
    } else {
        (clamped.end, clamped.start)
    };
    let utf16 = state.utf8_range_to_utf16(start..end);
    proof {
        lemma_boundary_index(text@, start as int);
        lemma_boundary_index(text@, end as int);
        let i = chars_within(text@, start as int) as int;
        let j = chars_within(text@, end as int) as int;
        if i > j {
            lemma_offset_mono(text@, j, i);
        }
    }
    let ghost i = chars_within(text@, start as int) as int;
    let ghost j = chars_within(text@, end as int) as int;
    let piece = slice_at(text, start, end, Ghost(i), Ghost(j));
    (piece.to_owned(), utf16)
}

/// The selection as a UTF-16 range, with its direction.
pub fn selected_text_range(state: &TextBoxState) -> (r: (Range<usize>, bool))
    ensures
        r.0.start == utf8_to_utf16_spec(state.text_seq(), model_bounds(state.sel()).0 as int),
        r.0.end == utf8_to_utf16_spec(state.text_seq(), model_bounds(state.sel()).1 as int),
        r.1 == state.sel().2,
{
    let r = state.selection().range_bounds();
    (state.utf8_range_to_utf16(r), state.selection().is_reversed())
}

/// The IME marked range as a UTF-16 range.
pub fn marked_text_range(state: &TextBoxState) -> (r: Option<Range<usize>>)
    ensures
        r is Some == state.marked() is Some,
        r is Some ==> r.unwrap().start == utf8_to_utf16_spec(state.text_seq(), state.marked().unwrap().start as int)
            && r.unwrap().end == utf8_to_utf16_spec(state.text_seq(), state.marked().unwrap().end as int),
{
    match state.marked_range() {
        Some(m) => Some(state.utf8_range_to_utf16(m.start..m.end)),
        None => None,
    }
}

/// The UTF-8 range corresponding to an optional UTF-16 range.
pub open spec fn utf8_range_of(t: Seq<char>, range_utf16: Option<Range<usize>>) -> Option<Range<usize>> {
    match range_utf16 {
        Some(r) => Some(
            (utf16_to_utf8_spec(t, r.start as int) as usize)..(utf16_to_utf8_spec(t, r.end as int) as usize),
        ),
        None => None,
    }
}

/// Text committed by the platform input (typing or an accepted composition):
/// replaces the UTF-16 range, or the selection, as an edit.
pub fn replace_text_in_range(state: &mut TextBoxState, range_utf16: Option<Range<usize>>, new_text: &str)
    requires
        old(state).wf(),
        old(state).ver() < u64::MAX,
        old(state).editable() && range_utf16 is Some ==> utf16_to_utf8_spec(
            old(state).text_seq(),
            range_utf16.unwrap().start as int,
        ) <= utf16_to_utf8_spec(old(state).text_seq(), range_utf16.unwrap().end as int),
    ensures
        final(state).wf(),
        !old(state).editable() ==> *final(state) == *old(state),
        old(state).editable() ==> old(state).edited_to(
            &*final(state),
            old(state).edit_target(utf8_range_of(old(state).text_seq(), range_utf16)).0,
            old(state).edit_target(utf8_range_of(old(state).text_seq(), range_utf16)).1,
            crate::edit::normalize_newlines(new_text@, old(state).single_line()),
            if crate::state::is_typing(
                range_utf16 is None,
                old(state).sel(),
                crate::edit::normalize_newlines(new_text@, old(state).single_line()),
            ) {
                EditKind::Insert
            } else {
                EditKind::Other
            },
            old(state).edit_target(utf8_range_of(old(state).text_seq(), range_utf16)).0,
        ),
{
    let range = match range_utf16 {
        Some(r) => Some(state.utf16_range_to_utf8(&r)),
        None => None,
    };
    proof {
        if range_utf16 is Some {
            let r = range_utf16.unwrap();
            crate::utf::lemma_utf16_range_is_boundary(state.text_seq(), r.start as int);
            crate::utf::lemma_utf16_range_is_boundary(state.text_seq(), r.end as int);
            lemma_floor_ceil(state.text_seq(), range.unwrap().start as int);
            lemma_floor_ceil(state.text_seq(), range.unwrap().end as int);
        }
    }
    state.replace_range(range, new_text);
}

/// The byte range an IME composition replaces: the given UTF-16 range
/// converted, else the current marked range, else the selection.
pub open spec fn composition_target(state: TextBoxState, range_utf16: Option<Range<usize>>) -> (usize, usize) {
    let t = state.text_seq();
    match range_utf16 {
        Some(r) => (utf16_to_utf8_spec(t, r.start as int) as usize, utf16_to_utf8_spec(t, r.end as int) as usize),
        None => match state.marked() {
            Some(m) => (m.start, m.end),
            None => model_bounds(state.sel()),
        },
    }
}

/// An IME composition update: records an undo step, replaces the target range
/// without coalescing, marks the composed text when it is not empty, and, when
/// given, selects `new_selected_utf16` — a range within `new_text` — relative to
/// the target's start.
pub fn replace_and_mark_text_in_range(
    state: &mut TextBoxState,
    range_utf16: Option<Range<usize>>,
    new_text: &str,
    new_selected_utf16: Option<Range<usize>>,
)
    requires
        old(state).wf(),
        old(state).ver() < u64::MAX,
        utf8_len(old(state).text_seq()) + utf8_len(new_text@) <= usize::MAX,
        old(state).editable() && range_utf16 is Some ==> utf16_to_utf8_spec(
            old(state).text_seq(),
            range_utf16.unwrap().start as int,
        ) <= utf16_to_utf8_spec(old(state).text_seq(), range_utf16.unwrap().end as int),
    ensures
        final(state).wf(),
        final(state).ver() == old(state).ver() + (if old(state).editable() {
            1int
        } else {
            0int
        }),
        ({
            let (a, b) = composition_target(*old(state), range_utf16);
            let t = old(state).text_seq();
            let ins = crate::edit::normalize_newlines(new_text@, old(state).single_line());
            let caret = (a + utf8_len(ins)) as usize;
            &&& final(state).hist() == crate::history::history_push(old(state).hist(), old(state).current_entry())
            &&& old(state).editable() ==> final(state).text_seq() == crate::utf8_model::splice(t, a as int, b as int, ins)
            &&& !old(state).editable() ==> final(state).text_seq() == t
            &&& !old(state).editable() ==> final(state).marked() == old(state).marked()
            &&& !old(state).editable() && new_selected_utf16 is None ==> final(state).sel() == old(state).sel()
            &&& !old(state).editable() && new_selected_utf16 is Some ==> final(state).sel() == model_range(
                floor_boundary(t, a + utf16_to_utf8_spec(new_text@, new_selected_utf16.unwrap().start as int)) as usize,
                floor_boundary(t, a + utf16_to_utf8_spec(new_text@, new_selected_utf16.unwrap().end as int)) as usize,
            )
            &&& old(state).editable() && new_selected_utf16 is None ==> final(state).sel() == (caret, None::<usize>, false)
            &&& old(state).editable() && new_selected_utf16 is Some ==> final(state).sel() == model_range(
                floor_boundary(final(state).text_seq(), a + utf16_to_utf8_spec(new_text@, new_selected_utf16.unwrap().start as int)) as usize,
                floor_boundary(final(state).text_seq(), a + utf16_to_utf8_spec(new_text@, new_selected_utf16.unwrap().end as int)) as usize,
            )
            &&& old(state).editable() ==> final(state).marked() == (if new_text@.len() > 0 && ins.len() > 0 {
                Some(a..caret)
            } else {
                None
            })
            &&& final(state).last_kind() == EditKind::Other
            &&& final(state).run_caret() is None
            &&& old(state).same_settings(&*final(state))
        }),
{
    let target = match range_utf16 {
        Some(r) => state.utf16_range_to_utf8(&r),
        None => match state.marked_range() {
            Some(m) => m.start..m.end,
            None => state.selection().range_bounds(),
        },
    };
    proof {
        let t = state.text_seq();
        if range_utf16 is Some {
            let r = range_utf16.unwrap();
            crate::utf::lemma_utf16_range_is_boundary(t, r.start as int);
            crate::utf::lemma_utf16_range_is_boundary(t, r.end as int);
        }
        lemma_floor_ceil(t, target.start as int);
        lemma_floor_ceil(t, target.end as int);
        lemma_boundary_index(t, target.start as int);
    }
    let nonempty = byte_len(new_text) > 0;
    proof {
        crate::utf8_model::lemma_offset_zero_full(new_text@);
        lemma_offset_bounds(new_text@, new_text@.len() as int);
    }
    state.snapshot_for_undo();
    state.replace_range_silent(target.start..target.end, new_text, nonempty);
    if let Some(sel) = new_selected_utf16 {
        let local_start = utf16_offset_to_utf8(new_text, sel.start);
        let local_end = utf16_offset_to_utf8(new_text, sel.end);
        state.set_selection_range(target.start + local_start, target.start + local_end);
    }
}

/// The selected text to place on the clipboard for a copy: nothing for a
/// password field or an empty selection.
pub fn copy_text(state: &TextBoxState) -> (r: Option<String>)
    requires
        state.wf(),
    ensures
        ({
            let (a, b) = model_bounds(state.sel());
            let sel = byte_slice(state.text_seq(), a as int, b as int);
            &&& (state.password_of() || sel.len() == 0) ==> r is None
            &&& !(state.password_of() || sel.len() == 0) ==> r is Some && r.unwrap()@ == sel
        }),
{
    if state.is_password() {
        return None;
    }
    let selected = state.selected_text();
    if byte_len(selected.as_str()) == 0 {
        proof {
            lemma_len_zero(selected@);
        }
        None
    } else {
        proof {
            lemma_len_zero(selected@);
        }
        Some(selected)
    }
}

proof fn lemma_len_zero(s: Seq<char>)
    ensures
        (utf8_len(s) == 0) == (s.len() == 0),
{
    crate::utf8_model::lemma_offset_zero_full(s);
    lemma_offset_bounds(s, s.len() as int);
}

/// A cut: the selected text for the clipboard, and the selection deleted.
/// Nothing happens for a password field, a locked field or an empty selection.
pub fn cut_text(state: &mut TextBoxState) -> (r: Option<String>)
    requires
        old(state).wf(),
        old(state).ver() < u64::MAX,
    ensures
        final(state).wf(),
        ({
            let (a, b) = model_bounds(old(state).sel());
            let sel = byte_slice(old(state).text_seq(), a as int, b as int);
            &&& (old(state).password_of() || !old(state).editable() || sel.len() == 0) ==> r is None
                && *final(state) == *old(state)
            &&& !(old(state).password_of() || !old(state).editable() || sel.len() == 0) ==> r is Some
                && r.unwrap()@ == sel && old(state).edited_to(
                &*final(state),
                a,
                b,
                Seq::<char>::empty(),
                EditKind::Other,
                a,
            )
        }),
{
    if state.is_password() || !state.can_edit() {
        return None;
    }
    let selected = state.selected_text();
    proof {
        lemma_len_zero(selected@);
        let (a, b) = model_bounds(state.sel());
        lemma_boundary_index(state.text_seq(), a as int);
        lemma_boundary_index(state.text_seq(), b as int);
        if model_collapsed(state.sel()) {
            assert(a == b);
        } else {
            let i = chars_within(state.text_seq(), a as int) as int;
            let j = chars_within(state.text_seq(), b as int) as int;
            if j <= i {
                lemma_offset_mono(state.text_seq(), j, i);
            }
        }
    }
    if byte_len(selected.as_str()) == 0 {
        return None;
    }
    state.delete_selection();
    Some(selected)
}

/// A paste of the clipboard text (if any) as one edit. Returns whether the
/// field handled it (editable and text present).
pub fn paste_text(state: &mut TextBoxState, clipboard: Option<&str>) -> (r: bool)
    requires
        old(state).wf(),
        old(state).ver() < u64::MAX,
    ensures
        final(state).wf(),
        r == (old(state).editable() && clipboard is Some),
        !r ==> *final(state) == *old(state),
        r ==> ({
            let ins = crate::edit::normalize_newlines(clipboard.unwrap()@, old(state).single_line());
            old(state).edited_to(
                &*final(state),
                model_bounds(old(state).sel()).0,
                model_bounds(old(state).sel()).1,
                ins,
                if crate::state::is_typing(true, old(state).sel(), ins) {
                    EditKind::Insert
                } else {
                    EditKind::Other
                },
                model_bounds(old(state).sel()).0,
            )
        }),
{
    if !state.can_edit() {
        return false;
    }
    match clipboard {
        Some(text) => {
            state.insert(text);
            true
        },
        None => false,
    }
}

/// What pressing Enter does.
#[derive(Clone, Copy, Debug, PartialEq, Eq, Structural)]
pub enum NewlineOutcome {
    /// The field is locked: nothing happens.
    Ignored,
    /// Single-line field: the value is committed.
    Commit,
    /// Multi-line field: a line feed was inserted.
    Inserted,
}

/// Enter: commits a single-line field, inserts a line feed in a multi-line one.
pub fn insert_newline(state: &mut TextBoxState) -> (r: NewlineOutcome)
    requires
        old(state).wf(),
        old(state).ver() < u64::MAX,
    ensures
        final(state).wf(),
        !old(state).editable() ==> r == NewlineOutcome::Ignored && *final(state) == *old(state),
        old(state).editable() && old(state).single_line() ==> r == NewlineOutcome::Commit
            && *final(state) == *old(state),
        old(state).editable() && !old(state).single_line() ==> r == NewlineOutcome::Inserted
            && old(state).edited_to(
            &*final(state),
            model_bounds(old(state).sel()).0,
            model_bounds(old(state).sel()).1,
            seq!['\n'],
            EditKind::Other,
            model_bounds(old(state).sel()).0,
        ),
{
    if !state.can_edit() {
        return NewlineOutcome::Ignored;
    }
    match state.mode() {
        Mode::SingleLine => NewlineOutcome::Commit,
        Mode::MultiLine { .. } => {
            proof {
                reveal_strlit("\n");
                let nl = "\n"@;
                assert(nl[0] == '\n');
                assert(nl.skip(1) =~= Seq::<char>::empty());
                assert(crate::edit::normalize_newlines(Seq::<char>::empty(), false) =~= Seq::<char>::empty());
                assert(crate::edit::normalize_newlines(nl, false) =~= seq!['\n']);
            }
            state.insert("\n");
            NewlineOutcome::Inserted
        },
    }
}

/// Up/Down: a single-line field jumps to the document start/end; a
/// multi-line field goes to `layout_target` (the offset one visual row
/// up/down, when the renderer could compute it), else to the line start/end.
pub fn move_vertical(state: &mut TextBoxState, up: bool, extend: bool, layout_target: Option<usize>)
    requires
        old(state).wf(),
    ensures
        final(state).wf(),
        ({
            let t = old(state).text_seq();
            let target: usize = if old(state).single_line() {
                if up {
                    0usize
                } else {
                    utf8_len(t) as usize
                }
            } else {
                match layout_target {
                    Some(o) => floor_boundary(t, o as int) as usize,
                    None => old(state).move_target(
                        if up {
                            Movement::LineStart
                        } else {
                            Movement::LineEnd
                        },
                        extend,
                    ),
                }
            };
            old(state).moved_to(
                &*final(state),
                if extend && !old(state).single_line() && layout_target is Some {
                    model_select_to(old(state).sel(), target)
                } else if extend {
                    crate::selection::model_extend(old(state).sel(), target)
                } else {
                    (target, None::<usize>, false)
                },
                !old(state).single_line() && layout_target is Some && extend,
            )
        }),
{
    match state.mode() {
        Mode::SingleLine => {
            if up {
                state.document_start(extend);
            } else {
                state.document_end(extend);
            }
        },
        Mode::MultiLine { .. } => {
            match layout_target {
                Some(target) => {
                    if extend {
                        state.select_to(target);
                    } else {
                        state.collapse_to(target);
                    }
                },
                None => {
                    if up {
                        state.line_start(extend);
                    } else {
                        state.line_end(extend);
                    }
                },
            }
        },
    }
}

/// `n` bullet characters.
pub open spec fn bullets(n: nat) -> Seq<char> {
    Seq::new(n, |i: int| '\u{2022}')
}

/// Password masking: one bullet per character.
fn mask(text: &str) -> (r: String)
    ensures
        r@ == bullets(text@.len()),
{
    let chars = chars_of(text);
    let n = chars.len();
    let bullet: &str = "\u{2022}";
    proof {
        reveal_strlit("\u{2022}");
    }
    let mut out = String::new();
    let mut i: usize = 0;
    while i < n
        invariant
            i <= n,
            n == text@.len(),
            bullet@ == seq!['\u{2022}'],
            out@ == bullets(i as nat),
        decreases n - i,
    {
        out.append(bullet);
        i = i + 1;
        assert(out@ =~= bullets(i as nat));
    }
    out
}

/// Render-ready value: empty while the field is empty (the placeholder is
/// showing then), bullets for a password field, the text otherwise.
pub fn value_for_render(state: &TextBoxState) -> (r: String)
    ensures
        state.text_seq().len() == 0 ==> r@ == Seq::<char>::empty(),
        state.text_seq().len() > 0 && state.password_of() ==> r@ == bullets(state.text_seq().len()),
        state.text_seq().len() > 0 && !state.password_of() ==> r@ == state.text_seq(),
{
    let text = state.text();
    proof {
        lemma_len_zero(text@);
    }
    if byte_len(text) == 0 {
        String::new()
    } else if state.is_password() {
        mask(text)
    } else {
        text.to_owned()
    }
}

/// What the field paints: the placeholder when the field is empty, not
/// composing and has a placeholder; bullets for a non-empty password field;
/// the text otherwise. The flag tells whether the placeholder is shown.
pub fn display_text(state: &TextBoxState, placeholder: &str) -> (r: (String, bool))
    ensures
        ({
            let t = state.text_seq();
            let show = t.len() == 0 && state.marked() is None && placeholder@.len() > 0;
            &&& r.1 == show
            &&& show ==> r.0@ == placeholder@
            &&& !show && state.password_of() && t.len() > 0 ==> r.0@ == bullets(t.len())
            &&& !show && !(state.password_of() && t.len() > 0) ==> r.0@ == t
        }),
{
    let text = state.text();
    let is_empty = byte_len(text) == 0;
    proof {
        lemma_len_zero(text@);
        lemma_len_zero(placeholder@);
    }
    let show = is_empty && state.marked_range().is_none() && byte_len(placeholder) > 0;
    if show {
        (placeholder.to_owned(), true)
    } else if state.is_password() && !is_empty {
        (mask(text), false)
    } else {
        (text.to_owned(), false)
    }
}

/// Which border style a field shows.
#[derive(Clone, Copy, Debug, PartialEq, Eq, Structural)]
pub enum BorderKind {
    Disabled,
    Focused,
    Invalid,
    Warning,
    Normal,
}

/// Border choice: disabled beats focus, focus beats validation.
pub fn border_kind(disabled: bool, focused: bool, validation: &ValidationState) -> (r: BorderKind)
    ensures
        disabled ==> r == BorderKind::Disabled,
        !disabled && focused ==> r == BorderKind::Focused,
        !disabled && !focused ==> r == (match *validation {
            ValidationState::Invalid(_) => BorderKind::Invalid,
            ValidationState::Warning(_) => BorderKind::Warning,
            _ => BorderKind::Normal,
        }),
{
    if disabled {
        BorderKind::Disabled
    } else if focused {
        BorderKind::Focused
    } else {
        match validation {
            ValidationState::Invalid(_) => BorderKind::Invalid,
            ValidationState::Warning(_) => BorderKind::Warning,
            _ => BorderKind::Normal,
        }
    }
}

/// Stale-result suppression for asynchronous validation: each run takes a
/// ticket, and only the result of the latest run is applied.
pub struct ValidationGate {
    generation: u64,
}

impl ValidationGate {
    pub closed spec fn current(&self) -> u64 {
        self.generation
    }

    pub fn new() -> (g: Self)
        ensures
            g.current() == 0,
    {
        ValidationGate { generation: 0 }
    }

    /// Start a run: a fresh ticket that supersedes every earlier one.
    pub fn start(&mut self) -> (ticket: u64)
        requires
            old(self).current() < u64::MAX,
        ensures
            ticket == old(self).current() + 1,
            final(self).current() == ticket,
    {
        self.generation = self.generation + 1;
        self.generation
    }

    /// Whether the result of the run holding `ticket` may still be applied.
    pub fn accepts(&self, ticket: u64) -> (r: bool)
        ensures
            r == (ticket == self.current()),
    {
        self.generation == ticket
    }
}

/// A result of an earlier run is refused once a newer run has started.
pub proof fn lemma_stale_result_refused(g0: ValidationGate, g1: ValidationGate, t0: u64, g2: ValidationGate, t1: u64)
    requires
        t0 == g0.current() + 1,
        g1.current() == t0,
        t1 == g1.current() + 1,
        g2.current() == t1,
    ensures
        t0 != g2.current(),
        t1 == g2.current(),
{
}

} // verus!
