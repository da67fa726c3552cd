//! Pure text-editing state — text, selection, IME marked text, mode,
//! validation, and history.
//!
//! All offsets are UTF-8 byte offsets. Every mutation goes through a method
//! of `TextBoxState`, which guarantees clamping to character boundaries,
//! newline normalization and undo recording in one place.
use std::ops::Range;

use vstd::prelude::*;

use crate::edit::{is_white_space, is_white_space_char, normalize_newlines, normalize_newlines_str, splice_str};
use crate::history::{
    history_after_redo, history_after_undo, history_push, history_wf, keep_newest, Entry, History,
    HistoryModel,
};
use crate::mode::{Mode, TextWrap};
use crate::segmentation::{grapheme_starts, word_spans};
use crate::selection::{
    apply_movement, model_bounds, model_collapsed, model_extend, model_range, model_select_to, model_within,
    movement_target, Movement, Selection, SelectionModel,
};
use crate::str_ops::{byte_len, chars_of, slice_at};
use crate::utf::{
    ceil_char_boundary, clamp_range, floor_char_boundary, utf16_offset_to_utf8,
    utf16_to_utf8_spec, utf8_to_utf16_spec,
};
use crate::utf8_model::{
    byte_slice, chars_within, floor_boundary, is_boundary, lemma_boundary_index,
    lemma_chars_within_offset, lemma_floor_ceil, lemma_offset_bounds, lemma_offset_mono, splice,
    utf8_len,
};
use crate::validation::ValidationState;

verus! {

/// Classifies a mutation for undo coalescing. Consecutive same-kind edits at
/// contiguous offsets fold into a single undo step; `Other` always breaks the
/// run (paste, replace, newline, IME, programmatic set).
#[derive(Clone, Copy, Debug, PartialEq, Eq, Structural)]
pub enum EditKind {
    Insert,
    Delete,
    Other,
}

/// Pure text input state.
#[derive(Clone, Debug)]
pub struct TextBoxState {
    text: String,
    selection: Selection,
    marked_range: Option<Range<usize>>,
    mode: Mode,
    validation: ValidationState,
    disabled: bool,
    read_only: bool,
    password: bool,
    history: History,
    /// Kind of the most recent recorded edit (drives undo coalescing).
    last_edit: EditKind,
    /// Caret offset immediately after the last coalescable edit. A new edit
    /// coalesces only when its anchor offset equals this value.
    coalesce_caret: Option<usize>,
    /// Counter incremented after every mutation of the text.
    pub version: u64,
}

/// A snapshot whose selection lies on character boundaries of its text.
pub open spec fn entry_valid(e: Entry) -> bool {
    model_within(e.selection@, e.text@)
}

/// Every snapshot of a history is valid.
pub open spec fn entries_valid(h: HistoryModel) -> bool {
    &&& forall|i: int| 0 <= i < h.0.len() ==> entry_valid(#[trigger] h.0[i])
    &&& forall|i: int| 0 <= i < h.1.len() ==> entry_valid(#[trigger] h.1[i])
}

/// A marked range that is ordered and lies on character boundaries.
pub open spec fn marked_valid(m: Option<Range<usize>>, text: Seq<char>) -> bool {
    m matches Some(r) ==> r.start <= r.end && is_boundary(text, r.start as int) && is_boundary(
        text,
        r.end as int,
    )
}

/// Whether an edit of `kind` anchored at `anchor` extends the current undo run.
pub open spec fn coalesces(last: EditKind, run_caret: Option<usize>, kind: EditKind, anchor: usize) -> bool {
    kind != EditKind::Other && last == kind && run_caret == Some(anchor)
}

/// A typed edit: one non-whitespace character replacing a collapsed selection.
pub open spec fn is_typing(range_is_none: bool, sel: SelectionModel, ins: Seq<char>) -> bool {
    range_is_none && model_collapsed(sel) && ins.len() == 1 && !is_white_space(ins[0])
}

impl TextBoxState {
    /// The current text and selection, as an undo snapshot would hold them.
    pub closed spec fn current_entry(&self) -> Entry {
        Entry { text: self.text, selection: self.selection }
    }

    /// The characters of the text.
    pub open spec fn text_seq(&self) -> Seq<char> {
        self.current_entry().text@
    }

    /// The selection.
    pub open spec fn sel(&self) -> SelectionModel {
        self.current_entry().selection@
    }

    /// The IME marked range.
    pub closed spec fn marked(&self) -> Option<Range<usize>> {
        self.marked_range
    }

    /// The field mode.
    pub closed spec fn mode_of(&self) -> Mode {
        self.mode
    }

    /// The validation state.
    pub closed spec fn validation_of(&self) -> ValidationState {
        self.validation
    }

    /// Whether the field is disabled.
    pub closed spec fn disabled_of(&self) -> bool {
        self.disabled
    }

    /// Whether the field is read-only.
    pub closed spec fn read_only_of(&self) -> bool {
        self.read_only
    }

    /// Whether the field masks its text.
    pub closed spec fn password_of(&self) -> bool {
        self.password
    }

    /// The undo/redo history.
    pub closed spec fn hist(&self) -> HistoryModel {
        self.history@
    }

    /// Kind of the most recent recorded edit.
    pub closed spec fn last_kind(&self) -> EditKind {
        self.last_edit
    }

    /// Caret position after the last coalescable edit, if any.
    pub closed spec fn run_caret(&self) -> Option<usize> {
        self.coalesce_caret
    }

    /// The version counter.
    pub closed spec fn ver(&self) -> u64 {
        self.version
    }

    /// Editing is allowed when the field is neither disabled nor read-only.
    pub open spec fn editable(&self) -> bool {
        !self.disabled_of() && !self.read_only_of()
    }

    /// Single-line mode turns line breaks into spaces.
    pub open spec fn single_line(&self) -> bool {
        self.mode_of() is SingleLine
    }

    /// The state's internal invariant.
    pub open spec fn wf(&self) -> bool {
        &&& model_within(self.sel(), self.text_seq())
        &&& marked_valid(self.marked(), self.text_seq())
        &&& history_wf(self.hist())
        &&& entries_valid(self.hist())
        &&& self.run_caret() is Some ==> self.hist().0.len() > 0 && self.hist().1.len() == 0
    }

    /// The version counter stays put or goes up by one, and goes up whenever
    /// the text changes.
    pub open spec fn version_step(&self, new: &TextBoxState) -> bool {
        &&& (new.ver() == self.ver() || new.ver() == self.ver() + 1)
        &&& new.text_seq() != self.text_seq() ==> new.ver() == self.ver() + 1
    }

    /// Mode, validation and the flags are the same in both states.
    pub open spec fn same_settings(&self, other: &TextBoxState) -> bool {
        &&& self.mode_of() == other.mode_of()
        &&& self.validation_of() == other.validation_of()
        &&& self.disabled_of() == other.disabled_of()
        &&& self.read_only_of() == other.read_only_of()
        &&& self.password_of() == other.password_of()
    }

    /// Every observable part of the two states is the same.
    pub open spec fn same_state(&self, other: &TextBoxState) -> bool {
        &&& self.current_entry() == other.current_entry()
        &&& self.marked() == other.marked()
        &&& self.hist() == other.hist()
        &&& self.last_kind() == other.last_kind()
        &&& self.run_caret() == other.run_caret()
        &&& self.ver() == other.ver()
        &&& self.same_settings(other)
    }

    /// Only the selection changed (the coalescing run is broken, the marked
    /// range possibly cleared).
    pub open spec fn moved_to(&self, new: &TextBoxState, sel: SelectionModel, keep_marked: bool) -> bool {
        &&& new.text_seq() == self.text_seq()
        &&& new.sel() == sel
        &&& new.marked() == (if keep_marked {
            self.marked()
        } else {
            None
        })
        &&& new.hist() == self.hist()
        &&& new.last_kind() == EditKind::Other
        &&& new.run_caret() is None
        &&& new.ver() == self.ver()
        &&& self.same_settings(new)
    }

    /// `new` is `self` after replacing bytes `a..b` with `ins` as an edit of
    /// `kind` anchored at `anchor` for coalescing.
    pub open spec fn edited_to(
        &self,
        new: &TextBoxState,
        a: usize,
        b: usize,
        ins: Seq<char>,
        kind: EditKind,
        anchor: usize,
    ) -> bool {
        &&& new.text_seq() == splice(self.text_seq(), a as int, b as int, ins)
        &&& new.sel() == ((a + utf8_len(ins)) as usize, None::<usize>, false)
        &&& new.marked() is None
        &&& new.hist() == (if coalesces(self.last_kind(), self.run_caret(), kind, anchor) {
            self.hist()
        } else {
            history_push(self.hist(), self.current_entry())
        })
        &&& new.last_kind() == kind
        &&& new.run_caret() == (if kind == EditKind::Other {
            None
        } else {
            Some((a + utf8_len(ins)) as usize)
        })
        &&& new.ver() == self.ver() + 1
        &&& self.same_settings(new)
    }

    /// `new` is `self` after a successful undo.
    pub open spec fn undone_to(&self, new: &TextBoxState) -> bool {
        &&& self.hist().0.len() > 0
        &&& new.current_entry() == self.hist().0.last()
        &&& new.hist() == history_after_undo(self.hist(), self.current_entry())
        &&& new.marked() is None
        &&& new.last_kind() == EditKind::Other
        &&& new.run_caret() is None
        &&& new.ver() == self.ver() + 1
        &&& self.same_settings(new)
    }

    /// `new` is `self` after a successful redo.
    pub open spec fn redone_to(&self, new: &TextBoxState) -> bool {
        &&& self.hist().1.len() > 0
        &&& new.current_entry() == self.hist().1.last()
        &&& new.hist() == history_after_redo(self.hist(), self.current_entry())
        &&& new.marked() is None
        &&& new.last_kind() == EditKind::Other
        &&& new.run_caret() is None
        &&& new.ver() == self.ver() + 1
        &&& self.same_settings(new)
    }

    /// The byte range an edit replaces: the clamped `range`, or the selection.
    pub open spec fn edit_target(&self, range: Option<Range<usize>>) -> (usize, usize) {
        match range {
            Some(r) => (
                floor_boundary(self.text_seq(), r.start as int) as usize,
                floor_boundary(self.text_seq(), r.end as int) as usize,
            ),
            None => model_bounds(self.sel()),
        }
    }

    /// Where a movement starts: the head, or when extending a selection that
    /// has an anchor, the start of its range.
    pub open spec fn move_start(&self, extend: bool) -> usize {
        let m = self.sel();
        if !extend {
            m.0
        } else {
            match m.1 {
                Some(a) => if m.0 <= a {
                    m.0
                } else {
                    a
                },
                None => m.0,
            }
        }
    }

    /// The offset a movement reaches from the current selection.
    pub open spec fn move_target(&self, movement: Movement, extend: bool) -> usize {
        let t = self.text_seq();
        movement_target(
            t,
            floor_boundary(t, self.move_start(extend) as int) as int,
            movement,
            grapheme_starts(t),
            word_spans(t),
        ) as usize
    }

    /// The byte range a single-grapheme deletion from a collapsed caret removes.
    pub open spec fn delete_span(&self, forward: bool) -> (usize, usize) {
        let t = self.text_seq();
        let c = self.sel().0;
        if forward {
            (c, movement_target(t, c as int, Movement::GraphemeRight, grapheme_starts(t), word_spans(t)) as usize)
        } else {
            (movement_target(t, c as int, Movement::GraphemeLeft, grapheme_starts(t), word_spans(t)) as usize, c)
        }
    }
}

impl TextBoxState {
    pub fn new() -> (s: Self)
        ensures
            s.wf(),
            s.text_seq() == Seq::<char>::empty(),
            s.sel() == (0usize, None::<usize>, false),
            s.marked() is None,
            s.mode_of() == Mode::SingleLine,
            s.validation_of() is NotValidated,
            !s.disabled_of() && !s.read_only_of() && !s.password_of(),
            s.hist() == (Seq::<Entry>::empty(), Seq::<Entry>::empty(), 256usize),
            s.last_kind() == EditKind::Other,
            s.run_caret() is None,
            s.ver() == 0,
    {
        let s = TextBoxState {
            text: String::new(),
            selection: Selection::caret(0),
            marked_range: None,
            mode: Mode::SingleLine,
            validation: ValidationState::NotValidated,
            disabled: false,
            read_only: false,
            password: false,
            history: History::new(),
            last_edit: EditKind::Other,
            coalesce_caret: None,
            version: 0,
        };
        proof {
            lemma_chars_within_offset(s.text@, 0);
            crate::utf8_model::lemma_offset_zero_full(s.text@);
        }
        s
    }

    pub fn with_mode(mode: Mode) -> (s: Self)
        ensures
            s.wf(),
            s.text_seq() == Seq::<char>::empty(),
            s.sel() == (0usize, None::<usize>, false),
            s.marked() is None,
            s.mode_of() == mode,
            s.validation_of() is NotValidated,
            !s.disabled_of() && !s.read_only_of() && !s.password_of(),
            s.hist() == (Seq::<Entry>::empty(), Seq::<Entry>::empty(), 256usize),
            s.last_kind() == EditKind::Other,
            s.run_caret() is None,
            s.ver() == 0,
    {
        let mut s = Self::new();
        s.mode = mode;
        s
    }

    pub fn mode(&self) -> (r: &Mode)
        ensures
            *r == self.mode_of(),
    {
        &self.mode
    }

    pub fn set_mode(&mut self, mode: Mode)
        ensures
            old(self).version_step(&*final(self)),
            final(self).mode_of() == mode,
            final(self).current_entry() == old(self).current_entry(),
            final(self).marked() == old(self).marked(),
            final(self).hist() == old(self).hist(),
            final(self).validation_of() == old(self).validation_of(),
            final(self).disabled_of() == old(self).disabled_of(),
            final(self).read_only_of() == old(self).read_only_of(),
            final(self).password_of() == old(self).password_of(),
            final(self).last_kind() == old(self).last_kind(),
            final(self).run_caret() == old(self).run_caret(),
            final(self).ver() == old(self).ver(),
    {
        self.mode = mode;
    }

    pub fn text(&self) -> (r: &str)
        ensures
            r@ == self.text_seq(),
    {
        self.text.as_str()
    }

    pub fn selection(&self) -> (r: &Selection)
        ensures
            r@ == self.sel(),
    {
        &self.selection
    }

    /// Clamp an offset to a character boundary within the text.
    fn clamp_offset(&self, offset: usize) -> (r: usize)
        ensures
            r == floor_boundary(self.text_seq(), offset as int),
            is_boundary(self.text_seq(), r as int),
    {
        let len = byte_len(self.text.as_str());
        let o = if offset < len {
            offset
        } else {
            len
        };
        proof {
            lemma_floor_ceil(self.text@, offset as int);
            lemma_floor_ceil(self.text@, len as int);
        }
        floor_char_boundary(self.text.as_str(), o)
    }

    /// Select between two offsets (each clamped to a character boundary).
    pub fn set_selection_range(&mut self, start: usize, end: usize)
        requires
            old(self).wf(),
        ensures
            final(self).wf(),
            old(self).version_step(&*final(self)),
            old(self).moved_to(
                &*final(self),
                model_range(
                    floor_boundary(old(self).text_seq(), start as int) as usize,
                    floor_boundary(old(self).text_seq(), end as int) as usize,
                ),
                true,
            ),
    {
        let start = self.clamp_offset(start);
        let end = self.clamp_offset(end);
        self.selection.set_range(start, end);
        self.break_coalescing();
    }

    /// Extend the selection to `offset` (clamped to a character boundary).
    pub fn select_to(&mut self, offset: usize)
        requires
            old(self).wf(),
        ensures
            final(self).wf(),
            old(self).version_step(&*final(self)),
            old(self).moved_to(
                &*final(self),
                model_select_to(
                    old(self).sel(),
                    floor_boundary(old(self).text_seq(), offset as int) as usize,
                ),
                true,
            ),
    {
        let offset = self.clamp_offset(offset);
        self.selection.select_to(offset);
        self.break_coalescing();
    }

    pub fn marked_range(&self) -> (r: Option<&Range<usize>>)
        ensures
            r is Some == self.marked() is Some,
            r is Some ==> *r.unwrap() == self.marked().unwrap(),
    {
        match &self.marked_range {
            Some(r) => Some(r),
            None => None,
        }
    }

    /// Clear the IME marked range without deleting the composed text.
    pub fn clear_marked_range(&mut self)
        requires
            old(self).wf(),
        ensures
            final(self).wf(),
            old(self).version_step(&*final(self)),
            final(self).marked() is None,
            final(self).current_entry() == old(self).current_entry(),
            final(self).hist() == old(self).hist(),
            final(self).last_kind() == old(self).last_kind(),
            final(self).run_caret() == old(self).run_caret(),
            final(self).ver() == old(self).ver(),
            old(self).same_settings(&*final(self)),
    {
        self.marked_range = None;
    }

    pub fn validation(&self) -> (r: &ValidationState)
        ensures
            *r == self.validation_of(),
    {
        &self.validation
    }

    pub fn set_validation(&mut self, state: ValidationState)
        ensures
            old(self).version_step(&*final(self)),
            final(self).validation_of() == state,
            final(self).current_entry() == old(self).current_entry(),
            final(self).marked() == old(self).marked(),
            final(self).hist() == old(self).hist(),
            final(self).mode_of() == old(self).mode_of(),
            final(self).disabled_of() == old(self).disabled_of(),
            final(self).read_only_of() == old(self).read_only_of(),
            final(self).password_of() == old(self).password_of(),
            final(self).last_kind() == old(self).last_kind(),
            final(self).run_caret() == old(self).run_caret(),
            final(self).ver() == old(self).ver(),
    {
        self.validation = state;
    }

    pub fn is_disabled(&self) -> (r: bool)
        ensures
            r == self.disabled_of(),
    {
        self.disabled
    }

    pub fn set_disabled(&mut self, disabled: bool)
        ensures
            old(self).version_step(&*final(self)),
            final(self).disabled_of() == disabled,
            final(self).current_entry() == old(self).current_entry(),
            final(self).marked() == old(self).marked(),
            final(self).hist() == old(self).hist(),
            final(self).mode_of() == old(self).mode_of(),
            final(self).validation_of() == old(self).validation_of(),
            final(self).read_only_of() == old(self).read_only_of(),
            final(self).password_of() == old(self).password_of(),
            final(self).last_kind() == old(self).last_kind(),
            final(self).run_caret() == old(self).run_caret(),
            final(self).ver() == old(self).ver(),
    {
        self.disabled = disabled;
    }

    pub fn is_read_only(&self) -> (r: bool)
        ensures
            r == self.read_only_of(),
    {
        self.read_only
    }

    pub fn set_read_only(&mut self, read_only: bool)
        ensures
            old(self).version_step(&*final(self)),
            final(self).read_only_of() == read_only,
            final(self).current_entry() == old(self).current_entry(),
            final(self).marked() == old(self).marked(),
            final(self).hist() == old(self).hist(),
            final(self).mode_of() == old(self).mode_of(),
            final(self).validation_of() == old(self).validation_of(),
            final(self).disabled_of() == old(self).disabled_of(),
            final(self).password_of() == old(self).password_of(),
            final(self).last_kind() == old(self).last_kind(),
            final(self).run_caret() == old(self).run_caret(),
            final(self).ver() == old(self).ver(),
    {
        self.read_only = read_only;
    }

    pub fn is_password(&self) -> (r: bool)
        ensures
            r == self.password_of(),
    {
        self.password
    }

    pub fn set_password(&mut self, password: bool)
        ensures
            old(self).version_step(&*final(self)),
            final(self).password_of() == password,
            final(self).current_entry() == old(self).current_entry(),
            final(self).marked() == old(self).marked(),
            final(self).hist() == old(self).hist(),
            final(self).mode_of() == old(self).mode_of(),
            final(self).validation_of() == old(self).validation_of(),
            final(self).disabled_of() == old(self).disabled_of(),
            final(self).read_only_of() == old(self).read_only_of(),
            final(self).last_kind() == old(self).last_kind(),
            final(self).run_caret() == old(self).run_caret(),
            final(self).ver() == old(self).ver(),
    {
        self.password = password;
    }

    pub fn wrap(&self) -> (r: TextWrap)
        ensures
            r == (match self.mode_of() {
                Mode::SingleLine => TextWrap::NoWrap,
                Mode::MultiLine { wrap, .. } => wrap,
            }),
    {
        match self.mode {
            Mode::SingleLine => TextWrap::NoWrap,
            Mode::MultiLine { wrap, .. } => wrap,
        }
    }

    pub fn min_lines(&self) -> (r: usize)
        ensures
            r == (match self.mode_of() {
                Mode::SingleLine => 1usize,
                Mode::MultiLine { min_lines, .. } => min_lines,
            }),
    {
        match self.mode {
            Mode::SingleLine => 1,
            Mode::MultiLine { min_lines, .. } => min_lines,
        }
    }

    pub fn max_lines(&self) -> (r: Option<usize>)
        ensures
            r == (match self.mode_of() {
                Mode::SingleLine => Some(1usize),
                Mode::MultiLine { max_lines, .. } => max_lines,
            }),
    {
        match self.mode {
            Mode::SingleLine => Some(1),
            Mode::MultiLine { max_lines, .. } => max_lines,
        }
    }

    pub fn can_edit(&self) -> (r: bool)
        ensures
            r == self.editable(),
    {
        !self.disabled && !self.read_only
    }

    pub fn can_undo(&self) -> (r: bool)
        ensures
            r == (self.hist().0.len() > 0),
    {
        self.history.can_undo()
    }

    pub fn can_redo(&self) -> (r: bool)
        ensures
            r == (self.hist().1.len() > 0),
    {
        self.history.can_redo()
    }

    /// Break the current coalescing run so the next typed character starts a
    /// fresh undo step.
    fn break_coalescing(&mut self)
        ensures
            final(self).last_kind() == EditKind::Other,
            final(self).run_caret() is None,
            final(self).current_entry() == old(self).current_entry(),
            final(self).marked() == old(self).marked(),
            final(self).hist() == old(self).hist(),
            final(self).ver() == old(self).ver(),
            old(self).same_settings(&*final(self)),
    {
        self.last_edit = EditKind::Other;
        self.coalesce_caret = None;
    }

    /// `text` normalized for the current mode.
    fn normalize_text(&self, text: &str) -> (r: String)
        ensures
            r@ == normalize_newlines(text@, self.single_line()),
    {
        let single = match self.mode {
            Mode::SingleLine => true,
            Mode::MultiLine { .. } => false,
        };
        normalize_newlines_str(text, single)
    }

    /// Record a pre-mutation undo snapshot unless this edit coalesces with the
    /// previous one (same kind, contiguous offset).
    fn record_snapshot(&mut self, kind: EditKind, anchor: usize)
        requires
            old(self).wf(),
        ensures
            final(self).hist() == (if coalesces(old(self).last_kind(), old(self).run_caret(), kind, anchor) {
                old(self).hist()
            } else {
                history_push(old(self).hist(), old(self).current_entry())
            }),
            history_wf(final(self).hist()),
            entries_valid(final(self).hist()),
            final(self).last_kind() == kind,
            final(self).current_entry() == old(self).current_entry(),
            final(self).marked() == old(self).marked(),
            final(self).run_caret() == old(self).run_caret(),
            final(self).ver() == old(self).ver(),
            old(self).same_settings(&*final(self)),
    {
        let coalesce = kind != EditKind::Other && self.last_edit == kind && match self.coalesce_caret {
            Some(c) => c == anchor,
            None => false,
        };
        if !coalesce {
            let text = self.text.clone();
            let selection = self.selection.clone();
            self.history.push(text, selection);
            proof {
                let h = old(self).hist();
                let e = old(self).current_entry();
                let pushed = h.0.push(e);
                let kept = keep_newest(pushed, h.2 as nat);
                assert forall|i: int| 0 <= i < kept.len() implies entry_valid(#[trigger] kept[i]) by {
                    if pushed.len() > h.2 {
                        assert(kept[i] == pushed[i + (pushed.len() - h.2)]);
                    }
                }
            }
        }
        self.last_edit = kind;
    }

    /// Replace the entire text, collapsing the selection to the end and clearing history.
    pub fn set_text(&mut self, text: &str)
        requires
            old(self).wf(),
            old(self).ver() < u64::MAX,
        ensures
            final(self).wf(),
            old(self).version_step(&*final(self)),
            final(self).text_seq() == normalize_newlines(text@, old(self).single_line()),
            final(self).sel() == (utf8_len(final(self).text_seq()) as usize, None::<usize>, false),
            final(self).marked() is None,
            final(self).hist() == (Seq::<Entry>::empty(), Seq::<Entry>::empty(), old(self).hist().2),
            final(self).last_kind() == EditKind::Other,
            final(self).run_caret() is None,
            final(self).ver() == old(self).ver() + 1,
            old(self).same_settings(&*final(self)),
    {
        let text = self.normalize_text(text);
        let end = byte_len(text.as_str());
        self.text = text;
        self.selection.set_caret(end);
        self.marked_range = None;
        self.history.clear();
        self.break_coalescing();
        self.version = self.version + 1;
        proof {
            lemma_floor_ceil(self.text@, end as int);
        }
    }

    /// Insert text at the caret (replacing the selection), as an edit.
    pub fn insert(&mut self, text: &str)
        requires
            old(self).wf(),
            old(self).ver() < u64::MAX,
        ensures
            final(self).wf(),
            old(self).version_step(&*final(self)),
            old(self).editable() ==> final(self).hist().0.len() > 0 && final(self).hist().1.len() == 0,
            old(self).editable() && normalize_newlines(text@, old(self).single_line()).len() != 1
                ==> final(self).hist().0.last() == old(self).current_entry(),
            !old(self).editable() ==> *final(self) == *old(self),
            old(self).editable() ==> old(self).edited_to(
                &*final(self),
                old(self).edit_target(None).0,
                old(self).edit_target(None).1,
                normalize_newlines(text@, old(self).single_line()),
                if is_typing(true, old(self).sel(), normalize_newlines(text@, old(self).single_line())) {
                    EditKind::Insert
                } else {
                    EditKind::Other
                },
                old(self).edit_target(None).0,
            ),
    {
        self.replace_range(None, text);
    }

    /// Replace a UTF-8 byte range — the current selection when `range` is
    /// `None` — with `text` normalized for the mode. Supplied ranges are
    /// clamped to character boundaries.
    ///
    /// Single non-whitespace character insertions into a collapsed selection
    /// coalesce into the current undo step; all other edits start a new step.
    pub fn replace_range(&mut self, range: Option<Range<usize>>, text: &str)
        requires
            old(self).wf(),
            old(self).ver() < u64::MAX,
            old(self).editable() ==> old(self).edit_target(range).0 <= old(self).edit_target(range).1,
        ensures
            final(self).wf(),
            old(self).version_step(&*final(self)),
            old(self).editable() ==> final(self).hist().0.len() > 0 && final(self).hist().1.len() == 0,
            old(self).editable() && normalize_newlines(text@, old(self).single_line()).len() != 1
                ==> final(self).hist().0.last() == old(self).current_entry(),
            !old(self).editable() ==> *final(self) == *old(self),
            old(self).editable() ==> old(self).edited_to(
                &*final(self),
                old(self).edit_target(range).0,
                old(self).edit_target(range).1,
                normalize_newlines(text@, old(self).single_line()),
                if is_typing(range is None, old(self).sel(), normalize_newlines(text@, old(self).single_line())) {
                    EditKind::Insert
                } else {
                    EditKind::Other
                },
                old(self).edit_target(range).0,
            ),
    {
        if !self.can_edit() {
            return;
        }
        let ins = self.normalize_text(text);
        let range_is_none = range.is_none();
        let target = match range {
            Some(r) => clamp_range(self.text.as_str(), &r),
            None => self.selection.range_bounds(),
        };
        let ins_chars = chars_of(ins.as_str());
        let typing = range_is_none && self.selection.is_collapsed() && ins_chars.len() == 1
            && !is_white_space_char(ins_chars[0]);
        let kind = if typing {
            EditKind::Insert
        } else {
            EditKind::Other
        };
        self.record_snapshot(kind, target.start);
        self.apply_edit(target.start, target.end, ins.as_str(), kind);
    }

    /// Replace bytes `a..b` with `ins`, collapse the caret after it, and bump the version.
    fn apply_edit(&mut self, a: usize, b: usize, ins: &str, kind: EditKind)
        requires
            is_boundary(old(self).text_seq(), a as int),
            is_boundary(old(self).text_seq(), b as int),
            a <= b,
            old(self).ver() < u64::MAX,
            history_wf(old(self).hist()),
            entries_valid(old(self).hist()),
            kind != EditKind::Other ==> old(self).hist().0.len() > 0 && old(self).hist().1.len() == 0,
        ensures
            final(self).wf(),
            final(self).text_seq() == splice(old(self).text_seq(), a as int, b as int, ins@),
            final(self).sel() == ((a + utf8_len(ins@)) as usize, None::<usize>, false),
            is_boundary(final(self).text_seq(), a as int),
            a + utf8_len(ins@) <= usize::MAX,
            final(self).marked() is None,
            final(self).hist() == old(self).hist(),
            final(self).last_kind() == old(self).last_kind(),
            final(self).run_caret() == (if kind == EditKind::Other {
                None
            } else {
                Some((a + utf8_len(ins@)) as usize)
            }),
            final(self).ver() == old(self).ver() + 1,
            old(self).same_settings(&*final(self)),
    {
        let new_text = splice_str(self.text.as_str(), a, b, ins);
        let new_len = byte_len(new_text.as_str());
        let ins_len = byte_len(ins);
        proof {
            lemma_boundary_index(self.text@, b as int);
        }
        let caret = a + ins_len;
        proof {
            lemma_boundary_index(self.text@, a as int);
            let i0 = chars_within(self.text@, a as int) as int;
            assert(new_text@.take(i0) =~= self.text@.take(i0));
            lemma_chars_within_offset(new_text@, i0);
            let i = chars_within(self.text@, a as int) as int;
            let t = self.text@.take(i);
            let n = new_text@;
            assert(n.take(i + ins@.len()) =~= t + ins@);
            crate::utf8_model::lemma_utf8_len_concat(t, ins@);
            assert(t.len() == i);
            assert(self.text@.take(i) =~= t);
            lemma_chars_within_offset(n, i + ins@.len());
        }
        self.text = new_text;
        self.selection.set_caret(caret);
        self.marked_range = None;
        self.coalesce_caret = if kind == EditKind::Other {
            None
        } else {
            Some(caret)
        };
        self.version = self.version + 1;
    }

    /// Replace a UTF-8 byte range without recording an undo snapshot (used by
    /// IME composition). When `mark` is true and the normalized text is not
    /// empty, its span becomes the IME marked range.
    pub fn replace_range_silent(&mut self, range: Range<usize>, text: &str, mark: bool)
        requires
            old(self).wf(),
            old(self).ver() < u64::MAX,
            old(self).editable() ==> floor_boundary(old(self).text_seq(), range.start as int)
                <= floor_boundary(old(self).text_seq(), range.end as int),
        ensures
            final(self).wf(),
            old(self).version_step(&*final(self)),
            !old(self).editable() ==> *final(self) == *old(self),
            old(self).editable() ==> ({
                let t = old(self).text_seq();
                let ins = normalize_newlines(text@, old(self).single_line());
                let a = floor_boundary(t, range.start as int);
                let b = floor_boundary(t, range.end as int);
                let caret = (a + utf8_len(ins)) as usize;
                &&& final(self).text_seq() == splice(t, a as int, b as int, ins)
                &&& final(self).sel() == (caret, None::<usize>, false)
                &&& final(self).marked() == (if mark && ins.len() > 0 {
                    Some(a as usize..caret)
                } else {
                    None
                })
                &&& final(self).hist() == old(self).hist()
                &&& final(self).last_kind() == EditKind::Other
                &&& final(self).run_caret() is None
                &&& final(self).ver() == old(self).ver() + 1
                &&& old(self).same_settings(&*final(self))
            }),
    {
        if !self.can_edit() {
            return;
        }
        let ins = self.normalize_text(text);
        let target = clamp_range(self.text.as_str(), &range);
        let ins_len = byte_len(ins.as_str());
        let nonempty = ins_len > 0;
        proof {
            crate::utf8_model::lemma_offset_zero_full(ins@);
            lemma_offset_bounds(ins@, ins@.len() as int);
        }
        self.apply_edit(target.start, target.end, ins.as_str(), EditKind::Other);
        let caret = self.selection.head();
        self.marked_range = if mark && nonempty {
            Some(target.start..caret)
        } else {
            None
        };
        self.last_edit = EditKind::Other;
        proof {
            lemma_floor_ceil(old(self).text@, range.start as int);
        }
    }

    /// Move the caret/selection by a movement unit. If `extend` is true the
    /// selection is extended rather than collapsed: the movement starts from
    /// the start of the selection and the result is `model_extend`.
    pub fn move_by(&mut self, movement: Movement, extend: bool)
        requires
            old(self).wf(),
        ensures
            final(self).wf(),
            old(self).version_step(&*final(self)),
            old(self).moved_to(
                &*final(self),
                if extend {
                    model_extend(old(self).sel(), old(self).move_target(movement, extend))
                } else {
                    (old(self).move_target(movement, extend), None::<usize>, false)
                },
                false,
            ),
    {
        let text_len = byte_len(self.text.as_str());
        let start = match (extend, self.selection.anchor()) {
            (false, _) => self.selection.head(),
            (true, Some(anchor)) => {
                if self.selection.head() <= anchor {
                    self.selection.head()
                } else {
                    anchor
                }
            },
            (true, None) => self.selection.head(),
        };
        let start = floor_char_boundary(self.text.as_str(), if start < text_len {
            start
        } else {
            text_len
        });
        proof {
            let s0 = old(self).move_start(extend);
            lemma_floor_ceil(self.text@, s0 as int);
            lemma_floor_ceil(self.text@, text_len as int);
            lemma_boundary_index(self.text@, start as int);
        }
        let target = apply_movement(self.text.as_str(), start, movement);
        let target = if target < text_len {
            target
        } else {
            text_len
        };
        let new_offset = ceil_char_boundary(self.text.as_str(), target);
        proof {
            lemma_floor_ceil(self.text@, target as int);
        }
        if extend {
            match self.selection.anchor() {
                None => self.selection.select_to(new_offset),
                Some(_) => {
                    let bounds = self.selection.range_bounds();
                    let (lo, hi) = (bounds.start, bounds.end);
                    let reversed = self.selection.is_reversed();
                    if new_offset == lo && new_offset == hi {
                    } else if new_offset == lo {
                        self.selection.set_caret(lo);
                    } else if new_offset < lo {
                        self.selection.set_range(lo, new_offset);
                    } else if new_offset < hi && !reversed {
                        self.selection.set_range(hi, new_offset);
                    } else if new_offset > hi && reversed {
                        self.selection.set_range(hi, new_offset);
                    } else {
                        self.selection.set_range(lo, new_offset);
                    }
                },
            }
        } else {
            self.selection.set_caret(new_offset);
        }
        self.marked_range = None;
        self.break_coalescing();
    }

    pub fn line_start(&mut self, extend: bool)
        requires
            old(self).wf(),
        ensures
            final(self).wf(),
            old(self).version_step(&*final(self)),
            old(self).moved_to(
                &*final(self),
                if extend {
                    model_extend(old(self).sel(), old(self).move_target(Movement::LineStart, extend))
                } else {
                    (old(self).move_target(Movement::LineStart, extend), None::<usize>, false)
                },
                false,
            ),
    {
        self.move_by(Movement::LineStart, extend);
    }

    pub fn line_end(&mut self, extend: bool)
        requires
            old(self).wf(),
        ensures
            final(self).wf(),
            old(self).version_step(&*final(self)),
            old(self).moved_to(
                &*final(self),
                if extend {
                    model_extend(old(self).sel(), old(self).move_target(Movement::LineEnd, extend))
                } else {
                    (old(self).move_target(Movement::LineEnd, extend), None::<usize>, false)
                },
                false,
            ),
    {
        self.move_by(Movement::LineEnd, extend);
    }

    pub fn document_start(&mut self, extend: bool)
        requires
            old(self).wf(),
        ensures
            final(self).wf(),
            old(self).version_step(&*final(self)),
            old(self).moved_to(
                &*final(self),
                if extend {
                    model_extend(old(self).sel(), 0)
                } else {
                    (0usize, None::<usize>, false)
                },
                false,
            ),
    {
        self.move_by(Movement::DocumentStart, extend);
    }

    pub fn document_end(&mut self, extend: bool)
        requires
            old(self).wf(),
        ensures
            final(self).wf(),
            old(self).version_step(&*final(self)),
            old(self).moved_to(
                &*final(self),
                if extend {
                    model_extend(old(self).sel(), utf8_len(old(self).text_seq()) as usize)
                } else {
                    (utf8_len(old(self).text_seq()) as usize, None::<usize>, false)
                },
                false,
            ),
    {
        self.move_by(Movement::DocumentEnd, extend);
    }

    /// Select the whole text.
    pub fn select_all(&mut self)
        requires
            old(self).wf(),
        ensures
            final(self).wf(),
            old(self).version_step(&*final(self)),
            old(self).moved_to(&*final(self), model_range(0, utf8_len(old(self).text_seq()) as usize), false),
    {
        let end = byte_len(self.text.as_str());
        self.selection.set_range(0, end);
        self.marked_range = None;
        self.break_coalescing();
        proof {
            lemma_floor_ceil(self.text@, end as int);
            lemma_floor_ceil(self.text@, 0);
            lemma_chars_within_offset(self.text@, 0);
            crate::utf8_model::lemma_offset_zero_full(self.text@);
        }
    }

    /// Place a collapsed caret at `offset` (clamped to a character boundary).
    pub fn collapse_to(&mut self, offset: usize)
        requires
            old(self).wf(),
        ensures
            final(self).wf(),
            old(self).version_step(&*final(self)),
            old(self).moved_to(
                &*final(self),
                (floor_boundary(old(self).text_seq(), offset as int) as usize, None::<usize>, false),
                false,
            ),
    {
        let offset = self.clamp_offset(offset);
        self.selection.set_caret(offset);
        self.marked_range = None;
        self.break_coalescing();
    }

    pub fn move_to(&mut self, offset: usize)
        requires
            old(self).wf(),
        ensures
            final(self).wf(),
            old(self).version_step(&*final(self)),
            old(self).moved_to(
                &*final(self),
                (floor_boundary(old(self).text_seq(), offset as int) as usize, None::<usize>, false),
                false,
            ),
    {
        self.collapse_to(offset);
    }
    /// Delete the current selection if non-empty, otherwise delete the
    /// grapheme before (or, if `forward`, after) the caret.
    pub fn delete(&mut self, forward: bool)
        requires
            old(self).wf(),
            old(self).ver() < u64::MAX,
        ensures
            final(self).wf(),
            old(self).version_step(&*final(self)),
            !old(self).editable() ==> *final(self) == *old(self),
            old(self).editable() && !model_collapsed(old(self).sel()) ==> old(self).edited_to(
                &*final(self),
                model_bounds(old(self).sel()).0,
                model_bounds(old(self).sel()).1,
                Seq::<char>::empty(),
                EditKind::Other,
                model_bounds(old(self).sel()).0,
            ),
            old(self).editable() && model_collapsed(old(self).sel()) ==> {
                let (a, b) = old(self).delete_span(forward);
                let g = grapheme_starts(old(self).text_seq());
                let c = old(self).sel().0;
                &&& forward ==> a == c && (b == utf8_len(old(self).text_seq()) || g.contains(b))
                    && forall|i: int| 0 <= i < g.len() && #[trigger] g[i] > c ==> g[i] >= b
                &&& !forward ==> b == c && (a == 0 || g.contains(a))
                    && forall|i: int| 0 <= i < g.len() && #[trigger] g[i] < c ==> g[i] <= a
                &&& a == b ==> *final(self) == *old(self)
                &&& a != b ==> old(self).edited_to(
                    &*final(self),
                    a,
                    b,
                    Seq::<char>::empty(),
                    EditKind::Delete,
                    old(self).sel().0,
                )
            },
    {
        if !self.can_edit() {
            return;
        }
        if !self.selection.is_collapsed() {
            proof {
                reveal_strlit("");
                assert(normalize_newlines(""@, self.single_line()) =~= Seq::<char>::empty());
            }
            self.replace_range(None, "");
            return;
        }
        let cursor = self.selection.head();
        proof {
            crate::utf8_model::lemma_boundary_index(self.text@, cursor as int);
        }
        let (start, end) = if forward {
            (cursor, apply_movement(self.text.as_str(), cursor, Movement::GraphemeRight))
        } else {
            (apply_movement(self.text.as_str(), cursor, Movement::GraphemeLeft), cursor)
        };
        if start == end {
            return;
        }
        let empty: &str = "";
        proof {
            reveal_strlit("");
            crate::utf8_model::lemma_offset_zero_full(empty@);
        }
        self.record_snapshot(EditKind::Delete, cursor);
        self.apply_edit(start, end, empty, EditKind::Delete);
    }

    /// Delete the current selection (no-op if collapsed or not editable).
    pub fn delete_selection(&mut self)
        requires
            old(self).wf(),
            old(self).ver() < u64::MAX,
        ensures
            final(self).wf(),
            old(self).version_step(&*final(self)),
            !old(self).editable() || model_collapsed(old(self).sel()) ==> *final(self) == *old(self),
            old(self).editable() && !model_collapsed(old(self).sel()) ==> old(self).edited_to(
                &*final(self),
                model_bounds(old(self).sel()).0,
                model_bounds(old(self).sel()).1,
                Seq::<char>::empty(),
                EditKind::Other,
                model_bounds(old(self).sel()).0,
            ),
    {
        if self.selection.is_collapsed() || !self.can_edit() {
            return;
        }
        proof {
            reveal_strlit("");
            assert(normalize_newlines(""@, self.single_line()) =~= Seq::<char>::empty());
        }
        self.replace_range(None, "");
    }

    /// Snapshot the current text and selection for undo without changing them.
    /// Forces a new undo step.
    pub fn snapshot_for_undo(&mut self)
        requires
            old(self).wf(),
        ensures
            final(self).wf(),
            old(self).version_step(&*final(self)),
            final(self).hist() == history_push(old(self).hist(), old(self).current_entry()),
            final(self).current_entry() == old(self).current_entry(),
            final(self).marked() == old(self).marked(),
            final(self).last_kind() == EditKind::Other,
            final(self).run_caret() is None,
            final(self).ver() == old(self).ver(),
            old(self).same_settings(&*final(self)),
    {
        self.last_edit = EditKind::Other;
        self.record_snapshot(EditKind::Other, 0);
        self.break_coalescing();
    }

    /// Restore the most recent snapshot, saving the current text and selection for redo.
    pub fn undo(&mut self) -> (r: bool)
        requires
            old(self).wf(),
            old(self).ver() < u64::MAX,
        ensures
            final(self).wf(),
            old(self).version_step(&*final(self)),
            r == (old(self).hist().0.len() > 0),
            r ==> old(self).undone_to(&*final(self)),
            !r ==> old(self).same_state(&*final(self)),
    {
        let current = (self.text.clone(), self.selection.clone());
        match self.history.pop_undo(current) {
            Some(entry) => {
                self.text = entry.text;
                self.selection = entry.selection;
                self.marked_range = None;
                self.break_coalescing();
                self.version = self.version + 1;
                proof {
                    let h = old(self).hist();
                    assert(entry_valid(h.0[h.0.len() - 1]));
                    let nh = self.history@;
                    assert forall|i: int| 0 <= i < nh.0.len() implies entry_valid(#[trigger] nh.0[i]) by {
                        assert(nh.0[i] == h.0[i]);
                    }
                    assert forall|i: int| 0 <= i < nh.1.len() implies entry_valid(#[trigger] nh.1[i]) by {
                        if i < h.1.len() {
                            assert(nh.1[i] == h.1[i]);
                        }
                    }
                }
                true
            },
            None => false,
        }
    }

    /// Re-apply the most recently undone snapshot, saving the current text and selection for undo.
    pub fn redo(&mut self) -> (r: bool)
        requires
            old(self).wf(),
            old(self).ver() < u64::MAX,
        ensures
            final(self).wf(),
            old(self).version_step(&*final(self)),
            r == (old(self).hist().1.len() > 0),
            r ==> old(self).redone_to(&*final(self)),
            !r ==> old(self).same_state(&*final(self)),
    {
        let current = (self.text.clone(), self.selection.clone());
        match self.history.pop_redo(current) {
            Some(entry) => {
                self.text = entry.text;
                self.selection = entry.selection;
                self.marked_range = None;
                self.break_coalescing();
                self.version = self.version + 1;
                proof {
                    let h = old(self).hist();
                    assert(entry_valid(h.1[h.1.len() - 1]));
                    let nh = self.history@;
                    assert forall|i: int| 0 <= i < nh.1.len() implies entry_valid(#[trigger] nh.1[i]) by {
                        assert(nh.1[i] == h.1[i]);
                    }
                    assert forall|i: int| 0 <= i < nh.0.len() implies entry_valid(#[trigger] nh.0[i]) by {
                        if i < h.0.len() {
                            assert(nh.0[i] == h.0[i]);
                        }
                    }
                }
                true
            },
            None => false,
        }
    }

    /// The selected text.
    pub fn selected_text(&self) -> (r: String)
        requires
            self.wf(),
        ensures
            r@ == byte_slice(self.text_seq(), model_bounds(self.sel()).0 as int, model_bounds(self.sel()).1 as int),
    {
        let r = self.selection.range_bounds();
        let len = byte_len(self.text.as_str());
        proof {
            lemma_boundary_index(self.text@, r.start as int);
            lemma_boundary_index(self.text@, r.end as int);
        }
        let ghost i = chars_within(self.text@, r.start as int) as int;
        let ghost j = chars_within(self.text@, r.end as int) as int;
        if r.start == r.end || r.start >= len {
            proof {
                if r.start != r.end {
                    lemma_floor_ceil(self.text@, r.start as int);
                }
            }
            let e = String::new();
            assert(e@ =~= byte_slice(self.text@, r.start as int, r.end as int));
            return e;
        }
        let start = floor_char_boundary(self.text.as_str(), r.start);
        let end = floor_char_boundary(self.text.as_str(), r.end);
        proof {
            lemma_floor_ceil(self.text@, r.start as int);
            lemma_floor_ceil(self.text@, r.end as int);
            if i > j {
                lemma_offset_mono(self.text@, j, i);
            }
        }
        if start >= end {
            let e = String::new();
            assert(e@ =~= byte_slice(self.text@, r.start as int, r.end as int));
            return e;
        }
        let piece = slice_at(self.text.as_str(), start, end, Ghost(i), Ghost(j));
        piece.to_owned()
    }

    pub fn version(&self) -> (r: u64)
        ensures
            r == self.ver(),
    {
        self.version
    }

    pub fn utf16_to_utf8(&self, offset: usize) -> (r: usize)
        ensures
            r == utf16_to_utf8_spec(self.text_seq(), offset as int),
    {
        utf16_offset_to_utf8(self.text.as_str(), offset)
    }

    pub fn utf8_to_utf16(&self, offset: usize) -> (r: usize)
        ensures
            r == utf8_to_utf16_spec(self.text_seq(), offset as int),
    {
        crate::utf::utf8_offset_to_utf16(self.text.as_str(), offset)
    }

    pub fn utf8_range_to_utf16(&self, range: Range<usize>) -> (r: Range<usize>)
        ensures
            r.start == utf8_to_utf16_spec(self.text_seq(), range.start as int),
            r.end == utf8_to_utf16_spec(self.text_seq(), range.end as int),
    {
        crate::utf::utf8_range_to_utf16(self.text.as_str(), range)
    }

    pub fn utf16_range_to_utf8(&self, range_utf16: &Range<usize>) -> (r: Range<usize>)
        ensures
            r.start == utf16_to_utf8_spec(self.text_seq(), range_utf16.start as int),
            r.end == utf16_to_utf8_spec(self.text_seq(), range_utf16.end as int),
    {
        let range = range_utf16.start..range_utf16.end;
        crate::utf::utf16_range_to_utf8(self.text.as_str(), range)
    }
}

impl Default for TextBoxState {
    fn default() -> (s: Self)
        ensures
            s.wf(),
            s.text_seq() == Seq::<char>::empty(),
            s.sel() == (0usize, None::<usize>, false),
            s.marked() is None,
            s.mode_of() == Mode::SingleLine,
            s.validation_of() is NotValidated,
            !s.disabled_of() && !s.read_only_of() && !s.password_of(),
            s.hist() == (Seq::<Entry>::empty(), Seq::<Entry>::empty(), 256usize),
            s.last_kind() == EditKind::Other,
            s.run_caret() is None,
            s.ver() == 0,
    {
        TextBoxState::new()
    }
}

/// After an undo there is something to redo, and redoing restores the text
/// and selection that were current before the undo (with no marked text),
/// and the history as it was.
pub proof fn lemma_undo_then_redo(s0: TextBoxState, s1: TextBoxState, s2: TextBoxState)
    requires
        s0.undone_to(&s1),
        s1.redone_to(&s2),
    ensures
        s1.hist().1.len() > 0,
        s2.marked() is None,
        s2.text_seq() == s0.text_seq(),
        s2.sel() == s0.sel(),
        s2.hist() == s0.hist(),
{
    crate::history::lemma_history_undo_then_redo(s0.hist(), s0.current_entry());
}

/// Redo followed by undo restores the text and selection that were current
/// before the redo, and the history as it was.
pub proof fn lemma_redo_then_undo(s0: TextBoxState, s1: TextBoxState, s2: TextBoxState)
    requires
        s0.redone_to(&s1),
        s1.undone_to(&s2),
    ensures
        s2.text_seq() == s0.text_seq(),
        s2.sel() == s0.sel(),
        s2.hist() == s0.hist(),
{
    crate::history::lemma_history_redo_then_undo(s0.hist(), s0.current_entry());
}

/// An edit that starts a new undo step can be undone, and undoing it restores
/// the text and selection from before the edit.
pub proof fn lemma_undo_reverts_edit(
    s0: TextBoxState,
    s1: TextBoxState,
    s2: TextBoxState,
    a: usize,
    b: usize,
    ins: Seq<char>,
    kind: EditKind,
    anchor: usize,
)
    requires
        s0.wf(),
        s0.edited_to(&s1, a, b, ins, kind, anchor),
        !coalesces(s0.last_kind(), s0.run_caret(), kind, anchor),
        s1.undone_to(&s2),
    ensures
        s1.hist().0.len() > 0,
        s2.text_seq() == s0.text_seq(),
        s2.sel() == s0.sel(),
{
    crate::history::lemma_history_push_top(s0.hist(), s0.current_entry());
}

/// After an undo, the next edit starts a new undo step and leaves nothing to redo.
pub proof fn lemma_edit_after_undo_clears_redo(
    s0: TextBoxState,
    s1: TextBoxState,
    s2: TextBoxState,
    a: usize,
    b: usize,
    ins: Seq<char>,
    kind: EditKind,
    anchor: usize,
)
    requires
        s0.undone_to(&s1),
        s1.wf(),
        s1.edited_to(&s2, a, b, ins, kind, anchor),
    ensures
        !coalesces(s1.last_kind(), s1.run_caret(), kind, anchor),
        s2.hist().1.len() == 0,
        s2.hist().0.len() > 0,
{
    crate::history::lemma_history_push_top(s1.hist(), s1.current_entry());
}

/// An edit of the same kind (typing, or deleting graphemes) anchored where the
/// previous edit left the caret joins that edit's undo step: the history is
/// not touched.
pub proof fn lemma_contiguous_edits_coalesce(
    s0: TextBoxState,
    s1: TextBoxState,
    s2: TextBoxState,
    a: usize,
    b: usize,
    ins: Seq<char>,
    a2: usize,
    b2: usize,
    ins2: Seq<char>,
    kind: EditKind,
    anchor: usize,
)
    requires
        kind != EditKind::Other,
        a + utf8_len(ins) <= usize::MAX,
        s0.edited_to(&s1, a, b, ins, kind, anchor),
        s1.edited_to(&s2, a2, b2, ins2, kind, s1.sel().0),
    ensures
        coalesces(s1.last_kind(), s1.run_caret(), kind, s1.sel().0),
        s2.hist() == s1.hist(),
{
}

/// An edit that is not typing or grapheme deletion (a paste, a replacement, a
/// newline) always starts its own undo step.
pub proof fn lemma_other_edit_records_step(
    s0: TextBoxState,
    s1: TextBoxState,
    a: usize,
    b: usize,
    ins: Seq<char>,
    anchor: usize,
)
    requires
        s0.edited_to(&s1, a, b, ins, EditKind::Other, anchor),
    ensures
        s1.hist() == history_push(s0.hist(), s0.current_entry()),
{
}

/// Every edit leaves something to undo and nothing to redo, whether it
/// starts a new undo step or joins a typing run.
pub proof fn lemma_edit_can_be_undone(
    s0: TextBoxState,
    s1: TextBoxState,
    a: usize,
    b: usize,
    ins: Seq<char>,
    kind: EditKind,
    anchor: usize,
)
    requires
        s0.wf(),
        s0.edited_to(&s1, a, b, ins, kind, anchor),
    ensures
        s1.hist().0.len() > 0,
        s1.hist().1.len() == 0,
{
    crate::history::lemma_history_push_top(s0.hist(), s0.current_entry());
}

/// A paste, a replacement, a whitespace or multi-character insertion (any
/// edit that is not a typing or grapheme-deletion run) is undone on its own:
/// the next undo restores the text and selection from before it.
pub proof fn lemma_undo_reverts_other_edit(
    s0: TextBoxState,
    s1: TextBoxState,
    s2: TextBoxState,
    a: usize,
    b: usize,
    ins: Seq<char>,
    anchor: usize,
)
    requires
        s0.wf(),
        s0.edited_to(&s1, a, b, ins, EditKind::Other, anchor),
        s1.undone_to(&s2),
    ensures
        s1.hist().0.len() > 0,
        s2.text_seq() == s0.text_seq(),
        s2.sel() == s0.sel(),
{
    crate::history::lemma_history_push_top(s0.hist(), s0.current_entry());
}

/// An edit that joins the running undo step is undone together with it:
/// undoing after it restores what undoing just before it would.
pub proof fn lemma_coalesced_edit_undoes_with_run(
    s1: TextBoxState,
    s2: TextBoxState,
    u1: TextBoxState,
    u2: TextBoxState,
    a: usize,
    b: usize,
    ins: Seq<char>,
    kind: EditKind,
    anchor: usize,
)
    requires
        s1.edited_to(&s2, a, b, ins, kind, anchor),
        coalesces(s1.last_kind(), s1.run_caret(), kind, anchor),
        s1.undone_to(&u1),
        s2.undone_to(&u2),
    ensures
        u2.text_seq() == u1.text_seq(),
        u2.sel() == u1.sel(),
        u2.hist().0 == u1.hist().0,
{
}

/// A snapshot taken for undo survives any number of steps that leave the
/// history alone (silent replacements during IME composition do): there is
/// something to undo, nothing to redo, and the next undo restores the text
/// and selection from when the snapshot was taken.
pub proof fn lemma_snapshot_survives_silent_edits(s0: TextBoxState, steps: Seq<TextBoxState>, u: TextBoxState)
    requires
        s0.wf(),
        steps.len() > 0,
        steps[0].hist() == history_push(s0.hist(), s0.current_entry()),
        forall|i: int| 0 <= i < steps.len() - 1 ==> #[trigger] steps[i + 1].hist() == steps[i].hist(),
        steps.last().undone_to(&u),
    ensures
        steps.last().hist().0.len() > 0,
        steps.last().hist().1.len() == 0,
        u.text_seq() == s0.text_seq(),
        u.sel() == s0.sel(),
{
    crate::history::lemma_history_push_top(s0.hist(), s0.current_entry());
    lemma_same_history_along(steps, steps.len() - 1);
}

proof fn lemma_same_history_along(steps: Seq<TextBoxState>, k: int)
    requires
        0 <= k < steps.len(),
        forall|i: int| 0 <= i < steps.len() - 1 ==> #[trigger] steps[i + 1].hist() == steps[i].hist(),
    ensures
        steps[k].hist() == steps[0].hist(),
    decreases k,
{
    if k > 0 {
        lemma_same_history_along(steps, k - 1);
        assert(steps[(k - 1) + 1].hist() == steps[k - 1].hist());
    }
}

/// Backspace and Delete at a caret remove exactly one grapheme cluster: the
/// removed span runs from the caret to the next cluster start (or the text
/// end), or from the previous cluster start (or 0) to the caret, with no
/// cluster start strictly inside it; it is not empty unless the caret is at
/// the end it moves towards. This holds for cluster starts that increase and
/// lie inside the text, as the segmentation reports them.
pub proof fn lemma_delete_removes_one_cluster(st: TextBoxState, forward: bool)
    requires
        st.wf(),
        model_collapsed(st.sel()),
        utf8_len(st.text_seq()) <= usize::MAX,
        crate::segmentation::strictly_increasing(grapheme_starts(st.text_seq())),
        crate::segmentation::grapheme_starts_in_text(st.text_seq(), grapheme_starts(st.text_seq())),
    ensures
        ({
            let (a, b) = st.delete_span(forward);
            let g = grapheme_starts(st.text_seq());
            let c = st.sel().0 as int;
            let len = utf8_len(st.text_seq()) as int;
            &&& forward ==> a == c && (c < len ==> c < b) && b <= len && (b == len || g.contains(
                b,
            )) && forall|i: int| 0 <= i < g.len() && #[trigger] g[i] > c ==> g[i] >= b
            &&& !forward ==> b == c && (c > 0 ==> a < c) && (a == 0 || g.contains(a)) && forall|
                i: int,
            |
                0 <= i < g.len() && #[trigger] g[i] < c ==> g[i] <= a
        }),
{
    let t = st.text_seq();
    crate::utf8_model::lemma_boundary_index(t, st.sel().0 as int);
    crate::selection::lemma_grapheme_movement_law(t, st.sel().0 as int, grapheme_starts(t), word_spans(t));
}

/// An edit that is not a single typed character (it inserts nothing or more
/// than one character, or a whitespace character, or replaces a given range
/// or a non-empty selection) is never merged into an earlier undo step: right
/// after it, the top of the undo stack is the state from just before it and
/// nothing is left to redo.
pub proof fn lemma_non_typing_edit_is_own_step(
    s0: TextBoxState,
    s1: TextBoxState,
    range: Option<Range<usize>>,
    text: Seq<char>,
)
    requires
        s0.wf(),
        s0.edited_to(
            &s1,
            s0.edit_target(range).0,
            s0.edit_target(range).1,
            normalize_newlines(text, s0.single_line()),
            if is_typing(range is None, s0.sel(), normalize_newlines(text, s0.single_line())) {
                EditKind::Insert
            } else {
                EditKind::Other
            },
            s0.edit_target(range).0,
        ),
        ({
            let ins = normalize_newlines(text, s0.single_line());
            ||| ins.len() != 1
            ||| is_white_space(ins[0])
            ||| range is Some
            ||| !model_collapsed(s0.sel())
        }),
    ensures
        s1.hist().0.len() > 0,
        s1.hist().0.last() == s0.current_entry(),
        s1.hist().1.len() == 0,
{
    crate::history::lemma_history_push_top(s0.hist(), s0.current_entry());
}

/// Undoing an edit that is not a single typed character restores exactly the
/// text and selection from before it.
pub proof fn lemma_undo_after_non_typing_edit(
    s0: TextBoxState,
    s1: TextBoxState,
    s2: TextBoxState,
    range: Option<Range<usize>>,
    text: Seq<char>,
)
    requires
        s0.wf(),
        s0.edited_to(
            &s1,
            s0.edit_target(range).0,
            s0.edit_target(range).1,
            normalize_newlines(text, s0.single_line()),
            if is_typing(range is None, s0.sel(), normalize_newlines(text, s0.single_line())) {
                EditKind::Insert
            } else {
                EditKind::Other
            },
            s0.edit_target(range).0,
        ),
        normalize_newlines(text, s0.single_line()).len() != 1,
        s1.undone_to(&s2),
    ensures
        s2.text_seq() == s0.text_seq(),
        s2.sel() == s0.sel(),
{
    lemma_non_typing_edit_is_own_step(s0, s1, range, text);
}

} // verus!
