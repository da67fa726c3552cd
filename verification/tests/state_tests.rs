use sqlly_textbox::{Mode, Movement, TextBoxState, TextWrap, ValidationState};

fn s() -> TextBoxState {
    TextBoxState::new()
}

fn multi() -> TextBoxState {
    TextBoxState::with_mode(Mode::MultiLine {
        min_lines: 1,
        max_lines: None,
        wrap: TextWrap::Soft,
    })
}

#[test]
fn insert_replaces_selection_and_collapses() {
    let mut st = s();
    st.set_text("hello");
    st.collapse_to(2);
    st.move_by(Movement::GraphemeRight, true);
    st.move_by(Movement::GraphemeRight, true);
    st.replace_range(None, "X");
    assert_eq!(st.text(), "heXlo");
    assert_eq!(st.selection().head(), 3);
    assert_eq!(st.selection().range_bounds(), 3..3);
}

#[test]
fn insert_via_two_extends() {
    let mut st = s();
    st.set_text("hello");
    st.collapse_to(2);
    st.select_to(2);
    st.select_to(3);
    st.select_to(4);
    assert_eq!(st.selection().range_bounds(), 2..4);
    st.replace_range(None, "X");
    assert_eq!(st.text(), "heXo");
}

#[test]
fn single_line_normalizes_newlines_to_spaces() {
    let mut st = s();
    st.set_text("");
    st.insert("a\nb\rc\r\nd");
    assert_eq!(st.text(), "a b c d");
}

#[test]
fn multi_line_normalizes_crlf_to_lf() {
    let mut st = multi();
    st.insert("a\r\nb\rc");
    assert_eq!(st.text(), "a\nb\nc");
}

#[test]
fn read_only_blocks_mutation() {
    let mut st = s();
    st.set_read_only(true);
    st.set_text("hi");
    st.insert("more");
    assert_eq!(st.text(), "hi");
    st.delete(false);
    assert_eq!(st.text(), "hi");
}

#[test]
fn disabled_blocks_mutation_but_allows_navigation() {
    let mut st = s();
    st.set_disabled(true);
    st.set_text("hi");
    st.insert("more");
    assert_eq!(st.text(), "hi");
    st.move_by(Movement::DocumentEnd, false);
    assert_eq!(st.selection().head(), 2);
    st.select_all();
    assert_eq!(st.selection().range_bounds(), 0..2);
}

#[test]
fn backspace_collapses_then_deletes() {
    let mut st = s();
    st.set_text("hello");
    st.collapse_to(5);
    st.delete(false);
    assert_eq!(st.text(), "hell");
    assert_eq!(st.selection().head(), 4);
    st.delete(false);
    assert_eq!(st.text(), "hel");
}

#[test]
fn forward_delete_removes_next_grapheme() {
    let mut st = s();
    st.set_text("hello");
    st.collapse_to(0);
    st.delete(true);
    assert_eq!(st.text(), "ello");
    assert_eq!(st.selection().head(), 0);
}

#[test]
fn delete_with_selection_clears_all() {
    let mut st = s();
    st.set_text("hello world");
    st.collapse_to(6);
    st.select_all();
    st.delete(false);
    assert_eq!(st.text(), "");
}

#[test]
fn undo_redo_round_trip() {
    let mut st = s();
    st.insert("a");
    st.move_to(0);
    st.move_to(st.text().len());
    st.insert("b");
    st.move_to(0);
    st.move_to(st.text().len());
    st.insert("c");
    assert_eq!(st.text(), "abc");
    assert!(st.undo());
    assert_eq!(st.text(), "ab");
    assert!(st.undo());
    assert_eq!(st.text(), "a");
    assert!(st.undo());
    assert_eq!(st.text(), "");
    assert!(!st.undo());
    assert!(st.redo());
    assert_eq!(st.text(), "a");
    assert!(st.redo());
    assert_eq!(st.text(), "ab");
    assert!(st.redo());
    assert_eq!(st.text(), "abc");
}

#[test]
fn state_new_edit_clears_redo() {
    let mut st = s();
    st.insert("a");
    st.insert("b");
    st.undo();
    st.undo();
    assert!(st.can_redo());
    st.insert("X");
    assert!(!st.can_redo());
}

#[test]
fn line_and_document_movement() {
    let mut st = multi();
    st.set_text("alpha\nbeta\ngamma");
    st.collapse_to(7);
    st.line_start(false);
    assert_eq!(st.selection().head(), 6);
    st.line_end(false);
    assert_eq!(st.selection().head(), 10);
    st.document_end(false);
    assert_eq!(st.selection().head(), 16);
    st.document_start(false);
    assert_eq!(st.selection().head(), 0);
}

#[test]
fn utf16_offset_offsets_strictly_before() {
    let mut st = s();
    st.set_text("a你b");
    assert_eq!(st.utf16_to_utf8(0), 0);
    assert_eq!(st.utf16_to_utf8(1), 1);
    assert_eq!(st.utf16_to_utf8(2), 4);
    assert_eq!(st.utf16_to_utf8(3), 5);
    assert_eq!(st.utf8_to_utf16(0), 0);
    assert_eq!(st.utf8_to_utf16(1), 1);
    assert_eq!(st.utf8_to_utf16(4), 2);
    assert_eq!(st.utf8_to_utf16(5), 3);
}

#[test]
fn extend_movement_with_select_all() {
    let mut st = s();
    st.set_text("alpha\nbeta");
    st.collapse_to(0);
    st.move_by(Movement::DocumentEnd, true);
    assert_eq!(st.selection().range_bounds(), 0..10);
    st.select_all();
    assert_eq!(st.selection().range_bounds(), 0..10);
}

#[test]
fn marked_range_reset_on_replace() {
    let mut st = s();
    st.set_text("hello");
    st.replace_range_silent(1..2, "u", true);
    assert!(st.marked_range().is_some());
    st.insert("X");
    assert!(st.marked_range().is_none());
}

#[test]
fn version_increments_on_mutation() {
    let mut st = s();
    let v = st.version();
    st.set_text("hi");
    assert!(st.version() > v);
}

#[test]
fn password_flag_does_not_affect_text() {
    let mut st = s();
    st.set_password(true);
    st.set_text("secret");
    assert_eq!(st.text(), "secret");
    assert!(st.is_password());
}

#[test]
fn utf16_offset_round_trip_through_state() {
    let mut st = s();
    st.set_text("a你b");
    assert_eq!(st.utf16_to_utf8(0), 0);
    assert_eq!(st.utf16_to_utf8(1), 1);
    assert_eq!(st.utf16_to_utf8(2), 4);
    assert_eq!(st.utf8_to_utf16(0), 0);
    assert_eq!(st.utf8_to_utf16(1), 1);
    assert_eq!(st.utf8_to_utf16(4), 2);
}

#[test]
fn unicode_aware_delete() {
    let mut st = s();
    st.set_text("a😀b");
    st.collapse_to(5); // after the emoji
    st.delete(false);
    assert_eq!(st.text(), "ab");
}

#[test]
fn typing_coalesces_into_one_undo_step_per_word() {
    let mut st = s();
    for ch in ["a", "b", " ", "c", "d"] {
        st.insert(ch);
    }
    assert_eq!(st.text(), "ab cd");
    assert!(st.undo());
    assert_eq!(st.text(), "ab ");
    assert!(st.undo());
    assert_eq!(st.text(), "ab");
    assert!(st.undo());
    assert_eq!(st.text(), "");
    assert!(!st.undo());
}

#[test]
fn caret_move_breaks_coalescing() {
    let mut st = s();
    st.insert("a");
    st.insert("b");
    st.collapse_to(0);
    st.insert("X");
    assert_eq!(st.text(), "Xab");
    assert!(st.undo());
    assert_eq!(st.text(), "ab");
    assert!(st.undo());
    assert_eq!(st.text(), "");
}

#[test]
fn consecutive_backspaces_coalesce() {
    let mut st = s();
    st.set_text("hello");
    st.collapse_to(5);
    st.delete(false);
    st.delete(false);
    st.delete(false);
    assert_eq!(st.text(), "he");
    assert!(st.undo());
    assert_eq!(st.text(), "hello");
}

#[test]
fn paste_is_its_own_undo_step() {
    let mut st = s();
    st.insert("a");
    st.insert("b");
    st.insert("c");
    st.insert(" ");
    st.replace_range(None, "PASTED");
    assert_eq!(st.text(), "abc PASTED");
    assert!(st.undo());
    assert_eq!(st.text(), "abc ");
    assert!(st.undo());
    assert_eq!(st.text(), "abc");
    assert!(st.undo());
    assert_eq!(st.text(), "");
}

#[test]
fn clear_marked_range_keeps_text() {
    let mut st = s();
    st.set_text("hello");
    st.replace_range_silent(1..2, "u", true);
    assert!(st.marked_range().is_some());
    st.clear_marked_range();
    assert!(st.marked_range().is_none());
    assert_eq!(st.text(), "hullo");
}

#[test]
fn state_line_end_single_line_goes_to_text_end() {
    let mut st = s();
    st.set_text("hello world");
    st.collapse_to(0);
    st.line_end(false);
    assert_eq!(st.selection().head(), 11);
}

#[test]
fn delete_selection_noop_when_read_only() {
    let mut st = s();
    st.set_text("hello");
    st.select_all();
    st.set_read_only(true);
    st.delete_selection();
    assert_eq!(st.text(), "hello", "read-only must block deletion");
}

#[test]
fn delete_selection_noop_when_disabled() {
    let mut st = s();
    st.set_text("hello");
    st.select_all();
    st.set_disabled(true);
    st.delete_selection();
    assert_eq!(st.text(), "hello", "disabled must block deletion");
}

#[test]
fn selection_offsets_clamp_to_utf8_boundaries() {
    let mut st = s();
    st.set_text("aé🦀z");
    st.set_selection_range(2, 6);
    let r = st.selection().range_bounds();
    let _ = st.text()[r.clone()].to_string(); // must not panic
    assert!(r.start == 1 || r.start == 3, "start clamped to boundary");
}

#[test]
fn selected_text_handles_stale_range() {
    let mut st = s();
    st.set_text("abc");
    st.set_selection_range(0, 10);
    let text = st.selected_text();
    assert_eq!(text, "abc", "selected_text clamps to available text");
}

#[test]
fn selected_text_handles_mid_codepoint_range() {
    let mut st = s();
    st.set_text("aé🦀z");
    st.set_selection_range(2, 5);
    let _ = st.selected_text(); // must not panic
}

#[test]
fn ime_mark_range_uses_normalized_text_length() {
    let mut st = s();
    st.set_text("hello");
    st.collapse_to(5);
    st.replace_range_silent(5..5, "a\r\nb", true);
    let mark = st.marked_range().expect("mark should be set");
    assert_eq!(mark.end - mark.start, 3, "mark spans normalized text");
    assert_eq!(&st.text()[mark.clone()], "a b");
}

// Further scenarios.

#[test]
fn undo_restores_selection_too() {
    let mut st = s();
    st.set_text("hello world");
    st.set_selection_range(6, 11);
    st.insert("there");
    assert_eq!(st.text(), "hello there");
    assert!(st.undo());
    assert_eq!(st.text(), "hello world");
    assert_eq!(st.selection().range_bounds(), 6..11);
    assert!(st.redo());
    assert_eq!(st.text(), "hello there");
    assert_eq!(st.selection().range_bounds(), 11..11);
}

#[test]
fn set_text_clears_history_and_puts_caret_at_end() {
    let mut st = s();
    st.insert("a");
    st.insert(" ");
    assert!(st.can_undo());
    st.set_text("x\ny");
    assert!(!st.can_undo());
    assert!(!st.can_redo());
    assert_eq!(st.text(), "x y");
    assert_eq!(st.selection().range_bounds(), 3..3);
    assert!(st.marked_range().is_none());
}

#[test]
fn replace_explicit_range_clamps_to_boundaries() {
    let mut st = s();
    st.set_text("a😀b");
    // 2..4 is inside the emoji: both ends floor to 1.
    st.replace_range(Some(2..4), "Z");
    assert_eq!(st.text(), "aZ😀b");
    assert_eq!(st.selection().head(), 2);
    st.replace_range(Some(0..100), "q");
    assert_eq!(st.text(), "q");
}

#[test]
fn replace_range_silent_without_mark_and_empty_text() {
    let mut st = s();
    st.set_text("hello");
    st.replace_range_silent(0..5, "", true);
    assert_eq!(st.text(), "");
    assert!(st.marked_range().is_none());
    st.replace_range_silent(0..0, "ok", false);
    assert_eq!(st.text(), "ok");
    assert!(st.marked_range().is_none());
    // Silent edits do not record history.
    assert!(!st.can_undo());
}

#[test]
fn snapshot_for_undo_records_a_step() {
    let mut st = s();
    st.set_text("abc");
    st.snapshot_for_undo();
    st.replace_range_silent(0..3, "xyz", false);
    assert!(st.undo());
    assert_eq!(st.text(), "abc");
    assert_eq!(st.selection().range_bounds(), 3..3);
}

#[test]
fn forward_deletes_coalesce() {
    let mut st = s();
    st.set_text("hello");
    st.collapse_to(0);
    st.delete(true);
    st.delete(true);
    assert_eq!(st.text(), "llo");
    assert!(st.undo());
    assert_eq!(st.text(), "hello");
    assert!(!st.undo());
}

#[test]
fn delete_at_edges_is_noop() {
    let mut st = s();
    st.set_text("ab");
    st.collapse_to(0);
    let v = st.version();
    st.delete(false);
    assert_eq!(st.text(), "ab");
    assert_eq!(st.version(), v);
    st.collapse_to(2);
    st.delete(true);
    assert_eq!(st.text(), "ab");
    assert!(!st.can_undo());
}

#[test]
fn delete_selection_removes_range() {
    let mut st = s();
    st.set_text("hello world");
    st.set_selection_range(11, 5);
    st.delete_selection();
    assert_eq!(st.text(), "hello");
    assert_eq!(st.selection().head(), 5);
    // Collapsed: nothing happens.
    st.delete_selection();
    assert_eq!(st.text(), "hello");
}

#[test]
fn word_and_grapheme_movement_through_state() {
    let mut st = s();
    st.set_text("one two");
    st.collapse_to(0);
    st.move_by(Movement::WordRight, false);
    assert_eq!(st.selection().head(), 4);
    st.move_by(Movement::WordLeft, true);
    assert_eq!(st.selection().range_bounds(), 0..4);
    // Extending backwards from a caret moves the head; the anchor stays.
    assert!(st.selection().is_reversed());
    assert_eq!(st.selection().head(), 0);
    assert_eq!(st.selection().anchor(), Some(4));
    st.move_by(Movement::GraphemeLeft, false);
    assert_eq!(st.selection().head(), 0);
}

#[test]
fn modes_report_lines_and_wrap() {
    let st = s();
    assert_eq!(st.min_lines(), 1);
    assert_eq!(st.max_lines(), Some(1));
    assert_eq!(st.wrap(), TextWrap::NoWrap);
    let mut m = TextBoxState::with_mode(Mode::MultiLine {
        min_lines: 3,
        max_lines: Some(6),
        wrap: TextWrap::NoWrap,
    });
    assert_eq!(m.min_lines(), 3);
    assert_eq!(m.max_lines(), Some(6));
    assert_eq!(m.wrap(), TextWrap::NoWrap);
    assert!(m.mode().is_multiline());
    m.set_mode(Mode::SingleLine);
    assert!(!m.mode().is_multiline());
}

#[test]
fn flags_and_validation_round_trip() {
    let mut st = s();
    assert!(st.can_edit());
    st.set_read_only(true);
    assert!(st.is_read_only());
    assert!(!st.can_edit());
    st.set_read_only(false);
    st.set_disabled(true);
    assert!(st.is_disabled());
    assert!(!st.can_edit());
    assert_eq!(*st.validation(), ValidationState::NotValidated);
    st.set_validation(ValidationState::Invalid("bad".into()));
    assert!(st.validation().is_invalid());
}

#[test]
fn state_range_conversions() {
    let mut st = s();
    st.set_text("a😀b");
    assert_eq!(st.utf8_range_to_utf16(1..5), 1..3);
    assert_eq!(st.utf16_range_to_utf8(&(1..3)), 1..5);
    assert_eq!(st.utf16_range_to_utf8(&(2..9)), 1..6);
}

#[test]
fn single_line_text_never_holds_line_breaks() {
    let mut st = s();
    st.set_text("a\r\n\r\nb\n");
    assert_eq!(st.text(), "a  b ");
    st.insert("\r");
    assert!(!st.text().contains('\n') && !st.text().contains('\r'));
}

#[test]
fn default_state_is_empty() {
    let st = TextBoxState::default();
    assert_eq!(st.text(), "");
    assert_eq!(st.version(), 0);
    assert!(!st.can_undo());
    assert_eq!(st.selected_text(), "");
}

#[test]
fn typing_run_keeps_undo_available_and_redo_empty() {
    let mut st = TextBoxState::new();
    st.insert("a");
    st.insert("b");
    assert!(st.can_undo());
    assert!(!st.can_redo());
    assert!(st.undo());
    assert_eq!(st.text(), "");
    assert!(st.can_redo());
    st.insert("c");
    assert!(st.can_undo());
    assert!(!st.can_redo());
}

#[test]
fn snapshot_then_silent_edits_undo_to_snapshot() {
    let mut st = TextBoxState::new();
    st.set_text("ab");
    st.snapshot_for_undo();
    st.replace_range_silent(2..2, "c", true);
    st.replace_range_silent(2..3, "cd", true);
    assert_eq!(st.text(), "abcd");
    assert!(st.can_undo());
    assert!(!st.can_redo());
    assert!(st.undo());
    assert_eq!(st.text(), "ab");
    assert_eq!(st.selection().range_bounds(), 2..2);
}

#[test]
fn version_moves_by_at_most_one_per_call() {
    let mut st = TextBoxState::new();
    let v0 = st.version();
    st.collapse_to(0);
    assert_eq!(st.version(), v0);
    st.set_text("hi");
    assert_eq!(st.version(), v0 + 1);
    st.insert("!");
    assert_eq!(st.version(), v0 + 2);
}

#[test]
fn normalizing_twice_changes_nothing() {
    let mut st = TextBoxState::with_mode(Mode::MultiLine {
        min_lines: 1,
        max_lines: None,
        wrap: TextWrap::Soft,
    });
    st.set_text("a\r\nb\rc");
    assert_eq!(st.text(), "a\nb\nc");
    let once = st.text().to_string();
    st.set_text(&once);
    assert_eq!(st.text(), once);
}

#[test]
fn shift_right_inside_forward_selection_keeps_far_end() {
    let mut st = TextBoxState::new();
    st.set_text("hello");
    st.set_selection_range(2, 5);
    st.move_by(Movement::GraphemeRight, true);
    assert_eq!(st.selection().range_bounds(), 3..5);
    assert!(st.selection().is_reversed());
    assert_eq!(st.selection().head(), 3);
    assert_eq!(st.selection().anchor(), Some(5));
}

#[test]
fn shift_left_twice_from_caret() {
    let mut st = TextBoxState::new();
    st.set_text("hello");
    st.collapse_to(5);
    st.move_by(Movement::GraphemeLeft, true);
    assert_eq!(st.selection().range_bounds(), 4..5);
    st.move_by(Movement::GraphemeLeft, true);
    assert_eq!(st.selection().range_bounds(), 3..4);
}
