use sqlly_textbox::field::{
    border_kind, copy_text, cut_text, display_text, insert_newline, marked_text_range,
    move_vertical, paste_text, press_at, replace_and_mark_text_in_range, replace_text_in_range,
    select_line_at, select_word_at, selected_text_range, text_for_range, value_for_render,
    BorderKind, NewlineOutcome, ValidationGate,
};
use sqlly_textbox::{Mode, TextBoxState, TextWrap, ValidationState};

fn multi() -> TextBoxState {
    TextBoxState::with_mode(Mode::MultiLine {
        min_lines: 1,
        max_lines: None,
        wrap: TextWrap::Soft,
    })
}

#[test]
fn typing_inserts_text_through_input_handler() {
    let mut st = TextBoxState::new();
    replace_text_in_range(&mut st, None, "hello");
    assert_eq!(st.text(), "hello");
}

#[test]
fn single_line_normalizes_newlines_on_insert() {
    let mut st = TextBoxState::new();
    replace_text_in_range(&mut st, None, "a\nb\r\nc");
    assert_eq!(st.text(), "a b c");
}

#[test]
fn select_all_then_copy_and_paste() {
    let mut st = TextBoxState::new();
    replace_text_in_range(&mut st, None, "abc");
    st.select_all();
    let clip = copy_text(&st);
    assert_eq!(clip.as_deref(), Some("abc"));
    replace_text_in_range(&mut st, None, "");
    assert!(paste_text(&mut st, clip.as_deref()));
    assert_eq!(st.text(), "abc");
}

#[test]
fn cut_removes_selection_and_fills_clipboard() {
    let mut st = TextBoxState::new();
    replace_text_in_range(&mut st, None, "abcdef");
    st.select_all();
    let clip = cut_text(&mut st);
    assert_eq!(st.text(), "");
    assert_eq!(clip.as_deref(), Some("abcdef"));
    assert!(paste_text(&mut st, clip.as_deref()));
    assert_eq!(st.text(), "abcdef");
}

#[test]
fn password_mode_suppresses_copy_but_allows_paste() {
    let mut pw = TextBoxState::new();
    pw.set_password(true);
    pw.set_text("secret");
    pw.select_all();
    assert_eq!(copy_text(&pw), None);
    assert_eq!(cut_text(&mut pw), None);
    assert_eq!(pw.text(), "secret");
    assert!(paste_text(&mut pw, Some("fromclipboard")));
    assert_eq!(pw.text(), "fromclipboard");
}

#[test]
fn marked_text_round_trip_keeps_committed_text() {
    let mut st = TextBoxState::new();
    replace_and_mark_text_in_range(&mut st, None, "abc", None);
    assert!(st.marked_range().is_some());
    assert_eq!(marked_text_range(&st), Some(0..3));
    st.clear_marked_range();
    assert_eq!(st.text(), "abc");
    assert!(marked_text_range(&st).is_none());
}

#[test]
fn ime_mark_with_non_ascii_composition() {
    let mut st = TextBoxState::new();
    replace_and_mark_text_in_range(&mut st, None, "你好", Some(2..2));
    // The marked range covers the composition, in UTF-16 code units.
    assert_eq!(marked_text_range(&st), Some(0..2));
    assert_eq!(st.selection().range_bounds(), 6..6);
    // A second update replaces the marked text.
    replace_and_mark_text_in_range(&mut st, None, "你好吗", None);
    assert_eq!(st.text(), "你好吗");
    st.clear_marked_range();
    assert_eq!(st.text(), "你好吗");
    // Each composition update is an undo step.
    assert!(st.undo());
    assert_eq!(st.text(), "你好");
}

#[test]
fn disabled_field_rejects_edits() {
    let mut st = TextBoxState::new();
    st.set_text("locked");
    st.set_disabled(true);
    replace_text_in_range(&mut st, None, "x");
    assert!(!paste_text(&mut st, Some("y")));
    assert_eq!(insert_newline(&mut st), NewlineOutcome::Ignored);
    assert_eq!(st.text(), "locked");
}

#[test]
fn read_only_blocks_mutation_but_allows_copy() {
    let mut st = TextBoxState::new();
    st.set_text("readme");
    st.set_read_only(true);
    st.select_all();
    assert_eq!(cut_text(&mut st), None);
    assert_eq!(st.text(), "readme");
    assert_eq!(copy_text(&st).as_deref(), Some("readme"));
}

#[test]
fn text_for_range_with_out_of_bounds_utf16_does_not_panic() {
    let mut st = TextBoxState::new();
    st.set_text("hello");
    let (text, actual) = text_for_range(&st, 0..999);
    assert_eq!(text, "hello");
    assert_eq!(actual, 0..5);
    let (text, _) = text_for_range(&st, 4..1);
    assert_eq!(text, "ell");
    let (text, actual) = text_for_range(&st, 100..200);
    assert_eq!(text, "");
    assert_eq!(actual, 5..5);
}

#[test]
fn text_for_range_after_ime_shrinks_text() {
    let mut st = TextBoxState::new();
    st.set_text("hello world");
    st.replace_range_silent(0..11, "hi", true);
    let (text, actual) = text_for_range(&st, 0..11);
    assert_eq!(text, "hi");
    assert_eq!(actual, 0..2);
}

#[test]
fn text_for_range_in_utf16_units() {
    let mut st = TextBoxState::new();
    st.set_text("a😀b");
    let (text, actual) = text_for_range(&st, 1..3);
    assert_eq!(text, "😀");
    assert_eq!(actual, 1..3);
    // Half of a surrogate pair floors to the character start.
    let (text, actual) = text_for_range(&st, 2..4);
    assert_eq!(text, "😀b");
    assert_eq!(actual, 1..4);
}

#[test]
fn selected_range_reports_utf16_and_direction() {
    let mut st = TextBoxState::new();
    st.set_text("a😀b");
    st.set_selection_range(6, 1);
    assert_eq!(selected_text_range(&st), (1..4, true));
}

#[test]
fn replace_in_utf16_range() {
    let mut st = TextBoxState::new();
    st.set_text("a😀b");
    replace_text_in_range(&mut st, Some(1..3), "x");
    assert_eq!(st.text(), "axb");
}

#[test]
fn double_click_selects_word() {
    let mut st = TextBoxState::new();
    st.set_text("hello world  there");
    select_word_at(&mut st, 8);
    assert_eq!(st.selection().range_bounds(), 6..11);
    select_word_at(&mut st, 1);
    assert_eq!(st.selection().range_bounds(), 0..5);
}

#[test]
fn triple_click_selects_line() {
    let mut st = multi();
    st.set_text("one\ntwo three\nfour");
    select_line_at(&mut st, 6);
    assert_eq!(st.selection().range_bounds(), 4..13);
}

#[test]
fn press_dispatches_on_click_count() {
    let mut st = multi();
    st.set_text("ab cd\nef");
    assert!(press_at(&mut st, 1, 1, false));
    assert_eq!(st.selection().range_bounds(), 1..1);
    assert!(press_at(&mut st, 4, 1, true));
    assert_eq!(st.selection().range_bounds(), 1..4);
    assert!(!press_at(&mut st, 4, 2, false));
    assert_eq!(st.selection().range_bounds(), 3..5);
    assert!(!press_at(&mut st, 7, 3, false));
    assert_eq!(st.selection().range_bounds(), 6..8);
}

#[test]
fn enter_commits_single_line_and_inserts_in_multi_line() {
    let mut single = TextBoxState::new();
    single.set_text("x");
    assert_eq!(insert_newline(&mut single), NewlineOutcome::Commit);
    assert_eq!(single.text(), "x");
    let mut m = multi();
    m.set_text("x");
    assert_eq!(insert_newline(&mut m), NewlineOutcome::Inserted);
    assert_eq!(m.text(), "x\n");
}

#[test]
fn vertical_movement_fallbacks() {
    let mut single = TextBoxState::new();
    single.set_text("abc");
    single.collapse_to(1);
    move_vertical(&mut single, true, false, Some(2));
    assert_eq!(single.selection().head(), 0);
    move_vertical(&mut single, false, true, None);
    assert_eq!(single.selection().range_bounds(), 0..3);

    let mut m = multi();
    m.set_text("ab\ncd");
    m.collapse_to(4);
    move_vertical(&mut m, true, false, None);
    assert_eq!(m.selection().head(), 3);
    move_vertical(&mut m, true, false, Some(1));
    assert_eq!(m.selection().head(), 1);
}

#[test]
fn render_values() {
    let mut st = TextBoxState::new();
    assert_eq!(display_text(&st, "Email"), ("Email".to_string(), true));
    assert_eq!(display_text(&st, ""), ("".to_string(), false));
    st.set_text("héllo");
    assert_eq!(value_for_render(&st), "héllo");
    st.set_password(true);
    assert_eq!(value_for_render(&st), "•••••");
    assert_eq!(display_text(&st, "Email"), ("•••••".to_string(), false));
    st.set_text("");
    assert_eq!(value_for_render(&st), "");
    st.set_password(false);
    assert_eq!(value_for_render(&st), "");
}

#[test]
fn border_priorities() {
    let invalid = ValidationState::Invalid("bad".into());
    assert_eq!(border_kind(true, true, &invalid), BorderKind::Disabled);
    assert_eq!(border_kind(false, true, &invalid), BorderKind::Focused);
    assert_eq!(border_kind(false, false, &invalid), BorderKind::Invalid);
    assert_eq!(
        border_kind(false, false, &ValidationState::Warning("w".into())),
        BorderKind::Warning
    );
    assert_eq!(border_kind(false, false, &ValidationState::Valid), BorderKind::Normal);
}

#[test]
fn stale_async_results_are_refused() {
    let mut gate = ValidationGate::new();
    let first = gate.start();
    let second = gate.start();
    assert!(!gate.accepts(first));
    assert!(gate.accepts(second));
}

#[test]
fn set_disabled_mutator_toggles_editability_at_runtime() {
    let mut st = TextBoxState::new();
    st.set_text("v0");
    st.select_all();
    replace_text_in_range(&mut st, None, "v1");
    assert_eq!(st.text(), "v1");

    st.set_disabled(true);
    st.select_all();
    replace_text_in_range(&mut st, None, "v2");
    assert_eq!(st.text(), "v1", "set_disabled(true) must block edits");

    st.set_disabled(false);
    st.select_all();
    replace_text_in_range(&mut st, None, "v3");
    assert_eq!(st.text(), "v3");
}

#[test]
fn double_click_on_first_byte_selects_that_word() {
    let mut st = TextBoxState::new();
    st.set_text("hello world");
    select_word_at(&mut st, 6);
    assert_eq!(st.selection().range_bounds(), 6..11);
    select_word_at(&mut st, 2);
    assert_eq!(st.selection().range_bounds(), 0..5);
    // Right after a word: that word.
    select_word_at(&mut st, 5);
    assert_eq!(st.selection().range_bounds(), 0..5);
    // Past the end: the last word.
    select_word_at(&mut st, 40);
    assert_eq!(st.selection().range_bounds(), 6..11);
}

#[test]
fn double_click_between_words_selects_back_to_previous_word() {
    let mut st = TextBoxState::new();
    st.set_text("hello   world");
    select_word_at(&mut st, 6);
    assert_eq!(st.selection().range_bounds(), 0..6);
    st.set_text("   ");
    select_word_at(&mut st, 0);
    assert!(st.selection().is_collapsed());
    assert_eq!(st.selection().range_bounds(), 0..0);
}
