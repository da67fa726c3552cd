use sqlly_textbox::{apply_movement, Movement, Selection};

#[test]
fn caret_round_trip() {
    let s = Selection::caret(7);
    assert!(s.is_collapsed());
    assert_eq!(s.head(), 7);
    assert_eq!(s.range_bounds(), 7..7);
}

#[test]
fn forward_and_reversed_selections() {
    let s = Selection::range(2, 5);
    assert!(!s.is_collapsed());
    assert!(!s.is_reversed());
    assert_eq!(s.range_bounds(), 2..5);

    let r = Selection::range(7, 3);
    assert!(r.is_reversed());
    assert_eq!(r.range_bounds(), 3..7);
}

#[test]
fn select_to_extends_then_collapses() {
    let mut s = Selection::caret(5);
    s.select_to(10);
    assert_eq!(s.range_bounds(), 5..10);
    assert!(!s.is_reversed());
    s.select_to(2);
    assert!(s.is_reversed());
    assert_eq!(s.range_bounds(), 2..5);
    s.select_to(8);
    assert!(!s.is_reversed());
    assert_eq!(s.range_bounds(), 5..8);
}

#[test]
fn select_to_doesnt_collapse_when_re_extending() {
    let mut s = Selection::caret(2);
    s.select_to(3);
    assert_eq!(s.range_bounds(), 2..3);
    // Re-extending to the same offset must NOT collapse.
    s.select_to(3);
    assert_eq!(s.range_bounds(), 2..3);
    s.select_to(4);
    assert_eq!(s.range_bounds(), 2..4);
}

#[test]
fn select_to_anchor_collapses() {
    let mut s = Selection::caret(4);
    s.select_to(9);
    s.select_to(4);
    assert!(s.is_collapsed());
    assert_eq!(s.anchor(), None);
    assert_eq!(s.head(), 4);
}

#[test]
fn select_to_same_offset_fixes_anchor() {
    let mut s = Selection::caret(4);
    s.select_to(4);
    assert_eq!(s.anchor(), Some(4));
    assert!(s.is_collapsed());
}

#[test]
fn set_range_directions() {
    let mut s = Selection::default();
    assert_eq!(s.range_bounds(), 0..0);
    s.set_range(6, 2);
    assert!(s.is_reversed());
    assert_eq!(s.head(), 2);
    assert_eq!(s.anchor(), Some(6));
    s.set_range(3, 3);
    assert!(s.is_collapsed());
    assert_eq!(s.anchor(), None);
    s.set_range(1, 4);
    assert!(!s.is_reversed());
    assert_eq!(s.range_bounds(), 1..4);
    s.set_caret(9);
    assert_eq!(s, Selection::caret(9));
}

#[test]
fn grapheme_movement_skips_emoji() {
    let text = "a😀b";
    assert_eq!(apply_movement(text, 0, Movement::GraphemeRight), 1);
    assert_eq!(apply_movement(text, 1, Movement::GraphemeRight), 5);
    assert_eq!(apply_movement(text, 5, Movement::GraphemeRight), 6);
    assert_eq!(apply_movement(text, 6, Movement::GraphemeRight), 6);
    assert_eq!(apply_movement(text, 6, Movement::GraphemeLeft), 5);
    assert_eq!(apply_movement(text, 5, Movement::GraphemeLeft), 1);
    assert_eq!(apply_movement(text, 1, Movement::GraphemeLeft), 0);
}

#[test]
fn grapheme_movement_keeps_combining_marks_together() {
    // "e" followed by a combining acute accent forms one grapheme cluster.
    let text = "e\u{301}x";
    assert_eq!(apply_movement(text, 0, Movement::GraphemeRight), 3);
    assert_eq!(apply_movement(text, 3, Movement::GraphemeLeft), 0);
    // CRLF is a single grapheme.
    let crlf = "a\r\nb";
    assert_eq!(apply_movement(crlf, 1, Movement::GraphemeRight), 3);
}

#[test]
fn line_movement_with_multi_line_text() {
    let text = "first\nsecond\nthird";
    assert_eq!(apply_movement(text, 9, Movement::LineStart), 6);
    assert_eq!(apply_movement(text, 9, Movement::LineEnd), 12);
    assert_eq!(apply_movement(text, 0, Movement::LineStart), 0);
    // Last line has no trailing newline: LineEnd lands on document end.
    assert_eq!(apply_movement(text, 17, Movement::LineEnd), 18);
    assert_eq!(apply_movement(text, 13, Movement::LineEnd), 18);
}

#[test]
fn selection_line_end_single_line_goes_to_text_end() {
    let text = "hello world";
    assert_eq!(apply_movement(text, 0, Movement::LineEnd), text.len());
    assert_eq!(apply_movement(text, 5, Movement::LineEnd), text.len());
}

#[test]
fn word_movement_bouncing() {
    let text = "hello world there";
    assert_eq!(apply_movement(text, 5, Movement::WordRight), 6);
    // From inside "world" (offset 7), WordRight goes to start of "there".
    assert_eq!(apply_movement(text, 7, Movement::WordRight), 12);
    // From inside "there" (offset 12 is exact start), WordLeft goes back to "world".
    assert_eq!(apply_movement(text, 12, Movement::WordLeft), 6);
    // From exact start of "world" we go back to start of "hello".
    assert_eq!(apply_movement(text, 6, Movement::WordLeft), 0);
}

#[test]
fn word_movement_at_edges() {
    let text = "hello world";
    assert_eq!(apply_movement(text, 9, Movement::WordRight), text.len());
    assert_eq!(apply_movement(text, 0, Movement::WordLeft), 0);
    assert_eq!(apply_movement(text, 9, Movement::WordLeft), 6);
    // Punctuation is not a word: WordRight skips to the next word.
    assert_eq!(apply_movement("a, b", 0, Movement::WordRight), 3);
}

#[test]
fn document_movement() {
    let text = "abc";
    assert_eq!(apply_movement(text, 2, Movement::DocumentStart), 0);
    assert_eq!(apply_movement(text, 0, Movement::DocumentEnd), 3);
}

#[test]
fn movement_clamps_start_beyond_text() {
    let text = "abc";
    assert_eq!(apply_movement(text, 100, Movement::GraphemeLeft), 2);
    assert_eq!(apply_movement(text, 100, Movement::LineStart), 0);
    assert_eq!(apply_movement(text, 100, Movement::GraphemeRight), 3);
    assert_eq!(apply_movement("", 0, Movement::GraphemeLeft), 0);
    assert_eq!(apply_movement("", 0, Movement::WordRight), 0);
}

#[test]
fn reversed_range_keeps_fixed_end_as_anchor() {
    let r = Selection::range(7, 3);
    assert!(r.is_reversed());
    assert_eq!(r.head(), 3);
    assert_eq!(r.anchor(), Some(7));
    assert!(r.head() < r.anchor().unwrap());
}

#[test]
fn extending_a_reversed_selection_moves_the_head_only() {
    let mut s = Selection::caret(5);
    s.select_to(3);
    assert_eq!(s.head(), 3);
    assert_eq!(s.anchor(), Some(5));
    s.select_to(1);
    assert_eq!(s.range_bounds(), 1..5);
    assert!(s.is_reversed());
    s.select_to(4);
    assert_eq!(s.range_bounds(), 4..5);
    assert!(s.is_reversed());
    s.select_to(9);
    assert_eq!(s.range_bounds(), 5..9);
    assert!(!s.is_reversed());
    assert_eq!(s.anchor(), Some(5));
}
