use sqlly_textbox::layout::{
    advance_byte_idx, caret_candidates, selection_segments, text_run_lengths, visible_rows,
};

#[test]
fn advance_includes_line_feed() {
    let text = "ab\ncd";
    assert_eq!(advance_byte_idx(0, 2, text), 3);
    assert_eq!(advance_byte_idx(3, 2, text), 5);
    // A wrapped row that does not end at a line feed.
    assert_eq!(advance_byte_idx(0, 1, text), 1);
}

#[test]
fn selection_split_across_lines() {
    let text = "ab\ncd\nef";
    let segs = selection_segments(&[2, 2, 2], text, 1..7);
    assert_eq!(segs, vec![(0, 1, 2), (1, 0, 2), (2, 0, 1)]);
    assert!(selection_segments(&[2, 2, 2], text, 4..4).is_empty());
    // Selecting only the line feed paints nothing.
    assert!(selection_segments(&[2, 2, 2], text, 2..3).is_empty());
}

#[test]
fn caret_line_candidates() {
    let text = "ab\ncd";
    assert_eq!(caret_candidates(&[2, 2], text, 4, true), vec![(1, 1)]);
    assert_eq!(caret_candidates(&[2, 2], text, 2, true), vec![(0, 2), (1, 0)]);
    assert_eq!(caret_candidates(&[2, 2], text, 9, true), vec![]);
    // Without checking for line feeds every line but the last takes one separator byte.
    assert_eq!(caret_candidates(&[2, 2], "abxcd", 4, false), vec![(1, 1)]);
}

#[test]
fn runs_split_on_marked_range() {
    assert_eq!(text_run_lengths("hello", None), vec![(5, false)]);
    assert_eq!(
        text_run_lengths("hello", Some(&(1..3))),
        vec![(1, false), (2, true), (2, false)]
    );
    assert_eq!(text_run_lengths("hello", Some(&(0..5))), vec![(5, true)]);
}

#[test]
fn rows_follow_lines_within_limits() {
    assert_eq!(visible_rows("", 0, None), 1);
    assert_eq!(visible_rows("a\nb\nc", 1, None), 3);
    assert_eq!(visible_rows("a\nb\nc", 5, None), 5);
    assert_eq!(visible_rows("a\nb\nc\nd", 2, Some(3)), 3);
    assert_eq!(visible_rows("a\nb\nc\nd", 4, Some(2)), 4);
}
