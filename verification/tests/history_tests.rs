use sqlly_textbox::history::History;
use sqlly_textbox::Selection;

fn sel() -> Selection {
    Selection::caret(0)
}

#[test]
fn push_then_undo_redo() {
    let mut h = History::new();
    h.push("a".into(), sel());
    h.push("ab".into(), sel());
    let entry = h.pop_undo(("ab".into(), sel())).unwrap();
    assert_eq!(entry.text, "ab");
    let entry = h.pop_undo(("a".into(), sel())).unwrap();
    assert_eq!(entry.text, "a");
    assert!(!h.can_undo());
    let entry = h.pop_redo(("ab".into(), sel())).unwrap();
    assert_eq!(entry.text, "a");
    let entry = h.pop_redo(("foo".into(), sel())).unwrap();
    assert_eq!(entry.text, "ab");
    assert!(!h.can_redo());
}

#[test]
fn history_new_edit_clears_redo() {
    let mut h = History::new();
    h.push("a".into(), sel());
    h.pop_undo(("".into(), sel())).unwrap();
    assert!(h.can_redo());
    h.push("z".into(), sel());
    assert!(!h.can_redo());
}

#[test]
fn empty_undo_redo_is_safe() {
    let mut h = History::new();
    assert!(!h.can_undo());
    assert!(!h.can_redo());
    assert!(h.pop_undo(("x".into(), sel())).is_none());
    assert!(h.pop_redo(("x".into(), sel())).is_none());
}

#[test]
fn undo_stack_is_bounded() {
    let mut h = History::with_capacity(3);
    for i in 0..10 {
        h.push(format!("v{i}"), sel());
    }
    assert_eq!(h.undo_depth(), 3);
    // Oldest entries dropped; the most recent pre-state survives.
    let entry = h.pop_undo(("v10".into(), sel())).unwrap();
    assert_eq!(entry.text, "v9");
}

#[test]
fn with_capacity_zero_keeps_one_entry() {
    let mut h = History::with_capacity(0);
    h.push("a".into(), sel());
    h.push("b".into(), sel());
    assert_eq!(h.undo_depth(), 1);
    assert_eq!(h.pop_undo(("c".into(), sel())).unwrap().text, "b");
}

#[test]
fn default_capacity_is_256() {
    let mut h = History::new();
    for i in 0..300 {
        h.push(format!("{i}"), sel());
    }
    assert_eq!(h.undo_depth(), History::DEFAULT_MAX_ENTRIES);
    assert_eq!(h.undo_depth(), 256);
    assert_eq!(h.pop_undo(("x".into(), sel())).unwrap().text, "299");
}

#[test]
fn undo_then_redo_round_trip_law() {
    let mut h = History::new();
    h.push("before".into(), Selection::caret(3));
    let undone = h.pop_undo(("after".into(), Selection::range(1, 2))).unwrap();
    assert_eq!(undone.text, "before");
    let redone = h.pop_redo((undone.text.clone(), undone.selection.clone())).unwrap();
    assert_eq!(redone.text, "after");
    assert_eq!(redone.selection, Selection::range(1, 2));
    assert_eq!(h.undo_depth(), 1);
    assert!(!h.can_redo());
}

#[test]
fn clear_discards_everything() {
    let mut h = History::new();
    h.push("a".into(), sel());
    h.pop_undo(("b".into(), sel()));
    h.push("c".into(), sel());
    h.clear();
    assert!(!h.can_undo());
    assert!(!h.can_redo());
    assert_eq!(h.undo_depth(), 0);
}
