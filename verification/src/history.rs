//! Bounded undo/redo history.
//!
//! Records a snapshot of `(text, selection)` before each meaningful mutation.
//! The undo stack is capped at a maximum number of entries; once exceeded,
//! the oldest entries are dropped. Coalescing of consecutive edits is decided
//! by the editing state — this struct is a plain bounded stack pair.
use vstd::prelude::*;

use crate::selection::Selection;

verus! {

#[derive(Debug)]
pub struct Entry {
    pub text: String,
    pub selection: Selection,
}

impl Clone for Entry {
    fn clone(&self) -> (r: Self)
        ensures
            r == *self,
    {
        Entry { text: self.text.clone(), selection: self.selection.clone() }
    }
}

/// The abstract value of a history: `(undo stack, redo stack, capacity)`,
/// stacks listed bottom to top.
pub type HistoryModel = (Seq<Entry>, Seq<Entry>, usize);

#[derive(Debug)]
pub struct History {
    undo_stack: Vec<Entry>,
    redo_stack: Vec<Entry>,
    max_entries: usize,
}

impl View for History {
    type V = HistoryModel;

    closed spec fn view(&self) -> HistoryModel {
        (self.undo_stack@, self.redo_stack@, self.max_entries)
    }
}

/// A history holds at most `capacity` snapshots across both stacks, and the
/// capacity is at least one.
pub open spec fn history_wf(h: HistoryModel) -> bool {
    h.2 >= 1 && h.0.len() + h.1.len() <= h.2
}

/// Keep only the newest `cap` entries of a stack.
pub open spec fn keep_newest(s: Seq<Entry>, cap: nat) -> Seq<Entry> {
    if s.len() > cap {
        s.skip(s.len() - cap)
    } else {
        s
    }
}

/// The history after recording a snapshot: pushed on the undo stack (oldest
/// dropped beyond the capacity) and the redo stack emptied.
pub open spec fn history_push(h: HistoryModel, e: Entry) -> HistoryModel {
    (keep_newest(h.0.push(e), h.2 as nat), Seq::empty(), h.2)
}

/// The history after an undo that saves `current` for redo (undo stack non-empty).
pub open spec fn history_after_undo(h: HistoryModel, current: Entry) -> HistoryModel {
    (h.0.drop_last(), h.1.push(current), h.2)
}

/// The history after a redo that saves `current` for undo (redo stack non-empty).
pub open spec fn history_after_redo(h: HistoryModel, current: Entry) -> HistoryModel {
    (h.0.push(current), h.1.drop_last(), h.2)
}

impl History {
    /// Maximum number of undo snapshots retained by default.
    pub const DEFAULT_MAX_ENTRIES: usize = 256;

    pub fn new() -> (h: Self)
        ensures
            h@ == (Seq::<Entry>::empty(), Seq::<Entry>::empty(), 256usize),
            history_wf(h@),
    {
        History { undo_stack: Vec::new(), redo_stack: Vec::new(), max_entries: Self::DEFAULT_MAX_ENTRIES }
    }

    /// Construct with a custom cap (minimum 1).
    pub fn with_capacity(max_entries: usize) -> (h: Self)
        ensures
            h@ == (Seq::<Entry>::empty(), Seq::<Entry>::empty(), if max_entries >= 1 {
                max_entries
            } else {
                1usize
            }),
            history_wf(h@),
    {
        let cap = if max_entries >= 1 {
            max_entries
        } else {
            1
        };
        History { undo_stack: Vec::new(), redo_stack: Vec::new(), max_entries: cap }
    }

    /// Number of snapshots currently on the undo stack.
    pub fn undo_depth(&self) -> (n: usize)
        ensures
            n == self@.0.len(),
    {
        self.undo_stack.len()
    }

    /// Push a new snapshot onto the undo stack, dropping the oldest entries if
    /// the cap is exceeded. Clears the redo stack.
    pub fn push(&mut self, text: String, selection: Selection)
        requires
            history_wf(old(self)@),
        ensures
            final(self)@ == history_push(old(self)@, Entry { text, selection }),
            history_wf(final(self)@),
    {
        let ghost e = Entry { text, selection };
        self.undo_stack.push(Entry { text, selection });
        self.redo_stack.clear();
        if self.undo_stack.len() > self.max_entries {
            let overflow = self.undo_stack.len() - self.max_entries;
            let kept = self.undo_stack.split_off(overflow);
            self.undo_stack = kept;
        }
    }

    /// True if there is an entry to undo.
    pub fn can_undo(&self) -> (r: bool)
        ensures
            r == (self@.0.len() > 0),
    {
        self.undo_stack.len() > 0
    }

    /// True if there is an entry to redo.
    pub fn can_redo(&self) -> (r: bool)
        ensures
            r == (self@.1.len() > 0),
    {
        self.redo_stack.len() > 0
    }

    /// Pop an undo snapshot, pushing the given current `(text, selection)` onto
    /// the redo stack. Returns `None` if there's nothing to undo.
    pub fn pop_undo(&mut self, current: (String, Selection)) -> (r: Option<Entry>)
        requires
            history_wf(old(self)@),
        ensures
            old(self)@.0.len() == 0 ==> r is None && final(self)@ == old(self)@,
            old(self)@.0.len() > 0 ==> r == Some(old(self)@.0.last()) && final(self)@
                == history_after_undo(old(self)@, Entry { text: current.0, selection: current.1 }),
            history_wf(final(self)@),
    {
        match self.undo_stack.pop() {
            Some(entry) => {
                self.redo_stack.push(Entry { text: current.0, selection: current.1 });
                Some(entry)
            },
            None => None,
        }
    }

    /// Pop a redo snapshot, pushing the given current `(text, selection)` onto
    /// the undo stack. Returns `None` if there's nothing to redo.
    pub fn pop_redo(&mut self, current: (String, Selection)) -> (r: Option<Entry>)
        requires
            history_wf(old(self)@),
        ensures
            old(self)@.1.len() == 0 ==> r is None && final(self)@ == old(self)@,
            old(self)@.1.len() > 0 ==> r == Some(old(self)@.1.last()) && final(self)@
                == history_after_redo(old(self)@, Entry { text: current.0, selection: current.1 }),
            history_wf(final(self)@),
    {
        match self.redo_stack.pop() {
            Some(entry) => {
                self.undo_stack.push(Entry { text: current.0, selection: current.1 });
                Some(entry)
            },
            None => None,
        }
    }

    /// Discard all history.
    pub fn clear(&mut self)
        requires
            history_wf(old(self)@),
        ensures
            final(self)@ == (Seq::<Entry>::empty(), Seq::<Entry>::empty(), old(self)@.2),
            history_wf(final(self)@),
    {
        self.undo_stack.clear();
        self.redo_stack.clear();
    }
}

impl Clone for History {
    fn clone(&self) -> (r: Self)
        ensures
            r@ =~= self@,
    {
        let mut undo: Vec<Entry> = Vec::new();
        let mut i: usize = 0;
        while i < self.undo_stack.len()
            invariant
                i <= self.undo_stack@.len(),
                undo@ == self.undo_stack@.take(i as int),
            decreases self.undo_stack@.len() - i,
        {
            undo.push(self.undo_stack[i].clone());
            i = i + 1;
            assert(undo@ =~= self.undo_stack@.take(i as int));
        }
        let mut redo: Vec<Entry> = Vec::new();
        let mut j: usize = 0;
        while j < self.redo_stack.len()
            invariant
                j <= self.redo_stack@.len(),
                redo@ == self.redo_stack@.take(j as int),
            decreases self.redo_stack@.len() - j,
        {
            redo.push(self.redo_stack[j].clone());
            j = j + 1;
            assert(redo@ =~= self.redo_stack@.take(j as int));
        }
        assert(undo@ =~= self.undo_stack@);
        assert(redo@ =~= self.redo_stack@);
        History { undo_stack: undo, redo_stack: redo, max_entries: self.max_entries }
    }
}

impl Default for History {
    fn default() -> (h: Self)
        ensures
            h@ == (Seq::<Entry>::empty(), Seq::<Entry>::empty(), 256usize),
    {
        History::new()
    }
}

/// Undoing and then redoing gives back the state that was current before the
/// undo, and leaves the history as it was.
pub proof fn lemma_history_undo_then_redo(h: HistoryModel, current: Entry)
    requires
        h.0.len() > 0,
    ensures
        history_after_undo(h, current).1.last() == current,
        history_after_redo(history_after_undo(h, current), h.0.last()) == h,
{
    let u = history_after_undo(h, current);
    assert(u.0.push(h.0.last()) =~= h.0);
    assert(u.1.drop_last() =~= h.1);
}

/// Redoing and then undoing gives back the state that was current before the
/// redo, and leaves the history as it was.
pub proof fn lemma_history_redo_then_undo(h: HistoryModel, current: Entry)
    requires
        h.1.len() > 0,
    ensures
        history_after_redo(h, current).0.last() == current,
        history_after_undo(history_after_redo(h, current), h.1.last()) == h,
{
    let r = history_after_redo(h, current);
    assert(r.1.push(h.1.last()) =~= h.1);
    assert(r.0.drop_last() =~= h.0);
}

/// The snapshot just recorded is the one the next undo returns, and nothing
/// is left to redo.
pub proof fn lemma_history_push_top(h: HistoryModel, e: Entry)
    requires
        history_wf(h),
    ensures
        history_push(h, e).0.last() == e,
        history_push(h, e).0.len() > 0,
        history_push(h, e).1.len() == 0,
        history_push(h, e).0.len() <= h.2,
{
}

/// The history after recording each of `es` in order.
pub open spec fn history_push_all(h: HistoryModel, es: Seq<Entry>) -> HistoryModel
    decreases es.len(),
{
    if es.len() == 0 {
        h
    } else {
        history_push(history_push_all(h, es.drop_last()), es.last())
    }
}

/// Recording snapshots one after another keeps the newest `capacity` of all
/// undo entries, newest on top, and leaves nothing to redo: from an empty
/// history, `k` pushes leave `min(k, capacity)` entries, the last one on top.
pub proof fn lemma_history_push_all(h: HistoryModel, es: Seq<Entry>)
    requires
        history_wf(h),
    ensures
        history_push_all(h, es).0 == keep_newest(h.0 + es, h.2 as nat),
        history_push_all(h, es).2 == h.2,
        history_wf(history_push_all(h, es)),
        es.len() > 0 ==> history_push_all(h, es).1.len() == 0,
        history_push_all(h, es).0.len() == (if h.0.len() + es.len() <= h.2 {
            h.0.len() + es.len()
        } else {
            h.2 as nat
        }),
        es.len() > 0 ==> history_push_all(h, es).0.last() == es.last(),
        forall|i: int|
            0 <= i < history_push_all(h, es).0.len() ==> #[trigger] history_push_all(h, es).0[i] == (h.0
                + es)[(h.0 + es).len() - history_push_all(h, es).0.len() + i],
    decreases es.len(),
{
    if es.len() == 0 {
        assert(h.0 + es =~= h.0);
    } else {
        let init = es.drop_last();
        lemma_history_push_all(h, init);
        let p = history_push_all(h, init);
        let x = h.0 + init;
        let c = h.2 as nat;
        assert(h.0 + es =~= x.push(es.last()));
        assert(keep_newest(keep_newest(x, c).push(es.last()), c) =~= keep_newest(x.push(es.last()), c));
        lemma_history_push_top(p, es.last());
    }
}

/// Recording a snapshot keeps the newest entries: the undo stack becomes the
/// last `min(len + 1, capacity)` entries of the old stack followed by the new
/// snapshot, in order, and the redo stack is emptied.
pub proof fn lemma_history_push_keeps_newest(h: HistoryModel, e: Entry)
    requires
        history_wf(h),
    ensures
        ({
            let s = h.0.push(e);
            let r = history_push(h, e).0;
            &&& r.len() == (if s.len() <= h.2 {
                s.len()
            } else {
                h.2 as nat
            })
            &&& forall|i: int| 0 <= i < r.len() ==> #[trigger] r[i] == s[s.len() - r.len() + i]
            &&& r.last() == e
            &&& history_push(h, e).1.len() == 0
            &&& history_push(h, e).2 == h.2
        }),
{
}

} // verus!
