//! Snapshot-based undo with typing-run coalescing.
//!
//! Before each edit the caller records the *pre-edit* state; consecutive
//! printable typing coalesces into a single step (whitespace breaks the run),
//! giving word-level undo granularity. A new edit always truncates the redo
//! stack.

use vstd::prelude::*;

use crate::text::Pos;

verus! {

/// A restorable editor state.
#[derive(Debug, PartialEq)]
pub struct Snapshot {
    pub text: String,
    pub cursor: Pos,
}

impl Clone for Snapshot {
    fn clone(&self) -> (s: Self)
        ensures
            s == *self,
    {
        Snapshot { text: self.text.clone(), cursor: self.cursor }
    }
}

/// Unlimited undo/redo history for one document.
#[derive(Debug)]
pub struct History {
    undo: Vec<Snapshot>,
    redo: Vec<Snapshot>,
    /// True while a run of ordinary typing is being coalesced into one step.
    typing_run: bool,
}

/// The abstract state of a [`History`]: both stacks (top last) and whether a
/// typing run is open.
pub struct HistoryModel {
    pub undo: Seq<Snapshot>,
    pub redo: Seq<Snapshot>,
    pub typing_run: bool,
}

impl HistoryModel {
    /// The empty history.
    pub open spec fn empty() -> HistoryModel {
        HistoryModel { undo: Seq::empty(), redo: Seq::empty(), typing_run: false }
    }

    /// Record `before` as the state preceding an edit.
    pub open spec fn record(self, before: Snapshot, coalesce: bool) -> HistoryModel {
        HistoryModel {
            undo: if coalesce && self.typing_run {
                self.undo
            } else {
                self.undo.push(before)
            },
            redo: Seq::empty(),
            typing_run: coalesce,
        }
    }

    /// Close the current typing run.
    pub open spec fn break_run(self) -> HistoryModel {
        HistoryModel { typing_run: false, ..self }
    }

    /// Step back from `current`: the new history and the state to restore.
    pub open spec fn undo(self, current: Snapshot) -> (HistoryModel, Option<Snapshot>) {
        if self.undo.len() == 0 {
            (self, None)
        } else {
            (
                HistoryModel {
                    undo: self.undo.drop_last(),
                    redo: self.redo.push(current),
                    typing_run: false,
                },
                Some(self.undo.last()),
            )
        }
    }

    /// Step forward again from `current`.
    pub open spec fn redo(self, current: Snapshot) -> (HistoryModel, Option<Snapshot>) {
        if self.redo.len() == 0 {
            (self, None)
        } else {
            (
                HistoryModel {
                    undo: self.undo.push(current),
                    redo: self.redo.drop_last(),
                    typing_run: false,
                },
                Some(self.redo.last()),
            )
        }
    }
}

impl View for History {
    type V = HistoryModel;

    closed spec fn view(&self) -> HistoryModel {
        HistoryModel { undo: self.undo@, redo: self.redo@, typing_run: self.typing_run }
    }
}

impl Default for History {
    fn default() -> (h: Self)
        ensures
            h@ == HistoryModel::empty(),
    {
        let h = History { undo: Vec::new(), redo: Vec::new(), typing_run: false };
        assert(h@.undo =~= Seq::<Snapshot>::empty());
        assert(h@.redo =~= Seq::<Snapshot>::empty());
        h
    }
}

impl History {
    /// Record the state *before* an edit. `coalesce` is true for ordinary
    /// printable typing; any other edit starts a fresh undo step. A new edit
    /// always truncates the redo stack.
    pub fn record(&mut self, before: Snapshot, coalesce: bool)
        ensures
            final(self)@ == old(self)@.record(before, coalesce),
    {
        if !(coalesce && self.typing_run) {
            self.undo.push(before);
        }
        self.typing_run = coalesce;
        self.redo.clear();
        assert(self@.redo =~= Seq::<Snapshot>::empty());
    }

    /// End the current typing run (e.g. on cursor movement) so the next
    /// keystroke starts a new undo step.
    pub fn break_run(&mut self)
        ensures
            final(self)@ == old(self)@.break_run(),
    {
        self.typing_run = false;
    }

    /// Step back. `current` is the live state, pushed onto the redo stack.
    pub fn undo(&mut self, current: Snapshot) -> (r: Option<Snapshot>)
        ensures
            (final(self)@, r) == old(self)@.undo(current),
    {
        match self.undo.pop() {
            None => None,
            Some(prev) => {
                self.redo.push(current);
                self.typing_run = false;
                Some(prev)
            },
        }
    }

    /// Step forward again after an undo.
    pub fn redo(&mut self, current: Snapshot) -> (r: Option<Snapshot>)
        ensures
            (final(self)@, r) == old(self)@.redo(current),
    {
        match self.redo.pop() {
            None => None,
            Some(next) => {
                self.undo.push(current);
                self.typing_run = false;
                Some(next)
            },
        }
    }
}

/// Undoing and then redoing gives back the state that was current before the
/// undo and leaves both stacks as they were.
pub proof fn law_redo_undoes_undo(h: HistoryModel, current: Snapshot)
    requires
        h.undo.len() > 0,
    ensures
        ({
            let (h1, restored) = h.undo(current);
            let (h2, again) = h1.redo(restored.unwrap());
            &&& again == Some(current)
            &&& h2.undo == h.undo
            &&& h2.redo == h.redo
        }),
{
    let (h1, restored) = h.undo(current);
    let (h2, again) = h1.redo(restored.unwrap());
    assert(h2.undo =~= h.undo);
    assert(h2.redo =~= h.redo);
}

/// Redoing and then undoing gives back the state that was current before the
/// redo and leaves both stacks as they were.
pub proof fn law_undo_undoes_redo(h: HistoryModel, current: Snapshot)
    requires
        h.redo.len() > 0,
    ensures
        ({
            let (h1, restored) = h.redo(current);
            let (h2, again) = h1.undo(restored.unwrap());
            &&& again == Some(current)
            &&& h2.undo == h.undo
            &&& h2.redo == h.redo
        }),
{
    let (h1, restored) = h.redo(current);
    let (h2, again) = h1.undo(restored.unwrap());
    assert(h2.undo =~= h.undo);
    assert(h2.redo =~= h.redo);
}

/// A new edit truncates the redo stack: nothing can be redone after it.
pub proof fn law_record_truncates_redo(h: HistoryModel, before: Snapshot, coalesce: bool, current: Snapshot)
    ensures
        h.record(before, coalesce).redo(current).1 is None,
        h.record(before, coalesce).redo.len() == 0,
{
}

/// An edit that is not part of a typing run is one undo step: the next undo
/// restores exactly the state recorded before it.
pub proof fn law_undo_restores_recorded(h: HistoryModel, before: Snapshot, current: Snapshot)
    ensures
        h.record(before, false).undo(current).1 == Some(before),
        h.record(before, false).undo(current).0.undo == h.undo,
{
    assert(h.record(before, false).undo(current).0.undo =~= h.undo);
}

/// Consecutive typing coalesces: once a run is open, further typing adds no
/// undo step, so one undo goes back to the state before the whole run.
pub proof fn law_typing_run_coalesces(h: HistoryModel, first: Snapshot, later: Snapshot)
    ensures
        h.record(first, true).record(later, true).undo == h.record(first, true).undo,
        h.record(first, true).undo.last() == first || h.typing_run,
{
}

/// Breaking the run makes the next keystroke a fresh undo step.
pub proof fn law_break_run_splits(h: HistoryModel, before: Snapshot)
    ensures
        h.break_run().record(before, true).undo == h.undo.push(before),
{
}

/// Breaking the typing run changes nothing but the flag: both stacks stay.
pub proof fn law_break_run_keeps_the_stacks(h: HistoryModel)
    ensures
        h.break_run().undo == h.undo,
        h.break_run().redo == h.redo,
        !h.break_run().typing_run,
{
}

/// Moving the caret after an undo keeps what can be redone: undo from
/// `current`, break the run, and redo gives back `current`.
pub proof fn law_undo_move_redo(h: HistoryModel, current: Snapshot, later: Snapshot)
    requires
        h.undo.len() > 0,
    ensures
        h.undo(current).0.break_run().redo(later).1 == Some(current),
{
}

} // verus!
