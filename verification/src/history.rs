//! Undo and redo stacks of single-character edits.
use vstd::prelude::*;

verus! {

/// One recorded edit of the text: a character inserted at, or deleted from, an index.
#[derive(Clone, Copy, PartialEq, Eq, Structural, Debug)]
pub enum Action {
    Insert(usize, char),
    Delete(usize, char),
}

impl Action {
    /// The edit that undoes this one.
    pub open spec fn inverse(self) -> Action {
        match self {
            Action::Insert(i, c) => Action::Delete(i, c),
            Action::Delete(i, c) => Action::Insert(i, c),
        }
    }
}

/// Law: undoing an undo gives back the original edit.
pub proof fn law_inverse_involution(a: Action)
    ensures
        a.inverse().inverse() == a,
{
}

/// The two stacks, each with its top at the end.
#[verifier::ext_equal]
pub struct HistoryView {
    pub undo: Seq<Action>,
    pub redo: Seq<Action>,
}

impl HistoryView {
    /// The stacks after a new edit `a` is recorded.
    pub open spec fn recorded(self, a: Action) -> HistoryView {
        HistoryView { undo: self.undo.push(a), redo: Seq::empty() }
    }

    /// The stacks after an undo, and the edit that undoes the last one.
    pub open spec fn undone(self) -> (HistoryView, Option<Action>) {
        if self.undo.len() == 0 {
            (self, None)
        } else {
            let a = self.undo.last();
            (HistoryView { undo: self.undo.drop_last(), redo: self.redo.push(a) }, Some(a.inverse()))
        }
    }

    /// The stacks after a redo, and the edit to apply again.
    pub open spec fn redone(self) -> (HistoryView, Option<Action>) {
        if self.redo.len() == 0 {
            (self, None)
        } else {
            let a = self.redo.last();
            (HistoryView { undo: self.undo.push(a), redo: self.redo.drop_last() }, Some(a))
        }
    }
}

/// Law: right after an edit is recorded, undo yields its inverse, leaves the
/// earlier undo stack, and makes the edit the only one to redo.
pub proof fn law_undo_after_record(h: HistoryView, a: Action)
    ensures
        h.recorded(a).undone() == (HistoryView { undo: h.undo, redo: seq![a] }, Some(a.inverse())),
{
    assert(h.recorded(a).undone().0 =~= HistoryView { undo: h.undo, redo: seq![a] });
}

/// Law: redo right after an undo yields the undone edit and restores both stacks.
pub proof fn law_redo_after_undo(h: HistoryView)
    requires
        h.undo.len() > 0,
    ensures
        h.undone().0.redone() == (h, Some(h.undo.last())),
{
    assert(h.undone().0.redone().0 =~= h);
}

/// Law: undo right after a redo yields the inverse of the redone edit and restores
/// both stacks.
pub proof fn law_undo_after_redo(h: HistoryView)
    requires
        h.redo.len() > 0,
    ensures
        h.redone().0.undone() == (h, Some(h.redo.last().inverse())),
{
    assert(h.redone().0.undone().0 =~= h);
}

/// Law: a new edit leaves nothing to redo.
pub proof fn law_record_clears_redo(h: HistoryView, a: Action)
    ensures
        h.recorded(a).redone() == (h.recorded(a), None::<Action>),
{
}

/// The undo and redo stacks of an editor.
pub struct History {
    undo_stack: Vec<Action>,
    redo_stack: Vec<Action>,
}

impl View for History {
    type V = HistoryView;

    open spec fn view(&self) -> HistoryView {
        self.stacks()
    }
}

impl History {
    pub closed spec fn stacks(&self) -> HistoryView {
        HistoryView { undo: self.undo_stack@, redo: self.redo_stack@ }
    }

    /// Empty stacks.
    pub fn new() -> (h: Self)
        ensures
            h@ == (HistoryView { undo: Seq::empty(), redo: Seq::empty() }),
    {
        let h = History { undo_stack: Vec::with_capacity(1024), redo_stack: Vec::with_capacity(1024) };
        assert(h@ =~= HistoryView { undo: Seq::empty(), redo: Seq::empty() });
        h
    }

    /// Records a new edit, which also forgets everything that could be redone.
    pub fn record(&mut self, action: Action)
        ensures
            final(self)@ == old(self)@.recorded(action),
    {
        self.undo_stack.push(action);
        self.redo_stack.clear();
        assert(self@ =~= old(self)@.recorded(action));
    }

    /// Moves the last recorded edit to the redo stack and returns the edit that
    /// undoes it; `None` when there is nothing to undo.
    pub fn undo(&mut self) -> (r: Option<Action>)
        ensures
            (final(self)@, r) == old(self)@.undone(),
    {
        match self.undo_stack.pop() {
            None => None,
            Some(action) => {
                self.redo_stack.push(action);
                assert(self@ =~= old(self)@.undone().0);
                match action {
                    Action::Insert(idx, c) => Some(Action::Delete(idx, c)),
                    Action::Delete(idx, c) => Some(Action::Insert(idx, c)),
                }
            },
        }
    }

    /// Moves the last undone edit back to the undo stack and returns it; `None`
    /// when there is nothing to redo.
    pub fn redo(&mut self) -> (r: Option<Action>)
        ensures
            (final(self)@, r) == old(self)@.redone(),
    {
        match self.redo_stack.pop() {
            None => None,
            Some(action) => {
                self.undo_stack.push(action);
                assert(self@ =~= old(self)@.redone().0);
                Some(action)
            },
        }
    }

    /// Forgets every recorded edit.
    pub fn clear(&mut self)
        ensures
            final(self)@ == (HistoryView { undo: Seq::empty(), redo: Seq::empty() }),
    {
        self.undo_stack.clear();
        self.redo_stack.clear();
        assert(self@ =~= HistoryView { undo: Seq::empty(), redo: Seq::empty() });
    }
}

} // verus!
