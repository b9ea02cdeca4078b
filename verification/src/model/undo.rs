//! The history of edits, for undo and redo.
use vstd::prelude::*;
use super::commands::{Command, Edit};
use super::document::Document;

verus! {

/// How many edits the history keeps for undo; the oldest goes first.
pub const HISTORY_LIMIT: usize = 200;

#[verifier::ext_equal]
/// The model of a history: the edits that can be undone, most recent last,
/// and those that can be redone, the next one last.
pub struct History {
    pub undo: Seq<Edit>,
    pub redo: Seq<Edit>,
}

impl History {
    /// The history after `execute(command)`: the edit joins the undo list, which
    /// drops its oldest edit when it grows past the limit; the redo list empties.
    pub open spec fn executed(self, command: Edit) -> History {
        let undo = self.undo.push(command);
        History {
            undo: if undo.len() > HISTORY_LIMIT { undo.drop_first() } else { undo },
            redo: Seq::empty(),
        }
    }

    /// The history after a successful `undo`.
    pub open spec fn undone(self) -> History {
        History { undo: self.undo.drop_last(), redo: self.redo.push(self.undo.last()) }
    }

    /// The history after a successful `redo`.
    pub open spec fn redone(self) -> History {
        History { undo: self.undo.push(self.redo.last()), redo: self.redo.drop_last() }
    }
}

/// The edits made to a document, for undo and redo.
pub struct UndoStack {
    undo: Vec<Edit>,
    redo: Vec<Edit>,
}

impl View for UndoStack {
    type V = History;

    closed spec fn view(&self) -> History {
        History { undo: self.undo@, redo: self.redo@ }
    }
}

impl Default for UndoStack {
    /// An empty history.
    fn default() -> (r: Self)
        ensures
            r@.undo.len() == 0,
            r@.redo.len() == 0,
    {
        UndoStack { undo: Vec::new(), redo: Vec::new() }
    }
}

impl UndoStack {
    /// Applies `command` to `document` and records it; what could be redone is forgotten.
    pub fn execute(&mut self, command: Edit, document: &mut Document)
        requires
            command.can_apply(old(document)@),
        ensures
            final(document)@ == command.applied(old(document)@),
            final(self)@ == old(self)@.executed(command),
    {
        let mut command = command;
        command.apply(document);
        self.undo.push(command);
        if self.undo.len() > HISTORY_LIMIT {
            self.undo.remove(0);
        }
        self.redo.clear();
        assert(self@.undo =~= old(self)@.executed(command).undo);
        assert(self@.redo =~= old(self)@.executed(command).redo);
    }

    /// Whether `undo` runs to the end on `document`: nothing to undo, or the
    /// last edit can be taken back from it.
    pub fn can_undo_on(&self, document: &Document) -> (r: bool)
        ensures
            r == (self@.undo.len() > 0 ==> self@.undo.last().can_revert(document@)),
    {
        let n = self.undo.len();
        if n == 0 {
            true
        } else {
            self.undo[n - 1].can_revert_to(document)
        }
    }

    /// Whether `redo` runs to the end on `document`.
    pub fn can_redo_on(&self, document: &Document) -> (r: bool)
        ensures
            r == (self@.redo.len() > 0 ==> self@.redo.last().can_apply(document@)),
    {
        let n = self.redo.len();
        if n == 0 {
            true
        } else {
            self.redo[n - 1].can_apply_to(document)
        }
    }

    /// Takes back the last edit, if there is one, and says whether there was.
    pub fn undo(&mut self, document: &mut Document) -> (r: bool)
        requires
            old(self)@.undo.len() > 0 ==> old(self)@.undo.last().can_revert(old(document)@),
        ensures
            r == (old(self)@.undo.len() > 0),
            r ==> final(document)@ == old(self)@.undo.last().reverted(old(document)@),
            r ==> final(self)@ == old(self)@.undone(),
            !r ==> final(document)@ == old(document)@ && final(self)@ == old(self)@,
    {
        match self.undo.pop() {
            Some(c) => {
                let mut c = c;
                c.revert(document);
                self.redo.push(c);
                assert(self@.undo =~= old(self)@.undone().undo);
                assert(self@.redo =~= old(self)@.undone().redo);
                true
            },
            None => {
                assert(self@.undo =~= old(self)@.undo);
                false
            },
        }
    }

    /// Applies again the last edit taken back, if there is one, and says whether there was.
    pub fn redo(&mut self, document: &mut Document) -> (r: bool)
        requires
            old(self)@.redo.len() > 0 ==> old(self)@.redo.last().can_apply(old(document)@),
        ensures
            r == (old(self)@.redo.len() > 0),
            r ==> final(document)@ == old(self)@.redo.last().applied(old(document)@),
            r ==> final(self)@ == old(self)@.redone(),
            !r ==> final(document)@ == old(document)@ && final(self)@ == old(self)@,
    {
        match self.redo.pop() {
            Some(c) => {
                let mut c = c;
                c.apply(document);
                self.undo.push(c);
                assert(self@.undo =~= old(self)@.redone().undo);
                assert(self@.redo =~= old(self)@.redone().redo);
                true
            },
            None => {
                assert(self@.redo =~= old(self)@.redo);
                false
            },
        }
    }

    /// Forgets every edit.
    pub fn clear(&mut self)
        ensures
            final(self)@.undo.len() == 0,
            final(self)@.redo.len() == 0,
    {
        self.undo.clear();
        self.redo.clear();
    }
}

} // verus!
