//! Bounded undo and redo history of buffer snapshots.

use crate::text_buffer::TextBuffer;
use vstd::prelude::*;

verus! {

/// The text of the buffer and the cursor at one moment.
pub struct Snapshot {
    pub text: String,
    pub row: usize,
    pub col: usize,
}

impl Snapshot {
    /// The snapshot as plain values.
    pub open spec fn view(&self) -> (Seq<char>, usize, usize) {
        (self.text@, self.row, self.col)
    }
}

/// The text a buffer holds after it is restored from `t`: an empty text
/// gives a single newline.
pub open spec fn restored_text(t: Seq<char>) -> Seq<char> {
    if t.len() == 0 {
        seq!['\n']
    } else {
        t
    }
}

/// Undo history holding at most `max_size` snapshots, and the snapshots that
/// undoing has set aside for redoing.
pub struct UndoStack {
    undo_stack: Vec<Snapshot>,
    redo_stack: Vec<Snapshot>,
    max_size: usize,
}

/// The snapshots of a vector, oldest first.
pub open spec fn snapshots(v: Seq<Snapshot>) -> Seq<(Seq<char>, usize, usize)> {
    v.map_values(|s: Snapshot| s.view())
}

impl UndoStack {
    /// States that undoing restores, most recent last.
    pub closed spec fn undo_states(&self) -> Seq<(Seq<char>, usize, usize)> {
        snapshots(self.undo_stack@)
    }

    /// States that redoing restores, most recent last.
    pub closed spec fn redo_states(&self) -> Seq<(Seq<char>, usize, usize)> {
        snapshots(self.redo_stack@)
    }

    /// The largest number of states kept for undoing.
    pub closed spec fn capacity(&self) -> nat {
        self.max_size as nat
    }

    /// An empty history keeping at most `max_size` states.
    pub fn new(max_size: usize) -> (u: Self)
        ensures
            u.undo_states() == Seq::<(Seq<char>, usize, usize)>::empty(),
            u.redo_states() == Seq::<(Seq<char>, usize, usize)>::empty(),
            u.capacity() == max_size,
    {
        let u = UndoStack { undo_stack: Vec::new(), redo_stack: Vec::new(), max_size };
        assert(snapshots(u.undo_stack@) =~= Seq::empty());
        assert(snapshots(u.redo_stack@) =~= Seq::empty());
        u
    }

    /// Records the buffer's text and the cursor before a change: the oldest
    /// state goes when more than the capacity are kept, and the redo states
    /// are dropped.
    pub fn push_state(&mut self, buffer: &TextBuffer, row: usize, col: usize)
        ensures
            ({
                let pushed = old(self).undo_states().push((buffer.text(), row, col));
                final(self).undo_states() == if pushed.len() > old(self).capacity() {
                    pushed.drop_first()
                } else {
                    pushed
                }
            }),
            final(self).redo_states() == Seq::<(Seq<char>, usize, usize)>::empty(),
            final(self).capacity() == old(self).capacity(),
    {
        let snap = Snapshot { text: buffer.to_string(), row, col };
        self.undo_stack.push(snap);
        assert(snapshots(self.undo_stack@) =~= old(self).undo_states().push((buffer.text(), row, col)));
        if self.undo_stack.len() > self.max_size {
            let ghost before = self.undo_stack@;
            self.undo_stack.remove(0);
            assert(snapshots(self.undo_stack@) =~= snapshots(before).drop_first());
        }
        self.redo_stack.clear();
        assert(snapshots(self.redo_stack@) =~= Seq::empty());
    }

    /// Restores the most recent undo state into the buffer and the cursor,
    /// keeping the current ones for redoing; `false`, with nothing changed,
    /// when there is none.
    pub fn undo(&mut self, buffer: &mut TextBuffer, row: &mut usize, col: &mut usize) -> (done: bool)
        ensures
            done == (old(self).undo_states().len() > 0),
            done ==> {
                let s = old(self).undo_states().last();
                &&& final(self).undo_states() == old(self).undo_states().drop_last()
                &&& final(self).redo_states() == old(self).redo_states().push(
                    (old(buffer).text(), *old(row), *old(col)),
                )
                &&& final(buffer).text() == restored_text(s.0)
                &&& final(buffer).sel() is None
                &&& *final(row) == s.1
                &&& *final(col) == s.2
            },
            !done ==> {
                &&& final(self).undo_states() == old(self).undo_states()
                &&& final(self).redo_states() == old(self).redo_states()
                &&& final(buffer).text() == old(buffer).text()
                &&& final(buffer).sel() == old(buffer).sel()
                &&& *final(row) == *old(row)
                &&& *final(col) == *old(col)
            },
            final(self).capacity() == old(self).capacity(),
    {
        let ghost before = self.undo_stack@;
        match self.undo_stack.pop() {
            Some(snap) => {
                assert(snapshots(self.undo_stack@) =~= snapshots(before).drop_last());
                let current = Snapshot { text: buffer.to_string(), row: *row, col: *col };
                self.redo_stack.push(current);
                assert(snapshots(self.redo_stack@) =~= old(self).redo_states().push(
                    (old(buffer).text(), *old(row), *old(col)),
                ));
                *buffer = TextBuffer::from_string(snap.text.as_str());
                *row = snap.row;
                *col = snap.col;
                true
            },
            None => false,
        }
    }

    /// Restores the most recent redo state into the buffer and the cursor,
    /// keeping the current ones for undoing; `false`, with nothing changed,
    /// when there is none.
    pub fn redo(&mut self, buffer: &mut TextBuffer, row: &mut usize, col: &mut usize) -> (done: bool)
        ensures
            done == (old(self).redo_states().len() > 0),
            done ==> {
                let s = old(self).redo_states().last();
                &&& final(self).redo_states() == old(self).redo_states().drop_last()
                &&& final(self).undo_states() == old(self).undo_states().push(
                    (old(buffer).text(), *old(row), *old(col)),
                )
                &&& final(buffer).text() == restored_text(s.0)
                &&& final(buffer).sel() is None
                &&& *final(row) == s.1
                &&& *final(col) == s.2
            },
            !done ==> {
                &&& final(self).undo_states() == old(self).undo_states()
                &&& final(self).redo_states() == old(self).redo_states()
                &&& final(buffer).text() == old(buffer).text()
                &&& final(buffer).sel() == old(buffer).sel()
                &&& *final(row) == *old(row)
                &&& *final(col) == *old(col)
            },
            final(self).capacity() == old(self).capacity(),
    {
        let ghost before = self.redo_stack@;
        match self.redo_stack.pop() {
            Some(snap) => {
                assert(snapshots(self.redo_stack@) =~= snapshots(before).drop_last());
                let current = Snapshot { text: buffer.to_string(), row: *row, col: *col };
                self.undo_stack.push(current);
                assert(snapshots(self.undo_stack@) =~= old(self).undo_states().push(
                    (old(buffer).text(), *old(row), *old(col)),
                ));
                *buffer = TextBuffer::from_string(snap.text.as_str());
                *row = snap.row;
                *col = snap.col;
                true
            },
            None => false,
        }
    }
}

} // verus!
