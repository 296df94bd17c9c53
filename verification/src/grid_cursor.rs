//! A cursor on the character grid that may stand anywhere, also past the end
//! of the text.

use crate::rope::{
    breaks_before, lemma_line_of_char, lemma_line_of_position, lemma_line_start_order,
    lemma_next_line_past_end, line_count, line_start, rope_chars,
    rope_char_to_line, rope_len_chars, rope_len_lines, rope_line_to_char,
};
use ropey::Rope;
use vstd::prelude::*;

verus! {

/// The char offset of `(row, col)` in `s` when that position holds a
/// character of its line (the line taken as ending one char before the next
/// line's start, the last line at the end of the text).
pub open spec fn grid_offset(s: Seq<char>, row: int, col: int) -> Option<usize> {
    if row >= line_count(s) {
        None
    } else {
        let start = line_start(s, row as nat);
        let end = if row + 1 < line_count(s) {
            if line_start(s, (row + 1) as nat) > 0 {
                line_start(s, (row + 1) as nat) - 1
            } else {
                0
            }
        } else {
            s.len() as int
        };
        let len = if end >= start {
            end - start
        } else {
            0
        };
        if col < len {
            Some((start + col) as usize)
        } else {
            None
        }
    }
}

/// A cursor position `(row, col)` on the grid.
#[derive(Debug, Clone)]
pub struct GridCursor {
    pub row: usize,
    pub col: usize,
}

impl GridCursor {
    /// A cursor at the top-left corner.
    pub fn new() -> (c: Self)
        ensures
            c.row == 0,
            c.col == 0,
    {
        GridCursor { row: 0, col: 0 }
    }

    /// One row up, unless already at the top.
    pub fn move_up(&mut self)
        ensures
            final(self).row == (if old(self).row > 0 {
                old(self).row - 1
            } else {
                0
            }),
            final(self).col == old(self).col,
    {
        if self.row > 0 {
            self.row = self.row - 1;
        }
    }

    /// One row down, unless that would reach row `max_rows` or beyond.
    pub fn move_down(&mut self, max_rows: usize)
        ensures
            final(self).row == (if old(self).row + 1 < max_rows {
                old(self).row + 1
            } else {
                old(self).row as int
            }),
            final(self).col == old(self).col,
    {
        let last_row = if max_rows > 0 {
            max_rows - 1
        } else {
            0
        };
        if self.row < last_row {
            self.row = self.row + 1;
        }
    }

    /// One column left, unless already at the left edge.
    pub fn move_left(&mut self)
        ensures
            final(self).col == (if old(self).col > 0 {
                old(self).col - 1
            } else {
                0
            }),
            final(self).row == old(self).row,
    {
        if self.col > 0 {
            self.col = self.col - 1;
        }
    }

    /// One column right; the grid has no right edge, so `_max_cols` is not
    /// used.
    pub fn move_right(&mut self, _max_cols: usize)
        requires
            old(self).col < usize::MAX,
        ensures
            final(self).col == old(self).col + 1,
            final(self).row == old(self).row,
    {
        self.col = self.col + 1;
    }

    /// Moves to `(row, col)`.
    pub fn move_to(&mut self, row: usize, col: usize)
        ensures
            final(self).row == row,
            final(self).col == col,
    {
        self.row = row;
        self.col = col;
    }

    /// The char offset of the cursor in `rope`, or `None` when the cursor
    /// stands past the end of its line or below the last line (in virtual
    /// space). A line's length here is the distance to the next line's start
    /// minus one (the last line runs to the end of the text).
    pub fn to_char_offset(&self, rope: &Rope) -> (r: Option<usize>)
        ensures
            r == grid_offset(rope_chars(*rope), self.row as int, self.col as int),
    {
        let lines = rope_len_lines(rope);
        if self.row >= lines {
            return None;
        }
        let line_start = rope_line_to_char(rope, self.row);
        let line_end = if self.row + 1 < lines {
            let next = rope_line_to_char(rope, self.row + 1);
            if next > 0 {
                next - 1
            } else {
                0
            }
        } else {
            rope_len_chars(rope)
        };
        let line_len = if line_end >= line_start {
            line_end - line_start
        } else {
            0
        };
        proof {
            lemma_line_start_order(rope_chars(*rope), self.row as nat);
        }
        if self.col < line_len {
            Some(line_start + self.col)
        } else {
            None
        }
    }

    /// The cursor at char offset `offset` of `rope`: its line, and its
    /// distance from the line's start.
    pub fn from_char_offset(offset: usize, rope: &Rope) -> (c: Self)
        requires
            offset <= rope_chars(*rope).len(),
        ensures
            c.row == breaks_before(rope_chars(*rope), offset as int),
            c.col == offset - line_start(rope_chars(*rope), c.row as nat),
    {
        let row = rope_char_to_line(rope, offset);
        proof {
            lemma_line_of_char(rope_chars(*rope), offset as int);
        }
        let line_start = rope_line_to_char(rope, row);
        let col = offset - line_start;
        GridCursor { row, col }
    }
}

/// Converting a cursor to a char offset and back restores it: when
/// `to_char_offset` gives `o` for `(row, col)`, `o` is an offset that
/// `from_char_offset` accepts, and it gives back `row` and `col`. (A rope's
/// length fits in `usize`, as `len_chars` returns it.)
pub proof fn law_offset_roundtrip(s: Seq<char>, row: usize, col: usize, o: usize)
    requires
        s.len() <= usize::MAX,
        grid_offset(s, row as int, col as int) == Some(o),
    ensures
        o <= s.len(),
        breaks_before(s, o as int) == row,
        o - line_start(s, row as nat) == col,
{
    lemma_line_start_order(s, row as nat);
    let start = line_start(s, row as nat);
    assert(start + col < s.len()) by {
        if row + 1 < line_count(s) {
            lemma_line_start_order(s, (row + 1) as nat);
        }
    }
    assert(o == start + col);
    assert(start <= o < line_start(s, (row + 1) as nat)) by {
        if row + 1 < line_count(s) {
            lemma_line_start_order(s, (row + 1) as nat);
        } else {
            lemma_line_start_order(s, (row + 1) as nat);
            lemma_next_line_past_end(s, row as nat);
        }
    }
    lemma_line_of_position(s, row as nat, o as int);
}

} // verus!
