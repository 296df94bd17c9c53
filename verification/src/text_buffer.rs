//! A text buffer on a rope, addressed by `(row, column)`, with an optional
//! selection between two positions.

use crate::rope::{
    breaks_before, lemma_line_of_char, lemma_line_start_order, line_chars, line_count, line_start,
    rope_chars, rope_char_to_line, rope_clone, rope_from_str, rope_insert, rope_insert_char,
    rope_len_chars, rope_len_lines, rope_line, rope_line_to_char, rope_remove, rope_slice,
    rope_to_string, slice_char, slice_len_chars, slice_to_string,
};
use ropey::Rope;
use vstd::prelude::*;

verus! {

/// A selection between a start position and an end position (in either
/// order).
#[derive(Debug)]
pub struct Selection {
    pub start_row: usize,
    pub start_col: usize,
    pub end_row: usize,
    pub end_col: usize,
}

impl Clone for Selection {
    fn clone(&self) -> (r: Self)
        ensures
            r == *self,
    {
        Selection {
            start_row: self.start_row,
            start_col: self.start_col,
            end_row: self.end_row,
            end_col: self.end_col,
        }
    }
}

/// `(row, col)` comes before or at `(row2, col2)` in reading order.
pub open spec fn pos_le(row: int, col: int, row2: int, col2: int) -> bool {
    row < row2 || (row == row2 && col <= col2)
}

impl Selection {
    /// The two ends in reading order: `(start_row, start_col, end_row,
    /// end_col)`.
    pub open spec fn ordered(self) -> (usize, usize, usize, usize) {
        if pos_le(self.start_row as int, self.start_col as int, self.end_row as int, self.end_col as int) {
            (self.start_row, self.start_col, self.end_row, self.end_col)
        } else {
            (self.end_row, self.end_col, self.start_row, self.start_col)
        }
    }

    /// An empty selection at `(row, col)`.
    pub fn new(row: usize, col: usize) -> (s: Self)
        ensures
            s == (Selection { start_row: row, start_col: col, end_row: row, end_col: col }),
    {
        Selection { start_row: row, start_col: col, end_row: row, end_col: col }
    }

    /// Moves the end of the selection to `(row, col)`.
    pub fn update(&mut self, row: usize, col: usize)
        ensures
            *final(self) == (Selection { end_row: row, end_col: col, ..*old(self) }),
    {
        self.end_row = row;
        self.end_col = col;
    }

    /// The ends in reading order.
    pub fn normalized(&self) -> (r: (usize, usize, usize, usize))
        ensures
            r == self.ordered(),
    {
        if self.start_row < self.end_row || (self.start_row == self.end_row && self.start_col
            <= self.end_col) {
            (self.start_row, self.start_col, self.end_row, self.end_col)
        } else {
            (self.end_row, self.end_col, self.start_row, self.start_col)
        }
    }

    /// Whether `(row, col)` lies between the two ends (both included), in
    /// reading order.
    pub fn contains(&self, row: usize, col: usize) -> (b: bool)
        ensures
            b == (pos_le(self.ordered().0 as int, self.ordered().1 as int, row as int, col as int)
                && pos_le(row as int, col as int, self.ordered().2 as int, self.ordered().3 as int)),
    {
        let (start_row, start_col, end_row, end_col) = self.normalized();
        if row < start_row || row > end_row {
            return false;
        }
        if row == start_row && row == end_row {
            col >= start_col && col <= end_col
        } else if row == start_row {
            col >= start_col
        } else if row == end_row {
            col <= end_col
        } else {
            true
        }
    }
}

/// Length of line `row` without its trailing newline (0 past the last line).
pub open spec fn line_length(s: Seq<char>, row: nat) -> int {
    if row < line_count(s) {
        let l = line_chars(s, row);
        if l.len() > 0 && l.last() == '\n' {
            l.len() - 1
        } else {
            l.len() as int
        }
    } else {
        0
    }
}

/// The row clamped to the last line.
pub open spec fn clamp_row(s: Seq<char>, row: int) -> nat {
    if row < line_count(s) - 1 {
        row as nat
    } else {
        (line_count(s) - 1) as nat
    }
}

/// Char index of `(row, col)`: the row is clamped to the last line and the
/// column to the length of that line.
pub open spec fn pos_index(s: Seq<char>, row: int, col: int) -> int {
    let r = clamp_row(s, row);
    line_start(s, r) + if col < line_length(s, r) {
        col
    } else {
        line_length(s, r)
    }
}

/// `(row, col)` of char index `idx` (clamped to the end of the text).
pub open spec fn pos_of_index(s: Seq<char>, idx: int) -> (int, int) {
    let c = if idx < s.len() {
        idx
    } else {
        s.len() as int
    };
    let r = breaks_before(s, c);
    (r as int, c - line_start(s, r))
}

/// The chars of `s` from `(row, col)` up to and including `(row2, col2)`, as
/// char indices, clamped as `pos_index` clamps.
pub open spec fn selection_range(s: Seq<char>, sel: Selection) -> (int, int) {
    let (sr, sc, er, ec) = sel.ordered();
    (pos_index(s, sr as int, sc as int), pos_index(s, er as int, ec + 1))
}

/// A line's length without its newline is at most its length.
proof fn lemma_line_length(s: Seq<char>, row: nat)
    requires
        row < line_count(s),
    ensures
        0 <= line_length(s, row) <= line_start(s, row + 1) - line_start(s, row),
        line_start(s, row) + line_length(s, row) <= s.len(),
{
    lemma_line_start_order(s, row);
}

/// Text held in a rope, with an optional selection.
#[derive(Debug)]
pub struct TextBuffer {
    rope: Rope,
    pub selection: Option<Selection>,
}

impl TextBuffer {
    /// The selection.
    pub closed spec fn sel(&self) -> Option<Selection> {
        self.selection
    }

    /// The characters of the buffer.
    pub closed spec fn text(&self) -> Seq<char> {
        rope_chars(self.rope)
    }

    /// A buffer holding a single newline.
    pub fn new() -> (b: Self)
        ensures
            b.text() == seq!['\n'],
            b.sel() is None,
    {
        let rope = rope_from_str("\n");
        proof {
            reveal_strlit("\n");
        }
        TextBuffer { rope, selection: None }
    }

    /// A buffer holding `content` (a single newline when it is empty).
    pub fn from_string(content: &str) -> (b: Self)
        ensures
            b.text() == (if content@.len() == 0 {
                seq!['\n']
            } else {
                content@
            }),
            b.sel() is None,
    {
        let rope = if content.is_empty() {
            proof {
                reveal_strlit("\n");
            }
            rope_from_str("\n")
        } else {
            rope_from_str(content)
        };
        TextBuffer { rope, selection: None }
    }

    /// The buffer's text.
    pub fn to_string(&self) -> (s: String)
        ensures
            s@ == self.text(),
    {
        rope_to_string(&self.rope)
    }

    /// Number of lines (one more than the number of line breaks).
    pub fn line_count(&self) -> (n: usize)
        ensures
            n == line_count(self.text()),
    {
        rope_len_lines(&self.rope)
    }

    /// Line `row` with its line break, or `None` past the last line.
    pub fn get_line(&self, row: usize) -> (r: Option<String>)
        ensures
            r matches Some(l) ==> row < line_count(self.text()) && l@ == line_chars(
                self.text(),
                row as nat,
            ),
            r is None ==> row >= line_count(self.text()),
    {
        if row < rope_len_lines(&self.rope) {
            let line = rope_line(&self.rope, row);
            Some(slice_to_string(&line))
        } else {
            None
        }
    }

    /// Length of line `row` without its trailing newline; 0 past the last
    /// line.
    pub fn get_line_length(&self, row: usize) -> (n: usize)
        ensures
            n == line_length(self.text(), row as nat),
    {
        if row < rope_len_lines(&self.rope) {
            let line = rope_line(&self.rope, row);
            let len = slice_len_chars(&line);
            if len > 0 && slice_char(&line, len - 1) == '\n' {
                len - 1
            } else {
                len
            }
        } else {
            0
        }
    }

    /// Char index of `(row, col)`, with the row clamped to the last line and
    /// the column to the line's length.
    fn row_col_to_char_idx(&self, row: usize, col: usize) -> (idx: usize)
        ensures
            idx == pos_index(self.text(), row as int, col as int),
            idx <= self.text().len(),
    {
        let total = rope_len_chars(&self.rope);
        let lines = rope_len_lines(&self.rope);
        let row = if row < lines - 1 {
            row
        } else {
            lines - 1
        };
        let line_start = rope_line_to_char(&self.rope, row);
        let line_len = self.get_line_length(row);
        proof {
            lemma_line_length(self.text(), row as nat);
        }
        let col = if col < line_len {
            col
        } else {
            line_len
        };
        line_start + col
    }

    /// `(row, col)` of char index `char_idx` (clamped to the end of the text).
    fn char_idx_to_row_col(&self, char_idx: usize) -> (rc: (usize, usize))
        ensures
            (rc.0 as int, rc.1 as int) == pos_of_index(self.text(), char_idx as int),
    {
        let total = rope_len_chars(&self.rope);
        let char_idx = if char_idx < total {
            char_idx
        } else {
            total
        };
        let row = rope_char_to_line(&self.rope, char_idx);
        proof {
            lemma_line_of_char(self.text(), char_idx as int);
        }
        let line_start = rope_line_to_char(&self.rope, row);
        (row, char_idx - line_start)
    }

    /// Inserts `ch` at `(row, col)` (clamped to the text).
    pub fn insert_char(&mut self, row: usize, col: usize, ch: char)
        ensures
            final(self).text() == old(self).text().insert(
                pos_index(old(self).text(), row as int, col as int),
                ch,
            ),
            final(self).sel() == old(self).sel(),
    {
        let char_idx = self.row_col_to_char_idx(row, col);
        rope_insert_char(&mut self.rope, char_idx, ch);
    }

    /// Deletes the character at `(row, col)` (clamped to the text), if there
    /// is one there.
    pub fn delete_char(&mut self, row: usize, col: usize)
        ensures
            ({
                let i = pos_index(old(self).text(), row as int, col as int);
                final(self).text() == if i < old(self).text().len() {
                    old(self).text().remove(i)
                } else {
                    old(self).text()
                }
            }),
            final(self).sel() == old(self).sel(),
    {
        let char_idx = self.row_col_to_char_idx(row, col);
        if char_idx < rope_len_chars(&self.rope) {
            rope_remove(&mut self.rope, char_idx, char_idx + 1);
            assert(self.text() =~= old(self).text().remove(char_idx as int));
        }
    }

    /// Deletes the character before `(row, col)`: within the line when
    /// `col > 0` (giving `(row, col - 1)`), or the line break before the line
    /// when `col == 0` and `row > 0` (giving the end of the previous line).
    /// `None` (and no change) when there is nothing before the position.
    pub fn backspace(&mut self, row: usize, col: usize) -> (r: Option<(usize, usize)>)
        ensures
            final(self).sel() == old(self).sel(),
            ({
                let s = old(self).text();
                let i = pos_index(s, row as int, col as int);
                if col > 0 {
                    if i > 0 {
                        final(self).text() == s.remove(i - 1) && r == Some((row, (col - 1) as usize))
                    } else {
                        final(self).text() == s && r is None
                    }
                } else if row > 0 {
                    if i > 0 {
                        final(self).text() == s.remove(i - 1) && r == Some(
                            ((row - 1) as usize, line_length(s, (row - 1) as nat) as usize),
                        )
                    } else {
                        final(self).text() == s && r is None
                    }
                } else {
                    final(self).text() == s && r is None
                }
            }),
    {
        if col > 0 {
            let char_idx = self.row_col_to_char_idx(row, col);
            if char_idx > 0 {
                rope_remove(&mut self.rope, char_idx - 1, char_idx);
                assert(self.text() =~= old(self).text().remove(char_idx - 1));
                return Some((row, col - 1));
            }
        } else if row > 0 {
            let prev_len = self.get_line_length(row - 1);
            let char_idx = self.row_col_to_char_idx(row, 0);
            if char_idx > 0 {
                rope_remove(&mut self.rope, char_idx - 1, char_idx);
                assert(self.text() =~= old(self).text().remove(char_idx - 1));
                return Some((row - 1, prev_len));
            }
        }
        None
    }

    /// Inserts a newline at `(row, col)` (clamped) and gives the start of the
    /// next row.
    pub fn insert_newline(&mut self, row: usize, col: usize) -> (r: (usize, usize))
        requires
            row < usize::MAX,
        ensures
            final(self).text() == old(self).text().insert(
                pos_index(old(self).text(), row as int, col as int),
                '\n',
            ),
            r == ((row + 1) as usize, 0usize),
            final(self).sel() == old(self).sel(),
    {
        let char_idx = self.row_col_to_char_idx(row, col);
        rope_insert_char(&mut self.rope, char_idx, '\n');
        (row + 1, 0)
    }

    /// Inserts `text` at `(row, col)` (clamped) and gives the position just
    /// after it.
    pub fn insert_text(&mut self, row: usize, col: usize, text: &str) -> (r: (usize, usize))
        ensures
            ({
                let s = old(self).text();
                let i = pos_index(s, row as int, col as int);
                &&& final(self).text() == s.take(i) + text@ + s.skip(i)
                &&& (r.0 as int, r.1 as int) == pos_of_index(final(self).text(), i + text@.len())
            }),
            final(self).sel() == old(self).sel(),
    {
        let char_idx = self.row_col_to_char_idx(row, col);
        rope_insert(&mut self.rope, char_idx, text);
        let total = rope_len_chars(&self.rope);
        let mut count: usize = 0;
        for _ch in it: text.chars()
            invariant
                it.seq() == text@,
                count == it.index(),
                count <= text@.len(),
                char_idx + text@.len() <= total,
        {
            count = count + 1;
        }
        self.char_idx_to_row_col(char_idx + count)
    }

    /// Removes the selected text (from the first end up to and including
    /// the second, each clamped to the text) and clears the selection;
    /// gives the removed text. `None` (and no change) without a selection or
    /// when the range is empty or past the end.
    pub fn delete_selection(&mut self) -> (r: Option<String>)
        requires
            old(self).sel() matches Some(sel) ==> sel.ordered().3 < usize::MAX,
        ensures
            match old(self).sel() {
                None => r is None && *final(self) == *old(self),
                Some(sel) => {
                    let s = old(self).text();
                    let (a, b) = selection_range(s, sel);
                    if a < b && b <= s.len() {
                        &&& r matches Some(t) && t@ == s.subrange(a, b)
                        &&& final(self).text() == s.take(a) + s.skip(b)
                        &&& final(self).sel() is None
                    } else {
                        r is None && final(self).text() == s && final(self).sel()
                            == old(self).sel()
                    }
                },
            },
    {
        let sel = match &self.selection {
            Some(sel) => sel.clone(),
            None => {
                return None;
            },
        };
        let (start_row, start_col, end_row, end_col) = sel.normalized();
        let start_idx = self.row_col_to_char_idx(start_row, start_col);
        let end_idx = self.row_col_to_char_idx(end_row, end_col + 1);
        if start_idx < end_idx && end_idx <= rope_len_chars(&self.rope) {
            let deleted = {
                let slice = rope_slice(&self.rope, start_idx, end_idx);
                slice_to_string(&slice)
            };
            rope_remove(&mut self.rope, start_idx, end_idx);
            self.selection = None;
            return Some(deleted);
        }
        None
    }

    /// The selected text (from the first end up to and including the
    /// second, each clamped to the text), or `None` without a selection or
    /// when the range is empty or past the end.
    pub fn get_selected_text(&self) -> (r: Option<String>)
        requires
            self.sel() matches Some(sel) ==> sel.ordered().3 < usize::MAX,
        ensures
            match self.sel() {
                None => r is None,
                Some(sel) => {
                    let s = self.text();
                    let (a, b) = selection_range(s, sel);
                    if a < b && b <= s.len() {
                        r matches Some(t) && t@ == s.subrange(a, b)
                    } else {
                        r is None
                    }
                },
            },
    {
        let sel = match &self.selection {
            Some(sel) => sel,
            None => {
                return None;
            },
        };
        let (start_row, start_col, end_row, end_col) = sel.normalized();
        let start_idx = self.row_col_to_char_idx(start_row, start_col);
        let end_idx = self.row_col_to_char_idx(end_row, end_col + 1);
        if start_idx < end_idx && end_idx <= rope_len_chars(&self.rope) {
            let slice = rope_slice(&self.rope, start_idx, end_idx);
            Some(slice_to_string(&slice))
        } else {
            None
        }
    }

    /// Resets the buffer to a single newline with no selection.
    pub fn clear(&mut self)
        ensures
            final(self).text() == seq!['\n'],
            final(self).sel() is None,
    {
        proof {
            reveal_strlit("\n");
        }
        self.rope = rope_from_str("\n");
        self.selection = None;
    }

    /// Starts an empty selection at `(row, col)`.
    pub fn start_selection(&mut self, row: usize, col: usize)
        ensures
            final(self).text() == old(self).text(),
            final(self).sel() == Some(
                Selection { start_row: row, start_col: col, end_row: row, end_col: col },
            ),
    {
        self.selection = Some(Selection::new(row, col));
    }

    /// Moves the end of the selection, if there is one, to `(row, col)`.
    pub fn update_selection(&mut self, row: usize, col: usize)
        ensures
            final(self).text() == old(self).text(),
            final(self).sel() == match old(self).sel() {
                Some(sel) => Some(Selection { end_row: row, end_col: col, ..sel }),
                None => None,
            },
    {
        if let Some(ref mut sel) = self.selection {
            sel.update(row, col);
        }
    }

    /// Whether there is a selection.
    pub fn has_selection(&self) -> (b: bool)
        ensures
            b == self.sel() is Some,
    {
        self.selection.is_some()
    }

    /// The ends of the selection in reading order, if there is one.
    pub fn selection_bounds(&self) -> (r: Option<(usize, usize, usize, usize)>)
        ensures
            r == match self.sel() {
                Some(s) => Some(s.ordered()),
                None => None,
            },
    {
        match &self.selection {
            Some(sel) => Some(sel.normalized()),
            None => None,
        }
    }

    /// Removes the selection.
    pub fn clear_selection(&mut self)
        ensures
            final(self).text() == old(self).text(),
            final(self).sel() is None,
    {
        self.selection = None;
    }
}

impl Clone for TextBuffer {
    fn clone(&self) -> (r: Self)
        ensures
            r.text() == self.text(),
            r.sel() == self.sel(),
    {
        let selection = match &self.selection {
            Some(sel) => Some(sel.clone()),
            None => None,
        };
        TextBuffer { rope: rope_clone(&self.rope), selection }
    }
}

} // verus!
