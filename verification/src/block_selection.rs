//! Rectangular (block) selections over `(line, column)` positions, and the
//! ranges of text they cover.

use crate::rope::{
    lemma_line_start_order, line_chars, line_count, line_start, rope_chars, rope_len_chars,
    rope_len_lines, rope_line, rope_line_to_char, slice_len_chars,
};
use ropey::{Rope, RopeSlice};
use vstd::prelude::*;

verus! {

/// A `(line, column)` position.
#[derive(Clone, Debug)]
pub struct Position {
    pub line: usize,
    pub column: usize,
}

/// A rectangular selection between two corners, with the visual columns of
/// its anchor and its cursor.
#[derive(Debug)]
pub struct BlockSelection {
    pub start: (usize, usize),
    pub end: (usize, usize),
    pub anchor_visual_col: usize,
    pub cursor_visual_col: usize,
    pub cursor: Position,
}

impl Clone for BlockSelection {
    fn clone(&self) -> (r: Self)
        ensures
            r == *self,
    {
        BlockSelection {
            start: self.start,
            end: self.end,
            anchor_visual_col: self.anchor_visual_col,
            cursor_visual_col: self.cursor_visual_col,
            cursor: Position { line: self.cursor.line, column: self.cursor.column },
        }
    }
}

pub open spec fn min_usize(a: usize, b: usize) -> usize {
    if a <= b {
        a
    } else {
        b
    }
}

pub open spec fn max_usize(a: usize, b: usize) -> usize {
    if a >= b {
        a
    } else {
        b
    }
}

impl BlockSelection {
    /// The selection's rectangle as `((min_line, min_col), (max_line,
    /// max_col))`: lines and columns are each ordered independently.
    pub open spec fn rect(self) -> ((usize, usize), (usize, usize)) {
        (
            (min_usize(self.start.0, self.end.0), min_usize(self.start.1, self.end.1)),
            (max_usize(self.start.0, self.end.0), max_usize(self.start.1, self.end.1)),
        )
    }

    /// An empty selection at `(line, col)`.
    pub fn new(line: usize, col: usize) -> (s: Self)
        ensures
            s.start == (line, col),
            s.end == (line, col),
            s.anchor_visual_col == col,
            s.cursor_visual_col == col,
            s.cursor == (Position { line, column: col }),
    {
        BlockSelection {
            start: (line, col),
            end: (line, col),
            anchor_visual_col: col,
            cursor_visual_col: col,
            cursor: Position { line, column: col },
        }
    }

    /// Moves the cursor corner to `(line, col)` at visual column
    /// `visual_col`; the anchor corner stays.
    pub fn extend_to(&mut self, line: usize, col: usize, visual_col: usize)
        ensures
            final(self).start == old(self).start,
            final(self).end == (line, col),
            final(self).cursor == (Position { line, column: col }),
            final(self).cursor_visual_col == visual_col,
            final(self).anchor_visual_col == old(self).anchor_visual_col,
    {
        self.end = (line, col);
        self.cursor.line = line;
        self.cursor.column = col;
        self.cursor_visual_col = visual_col;
    }

    /// One `(line, min_col, max_col)` entry per line of the rectangle, from
    /// top to bottom.
    pub fn iter_lines(&self) -> (v: Vec<(usize, usize, usize)>)
        ensures
            v@.len() == self.rect().1.0 - self.rect().0.0 + 1,
            forall|i: int|
                0 <= i < v@.len() ==> #[trigger] v@[i] == (
                    (self.rect().0.0 + i) as usize,
                    self.rect().0.1,
                    self.rect().1.1,
                ),
    {
        let ((min_line, min_col), (max_line, max_col)) = self.normalized();
        let mut v: Vec<(usize, usize, usize)> = Vec::new();
        let mut line: usize = min_line;
        loop
            invariant_except_break
                min_line <= line <= max_line,
                v@.len() == line - min_line,
            invariant
                min_line <= max_line,
                forall|i: int|
                    0 <= i < v@.len() ==> #[trigger] v@[i] == ((min_line + i) as usize, min_col, max_col),
            ensures
                v@.len() == max_line - min_line + 1,
            decreases max_line - line,
        {
            v.push((line, min_col, max_col));
            if line == max_line {
                break;
            }
            line = line + 1;
        }
        v
    }

    /// The rectangle `((min_line, min_col), (max_line, max_col))`.
    pub fn normalized(&self) -> (r: ((usize, usize), (usize, usize)))
        ensures
            r == self.rect(),
    {
        let (start_line, start_col) = self.start;
        let (end_line, end_col) = self.end;
        let min_line = if start_line <= end_line {
            start_line
        } else {
            end_line
        };
        let max_line = if start_line >= end_line {
            start_line
        } else {
            end_line
        };
        let min_col = if start_col <= end_col {
            start_col
        } else {
            end_col
        };
        let max_col = if start_col >= end_col {
            start_col
        } else {
            end_col
        };
        ((min_line, min_col), (max_line, max_col))
    }

    /// Whether `(line, col)` lies in the rectangle (edges included).
    pub fn contains(&self, line: usize, col: usize) -> (b: bool)
        ensures
            b == (self.rect().0.0 <= line <= self.rect().1.0 && self.rect().0.1 <= col
                <= self.rect().1.1),
    {
        let ((min_line, min_col), (max_line, max_col)) = self.normalized();
        line >= min_line && line <= max_line && col >= min_col && col <= max_col
    }

    /// The rectangle used for drawing: the same as `normalized`.
    pub fn visual_bounds(&self) -> (r: ((usize, usize), (usize, usize)))
        ensures
            r == self.rect(),
    {
        self.normalized()
    }
}

/// Where `(line, col)` lands in text `s`: the start of the line plus the
/// column, clamped to the length of the line (its line break included).
pub open spec fn line_pos(s: Seq<char>, line: nat, col: nat) -> int {
    let len = line_chars(s, line).len();
    line_start(s, line) + if col <= len {
        col as int
    } else {
        len as int
    }
}

/// How many lines of the rectangle `min_line..=max_line` exist in `s`.
pub open spec fn lines_in_text(s: Seq<char>, min_line: nat, max_line: nat) -> nat {
    if min_line >= line_count(s) || max_line < min_line {
        0
    } else if max_line < line_count(s) {
        (max_line - min_line + 1) as nat
    } else {
        (line_count(s) - min_line) as nat
    }
}

/// The ranges `(anchor, head)` that the rectangle covers in `s`: one per
/// line of it that exists, from its left column to its right column, each
/// clamped to its line.
pub open spec fn block_ranges(s: Seq<char>, r: ((usize, usize), (usize, usize))) -> Seq<(int, int)> {
    let ((min_line, min_col), (max_line, max_col)) = r;
    Seq::new(
        lines_in_text(s, min_line as nat, max_line as nat),
        |i: int|
            (
                line_pos(s, (min_line + i) as nat, min_col as nat),
                line_pos(s, (min_line + i) as nat, max_col as nat),
            ),
    )
}

/// Where the cursor corner `(line, col)` lands when the rectangle covers no
/// line of `s`: on its line, clamped, or at the end of the text.
pub open spec fn fallback_pos(s: Seq<char>, end: (usize, usize)) -> int {
    if end.0 < line_count(s) {
        line_pos(s, end.0 as nat, end.1 as nat)
    } else {
        s.len() as int
    }
}

/// The selection as ranges: the block's ranges, or a single point at the
/// cursor corner when there are none.
pub open spec fn selection_ranges(b: BlockSelection, s: Seq<char>) -> Seq<(int, int)> {
    let rs = block_ranges(s, b.rect());
    if rs.len() > 0 {
        rs
    } else {
        seq![(fallback_pos(s, b.end), fallback_pos(s, b.end))]
    }
}

/// The position of `(line, col)` in the rope (see `line_pos`).
fn rope_pos(rope: &Rope, line: usize, col: usize) -> (p: usize)
    requires
        line < line_count(rope_chars(*rope)),
    ensures
        p == line_pos(rope_chars(*rope), line as nat, col as nat),
        p <= rope_chars(*rope).len(),
{
    let ghost s = rope_chars(*rope);
    proof {
        lemma_line_start_order(s, line as nat);
    }
    let n = rope_len_chars(rope);
    let start = rope_line_to_char(rope, line);
    let l = rope_line(rope, line);
    let len = slice_len_chars(&l);
    assert(start + len <= n);
    let c = if col <= len {
        col
    } else {
        len
    };
    start + c
}

/// Lines are numbered in the text: its line count fits in a `usize`.
fn line_total(rope: &Rope) -> (n: usize)
    ensures
        n == line_count(rope_chars(*rope)),
{
    rope_len_lines(rope)
}

impl BlockSelection {
    /// The text the block covers in `rope`, as ranges `(anchor, head)` of
    /// char indices: one per line of the rectangle that exists, from its
    /// left column to its right column clamped to the line; when no line of
    /// it exists, a single point at the cursor corner (see
    /// `selection_ranges`).
    pub fn to_selection(&self, rope: &Rope) -> (r: Vec<(usize, usize)>)
        ensures
            r@.map_values(|p: (usize, usize)| (p.0 as int, p.1 as int)) == selection_ranges(
                *self,
                rope_chars(*rope),
            ),
    {
        let ghost s = rope_chars(*rope);
        let ghost want = block_ranges(s, self.rect());
        let ((min_line, min_col), (max_line, max_col)) = self.normalized();
        let total = line_total(rope);
        let mut ranges: Vec<(usize, usize)> = Vec::new();
        if min_line < total {
            let mut line: usize = min_line;
            loop
                invariant_except_break
                    min_line <= line <= max_line,
                    line < total,
                    ranges@.len() == line - min_line,
                invariant
                    min_line <= max_line,
                    min_line < total,
                    total == line_count(s),
                    s == rope_chars(*rope),
                    self.rect() == ((min_line, min_col), (max_line, max_col)),
                    want == block_ranges(s, self.rect()),
                    ranges@.len() <= want.len(),
                    forall|i: int|
                        0 <= i < ranges@.len() ==> (#[trigger] ranges@[i].0 as int, ranges@[i].1 as int)
                            == want[i],
                ensures
                    ranges@.len() == want.len(),
                decreases max_line - line,
            {
                let a = rope_pos(rope, line, min_col);
                let b = rope_pos(rope, line, max_col);
                ranges.push((a, b));
                if line == max_line || line + 1 == total {
                    break;
                }
                line = line + 1;
            }
        }
        assert(ranges@.map_values(|p: (usize, usize)| (p.0 as int, p.1 as int)) =~= want);
        if ranges.len() == 0 {
            let (line, col) = self.end;
            let p = if line < total {
                rope_pos(rope, line, col)
            } else {
                rope_len_chars(rope)
            };
            ranges.push((p, p));
            assert(ranges@.map_values(|p: (usize, usize)| (p.0 as int, p.1 as int)) =~= seq![
                (fallback_pos(s, self.end), fallback_pos(s, self.end)),
            ]);
        }
        ranges
    }
}

/// The visual column of a char index in a line: one column per character.
pub fn char_idx_to_visual_col(_line: RopeSlice, char_idx: usize) -> (c: usize)
    ensures
        c == char_idx,
{
    char_idx
}

/// The char index at a visual column of a line: one column per character.
pub fn visual_col_to_char_idx(_line: RopeSlice, visual_col: usize) -> (i: usize)
    ensures
        i == visual_col,
{
    visual_col
}

} // verus!
