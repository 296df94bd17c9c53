//! An unbounded character canvas stored in 32x32 chunks that exist only
//! where there is content, so that text can be typed at any position.

use std::collections::BTreeMap;
use vstd::prelude::*;
use crate::text_filter::{is_whitespace_spec, lemma_trim_end, trim_end_spec, trimmed_string};
use crate::text_lines::{
    join_lines, join_lines_spec, lemma_lines_run_join, lines_spec, split_lines, strip_cr,
};
use vstd::std_specs::iter::IteratorSpec;
use crate::grid_file::{
    chunk_listed, chunk_record, chunk_records, grid_file_bytes, lemma_cell_records_push,
    lemma_chunk_records_push, cell_records, lists_content, listed_pos, push_char4, push_i32, push_u32,
    cells_in_order, in_order, lemma_keys_in_order, lemma_places_in_order,
};

verus! {

/// Side length of a chunk.
pub const CHUNK_SIZE: usize = 32;

/// Characters that are never stored: writing one of them clears the cell.
pub open spec fn is_blank(c: char) -> bool {
    c == ' ' || c == '\n' || c == '\r'
}

/// Chunk index of a world coordinate, as the grid computes it: the quotient
/// by the chunk size, truncated to `i32`.
pub open spec fn chunk_index(x: int) -> i32 {
    (x / 32) as i32
}

/// A world coordinate whose chunk index fits in `i32` without truncation.
pub open spec fn coord_in_range(x: int) -> bool {
    0 <= x && x / 32 <= i32::MAX && x <= usize::MAX
}

/// A single 32x32 block of characters; only non-blank cells are stored.
#[derive(Debug)]
struct Chunk {
    cells: BTreeMap<(usize, usize), char>,
}

impl Chunk {
    spec fn wf(&self) -> bool {
        forall|l: (usize, usize)|
            #[trigger] self.cells@.contains_key(l) ==> l.0 < 32 && l.1 < 32 && !is_blank(
                self.cells@[l],
            )
    }

    fn new() -> (c: Self)
        ensures
            c.cells@ == Map::<(usize, usize), char>::empty(),
            c.wf(),
    {
        Chunk { cells: BTreeMap::new() }
    }

    fn set(&mut self, local_row: usize, local_col: usize, ch: char)
        requires
            old(self).wf(),
            local_row < 32,
            local_col < 32,
        ensures
            final(self).wf(),
            final(self).cells@ == (if is_blank(ch) {
                old(self).cells@.remove((local_row, local_col))
            } else {
                old(self).cells@.insert((local_row, local_col), ch)
            }),
    {
        if ch == ' ' || ch == '\n' || ch == '\r' {
            self.cells.remove(&(local_row, local_col));
        } else {
            self.cells.insert((local_row, local_col), ch);
        }
    }

    fn get(&self, local_row: usize, local_col: usize) -> (c: char)
        ensures
            c == (if self.cells@.contains_key((local_row, local_col)) {
                self.cells@[(local_row, local_col)]
            } else {
                ' '
            }),
    {
        match self.cells.get(&(local_row, local_col)) {
            Some(c) => *c,
            None => ' ',
        }
    }

    fn is_empty(&self) -> (b: bool)
        ensures
            b == (self.cells@.dom().len() == 0),
    {
        self.cells.is_empty()
    }
}

/// Where a chunk may stand: non-negative, below the recorded maximum, and with
/// all of its world positions representable as `usize`.
pub open spec fn chunk_key_ok(k: (i32, i32), max: (i32, i32)) -> bool {
    &&& 0 <= k.0 <= max.0
    &&& 0 <= k.1 <= max.1
    &&& k.0 as int * 32 + 31 <= usize::MAX
    &&& k.1 as int * 32 + 31 <= usize::MAX
}

/// The chunk key of a world position.
pub open spec fn key_of(p: (int, int)) -> (i32, i32) {
    (chunk_index(p.0), chunk_index(p.1))
}

/// The position of a world position inside its chunk.
pub open spec fn local_of(p: (int, int)) -> (usize, usize) {
    ((p.0 % 32) as usize, (p.1 % 32) as usize)
}

/// The world position of a cell of a chunk.
pub open spec fn world_of(k: (i32, i32), l: (usize, usize)) -> (int, int) {
    (k.0 as int * 32 + l.0 as int, k.1 as int * 32 + l.1 as int)
}

/// A coordinate in range is recovered from its chunk index and offset.
proof fn lemma_coord_split(x: int)
    requires
        coord_in_range(x),
    ensures
        chunk_index(x) as int == x / 32,
        chunk_index(x) as int * 32 + x % 32 == x,
        0 <= x % 32 < 32,
{
}

/// Positions in range with the same chunk key and offset are equal, and
/// a chunk cell maps back to itself.
proof fn lemma_world_roundtrip(k: (i32, i32), l: (usize, usize))
    requires
        0 <= k.0,
        0 <= k.1,
        l.0 < 32,
        l.1 < 32,
        k.0 as int * 32 + 31 <= usize::MAX,
        k.1 as int * 32 + 31 <= usize::MAX,
    ensures
        coord_in_range(world_of(k, l).0),
        coord_in_range(world_of(k, l).1),
        key_of(world_of(k, l)) == k,
        local_of(world_of(k, l)) == l,
{
    let w = world_of(k, l);
    assert(w.0 / 32 == k.0 as int);
    assert(w.1 / 32 == k.1 as int);
    assert(w.0 % 32 == l.0 as int);
    assert(w.1 % 32 == l.1 as int);
}

/// `m` after writing `ch` at `p`: a blank character clears the cell.
pub open spec fn write_cell(m: Map<(int, int), char>, p: (int, int), ch: char) -> Map<(int, int), char> {
    if is_blank(ch) {
        m.remove(p)
    } else {
        m.insert(p, ch)
    }
}

/// `m` after writing the characters of `s` from `(row, col)` rightwards,
/// one column per character; a newline is skipped but takes up its column.
pub open spec fn insert_text_spec(m: Map<(int, int), char>, row: int, col: int, s: Seq<char>) -> Map<
    (int, int),
    char,
>
    decreases s.len(),
{
    if s.len() == 0 {
        m
    } else {
        let before = insert_text_spec(m, row, col, s.drop_last());
        if s.last() == '\n' {
            before
        } else {
            write_cell(before, (row, col + s.len() - 1), s.last())
        }
    }
}

/// `b = (min_row, min_col, max_row, max_col)` is the smallest box around the
/// positions of `m`.
pub open spec fn is_bounds(m: Map<(int, int), char>, b: (usize, usize, usize, usize)) -> bool {
    &&& forall|q: (int, int)|
        #[trigger] m.contains_key(q) ==> b.0 <= q.0 <= b.2 && b.1 <= q.1 <= b.3
    &&& exists|q: (int, int)| #[trigger] m.contains_key(q) && q.0 == b.0
    &&& exists|q: (int, int)| #[trigger] m.contains_key(q) && q.1 == b.1
    &&& exists|q: (int, int)| #[trigger] m.contains_key(q) && q.0 == b.2
    &&& exists|q: (int, int)| #[trigger] m.contains_key(q) && q.1 == b.3
}

/// The chunk keys that the positions of a content map fall into.
pub open spec fn chunks_of(m: Map<(int, int), char>) -> Set<(i32, i32)> {
    Set::new(|k: (i32, i32)| exists|q: (int, int)| #[trigger] m.contains_key(q) && key_of(q) == k)
}

/// A rectangle of world positions, both corners included.
#[derive(Debug, Clone, Copy)]
pub struct Viewport {
    pub start_row: usize,
    pub start_col: usize,
    pub end_row: usize,
    pub end_col: usize,
}

/// A direction of search on the grid.
#[derive(Debug, Clone, Copy)]
pub enum Direction {
    Up,
    Down,
    Left,
    Right,
}

/// Row-major order on chunk keys.
pub open spec fn key_lt(a: (i32, i32), b: (i32, i32)) -> bool {
    a.0 < b.0 || (a.0 == b.0 && a.1 < b.1)
}

/// The chunk key ranges that a viewport covers hold chunk `k`.
pub open spec fn key_in_view(k: (i32, i32), vp: Viewport) -> bool {
    let s = key_of((vp.start_row as int, vp.start_col as int));
    let e = key_of((vp.end_row as int, vp.end_col as int));
    s.0 <= k.0 <= e.0 && s.1 <= k.1 <= e.1
}

/// The lines of a map read as text lines: the character at `(row, col)` of
/// the map is the `col`-th character of line `row`; blank characters
/// leave their cell empty.
pub open spec fn from_lines_spec(ls: Seq<Seq<char>>) -> Map<(int, int), char> {
    Map::new(
        |p: (int, int)| 0 <= p.0 < ls.len() && 0 <= p.1 < ls[p.0].len() && !is_blank(ls[p.0][p.1]),
        |p: (int, int)| ls[p.0][p.1],
    )
}

/// `e` is the largest row and the largest column that hold content.
pub open spec fn is_extent(m: Map<(int, int), char>, e: (int, int)) -> bool {
    &&& forall|q: (int, int)| #[trigger] m.contains_key(q) ==> q.0 <= e.0 && q.1 <= e.1
    &&& exists|q: (int, int)| #[trigger] m.contains_key(q) && q.0 == e.0
    &&& exists|q: (int, int)| #[trigger] m.contains_key(q) && q.1 == e.1
}

/// Every row index and every column index of `ls` is a coordinate in range.
pub open spec fn lines_fit(ls: Seq<Seq<char>>) -> bool {
    &&& ls.len() == 0 || coord_in_range(ls.len() - 1)
    &&& forall|i: int|
        0 <= i < ls.len() ==> #[trigger] ls[i].len() <= usize::MAX && (ls[i].len() == 0
            || coord_in_range(ls[i].len() - 1))
}

/// The part of `from_lines_spec(ls)` read before position `(row, col)` in
/// row-major order.
pub open spec fn from_lines_upto(ls: Seq<Seq<char>>, row: int, col: int) -> Map<(int, int), char> {
    Map::new(
        |p: (int, int)|
            from_lines_spec(ls).contains_key(p) && (p.0 < row || (p.0 == row && p.1 < col)),
        |p: (int, int)| ls[p.0][p.1],
    )
}

/// Largest row and largest column that hold content (some pair when the map
/// is empty).
pub open spec fn content_extent(m: Map<(int, int), char>) -> (int, int) {
    choose|e: (int, int)| #[trigger] is_extent(m, e)
}

/// The lines that `to_lines` exports: rows `0..=max_row`, each read from
/// column 0 to the largest column with content and trimmed at the end; a
/// single empty line for an empty grid.
pub open spec fn to_lines_spec(g: ChunkedGrid) -> Seq<Seq<char>> {
    if g@.dom().is_empty() {
        seq![Seq::<char>::empty()]
    } else {
        let e = content_extent(g@);
        Seq::new((e.0 + 1) as nat, |i: int| g.line_text(i, 0, e.1))
    }
}

/// The content map has the bounds `b`, so its extent is `(b.2, b.3)`.
pub proof fn lemma_extent_of_bounds(m: Map<(int, int), char>, b: (usize, usize, usize, usize))
    requires
        is_bounds(m, b),
    ensures
        content_extent(m) == (b.2 as int, b.3 as int),
{
    let e0 = (b.2 as int, b.3 as int);
    assert(is_extent(m, e0));
    let e = content_extent(m);
    let qa = choose|q: (int, int)| #[trigger] m.contains_key(q) && q.0 == e.0;
    let qb = choose|q: (int, int)| #[trigger] m.contains_key(q) && q.1 == e.1;
    let qc = choose|q: (int, int)| #[trigger] m.contains_key(q) && q.0 == e0.0;
    let qd = choose|q: (int, int)| #[trigger] m.contains_key(q) && q.1 == e0.1;
    assert(qc.0 <= e.0 && qd.1 <= e.1);
    assert(qa.0 <= e0.0 && qb.1 <= e0.1);
}

/// An unbounded grid of characters in 32x32 chunks; chunks are created when
/// something is written into them and dropped when they become empty.
#[derive(Debug)]
pub struct ChunkedGrid {
    chunks: BTreeMap<(i32, i32), Chunk>,
    min_chunk: (i32, i32),
    max_chunk: (i32, i32),
}

impl Clone for Chunk {
    fn clone(&self) -> Self {
        Chunk { cells: self.cells.clone() }
    }
}

impl Clone for ChunkedGrid {
    fn clone(&self) -> (r: Self)
        ensures
            r@ == self@,
            self.wf() ==> r.wf(),
    {
        let r = ChunkedGrid {
            chunks: self.chunks.clone(),
            min_chunk: self.min_chunk,
            max_chunk: self.max_chunk,
        };
        assert(r@ =~= self@);
        r
    }
}

impl ChunkedGrid {
    spec fn has_cell(self, p: (int, int)) -> bool {
        &&& coord_in_range(p.0)
        &&& coord_in_range(p.1)
        &&& self.chunks@.contains_key(key_of(p))
        &&& self.chunks@[key_of(p)].cells@.contains_key(local_of(p))
    }

    /// The grid's content: the character at each non-empty world position.
    pub closed spec fn view(self) -> Map<(int, int), char> {
        Map::new(
            |p: (int, int)| self.has_cell(p),
            |p: (int, int)| self.chunks@[key_of(p)].cells@[local_of(p)],
        )
    }

    /// The character shown at a position: a space where nothing is stored.
    pub open spec fn cell(self, row: int, col: int) -> char {
        if self.view().contains_key((row, col)) {
            self.view()[(row, col)]
        } else {
            ' '
        }
    }

    /// The characters shown in `row` from `start` to `end` (both included),
    /// each looked up as `get` looks it up.
    pub open spec fn row_chars(self, row: int, start: int, end: int) -> Seq<char> {
        Seq::new(
            if start <= end {
                (end - start + 1) as nat
            } else {
                0
            },
            |i: int| self.cell(row, start + i),
        )
    }

    /// `row_chars` without trailing whitespace: what `get_line` returns.
    pub open spec fn line_text(self, row: int, start: int, end: int) -> Seq<char> {
        trim_end_spec(self.row_chars(row, start, end))
    }

    /// The set of chunk keys that hold content.
    pub closed spec fn chunk_keys(self) -> Set<(i32, i32)> {
        self.chunks@.dom()
    }

    /// Well-formedness: every stored chunk is non-empty, holds only non-blank
    /// cells inside its 32x32 block, lies at non-negative coordinates and
    /// within the recorded maximum.
    pub closed spec fn wf(self) -> bool {
        &&& self.view().dom().finite()
        &&& self.min_chunk == (0i32, 0i32)
        &&& 0 <= self.max_chunk.0
        &&& 0 <= self.max_chunk.1
        &&& forall|k: (i32, i32)| #[trigger]
            self.chunks@.contains_key(k) ==> {
                &&& chunk_key_ok(k, self.max_chunk)
                &&& self.chunks@[k].wf()
                &&& self.chunks@[k].cells@.dom().len() > 0
            }
    }

    /// An empty grid.
    pub fn new() -> (g: Self)
        ensures
            g.wf(),
            g@ == Map::<(int, int), char>::empty(),
    {
        let g = ChunkedGrid { chunks: BTreeMap::new(), min_chunk: (0, 0), max_chunk: (0, 0) };
        assert(g@ =~= Map::<(int, int), char>::empty());
        g
    }

    /// Chunk key and offset of a world position.
    fn pos_to_chunk(row: usize, col: usize) -> (r: ((i32, i32), (usize, usize)))
        ensures
            r.0 == key_of((row as int, col as int)),
            r.1 == local_of((row as int, col as int)),
    {
        let chunk_row = (row / CHUNK_SIZE) as i32;
        let chunk_col = (col / CHUNK_SIZE) as i32;
        let local_row = row % CHUNK_SIZE;
        let local_col = col % CHUNK_SIZE;
        ((chunk_row, chunk_col), (local_row, local_col))
    }

    /// World position of a chunk cell.
    fn chunk_to_pos(chunk: (i32, i32), local: (usize, usize)) -> (r: (usize, usize))
        requires
            0 <= chunk.0,
            0 <= chunk.1,
            chunk.0 as int * 32 + local.0 <= usize::MAX,
            chunk.1 as int * 32 + local.1 <= usize::MAX,
        ensures
            r.0 as int == world_of(chunk, local).0,
            r.1 as int == world_of(chunk, local).1,
    {
        let row = (chunk.0 as usize * CHUNK_SIZE) + local.0;
        let col = (chunk.1 as usize * CHUNK_SIZE) + local.1;
        (row, col)
    }

    /// Writes `ch` at any position, creating its chunk when needed; a blank
    /// character (space, newline, carriage return) clears the cell, and a
    /// chunk left empty is dropped.
    pub fn set(&mut self, row: usize, col: usize, ch: char)
        requires
            old(self).wf(),
            coord_in_range(row as int),
            coord_in_range(col as int),
        ensures
            final(self).wf(),
            final(self)@ == write_cell(old(self)@, (row as int, col as int), ch),
    {
        let ghost p = (row as int, col as int);
        let ghost old_g = *self;
        let (chunk_pos, local_pos) = Self::pos_to_chunk(row, col);
        proof {
            lemma_coord_split(row as int);
            lemma_coord_split(col as int);
        }
        let mut chunk = match self.chunks.remove(&chunk_pos) {
            Some(c) => c,
            None => Chunk::new(),
        };
        chunk.set(local_pos.0, local_pos.1, ch);
        if chunk.is_empty() {
            // the chunk holds nothing more and stays out of the map
        } else {
            if chunk_pos.0 < self.min_chunk.0 {
                self.min_chunk.0 = chunk_pos.0;
            }
            if chunk_pos.1 < self.min_chunk.1 {
                self.min_chunk.1 = chunk_pos.1;
            }
            if chunk_pos.0 > self.max_chunk.0 {
                self.max_chunk.0 = chunk_pos.0;
            }
            if chunk_pos.1 > self.max_chunk.1 {
                self.max_chunk.1 = chunk_pos.1;
            }
            self.chunks.insert(chunk_pos, chunk);
        }
        proof {
            let expected = if is_blank(ch) {
                old_g@.remove(p)
            } else {
                old_g@.insert(p, ch)
            };
            assert forall|q: (int, int)| #[trigger] self@.contains_key(q) == expected.contains_key(q)
                && (self@.contains_key(q) ==> self@[q] == expected[q]) by {
                if coord_in_range(q.0) && coord_in_range(q.1) {
                    lemma_coord_split(q.0);
                    lemma_coord_split(q.1);
                }
            }
            assert(self@ =~= expected);
            assert forall|k: (i32, i32)| #[trigger] self.chunks@.contains_key(k) implies {
                &&& chunk_key_ok(k, self.max_chunk)
                &&& self.chunks@[k].wf()
                &&& self.chunks@[k].cells@.dom().len() > 0
            } by {
                if k != chunk_pos {
                    assert(old_g.chunks@.contains_key(k));
                }
            }
        }
    }

    /// A well-formed grid stores no blank character.
    pub proof fn lemma_view_not_blank(self)
        requires
            self.wf(),
        ensures
            forall|p: (int, int)| #[trigger] self@.contains_key(p) ==> !is_blank(self@[p]),
    {
    }

    /// The chunk keys are exactly the keys of the stored positions.
    proof fn lemma_chunk_keys(self)
        requires
            self.wf(),
        ensures
            self.chunk_keys() == chunks_of(self@),
    {
        assert forall|k: (i32, i32)| #[trigger] self.chunk_keys().contains(k) implies chunks_of(
            self@,
        ).contains(k) by {
            let d = self.chunks@[k].cells@.dom();
            vstd::set::axiom_set_choose_len(d);
            let l = d.choose();
            lemma_world_roundtrip(k, l);
            assert(self@.contains_key(world_of(k, l)));
        }
        assert forall|k: (i32, i32)| #[trigger] chunks_of(self@).contains(k) implies self.chunk_keys().contains(k) by {
            let q = choose|q: (int, int)| self@.contains_key(q) && key_of(q) == k;
            assert(self.has_cell(q));
        }
        assert(self.chunk_keys() =~= chunks_of(self@));
    }

    /// The character at a position (a space where nothing is stored).
    pub fn get(&self, row: usize, col: usize) -> (c: char)
        requires
            self.wf(),
        ensures
            c == self.cell(row as int, col as int),
    {
        if row / CHUNK_SIZE > i32::MAX as usize || col / CHUNK_SIZE > i32::MAX as usize {
            proof {
                assert(!self@.contains_key((row as int, col as int)));
            }
            return ' ';
        }
        proof {
            lemma_coord_split(row as int);
            lemma_coord_split(col as int);
        }
        let (chunk_pos, local_pos) = Self::pos_to_chunk(row, col);
        let ghost q = (row as int, col as int);
        match self.chunks.get(&chunk_pos) {
            Some(chunk) => {
                proof {
                    lemma_world_roundtrip(chunk_pos, local_pos);
                    assert(world_of(chunk_pos, local_pos) == q);
                }
                chunk.get(local_pos.0, local_pos.1)
            },
            None => ' ',
        }
    }

    /// Writes `text` from `(row, col)` rightwards, one column per character;
    /// newlines are skipped (their column is left as it was).
    pub fn insert_at(&mut self, row: usize, col: usize, text: &str)
        requires
            old(self).wf(),
            coord_in_range(row as int),
            text@.len() == 0 || coord_in_range(col + text@.len() - 1),
            text@.len() <= usize::MAX,
        ensures
            final(self).wf(),
            final(self)@ == insert_text_spec(old(self)@, row as int, col as int, text@),
    {
        let ghost s = text@;
        let ghost m0 = self@;
        let mut i: usize = 0;
        for ch in iter: text.chars()
            invariant
                iter.seq() == s,
                i == iter.index(),
                i <= s.len(),
                s.len() <= usize::MAX,
                self.wf(),
                coord_in_range(row as int),
                s.len() == 0 || coord_in_range(col + s.len() - 1),
                self@ == insert_text_spec(m0, row as int, col as int, s.take(i as int)),
        {
            proof {
                assert(s.take(i + 1).drop_last() == s.take(i as int));
            }
            if ch == '\n' {
                // newlines are skipped
            } else {
                self.set(row, col + i, ch);
            }
            i = i + 1;
        }
        proof {
            assert(s.take(s.len() as int) == s);
        }
    }

    /// Clears the cell at a position.
    pub fn delete_at(&mut self, row: usize, col: usize)
        requires
            old(self).wf(),
            coord_in_range(row as int),
            coord_in_range(col as int),
        ensures
            final(self).wf(),
            final(self)@ == old(self)@.remove((row as int, col as int)),
    {
        self.set(row, col, ' ');
    }

    /// Removes all content.
    pub fn clear(&mut self)
        ensures
            final(self).wf(),
            final(self)@ == Map::<(int, int), char>::empty(),
    {
        self.chunks.clear();
        self.min_chunk = (0, 0);
        self.max_chunk = (0, 0);
        assert(self@ =~= Map::<(int, int), char>::empty());
    }

    /// Number of chunks that hold content.
    pub fn chunk_count(&self) -> (n: usize)
        requires
            self.wf(),
        ensures
            n == chunks_of(self@).len(),
    {
        proof {
            self.lemma_chunk_keys();
        }
        self.chunks.len()
    }

    /// The characters of `row` from `start_col` to `end_col` (both included),
    /// with trailing whitespace removed.
    pub fn get_line(&self, row: usize, start_col: usize, end_col: usize) -> (line: String)
        requires
            self.wf(),
        ensures
            line@ == self.line_text(row as int, start_col as int, end_col as int),
    {
        let mut chars: Vec<char> = Vec::new();
        if start_col <= end_col {
            let mut col: usize = start_col;
            loop
                invariant_except_break
                    start_col <= col <= end_col,
                    chars@ == self.row_chars(row as int, start_col as int, col as int - 1),
                invariant
                    self.wf(),
                ensures
                    chars@ == self.row_chars(row as int, start_col as int, end_col as int),
                decreases end_col - col,
            {
                let c = self.get(row, col);
                chars.push(c);
                assert(chars@ =~= self.row_chars(row as int, start_col as int, col as int));
                if col == end_col {
                    break;
                }
                col = col + 1;
            }
        } else {
            assert(chars@ =~= self.row_chars(row as int, start_col as int, end_col as int));
        }
        trimmed_string(&chars)
    }

    /// The smallest box `(min_row, min_col, max_row, max_col)` that holds all
    /// content, or `None` for an empty grid.
    pub fn bounds(&self) -> (r: Option<(usize, usize, usize, usize)>)
        requires
            self.wf(),
        ensures
            r is None <==> self@.dom().is_empty(),
            r matches Some(b) ==> is_bounds(self@, b),
    {
        if self.chunks.is_empty() {
            assert(self@.dom() =~= Set::<(int, int)>::empty());
            return None;
        }
        let mut min_row: usize = usize::MAX;
        let mut max_row: usize = 0;
        let mut min_col: usize = usize::MAX;
        let mut max_col: usize = 0;
        let ghost mut any = false;
        let ghost mut w0: (int, int) = (0, 0);
        let ghost mut w1: (int, int) = (0, 0);
        let ghost mut w2: (int, int) = (0, 0);
        let ghost mut w3: (int, int) = (0, 0);
        let ghost all = vstd::std_specs::btree::spec_btree_map_iter(&self.chunks).remaining();
        proof {
            assert(all.len() == self.chunks@.dom().len());
        }
        for entry in it: self.chunks.iter()
            invariant
                self.wf(),
                it.seq() == all,
                all.len() == self.chunks@.dom().len(),
                forall|j: int|
                    0 <= j < all.len() ==> self.chunks@.contains_key(*(#[trigger] all[j]).0)
                        && self.chunks@[*all[j].0] == *all[j].1,
                it.index() > 0 ==> any,
                !any ==> min_row == usize::MAX && max_row == 0 && min_col == usize::MAX && max_col
                    == 0,
                any ==> {
                    &&& self@.contains_key(w0) && w0.0 == min_row
                    &&& self@.contains_key(w1) && w1.1 == min_col
                    &&& self@.contains_key(w2) && w2.0 == max_row
                    &&& self@.contains_key(w3) && w3.1 == max_col
                },
                forall|j: int, l: (usize, usize)|
                    #![trigger all[j].1.cells@.contains_key(l)]
                    0 <= j < it.index() && all[j].1.cells@.contains_key(l) ==> {
                        let q = world_of(*all[j].0, l);
                        min_row <= q.0 <= max_row && min_col <= q.1 <= max_col
                    },
        {
            let (cp, chunk) = entry;
            let chunk_pos = *cp;
            let ghost j0 = it.index() as int;
            let ghost cells_all = vstd::std_specs::btree::spec_btree_map_iter(&chunk.cells).remaining();
            proof {
                assert(all[j0] == entry);
                assert(self.chunks@.contains_key(chunk_pos));
                assert(cells_all.len() == chunk.cells@.dom().len());
            }
            for cell in it2: chunk.cells.iter()
                invariant
                    self.wf(),
                    it2.seq() == cells_all,
                    cells_all.len() == chunk.cells@.dom().len(),
                    self.chunks@.contains_key(chunk_pos),
                    self.chunks@[chunk_pos] == *chunk,
                    forall|j: int|
                        0 <= j < cells_all.len() ==> chunk.cells@.contains_key(
                            *(#[trigger] cells_all[j]).0,
                        ),
                    it2.index() > 0 ==> any,
                    j0 > 0 ==> any,
                    !any ==> min_row == usize::MAX && max_row == 0 && min_col == usize::MAX
                        && max_col == 0,
                    any ==> {
                        &&& self@.contains_key(w0) && w0.0 == min_row
                        &&& self@.contains_key(w1) && w1.1 == min_col
                        &&& self@.contains_key(w2) && w2.0 == max_row
                        &&& self@.contains_key(w3) && w3.1 == max_col
                    },
                    forall|j: int, l: (usize, usize)|
                        #![trigger all[j].1.cells@.contains_key(l)]
                        0 <= j < j0 && all[j].1.cells@.contains_key(l) ==> {
                            let q = world_of(*all[j].0, l);
                            min_row <= q.0 <= max_row && min_col <= q.1 <= max_col
                        },
                    forall|j: int|
                        0 <= j < it2.index() ==> {
                            let q = world_of(chunk_pos, *(#[trigger] cells_all[j]).0);
                            min_row <= q.0 <= max_row && min_col <= q.1 <= max_col
                        },
            {
                let (lp, _c) = cell;
                let local = *lp;
                proof {
                    assert(chunk.cells@.contains_key(local));
                    lemma_world_roundtrip(chunk_pos, local);
                }
                let (row, col) = Self::chunk_to_pos(chunk_pos, local);
                let ghost q = world_of(chunk_pos, local);
                proof {
                    assert(self.has_cell(q));
                    assert(self@.contains_key(q));
                }
                let ghost old_box = (min_row, min_col, max_row, max_col);
                if row < min_row {
                    min_row = row;
                }
                if col < min_col {
                    min_col = col;
                }
                if row > max_row {
                    max_row = row;
                }
                if col > max_col {
                    max_col = col;
                }
                proof {
                    if !any || row < old_box.0 {
                        w0 = q;
                    }
                    if !any || col < old_box.1 {
                        w1 = q;
                    }
                    if !any || row > old_box.2 {
                        w2 = q;
                    }
                    if !any || col > old_box.3 {
                        w3 = q;
                    }
                }
                proof {
                    any = true;
                }
            }
            proof {
                let d = chunk.cells@.dom();
                vstd::set::axiom_set_choose_len(d);
                assert(cells_all.len() > 0);
                assert forall|l: (usize, usize)| #[trigger] all[j0].1.cells@.contains_key(l) implies {
                    let q = world_of(*all[j0].0, l);
                    min_row <= q.0 <= max_row && min_col <= q.1 <= max_col
                } by {
                    assert(cells_all.contains((&l, &chunk.cells@[l])));
                    let j = cells_all.index_of((&l, &chunk.cells@[l]));
                    assert(*cells_all[j].0 == l);
                }
            }
        }
        proof {
            assert(any);
            assert forall|q: (int, int)| #[trigger] self@.contains_key(q) implies min_row <= q.0
                <= max_row && min_col <= q.1 <= max_col by {
                let k = key_of(q);
                let l = local_of(q);
                assert(self.has_cell(q));
                assert(all.contains((&k, &self.chunks@[k])));
                let j = all.index_of((&k, &self.chunks@[k]));
                lemma_coord_split(q.0);
                lemma_coord_split(q.1);
                assert(world_of(k, l) == q);
                assert(all[j].1.cells@.contains_key(l));
            }
        }
        Some((min_row, min_col, max_row, max_col))
    }

    /// Number of non-empty cells.
    pub fn cell_count(&self) -> (n: usize)
        requires
            self.wf(),
            self@.dom().len() <= usize::MAX,
        ensures
            n == self@.dom().len(),
    {
        let mut count: usize = 0;
        let ghost mut done: Set<(int, int)> = Set::empty();
        let ghost mut keys_done: Set<(i32, i32)> = Set::empty();
        let ghost all = vstd::std_specs::btree::spec_btree_map_iter(&self.chunks).remaining();
        proof {
            assert(all.len() == self.chunks@.dom().len());
        }
        for entry in it: self.chunks.iter()
            invariant
                self.wf(),
                self@.dom().len() <= usize::MAX,
                it.seq() == all,
                all.len() == self.chunks@.dom().len(),
                all.no_duplicates(),
                forall|j: int|
                    0 <= j < all.len() ==> self.chunks@.contains_key(*(#[trigger] all[j]).0)
                        && self.chunks@[*all[j].0] == *all[j].1,
                forall|k: (i32, i32)|
                    #[trigger] keys_done.contains(k) <==> exists|j: int|
                        0 <= j < it.index() && *(#[trigger] all[j]).0 == k,
                done.finite(),
                count == done.len(),
                forall|q: (int, int)|
                    #[trigger] done.contains(q) <==> self@.contains_key(q) && keys_done.contains(
                        key_of(q),
                    ),
        {
            let (cp, chunk) = entry;
            let chunk_pos = *cp;
            let ghost j0 = it.index() as int;
            let ghost d = chunk.cells@.dom();
            let ghost f = |l: (usize, usize)| world_of(chunk_pos, l);
            let ghost pk = Set::new(|q: (int, int)| self@.contains_key(q) && key_of(q) == chunk_pos);
            proof {
                assert(all[j0] == entry);
                assert(self.chunks@.contains_key(chunk_pos));
                assert(!keys_done.contains(chunk_pos)) by {
                    if keys_done.contains(chunk_pos) {
                        let j = choose|j: int| 0 <= j < j0 && *(#[trigger] all[j]).0 == chunk_pos;
                        assert(all[j] == all[j0]);
                    }
                }
                assert forall|l1: (usize, usize), l2: (usize, usize)|
                    d.contains(l1) && d.contains(l2) && #[trigger] f(l1) == #[trigger] f(l2) implies l1
                    == l2 by {
                    lemma_world_roundtrip(chunk_pos, l1);
                    lemma_world_roundtrip(chunk_pos, l2);
                }
                assert(d.map(f) =~= pk) by {
                    assert forall|q: (int, int)| #[trigger] pk.contains(q) implies d.map(f).contains(
                        q,
                    ) by {
                        lemma_coord_split(q.0);
                        lemma_coord_split(q.1);
                        assert(f(local_of(q)) == q);
                    }
                    assert forall|q: (int, int)| #[trigger] d.map(f).contains(q) implies pk.contains(
                        q,
                    ) by {
                        let l = choose|l: (usize, usize)| d.contains(l) && f(l) == q;
                        lemma_world_roundtrip(chunk_pos, l);
                        assert(self.has_cell(q));
                    }
                }
                vstd::set_lib::lemma_map_size(d, pk, f);
                assert(done.disjoint(pk));
                vstd::set_lib::lemma_set_disjoint_lens(done, pk);
                assert(done + pk <= self@.dom());
                vstd::set_lib::lemma_len_subset(done + pk, self@.dom());
            }
            count = count + chunk.cells.len();
            proof {
                done = done + pk;
                keys_done = keys_done.insert(chunk_pos);
                assert forall|k: (i32, i32)| #[trigger] keys_done.contains(k) <==> exists|j: int|
                    0 <= j < j0 + 1 && *(#[trigger] all[j]).0 == k by {
                    if k == chunk_pos {
                        assert(*all[j0].0 == k);
                    }
                    if exists|j: int| 0 <= j < j0 + 1 && *(#[trigger] all[j]).0 == k {
                        let j = choose|j: int| 0 <= j < j0 + 1 && *(#[trigger] all[j]).0 == k;
                        if j < j0 {
                            assert(keys_done.contains(k));
                        }
                    }
                }
            }
        }
        proof {
            assert(done =~= self@.dom()) by {
                assert forall|q: (int, int)| #[trigger] self@.contains_key(q) implies done.contains(q) by {
                    let k = key_of(q);
                    assert(self.has_cell(q));
                    assert(all.contains((&k, &self.chunks@[k])));
                    let j = all.index_of((&k, &self.chunks@[k]));
                    assert(*all[j].0 == k);
                }
            }
        }
        count
    }

    /// The stored chunks inside the chunk range that a viewport covers, in
    /// row-major order.
    pub fn get_visible_chunks(&self, viewport: Viewport) -> (visible: Vec<(i32, i32)>)
        requires
            self.wf(),
        ensures
            forall|k: (i32, i32)|
                #[trigger] visible@.contains(k) <==> chunks_of(self@).contains(k) && key_in_view(
                    k,
                    viewport,
                ),
            forall|i: int, j: int| 0 <= i < j < visible@.len() ==> key_lt(visible@[i], visible@[j]),
    {
        proof {
            self.lemma_chunk_keys();
        }
        let (start_chunk, _) = Self::pos_to_chunk(viewport.start_row, viewport.start_col);
        let (end_chunk, _) = Self::pos_to_chunk(viewport.end_row, viewport.end_col);
        let mut visible: Vec<(i32, i32)> = Vec::new();
        let mut chunk_row: i64 = start_chunk.0 as i64;
        while chunk_row <= end_chunk.0 as i64
            invariant
                self.wf(),
                start_chunk == key_of((viewport.start_row as int, viewport.start_col as int)),
                end_chunk == key_of((viewport.end_row as int, viewport.end_col as int)),
                start_chunk.0 <= chunk_row,
                chunk_row <= end_chunk.0 as int + 1 || chunk_row == start_chunk.0,
                forall|k: (i32, i32)|
                    #[trigger] visible@.contains(k) <==> self.chunks@.contains_key(k) && key_in_view(
                        k,
                        viewport,
                    ) && k.0 < chunk_row,
                forall|i: int, j: int|
                    0 <= i < j < visible@.len() ==> key_lt(visible@[i], visible@[j]),
                forall|i: int| 0 <= i < visible@.len() ==> (#[trigger] visible@[i]).0 < chunk_row,
            decreases end_chunk.0 as int + 1 - chunk_row,
        {
            let mut chunk_col: i64 = start_chunk.1 as i64;
            while chunk_col <= end_chunk.1 as i64
                invariant
                    self.wf(),
                    start_chunk == key_of((viewport.start_row as int, viewport.start_col as int)),
                    end_chunk == key_of((viewport.end_row as int, viewport.end_col as int)),
                    start_chunk.0 <= chunk_row <= end_chunk.0,
                    start_chunk.1 <= chunk_col,
                    chunk_col <= end_chunk.1 as int + 1 || chunk_col == start_chunk.1,
                    forall|k: (i32, i32)|
                        #[trigger] visible@.contains(k) <==> self.chunks@.contains_key(k)
                            && key_in_view(k, viewport) && (k.0 < chunk_row || (k.0 == chunk_row
                            && k.1 < chunk_col)),
                    forall|i: int, j: int|
                        0 <= i < j < visible@.len() ==> key_lt(visible@[i], visible@[j]),
                    forall|i: int|
                        0 <= i < visible@.len() ==> (#[trigger] visible@[i]).0 < chunk_row || (
                        visible@[i].0 == chunk_row && visible@[i].1 < chunk_col),
                decreases end_chunk.1 as int + 1 - chunk_col,
            {
                let chunk_pos = (chunk_row as i32, chunk_col as i32);
                let ghost before = visible@;
                if self.chunks.contains_key(&chunk_pos) {
                    visible.push(chunk_pos);
                }
                proof {
                    assert(chunk_pos.0 as int == chunk_row && chunk_pos.1 as int == chunk_col);
                    assert forall|k: (i32, i32)| #[trigger] visible@.contains(k) <==> self.chunks@.contains_key(k)
                        && key_in_view(k, viewport) && (k.0 < chunk_row || (k.0 == chunk_row && k.1
                        < chunk_col + 1)) by {
                        if visible@.contains(k) && k != chunk_pos {
                            let i = choose|i: int| 0 <= i < visible@.len() && visible@[i] == k;
                            assert(before.contains(k));
                        }
                        if before.contains(k) {
                            let i = choose|i: int| 0 <= i < before.len() && before[i] == k;
                            assert(visible@[i] == k);
                        }
                        if k == chunk_pos && self.chunks@.contains_key(k) {
                            assert(visible@[visible@.len() - 1] == k);
                        }
                    }
                }
                chunk_col = chunk_col + 1;
            }
            chunk_row = chunk_row + 1;
            proof {
                assert forall|k: (i32, i32)| #[trigger] visible@.contains(k) <==> self.chunks@.contains_key(k)
                    && key_in_view(k, viewport) && k.0 < chunk_row by {
                    if visible@.contains(k) {
                        let i = choose|i: int| 0 <= i < visible@.len() && visible@[i] == k;
                    }
                }
            }
        }
        visible
    }

    /// Every stored position lies at non-negative coordinates, inside the
    /// chunks up to the recorded maximum.
    proof fn lemma_content_bounds(self, p: (int, int))
        requires
            self.wf(),
            self@.contains_key(p),
        ensures
            0 <= p.0 < (self.max_chunk.0 as int + 1) * 32,
            0 <= p.1 < (self.max_chunk.1 as int + 1) * 32,
            p.0 <= usize::MAX,
            p.1 <= usize::MAX,
    {
        assert(self.has_cell(p));
        lemma_coord_split(p.0);
        lemma_coord_split(p.1);
        assert(chunk_key_ok(key_of(p), self.max_chunk));
    }

    /// `r` is the first position with content after `(row, col)` going in
    /// direction `d`, or `None` when there is none that way.
    pub open spec fn nearest_content(self, row: int, col: int, d: Direction, r: Option<(usize, usize)>) -> bool {
        match d {
            Direction::Right => match r {
                Some(p) => p.0 == row && p.1 > col && self@.contains_key((row, p.1 as int)) && forall|c: int|
                    col < c < p.1 ==> !#[trigger] self@.contains_key((row, c)),
                None => forall|c: int| c > col ==> !#[trigger] self@.contains_key((row, c)),
            },
            Direction::Left => match r {
                Some(p) => p.0 == row && p.1 < col && self@.contains_key((row, p.1 as int)) && forall|c: int|
                    p.1 < c < col ==> !#[trigger] self@.contains_key((row, c)),
                None => forall|c: int| c < col ==> !#[trigger] self@.contains_key((row, c)),
            },
            Direction::Down => match r {
                Some(p) => p.1 == col && p.0 > row && self@.contains_key((p.0 as int, col)) && forall|w: int|
                    row < w < p.0 ==> !#[trigger] self@.contains_key((w, col)),
                None => forall|w: int| w > row ==> !#[trigger] self@.contains_key((w, col)),
            },
            Direction::Up => match r {
                Some(p) => p.1 == col && p.0 < row && self@.contains_key((p.0 as int, col)) && forall|w: int|
                    p.0 < w < row ==> !#[trigger] self@.contains_key((w, col)),
                None => forall|w: int| w < row ==> !#[trigger] self@.contains_key((w, col)),
            },
        }
    }

    /// Finds the next non-empty position from `(row, col)` in a direction
    /// (see `nearest_content`).
    pub fn next_content(&self, row: usize, col: usize, direction: Direction) -> (r: Option<(usize, usize)>)
        requires
            self.wf(),
        ensures
            self.nearest_content(row as int, col as int, direction, r),
    {
        proof {
            self.lemma_view_not_blank();
        }
        match direction {
            Direction::Right => {
                let limit: u64 = (self.max_chunk.1 as u64 + 1) * 32;
                if col == usize::MAX {
                    proof {
                        assert forall|c: int| c > col implies !#[trigger] self@.contains_key((row as int, c)) by {
                            if self@.contains_key((row as int, c)) {
                                self.lemma_content_bounds((row as int, c));
                            }
                        }
                    }
                    return None;
                }
                let mut c: usize = col + 1;
                while (c as u64) < limit
                    invariant
                        self.wf(),
                        direction is Right,
                        forall|p: (int, int)| #[trigger] self@.contains_key(p) ==> !is_blank(self@[p]),
                        limit == (self.max_chunk.1 as int + 1) * 32,
                        col < c,
                        forall|t: int| col < t < c ==> !#[trigger] self@.contains_key((row as int, t)),
                    decreases limit - c,
                {
                    if self.get(row, c) != ' ' {
                        return Some((row, c));
                    }
                    if c == usize::MAX {
                        proof {
                            assert forall|t: int| t > col implies !#[trigger] self@.contains_key((row as int, t)) by {
                                if self@.contains_key((row as int, t)) {
                                    self.lemma_content_bounds((row as int, t));
                                }
                            }
                        }
                        return None;
                    }
                    c = c + 1;
                }
                proof {
                    assert forall|t: int| t > col implies !#[trigger] self@.contains_key((row as int, t)) by {
                        if self@.contains_key((row as int, t)) {
                            self.lemma_content_bounds((row as int, t));
                        }
                    }
                }
                None
            },
            Direction::Left => {
                let mut c: usize = col;
                while c > 0
                    invariant
                        self.wf(),
                        direction is Left,
                        forall|p: (int, int)| #[trigger] self@.contains_key(p) ==> !is_blank(self@[p]),
                        c <= col,
                        forall|t: int| c <= t < col ==> !#[trigger] self@.contains_key((row as int, t)),
                    decreases c,
                {
                    c = c - 1;
                    if self.get(row, c) != ' ' {
                        return Some((row, c));
                    }
                }
                proof {
                    assert forall|t: int| t < col implies !#[trigger] self@.contains_key((row as int, t)) by {
                        if self@.contains_key((row as int, t)) {
                            self.lemma_content_bounds((row as int, t));
                        }
                    }
                }
                None
            },
            Direction::Down => {
                let limit: u64 = (self.max_chunk.0 as u64 + 1) * 32;
                if row == usize::MAX {
                    proof {
                        assert forall|w: int| w > row implies !#[trigger] self@.contains_key((w, col as int)) by {
                            if self@.contains_key((w, col as int)) {
                                self.lemma_content_bounds((w, col as int));
                            }
                        }
                    }
                    return None;
                }
                let mut w: usize = row + 1;
                while (w as u64) < limit
                    invariant
                        self.wf(),
                        direction is Down,
                        forall|p: (int, int)| #[trigger] self@.contains_key(p) ==> !is_blank(self@[p]),
                        limit == (self.max_chunk.0 as int + 1) * 32,
                        row < w,
                        forall|t: int| row < t < w ==> !#[trigger] self@.contains_key((t, col as int)),
                    decreases limit - w,
                {
                    if self.get(w, col) != ' ' {
                        return Some((w, col));
                    }
                    if w == usize::MAX {
                        proof {
                            assert forall|t: int| t > row implies !#[trigger] self@.contains_key((t, col as int)) by {
                                if self@.contains_key((t, col as int)) {
                                    self.lemma_content_bounds((t, col as int));
                                }
                            }
                        }
                        return None;
                    }
                    w = w + 1;
                }
                proof {
                    assert forall|t: int| t > row implies !#[trigger] self@.contains_key((t, col as int)) by {
                        if self@.contains_key((t, col as int)) {
                            self.lemma_content_bounds((t, col as int));
                        }
                    }
                }
                None
            },
            Direction::Up => {
                let mut w: usize = row;
                while w > 0
                    invariant
                        self.wf(),
                        direction is Up,
                        forall|p: (int, int)| #[trigger] self@.contains_key(p) ==> !is_blank(self@[p]),
                        w <= row,
                        forall|t: int| w <= t < row ==> !#[trigger] self@.contains_key((t, col as int)),
                    decreases w,
                {
                    w = w - 1;
                    if self.get(w, col) != ' ' {
                        return Some((w, col));
                    }
                }
                proof {
                    assert forall|t: int| t < row implies !#[trigger] self@.contains_key((t, col as int)) by {
                        if self@.contains_key((t, col as int)) {
                            self.lemma_content_bounds((t, col as int));
                        }
                    }
                }
                None
            },
        }
    }

    /// Exports the grid as text lines: rows 0 up to the last row with
    /// content, each read from column 0 up to the last column with content
    /// and trimmed at the end (so that `from_lines` puts every character
    /// back where it was); an empty grid gives one empty line.
    pub fn to_lines(&self) -> (lines: Vec<String>)
        requires
            self.wf(),
        ensures
            lines@.map_values(|l: String| l@) == to_lines_spec(*self),
    {
        match self.bounds() {
            None => {
                let lines = vec![String::new()];
                assert(lines@.map_values(|l: String| l@) =~= to_lines_spec(*self));
                lines
            },
            Some((_min_row, _min_col, max_row, max_col)) => {
                proof {
                    lemma_extent_of_bounds(self@, (_min_row, _min_col, max_row, max_col));
                }
                let mut lines: Vec<String> = Vec::new();
                let mut row: usize = 0;
                loop
                    invariant_except_break
                        row <= max_row,
                        lines@.len() == row,
                    invariant
                        self.wf(),
                        forall|i: int|
                            0 <= i < lines@.len() ==> (#[trigger] lines@[i])@ == self.line_text(
                                i,
                                0,
                                max_col as int,
                            ),
                    ensures
                        lines@.len() == max_row + 1,
                    decreases max_row - row,
                {
                    let line = self.get_line(row, 0, max_col);
                    lines.push(line);
                    if row == max_row {
                        break;
                    }
                    row = row + 1;
                }
                assert(lines@.map_values(|l: String| l@) =~= to_lines_spec(*self));
                lines
            },
        }
    }

    /// Builds a grid from text lines: character `col` of line `row` goes to
    /// `(row, col)`; spaces (and newlines, carriage returns) leave their cell
    /// empty.
    pub fn from_lines(lines: &[String]) -> (g: Self)
        requires
            lines_fit(lines@.map_values(|l: String| l@)),
        ensures
            g.wf(),
            g@ == from_lines_spec(lines@.map_values(|l: String| l@)),
    {
        let ghost ls = lines@.map_values(|l: String| l@);
        let mut grid = Self::new();
        let mut row: usize = 0;
        while row < lines.len()
            invariant
                ls == lines@.map_values(|l: String| l@),
                lines_fit(ls),
                row <= lines@.len(),
                grid.wf(),
                grid@ == from_lines_upto(ls, row as int, 0),
            decreases lines@.len() - row,
        {
            let line = &lines[row];
            let ghost l = line@;
            proof {
                assert(ls[row as int] == l);
                assert(from_lines_upto(ls, row as int, 0) =~= from_lines_upto(ls, row as int, 0));
            }
            let mut col: usize = 0;
            for ch in it: line.as_str().chars()
                invariant
                    ls == lines@.map_values(|l: String| l@),
                    lines_fit(ls),
                    row < lines@.len(),
                    ls[row as int] == l,
                    it.seq() == l,
                    col == it.index(),
                    col <= l.len(),
                    grid.wf(),
                    grid@ == from_lines_upto(ls, row as int, col as int),
            {
                if ch != ' ' {
                    grid.set(row, col, ch);
                }
                proof {
                    assert(grid@ =~= from_lines_upto(ls, row as int, col + 1));
                }
                col = col + 1;
            }
            proof {
                assert(grid@ =~= from_lines_upto(ls, row + 1, 0));
            }
            row = row + 1;
        }
        proof {
            assert(grid@ =~= from_lines_spec(ls));
        }
        grid
    }

    /// The exported lines joined with `\n`.
    pub fn to_string(&self) -> (s: String)
        requires
            self.wf(),
        ensures
            s@ == join_lines_spec(to_lines_spec(*self)),
    {
        let lines = self.to_lines();
        join_lines(&lines)
    }

    /// Builds a grid from text: its lines (as `str::lines` splits them) are
    /// read as `from_lines` reads them.
    pub fn from_string(content: &str) -> (g: Self)
        requires
            lines_fit(lines_spec(content@)),
        ensures
            g.wf(),
            g@ == from_lines_spec(lines_spec(content@)),
    {
        let lines = split_lines(content);
        Self::from_lines(lines.as_slice())
    }
}

/// Coordinates below one in range are in range.
proof fn lemma_coord_below(x: int, y: int)
    requires
        coord_in_range(x),
        0 <= y <= x,
    ensures
        coord_in_range(y),
{
    assert(y / 32 <= x / 32);
}

/// A finite non-empty set of positions has a largest row and a largest
/// column.
proof fn lemma_extent_exists(m: Map<(int, int), char>)
    requires
        m.dom().finite(),
        m.dom().len() > 0,
    ensures
        is_extent(m, content_extent(m)),
    decreases m.dom().len(),
{
    let d = m.dom();
    vstd::set::axiom_set_choose_len(d);
    let p = d.choose();
    if d.len() == 1 {
        assert(d =~= set![p]) by {
            assert forall|q: (int, int)| d.contains(q) implies q == p by {
                if q != p {
                    assert(d.remove(p).contains(q));
                    vstd::set::axiom_set_remove_len(d, p);
                    vstd::set::axiom_set_choose_len(d.remove(p));
                }
            }
        }
        assert(is_extent(m, (p.0, p.1)));
    } else {
        let m2 = m.remove(p);
        assert(m2.dom() == d.remove(p));
        lemma_extent_exists(m2);
        let e2 = content_extent(m2);
        let e = (if p.0 > e2.0 {
            p.0
        } else {
            e2.0
        }, if p.1 > e2.1 {
            p.1
        } else {
            e2.1
        });
        let qa = choose|q: (int, int)| #[trigger] m2.contains_key(q) && q.0 == e2.0;
        let qb = choose|q: (int, int)| #[trigger] m2.contains_key(q) && q.1 == e2.1;
        assert(m.contains_key(qa) && m.contains_key(qb));
        assert(is_extent(m, e));
    }
}

/// Appends the record of chunk `k`; it lists each cell of the chunk once.
fn push_chunk_record(out: &mut Vec<u8>, k: (i32, i32), chunk: &Chunk) -> (cs: Ghost<Seq<((usize, usize), char)>>)
    ensures
        final(out)@ == old(out)@ + chunk_record(k, cs@),
        forall|a: int, c: int| 0 <= a < c < cs@.len() ==> #[trigger] cs@[a].0 != #[trigger] cs@[c].0,
        forall|a: int|
            0 <= a < cs@.len() ==> chunk.cells@.contains_key((#[trigger] cs@[a]).0) && chunk.cells@[cs@[a].0]
                == cs@[a].1,
        forall|l: (usize, usize)|
            #[trigger] chunk.cells@.contains_key(l) ==> exists|a: int| 0 <= a < cs@.len() && cs@[a].0 == l,
        cells_in_order(cs@),
{
    let ghost start0 = out@;
    push_i32(out, k.0);
    push_i32(out, k.1);
    push_u32(out, #[verifier::truncate] (chunk.cells.len() as u32));
    let ghost start = out@;
    let ghost all = vstd::std_specs::btree::spec_btree_map_iter(&chunk.cells).remaining();
    let ghost mut cs: Seq<((usize, usize), char)> = Seq::empty();
    for entry in it: chunk.cells.iter()
        invariant
            it.seq() == all,
            all.len() == chunk.cells@.dom().len(),
            all.no_duplicates(),
            forall|j: int|
                0 <= j < all.len() ==> chunk.cells@.contains_key(*(#[trigger] all[j]).0)
                    && chunk.cells@[*all[j].0] == *all[j].1,
            vstd::std_specs::btree::increasing_seq(all.map_values(|kv: (&(usize, usize), &char)| *kv.0)),
            cs.len() == it.index(),
            forall|a: int| 0 <= a < cs.len() ==> (#[trigger] cs[a]) == (*all[a].0, *all[a].1),
            out@ == start + cell_records(cs),
    {
        let (lp, c) = entry;
        out.push(#[verifier::truncate] (lp.0 as u8));
        out.push(#[verifier::truncate] (lp.1 as u8));
        push_char4(out, *c);
        proof {
            lemma_cell_records_push(cs, (*lp, *c));
            assert(out@ =~= start + cell_records(cs.push((*lp, *c))));
            cs = cs.push((*lp, *c));
        }
    }
    proof {
        assert(out@ =~= start0 + chunk_record(k, cs));
        assert forall|a: int, c: int| 0 <= a < c < cs.len() implies #[trigger] cs[a].0 != #[trigger] cs[c].0 by {
            if cs[a].0 == cs[c].0 {
                assert(all[a] == all[c]);
            }
        }
        assert forall|l: (usize, usize)| #[trigger] chunk.cells@.contains_key(l) implies exists|a: int|
            0 <= a < cs.len() && cs[a].0 == l by {
            assert(all.contains((&l, &chunk.cells@[l])));
            let j = all.index_of((&l, &chunk.cells@[l]));
            assert(cs[j].0 == l);
        }
        let places = all.map_values(|kv: (&(usize, usize), &char)| *kv.0);
        lemma_places_in_order(places);
        assert forall|a: int, c: int| 0 <= a < c < cs.len() implies crate::grid_file::local_lt(
            #[trigger] cs[a].0,
            #[trigger] cs[c].0,
        ) by {
            assert(places[a] == cs[a].0 && places[c] == cs[c].0);
        }
    }
    Ghost(cs)
}

impl ChunkedGrid {
    /// The bytes of a `.grid` file holding the grid (see `grid_file_bytes`):
    /// each stored chunk once, with each of its cells once.
    #[verifier::spinoff_prover]
    pub fn to_grid_bytes(&self) -> (r: Vec<u8>)
        requires
            self.wf(),
        ensures
            exists|e: Seq<((i32, i32), Seq<((usize, usize), char)>)>|
                lists_content(e, self@) && in_order(e) && r@ == grid_file_bytes(e),
    {
        let mut out: Vec<u8> = Vec::new();
        out.push(0x47u8);
        out.push(0x52u8);
        out.push(0x49u8);
        out.push(0x44u8);
        out.push(1u8);
        out.push(0u8);
        push_u32(&mut out, #[verifier::truncate] (self.chunks.len() as u32));
        let ghost head = out@;
        let ghost all = vstd::std_specs::btree::spec_btree_map_iter(&self.chunks).remaining();
        let ghost mut e: Seq<((i32, i32), Seq<((usize, usize), char)>)> = Seq::empty();
        for entry in it: self.chunks.iter()
            invariant
                self.wf(),
                it.seq() == all,
                all.len() == self.chunks@.dom().len(),
                all.no_duplicates(),
                forall|j: int|
                    0 <= j < all.len() ==> self.chunks@.contains_key(*(#[trigger] all[j]).0)
                        && self.chunks@[*all[j].0] == *all[j].1,
                vstd::std_specs::btree::increasing_seq(all.map_values(|kv: (&(i32, i32), &Chunk)| *kv.0)),
                e.len() == it.index(),
                forall|j: int| 0 <= j < e.len() ==> cells_in_order(#[trigger] e[j].1),
                forall|j: int|
                    0 <= j < e.len() ==> (#[trigger] e[j]).0 == *all[j].0 && chunk_listed(e[j], self@)
                        && forall|l: (usize, usize)|
                        #[trigger] self.chunks@[e[j].0].cells@.contains_key(l) ==> exists|a: int|
                            0 <= a < e[j].1.len() && e[j].1[a].0 == l,
                out@ == head + chunk_records(e),
        {
            let (kp, chunk) = entry;
            let k = *kp;
            let ghost j0 = it.index() as int;
            let cs = push_chunk_record(&mut out, k, chunk);
            proof {
                assert(all[j0] == entry);
                assert(self.chunks@.contains_key(k));
                assert(chunk_listed((k, cs@), self@)) by {
                    assert forall|a: int| 0 <= a < cs@.len() implies {
                        let l = #[trigger] cs@[a].0;
                        &&& l.0 < 32
                        &&& l.1 < 32
                        &&& self@.contains_key(world_of(k, l))
                        &&& self@[world_of(k, l)] == cs@[a].1
                    } by {
                        let l = cs@[a].0;
                        assert(chunk.cells@.contains_key(l));
                        lemma_world_roundtrip(k, l);
                        assert(self.has_cell(world_of(k, l)));
                    }
                }
                lemma_chunk_records_push(e, (k, cs@));
                e = e.push((k, cs@));
            }
        }
        proof {
            assert(lists_content(e, self@)) by {
                assert forall|i: int, j: int| 0 <= i < j < e.len() implies #[trigger] e[i].0 != #[trigger] e[j].0 by {
                    if e[i].0 == e[j].0 {
                        assert(all[i] == all[j]);
                    }
                }
                assert forall|p: (int, int)| #[trigger] self@.contains_key(p) implies exists|i: int, a: int|
                    0 <= i < e.len() && 0 <= a < e[i].1.len() && #[trigger] listed_pos(e, i, a) == p by {
                    assert(self.has_cell(p));
                    let k = key_of(p);
                    let l = local_of(p);
                    assert(all.contains((&k, &self.chunks@[k])));
                    let i = all.index_of((&k, &self.chunks@[k]));
                    assert(e[i].0 == k);
                    assert(self.chunks@[e[i].0].cells@.contains_key(l));
                    let a = choose|a: int| 0 <= a < e[i].1.len() && e[i].1[a].0 == l;
                    lemma_coord_split(p.0);
                    lemma_coord_split(p.1);
                    assert(listed_pos(e, i, a) == p);
                }
            }
            assert(in_order(e)) by {
                let keys = all.map_values(|kv: (&(i32, i32), &Chunk)| *kv.0);
                lemma_keys_in_order(keys);
                assert forall|i: int, j: int| 0 <= i < j < e.len() implies key_lt(
                    #[trigger] e[i].0,
                    #[trigger] e[j].0,
                ) by {
                    assert(keys[i] == e[i].0 && keys[j] == e[j].0);
                }
            }
            assert(out@ =~= grid_file_bytes(e));
        }
        out
    }
}

/// All content lies in a row with no trailing whitespace after it, or is
/// followed in its row by a character that is not whitespace.
pub open spec fn no_trailing_whitespace(m: Map<(int, int), char>) -> bool {
    forall|p: (int, int)|
        #[trigger] m.contains_key(p) && is_whitespace_spec(m[p]) ==> exists|q: (int, int)|
            #[trigger] m.contains_key(q) && q.0 == p.0 && q.1 > p.1 && !is_whitespace_spec(m[q])
}

/// Exporting a grid to lines and reading them back gives the same content,
/// unless some row ends in a whitespace character (such as a tab), which
/// the export trims.
pub proof fn law_lines_roundtrip(g: ChunkedGrid)
    requires
        g.wf(),
        no_trailing_whitespace(g@),
    ensures
        from_lines_spec(to_lines_spec(g)) == g@,
{
    let ls = to_lines_spec(g);
    if g@.dom().is_empty() {
        assert(from_lines_spec(ls) =~= g@);
    } else {
        vstd::set::axiom_set_choose_len(g@.dom());
        lemma_extent_exists(g@);
        let e = content_extent(g@);
        let qa = choose|q: (int, int)| #[trigger] g@.contains_key(q) && q.0 == e.0;
        let qb = choose|q: (int, int)| #[trigger] g@.contains_key(q) && q.1 == e.1;
        assert(g.has_cell(qa) && g.has_cell(qb));
        assert forall|p: (int, int)| #[trigger] g@.contains_key(p) implies from_lines_spec(
            ls,
        ).contains_key(p) && from_lines_spec(ls)[p] == g@[p] by {
            assert(g.has_cell(p));
            lemma_coord_split(p.0);
            lemma_coord_split(p.1);
            let row = g.row_chars(p.0, 0, e.1);
            lemma_trim_end(row);
            assert(row[p.1] == g@[p]);
            if is_whitespace_spec(g@[p]) {
                let q = choose|q: (int, int)|
                    #[trigger] g@.contains_key(q) && q.0 == p.0 && q.1 > p.1 && !is_whitespace_spec(
                        g@[q],
                    );
                assert(g.has_cell(q));
                lemma_coord_split(q.1);
                assert(row[q.1] == g@[q]);
            }
            assert(ls[p.0] == trim_end_spec(row));
        }
        assert forall|p: (int, int)| #[trigger] from_lines_spec(ls).contains_key(p) implies g@.contains_key(
            p,
        ) by {
            let row = g.row_chars(p.0, 0, e.1);
            lemma_trim_end(row);
            lemma_coord_below(qa.0, p.0);
            lemma_coord_below(qb.1, p.1);
            lemma_coord_split(p.0);
            lemma_coord_split(p.1);
            assert(ls[p.0] == trim_end_spec(row));
            assert(row[p.1] == g.cell(p.0, p.1));
        }
        assert(from_lines_spec(ls) =~= g@);
    }
}

/// Text that is split into lines after a join of lines without newlines
/// reads as the same grid content.
pub proof fn lemma_from_lines_of_join(ls: Seq<Seq<char>>)
    requires
        ls.len() >= 1,
        forall|i: int, j: int| 0 <= i < ls.len() && 0 <= j < ls[i].len() ==> ls[i][j] != '\n',
    ensures
        from_lines_spec(lines_spec(join_lines_spec(ls))) == from_lines_spec(ls),
{
    lemma_lines_run_join(ls);
    let l2 = lines_spec(join_lines_spec(ls));
    let front = ls.drop_last().map_values(|l: Seq<char>| strip_cr(l));
    assert forall|p: (int, int)| #[trigger] from_lines_spec(ls).contains_key(p) == from_lines_spec(
        l2,
    ).contains_key(p) && (from_lines_spec(ls).contains_key(p) ==> from_lines_spec(ls)[p]
        == from_lines_spec(l2)[p]) by {
        if 0 <= p.0 < ls.len() - 1 {
            assert(l2[p.0] == strip_cr(ls[p.0]));
        }
    }
    assert(from_lines_spec(ls) =~= from_lines_spec(l2));
}

/// Saving a grid as text and loading the text back gives the same content,
/// unless some row ends in a whitespace character, which the export trims.
pub proof fn law_string_roundtrip(g: ChunkedGrid)
    requires
        g.wf(),
        no_trailing_whitespace(g@),
    ensures
        from_lines_spec(lines_spec(join_lines_spec(to_lines_spec(g)))) == g@,
{
    let ls = to_lines_spec(g);
    law_lines_roundtrip(g);
    if !g@.dom().is_empty() {
        let e = content_extent(g@);
        assert forall|i: int, j: int| 0 <= i < ls.len() && 0 <= j < ls[i].len() implies ls[i][j]
            != '\n' by {
            let row = g.row_chars(i, 0, e.1);
            lemma_trim_end(row);
            assert(ls[i][j] == row[j]);
            if g@.contains_key((i, j)) {
                assert(g.has_cell((i, j)));
            }
        }
    }
    lemma_from_lines_of_join(ls);
}

/// A read gives back what a write wrote: after `set` writes `ch` at a
/// position, reading there gives `ch` (a space for a blank character), and
/// every other position reads as before.
pub proof fn law_set_then_get(before: ChunkedGrid, after: ChunkedGrid, row: int, col: int, ch: char, r2: int, c2: int)
    requires
        after@ == write_cell(before@, (row, col), ch),
    ensures
        after.cell(row, col) == if is_blank(ch) {
            ' '
        } else {
            ch
        },
        (r2, c2) != (row, col) ==> after.cell(r2, c2) == before.cell(r2, c2),
{
}

/// The grid keeps no blank character and no empty chunk: the positions it
/// counts (`cell_count`) are exactly those that read as non-blank, and the
/// chunks it counts (`chunk_count`) are exactly the 32x32 blocks of those
/// positions.
pub proof fn law_counts_match_content(g: ChunkedGrid)
    requires
        g.wf(),
    ensures
        g@.dom() == Set::new(|p: (int, int)| g.cell(p.0, p.1) != ' '),
        chunks_of(g@) == Set::new(
            |k: (i32, i32)|
                exists|p: (int, int)|
                    #![trigger key_of(p)]
                    g.cell(p.0, p.1) != ' ' && key_of(p) == k && p.0 / 32 == k.0 && p.1 / 32 == k.1,
        ),
{
    g.lemma_view_not_blank();
    assert(g@.dom() =~= Set::new(|p: (int, int)| g.cell(p.0, p.1) != ' '));
    assert forall|k: (i32, i32)| chunks_of(g@).contains(k) implies exists|p: (int, int)|
        #![trigger key_of(p)]
        g.cell(p.0, p.1) != ' ' && key_of(p) == k && p.0 / 32 == k.0 && p.1 / 32 == k.1 by {
        let p = choose|p: (int, int)| g@.contains_key(p) && key_of(p) == k;
        assert(g.has_cell(p));
        lemma_coord_split(p.0);
        lemma_coord_split(p.1);
        assert(g.cell(p.0, p.1) != ' ');
    }
    assert forall|k: (i32, i32)| (exists|p: (int, int)|
        #![trigger key_of(p)]
        g.cell(p.0, p.1) != ' ' && key_of(p) == k && p.0 / 32 == k.0 && p.1 / 32 == k.1) implies chunks_of(g@).contains(k) by {
        let p = choose|p: (int, int)|
            #![trigger key_of(p)]
            g.cell(p.0, p.1) != ' ' && key_of(p) == k && p.0 / 32 == k.0 && p.1 / 32 == k.1;
        assert(g@.contains_key(p));
    }
    assert(chunks_of(g@) =~= Set::new(
        |k: (i32, i32)|
            exists|p: (int, int)|
                #![trigger key_of(p)]
                g.cell(p.0, p.1) != ' ' && key_of(p) == k && p.0 / 32 == k.0 && p.1 / 32 == k.1,
    ));
}

/// The lines that `to_lines` exports can be loaded by `from_lines`: every
/// row and column index they hold is a coordinate in range (the exported
/// lines reach at most one column past the last column with content, which
/// must itself be below `usize::MAX`).
pub proof fn law_exported_lines_fit(g: ChunkedGrid)
    requires
        g.wf(),
        forall|p: (int, int)| #[trigger] g@.contains_key(p) ==> p.1 < usize::MAX,
    ensures
        lines_fit(to_lines_spec(g)),
{
    let ls = to_lines_spec(g);
    if !g@.dom().is_empty() {
        vstd::set::axiom_set_choose_len(g@.dom());
        lemma_extent_exists(g@);
        let e = content_extent(g@);
        let qa = choose|q: (int, int)| #[trigger] g@.contains_key(q) && q.0 == e.0;
        let qb = choose|q: (int, int)| #[trigger] g@.contains_key(q) && q.1 == e.1;
        assert(g.has_cell(qa) && g.has_cell(qb));
        assert forall|i: int| 0 <= i < ls.len() implies #[trigger] ls[i].len() <= usize::MAX && (ls[i].len()
            == 0 || coord_in_range(ls[i].len() - 1)) by {
            let row = g.row_chars(i, 0, e.1);
            lemma_trim_end(row);
            assert(ls[i] == trim_end_spec(row));
            if ls[i].len() > 0 {
                lemma_coord_below(qb.1, ls[i].len() - 1);
            }
        }
    }
}

} // verus!
