//! Laying recognised page text out on a character grid: one grid row per
//! line of text, with a blank row where the text has a blank line (one for
//! a run of them) and before a line that starts a new paragraph (after a
//! short line, or when it is indented, or starts a bullet or a number).
//! Recognising the text is left to the caller.
//!
//! Words read in page order are also laid out one after another: each on
//! the same line, a new line, or after a blank line, as the caller decides
//! from their places on the page.

use crate::spotlight_indexer::utf8_len;
use crate::text_filter::{is_control_spec, trim_spec, trim_text};
use crate::text_format::chars_of;
use crate::text_lines::{lines_spec, split_lines};
use vstd::prelude::*;

verus! {

/// A character that survives the clean-up of a recognised line: anything
/// but a control character, except space and tab.
pub open spec fn keeps_char(c: char) -> bool {
    !is_control_spec(c) || c == ' ' || c == '\t'
}

/// The characters of `s` that survive the clean-up, in order.
pub open spec fn ocr_clean(s: Seq<char>) -> Seq<char>
    decreases s.len(),
{
    if s.len() == 0 {
        s
    } else if keeps_char(s.last()) {
        ocr_clean(s.drop_last()).push(s.last())
    } else {
        ocr_clean(s.drop_last())
    }
}

/// A line that starts with a tab or two spaces.
pub open spec fn is_indented(line: Seq<char>) -> bool {
    (line.len() >= 1 && line[0] == '\t') || (line.len() >= 2 && line[0] == ' ' && line[1] == ' ')
}

/// A trimmed line that starts a list item: a bullet (`•`, `-`, `*`, `●`) or
/// an ASCII digit.
pub open spec fn opens_item(t: Seq<char>) -> bool {
    t.len() > 0 && (t[0] == '•' || t[0] == '-' || t[0] == '*' || t[0] == '●' || (0x30 <= t[0] as u32
        && t[0] as u32 <= 0x39))
}

/// Row `r` with the characters of `out` written from its first column on,
/// as far as the row reaches.
pub open spec fn write_prefix(r: Seq<char>, out: Seq<char>) -> Seq<char> {
    Seq::new(r.len(), |c: int| if c < out.len() { out[c] } else { r[c] })
}

/// Where the layout stands: the grid so far, the next grid row, whether the
/// last line was blank, and the length in bytes of the last written line
/// (trimmed).
pub struct OcrState {
    pub grid: Seq<Seq<char>>,
    pub row: int,
    pub last_empty: bool,
    pub prev: int,
}

/// One more line laid out (`first` for the first line of the text). Once
/// the grid is full, nothing changes.
pub open spec fn ocr_step(st: OcrState, line: Seq<char>, first: bool, width: int, height: int) -> OcrState {
    if st.row >= height {
        st
    } else {
        let t = trim_spec(line);
        if t.len() == 0 {
            OcrState {
                row: if st.last_empty {
                    st.row
                } else {
                    st.row + 1
                },
                last_empty: true,
                ..st
            }
        } else {
            let short = st.prev > 0 && st.prev < width / 2;
            let sep = !first && st.row > 0 && !st.last_empty && (short || is_indented(line) || opens_item(t));
            let row = if sep {
                st.row + 1
            } else {
                st.row
            };
            if row >= height {
                OcrState { row: row, ..st }
            } else {
                let cleaned = ocr_clean(line);
                let out = if is_indented(line) {
                    seq![' ', ' '] + t
                } else {
                    cleaned
                };
                OcrState {
                    grid: st.grid.update(row, write_prefix(st.grid[row], out)),
                    row: row + 1,
                    last_empty: false,
                    prev: utf8_len(trim_spec(cleaned)) as int,
                }
            }
        }
    }
}

/// A grid of `height` rows of `width` spaces, before any line is laid out.
pub open spec fn ocr_start(width: int, height: int) -> OcrState {
    OcrState {
        grid: Seq::new(height as nat, |r: int| Seq::new(width as nat, |c: int| ' ')),
        row: 0,
        last_empty: false,
        prev: 0,
    }
}

/// The layout after the first `k` lines.
pub open spec fn ocr_upto(ls: Seq<Seq<char>>, k: int, width: int, height: int) -> OcrState
    decreases k,
{
    if k <= 0 {
        ocr_start(width, height)
    } else {
        ocr_step(ocr_upto(ls, k - 1, width, height), ls[k - 1], k - 1 == 0, width, height)
    }
}

/// The grid that recognised text is laid out on (see `ocr_step`).
pub open spec fn ocr_layout_spec(text: Seq<char>, width: int, height: int) -> Seq<Seq<char>> {
    ocr_upto(lines_spec(text), lines_spec(text).len() as int, width, height).grid
}

/// The characters of a line that survive the clean-up.
fn clean_line(line: &Vec<char>) -> (r: Vec<char>)
    ensures
        r@ == ocr_clean(line@),
{
    let mut r: Vec<char> = Vec::new();
    let mut i: usize = 0;
    while i < line.len()
        invariant
            i <= line@.len(),
            r@ == ocr_clean(line@.take(i as int)),
        decreases line@.len() - i,
    {
        let c = line[i];
        assert(line@.take(i + 1).drop_last() =~= line@.take(i as int));
        if (c as u32) > 0x1F && !((c as u32) >= 0x7F && (c as u32) <= 0x9F) || c == ' ' || c == '\t' {
            r.push(c);
        }
        i = i + 1;
    }
    assert(line@.take(line@.len() as int) =~= line@);
    r
}

/// A string of the characters `v`.
fn string_of(v: &Vec<char>) -> (s: String)
    ensures
        s@ == v@,
{
    let mut s = String::new();
    let mut i: usize = 0;
    while i < v.len()
        invariant
            i <= v@.len(),
            s@ == v@.take(i as int),
        decreases v@.len() - i,
    {
        s.push(v[i]);
        assert(v@.take(i + 1) =~= v@.take(i as int).push(v@[i as int]));
        i = i + 1;
    }
    assert(v@.take(v@.len() as int) =~= v@);
    s
}

/// `row` with `out` written from its first column on.
fn write_row(row: &Vec<char>, out: &Vec<char>) -> (r: Vec<char>)
    ensures
        r@ == write_prefix(row@, out@),
{
    let mut r: Vec<char> = Vec::new();
    let mut c: usize = 0;
    while c < row.len()
        invariant
            c <= row@.len(),
            r@ == write_prefix(row@, out@).take(c as int),
        decreases row@.len() - c,
    {
        if c < out.len() {
            r.push(out[c]);
        } else {
            r.push(row[c]);
        }
        assert(write_prefix(row@, out@).take(c + 1) =~= write_prefix(row@, out@).take(c as int).push(
            r@[c as int],
        ));
        c = c + 1;
    }
    assert(write_prefix(row@, out@).take(row@.len() as int) =~= write_prefix(row@, out@));
    r
}

/// Lays recognised text out on a grid of `height` rows of `width`
/// characters (see `ocr_layout_spec`).
pub fn ocr_text_to_grid(text: &str, width: usize, height: usize) -> (g: Vec<Vec<char>>)
    ensures
        g@.map_values(|r: Vec<char>| r@) == ocr_layout_spec(text@, width as int, height as int),
{
    let lines = split_lines(text);
    let ghost ls = lines@.map_values(|l: String| l@);
    let ghost start = ocr_start(width as int, height as int);
    let mut grid: Vec<Vec<char>> = Vec::new();
    let mut k: usize = 0;
    while k < height
        invariant
            k <= height,
            start == ocr_start(width as int, height as int),
            grid@.map_values(|r: Vec<char>| r@) == start.grid.take(k as int),
        decreases height - k,
    {
        let mut blank: Vec<char> = Vec::new();
        let mut c: usize = 0;
        while c < width
            invariant
                c <= width,
                blank@ == Seq::new(c as nat, |i: int| ' '),
            decreases width - c,
        {
            blank.push(' ');
            assert(blank@ =~= Seq::new((c + 1) as nat, |i: int| ' '));
            c = c + 1;
        }
        assert(blank@ =~= start.grid[k as int]);
        let ghost before = grid@;
        grid.push(blank);
        assert(grid@.map_values(|r: Vec<char>| r@) =~= before.map_values(|r: Vec<char>| r@).push(blank@));
        assert(grid@.map_values(|r: Vec<char>| r@) =~= start.grid.take(k + 1));
        k = k + 1;
    }
    assert(start.grid.take(height as int) =~= start.grid);
    let mut row: usize = 0;
    let mut last_empty = false;
    let mut prev: usize = 0;
    let mut idx: usize = 0;
    while idx < lines.len()
        invariant
            idx <= lines@.len(),
            ls == lines@.map_values(|l: String| l@),
            ls == lines_spec(text@),
            grid@.len() == height,
            row <= height,
            ({
                let st = ocr_upto(ls, idx as int, width as int, height as int);
                &&& grid@.map_values(|r: Vec<char>| r@) == st.grid
                &&& st.row == row
                &&& st.last_empty == last_empty
                &&& st.prev == prev
            }),
        decreases lines@.len() - idx,
    {
        let ghost st = ocr_upto(ls, idx as int, width as int, height as int);
        let ghost line_v = ls[idx as int];
        assert(lines@[idx as int]@ == line_v);
        assert(ocr_upto(ls, idx + 1, width as int, height as int) == ocr_step(st, line_v, idx == 0, width as int, height as int));
        if row < height {
            let t = trim_text(lines[idx].as_str());
            if t.as_str().is_empty() {
                if !last_empty {
                    row = row + 1;
                }
                last_empty = true;
            } else {
                let lc = chars_of(lines[idx].as_str());
                let tc = chars_of(t.as_str());
                let indented = (lc.len() >= 1 && lc[0] == '\t') || (lc.len() >= 2 && lc[0] == ' ' && lc[1]
                    == ' ');
                let f = tc[0];
                let item = f == '•' || f == '-' || f == '*' || f == '●' || (0x30 <= (f as u32) && (f as u32) <= 0x39);
                assert(lc@ == line_v && tc@ == trim_spec(line_v));
                assert(indented == is_indented(line_v));
                assert(item == opens_item(trim_spec(line_v)));
                let short = prev > 0 && prev < width / 2;
                if idx > 0 && row > 0 && !last_empty && (short || indented || item) {
                    row = row + 1;
                }
                if row < height {
                    let cleaned = clean_line(&lc);
                    let mut out: Vec<char> = Vec::new();
                    if indented {
                        out.push(' ');
                        out.push(' ');
                        let mut j: usize = 0;
                        while j < tc.len()
                            invariant
                                j <= tc@.len(),
                                out@ == seq![' ', ' '] + tc@.take(j as int),
                            decreases tc@.len() - j,
                        {
                            out.push(tc[j]);
                            assert(seq![' ', ' '] + tc@.take(j + 1) =~= (seq![' ', ' '] + tc@.take(
                                j as int,
                            )).push(tc@[j as int]));
                            j = j + 1;
                        }
                        assert(tc@.take(tc@.len() as int) =~= tc@);
                    } else {
                        out = cleaned.clone();
                        assert(out@ =~= cleaned@);
                    }
                    let new_row = write_row(&grid[row], &out);
                    let ghost before = grid@;
                    grid.set(row, new_row);
                    assert(grid@.map_values(|r: Vec<char>| r@) =~= before.map_values(|r: Vec<char>| r@).update(
                        row as int,
                        new_row@,
                    ));
                    let cs = string_of(&cleaned);
                    let trimmed = trim_text(cs.as_str());
                    prev = trimmed.as_str().len();
                    assert(prev == utf8_len(trim_spec(ocr_clean(line_v))));
                    assert(out@ == (if is_indented(line_v) { seq![' ', ' '] + trim_spec(line_v) } else { ocr_clean(line_v) }));
                    last_empty = false;
                    row = row + 1;
                }
            }
        }
        idx = idx + 1;
    }
    grid
}

/// Where a word of the reading flow goes relative to the one before it.
#[derive(Debug, Clone, Copy, PartialEq, Eq, Structural)]
pub enum WordBreak {
    SameLine,
    NewLine,
    NewParagraph,
}

/// Where the flow layout stands: the grid so far, the next cell, whether
/// the rest of the current word is dropped (it ran past the last row),
/// and whether the layout has stopped.
pub struct FlowState {
    pub grid: Seq<Seq<char>>,
    pub row: int,
    pub col: int,
    pub skip: bool,
    pub stopped: bool,
}

/// `g` with `ch` at `(r, c)` when that cell is in the grid.
pub open spec fn put_char(g: Seq<Seq<char>>, r: int, c: int, ch: char) -> Seq<Seq<char>> {
    if 0 <= r < g.len() && 0 <= c < g[r].len() {
        g.update(r, g[r].update(c, ch))
    } else {
        g
    }
}

/// One character of a word: written at the next cell and moved past when
/// the cell is in the grid (a control character is dropped there);
/// otherwise the word wraps to the start of the next row, where the
/// character is written, or when there is no next row the rest of the
/// word is dropped.
pub open spec fn flow_char(st: FlowState, ch: char, width: int, height: int) -> FlowState {
    if st.skip {
        st
    } else if st.col < width && st.row < height {
        if is_control_spec(ch) {
            st
        } else {
            FlowState { grid: put_char(st.grid, st.row, st.col, ch), col: st.col + 1, ..st }
        }
    } else if st.row + 1 >= height {
        FlowState { row: st.row + 1, col: 0, skip: true, ..st }
    } else if 0 < width {
        FlowState { grid: put_char(st.grid, st.row + 1, 0, ch), row: st.row + 1, col: 1, ..st }
    } else {
        FlowState { row: st.row + 1, col: 0, ..st }
    }
}

/// The characters of a word laid out one after another.
pub open spec fn flow_chars(st: FlowState, w: Seq<char>, width: int, height: int) -> FlowState
    decreases w.len(),
{
    if w.len() == 0 {
        st
    } else {
        flow_char(flow_chars(st, w.drop_last(), width, height), w.last(), width, height)
    }
}

/// One word: first its break (a new line, with a blank row before it for
/// a new paragraph; the layout stops when the rows run out), then a space
/// when the line already holds something and has room, then its
/// characters.
pub open spec fn flow_word(st: FlowState, w: Seq<char>, brk: WordBreak, width: int, height: int) -> FlowState {
    if st.stopped {
        st
    } else {
        let r1 = if brk == WordBreak::NewParagraph {
            st.row + 1
        } else {
            st.row
        };
        if brk != WordBreak::SameLine && (r1 >= height || r1 + 1 >= height) {
            FlowState { stopped: true, ..st }
        } else {
            let s1 = if brk == WordBreak::SameLine {
                st
            } else {
                FlowState { row: r1 + 1, col: 0, ..st }
            };
            let s2 = if s1.col > 0 && s1.col < width {
                FlowState { grid: put_char(s1.grid, s1.row, s1.col, ' '), col: s1.col + 1, ..s1 }
            } else {
                s1
            };
            flow_chars(FlowState { skip: false, ..s2 }, w, width, height)
        }
    }
}

/// The flow layout after the first `k` words.
pub open spec fn flow_upto(ws: Seq<(Seq<char>, WordBreak)>, k: int, width: int, height: int) -> FlowState
    decreases k,
{
    if k <= 0 {
        FlowState { grid: ocr_start(width, height).grid, row: 0, col: 0, skip: false, stopped: false }
    } else {
        flow_word(flow_upto(ws, k - 1, width, height), ws[k - 1].0, ws[k - 1].1, width, height)
    }
}

/// Words as plain values.
pub open spec fn words_view(words: Seq<(String, WordBreak)>) -> Seq<(Seq<char>, WordBreak)> {
    words.map_values(|w: (String, WordBreak)| (w.0@, w.1))
}

/// `grid` with `ch` at `(r, c)` when that cell is in the grid.
fn put_cell(grid: &mut Vec<Vec<char>>, r: usize, c: usize, ch: char)
    ensures
        final(grid)@.map_values(|x: Vec<char>| x@) == put_char(old(grid)@.map_values(|x: Vec<char>| x@), r as int, c as int, ch),
{
    if r < grid.len() && c < grid[r].len() {
        let mut line = grid[r].clone();
        assert(line@ =~= old(grid)@[r as int]@);
        line.set(c, ch);
        let ghost before = grid@;
        grid.set(r, line);
        assert(grid@.map_values(|x: Vec<char>| x@) =~= before.map_values(|x: Vec<char>| x@).update(
            r as int,
            before[r as int]@.update(c as int, ch),
        ));
    }
}

/// Lays words read in page order out on a grid of `height` rows of
/// `width` characters (see `flow_word`).
pub fn flow_words(words: &Vec<(String, WordBreak)>, width: usize, height: usize) -> (g: Vec<Vec<char>>)
    requires
        height + words@.len() + 2 <= usize::MAX,
    ensures
        g@.map_values(|r: Vec<char>| r@) == flow_upto(words_view(words@), words@.len() as int, width as int, height as int).grid,
{
    let ghost ws = words_view(words@);
    let ghost start = ocr_start(width as int, height as int);
    let mut grid: Vec<Vec<char>> = Vec::new();
    let mut k: usize = 0;
    while k < height
        invariant
            k <= height,
            start == ocr_start(width as int, height as int),
            grid@.map_values(|r: Vec<char>| r@) == start.grid.take(k as int),
        decreases height - k,
    {
        let mut blank: Vec<char> = Vec::new();
        let mut c: usize = 0;
        while c < width
            invariant
                c <= width,
                blank@ == Seq::new(c as nat, |i: int| ' '),
            decreases width - c,
        {
            blank.push(' ');
            assert(blank@ =~= Seq::new((c + 1) as nat, |i: int| ' '));
            c = c + 1;
        }
        assert(blank@ =~= start.grid[k as int]);
        let ghost before = grid@;
        grid.push(blank);
        assert(grid@.map_values(|r: Vec<char>| r@) =~= before.map_values(|r: Vec<char>| r@).push(blank@));
        assert(grid@.map_values(|r: Vec<char>| r@) =~= start.grid.take(k + 1));
        k = k + 1;
    }
    assert(start.grid.take(height as int) =~= start.grid);
    let mut row: usize = 0;
    let mut col: usize = 0;
    let mut stopped = false;
    let mut idx: usize = 0;
    while idx < words.len()
        invariant
            idx <= words@.len(),
            ws == words_view(words@),
            height + words@.len() + 2 <= usize::MAX,
            row <= height + idx,
            ({
                let st = flow_upto(ws, idx as int, width as int, height as int);
                &&& grid@.map_values(|r: Vec<char>| r@) == st.grid
                &&& st.row == row
                &&& st.col == col
                &&& st.stopped == stopped
                &&& col <= width || col == 0
            }),
        decreases words@.len() - idx,
    {
        let ghost st = flow_upto(ws, idx as int, width as int, height as int);
        assert(flow_upto(ws, idx + 1, width as int, height as int) == flow_word(
            st,
            ws[idx as int].0,
            ws[idx as int].1,
            width as int,
            height as int,
        ));
        if !stopped {
            let brk = words[idx].1;
            let r1 = if brk == WordBreak::NewParagraph {
                row + 1
            } else {
                row
            };
            if brk != WordBreak::SameLine && (r1 >= height || r1 + 1 >= height) {
                stopped = true;
            } else {
                if brk != WordBreak::SameLine {
                    row = r1 + 1;
                    col = 0;
                }
                if col > 0 && col < width {
                    put_cell(&mut grid, row, col, ' ');
                    col = col + 1;
                }
                let chars = chars_of(words[idx].0.as_str());
                assert(chars@ == ws[idx as int].0);
                let ghost s2 = FlowState {
                    grid: grid@.map_values(|r: Vec<char>| r@),
                    row: row as int,
                    col: col as int,
                    skip: false,
                    stopped: false,
                };
                let mut skip = false;
                let ghost row0 = row as int;
                let mut j: usize = 0;
                while j < chars.len()
                    invariant
                        j <= chars@.len(),
                        row0 <= height + idx + 1,
                        row <= row0 + 1 || row <= height,
                        !skip && row0 < height ==> row < height,
                        !skip && row0 >= height ==> row == row0,
                        height + words@.len() + 2 <= usize::MAX,
                        idx < words@.len(),
                        col <= width || col == 0,
                        ({
                            let t = flow_chars(s2, chars@.take(j as int), width as int, height as int);
                            &&& grid@.map_values(|r: Vec<char>| r@) == t.grid
                            &&& t.row == row
                            &&& t.col == col
                            &&& t.skip == skip
                            &&& !t.stopped
                        }),
                    decreases chars@.len() - j,
                {
                    let ch = chars[j];
                    assert(chars@.take(j + 1).drop_last() =~= chars@.take(j as int));
                    if !skip {
                        if col < width && row < height {
                            let n = #[verifier::truncate] (ch as u32);
                            if !(n <= 0x1F || (0x7F <= n && n <= 0x9F)) {
                                put_cell(&mut grid, row, col, ch);
                                col = col + 1;
                            }
                        } else if row + 1 >= height {
                            row = row + 1;
                            col = 0;
                            skip = true;
                        } else if 0 < width {
                            put_cell(&mut grid, row + 1, 0, ch);
                            row = row + 1;
                            col = 1;
                        } else {
                            row = row + 1;
                            col = 0;
                        }
                    }
                    j = j + 1;
                }
                assert(chars@.take(chars@.len() as int) =~= chars@);
            }
        }
        idx = idx + 1;
    }
    grid
}

/// A grid row of `width` spaces.
pub open spec fn blank_row(width: int) -> Seq<char> {
    Seq::new(width as nat, |c: int| ' ')
}

/// What a non-blank line puts on its row: an indented line as two spaces
/// and its trimmed text, any other line as its cleaned characters.
pub open spec fn line_out(line: Seq<char>) -> Seq<char> {
    if is_indented(line) {
        seq![' ', ' '] + trim_spec(line)
    } else {
        ocr_clean(line)
    }
}

/// The layout of the first `k` lines has `height` rows, and every row from
/// the next one on is still blank.
proof fn lemma_ocr_upto_shape(ls: Seq<Seq<char>>, k: int, width: int, height: int)
    requires
        0 <= width,
        0 <= height,
        0 <= k <= ls.len(),
    ensures
        ocr_upto(ls, k, width, height).grid.len() == height,
        ocr_upto(ls, k, width, height).row >= 0,
        forall|r: int|
            ocr_upto(ls, k, width, height).row <= r < height ==> #[trigger] ocr_upto(ls, k, width, height).grid[r]
                == blank_row(width),
    decreases k,
{
    if k > 0 {
        lemma_ocr_upto_shape(ls, k - 1, width, height);
        let st = ocr_upto(ls, k - 1, width, height);
        let nx = ocr_upto(ls, k, width, height);
        assert(nx == ocr_step(st, ls[k - 1], k - 1 == 0, width, height));
        assert forall|r: int| nx.row <= r < height implies #[trigger] nx.grid[r] == blank_row(width) by {
            assert(st.grid[r] == blank_row(width));
        }
    } else {
        let g = ocr_upto(ls, k, width, height).grid;
        assert forall|r: int| 0 <= r < height implies #[trigger] g[r] == blank_row(width) by {
            assert(g[r] =~= blank_row(width));
        }
    }
}

/// Laying out more lines never goes back: the next row only grows and the
/// rows above it stay as they are.
proof fn lemma_ocr_upto_keeps(ls: Seq<Seq<char>>, k: int, j: int, width: int, height: int)
    requires
        0 <= width,
        0 <= height,
        0 <= k <= j <= ls.len(),
    ensures
        ocr_upto(ls, j, width, height).row >= ocr_upto(ls, k, width, height).row,
        forall|r: int|
            0 <= r < ocr_upto(ls, k, width, height).row && r < height ==> #[trigger] ocr_upto(
                ls,
                j,
                width,
                height,
            ).grid[r] == ocr_upto(ls, k, width, height).grid[r],
    decreases j - k,
{
    if k < j {
        lemma_ocr_upto_keeps(ls, k, j - 1, width, height);
        lemma_ocr_upto_shape(ls, j - 1, width, height);
        let st = ocr_upto(ls, j - 1, width, height);
        assert(ocr_upto(ls, j, width, height) == ocr_step(st, ls[j - 1], j - 1 == 0, width, height));
    }
}

/// A short line ends its paragraph: when a non-blank line follows a
/// non-blank line (not the first of the text) whose cleaned, trimmed text
/// is shorter in bytes than half the grid width, and both fit on the
/// grid, the earlier line stands on row `r`, row `r + 1` is left blank and
/// the later line stands on row `r + 2`, where `r` is the row the earlier
/// line was written on (one above where the layout of the lines up to it
/// has reached).
pub proof fn law_short_line_ends_paragraph(text: Seq<char>, k: int, width: int, height: int)
    requires
        0 <= width,
        0 <= height,
        1 <= k < lines_spec(text).len(),
        trim_spec(lines_spec(text)[k - 1]).len() > 0,
        trim_spec(lines_spec(text)[k]).len() > 0,
        0 < utf8_len(trim_spec(ocr_clean(lines_spec(text)[k - 1]))) < width / 2,
        ocr_upto(lines_spec(text), k, width, height).row + 1 < height,
    ensures
        ({
            let ls = lines_spec(text);
            let r = ocr_upto(ls, k, width, height).row - 1;
            let g = ocr_layout_spec(text, width, height);
            &&& 0 <= r
            &&& g[r] == write_prefix(blank_row(width), line_out(ls[k - 1]))
            &&& g[r + 1] == blank_row(width)
            &&& g[r + 2] == write_prefix(blank_row(width), line_out(ls[k]))
        }),
{
    let ls = lines_spec(text);
    let n = ls.len() as int;
    let a = ocr_upto(ls, k - 1, width, height);
    let b = ocr_upto(ls, k, width, height);
    let c = ocr_upto(ls, k + 1, width, height);
    lemma_ocr_upto_shape(ls, k - 1, width, height);
    lemma_ocr_upto_shape(ls, k, width, height);
    assert(b == ocr_step(a, ls[k - 1], k - 1 == 0, width, height));
    assert(c == ocr_step(b, ls[k], false, width, height));
    assert(a.row < height);
    let row1 = b.row - 1;
    assert(a.grid[row1] == blank_row(width));
    assert(b.grid[row1] == write_prefix(blank_row(width), line_out(ls[k - 1])));
    assert(b.prev == utf8_len(trim_spec(ocr_clean(ls[k - 1]))) as int);
    assert(!b.last_empty);
    assert(b.grid[b.row + 1] == blank_row(width));
    assert(b.grid[b.row] == blank_row(width));
    assert(c.row == b.row + 2);
    assert(c.grid[b.row + 1] == write_prefix(blank_row(width), line_out(ls[k])));
    assert(c.grid[b.row] == blank_row(width));
    assert(c.grid[row1] == b.grid[row1]);
    lemma_ocr_upto_keeps(ls, k + 1, n, width, height);
    assert(ocr_layout_spec(text, width, height) == ocr_upto(ls, n, width, height).grid);
    let g = ocr_upto(ls, n, width, height).grid;
    assert(g[row1] == c.grid[row1]);
    assert(g[b.row] == c.grid[b.row]);
    assert(g[b.row + 1] == c.grid[b.row + 1]);
}

} // verus!
