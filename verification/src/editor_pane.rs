//! Laying out the open note on screen: each line is wrapped at the pane's
//! width, after the last space that fits, and the cursor's screen position
//! is found among the wrapped pieces.

use crate::editor::{len_of_line, lemma_line_measures, App};
use crate::rope::{line_chars, line_count};
use crate::text_filter::{is_whitespace_char, is_whitespace_spec};
use vstd::prelude::*;

verus! {

/// The index of the last whitespace character of `l` in `[col, e)`, or -1
/// when there is none.
pub open spec fn last_space_before(l: Seq<char>, col: int, e: int) -> int
    decreases e - col,
{
    if e <= col {
        -1
    } else if is_whitespace_spec(l[e - 1]) {
        e - 1
    } else {
        last_space_before(l, col, e - 1)
    }
}

/// Where the piece of `l` that starts at `col` ends for width `w`: the end
/// of the line when the rest fits, else just after the last space within
/// the width, else at the width.
pub open spec fn segment_end(l: Seq<char>, col: int, w: int) -> int {
    if col + w >= l.len() {
        l.len() as int
    } else {
        let i = last_space_before(l, col, col + w);
        if i >= 0 {
            i + 1
        } else {
            col + w
        }
    }
}

/// The pieces `[start, end)` of `l` from `col` on, for width `w`.
pub open spec fn segments_from(l: Seq<char>, col: int, w: int) -> Seq<(int, int)>
    decreases l.len() - col,
{
    let e = segment_end(l, col, w);
    if col >= l.len() || e <= col || e > l.len() {
        Seq::empty()
    } else {
        seq![(col, e)] + segments_from(l, e, w)
    }
}

/// The pieces of line `l` wrapped at width `w`: one empty piece for an
/// empty line.
pub open spec fn wrap_segments(l: Seq<char>, w: int) -> Seq<(int, int)> {
    if l.len() == 0 {
        seq![(0, 0)]
    } else {
        segments_from(l, 0, w)
    }
}

/// A space found by `last_space_before` lies in its range and is
/// whitespace.
proof fn lemma_last_space(l: Seq<char>, col: int, e: int)
    requires
        0 <= col,
        e <= l.len(),
    ensures
        last_space_before(l, col, e) == -1 || (col <= last_space_before(l, col, e) < e
            && is_whitespace_spec(l[last_space_before(l, col, e)])),
    decreases e - col,
{
    if e > col && !is_whitespace_spec(l[e - 1]) {
        lemma_last_space(l, col, e - 1);
    }
}

/// Each piece moves forward.
proof fn lemma_segment_end(l: Seq<char>, col: int, w: int)
    requires
        0 <= col < l.len(),
        w > 0,
    ensures
        col < segment_end(l, col, w) <= l.len(),
{
    if col + w < l.len() {
        lemma_last_space(l, col, col + w);
    }
}

/// Pieces start no later than they end.
proof fn lemma_segments_ordered(l: Seq<char>, col: int, w: int)
    ensures
        forall|j: int|
            0 <= j < segments_from(l, col, w).len() ==> #[trigger] segments_from(l, col, w)[j].0
                <= segments_from(l, col, w)[j].1,
    decreases l.len() - col,
{
    let e = segment_end(l, col, w);
    if !(col >= l.len() || e <= col || e > l.len()) {
        lemma_segments_ordered(l, e, w);
        assert forall|j: int| 0 <= j < segments_from(l, col, w).len() implies #[trigger] segments_from(
            l,
            col,
            w,
        )[j].0 <= segments_from(l, col, w)[j].1 by {
            if j > 0 {
                assert(segments_from(l, col, w)[j] == segments_from(l, e, w)[j - 1]);
            }
        }
    }
}

/// Wrapped pieces start no later than they end.
proof fn lemma_wrap_ordered(l: Seq<char>, w: int)
    ensures
        forall|j: int|
            0 <= j < wrap_segments(l, w).len() ==> #[trigger] wrap_segments(l, w)[j].0 <= wrap_segments(
                l,
                w,
            )[j].1,
{
    lemma_segments_ordered(l, 0, w);
}

/// Each piece moves forward and stays within the line.
pub proof fn lemma_segment_end_pub(l: Seq<char>, col: int, w: int)
    requires
        0 <= col < l.len(),
        w > 0,
    ensures
        col < segment_end(l, col, w) <= l.len(),
        segment_end(l, col, w) <= col + w,
{
    lemma_segment_end(l, col, w);
    if col + w < l.len() {
        lemma_last_space(l, col, col + w);
    }
}

/// The characters of line `row` of `s` without its trailing newline.
pub open spec fn line_text(s: Seq<char>, row: nat) -> Seq<char> {
    line_chars(s, row).take(len_of_line(s, row as int) as int)
}

/// The end of the piece of `l` that starts at `col` (see `segment_end`).
fn piece_end(l: &Vec<char>, col: usize, w: usize) -> (e: usize)
    requires
        col < l@.len(),
        w > 0,
    ensures
        e == segment_end(l@, col as int, w as int),
{
    let n = l.len();
    if w >= n - col {
        return n;
    }
    let max_end = col + w;
    let mut i = max_end;
    while i > col
        invariant
            col <= i <= max_end,
            max_end == col + w,
            max_end < l@.len(),
            last_space_before(l@, col as int, max_end as int) == last_space_before(
                l@,
                col as int,
                i as int,
            ),
        decreases i,
    {
        if is_whitespace_char(l[i - 1]) {
            return i;
        }
        i = i - 1;
    }
    max_end
}

/// The pieces of line `l` wrapped at width `w` (see `wrap_segments`).
pub fn wrap_line(l: &Vec<char>, w: usize) -> (r: Vec<(usize, usize)>)
    requires
        w > 0,
    ensures
        r@.map_values(|p: (usize, usize)| (p.0 as int, p.1 as int)) == wrap_segments(l@, w as int),
{
    let mut r: Vec<(usize, usize)> = Vec::new();
    if l.len() == 0 {
        r.push((0, 0));
        assert(r@.map_values(|p: (usize, usize)| (p.0 as int, p.1 as int)) =~= seq![(0int, 0int)]);
        return r;
    }
    let mut col: usize = 0;
    while col < l.len()
        invariant
            w > 0,
            col <= l@.len(),
            r@.map_values(|p: (usize, usize)| (p.0 as int, p.1 as int)) + segments_from(
                l@,
                col as int,
                w as int,
            ) == segments_from(l@, 0, w as int),
        decreases l@.len() - col,
    {
        let e = piece_end(l, col, w);
        proof {
            lemma_segment_end(l@, col as int, w as int);
        }
        let ghost before = r@.map_values(|p: (usize, usize)| (p.0 as int, p.1 as int));
        r.push((col, e));
        assert(r@.map_values(|p: (usize, usize)| (p.0 as int, p.1 as int)) =~= before.push(
            (col as int, e as int),
        ));
        assert(segments_from(l@, col as int, w as int) =~= seq![(col as int, e as int)]
            + segments_from(l@, e as int, w as int));
        col = e;
    }
    assert(segments_from(l@, col as int, w as int) =~= Seq::<(int, int)>::empty());
    r
}

/// The pieces of lines `r`, `r + 1`, ... of `s` wrapped at `w`, each with
/// its line, in screen order.
pub open spec fn pieces_from(s: Seq<char>, r: nat, w: int) -> Seq<(nat, (int, int))>
    decreases line_count(s) - r,
{
    if r >= line_count(s) {
        Seq::empty()
    } else {
        wrap_segments(line_text(s, r), w).map_values(|p: (int, int)| (r, p)) + pieces_from(
            s,
            r + 1,
            w,
        )
    }
}

/// The pieces of a pane of width 0 and `h` rows from line `r` on: no
/// character fits, so an empty line still takes a row with its empty
/// piece, and the first line with characters takes every row left, an
/// empty piece each.
pub open spec fn zero_width_pieces(s: Seq<char>, r: nat, h: int) -> Seq<(nat, (int, int))>
    decreases line_count(s) - r,
{
    if h <= 0 || r >= line_count(s) {
        Seq::empty()
    } else if line_text(s, r).len() == 0 {
        seq![(r, (0int, 0int))] + zero_width_pieces(s, r + 1, h - 1)
    } else {
        Seq::new(h as nat, |i: int| (r, (0int, 0int)))
    }
}

/// The pieces shown in a pane `w` columns wide and `h` rows high whose
/// first line is `r0`.
pub open spec fn visible_pieces(s: Seq<char>, r0: nat, w: int, h: int) -> Seq<(nat, (int, int))> {
    if w <= 0 {
        zero_width_pieces(s, r0, h)
    } else {
        let all = pieces_from(s, r0, w);
        if all.len() <= h {
            all
        } else {
            all.take(h)
        }
    }
}

/// The column within a piece where the cursor `(cr, cc)` shows, if it
/// shows on that piece: on its characters, just past its end (within the
/// width), or at the start of an empty line.
pub open spec fn piece_cursor(p: (nat, (int, int)), len: int, cr: int, cc: int, w: int) -> Option<
    int,
> {
    let (r, (a, e)) = p;
    if r == cr && cc == len && a == 0 && len == 0 {
        Some(0)
    } else if r == cr && e <= cc < e + w && cc - a < w {
        Some(cc - a)
    } else if r == cr && a <= cc < e {
        Some(cc - a)
    } else {
        None
    }
}

/// The cursor's `(column, screen row)` in the pane showing pieces `ps`: the
/// last piece it shows on wins.
pub open spec fn cursor_among(ps: Seq<(nat, (int, int))>, s: Seq<char>, cr: int, cc: int, w: int) -> Option<
    (int, int),
>
    decreases ps.len(),
{
    if ps.len() == 0 {
        None
    } else {
        match piece_cursor(ps.last(), len_of_line(s, ps.last().0 as int) as int, cr, cc, w) {
            Some(c) => Some((c, ps.len() - 1)),
            None => cursor_among(ps.drop_last(), s, cr, cc, w),
        }
    }
}

/// A piece of the pane: characters `[start, end)` of line `row`.
pub struct PaneRow {
    pub row: usize,
    pub start: usize,
    pub end: usize,
}

/// Pane rows as plain values.
pub open spec fn pane_view(v: Seq<PaneRow>) -> Seq<(nat, (int, int))> {
    v.map_values(|p: PaneRow| (p.row as nat, (p.start as int, p.end as int)))
}

/// The column where the cursor shows on a piece (see `piece_cursor`).
fn cursor_on_piece(row: usize, a: usize, e: usize, len: usize, cr: usize, cc: usize, w: usize) -> (r:
    Option<usize>)
    requires
        a <= e,
    ensures
        match r {
            Some(c) => piece_cursor((row as nat, (a as int, e as int)), len as int, cr as int, cc as int, w as int)
                == Some(c as int),
            None => piece_cursor((row as nat, (a as int, e as int)), len as int, cr as int, cc as int, w as int)
                is None,
        },
{
    if row == cr && cc == len && a == 0 && len == 0 {
        Some(0)
    } else if row == cr && e <= cc && cc - e < w && cc - a < w {
        Some(cc - a)
    } else if row == cr && a <= cc && cc < e {
        Some(cc - a)
    } else {
        None
    }
}

impl App {
    /// The characters of line `row` without its trailing newline.
    fn line_vec(&self, row: usize) -> (v: Vec<char>)
        requires
            row < line_count(self.text_buffer.text()),
        ensures
            v@ == line_text(self.text_buffer.text(), row as nat),
    {
        let mut v: Vec<char> = Vec::new();
        proof {
            lemma_line_measures(self.text_buffer.text(), row as int);
        }
        if let Some(line) = self.text_buffer.get_line(row) {
            let ghost l = line@;
            for ch in it: line.as_str().chars()
                invariant
                    it.seq() == l,
                    v@ == l.take(it.index() as int),
            {
                v.push(ch);
                assert(v@ == l.take(it.index() + 1));
            }
            proof {
                assert(l.take(l.len() as int) == l);
            }
            if v.len() > 0 && v[v.len() - 1] == '\n' {
                v.pop();
                assert(v@ =~= l.take(l.len() - 1));
            } else {
                assert(v@ =~= l.take(l.len() as int));
            }
        }
        v
    }

    /// The pieces of the open note in a pane of width 0 (see
    /// `zero_width_pieces`), and where the cursor shows in it.
    fn layout_zero_width(&self, height: usize) -> (r: (Vec<PaneRow>, Option<(usize, usize)>))
        ensures
            pane_view(r.0@) == zero_width_pieces(self.text_buffer.text(), self.viewport_row as nat, height as int),
            match r.1 {
                Some((c, k)) => cursor_among(
                    pane_view(r.0@),
                    self.text_buffer.text(),
                    self.cursor_row as int,
                    self.cursor_col as int,
                    0,
                ) == Some((c as int, k as int)),
                None => cursor_among(
                    pane_view(r.0@),
                    self.text_buffer.text(),
                    self.cursor_row as int,
                    self.cursor_col as int,
                    0,
                ) is None,
            },
    {
        let ghost s = self.text_buffer.text();
        let ghost want = zero_width_pieces(s, self.viewport_row as nat, height as int);
        let count = self.text_buffer.line_count();
        let mut rows: Vec<PaneRow> = Vec::new();
        let mut cursor: Option<(usize, usize)> = None;
        let mut row = self.viewport_row;
        let mut full = false;
        assert(pane_view(rows@) =~= Seq::<(nat, (int, int))>::empty());
        while !full && rows.len() < height && row < count
            invariant
                count == line_count(s),
                s == self.text_buffer.text(),
                want == zero_width_pieces(s, self.viewport_row as nat, height as int),
                rows@.len() <= height,
                full ==> pane_view(rows@) == want,
                !full ==> pane_view(rows@) + zero_width_pieces(s, row as nat, height - rows@.len()) == want,
                match cursor {
                    Some((c, k)) => cursor_among(
                        pane_view(rows@),
                        s,
                        self.cursor_row as int,
                        self.cursor_col as int,
                        0,
                    ) == Some((c as int, k as int)),
                    None => cursor_among(pane_view(rows@), s, self.cursor_row as int, self.cursor_col as int, 0)
                        is None,
                },
            decreases count - row, (if full { 0int } else { 1int }),
        {
            let line = self.line_vec(row);
            let len = line.len();
            proof {
                lemma_line_measures(s, row as int);
            }
            assert(len == len_of_line(s, row as int));
            let ghost start = rows@;
            let ghost rest = zero_width_pieces(s, row as nat, height - rows@.len());
            if len == 0 {
                if let Some(c) = cursor_on_piece(row, 0, 0, len, self.cursor_row, self.cursor_col, 0) {
                    cursor = Some((c, rows.len()));
                }
                rows.push(PaneRow { row, start: 0, end: 0 });
                assert(pane_view(rows@) =~= pane_view(start).push((row as nat, (0int, 0int))));
                assert(pane_view(rows@).drop_last() =~= pane_view(start));
                assert(rest == seq![(row as nat, (0int, 0int))] + zero_width_pieces(
                    s,
                    (row + 1) as nat,
                    height - rows@.len(),
                ));
                assert(pane_view(rows@) + zero_width_pieces(s, (row + 1) as nat, height - rows@.len()) =~= pane_view(
                    start,
                ) + rest);
                row = row + 1;
            } else {
                assert(rest =~= Seq::new((height - start.len()) as nat, |i: int| (row as nat, (0int, 0int))));
                while rows.len() < height
                    invariant
                        s == self.text_buffer.text(),
                        len == len_of_line(s, row as int),
                        len > 0,
                        start.len() <= rows@.len() <= height,
                        want == pane_view(start) + rest,
                        rest == Seq::new((height - start.len()) as nat, |i: int| (row as nat, (0int, 0int))),
                        pane_view(rows@) == pane_view(start) + rest.take(rows@.len() - start.len()),
                        match cursor {
                            Some((c, k)) => cursor_among(
                                pane_view(rows@),
                                s,
                                self.cursor_row as int,
                                self.cursor_col as int,
                                0,
                            ) == Some((c as int, k as int)),
                            None => cursor_among(
                                pane_view(rows@),
                                s,
                                self.cursor_row as int,
                                self.cursor_col as int,
                                0,
                            ) is None,
                        },
                    decreases height - rows@.len(),
                {
                    let ghost before = rows@;
                    if let Some(c) = cursor_on_piece(row, 0, 0, len, self.cursor_row, self.cursor_col, 0) {
                        cursor = Some((c, rows.len()));
                    }
                    rows.push(PaneRow { row, start: 0, end: 0 });
                    assert(pane_view(rows@) =~= pane_view(before).push((row as nat, (0int, 0int))));
                    assert(pane_view(rows@).drop_last() =~= pane_view(before));
                    assert(rest.take(rows@.len() - start.len()) =~= rest.take(before.len() - start.len()).push(
                        (row as nat, (0int, 0int)),
                    ));
                }
                assert(rest.take(rows@.len() - start.len()) =~= rest);
                full = true;
            }
        }
        if !full {
            assert(zero_width_pieces(s, row as nat, height - rows@.len()) =~= Seq::<(nat, (int, int))>::empty());
            assert(pane_view(rows@) =~= want);
        }
        (rows, cursor)
    }

    /// The pieces of the open note shown in a pane `width` columns wide and
    /// `height` rows high, from the viewport's first line, and where the
    /// cursor shows in it as `(column, row)` within the pane.
    pub fn layout_pane(&self, width: usize, height: usize) -> (r: (Vec<PaneRow>, Option<(usize, usize)>))
        ensures
            pane_view(r.0@) == visible_pieces(
                self.text_buffer.text(),
                self.viewport_row as nat,
                width as int,
                height as int,
            ),
            match r.1 {
                Some((c, k)) => cursor_among(
                    pane_view(r.0@),
                    self.text_buffer.text(),
                    self.cursor_row as int,
                    self.cursor_col as int,
                    width as int,
                ) == Some((c as int, k as int)),
                None => cursor_among(
                    pane_view(r.0@),
                    self.text_buffer.text(),
                    self.cursor_row as int,
                    self.cursor_col as int,
                    width as int,
                ) is None,
            },
    {
        if width == 0 {
            return self.layout_zero_width(height);
        }
        let ghost s = self.text_buffer.text();
        let ghost all = pieces_from(s, self.viewport_row as nat, width as int);
        let count = self.text_buffer.line_count();
        let mut rows: Vec<PaneRow> = Vec::new();
        let mut cursor: Option<(usize, usize)> = None;
        let mut row = self.viewport_row;
        if row >= count {
            assert(pane_view(rows@) =~= Seq::<(nat, (int, int))>::empty());
            return (rows, cursor);
        }
        while rows.len() < height && row < count
            invariant
                width > 0,
                count == line_count(s),
                s == self.text_buffer.text(),
                all == pieces_from(s, self.viewport_row as nat, width as int),
                self.viewport_row <= row <= count,
                rows@.len() <= height,
                pane_view(rows@) == all.take(rows@.len() as int),
                rows@.len() < height ==> all.skip(rows@.len() as int) == pieces_from(
                    s,
                    row as nat,
                    width as int,
                ),
                rows@.len() <= all.len(),
                match cursor {
                    Some((c, k)) => cursor_among(
                        pane_view(rows@),
                        s,
                        self.cursor_row as int,
                        self.cursor_col as int,
                        width as int,
                    ) == Some((c as int, k as int)),
                    None => cursor_among(
                        pane_view(rows@),
                        s,
                        self.cursor_row as int,
                        self.cursor_col as int,
                        width as int,
                    ) is None,
                },
            decreases count - row,
        {
            let line = self.line_vec(row);
            let len = line.len();
            proof {
                lemma_line_measures(s, row as int);
            }
            let segs = wrap_line(&line, width);
            let ghost segv = segs@.map_values(|p: (usize, usize)| (p.0 as int, p.1 as int));
            let ghost tagged = segv.map_values(|p: (int, int)| (row as nat, p));
            assert(pieces_from(s, row as nat, width as int) == tagged + pieces_from(
                s,
                (row + 1) as nat,
                width as int,
            ));
            proof {
                lemma_wrap_ordered(line@, width as int);
                assert forall|j: int| 0 <= j < segs@.len() implies #[trigger] segs@[j].0 <= segs@[j].1 by {
                    assert(segv[j] == (segs@[j].0 as int, segs@[j].1 as int));
                }
            }
            let mut k: usize = 0;
            while k < segs.len() && rows.len() < height
                invariant
                    width > 0,
                    s == self.text_buffer.text(),
                    len == line@.len(),
                    line@ == line_text(s, row as nat),
                    len == len_of_line(s, row as int),
                    segv == segs@.map_values(|p: (usize, usize)| (p.0 as int, p.1 as int)),
                    segv == wrap_segments(line@, width as int),
                    tagged == segv.map_values(|p: (int, int)| (row as nat, p)),
                    k <= segs@.len(),
                    rows@.len() <= height,
                    rows@.len() <= all.len(),
                    pane_view(rows@) == all.take(rows@.len() as int),
                    all.skip(rows@.len() as int) == tagged.skip(k as int) + pieces_from(
                        s,
                        (row + 1) as nat,
                        width as int,
                    ),
                    forall|j: int| 0 <= j < segs@.len() ==> #[trigger] segs@[j].0 <= segs@[j].1,
                    match cursor {
                        Some((c, kk)) => cursor_among(
                            pane_view(rows@),
                            s,
                            self.cursor_row as int,
                            self.cursor_col as int,
                            width as int,
                        ) == Some((c as int, kk as int)),
                        None => cursor_among(
                            pane_view(rows@),
                            s,
                            self.cursor_row as int,
                            self.cursor_col as int,
                            width as int,
                        ) is None,
                    },
                decreases segs@.len() - k,
            {
                let (a, e) = segs[k];
                let ghost before = rows@;
                assert(tagged.skip(k as int).len() > 0);
                assert(all.skip(rows@.len() as int).len() > 0);
                assert(all.skip(rows@.len() as int)[0] == tagged[k as int]);
                if let Some(c) = cursor_on_piece(row, a, e, len, self.cursor_row, self.cursor_col, width) {
                    cursor = Some((c, rows.len()));
                }
                rows.push(PaneRow { row, start: a, end: e });
                assert(pane_view(rows@) =~= pane_view(before).push((row as nat, (a as int, e as int))));
                assert(all.take(rows@.len() as int) =~= all.take(before.len() as int).push(
                    all[before.len() as int],
                ));
                assert(all.skip(rows@.len() as int) =~= all.skip(before.len() as int).drop_first());
                assert(tagged.skip(k + 1) =~= tagged.skip(k as int).drop_first());
                assert(pane_view(rows@).drop_last() =~= pane_view(before));
                k = k + 1;
            }
            row = row + 1;
        }
        if rows.len() < height {
            assert(all.skip(rows@.len() as int) =~= Seq::<(nat, (int, int))>::empty());
            assert(all =~= all.take(rows@.len() as int));
        }
        (rows, cursor)
    }
}

} // verus!
