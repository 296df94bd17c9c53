//! A scrollable viewport over a matrix of characters. Drawing is split in
//! two: this module computes the text of each screen row, the caller writes
//! it to the terminal.

use vstd::prelude::*;

verus! {

/// A character matrix shown through a scrollable viewport.
pub struct TextRenderer {
    buffer: Vec<Vec<char>>,
    viewport_width: u16,
    viewport_height: u16,
    scroll_x: u16,
    scroll_y: u16,
}

pub open spec fn min_int(a: int, b: int) -> int {
    if a <= b {
        a
    } else {
        b
    }
}

/// `a - b`, or 0 when `b > a`.
pub open spec fn sat_sub(a: int, b: int) -> int {
    if a >= b {
        a - b
    } else {
        0
    }
}

/// The rows of a character matrix as sequences.
pub open spec fn rows_of(m: Seq<Vec<char>>) -> Seq<Seq<char>> {
    m.map_values(|r: Vec<char>| r@)
}

/// `n` spaces.
pub open spec fn spaces(n: int) -> Seq<char> {
    Seq::new(n as nat, |i: int| ' ')
}

/// Text of one screen row: the part of `row` from column `sx` that fits in
/// `width`, padded with spaces to `width`.
pub open spec fn screen_row(row: Seq<char>, sx: int, width: int) -> Seq<char> {
    let end = min_int(sx + width, row.len() as int);
    row.subrange(sx, end) + spaces(width - (end - sx))
}

impl TextRenderer {
    /// The rows of the matrix.
    pub closed spec fn rows(&self) -> Seq<Seq<char>> {
        rows_of(self.buffer@)
    }

    /// Viewport width in columns.
    pub closed spec fn width(&self) -> u16 {
        self.viewport_width
    }

    /// Viewport height in rows.
    pub closed spec fn height(&self) -> u16 {
        self.viewport_height
    }

    /// First matrix column shown.
    pub closed spec fn scroll_col(&self) -> u16 {
        self.scroll_x
    }

    /// First matrix row shown.
    pub closed spec fn scroll_row(&self) -> u16 {
        self.scroll_y
    }

    /// A renderer of a `width` x `height` viewport over a matrix of spaces
    /// of that size.
    pub fn new(width: u16, height: u16) -> (r: Self)
        ensures
            r.rows() == Seq::new(height as nat, |i: int| spaces(width as int)),
            r.width() == width,
            r.height() == height,
            r.scroll_col() == 0,
            r.scroll_row() == 0,
    {
        let mut buffer: Vec<Vec<char>> = Vec::new();
        let mut i: u16 = 0;
        while i < height
            invariant
                i <= height,
                rows_of(buffer@) == Seq::new(i as nat, |k: int| spaces(width as int)),
            decreases height - i,
        {
            let mut row: Vec<char> = Vec::new();
            let mut j: u16 = 0;
            while j < width
                invariant
                    j <= width,
                    row@ == spaces(j as int),
                decreases width - j,
            {
                row.push(' ');
                j = j + 1;
                assert(row@ =~= spaces(j as int));
            }
            let ghost prev = buffer@;
            assert(rows_of(prev).len() == prev.len());
            buffer.push(row);
            i = i + 1;
            assert(buffer@.len() == i);
            assert forall|k: int| 0 <= k < i implies #[trigger] rows_of(buffer@)[k]
                == spaces(width as int) by {
                if k < i - 1 {
                    assert(buffer@[k] == prev[k]);
                    assert(rows_of(prev)[k] == spaces(width as int));
                }
            }
            assert(rows_of(buffer@) =~= Seq::new(i as nat, |k: int| spaces(width as int)));
        }
        TextRenderer {
            buffer,
            viewport_width: width,
            viewport_height: height,
            scroll_x: 0,
            scroll_y: 0,
        }
    }

    /// Replaces the matrix with a copy of `matrix`; the viewport and the
    /// scroll position stay.
    pub fn update_buffer(&mut self, matrix: &[Vec<char>])
        ensures
            final(self).rows() == rows_of(matrix@),
            final(self).width() == old(self).width(),
            final(self).height() == old(self).height(),
            final(self).scroll_col() == old(self).scroll_col(),
            final(self).scroll_row() == old(self).scroll_row(),
    {
        self.buffer.clear();
        let mut i: usize = 0;
        while i < matrix.len()
            invariant
                i <= matrix@.len(),
                rows_of(self.buffer@) == rows_of(matrix@.take(i as int)),
                self.viewport_width == old(self).viewport_width,
                self.viewport_height == old(self).viewport_height,
                self.scroll_x == old(self).scroll_x,
                self.scroll_y == old(self).scroll_y,
            decreases matrix@.len() - i,
        {
            let row = copy_row(&matrix[i]);
            let ghost prev = self.buffer@;
            assert(rows_of(prev).len() == prev.len());
            assert(rows_of(matrix@.take(i as int)).len() == i);
            self.buffer.push(row);
            i = i + 1;
            assert(self.buffer@.len() == i);
            assert forall|k: int| 0 <= k < i implies #[trigger] rows_of(self.buffer@)[k] == rows_of(matrix@.take(i as int))[k] by {
                if k < i - 1 {
                    assert(self.buffer@[k] == prev[k]);
                    assert(rows_of(prev)[k] == rows_of(matrix@.take(i - 1))[k]);
                }
            }
            assert(rows_of(self.buffer@) =~= rows_of(matrix@.take(i as int)));
        }
        assert(matrix@.take(matrix@.len() as int) == matrix@);
    }

    /// Scrolls up by `lines` rows, stopping at the top.
    pub fn scroll_up(&mut self, lines: u16)
        ensures
            final(self).scroll_row() == sat_sub(old(self).scroll_row() as int, lines as int),
            final(self).rows() == old(self).rows(),
            final(self).width() == old(self).width(),
            final(self).height() == old(self).height(),
            final(self).scroll_col() == old(self).scroll_col(),
    {
        self.scroll_y = if self.scroll_y >= lines {
            self.scroll_y - lines
        } else {
            0
        };
    }

    /// Scrolls down by `lines` rows, stopping where the last row of the
    /// matrix reaches the bottom of the viewport (that row limit is taken
    /// modulo 2^16, as a `u16`).
    pub fn scroll_down(&mut self, lines: u16)
        requires
            old(self).scroll_row() + lines <= u16::MAX,
        ensures
            final(self).scroll_row() == min_int(
                old(self).scroll_row() + lines,
                (sat_sub(old(self).rows().len() as int, old(self).height() as int) as u16) as int,
            ),
            final(self).rows() == old(self).rows(),
            final(self).width() == old(self).width(),
            final(self).height() == old(self).height(),
            final(self).scroll_col() == old(self).scroll_col(),
    {
        let height = self.viewport_height as usize;
        let max_scroll = (if self.buffer.len() >= height {
            self.buffer.len() - height
        } else {
            0
        }) as u16;
        let target = self.scroll_y + lines;
        self.scroll_y = if target <= max_scroll {
            target
        } else {
            max_scroll
        };
    }

    /// Scrolls left by `cols` columns, stopping at the left edge.
    pub fn scroll_left(&mut self, cols: u16)
        ensures
            final(self).scroll_col() == sat_sub(old(self).scroll_col() as int, cols as int),
            final(self).rows() == old(self).rows(),
            final(self).width() == old(self).width(),
            final(self).height() == old(self).height(),
            final(self).scroll_row() == old(self).scroll_row(),
    {
        self.scroll_x = if self.scroll_x >= cols {
            self.scroll_x - cols
        } else {
            0
        };
    }

    /// Scrolls right by `cols` columns, stopping where the end of the first
    /// row reaches the right edge of the viewport (that limit is taken modulo
    /// 2^16, as a `u16`).
    pub fn scroll_right(&mut self, cols: u16)
        requires
            old(self).scroll_col() + cols <= u16::MAX,
        ensures
            final(self).scroll_col() == min_int(
                old(self).scroll_col() + cols,
                (sat_sub(
                    if old(self).rows().len() > 0 {
                        old(self).rows()[0].len() as int
                    } else {
                        0
                    },
                    old(self).width() as int,
                ) as u16) as int,
            ),
            final(self).rows() == old(self).rows(),
            final(self).width() == old(self).width(),
            final(self).height() == old(self).height(),
            final(self).scroll_row() == old(self).scroll_row(),
    {
        let max_width = if self.buffer.len() > 0 {
            self.buffer[0].len()
        } else {
            0
        };
        let width = self.viewport_width as usize;
        let max_scroll = (if max_width >= width {
            max_width - width
        } else {
            0
        }) as u16;
        let target = self.scroll_x + cols;
        self.scroll_x = if target <= max_scroll {
            target
        } else {
            max_scroll
        };
    }

    /// Sets the viewport size; the matrix and the scroll position stay.
    pub fn resize(&mut self, width: u16, height: u16)
        ensures
            final(self).width() == width,
            final(self).height() == height,
            final(self).rows() == old(self).rows(),
            final(self).scroll_col() == old(self).scroll_col(),
            final(self).scroll_row() == old(self).scroll_row(),
    {
        self.viewport_width = width;
        self.viewport_height = height;
    }

    /// The text of each screen row of the viewport clipped to `max_width` x
    /// `max_height`: the visible part of each matrix row, padded with spaces
    /// to the clipped width; rows below the matrix are all spaces.
    pub fn render_lines(&self, max_width: u16, max_height: u16) -> (lines: Vec<String>)
        requires
            ({
                let h = min_int(self.height() as int, max_height as int);
                h == 0 || self.scroll_row() + h <= u16::MAX + 1
            }),
            forall|y: int|
                0 <= y < min_int(self.height() as int, max_height as int) && self.scroll_row() + y
                    < self.rows().len() ==> self.scroll_col() <= #[trigger] self.rows()[self.scroll_row() + y].len(),
        ensures
            lines@.len() == min_int(self.height() as int, max_height as int),
            forall|y: int|
                0 <= y < lines@.len() ==> (#[trigger] lines@[y])@ == (if self.scroll_row() + y
                    < self.rows().len() {
                    screen_row(
                        self.rows()[self.scroll_row() + y],
                        self.scroll_col() as int,
                        min_int(self.width() as int, max_width as int),
                    )
                } else {
                    spaces(min_int(self.width() as int, max_width as int))
                }),
    {
        let render_width: u16 = if self.viewport_width <= max_width {
            self.viewport_width
        } else {
            max_width
        };
        let render_height: u16 = if self.viewport_height <= max_height {
            self.viewport_height
        } else {
            max_height
        };
        let ghost rw = render_width as int;
        let mut lines: Vec<String> = Vec::new();
        let mut y: u16 = 0;
        while y < render_height
            invariant
                y <= render_height,
                render_height as int == min_int(self.height() as int, max_height as int),
                rw == min_int(self.width() as int, max_width as int),
                render_width as int == rw,
                render_height == 0 || self.scroll_row() + render_height <= u16::MAX + 1,
                forall|y: int|
                    0 <= y < min_int(self.height() as int, max_height as int) && self.scroll_row()
                        + y < self.rows().len() ==> self.scroll_col() <= #[trigger] self.rows()[self.scroll_row() + y].len(),
                lines@.len() == y,
                forall|k: int|
                    0 <= k < lines@.len() ==> (#[trigger] lines@[k])@ == (if self.scroll_row() + k
                        < self.rows().len() {
                        screen_row(self.rows()[self.scroll_row() + k], self.scroll_col() as int, rw)
                    } else {
                        spaces(rw)
                    }),
            decreases render_height - y,
        {
            let buffer_y = (self.scroll_y + y) as usize;
            let mut line = String::new();
            if buffer_y < self.buffer.len() {
                let row = &self.buffer[buffer_y];
                let start_col = self.scroll_x as usize;
                let end_col = if start_col + (render_width as usize) <= row.len() {
                    start_col + render_width as usize
                } else {
                    row.len()
                };
                proof {
                    assert(self.rows()[buffer_y as int] == row@);
                }
                let mut x = start_col;
                while x < end_col
                    invariant
                        start_col <= x <= end_col,
                        end_col <= row@.len(),
                        line@ == row@.subrange(start_col as int, x as int),
                    decreases end_col - x,
                {
                    line.push(row[x]);
                    x = x + 1;
                    assert(line@ =~= row@.subrange(start_col as int, x as int));
                }
                let written = end_col - start_col;
                let ghost before = line@;
                let mut k = written;
                while k < render_width as usize
                    invariant
                        written <= k <= render_width as usize || (k == written && written >= render_width as usize),
                        line@ == before + spaces(k - written),
                    decreases render_width as usize - k,
                {
                    line.push(' ');
                    k = k + 1;
                    assert(line@ =~= before + spaces(k - written));
                }
                proof {
                    assert(line@ =~= screen_row(row@, start_col as int, rw));
                }
            } else {
                let mut k: usize = 0;
                while k < render_width as usize
                    invariant
                        k <= render_width as usize,
                        line@ == spaces(k as int),
                    decreases render_width as usize - k,
                {
                    line.push(' ');
                    k = k + 1;
                    assert(line@ =~= spaces(k as int));
                }
            }
            lines.push(line);
            y = y + 1;
        }
        lines
    }
}

/// Whether screen cell `(y, x)` lies in one of the highlighted ranges
/// `(start_y, start_x, end_y, end_x)` (row-major, both ends included).
pub open spec fn highlighted_spec(highlights: Seq<(usize, usize, usize, usize)>, y: int, x: int) -> bool {
    exists|i: int|
        0 <= i < highlights.len() && {
            let (sy, sx, ey, ex) = #[trigger] highlights[i];
            (y > sy || (y == sy && x >= sx)) && (y < ey || (y == ey && x <= ex))
        }
}

/// Whether matrix cell `(y, x)` is highlighted by one of the ranges.
pub fn is_highlighted(highlights: &[(usize, usize, usize, usize)], y: usize, x: usize) -> (b: bool)
    ensures
        b == highlighted_spec(highlights@, y as int, x as int),
{
    let mut i: usize = 0;
    while i < highlights.len()
        invariant
            i <= highlights@.len(),
            forall|j: int|
                0 <= j < i ==> !({
                    let (sy, sx, ey, ex) = #[trigger] highlights@[j];
                    (y > sy || (y == sy && x >= sx)) && (y < ey || (y == ey && x <= ex))
                }),
        decreases highlights@.len() - i,
    {
        let (sy, sx, ey, ex) = highlights[i];
        if (y > sy || (y == sy && x >= sx)) && (y < ey || (y == ey && x <= ex)) {
            return true;
        }
        i = i + 1;
    }
    false
}

fn copy_row(row: &Vec<char>) -> (r: Vec<char>)
    ensures
        r@ == row@,
{
    let mut r: Vec<char> = Vec::new();
    let mut i: usize = 0;
    while i < row.len()
        invariant
            i <= row@.len(),
            r@ == row@.take(i as int),
        decreases row@.len() - i,
    {
        r.push(row[i]);
        i = i + 1;
        assert(r@ =~= row@.take(i as int));
    }
    assert(row@.take(row@.len() as int) == row@);
    r
}

/// The cells of one screen row with highlighting: the visible part of
/// matrix row `by` from column `sx`, each cell marked when a range covers
/// it, padded to `width` with unmarked spaces.
pub open spec fn highlight_row(
    hs: Seq<(usize, usize, usize, usize)>,
    row: Seq<char>,
    by: int,
    sx: int,
    width: int,
) -> Seq<(char, bool)> {
    let end = min_int(sx + width, row.len() as int);
    Seq::new((end - sx) as nat, |i: int| (row[sx + i], highlighted_spec(hs, by, sx + i))) + Seq::new(
        (width - (end - sx)) as nat,
        |i: int| (' ', false),
    )
}

impl TextRenderer {
    /// The cells of each screen row of the viewport, each marked when one
    /// of the ranges `(start_y, start_x, end_y, end_x)` covers it (see
    /// `highlight_row`); rows below the matrix are unmarked spaces.
    pub fn highlighted_rows(&self, highlights: &[(usize, usize, usize, usize)]) -> (rows: Vec<Vec<(char, bool)>>)
        requires
            self.height() == 0 || self.scroll_row() + self.height() <= u16::MAX + 1,
            forall|y: int|
                0 <= y < self.height() && self.scroll_row() + y < self.rows().len() ==> self.scroll_col()
                    <= #[trigger] self.rows()[self.scroll_row() + y].len(),
        ensures
            rows@.len() == self.height(),
            forall|y: int|
                0 <= y < rows@.len() ==> (#[trigger] rows@[y])@ == (if self.scroll_row() + y
                    < self.rows().len() {
                    highlight_row(
                        highlights@,
                        self.rows()[self.scroll_row() + y],
                        self.scroll_row() + y,
                        self.scroll_col() as int,
                        self.width() as int,
                    )
                } else {
                    Seq::new(self.width() as nat, |i: int| (' ', false))
                }),
    {
        let width = self.viewport_width as usize;
        let mut rows: Vec<Vec<(char, bool)>> = Vec::new();
        let mut y: u16 = 0;
        while y < self.viewport_height
            invariant
                y <= self.viewport_height,
                width == self.width(),
                self.height() == 0 || self.scroll_row() + self.height() <= u16::MAX + 1,
                forall|y: int|
                    0 <= y < self.height() && self.scroll_row() + y < self.rows().len() ==> self.scroll_col()
                        <= #[trigger] self.rows()[self.scroll_row() + y].len(),
                rows@.len() == y,
                forall|k: int|
                    0 <= k < rows@.len() ==> (#[trigger] rows@[k])@ == (if self.scroll_row() + k
                        < self.rows().len() {
                        highlight_row(
                            highlights@,
                            self.rows()[self.scroll_row() + k],
                            self.scroll_row() + k,
                            self.scroll_col() as int,
                            self.width() as int,
                        )
                    } else {
                        Seq::new(self.width() as nat, |i: int| (' ', false))
                    }),
            decreases self.viewport_height - y,
        {
            let buffer_y = (self.scroll_y + y) as usize;
            let mut cells: Vec<(char, bool)> = Vec::new();
            if buffer_y < self.buffer.len() {
                let row = &self.buffer[buffer_y];
                let start_col = self.scroll_x as usize;
                let end_col = if start_col + width <= row.len() {
                    start_col + width
                } else {
                    row.len()
                };
                proof {
                    assert(self.rows()[buffer_y as int] == row@);
                }
                let ghost want = highlight_row(highlights@, row@, buffer_y as int, start_col as int, width as int);
                let mut x = start_col;
                while x < end_col
                    invariant
                        start_col <= x <= end_col,
                        end_col <= row@.len(),
                        end_col == min_int(start_col + width, row@.len() as int),
                        want == highlight_row(highlights@, row@, buffer_y as int, start_col as int, width as int),
                        cells@ == want.take(x - start_col),
                    decreases end_col - x,
                {
                    let h = is_highlighted(highlights, buffer_y, x);
                    cells.push((row[x], h));
                    x = x + 1;
                    assert(cells@ =~= want.take(x - start_col));
                }
                let mut k = end_col - start_col;
                while k < width
                    invariant
                        end_col - start_col <= k <= width || (k == end_col - start_col && k >= width),
                        end_col <= row@.len(),
                        start_col <= end_col,
                        end_col == min_int(start_col + width, row@.len() as int),
                        want == highlight_row(highlights@, row@, buffer_y as int, start_col as int, width as int),
                        cells@ == want.take(k as int),
                    decreases width - k,
                {
                    cells.push((' ', false));
                    k = k + 1;
                    assert(cells@ =~= want.take(k as int));
                }
                assert(cells@ =~= want);
            } else {
                let mut k: usize = 0;
                while k < width
                    invariant
                        k <= width,
                        cells@ == Seq::new(k as nat, |i: int| (' ', false)),
                    decreases width - k,
                {
                    cells.push((' ', false));
                    k = k + 1;
                    assert(cells@ =~= Seq::new(k as nat, |i: int| (' ', false)));
                }
            }
            rows.push(cells);
            y = y + 1;
        }
        rows
    }
}

impl TextRenderer {
    /// Whether the first `max_height` rows of the viewport can be drawn:
    /// their row numbers fit in 16 bits, and no visible row of the matrix
    /// is shorter than the first column shown.
    pub fn view_fits(&self, max_height: u16) -> (b: bool)
        ensures
            b == ({
                let h = min_int(self.height() as int, max_height as int);
                &&& (h == 0 || self.scroll_row() + h <= u16::MAX + 1)
                &&& forall|y: int|
                    0 <= y < h && self.scroll_row() + y < self.rows().len() ==> self.scroll_col()
                        <= #[trigger] self.rows()[self.scroll_row() + y].len()
            }),
    {
        let h: u16 = if self.viewport_height <= max_height {
            self.viewport_height
        } else {
            max_height
        };
        if h > 0 && (self.scroll_y as u32) + (h as u32) > 65536 {
            return false;
        }
        let mut y: u16 = 0;
        while y < h
            invariant
                y <= h,
                h as int == min_int(self.height() as int, max_height as int),
                h == 0 || self.scroll_row() + h <= u16::MAX + 1,
                forall|k: int|
                    0 <= k < y && self.scroll_row() + k < self.rows().len() ==> self.scroll_col()
                        <= #[trigger] self.rows()[self.scroll_row() + k].len(),
            decreases h - y,
        {
            let buffer_y = (self.scroll_y + y) as usize;
            if buffer_y < self.buffer.len() {
                proof {
                    assert(self.rows()[buffer_y as int] == self.buffer@[buffer_y as int]@);
                }
                if self.buffer[buffer_y].len() < self.scroll_x as usize {
                    return false;
                }
            }
            y = y + 1;
        }
        true
    }
}

} // verus!
