//! Character matrices: placing text into a grid of characters, and turning
//! a grid back into text.

use crate::text_filter::{is_whitespace_spec, trim_end_spec};
use vstd::prelude::*;

verus! {

/// The rows of a matrix as character sequences.
pub open spec fn rows_of(m: Seq<Vec<char>>) -> Seq<Seq<char>> {
    m.map_values(|r: Vec<char>| r@)
}

/// The text of the first `k` rows: each row without its trailing
/// whitespace, followed by a newline.
pub open spec fn matrix_text(rows: Seq<Seq<char>>, k: nat) -> Seq<char>
    decreases k,
{
    if k == 0 {
        Seq::empty()
    } else {
        matrix_text(rows, (k - 1) as nat) + trim_end_spec(rows[k - 1]).push('\n')
    }
}

/// The text of a character matrix: one line per row, in order, each with
/// its trailing whitespace removed and followed by a newline.
pub fn matrix_to_string(matrix: &[Vec<char>]) -> (r: String)
    ensures
        r@ == matrix_text(rows_of(matrix@), matrix@.len()),
{
    let mut acc: Vec<char> = Vec::new();
    let mut i: usize = 0;
    while i < matrix.len()
        invariant
            i <= matrix@.len(),
            acc@ == matrix_text(rows_of(matrix@), i as nat),
        decreases matrix@.len() - i,
    {
        let row = &matrix[i];
        assert(rows_of(matrix@)[i as int] == row@);
        let mut n = row.len();
        assert(row@.take(n as int) =~= row@);
        while n > 0 && crate::text_filter::is_whitespace_char(row[n - 1])
            invariant
                n <= row@.len(),
                trim_end_spec(row@) == trim_end_spec(row@.take(n as int)),
            decreases n,
        {
            assert(row@.take(n as int).drop_last() =~= row@.take(n - 1));
            n = n - 1;
        }
        proof {
            if n > 0 {
                assert(!is_whitespace_spec(row@.take(n as int).last()));
            }
            assert(trim_end_spec(row@.take(n as int)) == row@.take(n as int));
        }
        let ghost start = acc@;
        let mut j: usize = 0;
        while j < n
            invariant
                j <= n <= row@.len(),
                acc@ == start + row@.take(j as int),
            decreases n - j,
        {
            acc.push(row[j]);
            assert(start + row@.take(j + 1) =~= (start + row@.take(j as int)).push(row@[j as int]));
            j = j + 1;
        }
        acc.push('\n');
        assert(acc@ =~= matrix_text(rows_of(matrix@), (i + 1) as nat));
        i = i + 1;
    }
    let mut r = String::new();
    let mut k: usize = 0;
    while k < acc.len()
        invariant
            k <= acc@.len(),
            r@ == acc@.take(k as int),
        decreases acc@.len() - k,
    {
        r.push(acc[k]);
        assert(acc@.take(k + 1) =~= acc@.take(k as int).push(acc@[k as int]));
        k = k + 1;
    }
    assert(acc@.take(acc@.len() as int) =~= acc@);
    r
}

/// Where placing text has reached: the column, the row, and whether it has
/// stopped.
pub struct PlaceState {
    pub x: int,
    pub y: int,
    pub done: bool,
}

/// One character placed: a newline starts the next row at `x0` (stopping
/// past the last row); past the right edge placing wraps to the next row
/// when there is one and stops otherwise; a character inside the area is
/// written and the column moves on.
pub open spec fn place_step(g: Seq<Seq<char>>, st: PlaceState, ch: char, x0: int, mw: int, mh: int) -> (
    Seq<Seq<char>>,
    PlaceState,
) {
    if st.done {
        (g, st)
    } else if ch == '\n' {
        (g, PlaceState { x: x0, y: st.y + 1, done: st.y + 1 >= mh })
    } else {
        let (x, y, stop) = if st.x >= mw || st.y >= mh {
            if st.x >= mw && st.y + 1 < mh {
                (x0, st.y + 1, false)
            } else {
                (st.x, st.y, true)
            }
        } else {
            (st.x, st.y, false)
        };
        if stop {
            (g, PlaceState { x, y, done: true })
        } else if x < mw && y < mh {
            (g.update(y, g[y].update(x, ch)), PlaceState { x: x + 1, y, done: false })
        } else {
            (g, PlaceState { x, y, done: false })
        }
    }
}

/// The grid and state after placing every character of `text`.
pub open spec fn place_all(g: Seq<Seq<char>>, st: PlaceState, text: Seq<char>, x0: int, mw: int, mh: int) -> (
    Seq<Seq<char>>,
    PlaceState,
)
    decreases text.len(),
{
    if text.len() == 0 {
        (g, st)
    } else {
        let (g2, st2) = place_all(g, st, text.drop_last(), x0, mw, mh);
        place_step(g2, st2, text.last(), x0, mw, mh)
    }
}

/// While placing has not stopped, the row is within the area or still the
/// starting one, and the column at most one past the right edge or still
/// the starting one.
pub open spec fn place_bounds(st: PlaceState, x0: int, y0: int, mw: int, mh: int) -> bool {
    !st.done ==> ((st.y < mh || st.y == y0) && (st.x <= mw || st.x == x0) && st.y >= y0)
}

/// Places `text` into `grid` from `(x_start, y_start)` inside the area of
/// `max_width` columns and `max_height` rows (see `place_step`).
pub fn place_text_on_grid_spatial(
    grid: &mut Vec<Vec<char>>,
    text: &str,
    x_start: usize,
    y_start: usize,
    max_width: usize,
    max_height: usize,
)
    requires
        y_start < usize::MAX,
        old(grid)@.len() >= max_height,
        forall|r: int| 0 <= r < max_height ==> #[trigger] old(grid)@[r]@.len() >= max_width,
    ensures
        rows_of(final(grid)@) == place_all(
            rows_of(old(grid)@),
            PlaceState { x: x_start as int, y: y_start as int, done: false },
            text@,
            x_start as int,
            max_width as int,
            max_height as int,
        ).0,
{
    let ghost g0 = rows_of(grid@);
    let ghost s = text@;
    let mut x = x_start;
    let mut y = y_start;
    let mut done = false;
    for ch in it: text.chars()
        invariant
            it.seq() == s,
            y_start < usize::MAX,
            grid@.len() == old(grid)@.len(),
            grid@.len() >= max_height,
            forall|r: int| 0 <= r < max_height ==> #[trigger] grid@[r]@.len() >= max_width,
            place_bounds(PlaceState { x: x as int, y: y as int, done }, x_start as int, y_start as int, max_width as int, max_height as int),
            (rows_of(grid@), PlaceState { x: x as int, y: y as int, done }) == place_all(
                g0,
                PlaceState { x: x_start as int, y: y_start as int, done: false },
                s.take(it.index() as int),
                x_start as int,
                max_width as int,
                max_height as int,
            ),
    {
        proof {
            assert(s.take(it.index() + 1).drop_last() =~= s.take(it.index() as int));
            assert(s.take(it.index() + 1).last() == ch);
        }
        if !done {
            if ch == '\n' {
                y = y + 1;
                x = x_start;
                done = y >= max_height;
            } else {
                if x >= max_width || y >= max_height {
                    if x >= max_width && y + 1 < max_height {
                        y = y + 1;
                        x = x_start;
                    } else {
                        done = true;
                    }
                }
                if !done && x < max_width && y < max_height {
                    let ghost before = grid@;
                    grid[y][x] = ch;
                    assert(rows_of(grid@) =~= rows_of(before).update(
                        y as int,
                        rows_of(before)[y as int].update(x as int, ch),
                    ));
                    x = x + 1;
                }
            }
        }
    }
    assert(s.take(s.len() as int) =~= s);
}

} // verus!
