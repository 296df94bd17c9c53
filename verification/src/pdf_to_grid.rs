//! The character grid that a page's text is laid out on: text blocks
//! placed cell by cell, wrapped at their block's width and kept off cells
//! already taken; table borders drawn in box characters; the grid read
//! back as text. Where on the grid a block of the page goes is decided by
//! the caller, which maps the page's coordinates to cells.

use crate::text_format::chars_of;
use grid::Grid;
use vstd::prelude::*;

verus! {

/// What a cell of the grid holds.
#[derive(Clone, Copy, Debug)]
pub enum CellContent {
    Empty,
    Char(char),
    BoxDrawing(char),  // table borders
}

impl Default for CellContent {
    fn default() -> (c: Self)
        ensures
            c == CellContent::Empty,
    {
        CellContent::Empty
    }
}

/// `grid::Grid`, a rectangle of cells stored row by row.
#[verifier::external_type_specification]
#[verifier::external_body]
#[verifier::reject_recursive_types(T)]
pub struct ExGrid<T>(Grid<T>);

/// The cells of a grid, row by row.
pub uninterp spec fn grid_cells(g: Grid<CellContent>) -> Seq<Seq<CellContent>>;

/// The number of columns of a grid.
pub uninterp spec fn grid_width(g: Grid<CellContent>) -> nat;

/// `Grid::new`: `rows` rows of `cols` cells, each the default (empty);
/// a grid with neither rows nor columns when either count is 0. The
/// source panics when `rows * cols` overflows.
#[verifier::external_body]
fn new_grid(rows: usize, cols: usize) -> (g: Grid<CellContent>)
    requires
        rows * cols <= usize::MAX,
    ensures
        rows == 0 || cols == 0 ==> grid_cells(g) == Seq::<Seq<CellContent>>::empty() && grid_width(g)
            == 0,
        rows > 0 && cols > 0 ==> grid_cells(g) == Seq::new(
            rows as nat,
            |r: int| Seq::new(cols as nat, |c: int| CellContent::Empty),
        ) && grid_width(g) == cols,
{
    Grid::new(rows, cols)
}

/// `Grid::rows`: the number of rows.
#[verifier::external_body]
fn grid_rows(g: &Grid<CellContent>) -> (n: usize)
    ensures
        n == grid_cells(*g).len(),
{
    g.rows()
}

/// `Grid::cols`: the number of columns.
#[verifier::external_body]
fn grid_cols(g: &Grid<CellContent>) -> (n: usize)
    ensures
        n == grid_width(*g),
{
    g.cols()
}

/// `Grid`'s index: the cell at `(row, col)`. The source panics outside
/// the grid.
#[verifier::external_body]
fn cell_at(g: &Grid<CellContent>, row: usize, col: usize) -> (c: &CellContent)
    requires
        row < grid_cells(*g).len(),
        col < grid_width(*g),
    ensures
        *c == grid_cells(*g)[row as int][col as int],
{
    &g[(row, col)]
}

/// `Grid`'s mutable index: the cell at `(row, col)` set to `v`, the others
/// and the size unchanged. The source panics outside the grid.
#[verifier::external_body]
fn set_cell(g: &mut Grid<CellContent>, row: usize, col: usize, v: CellContent)
    requires
        row < grid_cells(*old(g)).len(),
        col < grid_width(*old(g)),
    ensures
        grid_cells(*final(g)) == grid_cells(*old(g)).update(
            row as int,
            grid_cells(*old(g))[row as int].update(col as int, v),
        ),
        grid_width(*final(g)) == grid_width(*old(g)),
{
    g[(row, col)] = v;
}

/// The character a cell shows: a space when it is empty.
pub open spec fn cell_char(c: CellContent) -> char {
    match c {
        CellContent::Empty => ' ',
        CellContent::Char(ch) => ch,
        CellContent::BoxDrawing(ch) => ch,
    }
}

/// The grid after one more character of a block is placed at `(row,
/// col)`, with the row and column of the next: a newline moves to the
/// block's first column on the next row; another character fills the cell
/// when it is in the grid and empty (or overlap is allowed), and the next
/// goes to its right, or to the next row when that is past the grid or
/// past the block's `span` columns.
pub open spec fn place_char(
    st: (Seq<Seq<CellContent>>, int, int),
    ch: char,
    start_col: int,
    span: int,
    cols: int,
    allow: bool,
) -> (Seq<Seq<CellContent>>, int, int) {
    let (cells, row, col) = st;
    if ch == '\n' {
        (cells, row + 1, start_col)
    } else {
        let filled = if row < cells.len() && col < cols && (cells[row][col] is Empty || allow) {
            cells.update(row, cells[row].update(col, CellContent::Char(ch)))
        } else {
            cells
        };
        if col + 1 >= cols || col + 1 >= start_col + span {
            (filled, row + 1, start_col)
        } else {
            (filled, row, col + 1)
        }
    }
}

/// The grid after the characters of `text` are placed one by one from
/// `(start_row, start_col)` (see `place_char`), with where the next would
/// go.
pub open spec fn placed_text(
    cells: Seq<Seq<CellContent>>,
    text: Seq<char>,
    start_col: int,
    start_row: int,
    span: int,
    cols: int,
    allow: bool,
) -> (Seq<Seq<CellContent>>, int, int)
    decreases text.len(),
{
    if text.len() == 0 {
        (cells, start_row, start_col)
    } else {
        place_char(
            placed_text(cells, text.drop_last(), start_col, start_row, span, cols, allow),
            text.last(),
            start_col,
            span,
            cols,
            allow,
        )
    }
}

/// A row of cells as the characters they show, then a newline.
pub open spec fn row_text(row: Seq<CellContent>) -> Seq<char> {
    row.map_values(|c: CellContent| cell_char(c)).push('\n')
}

/// The grid as text: each row's characters and a newline.
pub open spec fn grid_text(cells: Seq<Seq<CellContent>>) -> Seq<char>
    decreases cells.len(),
{
    if cells.len() == 0 {
        Seq::empty()
    } else {
        grid_text(cells.drop_last()) + row_text(cells.last())
    }
}

/// `cells` after each write of `writes`, in order, puts its value in its
/// cell.
pub open spec fn write_cells(cells: Seq<Seq<CellContent>>, writes: Seq<(int, int, CellContent)>) -> Seq<
    Seq<CellContent>,
>
    decreases writes.len(),
{
    if writes.len() == 0 {
        cells
    } else {
        let w = writes.last();
        let before = write_cells(cells, writes.drop_last());
        before.update(w.0, before[w.0].update(w.1, w.2))
    }
}

/// The horizontal edges of a table between columns `from` and `to`
/// (excluded), on its top and bottom rows, column by column.
pub open spec fn hline_writes(top: int, bottom: int, from: int, to: int) -> Seq<(int, int, CellContent)>
    decreases to - from,
{
    if to <= from {
        Seq::empty()
    } else {
        hline_writes(top, bottom, from, to - 1).push((top, to - 1, CellContent::BoxDrawing('─'))).push(
            (bottom, to - 1, CellContent::BoxDrawing('─')),
        )
    }
}

/// The vertical edges of a table between rows `from` and `to` (excluded),
/// on its left and right columns, row by row.
pub open spec fn vline_writes(left: int, right: int, from: int, to: int) -> Seq<(int, int, CellContent)>
    decreases to - from,
{
    if to <= from {
        Seq::empty()
    } else {
        vline_writes(left, right, from, to - 1).push((to - 1, left, CellContent::BoxDrawing('│'))).push(
            (to - 1, right, CellContent::BoxDrawing('│')),
        )
    }
}

/// A table's border: the four corners, then the top and bottom edges,
/// then the left and right ones.
pub open spec fn border_writes(left: int, top: int, right: int, bottom: int) -> Seq<(int, int, CellContent)> {
    seq![
        (top, left, CellContent::BoxDrawing('┌')),
        (top, right, CellContent::BoxDrawing('┐')),
        (bottom, left, CellContent::BoxDrawing('└')),
        (bottom, right, CellContent::BoxDrawing('┘')),
    ] + hline_writes(top, bottom, left + 1, right) + vline_writes(left, right, top + 1, bottom)
}

/// The first `k` characters of a cell's text from `(y, x)` rightwards,
/// those that fall inside the grid.
pub open spec fn text_writes(text: Seq<char>, y: int, x: int, k: int, rows: int, cols: int) -> Seq<
    (int, int, CellContent),
>
    decreases k,
{
    if k <= 0 {
        Seq::empty()
    } else {
        let before = text_writes(text, y, x, k - 1, rows, cols);
        if y < rows && x + k - 1 < cols {
            before.push((y, x + k - 1, char_cell(text[k - 1])))
        } else {
            before
        }
    }
}

/// A cell holding the character `c` of a text.
pub open spec fn char_cell(c: char) -> CellContent {
    CellContent::Char(c)
}

/// The smaller of two numbers.
pub open spec fn min_int(a: int, b: int) -> int {
    if a < b {
        a
    } else {
        b
    }
}

/// The texts of the first `k` cells of a table row on grid row `y`, the
/// cells `cpc` columns apart from the column after `left`, each cut to
/// `cpc - 1` characters.
pub open spec fn row_writes(row: Seq<Seq<char>>, y: int, left: int, cpc: int, k: int, rows: int, cols: int) -> Seq<
    (int, int, CellContent),
>
    decreases k,
{
    if k <= 0 {
        Seq::empty()
    } else {
        row_writes(row, y, left, cpc, k - 1, rows, cols) + text_writes(
            row[k - 1],
            y,
            left + 1 + (k - 1) * cpc,
            min_int(cpc - 1, row[k - 1].len() as int),
            rows,
            cols,
        )
    }
}

/// The texts of the first `k` rows of a table, the rows `rpc` grid rows
/// apart from the row after `top`.
pub open spec fn cells_writes(
    cells: Seq<Seq<Seq<char>>>,
    top: int,
    left: int,
    rpc: int,
    cpc: int,
    k: int,
    rows: int,
    cols: int,
) -> Seq<(int, int, CellContent)>
    decreases k,
{
    if k <= 0 {
        Seq::empty()
    } else {
        cells_writes(cells, top, left, rpc, cpc, k - 1, rows, cols) + row_writes(
            cells[k - 1],
            top + 1 + (k - 1) * rpc,
            left,
            cpc,
            cells[k - 1].len() as int,
            rows,
            cols,
        )
    }
}

/// The grid columns of a table cell: the table's width shared by the
/// cells of its first row (all of it when that row is empty).
pub open spec fn cell_cols(left: int, right: int, cells: Seq<Seq<Seq<char>>>) -> int {
    if cells.len() > 0 && cells[0].len() > 0 {
        (right - left) / (cells[0].len() as int)
    } else {
        right - left
    }
}

/// The grid rows of a table row: the table's height shared by its rows.
pub open spec fn cell_rows(top: int, bottom: int, cells: Seq<Seq<Seq<char>>>) -> int {
    (bottom - top) / (cells.len() as int)
}

/// Everything a table puts on the grid, in order: its border, then the
/// text of each cell, row by row.
pub open spec fn table_writes(
    left: int,
    top: int,
    right: int,
    bottom: int,
    cells: Seq<Seq<Seq<char>>>,
    rows: int,
    cols: int,
) -> Seq<(int, int, CellContent)> {
    if cells.len() == 0 {
        border_writes(left, top, right, bottom)
    } else {
        border_writes(left, top, right, bottom) + cells_writes(
            cells,
            top,
            left,
            cell_rows(top, bottom, cells),
            cell_cols(left, right, cells),
            cells.len() as int,
            rows,
            cols,
        )
    }
}

/// The texts of a table as plain values.
pub open spec fn table_text(cells: Seq<Vec<String>>) -> Seq<Seq<Seq<char>>> {
    cells.map_values(|row: Vec<String>| row@.map_values(|t: String| t@))
}

/// A table can be drawn: its corners are cells of the grid, and a cell
/// with text is at least one column wide (and ends within `usize`).
pub open spec fn table_fits(
    left: int,
    top: int,
    right: int,
    bottom: int,
    cells: Seq<Seq<Seq<char>>>,
    rows: int,
    cols: int,
) -> bool {
    &&& left <= right < cols
    &&& top <= bottom < rows
    &&& forall|r: int|
        0 <= r < cells.len() && #[trigger] cells[r].len() > 0 ==> cell_cols(left, right, cells) >= 1
            && left + cells[r].len() * cell_cols(left, right, cells) <= usize::MAX
}

/// A grid of `rows` rows of `cols` empty cells; none when either is 0.
pub open spec fn empty_cells(rows: int, cols: int) -> Seq<Seq<CellContent>> {
    if rows == 0 || cols == 0 {
        Seq::empty()
    } else {
        Seq::new(rows as nat, |r: int| Seq::new(cols as nat, |c: int| CellContent::Empty))
    }
}

/// Every row of `cells` has `width` cells.
pub open spec fn shaped(cells: Seq<Seq<CellContent>>, width: int) -> bool {
    forall|r: int| 0 <= r < cells.len() ==> #[trigger] cells[r].len() == width
}

/// Puts `ch` in the cell at `(row, col)` when it is in the grid and empty,
/// or overlap is allowed (see `place_char`).
fn fill_cell(grid: &mut Grid<CellContent>, row: usize, col: usize, ch: char, allow: bool)
    requires
        shaped(grid_cells(*old(grid)), grid_width(*old(grid)) as int),
    ensures
        shaped(grid_cells(*final(grid)), grid_width(*final(grid)) as int),
        grid_width(*final(grid)) == grid_width(*old(grid)),
        grid_cells(*final(grid)).len() == grid_cells(*old(grid)).len(),
        grid_cells(*final(grid)) == (if row < grid_cells(*old(grid)).len() && col < grid_width(*old(grid))
            && (grid_cells(*old(grid))[row as int][col as int] is Empty || allow) {
            grid_cells(*old(grid)).update(
                row as int,
                grid_cells(*old(grid))[row as int].update(col as int, CellContent::Char(ch)),
            )
        } else {
            grid_cells(*old(grid))
        }),
{
    let rows = grid_rows(grid);
    let cols = grid_cols(grid);
    if row < rows && col < cols {
        let current: CellContent = *cell_at(grid, row, col);
        let free = match current {
            CellContent::Empty => true,
            _ => allow,
        };
        if free {
            let ghost before = grid_cells(*grid);
            set_cell(grid, row, col, CellContent::Char(ch));
            assert forall|r: int| 0 <= r < grid_cells(*grid).len() implies #[trigger] grid_cells(
                *grid,
            )[r].len() == cols by {
                assert(before[r].len() == cols);
            }
        }
    }
}

/// Places a text block on `grid` (see `placed_text`).
fn place_on(grid: &mut Grid<CellContent>, allow: bool, text: &str, start_col: usize, start_row: usize, span: usize)
    requires
        shaped(grid_cells(*old(grid)), grid_width(*old(grid)) as int),
        start_col < usize::MAX,
        start_col + span <= usize::MAX,
        start_row + text@.len() <= usize::MAX,
    ensures
        shaped(grid_cells(*final(grid)), grid_width(*final(grid)) as int),
        grid_width(*final(grid)) == grid_width(*old(grid)),
        grid_cells(*final(grid)) == placed_text(
            grid_cells(*old(grid)),
            text@,
            start_col as int,
            start_row as int,
            span as int,
            grid_width(*old(grid)) as int,
            allow,
        ).0,
{
    let rows = grid_rows(grid);
    let cols = grid_cols(grid);
    let ghost start = grid_cells(*grid);
    let chars = chars_of(text);
    let mut row = start_row;
    let mut col = start_col;
    let mut k: usize = 0;
    while k < chars.len()
        invariant
            chars@ == text@,
            k <= chars@.len(),
            shaped(grid_cells(*grid), cols as int),
            rows == grid_cells(*grid).len(),
            cols == grid_width(*grid),
            start_col < usize::MAX,
            start_col + span <= usize::MAX,
            start_row + text@.len() <= usize::MAX,
            row <= start_row + k,
            start_col <= col,
            col == start_col || col < start_col + span,
            (grid_cells(*grid), row as int, col as int) == placed_text(
                start,
                text@.take(k as int),
                start_col as int,
                start_row as int,
                span as int,
                cols as int,
                allow,
            ),
        decreases chars@.len() - k,
    {
        let ch = chars[k];
        assert(text@.take(k + 1).drop_last() =~= text@.take(k as int));
        assert(text@.take(k + 1).last() == ch);
        if ch == '\n' {
            row = row + 1;
            col = start_col;
        } else {
            fill_cell(grid, row, col, ch, allow);
            col = col + 1;
            if col >= cols || col >= start_col + span {
                row = row + 1;
                col = start_col;
            }
        }
        k = k + 1;
    }
    assert(text@.take(text@.len() as int) =~= text@);
}

/// Sets the cell at `(row, col)` of a grid whose rows are all as wide.
fn put(grid: &mut Grid<CellContent>, row: usize, col: usize, v: CellContent)
    requires
        shaped(grid_cells(*old(grid)), grid_width(*old(grid)) as int),
        row < grid_cells(*old(grid)).len(),
        col < grid_width(*old(grid)),
    ensures
        shaped(grid_cells(*final(grid)), grid_width(*final(grid)) as int),
        grid_width(*final(grid)) == grid_width(*old(grid)),
        grid_cells(*final(grid)).len() == grid_cells(*old(grid)).len(),
        grid_cells(*final(grid)) == grid_cells(*old(grid)).update(
            row as int,
            grid_cells(*old(grid))[row as int].update(col as int, v),
        ),
{
    let ghost before = grid_cells(*grid);
    set_cell(grid, row, col, v);
    assert forall|r: int| 0 <= r < grid_cells(*grid).len() implies #[trigger] grid_cells(*grid)[r].len()
        == grid_width(*grid) by {
        assert(before[r].len() == grid_width(*grid));
    }
}

/// Sets the cell at `(row, col)` when it is in the grid; else leaves the
/// grid as it is.
fn put_inside(grid: &mut Grid<CellContent>, row: usize, col: usize, v: CellContent)
    requires
        shaped(grid_cells(*old(grid)), grid_width(*old(grid)) as int),
    ensures
        shaped(grid_cells(*final(grid)), grid_width(*final(grid)) as int),
        grid_width(*final(grid)) == grid_width(*old(grid)),
        grid_cells(*final(grid)).len() == grid_cells(*old(grid)).len(),
        grid_cells(*final(grid)) == (if row < grid_cells(*old(grid)).len() && col < grid_width(*old(grid)) {
            grid_cells(*old(grid)).update(row as int, grid_cells(*old(grid))[row as int].update(col as int, v))
        } else {
            grid_cells(*old(grid))
        }),
{
    if row < grid_rows(grid) && col < grid_cols(grid) {
        put(grid, row, col, v);
    }
}

/// `put` as one more write of a sequence.
proof fn lemma_write_step(cells: Seq<Seq<CellContent>>, writes: Seq<(int, int, CellContent)>, w: (int, int, CellContent))
    ensures
        write_cells(cells, writes.push(w)) == write_cells(cells, writes).update(
            w.0,
            write_cells(cells, writes)[w.0].update(w.1, w.2),
        ),
{
    assert(writes.push(w).drop_last() =~= writes);
}

/// Draws a table on `grid` (see `table_writes`).
#[verifier::rlimit(40)]
fn draw_on(grid: &mut Grid<CellContent>, left: usize, top: usize, right: usize, bottom: usize, cells: &Vec<Vec<String>>)
    requires
        shaped(grid_cells(*old(grid)), grid_width(*old(grid)) as int),
        table_fits(
            left as int,
            top as int,
            right as int,
            bottom as int,
            table_text(cells@),
            grid_cells(*old(grid)).len() as int,
            grid_width(*old(grid)) as int,
        ),
    ensures
        shaped(grid_cells(*final(grid)), grid_width(*final(grid)) as int),
        grid_width(*final(grid)) == grid_width(*old(grid)),
        grid_cells(*final(grid)) == write_cells(
            grid_cells(*old(grid)),
            table_writes(
                left as int,
                top as int,
                right as int,
                bottom as int,
                table_text(cells@),
                grid_cells(*old(grid)).len() as int,
                grid_width(*old(grid)) as int,
            ),
        ),
{
    let rows = grid_rows(grid);
    let cols = grid_cols(grid);
    let ghost start = grid_cells(*grid);
    let ghost texts = table_text(cells@);
    let ghost mut writes: Seq<(int, int, CellContent)> = Seq::empty();
    let corners: [(usize, usize, CellContent); 4] = [
        (top, left, CellContent::BoxDrawing('┌')),
        (top, right, CellContent::BoxDrawing('┐')),
        (bottom, left, CellContent::BoxDrawing('└')),
        (bottom, right, CellContent::BoxDrawing('┘')),
    ];
    let mut k: usize = 0;
    while k < 4
        invariant
            k <= 4,
            shaped(grid_cells(*grid), cols as int),
            rows == grid_cells(*grid).len(),
            cols == grid_width(*grid),
            left <= right < cols,
            top <= bottom < rows,
            corners@ == seq![
                (top, left, CellContent::BoxDrawing('┌')),
                (top, right, CellContent::BoxDrawing('┐')),
                (bottom, left, CellContent::BoxDrawing('└')),
                (bottom, right, CellContent::BoxDrawing('┘')),
            ],
            writes == corners@.take(k as int).map_values(|c: (usize, usize, CellContent)| (c.0 as int, c.1 as int, c.2)),
            grid_cells(*grid) == write_cells(start, writes),
        decreases 4 - k,
    {
        let (r, c, v) = corners[k];
        put(grid, r, c, v);
        proof {
            lemma_write_step(start, writes, (r as int, c as int, v));
            writes = writes.push((r as int, c as int, v));
            assert(corners@.take(k + 1).map_values(|c: (usize, usize, CellContent)| (c.0 as int, c.1 as int, c.2))
                =~= writes);
        }
        k = k + 1;
    }
    let ghost corner_writes = writes;
    assert(corner_writes =~= seq![
        (top as int, left as int, CellContent::BoxDrawing('┌')),
        (top as int, right as int, CellContent::BoxDrawing('┐')),
        (bottom as int, left as int, CellContent::BoxDrawing('└')),
        (bottom as int, right as int, CellContent::BoxDrawing('┘')),
    ]);
    let mut col = left + 1;
    while col < right
        invariant
            shaped(grid_cells(*grid), cols as int),
            rows == grid_cells(*grid).len(),
            cols == grid_width(*grid),
            left <= right < cols,
            top <= bottom < rows,
            left + 1 <= col <= right || col == left + 1,
            writes == corner_writes + hline_writes(top as int, bottom as int, left + 1, col as int),
            grid_cells(*grid) == write_cells(start, writes),
        decreases right - col,
    {
        put(grid, top, col, CellContent::BoxDrawing('─'));
        proof {
            lemma_write_step(start, writes, (top as int, col as int, CellContent::BoxDrawing('─')));
            writes = writes.push((top as int, col as int, CellContent::BoxDrawing('─')));
        }
        put(grid, bottom, col, CellContent::BoxDrawing('─'));
        proof {
            lemma_write_step(start, writes, (bottom as int, col as int, CellContent::BoxDrawing('─')));
            writes = writes.push((bottom as int, col as int, CellContent::BoxDrawing('─')));
            assert(writes =~= corner_writes + hline_writes(top as int, bottom as int, left + 1, col + 1));
        }
        col = col + 1;
    }
    assert(hline_writes(top as int, bottom as int, left + 1, col as int) == hline_writes(
        top as int,
        bottom as int,
        left + 1,
        right as int,
    ));
    let ghost edge_writes = writes;
    let mut row = top + 1;
    while row < bottom
        invariant
            shaped(grid_cells(*grid), cols as int),
            rows == grid_cells(*grid).len(),
            cols == grid_width(*grid),
            left <= right < cols,
            top <= bottom < rows,
            top + 1 <= row <= bottom || row == top + 1,
            writes == edge_writes + vline_writes(left as int, right as int, top + 1, row as int),
            grid_cells(*grid) == write_cells(start, writes),
        decreases bottom - row,
    {
        put(grid, row, left, CellContent::BoxDrawing('│'));
        proof {
            lemma_write_step(start, writes, (row as int, left as int, CellContent::BoxDrawing('│')));
            writes = writes.push((row as int, left as int, CellContent::BoxDrawing('│')));
        }
        put(grid, row, right, CellContent::BoxDrawing('│'));
        proof {
            lemma_write_step(start, writes, (row as int, right as int, CellContent::BoxDrawing('│')));
            writes = writes.push((row as int, right as int, CellContent::BoxDrawing('│')));
            assert(writes =~= edge_writes + vline_writes(left as int, right as int, top + 1, row + 1));
        }
        row = row + 1;
    }
    assert(vline_writes(left as int, right as int, top + 1, row as int) == vline_writes(
        left as int,
        right as int,
        top + 1,
        bottom as int,
    ));
    assert(writes =~= border_writes(left as int, top as int, right as int, bottom as int));
    if cells.len() > 0 {
        let n = cells.len();
        let rpc = (bottom - top) / n;
        let cpc = if cells[0].len() > 0 {
            (right - left) / cells[0].len()
        } else {
            right - left
        };
        assert(texts[0].len() == cells@[0]@.len());
        assert(rpc == cell_rows(top as int, bottom as int, texts));
        assert(cpc == cell_cols(left as int, right as int, texts));
        proof {
            vstd::arithmetic::div_mod::lemma_fundamental_div_mod((bottom - top) as int, n as int);
        }
        let ghost border = writes;
        let mut ri: usize = 0;
        while ri < n
            invariant
                shaped(grid_cells(*grid), cols as int),
                rows == grid_cells(*grid).len(),
                cols == grid_width(*grid),
                left <= right < cols,
                top <= bottom < rows,
                n == cells@.len(),
                texts == table_text(cells@),
                n > 0,
                rpc == cell_rows(top as int, bottom as int, texts),
                cpc == cell_cols(left as int, right as int, texts),
                (bottom - top) as int == n * rpc + (bottom - top) as int % (n as int),
                table_fits(left as int, top as int, right as int, bottom as int, texts, rows as int, cols as int),
                ri <= n,
                writes == border + cells_writes(texts, top as int, left as int, rpc as int, cpc as int, ri as int, rows as int, cols as int),
                grid_cells(*grid) == write_cells(start, writes),
            decreases n - ri,
        {
            assert(ri * rpc <= (bottom - top) as int) by (nonlinear_arith)
                requires
                    ri < n,
                    (bottom - top) as int == n * rpc + (bottom - top) as int % (n as int),
                    0 <= (bottom - top) as int % (n as int),
            ;
            let y = top + 1 + ri * rpc;
            let line = &cells[ri];
            let ghost row_texts = texts[ri as int];
            assert(row_texts == line@.map_values(|t: String| t@));
            let ghost before_row = writes;
            let mut ci: usize = 0;
            while ci < line.len()
                invariant
                    shaped(grid_cells(*grid), cols as int),
                    rows == grid_cells(*grid).len(),
                    cols == grid_width(*grid),
                    left <= right < cols,
                    ri < n,
                    n == cells@.len(),
                    texts == table_text(cells@),
                    cpc == cell_cols(left as int, right as int, texts),
                    table_fits(left as int, top as int, right as int, bottom as int, texts, rows as int, cols as int),
                    line == cells@[ri as int],
                    row_texts == texts[ri as int],
                    row_texts == line@.map_values(|t: String| t@),
                    ci <= line@.len(),
                    y == top + 1 + ri * rpc,
                    writes == before_row + row_writes(row_texts, y as int, left as int, cpc as int, ci as int, rows as int, cols as int),
                    grid_cells(*grid) == write_cells(start, writes),
                decreases line@.len() - ci,
            {
                assert(texts[ri as int].len() > 0);
                assert(cpc >= 1 && left + row_texts.len() * cpc <= usize::MAX);
                assert(ci * cpc + cpc <= row_texts.len() * cpc) by (nonlinear_arith)
                    requires
                        ci < row_texts.len(),
                        cpc >= 1,
                ;
                let x = left + 1 + ci * cpc;
                let text = chars_of(line[ci].as_str());
                let m = if cpc - 1 < text.len() {
                    cpc - 1
                } else {
                    text.len()
                };
                let ghost cell_text = row_texts[ci as int];
                assert(cell_text == text@);
                let ghost before_cell = writes;
                let mut i: usize = 0;
                while i < m
                    invariant
                        shaped(grid_cells(*grid), cols as int),
                        rows == grid_cells(*grid).len(),
                        cols == grid_width(*grid),
                        i <= m,
                        m <= cpc - 1,
                        m <= text@.len(),
                        cell_text == text@,
                        x + m <= usize::MAX,
                        writes == before_cell + text_writes(cell_text, y as int, x as int, i as int, rows as int, cols as int),
                        grid_cells(*grid) == write_cells(start, writes),
                    decreases m - i,
                {
                    let c = text[i];
                    let ghost pre = grid_cells(*grid);
                    let ghost w = (y as int, (x + i) as int, char_cell(c));
                    put_inside(grid, y, x + i, CellContent::Char(c));
                    proof {
                        let next = text_writes(cell_text, y as int, x as int, i + 1, rows as int, cols as int);
                        let now = text_writes(cell_text, y as int, x as int, i as int, rows as int, cols as int);
                        if y < rows && x + i < cols {
                            lemma_write_step(start, writes, w);
                            writes = writes.push(w);
                            assert(next == now.push(w));
                            assert(writes =~= before_cell + next);
                        } else {
                            assert(next == now);
                        }
                    }
                    i = i + 1;
                }
                assert(m == min_int(cpc - 1, row_texts[ci as int].len() as int));
                assert(writes =~= before_row + row_writes(row_texts, y as int, left as int, cpc as int, ci + 1, rows as int, cols as int));
                ci = ci + 1;
            }
            assert(writes =~= border + cells_writes(texts, top as int, left as int, rpc as int, cpc as int, ri + 1, rows as int, cols as int));
            ri = ri + 1;
        }
    } else {
        assert(writes =~= table_writes(left as int, top as int, right as int, bottom as int, texts, rows as int, cols as int));
    }
}

/// The grid that the text of a page is laid out on.
pub struct SpatialTextGrid {
    grid: Grid<CellContent>,
    allow_overlap: bool,
}

impl SpatialTextGrid {
    /// The cells, row by row.
    pub closed spec fn cells(&self) -> Seq<Seq<CellContent>> {
        grid_cells(self.grid)
    }

    /// The number of columns.
    pub closed spec fn width(&self) -> int {
        grid_width(self.grid) as int
    }

    /// Whether text may be placed over cells already taken.
    pub closed spec fn overlap_allowed(&self) -> bool {
        self.allow_overlap
    }

    /// Every row has `width` cells.
    pub open spec fn wf(&self) -> bool {
        forall|r: int| 0 <= r < self.cells().len() ==> #[trigger] self.cells()[r].len() == self.width()
    }

    /// An empty grid of `term_rows` rows of `term_cols` cells, on which
    /// text does not overlap.
    pub fn new(term_cols: usize, term_rows: usize) -> (g: Self)
        requires
            term_rows * term_cols <= usize::MAX,
        ensures
            g.wf(),
            g.cells() == empty_cells(term_rows as int, term_cols as int),
            g.width() == if term_rows == 0 || term_cols == 0 {
                0
            } else {
                term_cols as int
            },
            !g.overlap_allowed(),
    {
        SpatialTextGrid { grid: new_grid(term_rows, term_cols), allow_overlap: false }
    }

    /// Lets text be placed over cells already taken, or not.
    pub fn set_allow_overlap(&mut self, allow: bool)
        ensures
            final(self).cells() == old(self).cells(),
            final(self).width() == old(self).width(),
            final(self).overlap_allowed() == allow,
    {
        self.allow_overlap = allow;
    }
    /// Places the characters of a text block whose first cell is
    /// `(start_row, start_col)` and which is `span` columns wide (see
    /// `placed_text`).
    pub fn place_text(&mut self, text: &str, start_col: usize, start_row: usize, span: usize)
        requires
            old(self).wf(),
            start_col < usize::MAX,
            start_col + span <= usize::MAX,
            start_row + text@.len() <= usize::MAX,
        ensures
            final(self).wf(),
            final(self).width() == old(self).width(),
            final(self).overlap_allowed() == old(self).overlap_allowed(),
            final(self).cells() == placed_text(
                old(self).cells(),
                text@,
                start_col as int,
                start_row as int,
                span as int,
                old(self).width(),
                old(self).overlap_allowed(),
            ).0,
    {
        let allow = self.allow_overlap;
        place_on(&mut self.grid, allow, text, start_col, start_row, span);
    }

    /// Draws a table with its corners at `(top, left)` and `(bottom,
    /// right)`: the border in box characters, then each cell's text,
    /// cut to the width of a cell less one column (see `table_writes`).
    pub fn draw_table(&mut self, left: usize, top: usize, right: usize, bottom: usize, cells: Vec<Vec<String>>)
        requires
            old(self).wf(),
            table_fits(
                left as int,
                top as int,
                right as int,
                bottom as int,
                table_text(cells@),
                old(self).cells().len() as int,
                old(self).width(),
            ),
        ensures
            final(self).wf(),
            final(self).width() == old(self).width(),
            final(self).overlap_allowed() == old(self).overlap_allowed(),
            final(self).cells() == write_cells(
                old(self).cells(),
                table_writes(
                    left as int,
                    top as int,
                    right as int,
                    bottom as int,
                    table_text(cells@),
                    old(self).cells().len() as int,
                    old(self).width(),
                ),
            ),
    {
        draw_on(&mut self.grid, left, top, right, bottom, &cells);
    }

    /// Whether a table can be drawn (see `table_fits`).
    pub fn table_fits_grid(&self, left: usize, top: usize, right: usize, bottom: usize, cells: &Vec<Vec<String>>) -> (b:
        bool)
        ensures
            b == table_fits(
                left as int,
                top as int,
                right as int,
                bottom as int,
                table_text(cells@),
                self.cells().len() as int,
                self.width(),
            ),
    {
        let rows = grid_rows(&self.grid);
        let cols = grid_cols(&self.grid);
        let ghost texts = table_text(cells@);
        if !(left <= right && right < cols && top <= bottom && bottom < rows) {
            return false;
        }
        if cells.len() == 0 {
            return true;
        }
        let cpc = if cells[0].len() > 0 {
            (right - left) / cells[0].len()
        } else {
            right - left
        };
        assert(texts[0].len() == cells@[0]@.len());
        assert(cpc == cell_cols(left as int, right as int, texts));
        let mut r: usize = 0;
        while r < cells.len()
            invariant
                r <= cells@.len(),
                texts == table_text(cells@),
                cpc == cell_cols(left as int, right as int, texts),
                forall|q: int|
                    0 <= q < r && #[trigger] texts[q].len() > 0 ==> cpc >= 1 && left + texts[q].len() * cpc
                        <= usize::MAX,
            decreases cells@.len() - r,
        {
            let n = cells[r].len();
            assert(texts[r as int].len() == n);
            if n > 0 {
                if cpc == 0 {
                    return false;
                }
                match n.checked_mul(cpc) {
                    Some(p) => {
                        if p > usize::MAX - left {
                            return false;
                        }
                    },
                    None => {
                        return false;
                    },
                }
            }
            r = r + 1;
        }
        true
    }

    /// The grid as text, a line per row (see `grid_text`).
    pub fn render(&self) -> (s: String)
        requires
            self.wf(),
        ensures
            s@ == grid_text(self.cells()),
    {
        let rows = grid_rows(&self.grid);
        let cols = grid_cols(&self.grid);
        let mut s = String::new();
        let mut row: usize = 0;
        while row < rows
            invariant
                self.wf(),
                rows == self.cells().len(),
                cols == self.width(),
                row <= rows,
                s@ == grid_text(self.cells().take(row as int)),
            decreases rows - row,
        {
            let ghost before = s@;
            let ghost line = self.cells()[row as int];
            let mut col: usize = 0;
            while col < cols
                invariant
                    self.wf(),
                    rows == self.cells().len(),
                    cols == self.width(),
                    row < rows,
                    line == self.cells()[row as int],
                    col <= cols,
                    s@ == before + line.take(col as int).map_values(|c: CellContent| cell_char(c)),
                decreases cols - col,
            {
                let c = cell_at(&self.grid, row, col);
                let ch = match c {
                    CellContent::Empty => ' ',
                    CellContent::Char(x) => *x,
                    CellContent::BoxDrawing(x) => *x,
                };
                s.push(ch);
                assert(line.take(col + 1).map_values(|c: CellContent| cell_char(c)) =~= line.take(
                    col as int,
                ).map_values(|c: CellContent| cell_char(c)).push(ch));
                col = col + 1;
            }
            s.push('\n');
            assert(line.take(cols as int) =~= line);
            assert(self.cells().take(row + 1).drop_last() =~= self.cells().take(row as int));
            row = row + 1;
        }
        assert(self.cells().take(rows as int) =~= self.cells());
        s
    }

    /// The grid as rows of the characters its cells show.
    pub fn to_char_grid(&self) -> (g: Vec<Vec<char>>)
        requires
            self.wf(),
        ensures
            g@.len() == self.cells().len(),
            forall|r: int|
                0 <= r < g@.len() ==> (#[trigger] g@[r])@ == self.cells()[r].map_values(
                    |c: CellContent| cell_char(c),
                ),
    {
        let rows = grid_rows(&self.grid);
        let cols = grid_cols(&self.grid);
        let mut g: Vec<Vec<char>> = Vec::new();
        let mut row: usize = 0;
        while row < rows
            invariant
                self.wf(),
                rows == self.cells().len(),
                cols == self.width(),
                row <= rows,
                g@.len() == row,
                forall|r: int|
                    0 <= r < row ==> (#[trigger] g@[r])@ == self.cells()[r].map_values(
                        |c: CellContent| cell_char(c),
                    ),
            decreases rows - row,
        {
            let ghost line = self.cells()[row as int];
            let mut chars: Vec<char> = Vec::new();
            let mut col: usize = 0;
            while col < cols
                invariant
                    self.wf(),
                    rows == self.cells().len(),
                    cols == self.width(),
                    row < rows,
                    line == self.cells()[row as int],
                    col <= cols,
                    chars@ == line.take(col as int).map_values(|c: CellContent| cell_char(c)),
                decreases cols - col,
            {
                let c = cell_at(&self.grid, row, col);
                let ch = match c {
                    CellContent::Empty => ' ',
                    CellContent::Char(x) => *x,
                    CellContent::BoxDrawing(x) => *x,
                };
                chars.push(ch);
                assert(line.take(col + 1).map_values(|c: CellContent| cell_char(c)) =~= line.take(
                    col as int,
                ).map_values(|c: CellContent| cell_char(c)).push(ch));
                col = col + 1;
            }
            assert(line.take(cols as int) =~= line);
            g.push(chars);
            row = row + 1;
        }
        g
    }
}

} // verus!
