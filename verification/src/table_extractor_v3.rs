//! The Markdown form of a table laid out by the column index of each cell:
//! a row has as many cells as the table has columns, and each cell's
//! trimmed text stands in its own column.

use crate::table_extractor::{md_cell, md_separator, push_md_separator, table_rows, Table, TableCell};
use crate::text_filter::{trim_spec, trim_text};
use crate::text_format::push_str;
use vstd::prelude::*;

verus! {

/// One past the largest column index of the cells of a row (0 for none).
pub open spec fn row_col_end(row: Seq<TableCell>) -> nat
    decreases row.len(),
{
    if row.len() == 0 {
        0
    } else {
        let e = row_col_end(row.drop_last());
        if row.last().col + 1 > e {
            (row.last().col + 1) as nat
        } else {
            e
        }
    }
}

/// The number of columns: one past the largest column index of any cell.
pub open spec fn col_end(rows: Seq<Seq<TableCell>>) -> nat
    decreases rows.len(),
{
    if rows.len() == 0 {
        0
    } else {
        let e = col_end(rows.drop_last());
        if row_col_end(rows.last()) > e {
            row_col_end(rows.last())
        } else {
            e
        }
    }
}

/// The texts of a row in `n` columns: each cell's trimmed text stands in
/// its column, a later cell replacing an earlier one in the same column;
/// the other columns are empty.
pub open spec fn placed(row: Seq<TableCell>, n: nat) -> Seq<Seq<char>>
    decreases row.len(),
{
    if row.len() == 0 {
        Seq::new(n, |i: int| Seq::<char>::empty())
    } else {
        let p = placed(row.drop_last(), n);
        let c = row.last();
        if c.col < n {
            p.update(c.col as int, trim_spec(c.text@))
        } else {
            p
        }
    }
}

/// Texts as Markdown cells, left to right.
pub open spec fn md_texts(ts: Seq<Seq<char>>) -> Seq<char>
    decreases ts.len(),
{
    if ts.len() == 0 {
        Seq::empty()
    } else {
        md_texts(ts.drop_last()) + md_cell(ts.last())
    }
}

/// A row in Markdown with `n` columns.
pub open spec fn column_row(row: Seq<TableCell>, n: nat) -> Seq<char> {
    seq!['|'] + md_texts(placed(row, n)) + seq!['\n']
}

/// The rows in Markdown with `n` columns, the separator under the first.
pub open spec fn column_rows(rows: Seq<Seq<TableCell>>, n: nat) -> Seq<char>
    decreases rows.len(),
{
    if rows.len() == 0 {
        Seq::empty()
    } else {
        column_rows(rows.drop_last(), n) + column_row(rows.last(), n) + if rows.len() == 1 {
            md_separator(n)
        } else {
            Seq::empty()
        }
    }
}

/// No cell has the largest column index, so one past it is a number.
pub open spec fn columns_fit(rows: Seq<Seq<TableCell>>) -> bool {
    forall|i: int, j: int|
        0 <= i < rows.len() && 0 <= j < rows[i].len() ==> #[trigger] rows[i][j].col < usize::MAX
}

fn row_columns(row: &Vec<TableCell>) -> (e: usize)
    requires
        forall|j: int| 0 <= j < row@.len() ==> #[trigger] row@[j].col < usize::MAX,
    ensures
        e == row_col_end(row@),
{
    let mut e: usize = 0;
    let mut j: usize = 0;
    while j < row.len()
        invariant
            j <= row@.len(),
            forall|k: int| 0 <= k < row@.len() ==> #[trigger] row@[k].col < usize::MAX,
            e == row_col_end(row@.take(j as int)),
        decreases row@.len() - j,
    {
        assert(row@.take(j + 1).drop_last() == row@.take(j as int));
        if row[j].col + 1 > e {
            e = row[j].col + 1;
        }
        j = j + 1;
    }
    assert(row@.take(j as int) == row@);
    e
}

fn column_count(table: &Table) -> (n: usize)
    requires
        columns_fit(table_rows(table)),
    ensures
        n == col_end(table_rows(table)),
{
    let ghost rows = table_rows(table);
    let mut n: usize = 0;
    let mut i: usize = 0;
    while i < table.cells.len()
        invariant
            i <= table.cells@.len(),
            rows == table_rows(table),
            columns_fit(rows),
            n == col_end(rows.take(i as int)),
        decreases table.cells@.len() - i,
    {
        assert(rows.take(i + 1).drop_last() == rows.take(i as int));
        assert(rows[i as int] == table.cells@[i as int]@);
        let ghost row = table.cells@[i as int]@;
        assert forall|j: int| 0 <= j < row.len() implies #[trigger] row[j].col < usize::MAX by {
            assert(rows[i as int][j] == row[j]);
        }
        let e = row_columns(&table.cells[i]);
        if e > n {
            n = e;
        }
        i = i + 1;
    }
    assert(rows.take(i as int) == rows);
    n
}

/// The texts of a row placed in `n` columns (see `placed`).
fn placed_texts(row: &Vec<TableCell>, n: usize) -> (t: Vec<String>)
    ensures
        t@.map_values(|s: String| s@) == placed(row@, n as nat),
{
    let mut t: Vec<String> = Vec::new();
    let mut k: usize = 0;
    while k < n
        invariant
            k <= n,
            t@.len() == k,
            t@.map_values(|s: String| s@) == Seq::new(k as nat, |i: int| Seq::<char>::empty()),
        decreases n - k,
    {
        let ghost before = t@;
        let e = String::new();
        t.push(e);
        assert forall|i: int| 0 <= i < k + 1 implies #[trigger] t@[i]@ == Seq::<char>::empty() by {
            if i < k {
                assert(t@[i] == before[i]);
                assert(before.map_values(|s: String| s@)[i] == before[i]@);
            }
        }
        assert(t@.map_values(|s: String| s@) =~= Seq::new((k + 1) as nat, |i: int| Seq::<char>::empty()));
        k = k + 1;
    }
    let mut j: usize = 0;
    while j < row.len()
        invariant
            j <= row@.len(),
            t@.len() == n,
            t@.map_values(|s: String| s@) == placed(row@.take(j as int), n as nat),
        decreases row@.len() - j,
    {
        assert(row@.take(j + 1).drop_last() == row@.take(j as int));
        assert(row@.take(j + 1).last() == row@[j as int]);
        let c = row[j].col;
        if c < n {
            let s = trim_text(row[j].text.as_str());
            t.set(c, s);
            assert(t@.map_values(|s: String| s@) =~= placed(row@.take(j as int), n as nat).update(
                c as int,
                trim_spec(row@[j as int].text@),
            ));
        }
        j = j + 1;
    }
    assert(row@.take(j as int) == row@);
    t
}

/// Appends a row of texts as Markdown cells.
fn push_texts(s: &mut String, t: &Vec<String>)
    ensures
        final(s)@ == old(s)@ + md_texts(t@.map_values(|x: String| x@)),
{
    let ghost ts = t@.map_values(|x: String| x@);
    let ghost start = s@;
    let mut k: usize = 0;
    while k < t.len()
        invariant
            k <= t@.len(),
            ts == t@.map_values(|x: String| x@),
            s@ == start + md_texts(ts.take(k as int)),
        decreases t@.len() - k,
    {
        assert(ts.take(k + 1).drop_last() == ts.take(k as int));
        assert(ts[k as int] == t@[k as int]@);
        s.push(' ');
        push_str(s, t[k].as_str());
        s.push(' ');
        s.push('|');
        assert(s@ =~= start + md_texts(ts.take(k + 1)));
        k = k + 1;
    }
    assert(ts.take(k as int) == ts);
}

/// The table in Markdown by columns (see `column_rows`): nothing for a
/// table without rows; otherwise every row has one cell per column, each
/// cell's trimmed text in its column, and the separator follows the first
/// row.
pub fn table_to_markdown(table: &Table) -> (r: String)
    requires
        columns_fit(table_rows(table)),
    ensures
        r@ == column_rows(table_rows(table), col_end(table_rows(table))),
{
    let ghost rows = table_rows(table);
    let mut r = String::new();
    if table.cells.len() == 0 {
        return r;
    }
    let n = column_count(table);
    let mut i: usize = 0;
    while i < table.cells.len()
        invariant
            i <= table.cells@.len(),
            rows == table_rows(table),
            n == col_end(rows),
            r@ == column_rows(rows.take(i as int), n as nat),
        decreases table.cells@.len() - i,
    {
        assert(rows.take(i + 1).drop_last() == rows.take(i as int));
        assert(rows.take(i + 1).last() == table.cells@[i as int]@);
        let texts = placed_texts(&table.cells[i], n);
        r.push('|');
        push_texts(&mut r, &texts);
        r.push('\n');
        if i == 0 {
            push_md_separator(&mut r, n);
        }
        assert(r@ =~= column_rows(rows.take(i + 1), n as nat));
        i = i + 1;
    }
    assert(rows.take(i as int) == rows);
    r
}

} // verus!
