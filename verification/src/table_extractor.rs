//! Tables found on a PDF page, and their Markdown form.
//!
//! A table is a list of rows of cells; each cell keeps its text and its row
//! and column in the grid the extractor found. The Markdown form takes the
//! first row as the header, puts a separator row under it, and pads every
//! row with empty cells up to the widest row.

use crate::text_filter::{trim_spec, trim_text};
use crate::text_format::push_str;
use vstd::prelude::*;

verus! {

/// One cell: its text and its place in the table.
pub struct TableCell {
    pub text: String,
    pub row: usize,
    pub col: usize,
}

/// A table: its rows of cells, top to bottom.
pub struct Table {
    pub cells: Vec<Vec<TableCell>>,
}

/// The rows of a table as sequences of cells.
pub open spec fn table_rows(t: &Table) -> Seq<Seq<TableCell>> {
    t.cells@.map_values(|r: Vec<TableCell>| r@)
}

/// The text shown for a cell: as it is, or trimmed of surrounding
/// whitespace.
pub open spec fn shown_text(c: TableCell, trimmed: bool) -> Seq<char> {
    if trimmed {
        trim_spec(c.text@)
    } else {
        c.text@
    }
}

/// A cell in Markdown: ` text |`.
pub open spec fn md_cell(text: Seq<char>) -> Seq<char> {
    seq![' '] + text + seq![' ', '|']
}

/// The Markdown cells of a row, left to right.
pub open spec fn md_cells(row: Seq<TableCell>, trimmed: bool) -> Seq<char>
    decreases row.len(),
{
    if row.len() == 0 {
        Seq::empty()
    } else {
        md_cells(row.drop_last(), trimmed) + md_cell(shown_text(row.last(), trimmed))
    }
}

/// `k` empty Markdown cells.
pub open spec fn md_fill(k: nat) -> Seq<char>
    decreases k,
{
    if k == 0 {
        Seq::empty()
    } else {
        md_fill((k - 1) as nat) + seq![' ', '|']
    }
}

/// A row in Markdown, padded with empty cells to `width` cells.
pub open spec fn md_row(row: Seq<TableCell>, width: nat, trimmed: bool) -> Seq<char> {
    seq!['|'] + md_cells(row, trimmed) + md_fill((width - row.len()) as nat) + seq!['\n']
}

/// `n` separator cells ` --- |`.
pub open spec fn md_rule_cells(n: nat) -> Seq<char>
    decreases n,
{
    if n == 0 {
        Seq::empty()
    } else {
        md_rule_cells((n - 1) as nat) + " --- |"@
    }
}

/// The separator row under the header, `n` cells wide.
pub open spec fn md_separator(n: nat) -> Seq<char> {
    seq!['|'] + md_rule_cells(n) + seq!['\n']
}

/// The number of cells of the widest row.
pub open spec fn widest(rows: Seq<Seq<TableCell>>) -> nat
    decreases rows.len(),
{
    if rows.len() == 0 {
        0
    } else {
        let w = widest(rows.drop_last());
        if rows.last().len() > w {
            rows.last().len()
        } else {
            w
        }
    }
}

/// The Markdown rows of `rows`, each padded to `width` cells.
pub open spec fn md_rows(rows: Seq<Seq<TableCell>>, width: nat, trimmed: bool) -> Seq<char>
    decreases rows.len(),
{
    if rows.len() == 0 {
        Seq::empty()
    } else {
        md_rows(rows.drop_last(), width, trimmed) + md_row(rows.last(), width, trimmed)
    }
}

/// The Markdown table: nothing for a table without rows; otherwise the
/// header row, the separator and the other rows, all as wide as the widest
/// row.
pub open spec fn md_table(rows: Seq<Seq<TableCell>>, trimmed: bool) -> Seq<char> {
    if rows.len() == 0 {
        Seq::empty()
    } else {
        let w = widest(rows);
        md_row(rows[0], w, trimmed) + md_separator(w) + md_rows(
            rows.subrange(1, rows.len() as int),
            w,
            trimmed,
        )
    }
}

/// No row is wider than the widest.
pub proof fn lemma_widest(rows: Seq<Seq<TableCell>>)
    ensures
        forall|i: int| 0 <= i < rows.len() ==> #[trigger] rows[i].len() <= widest(rows),
        rows.len() > 0 ==> exists|i: int| 0 <= i < rows.len() && #[trigger] rows[i].len() == widest(rows),
    decreases rows.len(),
{
    if rows.len() > 0 {
        lemma_widest(rows.drop_last());
        assert forall|i: int| 0 <= i < rows.len() implies #[trigger] rows[i].len() <= widest(rows) by {
            if i < rows.len() - 1 {
                assert(rows[i] == rows.drop_last()[i]);
            }
        }
        if rows.last().len() <= widest(rows.drop_last()) && rows.len() > 1 {
            let i = choose|i: int| 0 <= i < rows.drop_last().len() && #[trigger] rows.drop_last()[i].len()
                == widest(rows.drop_last());
            assert(rows[i] == rows.drop_last()[i]);
        } else {
            assert(rows[rows.len() - 1] == rows.last());
        }
    }
}

/// The number of cells of the widest row of the table.
pub(crate) fn widest_row(t: &Table) -> (w: usize)
    ensures
        w == widest(table_rows(t)),
{
    let ghost rows = table_rows(t);
    let mut w: usize = 0;
    let mut i: usize = 0;
    while i < t.cells.len()
        invariant
            i <= t.cells@.len(),
            rows == table_rows(t),
            w == widest(rows.take(i as int)),
        decreases t.cells@.len() - i,
    {
        assert(rows.take(i + 1).drop_last() == rows.take(i as int));
        assert(rows[i as int] == t.cells@[i as int]@);
        if t.cells[i].len() > w {
            w = t.cells[i].len();
        }
        i = i + 1;
    }
    assert(rows.take(i as int) == rows);
    w
}

/// Appends the Markdown cells of a row.
pub(crate) fn push_md_cells(s: &mut String, row: &Vec<TableCell>, trimmed: bool)
    ensures
        final(s)@ == old(s)@ + md_cells(row@, trimmed),
{
    let ghost start = s@;
    let mut j: usize = 0;
    while j < row.len()
        invariant
            j <= row@.len(),
            s@ == start + md_cells(row@.take(j as int), trimmed),
        decreases row@.len() - j,
    {
        assert(row@.take(j + 1).drop_last() == row@.take(j as int));
        s.push(' ');
        if trimmed {
            let t = trim_text(row[j].text.as_str());
            push_str(s, t.as_str());
        } else {
            push_str(s, row[j].text.as_str());
        }
        s.push(' ');
        s.push('|');
        assert(s@ =~= start + md_cells(row@.take(j + 1), trimmed));
        j = j + 1;
    }
    assert(row@.take(j as int) == row@);
}

/// Appends a row padded to `width` cells.
pub(crate) fn push_md_row(s: &mut String, row: &Vec<TableCell>, width: usize, trimmed: bool)
    requires
        row@.len() <= width,
    ensures
        final(s)@ == old(s)@ + md_row(row@, width as nat, trimmed),
{
    let ghost start = s@;
    s.push('|');
    push_md_cells(s, row, trimmed);
    let ghost mid = s@;
    let mut k: usize = row.len();
    while k < width
        invariant
            row@.len() <= k <= width,
            s@ == mid + md_fill((k - row@.len()) as nat),
        decreases width - k,
    {
        s.push(' ');
        s.push('|');
        assert(s@ =~= mid + md_fill((k + 1 - row@.len()) as nat));
        k = k + 1;
    }
    s.push('\n');
    assert(s@ =~= start + md_row(row@, width as nat, trimmed));
}

/// Appends the separator row, `n` cells wide.
pub(crate) fn push_md_separator(s: &mut String, n: usize)
    ensures
        final(s)@ == old(s)@ + md_separator(n as nat),
{
    let ghost start = s@;
    s.push('|');
    let mut k: usize = 0;
    while k < n
        invariant
            k <= n,
            s@ == start + seq!['|'] + md_rule_cells(k as nat),
        decreases n - k,
    {
        push_str(s, " --- |");
        assert(s@ =~= start + seq!['|'] + md_rule_cells((k + 1) as nat));
        k = k + 1;
    }
    s.push('\n');
    assert(s@ =~= start + md_separator(n as nat));
}

/// The Markdown table, with cell texts trimmed or not (see `md_table`).
pub(crate) fn markdown_of(table: &Table, trimmed: bool) -> (r: String)
    ensures
        r@ == md_table(table_rows(table), trimmed),
{
    let ghost rows = table_rows(table);
    let mut r = String::new();
    if table.cells.len() == 0 {
        return r;
    }
    let w = widest_row(table);
    proof {
        lemma_widest(rows);
    }
    assert(rows[0] == table.cells@[0]@);
    push_md_row(&mut r, &table.cells[0], w, trimmed);
    push_md_separator(&mut r, w);
    let ghost head = r@;
    let mut i: usize = 1;
    while i < table.cells.len()
        invariant
            1 <= i <= table.cells@.len(),
            rows == table_rows(table),
            w == widest(rows),
            forall|k: int| 0 <= k < rows.len() ==> #[trigger] rows[k].len() <= w,
            r@ == head + md_rows(rows.subrange(1, i as int), w as nat, trimmed),
        decreases table.cells@.len() - i,
    {
        assert(rows[i as int] == table.cells@[i as int]@);
        push_md_row(&mut r, &table.cells[i], w, trimmed);
        assert(rows.subrange(1, i + 1).drop_last() == rows.subrange(1, i as int));
        i = i + 1;
    }
    r
}

/// The table in Markdown (see `md_table`): the first row is the header,
/// and every row is padded with empty cells to the widest row.
pub fn table_to_markdown(table: &Table) -> (r: String)
    ensures
        r@ == md_table(table_rows(table), false),
{
    markdown_of(table, false)
}

/// No character of `s` is a line break.
pub open spec fn no_newline(s: Seq<char>) -> bool {
    forall|j: int| 0 <= j < s.len() ==> s[j] != '\n'
}

/// `s` is one line: it ends with a line break and holds no other.
pub open spec fn one_line(s: Seq<char>) -> bool {
    s.len() > 0 && s.last() == '\n' && no_newline(s.drop_last())
}

/// The lines of a table's Markdown, one after another: the header row,
/// the separator, then one line for each further row of the table, all
/// padded to the widest row.
pub open spec fn md_table_lines(rows: Seq<Seq<TableCell>>, trimmed: bool) -> Seq<Seq<char>> {
    Seq::new(
        rows.len() + 1,
        |i: int|
            if i == 0 {
                md_row(rows[0], widest(rows), trimmed)
            } else if i == 1 {
                md_separator(widest(rows))
            } else {
                md_row(rows[i - 1], widest(rows), trimmed)
            },
    )
}

proof fn lemma_concat_no_newline(a: Seq<char>, b: Seq<char>)
    requires
        no_newline(a),
        no_newline(b),
    ensures
        no_newline(a + b),
{
    assert forall|j: int| 0 <= j < (a + b).len() implies (a + b)[j] != '\n' by {
        if j >= a.len() {
            assert((a + b)[j] == b[j - a.len()]);
        }
    }
}

proof fn lemma_md_cells_no_newline(row: Seq<TableCell>, trimmed: bool)
    requires
        forall|j: int| 0 <= j < row.len() ==> no_newline(#[trigger] shown_text(row[j], trimmed)),
    ensures
        no_newline(md_cells(row, trimmed)),
    decreases row.len(),
{
    if row.len() > 0 {
        assert forall|j: int| 0 <= j < row.drop_last().len() implies no_newline(
            #[trigger] shown_text(row.drop_last()[j], trimmed),
        ) by {
            assert(row.drop_last()[j] == row[j]);
        }
        lemma_md_cells_no_newline(row.drop_last(), trimmed);
        assert(shown_text(row.last(), trimmed) == shown_text(row[row.len() - 1], trimmed));
        lemma_concat_no_newline(seq![' '], shown_text(row.last(), trimmed));
        lemma_concat_no_newline(seq![' '] + shown_text(row.last(), trimmed), seq![' ', '|']);
        lemma_concat_no_newline(md_cells(row.drop_last(), trimmed), md_cell(shown_text(row.last(), trimmed)));
    }
}

proof fn lemma_md_fill_no_newline(k: nat)
    ensures
        no_newline(md_fill(k)),
    decreases k,
{
    if k > 0 {
        lemma_md_fill_no_newline((k - 1) as nat);
        lemma_concat_no_newline(md_fill((k - 1) as nat), seq![' ', '|']);
    }
}

proof fn lemma_md_rule_no_newline(n: nat)
    ensures
        no_newline(md_rule_cells(n)),
    decreases n,
{
    if n > 0 {
        lemma_md_rule_no_newline((n - 1) as nat);
        reveal_strlit(" --- |");
        lemma_concat_no_newline(md_rule_cells((n - 1) as nat), " --- |"@);
    }
}

/// The Markdown rows of `rows` are the rows' lines one after another.
proof fn lemma_md_rows_lines(rows: Seq<Seq<TableCell>>, w: nat, trimmed: bool)
    ensures
        md_rows(rows, w, trimmed) == Seq::new(rows.len(), |i: int| md_row(rows[i], w, trimmed)).flatten_alt(),
    decreases rows.len(),
{
    if rows.len() > 0 {
        lemma_md_rows_lines(rows.drop_last(), w, trimmed);
        let all = Seq::new(rows.len(), |i: int| md_row(rows[i], w, trimmed));
        assert(all.drop_last() =~= Seq::new(rows.drop_last().len(), |i: int| md_row(rows.drop_last()[i], w, trimmed)));
        assert(all.last() == md_row(rows.last(), w, trimmed));
    }
}

/// The Markdown of a table with `n > 0` rows is `n + 1` lines one after
/// another: the header row first, the separator second, and then, as line
/// `k + 2`, the Markdown row of table row `k + 1` for every further row.
/// Each of them ends with a line break, and it is the only one on it when
/// no cell text holds a line break.
pub proof fn law_markdown_lines(rows: Seq<Seq<TableCell>>, trimmed: bool)
    requires
        rows.len() > 0,
    ensures
        md_table(rows, trimmed) == md_table_lines(rows, trimmed).flatten(),
        md_table_lines(rows, trimmed).len() == rows.len() + 1,
        md_table_lines(rows, trimmed)[0] == md_row(rows[0], widest(rows), trimmed),
        md_table_lines(rows, trimmed)[1] == md_separator(widest(rows)),
        forall|k: int|
            0 <= k < rows.len() - 1 ==> #[trigger] md_table_lines(rows, trimmed)[k + 2] == md_row(
                rows[k + 1],
                widest(rows),
                trimmed,
            ),
        forall|i: int| 0 <= i < rows.len() + 1 ==> #[trigger] md_table_lines(rows, trimmed)[i].last() == '\n',
        (forall|i: int, j: int|
            0 <= i < rows.len() && 0 <= j < rows[i].len() ==> no_newline(#[trigger] shown_text(rows[i][j], trimmed)))
            ==> forall|i: int| 0 <= i < rows.len() + 1 ==> one_line(#[trigger] md_table_lines(rows, trimmed)[i]),
{
    let n = rows.len() as int;
    let w = widest(rows);
    let lines = md_table_lines(rows, trimmed);
    let tail = rows.subrange(1, n);
    let rest = Seq::new(tail.len(), |i: int| md_row(tail[i], w, trimmed));
    lemma_md_rows_lines(tail, w, trimmed);
    rest.lemma_flatten_and_flatten_alt_are_equivalent();
    let head = seq![md_row(rows[0], w, trimmed), md_separator(w)];
    assert(lines =~= head + rest);
    vstd::seq_lib::lemma_flatten_concat(head, rest);
    head.drop_first().lemma_flatten_one_element();
    assert(head.flatten() == md_row(rows[0], w, trimmed) + head.drop_first().flatten());
    assert(head.flatten() == md_row(rows[0], w, trimmed) + md_separator(w));
    assert(md_table(rows, trimmed) =~= head.flatten() + rest.flatten());
    if forall|i: int, j: int|
        0 <= i < rows.len() && 0 <= j < rows[i].len() ==> no_newline(#[trigger] shown_text(rows[i][j], trimmed)) {
        lemma_md_rule_no_newline(w);
        lemma_concat_no_newline(seq!['|'], md_rule_cells(w));
        assert((seq!['|'] + md_rule_cells(w) + seq!['\n']).drop_last() =~= seq!['|'] + md_rule_cells(w));
        assert forall|i: int| 0 <= i < rows.len() + 1 implies one_line(#[trigger] lines[i]) by {
            if i != 1 {
                let r = if i == 0 { 0 } else { i - 1 };
                let row = rows[r];
                assert forall|j: int| 0 <= j < row.len() implies no_newline(#[trigger] shown_text(row[j], trimmed)) by {
                    assert(shown_text(rows[r][j], trimmed) == shown_text(row[j], trimmed));
                }
                lemma_md_cells_no_newline(row, trimmed);
                lemma_md_fill_no_newline((w - row.len()) as nat);
                lemma_concat_no_newline(seq!['|'], md_cells(row, trimmed));
                lemma_concat_no_newline(seq!['|'] + md_cells(row, trimmed), md_fill((w - row.len()) as nat));
                assert(lines[i] == md_row(row, w, trimmed));
                assert(md_row(row, w, trimmed).drop_last() =~= seq!['|'] + md_cells(row, trimmed) + md_fill(
                    (w - row.len()) as nat,
                ));
            }
        }
    }
}

} // verus!
