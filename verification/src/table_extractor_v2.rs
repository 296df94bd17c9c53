//! The Markdown form of a table whose cell texts are shown trimmed of
//! surrounding whitespace.

use crate::table_extractor::{markdown_of, md_table, table_rows, Table};
use vstd::prelude::*;

verus! {

/// The table in Markdown with each cell's text trimmed: the first row is
/// the header, and every row is padded with empty cells to the widest row.
pub fn table_to_markdown(table: &Table) -> (r: String)
    ensures
        r@ == md_table(table_rows(table), true),
{
    markdown_of(table, true)
}

} // verus!
