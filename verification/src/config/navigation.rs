//! Navigation steps.

use vstd::prelude::*;

verus! {

/// Rows moved by Page Up / Page Down.
pub const PAGE_JUMP_ROWS: usize = 20;

/// Columns moved by a horizontal page jump.
pub const PAGE_JUMP_COLS: usize = 20;

} // verus!
