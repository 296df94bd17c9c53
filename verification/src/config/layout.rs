//! Layout of the editor's panes.

use vstd::prelude::*;

verus! {

/// Side bar width when expanded.
pub const SIDEBAR_WIDTH_EXPANDED: u16 = 30;

/// Side bar width when collapsed.
pub const SIDEBAR_WIDTH_COLLAPSED: u16 = 0;

/// Width of the settings panel.
pub const SETTINGS_PANEL_WIDTH: u16 = 35;

/// Rows between notes in the grid view.
pub const GRID_VERTICAL_SPACING: usize = 8;

/// Columns between notes in the grid view.
pub const GRID_HORIZONTAL_SPACING: usize = 4;

/// About how many notes the list shows at once.
pub const VISIBLE_NOTE_COUNT_APPROX: usize = 30;

} // verus!
