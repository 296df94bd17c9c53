//! Colour theme (RGB values).

use vstd::prelude::*;

verus! {

/// Title bar background (teal).
pub const TITLE_BAR_BG: (u8, u8, u8) = (0, 128, 128);

/// Title bar foreground (white).
pub const TITLE_BAR_FG: (u8, u8, u8) = (255, 255, 255);

/// Selection background (deep pink).
pub const SELECTION_BG: (u8, u8, u8) = (255, 20, 147);

/// Selection foreground (white).
pub const SELECTION_FG: (u8, u8, u8) = (255, 255, 255);

/// Grid lines (dark gray).
pub const GRID_LINE_FG: (u8, u8, u8) = (60, 60, 60);

/// Side bar background (dark blue).
pub const SIDEBAR_BG: (u8, u8, u8) = (30, 60, 100);

/// Side bar text (light gray).
pub const SIDEBAR_FG: (u8, u8, u8) = (220, 220, 220);

/// Side bar icons (gray).
pub const SIDEBAR_ICON_FG: (u8, u8, u8) = (200, 200, 200);

/// Side bar scroll marker (green).
pub const SIDEBAR_SCROLL_FG: (u8, u8, u8) = (76, 175, 80);

/// Selected item background (amber).
pub const SELECTED_ITEM_BG: (u8, u8, u8) = (255, 193, 7);

/// Selected item foreground (black).
pub const SELECTED_ITEM_FG: (u8, u8, u8) = (0, 0, 0);

} // verus!
