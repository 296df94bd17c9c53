//! The editor's colour theme, set with direct 24-bit colour sequences.

use crate::config::rgb_sequence;
use crate::kitty_native::KittyTerminal;
use vstd::prelude::*;

verus! {

/// The colour theme.
pub struct KittyTheme;

impl KittyTheme {
    /// Muted cyan accent text.
    pub const ACCENT_TEXT: (u8, u8, u8) = (143, 161, 179);

    /// Soft purple accent of the load-file button.
    pub const ACCENT_LOAD_FILE: (u8, u8, u8) = (169, 133, 202);

    /// Primary text (light gray).
    pub const TEXT_PRIMARY: (u8, u8, u8) = (197, 200, 198);

    /// Secondary text (medium gray).
    pub const TEXT_SECONDARY: (u8, u8, u8) = (150, 152, 150);

    /// Dim text (dark gray).
    pub const TEXT_DIM: (u8, u8, u8) = (96, 99, 102);

    /// Header text (white).
    pub const TEXT_HEADER: (u8, u8, u8) = (255, 255, 255);

    /// Success messages (green).
    pub const SUCCESS: (u8, u8, u8) = (181, 189, 104);

    /// Status bar background (black).
    pub const BG_STATUS: (u8, u8, u8) = (0, 0, 0);

    /// Cursor background (muted cyan).
    pub const BG_CURSOR: (u8, u8, u8) = (143, 161, 179);

    /// Selection background (dark blue).
    pub const BG_SELECTION: (u8, u8, u8) = (0, 0, 139);

    /// Sequence that sets the foreground to the accent text colour.
    pub fn set_accent_text_fg() -> (s: String)
        ensures
            s@ == rgb_sequence(seq!['3', '8'], 143, 161, 179),
    {
        KittyTerminal::set_fg_rgb(Self::ACCENT_TEXT.0, Self::ACCENT_TEXT.1, Self::ACCENT_TEXT.2)
    }

    /// Sequence that sets the background to the load-file accent colour.
    pub fn set_accent_load_file_bg() -> (s: String)
        ensures
            s@ == rgb_sequence(seq!['4', '8'], 169, 133, 202),
    {
        KittyTerminal::set_bg_rgb(
            Self::ACCENT_LOAD_FILE.0,
            Self::ACCENT_LOAD_FILE.1,
            Self::ACCENT_LOAD_FILE.2,
        )
    }

    /// Sequence that sets the foreground to the primary text colour.
    pub fn set_text_primary_fg() -> (s: String)
        ensures
            s@ == rgb_sequence(seq!['3', '8'], 197, 200, 198),
    {
        KittyTerminal::set_fg_rgb(Self::TEXT_PRIMARY.0, Self::TEXT_PRIMARY.1, Self::TEXT_PRIMARY.2)
    }

    /// Sequence that sets the foreground to the header colour.
    pub fn set_text_header_fg() -> (s: String)
        ensures
            s@ == rgb_sequence(seq!['3', '8'], 255, 255, 255),
    {
        KittyTerminal::set_fg_rgb(Self::TEXT_HEADER.0, Self::TEXT_HEADER.1, Self::TEXT_HEADER.2)
    }

    /// Sequence that sets the foreground to the success colour.
    pub fn set_success_fg() -> (s: String)
        ensures
            s@ == rgb_sequence(seq!['3', '8'], 181, 189, 104),
    {
        KittyTerminal::set_fg_rgb(Self::SUCCESS.0, Self::SUCCESS.1, Self::SUCCESS.2)
    }

    /// Sequence that sets the foreground to the dim text colour.
    pub fn set_text_dim_fg() -> (s: String)
        ensures
            s@ == rgb_sequence(seq!['3', '8'], 96, 99, 102),
    {
        KittyTerminal::set_fg_rgb(Self::TEXT_DIM.0, Self::TEXT_DIM.1, Self::TEXT_DIM.2)
    }

    /// Sequence that resets the colours.
    pub fn reset_colors() -> (s: String)
        ensures
            s@ == "\x1b[m"@,
    {
        KittyTerminal::reset_colors()
    }
}

} // verus!
