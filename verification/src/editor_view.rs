//! Keeping the cursor on screen: the viewport of the editor follows the
//! cursor through lines wrapped at the screen's width.

use crate::editor::{len_of_line, lemma_line_measures, App, AppView};
use crate::config::timing::{FRAME_TIME_MS, SAVE_INTERVAL_MS};
use crate::rope::line_count;
use vstd::prelude::*;

verus! {

/// Screen rows a line of `len` characters takes when wrapped at `w`
/// columns: one for an empty line.
pub open spec fn wrapped_rows(len: usize, w: usize) -> usize
    recommends
        w > 0,
{
    if len == 0 {
        1
    } else {
        (len / w + if len % w == 0 {
            0usize
        } else {
            1usize
        }) as usize
    }
}

/// Screen rows taken by the first `k` lines of `s` wrapped at `w` columns
/// (counting stops at `usize::MAX`).
pub open spec fn rows_above(s: Seq<char>, k: nat, w: usize) -> usize
    decreases k,
{
    if k == 0 {
        0
    } else {
        rows_above(s, (k - 1) as nat, w).saturating_add(wrapped_rows(len_of_line(s, k - 1), w))
    }
}

/// The screen row, counted from the top of the text, of the cursor at
/// `(row, col)`: the rows of the lines above it and the wrapped rows of its
/// own line before it; past the last line, the rows of the whole text.
pub open spec fn cursor_screen_row(s: Seq<char>, row: usize, col: usize, w: usize) -> usize {
    if row < line_count(s) {
        rows_above(s, row as nat, w).saturating_add(col / w)
    } else {
        rows_above(s, line_count(s), w)
    }
}

/// The viewport after the cursor moved, for a screen `w` columns wide and
/// `h` rows high: no horizontal scroll; when the cursor is within a third
/// of the height from the bottom the viewport starts that third above the
/// cursor's line (if it started above that line), and when it is within a
/// third from the top the viewport moves up one line.
pub open spec fn viewport_followed(v: AppView, w: u16, h: u16) -> AppView {
    let sr = cursor_screen_row(v.text, v.cursor_row, v.cursor_col, w as usize);
    let margin = (h / 3) as usize;
    let row = if sr >= h - margin {
        if v.viewport_row < v.cursor_row {
            v.cursor_row.saturating_sub(margin)
        } else {
            v.viewport_row
        }
    } else if sr < margin && v.viewport_row > 0 {
        (v.viewport_row - 1) as usize
    } else {
        v.viewport_row
    };
    AppView { viewport_col: 0, viewport_row: row, ..v }
}

/// Screen rows a line of `len` characters takes when wrapped at `w`.
fn line_rows(len: usize, w: usize) -> (r: usize)
    requires
        w > 0,
    ensures
        r == wrapped_rows(len, w),
{
    if len == 0 {
        1
    } else {
        assert(len % w != 0 ==> len / w < len) by (nonlinear_arith)
            requires
                w > 0,
                len > 0,
        ;
        len / w + if len % w == 0 {
            0
        } else {
            1
        }
    }
}

impl App {
    /// Moves the viewport so that the cursor stays visible (see
    /// `viewport_followed`).
    pub fn update_viewport(&mut self, viewport_width: u16, viewport_height: u16)
        requires
            viewport_width > 0,
        ensures
            final(self).view() == viewport_followed(old(self).view(), viewport_width, viewport_height),
    {
        let ghost s = self.text_buffer.text();
        let wrap_width = viewport_width as usize;
        let count = self.text_buffer.line_count();
        let mut screen_row: usize = 0;
        let mut row: usize = 0;
        loop
            invariant_except_break
                row <= self.cursor_row,
                row <= count,
                screen_row == rows_above(s, row as nat, wrap_width),
            invariant
                wrap_width > 0,
                wrap_width == viewport_width as usize,
                count == line_count(s),
                s == self.text_buffer.text(),
            ensures
                screen_row == cursor_screen_row(s, self.cursor_row, self.cursor_col, wrap_width),
            decreases count - row,
        {
            if row >= count {
                break;
            }
            if row < self.cursor_row {
                let line_len = self.text_buffer.get_line_length(row);
                proof {
                    lemma_line_measures(s, row as int);
                }
                screen_row = screen_row.saturating_add(line_rows(line_len, wrap_width));
                row = row + 1;
            } else {
                screen_row = screen_row.saturating_add(self.cursor_col / wrap_width);
                break;
            }
        }
        let margin_rows = (viewport_height / 3) as usize;
        if screen_row >= viewport_height as usize - margin_rows {
            if self.viewport_row < self.cursor_row {
                self.viewport_row = self.cursor_row.saturating_sub(margin_rows);
            }
        } else if screen_row < margin_rows && self.viewport_row > 0 {
            self.viewport_row = self.viewport_row - 1;
        }
        self.viewport_col = 0;
    }

    /// Keeps the cursor out of the columns under the expanded sidebar.
    pub fn clamp_cursor_to_visible_area(&mut self, sidebar_width: u16)
        ensures
            final(self).view() == (AppView {
                cursor_col: if old(self).sidebar_expanded && old(self).cursor_col < sidebar_width {
                    sidebar_width as usize
                } else {
                    old(self).cursor_col
                },
                ..old(self).view()
            }),
    {
        let min_col = if self.sidebar_expanded {
            sidebar_width as usize
        } else {
            0
        };
        if self.cursor_col < min_col {
            self.cursor_col = min_col;
        }
    }
}

impl App {
    /// Whether the open note is due to be saved: it changed and the last
    /// save was at least `SAVE_INTERVAL_MS` ago.
    pub fn auto_save_due(&self, since_save_ms: u128) -> (b: bool)
        ensures
            b == (self.dirty && since_save_ms >= SAVE_INTERVAL_MS),
    {
        self.dirty && since_save_ms >= SAVE_INTERVAL_MS
    }

    /// Whether the screen is due to be drawn: it needs drawing, and either
    /// that is urgent or a frame time has passed since the last drawing.
    pub fn render_due(&self, since_render_ms: u128) -> (b: bool)
        ensures
            b == (self.needs_redraw && (self.force_immediate_render || since_render_ms >= FRAME_TIME_MS)),
    {
        self.needs_redraw && (self.force_immediate_render || since_render_ms >= FRAME_TIME_MS)
    }
}

} // verus!
