//! Coordinate information shown in the terminal title or a status line,
//! without disturbing the editor's screen.

use crate::kitty_native::literal;
use crate::text_format::{decimal, push_decimal, push_spaces, push_str};
use vstd::prelude::*;

verus! {

/// Coordinates of the mouse, the cursor and the viewport, and the active
/// pane's name.
pub struct DebugInfo {
    pub mouse_screen: (u16, u16),
    pub mouse_document: (usize, usize),
    pub cursor_grid: (usize, usize),
    pub viewport: (usize, usize),
    pub active_pane: String,
}

/// `"(a,b)"` in decimal.
pub open spec fn pair_text(a: nat, b: nat) -> Seq<char> {
    seq!['('] + decimal(a) + seq![','] + decimal(b) + seq![')']
}

fn push_pair(s: &mut String, a: u64, b: u64)
    ensures
        final(s)@ == old(s)@ + pair_text(a as nat, b as nat),
{
    s.push('(');
    push_decimal(s, a);
    s.push(',');
    push_decimal(s, b);
    s.push(')');
    assert(final(s)@ =~= old(s)@ + pair_text(a as nat, b as nat));
}

impl DebugInfo {
    /// The title-bar text that `render` sets.
    pub open spec fn title_text(&self) -> Seq<char> {
        "Mouse:"@ + pair_text(self.mouse_screen.0 as nat, self.mouse_screen.1 as nat) + "→Doc:"@
            + pair_text(self.mouse_document.0 as nat, self.mouse_document.1 as nat)
            + " Cursor:"@ + pair_text(self.cursor_grid.0 as nat, self.cursor_grid.1 as nat)
            + " Viewport:"@ + pair_text(self.viewport.0 as nat, self.viewport.1 as nat) + " Pane:"@
            + self.active_pane@
    }

    /// The sequence that shows the coordinates in the terminal's title bar:
    /// `ESC ] 0 ; text BEL`.
    pub fn render(&self) -> (s: String)
        ensures
            s@ == "\x1b]0;"@ + self.title_text() + "\x07"@,
    {
        let mut s = literal("\x1b]0;");
        push_str(&mut s, "Mouse:");
        push_pair(&mut s, self.mouse_screen.0 as u64, self.mouse_screen.1 as u64);
        push_str(&mut s, "→Doc:");
        push_pair(&mut s, self.mouse_document.0 as u64, self.mouse_document.1 as u64);
        push_str(&mut s, " Cursor:");
        push_pair(&mut s, self.cursor_grid.0 as u64, self.cursor_grid.1 as u64);
        push_str(&mut s, " Viewport:");
        push_pair(&mut s, self.viewport.0 as u64, self.viewport.1 as u64);
        push_str(&mut s, " Pane:");
        push_str(&mut s, self.active_pane.as_str());
        push_str(&mut s, "\x07");
        assert(s@ =~= "\x1b]0;"@ + self.title_text() + "\x07"@);
        s
    }
}

/// The status line text before padding.
pub open spec fn status_text(info: DebugInfo) -> Seq<char> {
    " M:"@ + pair_text(info.mouse_screen.0 as nat, info.mouse_screen.1 as nat) + " C:"@
        + pair_text(info.cursor_grid.0 as nat, info.cursor_grid.1 as nat) + " V:"@ + pair_text(
        info.viewport.0 as nat,
        info.viewport.1 as nat,
    ) + " "@ + info.active_pane@
}

/// `t` padded with spaces on the right to `width` characters.
pub open spec fn pad_right(t: Seq<char>, width: int) -> Seq<char> {
    if t.len() < width {
        t + Seq::new((width - t.len()) as nat, |i: int| ' ')
    } else {
        t
    }
}

/// A reverse-video status line with the coordinates, padded to `width`
/// columns.
pub fn render_status_line(info: &DebugInfo, width: u16) -> (s: String)
    ensures
        s@ == "\x1b[7m"@ + pad_right(status_text(*info), width as int) + "\x1b[0m"@,
{
    let mut status = literal(" M:");
    push_pair(&mut status, info.mouse_screen.0 as u64, info.mouse_screen.1 as u64);
    push_str(&mut status, " C:");
    push_pair(&mut status, info.cursor_grid.0 as u64, info.cursor_grid.1 as u64);
    push_str(&mut status, " V:");
    push_pair(&mut status, info.viewport.0 as u64, info.viewport.1 as u64);
    push_str(&mut status, " ");
    push_str(&mut status, info.active_pane.as_str());
    assert(status@ =~= status_text(*info));
    let n = count_up_to(&status, width as usize);
    if n < width as usize {
        push_spaces(&mut status, width as usize - n);
    }
    assert(status@ =~= pad_right(status_text(*info), width as int));
    let mut s = literal("\x1b[7m");
    push_str(&mut s, status.as_str());
    push_str(&mut s, "\x1b[0m");
    s
}

/// The number of characters of `s`, or `limit` if `s` has more.
pub fn count_up_to(s: &String, limit: usize) -> (n: usize)
    ensures
        n == (if s@.len() < limit {
            s@.len() as int
        } else {
            limit as int
        }),
{
    let mut n: usize = 0;
    for _ch in it: s.as_str().chars()
        invariant
            n == it.index(),
            it.seq() == s@,
            n <= limit,
    {
        if n == limit {
            return n;
        }
        n = n + 1;
    }
    n
}

} // verus!
