//! What the mouse does in the editor: the menu bar, the notes menu and the
//! sidebar open notes, a click places the cursor (a double click selects
//! the line), and dragging selects. The clock stays with the caller, which
//! reports the time since the last click.

use crate::config::layout::{SIDEBAR_WIDTH_COLLAPSED, SIDEBAR_WIDTH_EXPANDED};
use crate::editor::{
    len_of_line, last_line, lemma_line_measures, lemma_note_views, loaded, min_of, opt_view,
    redraw, saved, saved_note, App, AppView, Note, NoteView,
};
use crate::text_buffer::Selection;
use vstd::prelude::*;

verus! {

/// A mouse event at screen cell `(x, y)`: a press, a drag, or (neither) a
/// release.
pub struct MouseEvent {
    pub x: u16,
    pub y: u16,
    pub is_press: bool,
    pub is_drag: bool,
}

/// What the mouse has been doing: a drag and where it started, and the
/// position of the last click (kept for recognising a double click).
pub struct MouseState {
    pub dragging: bool,
    pub drag_start_row: usize,
    pub drag_start_col: usize,
    pub last_click_row: Option<usize>,
    pub last_click_col: Option<usize>,
}

/// Longest time between two clicks of a double click, in milliseconds.
pub const DOUBLE_CLICK_MS: u128 = 500;

/// The note to write after a mouse event, and whether the caller should
/// remember now as the time of the last click.
pub struct MouseOutcome {
    pub save: Option<Note>,
    pub click_recorded: bool,
}

impl MouseState {
    /// No drag and no click yet.
    pub fn new() -> (s: Self)
        ensures
            !s.dragging && s.drag_start_row == 0 && s.drag_start_col == 0,
            s.last_click_row is None && s.last_click_col is None,
    {
        MouseState {
            dragging: false,
            drag_start_row: 0,
            drag_start_col: 0,
            last_click_row: None,
            last_click_col: None,
        }
    }
}

/// Width of the sidebar as it is drawn.
pub open spec fn sidebar_width(v: AppView) -> u16 {
    if v.sidebar_expanded {
        SIDEBAR_WIDTH_EXPANDED
    } else {
        SIDEBAR_WIDTH_COLLAPSED
    }
}

/// A click on the menu bar: the Notes button (columns 0 to 9) and the Help
/// button (10 to 17) toggle their menus and close the other one.
pub open spec fn menu_bar_clicked(v: AppView, col: u16) -> AppView {
    if col < 10 {
        redraw(AppView { notes_menu_expanded: !v.notes_menu_expanded, help_menu_expanded: false, ..v })
    } else if col < 18 {
        redraw(AppView { help_menu_expanded: !v.help_menu_expanded, notes_menu_expanded: false, ..v })
    } else {
        v
    }
}

/// The open note saved and note `i` of the list opened at its top, with
/// the viewport at the top.
pub open spec fn opened_at_top(v: AppView, i: usize) -> AppView {
    let w = saved(v);
    redraw(
        AppView {
            cursor_row: 0,
            cursor_col: 0,
            viewport_row: 0,
            viewport_col: 0,
            ..loaded(AppView { selected_note_index: i, ..w }, w.notes_list[i as int])
        },
    )
}

/// A click on row `row` of the notes menu (its entries start at row 2):
/// the note there opens and the menu closes.
pub open spec fn notes_menu_clicked(v: AppView, row: u16) -> (AppView, Option<NoteView>) {
    let i = (row - 2) as usize;
    if i < v.notes_list.len() {
        (AppView { notes_menu_expanded: false, ..opened_at_top(v, i) }, saved_note(v))
    } else {
        (v, None)
    }
}

/// A click on row `row` of the sidebar (its entries start at row 1, after
/// the scrolled-away ones): the note there opens and the sidebar expands.
pub open spec fn sidebar_clicked(v: AppView, row: u16) -> (AppView, Option<NoteView>) {
    let r: int = if row > 0 {
        row - 1
    } else {
        0
    };
    let i = (v.notes_list_scroll + r) as usize;
    if r < v.notes_list.len() && i < v.notes_list.len() {
        (AppView { sidebar_expanded: true, ..opened_at_top(v, i) }, saved_note(v))
    } else {
        (v, None)
    }
}

/// The text position under screen cell `(col, row)` of the editor area:
/// moved by the viewport (the editor starts below the menu bar and right of
/// the sidebar), then clamped to the last line and to the line's length.
pub open spec fn cell_position(v: AppView, col: u16, row: u16) -> (usize, usize) {
    let r = min_of((v.viewport_row + row.saturating_sub(1)) as usize, last_line(v.text) as usize);
    let c = min_of(
        (v.viewport_col + col.saturating_sub(sidebar_width(v))) as usize,
        len_of_line(v.text, r as int),
    );
    (r, c)
}

/// The mouse state as plain values.
pub open spec fn mouse_view(m: MouseState) -> (bool, usize, usize, Option<usize>, Option<usize>) {
    (m.dragging, m.drag_start_row, m.drag_start_col, m.last_click_row, m.last_click_col)
}

/// A click in the editor area: a second click on the same position within
/// `DOUBLE_CLICK_MS` selects its whole line (cursor at the line's end) and
/// forgets the click; otherwise the cursor moves there, the selection goes,
/// a drag starts there, and the click is remembered.
pub open spec fn editor_clicked(
    v: AppView,
    m: (bool, usize, usize, Option<usize>, Option<usize>),
    col: u16,
    row: u16,
    since_last_ms: u128,
) -> (AppView, (bool, usize, usize, Option<usize>, Option<usize>), bool) {
    let (r, c) = cell_position(v, col, row);
    let len = len_of_line(v.text, r as int);
    if m.3 == Some(r) && m.4 == Some(c) && since_last_ms < DOUBLE_CLICK_MS {
        (
            redraw(
                AppView {
                    selection: Some(Selection { start_row: r, start_col: 0, end_row: r, end_col: len }),
                    cursor_row: r,
                    cursor_col: len,
                    ..v
                },
            ),
            (m.0, m.1, m.2, None, None),
            false,
        )
    } else {
        (
            redraw(AppView { cursor_row: r, cursor_col: c, selection: None, ..v }),
            (true, r, c, Some(r), Some(c)),
            true,
        )
    }
}

/// The menus closed by a click outside them.
pub open spec fn menus_closed(v: AppView) -> AppView {
    if v.notes_menu_expanded || v.help_menu_expanded {
        redraw(AppView { notes_menu_expanded: false, help_menu_expanded: false, ..v })
    } else {
        v
    }
}

/// Dragging: the selection runs from where the drag started to the cell
/// under the mouse, where the cursor goes; nothing without a drag.
pub open spec fn dragged(v: AppView, m: (bool, usize, usize, Option<usize>, Option<usize>), col: u16, row: u16) -> AppView {
    if !m.0 {
        v
    } else {
        let (r, c) = cell_position(v, col, row);
        redraw(
            AppView {
                selection: Some(Selection { start_row: m.1, start_col: m.2, end_row: r, end_col: c }),
                cursor_row: r,
                cursor_col: c,
                ..v
            },
        )
    }
}

/// The bounds under which positions of the mouse can be moved by the
/// viewport and the sidebar's scroll without overflow.
pub open spec fn mouse_fits(v: AppView) -> bool {
    &&& v.viewport_row + u16::MAX <= usize::MAX
    &&& v.viewport_col + u16::MAX <= usize::MAX
    &&& v.notes_list_scroll + u16::MAX <= usize::MAX
}

/// What a press of the mouse at `(col, row)` does: on the menu bar, on an
/// open notes menu (rows 2 to 17, columns before 46), on the sidebar, or in
/// the editor area; a click outside the menus closes them first. `fv`, `fm`,
/// `save` and `recorded` are the editor, mouse state, note to write and
/// whether the click is remembered, afterwards.
pub open spec fn mouse_down_result(
    v: AppView,
    m: MouseState,
    fv: AppView,
    fm: MouseState,
    save: Option<NoteView>,
    recorded: bool,
    col: u16,
    row: u16,
    since_last_ms: u128,
) -> bool {
    if row == 0 {
        fv == menu_bar_clicked(v, col) && fm == m && save is None && !recorded
    } else if v.notes_menu_expanded && col < 46 && 2 <= row < 18 {
        (fv, save) == notes_menu_clicked(v, row) && fm == m && !recorded
    } else {
        let w = menus_closed(v);
        if col < sidebar_width(v) {
            (fv, save) == sidebar_clicked(w, row) && fm == m && !recorded
        } else {
            (fv, mouse_view(fm), recorded) == editor_clicked(w, mouse_view(m), col, row, since_last_ms)
                && save is None
        }
    }
}

impl App {
    /// A click on the menu bar (see `menu_bar_clicked`).
    pub fn menu_bar_click(&mut self, col: u16)
        ensures
            final(self).view() == menu_bar_clicked(old(self).view(), col),
    {
        if col < 10 {
            self.notes_menu_expanded = !self.notes_menu_expanded;
            self.help_menu_expanded = false;
            self.needs_redraw = true;
        } else if col < 18 {
            self.help_menu_expanded = !self.help_menu_expanded;
            self.notes_menu_expanded = false;
            self.needs_redraw = true;
        }
    }

    /// Saves the open note and opens note `i` at the top.
    fn open_at_top(&mut self, i: usize) -> (r: Option<Note>)
        requires
            i < old(self).notes_list@.len(),
        ensures
            final(self).view() == opened_at_top(old(self).view(), i),
            opt_view(r) == saved_note(old(self).view()),
    {
        let save = self.save_current_note();
        self.load_note_at(i);
        self.cursor_row = 0;
        self.cursor_col = 0;
        self.viewport_row = 0;
        self.viewport_col = 0;
        self.needs_redraw = true;
        save
    }

    /// A click on the notes menu (see `notes_menu_clicked`); gives the
    /// note to write.
    pub fn notes_menu_click(&mut self, row: u16) -> (r: Option<Note>)
        requires
            row >= 2,
        ensures
            (final(self).view(), opt_view(r)) == notes_menu_clicked(old(self).view(), row),
    {
        proof {
            lemma_note_views(self.notes_list@);
        }
        let i = (row - 2) as usize;
        if i < self.notes_list.len() {
            let save = self.open_at_top(i);
            self.notes_menu_expanded = false;
            save
        } else {
            None
        }
    }

    /// A click on the sidebar (see `sidebar_clicked`); gives the note to
    /// write.
    #[verifier::spinoff_prover]
    pub fn sidebar_click(&mut self, row: u16) -> (r: Option<Note>)
        requires
            mouse_fits(old(self).view()),
        ensures
            (final(self).view(), opt_view(r)) == sidebar_clicked(old(self).view(), row),
    {
        proof {
            lemma_note_views(self.notes_list@);
        }
        let r: usize = if row > 0 {
            (row - 1) as usize
        } else {
            0
        };
        let i = self.notes_list_scroll + r;
        if r < self.notes_list.len() && i < self.notes_list.len() {
            let save = self.open_at_top(i);
            self.sidebar_expanded = true;
            save
        } else {
            None
        }
    }

    /// The text position under a cell of the editor area (see
    /// `cell_position`).
    pub fn cell_to_position(&self, col: u16, row: u16) -> (p: (usize, usize))
        requires
            mouse_fits(self.view()),
        ensures
            p == cell_position(self.view(), col, row),
    {
        let sidebar = if self.sidebar_expanded {
            SIDEBAR_WIDTH_EXPANDED
        } else {
            SIDEBAR_WIDTH_COLLAPSED
        };
        let r = self.viewport_row + row.saturating_sub(1) as usize;
        let c = self.viewport_col + col.saturating_sub(sidebar) as usize;
        let last = self.text_buffer.line_count() - 1;
        proof {
            lemma_line_measures(self.text_buffer.text(), 0);
        }
        let r = if r < last {
            r
        } else {
            last
        };
        let len = self.text_buffer.get_line_length(r);
        proof {
            lemma_line_measures(self.text_buffer.text(), r as int);
        }
        let c = if c < len {
            c
        } else {
            len
        };
        (r, c)
    }

    /// A click in the editor area (see `editor_clicked`); gives whether the
    /// click is to be remembered.
    pub fn editor_click(&mut self, state: &mut MouseState, col: u16, row: u16, since_last_ms: u128) -> (recorded: bool)
        requires
            mouse_fits(old(self).view()),
        ensures
            (final(self).view(), mouse_view(*final(state)), recorded) == editor_clicked(
                old(self).view(),
                mouse_view(*old(state)),
                col,
                row,
                since_last_ms,
            ),
    {
        let (r, c) = self.cell_to_position(col, row);
        let len = self.text_buffer.get_line_length(r);
        proof {
            lemma_line_measures(self.text_buffer.text(), r as int);
        }
        let same = match (state.last_click_row, state.last_click_col) {
            (Some(lr), Some(lc)) => lr == r && lc == c,
            _ => false,
        };
        if same && since_last_ms < DOUBLE_CLICK_MS {
            self.text_buffer.start_selection(r, 0);
            self.text_buffer.update_selection(r, len);
            self.cursor_row = r;
            self.cursor_col = len;
            self.needs_redraw = true;
            state.last_click_row = None;
            state.last_click_col = None;
            false
        } else {
            self.cursor_row = r;
            self.cursor_col = c;
            state.dragging = true;
            state.drag_start_row = r;
            state.drag_start_col = c;
            self.text_buffer.clear_selection();
            self.needs_redraw = true;
            state.last_click_row = Some(r);
            state.last_click_col = Some(c);
            true
        }
    }

    /// Closes the menus (see `menus_closed`).
    fn close_menus(&mut self)
        ensures
            final(self).view() == menus_closed(old(self).view()),
    {
        if self.notes_menu_expanded || self.help_menu_expanded {
            self.notes_menu_expanded = false;
            self.help_menu_expanded = false;
            self.needs_redraw = true;
        }
    }

    /// A press of the mouse: on the menu bar, on an open notes menu (rows 2
    /// to 17, columns before 46), on the sidebar, or in the editor area; a
    /// click outside the menus closes them first.
    #[verifier::spinoff_prover]
    pub fn handle_mouse_down(&mut self, event: &MouseEvent, state: &mut MouseState, since_last_ms: u128) -> (r: MouseOutcome)
        requires
            mouse_fits(old(self).view()),
        ensures
            mouse_down_result(
                old(self).view(),
                *old(state),
                final(self).view(),
                *final(state),
                opt_view(r.save),
                r.click_recorded,
                event.x,
                event.y,
                since_last_ms,
            ),
    {
        let row = event.y;
        let col = event.x;
        if row == 0 {
            self.menu_bar_click(col);
            return MouseOutcome { save: None, click_recorded: false };
        }
        if self.notes_menu_expanded && col < 46 && row >= 2 && row < 18 {
            let save = self.notes_menu_click(row);
            return MouseOutcome { save, click_recorded: false };
        }
        let sidebar = if self.sidebar_expanded {
            SIDEBAR_WIDTH_EXPANDED
        } else {
            SIDEBAR_WIDTH_COLLAPSED
        };
        self.close_menus();
        if col < sidebar {
            let save = self.sidebar_click(row);
            MouseOutcome { save, click_recorded: false }
        } else {
            let recorded = self.editor_click(state, col, row, since_last_ms);
            MouseOutcome { save: None, click_recorded: recorded }
        }
    }

    /// The mouse moved with its button held (see `dragged`).
    pub fn handle_mouse_drag(&mut self, event: &MouseEvent, state: &MouseState)
        requires
            mouse_fits(old(self).view()),
        ensures
            final(self).view() == dragged(old(self).view(), mouse_view(*state), event.x, event.y),
    {
        if !state.dragging {
            return;
        }
        let (r, c) = self.cell_to_position(event.x, event.y);
        self.text_buffer.start_selection(state.drag_start_row, state.drag_start_col);
        self.text_buffer.update_selection(r, c);
        self.cursor_row = r;
        self.cursor_col = c;
        self.needs_redraw = true;
    }

    /// The mouse button was released: the drag ends.
    pub fn handle_mouse_up(&mut self, state: &mut MouseState)
        ensures
            final(self).view() == redraw(old(self).view()),
            !final(state).dragging,
            final(state).drag_start_row == old(state).drag_start_row,
            final(state).drag_start_col == old(state).drag_start_col,
            final(state).last_click_row == old(state).last_click_row,
            final(state).last_click_col == old(state).last_click_col,
    {
        state.dragging = false;
        self.needs_redraw = true;
    }
}

impl App {
    /// A mouse event: a drag extends the selection, a press is a click, and
    /// anything else releases the button.
    pub fn handle_mouse(&mut self, event: &MouseEvent, state: &mut MouseState, since_last_ms: u128) -> (r: MouseOutcome)
        requires
            mouse_fits(old(self).view()),
        ensures
            event.is_drag ==> final(self).view() == dragged(old(self).view(), mouse_view(*old(state)), event.x, event.y)
                && *final(state) == *old(state) && r.save is None && !r.click_recorded,
            !event.is_drag && event.is_press ==> mouse_down_result(
                old(self).view(),
                *old(state),
                final(self).view(),
                *final(state),
                opt_view(r.save),
                r.click_recorded,
                event.x,
                event.y,
                since_last_ms,
            ),
            !event.is_drag && !event.is_press ==> final(self).view() == redraw(old(self).view())
                && !final(state).dragging && r.save is None && !r.click_recorded,
    {
        if event.is_drag {
            self.handle_mouse_drag(event, state);
            MouseOutcome { save: None, click_recorded: false }
        } else if event.is_press {
            self.handle_mouse_down(event, state, since_last_ms)
        } else {
            self.handle_mouse_up(state);
            MouseOutcome { save: None, click_recorded: false }
        }
    }
}

} // verus!
