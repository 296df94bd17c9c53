//! Converting a click on the screen to a pane, a position inside the pane
//! and a position in the pane's document.

use vstd::prelude::*;

verus! {

/// The panes of the screen.
#[derive(Debug, Clone, Copy, PartialEq, Eq, Structural)]
pub enum Pane {
    NotesList,
    NotesEditor,
    Extraction,
    Pdf,
}

/// Everything a click conversion reads: the layout mode, the divider, the
/// scroll offsets of the scrolled panes and the terminal's size.
pub struct CoordinateSystem {
    /// Notes mode: a notes list, the notes editor and the extraction pane;
    /// otherwise the PDF and the extraction pane around a divider.
    pub notes_mode: bool,
    /// The divider's column, when it was moved.
    pub split_position: Option<u16>,
    /// Scroll offset `(x, y)` of the notes editor, when it is shown.
    pub notes_viewport: Option<(usize, usize)>,
    /// Scroll offset `(x, y)` of the extraction pane, when it is shown.
    pub extraction_viewport: Option<(usize, usize)>,
    pub term_width: u16,
    pub term_height: u16,
}

/// A click converted: its pane, its position in the pane and in the
/// document (and grid, which is the same position).
pub struct ClickCoordinates {
    pub pane: Pane,
    pub pane_relative: (usize, usize),
    pub document: (usize, usize),
    pub grid: (usize, usize),
}

/// Width of the notes list in notes mode.
pub const NOTES_LIST_WIDTH: u16 = 4;

impl CoordinateSystem {
    /// The divider's column: where it was moved, else the middle.
    pub open spec fn split(&self) -> u16 {
        match self.split_position {
            Some(s) => s,
            None => (self.term_width / 2) as u16,
        }
    }

    /// Where the extraction pane starts in notes mode: after the notes list
    /// and half of the remaining width (none remains on a narrower
    /// terminal).
    pub open spec fn notes_extraction_start(&self) -> int {
        NOTES_LIST_WIDTH + self.term_width.saturating_sub(NOTES_LIST_WIDTH) / 2
    }

    /// The pane of screen column `x`; `None` on the divider.
    pub open spec fn pane_of(&self, x: u16) -> Option<Pane> {
        if self.notes_mode {
            if x < NOTES_LIST_WIDTH {
                Some(Pane::NotesList)
            } else if x < self.notes_extraction_start() {
                Some(Pane::NotesEditor)
            } else {
                Some(Pane::Extraction)
            }
        } else if x < self.split() {
            Some(Pane::Pdf)
        } else if x == self.split() {
            None
        } else {
            Some(Pane::Extraction)
        }
    }

    /// The first screen column of a pane.
    pub open spec fn pane_start(&self, pane: Pane) -> int {
        match pane {
            Pane::NotesList => 0,
            Pane::NotesEditor => NOTES_LIST_WIDTH as int,
            Pane::Extraction => if self.notes_mode {
                self.notes_extraction_start()
            } else {
                self.split() + 1
            },
            Pane::Pdf => 0,
        }
    }

    /// The scroll offset of a pane: the notes editor's and the extraction
    /// pane's when they are shown (`None` when not), and none for the others.
    pub open spec fn viewport_of(&self, pane: Pane) -> Option<(usize, usize)> {
        match pane {
            Pane::NotesEditor => self.notes_viewport,
            Pane::Extraction => self.extraction_viewport,
            _ => Some((0, 0)),
        }
    }

    /// The column inside the pane: the distance from the pane's start, 0
    /// left of it.
    pub open spec fn column_in(&self, x: u16, pane: Pane) -> int {
        if x >= self.pane_start(pane) {
            x - self.pane_start(pane)
        } else {
            0
        }
    }

    /// A conversion system for the given layout.
    pub fn new(
        notes_mode: bool,
        split_position: Option<u16>,
        notes_viewport: Option<(usize, usize)>,
        extraction_viewport: Option<(usize, usize)>,
        term_width: u16,
        term_height: u16,
    ) -> (c: Self)
        ensures
            c.notes_mode == notes_mode && c.split_position == split_position,
            c.notes_viewport == notes_viewport && c.extraction_viewport == extraction_viewport,
            c.term_width == term_width && c.term_height == term_height,
    {
        CoordinateSystem {
            notes_mode,
            split_position,
            notes_viewport,
            extraction_viewport,
            term_width,
            term_height,
        }
    }

    fn split_column(&self) -> (s: u16)
        ensures
            s == self.split(),
    {
        match self.split_position {
            Some(s) => s,
            None => self.term_width / 2,
        }
    }

    /// The pane of screen column `x` (see `pane_of`).
    pub fn which_pane(&self, screen_x: u16) -> (p: Option<Pane>)
        ensures
            p == self.pane_of(screen_x),
    {
        if self.notes_mode {
            let remaining = self.term_width.saturating_sub(NOTES_LIST_WIDTH);
            let extraction_start = NOTES_LIST_WIDTH + remaining / 2;
            if screen_x < NOTES_LIST_WIDTH {
                Some(Pane::NotesList)
            } else if screen_x < extraction_start {
                Some(Pane::NotesEditor)
            } else {
                Some(Pane::Extraction)
            }
        } else {
            let split = self.split_column();
            if screen_x < split {
                Some(Pane::Pdf)
            } else if screen_x == split {
                None
            } else {
                Some(Pane::Extraction)
            }
        }
    }

    /// The first screen column of a pane (see `pane_start`).
    fn get_pane_start_x(&self, pane: Pane) -> (x: u16)
        requires
            !self.notes_mode && pane == Pane::Extraction ==> self.split() < u16::MAX,
        ensures
            x == self.pane_start(pane),
    {
        match pane {
            Pane::NotesList => 0,
            Pane::NotesEditor => NOTES_LIST_WIDTH,
            Pane::Extraction => {
                if self.notes_mode {
                    let remaining = self.term_width.saturating_sub(NOTES_LIST_WIDTH);
                    NOTES_LIST_WIDTH + remaining / 2
                } else {
                    self.split_column() + 1
                }
            },
            Pane::Pdf => 0,
        }
    }

    /// The scroll offset of a pane (see `viewport_of`).
    fn get_viewport_offset(&self, pane: Pane) -> (v: Option<(usize, usize)>)
        ensures
            v == self.viewport_of(pane),
    {
        match pane {
            Pane::NotesEditor => self.notes_viewport,
            Pane::Extraction => self.extraction_viewport,
            _ => Some((0, 0)),
        }
    }

    /// The position of a click inside `pane`: the column from the pane's
    /// start (0 left of it) and the row as it is.
    pub fn screen_to_pane(&self, x: u16, y: u16, pane: Pane) -> (r: Option<(usize, usize)>)
        requires
            !self.notes_mode && pane == Pane::Extraction ==> self.split() < u16::MAX,
        ensures
            r == Some((self.column_in(x, pane) as usize, y as usize)),
    {
        let start = self.get_pane_start_x(pane);
        let pane_x = if x >= start {
            (x - start) as usize
        } else {
            0
        };
        Some((pane_x, y as usize))
    }

    /// A position in `pane` moved by the pane's scroll offset (adding at
    /// most up to `usize::MAX`); `None` when the pane is not shown.
    pub fn pane_to_document(&self, pane_x: usize, pane_y: usize, pane: Pane) -> (r: Option<
        (usize, usize),
    >)
        ensures
            r == match self.viewport_of(pane) {
                Some((vx, vy)) => Some((pane_x.saturating_add(vx), pane_y.saturating_add(vy))),
                None => None,
            },
    {
        match self.get_viewport_offset(pane) {
            Some((vx, vy)) => Some((pane_x.saturating_add(vx), pane_y.saturating_add(vy))),
            None => None,
        }
    }

    /// The document position of a click: its pane, its position there,
    /// moved by the pane's scroll offset.
    pub fn screen_to_document(&self, screen_x: u16, screen_y: u16) -> (r: Option<(usize, usize)>)
        requires
            !self.notes_mode ==> self.split() < u16::MAX,
        ensures
            r == match self.pane_of(screen_x) {
                None => None,
                Some(p) => match self.viewport_of(p) {
                    None => None,
                    Some((vx, vy)) => Some(
                        (
                            (self.column_in(screen_x, p) as usize).saturating_add(vx),
                            (screen_y as usize).saturating_add(vy),
                        ),
                    ),
                },
            },
    {
        let pane = match self.which_pane(screen_x) {
            Some(p) => p,
            None => {
                return None;
            },
        };
        let (px, py) = match self.screen_to_pane(screen_x, screen_y, pane) {
            Some(c) => c,
            None => {
                return None;
            },
        };
        self.pane_to_document(px, py, pane)
    }

    /// The scrolled position of a click fits in `usize`.
    pub open spec fn click_fits(&self, x: u16, y: u16) -> bool {
        match self.pane_of(x) {
            Some(p) => match self.viewport_of(p) {
                Some((vx, vy)) => self.column_in(x, p) + vx <= usize::MAX && y + vy <= usize::MAX,
                None => true,
            },
            None => true,
        }
    }

    /// Everything about a click: its pane, its position there and in the
    /// document; `None` on the divider or in a pane that is not shown.
    pub fn process_click(&self, screen_x: u16, screen_y: u16) -> (r: Option<ClickCoordinates>)
        requires
            !self.notes_mode ==> self.split() < u16::MAX,
            self.click_fits(screen_x, screen_y),
        ensures
            match self.pane_of(screen_x) {
                None => r is None,
                Some(p) => match self.viewport_of(p) {
                    None => r is None,
                    Some((vx, vy)) => r matches Some(c) && c.pane == p && c.pane_relative == (
                        self.column_in(screen_x, p) as usize,
                        screen_y as usize,
                    ) && c.document == ((self.column_in(screen_x, p) + vx) as usize, (screen_y + vy) as usize)
                        && c.grid == c.document,
                },
            },
    {
        let pane = match self.which_pane(screen_x) {
            Some(p) => p,
            None => {
                return None;
            },
        };
        let start = self.get_pane_start_x(pane);
        let pane_x = if screen_x >= start {
            (screen_x - start) as usize
        } else {
            0
        };
        let pane_y = screen_y as usize;
        let (viewport_x, viewport_y) = match self.get_viewport_offset(pane) {
            Some(v) => v,
            None => {
                return None;
            },
        };
        let doc_x = pane_x + viewport_x;
        let doc_y = pane_y + viewport_y;
        Some(
            ClickCoordinates {
                pane,
                pane_relative: (pane_x, pane_y),
                document: (doc_x, doc_y),
                grid: (doc_x, doc_y),
            },
        )
    }
}

} // verus!
