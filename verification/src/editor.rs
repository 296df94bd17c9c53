//! The notes editor's state and what each key does to it. Note files, the
//! clipboard and the clock stay with the caller: a key gives an `Outcome`
//! naming the note to write, the note to delete and the outside work that
//! comes next, and the caller reports the result of that work back.

use crate::kitty_native::{literal, KeyCode, KeyEvent};
use crate::rope::{line_chars, line_count};
use crate::std_text::{lowercase, to_lowercase};
use crate::text_buffer::{
    line_length, pos_index, pos_of_index, selection_range, Selection, TextBuffer,
};
use crate::text_format::{decimal, push_decimal, push_str};
use crate::text_lines::{lines_spec, split_lines};
use crate::undo::{restored_text, UndoStack};
use vstd::prelude::*;
use vstd::utf8::encode_utf8;

verus! {

/// A note: its identifier, title, whole content (title line included) and
/// the path of its file.
pub struct Note {
    pub id: String,
    pub title: String,
    pub content: String,
    pub path: String,
}

/// A note as plain character sequences.
pub struct NoteView {
    pub id: Seq<char>,
    pub title: Seq<char>,
    pub content: Seq<char>,
    pub path: Seq<char>,
}

impl Note {
    pub open spec fn view(&self) -> NoteView {
        NoteView { id: self.id@, title: self.title@, content: self.content@, path: self.path@ }
    }
}

impl Clone for Note {
    fn clone(&self) -> (r: Self)
        ensures
            r.view() == self.view(),
    {
        Note {
            id: self.id.clone(),
            title: self.title.clone(),
            content: self.content.clone(),
            path: self.path.clone(),
        }
    }
}

/// The notes of a list as plain values.
#[verifier::opaque]
pub open spec fn note_views(v: Seq<Note>) -> Seq<NoteView> {
    v.map_values(|n: Note| n.view())
}

/// The views of a list have its length, and each is the view of its note.
pub proof fn lemma_note_views(v: Seq<Note>)
    ensures
        note_views(v).len() == v.len(),
        forall|i: int| 0 <= i < v.len() ==> #[trigger] note_views(v)[i] == v[i].view(),
{
    reveal(note_views);
}

/// Replacing a note replaces its view.
pub proof fn lemma_note_views_update(v: Seq<Note>, i: int, n: Note)
    requires
        0 <= i < v.len(),
    ensures
        note_views(v.update(i, n)) == note_views(v).update(i, n.view()),
{
    reveal(note_views);
    assert(note_views(v.update(i, n)) =~= note_views(v).update(i, n.view()));
}

/// Inserting a note inserts its view.
pub proof fn lemma_note_views_insert(v: Seq<Note>, i: int, n: Note)
    requires
        0 <= i <= v.len(),
    ensures
        note_views(v.insert(i, n)) == note_views(v).insert(i, n.view()),
{
    reveal(note_views);
    assert(note_views(v.insert(i, n)) =~= note_views(v).insert(i, n.view()));
}

/// Removing a note removes its view.
pub proof fn lemma_note_views_remove(v: Seq<Note>, i: int)
    requires
        0 <= i < v.len(),
    ensures
        note_views(v.remove(i)) == note_views(v).remove(i),
{
    reveal(note_views);
    assert(note_views(v.remove(i)) =~= note_views(v).remove(i));
}

/// The title a note takes from its content: its first line, or `Untitled`
/// when it has none.
pub open spec fn note_title(content: Seq<char>) -> Seq<char> {
    if lines_spec(content).len() > 0 {
        lines_spec(content)[0]
    } else {
        "Untitled"@
    }
}

/// Everything the editor holds, as plain values.
pub struct AppView {
    pub current_note: Option<NoteView>,
    pub text: Seq<char>,
    pub selection: Option<Selection>,
    pub cursor_row: usize,
    pub cursor_col: usize,
    pub viewport_row: usize,
    pub viewport_col: usize,
    pub notes_list: Seq<NoteView>,
    pub selected_note_index: usize,
    pub notes_list_scroll: usize,
    pub sidebar_expanded: bool,
    pub editing_title: bool,
    pub title_buffer: Seq<char>,
    pub status_message: Seq<char>,
    pub exit_requested: bool,
    pub needs_redraw: bool,
    pub force_immediate_render: bool,
    pub delete_confirmation_note: Option<usize>,
    pub dirty: bool,
    pub undo_states: Seq<(Seq<char>, usize, usize)>,
    pub redo_states: Seq<(Seq<char>, usize, usize)>,
    pub undo_capacity: nat,
    pub search_mode: bool,
    pub search_query: Seq<char>,
    pub search_results: Seq<(usize, usize)>,
    pub current_search_index: usize,
    pub soft_wrap_paste: bool,
    pub notes_menu_expanded: bool,
    pub settings_panel_expanded: bool,
    pub help_menu_expanded: bool,
}

/// The editor: the open note in a text buffer, the cursor and viewport, the
/// list of notes, the menus, search, undo history and status line.
pub struct App {
    pub current_note: Option<Note>,
    pub text_buffer: TextBuffer,
    pub cursor_row: usize,
    pub cursor_col: usize,
    pub viewport_row: usize,
    pub viewport_col: usize,
    pub notes_list: Vec<Note>,
    pub selected_note_index: usize,
    pub notes_list_scroll: usize,
    pub sidebar_expanded: bool,
    pub editing_title: bool,
    pub title_buffer: String,
    pub status_message: String,
    pub exit_requested: bool,
    pub needs_redraw: bool,
    pub force_immediate_render: bool,
    pub delete_confirmation_note: Option<usize>,
    pub dirty: bool,
    pub undo_stack: UndoStack,
    pub search_mode: bool,
    pub search_query: String,
    pub search_results: Vec<(usize, usize)>,
    pub current_search_index: usize,
    pub soft_wrap_paste: bool,
    pub notes_menu_expanded: bool,
    pub settings_panel_expanded: bool,
    pub help_menu_expanded: bool,
}

/// Number of undo levels kept.
pub const UNDO_LEVELS: usize = 100;

/// The state with the screen marked for redrawing.
pub open spec fn redraw(v: AppView) -> AppView {
    AppView { needs_redraw: true, ..v }
}

/// The state with a status message.
pub open spec fn status(v: AppView, msg: Seq<char>) -> AppView {
    AppView { status_message: msg, ..v }
}

/// The state after the current note takes the buffer's text and the title
/// of its first line, and its entry in the list (at the selected index)
/// takes the same note; the note is then clean.
#[verifier::opaque]
pub open spec fn saved(v: AppView) -> AppView {
    match v.current_note {
        None => v,
        Some(n) => {
            let note = NoteView { content: v.text, title: note_title(v.text), ..n };
            AppView {
                current_note: Some(note),
                notes_list: if v.selected_note_index < v.notes_list.len() {
                    v.notes_list.update(v.selected_note_index as int, note)
                } else {
                    v.notes_list
                },
                dirty: false,
                ..v
            }
        },
    }
}

/// The note that saving writes to its file.
pub open spec fn saved_note(v: AppView) -> Option<NoteView> {
    saved(v).current_note
}

/// The state with note `n` open in a fresh buffer (cursor and viewport
/// unchanged).
#[verifier::opaque]
pub open spec fn loaded(v: AppView, n: NoteView) -> AppView {
    AppView { text: restored_text(n.content), selection: None, current_note: Some(n), ..v }
}

/// The state after the buffer and cursor are recorded for undoing.
pub open spec fn undo_pushed(v: AppView) -> AppView {
    let pushed = v.undo_states.push((v.text, v.cursor_row, v.cursor_col));
    AppView {
        undo_states: if pushed.len() > v.undo_capacity {
            pushed.drop_first()
        } else {
            pushed
        },
        redo_states: Seq::empty(),
        ..v
    }
}

impl App {
    pub open spec fn view(&self) -> AppView {
        AppView {
            current_note: match self.current_note {
                Some(n) => Some(n.view()),
                None => None,
            },
            text: self.text_buffer.text(),
            selection: self.text_buffer.sel(),
            cursor_row: self.cursor_row,
            cursor_col: self.cursor_col,
            viewport_row: self.viewport_row,
            viewport_col: self.viewport_col,
            notes_list: note_views(self.notes_list@),
            selected_note_index: self.selected_note_index,
            notes_list_scroll: self.notes_list_scroll,
            sidebar_expanded: self.sidebar_expanded,
            editing_title: self.editing_title,
            title_buffer: self.title_buffer@,
            status_message: self.status_message@,
            exit_requested: self.exit_requested,
            needs_redraw: self.needs_redraw,
            force_immediate_render: self.force_immediate_render,
            delete_confirmation_note: self.delete_confirmation_note,
            dirty: self.dirty,
            undo_states: self.undo_stack.undo_states(),
            redo_states: self.undo_stack.redo_states(),
            undo_capacity: self.undo_stack.capacity(),
            search_mode: self.search_mode,
            search_query: self.search_query@,
            search_results: self.search_results@,
            current_search_index: self.current_search_index,
            soft_wrap_paste: self.soft_wrap_paste,
            notes_menu_expanded: self.notes_menu_expanded,
            settings_panel_expanded: self.settings_panel_expanded,
            help_menu_expanded: self.help_menu_expanded,
        }
    }

    /// The bounds under which keys can be handled without overflow: the
    /// cursor and selection stay clear of `usize::MAX`, and an open note has
    /// an entry in the list at the selected index.
    pub open spec fn inv(&self) -> bool {
        &&& self.cursor_row < usize::MAX - 20
        &&& self.cursor_col < usize::MAX
        &&& self.current_search_index < usize::MAX
        &&& (self.text_buffer.sel() matches Some(s) ==> {
            &&& s.start_row < usize::MAX - 20
            &&& s.end_row < usize::MAX - 20
            &&& s.start_col < usize::MAX
            &&& s.end_col < usize::MAX
        })
        &&& (self.selected_note_index < self.notes_list@.len() || self.selected_note_index == 0)
        &&& (self.current_note is Some ==> self.selected_note_index < self.notes_list@.len())
        &&& (self.search_results@.len() > 0 ==> self.current_search_index
            < self.search_results@.len())
    }

    /// An editor on the given notes, with the first one open (an empty
    /// buffer when there is none).
    pub fn from_notes(notes_list: Vec<Note>) -> (app: Self)
        ensures
            app.view().notes_list == note_views(notes_list@),
            app.view().current_note == if notes_list@.len() > 0 {
                Some(notes_list@[0].view())
            } else {
                None::<NoteView>
            },
            app.view().text == if notes_list@.len() > 0 {
                restored_text(notes_list@[0].content@)
            } else {
                seq!['\n']
            },
            app.view().selection is None,
            app.view().cursor_row == 0 && app.view().cursor_col == 0,
            app.view().viewport_row == 0 && app.view().viewport_col == 0,
            app.view().selected_note_index == 0 && app.view().notes_list_scroll == 0,
            !app.view().sidebar_expanded && !app.view().editing_title,
            app.view().title_buffer == Seq::<char>::empty(),
            app.view().status_message == "Ready"@,
            !app.view().exit_requested && app.view().needs_redraw,
            !app.view().force_immediate_render,
            app.view().delete_confirmation_note is None,
            !app.view().dirty,
            app.view().undo_states.len() == 0 && app.view().redo_states.len() == 0,
            app.view().undo_capacity == UNDO_LEVELS,
            !app.view().search_mode && app.view().search_query == Seq::<char>::empty(),
            app.view().search_results == Seq::<(usize, usize)>::empty(),
            app.view().current_search_index == 0,
            app.view().soft_wrap_paste,
            !app.view().notes_menu_expanded && !app.view().settings_panel_expanded,
            !app.view().help_menu_expanded,
    {
        let (text_buffer, current_note) = if notes_list.len() > 0 {
            let first = notes_list[0].clone();
            (TextBuffer::from_string(first.content.as_str()), Some(first))
        } else {
            (TextBuffer::new(), None)
        };
        App {
            current_note,
            text_buffer,
            cursor_row: 0,
            cursor_col: 0,
            viewport_row: 0,
            viewport_col: 0,
            notes_list,
            selected_note_index: 0,
            notes_list_scroll: 0,
            sidebar_expanded: false,
            editing_title: false,
            title_buffer: String::new(),
            status_message: literal("Ready"),
            exit_requested: false,
            needs_redraw: true,
            force_immediate_render: false,
            delete_confirmation_note: None,
            dirty: false,
            undo_stack: UndoStack::new(UNDO_LEVELS),
            search_mode: false,
            search_query: String::new(),
            search_results: Vec::new(),
            current_search_index: 0,
            soft_wrap_paste: true,
            notes_menu_expanded: false,
            settings_panel_expanded: false,
            help_menu_expanded: false,
        }
    }

    /// Marks the note as changed since it was last saved.
    pub fn mark_dirty(&mut self)
        ensures
            final(self).view() == (AppView { dirty: true, ..old(self).view() }),
    {
        self.dirty = true;
    }

    /// Updates the open note (and its list entry) from the buffer and gives
    /// the note to write to its file; `None` when no note is open.
    #[verifier::spinoff_prover]
    pub fn save_current_note(&mut self) -> (r: Option<Note>)
        ensures
            final(self).view() == saved(old(self).view()),
            final(self).notes_list@.len() == old(self).notes_list@.len(),
            final(self).selected_note_index == old(self).selected_note_index,
            match r {
                Some(n) => saved_note(old(self).view()) == Some(n.view()),
                None => saved_note(old(self).view()) is None,
            },
    {
        reveal(saved);
        proof {
            lemma_note_views(self.notes_list@);
        }
        let ghost v = self.view();
        let content = self.text_buffer.to_string();
        let title = first_line_title(&content);
        let note = match &self.current_note {
            Some(n) => Note { id: n.id.clone(), title, content, path: n.path.clone() },
            None => {
                return None;
            },
        };
        if self.selected_note_index < self.notes_list.len() {
            let ghost before = self.notes_list@;
            let entry = note.clone();
            let ghost e = entry;
            self.notes_list.set(self.selected_note_index, entry);
            proof {
                lemma_note_views_update(before, self.selected_note_index as int, e);
            }
        }
        let written = note.clone();
        self.current_note = Some(note);
        self.dirty = false;
        Some(written)
    }

    /// Opens note `idx` of the list in a fresh buffer.
    pub(crate) fn load_note(&mut self, idx: usize)
        requires
            idx < old(self).notes_list@.len(),
        ensures
            final(self).view() == loaded(old(self).view(), old(self).view().notes_list[idx as int]),
    {
        reveal(loaded);
        proof {
            lemma_note_views(self.notes_list@);
        }
        let note = self.notes_list[idx].clone();
        self.text_buffer = TextBuffer::from_string(note.content.as_str());
        self.current_note = Some(note);
        assert(self.view().notes_list =~= old(self).view().notes_list);
    }

    /// Selects note `idx` of the list and opens it in a fresh buffer.
    pub(crate) fn load_note_at(&mut self, idx: usize)
        requires
            idx < old(self).notes_list@.len(),
        ensures
            final(self).view() == loaded(
                AppView { selected_note_index: idx, ..old(self).view() },
                old(self).view().notes_list[idx as int],
            ),
    {
        reveal(loaded);
        proof {
            lemma_note_views(self.notes_list@);
        }
        let note = self.notes_list[idx].clone();
        self.selected_note_index = idx;
        self.text_buffer = TextBuffer::from_string(note.content.as_str());
        self.current_note = Some(note);
    }
}

/// What a new note's file holds: its title, then (when there is any
/// content) a newline and the content.
pub open spec fn note_file_spec(title: Seq<char>, content: Seq<char>) -> Seq<char> {
    if content.len() == 0 {
        title
    } else {
        title.push('\n') + content
    }
}

/// The text of a new note's file (see `note_file_spec`).
pub fn note_file_content(title: &str, content: &str) -> (r: String)
    ensures
        r@ == note_file_spec(title@, content@),
{
    let mut r = String::new();
    push_str(&mut r, title);
    if !content.is_empty() {
        r.push('\n');
        push_str(&mut r, content);
    }
    r
}

/// The title of a note with this content: its first line, or `Untitled`.
pub fn first_line_title(content: &String) -> (t: String)
    ensures
        t@ == note_title(content@),
{
    let lines = split_lines(content.as_str());
    if lines.len() > 0 {
        assert(lines@.map_values(|l: String| l@)[0] == lines@[0]@);
        lines[0].clone()
    } else {
        proof {
            reveal_strlit("Untitled");
        }
        literal("Untitled")
    }
}

/// The smaller of two numbers.
pub open spec fn min_of(a: usize, b: usize) -> usize {
    if a < b {
        a
    } else {
        b
    }
}

/// Length of line `row` of the open text.
#[verifier::opaque]
pub open spec fn len_of_line(s: Seq<char>, row: int) -> usize {
    line_length(s, row as nat) as usize
}

/// Index of the last line of the open text.
#[verifier::opaque]
pub open spec fn last_line(s: Seq<char>) -> int {
    line_count(s) - 1
}

/// `len_of_line` and `last_line` in terms of the text.
pub proof fn lemma_line_measures(s: Seq<char>, row: int)
    ensures
        len_of_line(s, row) == line_length(s, row as nat) as usize,
        last_line(s) == line_count(s) - 1,
{
    reveal(len_of_line);
    reveal(last_line);
}

/// The state with the cursor at `(row, col)`, no selection, marked for
/// redrawing.
pub open spec fn cursor_moved(v: AppView, row: usize, col: usize) -> AppView {
    AppView { cursor_row: row, cursor_col: col, selection: None, needs_redraw: true, ..v }
}

/// Left: one column back, or to the end of the previous line from the
/// start of a line; the selection is dropped.
pub open spec fn moved_left(v: AppView) -> AppView {
    if v.cursor_col > 0 {
        cursor_moved(v, v.cursor_row, (v.cursor_col - 1) as usize)
    } else if v.cursor_row > 0 {
        cursor_moved(v, (v.cursor_row - 1) as usize, len_of_line(v.text, v.cursor_row - 1))
    } else {
        cursor_moved(v, v.cursor_row, v.cursor_col)
    }
}

/// Right: one column on, or to the start of the next line from the end of a
/// line; the selection is dropped.
pub open spec fn moved_right(v: AppView) -> AppView {
    if v.cursor_col < len_of_line(v.text, v.cursor_row as int) {
        cursor_moved(v, v.cursor_row, (v.cursor_col + 1) as usize)
    } else if v.cursor_row < last_line(v.text) {
        cursor_moved(v, (v.cursor_row + 1) as usize, 0)
    } else {
        cursor_moved(v, v.cursor_row, v.cursor_col)
    }
}

/// The cursor moved to `row`, its column clamped to that line; the
/// selection is dropped.
pub open spec fn to_row(v: AppView, row: usize) -> AppView {
    cursor_moved(v, row, min_of(v.cursor_col, len_of_line(v.text, row as int)))
}

/// Up one line (not above the first); the selection is dropped.
pub open spec fn moved_up(v: AppView) -> AppView {
    if v.cursor_row > 0 {
        to_row(v, (v.cursor_row - 1) as usize)
    } else {
        cursor_moved(v, v.cursor_row, v.cursor_col)
    }
}

/// Down one line (not below the last); the selection is dropped.
pub open spec fn moved_down(v: AppView) -> AppView {
    if v.cursor_row < last_line(v.text) {
        to_row(v, (v.cursor_row + 1) as usize)
    } else {
        cursor_moved(v, v.cursor_row, v.cursor_col)
    }
}

/// Number of lines Page Up and Page Down move.
pub const PAGE_ROWS: usize = 20;

/// Page Up: `PAGE_ROWS` lines up (not above the first).
pub open spec fn paged_up(v: AppView) -> AppView {
    to_row(
        v,
        if v.cursor_row >= PAGE_ROWS {
            (v.cursor_row - PAGE_ROWS) as usize
        } else {
            0
        },
    )
}

/// Page Down: `PAGE_ROWS` lines down (not below the last).
pub open spec fn paged_down(v: AppView) -> AppView {
    to_row(
        v,
        if v.cursor_row + PAGE_ROWS < last_line(v.text) {
            (v.cursor_row + PAGE_ROWS) as usize
        } else {
            last_line(v.text) as usize
        },
    )
}

/// The selected text removed as `TextBuffer::delete_selection` removes it
/// (the cursor stays).
pub open spec fn selection_removed(v: AppView) -> AppView {
    match v.selection {
        None => v,
        Some(sel) => {
            let (a, b) = selection_range(v.text, sel);
            if a < b && b <= v.text.len() {
                AppView { text: v.text.take(a) + v.text.skip(b), selection: None, ..v }
            } else {
                v
            }
        },
    }
}

/// The selected text removed and the cursor at the selection's first end;
/// unchanged without a selection.
pub open spec fn selection_deleted(v: AppView) -> AppView {
    match v.selection {
        None => v,
        Some(sel) => AppView {
            cursor_row: sel.ordered().0,
            cursor_col: sel.ordered().1,
            ..selection_removed(v)
        },
    }
}

/// Typing `c`: recorded for undo, the selection replaced, `c` inserted at
/// the cursor, which moves one column on.
pub open spec fn char_typed(v: AppView, c: char) -> AppView {
    let w = selection_deleted(undo_pushed(v));
    redraw(
        AppView {
            text: w.text.insert(pos_index(w.text, w.cursor_row as int, w.cursor_col as int), c),
            cursor_col: (w.cursor_col + 1) as usize,
            dirty: true,
            ..w
        },
    )
}

/// Enter: recorded for undo, the selection replaced, a line break inserted
/// at the cursor, which moves to the start of the next line.
pub open spec fn newline_typed(v: AppView) -> AppView {
    let w = selection_deleted(undo_pushed(v));
    redraw(
        AppView {
            text: w.text.insert(pos_index(w.text, w.cursor_row as int, w.cursor_col as int), '\n'),
            cursor_row: (w.cursor_row + 1) as usize,
            cursor_col: 0,
            dirty: true,
            ..w
        },
    )
}

/// Backspace: recorded for undo; the selection removed when there is one,
/// else the character before the cursor (joining lines at the start of a
/// line); nothing more when there is no character before it.
pub open spec fn backspace_pressed(v: AppView) -> AppView {
    let w = undo_pushed(v);
    if v.selection is Some {
        redraw(AppView { dirty: true, ..selection_deleted(w) })
    } else {
        let i = pos_index(w.text, w.cursor_row as int, w.cursor_col as int);
        if i > 0 && (w.cursor_col > 0 || w.cursor_row > 0) {
            let (row, col) = if w.cursor_col > 0 {
                (w.cursor_row, (w.cursor_col - 1) as usize)
            } else {
                ((w.cursor_row - 1) as usize, len_of_line(w.text, w.cursor_row - 1))
            };
            redraw(
                AppView {
                    text: w.text.remove(i - 1),
                    cursor_row: row,
                    cursor_col: col,
                    dirty: true,
                    ..w
                },
            )
        } else {
            w
        }
    }
}

/// What the caller does after a key, once it has written `save` and
/// deleted the file of `delete`.
pub enum Command {
    /// Nothing more.
    Nothing,
    /// Leave the editor.
    Stop,
    /// Create a note titled `Untitled` with no content and report it with
    /// `App::note_created`.
    CreateNote,
    /// Put the text on the clipboard and report with `App::copy_done`.
    Copy(String),
    /// Put the text on the clipboard and report with `App::cut_done`.
    Cut(String),
    /// Read the clipboard and report with `App::paste_done`.
    Paste,
}

/// The outside work a key asks for, in order: write `save` to its file,
/// delete the file of `delete`, then `command`.
pub struct Outcome {
    pub save: Option<Note>,
    pub delete: Option<Note>,
    pub command: Command,
}

/// A note as plain values, if there is one.
pub open spec fn opt_view(n: Option<Note>) -> Option<NoteView> {
    match n {
        Some(n) => Some(n.view()),
        None => None,
    }
}

impl Outcome {
    /// No outside work.
    pub open spec fn is_nothing(&self) -> bool {
        self.save is None && self.delete is None && self.command is Nothing
    }
}

pub(crate) fn nothing() -> (o: Outcome)
    ensures
        o.is_nothing(),
{
    Outcome { save: None, delete: None, command: Command::Nothing }
}

impl App {
    /// Removes the selection, if any, and puts the cursor at its first end.
    pub(crate) fn replace_selection(&mut self)
        requires
            old(self).text_buffer.sel() matches Some(s) ==> s.ordered().3 < usize::MAX,
        ensures
            final(self).view() == selection_deleted(old(self).view()),
    {
        let start = self.text_buffer.selection_bounds();
        if let Some((start_row, start_col, _, _)) = start {
            self.text_buffer.delete_selection();
            self.cursor_row = start_row;
            self.cursor_col = start_col;
        }
    }

    /// Records the buffer and cursor for undoing.
    pub(crate) fn record_undo(&mut self)
        ensures
            final(self).view() == undo_pushed(old(self).view()),
    {
        self.undo_stack.push_state(&self.text_buffer, self.cursor_row, self.cursor_col);
    }

    /// Moves the cursor left (see `moved_left`).
    #[verifier::spinoff_prover]
    #[verifier::rlimit(40)]
    pub fn move_left(&mut self)
        ensures
            final(self).view() == moved_left(old(self).view()),
    {
        self.text_buffer.clear_selection();
        if self.cursor_col > 0 {
            self.cursor_col = self.cursor_col - 1;
        } else if self.cursor_row > 0 {
            self.cursor_row = self.cursor_row - 1;
            self.cursor_col = self.text_buffer.get_line_length(self.cursor_row);
            proof {
                lemma_line_measures(self.text_buffer.text(), self.cursor_row as int);
            }
        }
        self.needs_redraw = true;
    }

    /// Moves the cursor right (see `moved_right`).
    #[verifier::spinoff_prover]
    pub fn move_right(&mut self)
        requires
            old(self).cursor_row < usize::MAX,
            old(self).cursor_col < usize::MAX,
        ensures
            final(self).view() == moved_right(old(self).view()),
    {
        self.text_buffer.clear_selection();
        let line_len = self.text_buffer.get_line_length(self.cursor_row);
        proof {
            lemma_line_measures(self.text_buffer.text(), self.cursor_row as int);
        }
        if self.cursor_col < line_len {
            self.cursor_col = self.cursor_col + 1;
        } else if self.cursor_row < self.text_buffer.line_count() - 1 {
            self.cursor_row = self.cursor_row + 1;
            self.cursor_col = 0;
        }
        self.needs_redraw = true;
    }

    /// Moves the cursor up (see `moved_up`).
    #[verifier::spinoff_prover]
    pub fn move_up(&mut self)
        ensures
            final(self).view() == moved_up(old(self).view()),
    {
        self.text_buffer.clear_selection();
        if self.cursor_row > 0 {
            self.cursor_row = self.cursor_row - 1;
            let line_len = self.text_buffer.get_line_length(self.cursor_row);
            proof {
                lemma_line_measures(self.text_buffer.text(), self.cursor_row as int);
            }
        proof {
            lemma_line_measures(self.text_buffer.text(), self.cursor_row as int);
        }
            if line_len < self.cursor_col {
                self.cursor_col = line_len;
            }
        }
        self.needs_redraw = true;
    }

    /// Moves the cursor down (see `moved_down`).
    #[verifier::spinoff_prover]
    pub fn move_down(&mut self)
        requires
            old(self).cursor_row < usize::MAX,
        ensures
            final(self).view() == moved_down(old(self).view()),
    {
        self.text_buffer.clear_selection();
        proof {
            lemma_line_measures(self.text_buffer.text(), self.cursor_row as int);
        }
        if self.cursor_row < self.text_buffer.line_count() - 1 {
            self.cursor_row = self.cursor_row + 1;
            let line_len = self.text_buffer.get_line_length(self.cursor_row);
            proof {
                lemma_line_measures(self.text_buffer.text(), self.cursor_row as int);
            }
        proof {
            lemma_line_measures(self.text_buffer.text(), self.cursor_row as int);
        }
            if line_len < self.cursor_col {
                self.cursor_col = line_len;
            }
        }
        self.needs_redraw = true;
    }

    /// Moves the cursor a page up (see `paged_up`).
    #[verifier::spinoff_prover]
    #[verifier::rlimit(40)]
    pub fn page_up(&mut self)
        ensures
            final(self).view() == paged_up(old(self).view()),
    {
        self.text_buffer.clear_selection();
        self.cursor_row = if self.cursor_row >= PAGE_ROWS {
            self.cursor_row - PAGE_ROWS
        } else {
            0
        };
        let line_len = self.text_buffer.get_line_length(self.cursor_row);
        proof {
            lemma_line_measures(self.text_buffer.text(), self.cursor_row as int);
        }
        if line_len < self.cursor_col {
            self.cursor_col = line_len;
        }
        self.needs_redraw = true;
    }

    /// Moves the cursor a page down (see `paged_down`).
    #[verifier::spinoff_prover]
    pub fn page_down(&mut self)
        requires
            old(self).cursor_row < usize::MAX - PAGE_ROWS,
        ensures
            final(self).view() == paged_down(old(self).view()),
    {
        self.text_buffer.clear_selection();
        let last = self.text_buffer.line_count() - 1;
        proof {
            lemma_line_measures(self.text_buffer.text(), 0);
        }
        self.cursor_row = if self.cursor_row + PAGE_ROWS < last {
            self.cursor_row + PAGE_ROWS
        } else {
            last
        };
        let line_len = self.text_buffer.get_line_length(self.cursor_row);
        proof {
            lemma_line_measures(self.text_buffer.text(), self.cursor_row as int);
        }
        if line_len < self.cursor_col {
            self.cursor_col = line_len;
        }
        self.needs_redraw = true;
    }

    /// Types `c` at the cursor (see `char_typed`).
    #[verifier::spinoff_prover]
    pub fn type_char(&mut self, c: char)
        requires
            old(self).inv(),
        ensures
            final(self).view() == char_typed(old(self).view(), c),
    {
        self.record_undo();
        self.replace_selection();
        self.text_buffer.insert_char(self.cursor_row, self.cursor_col, c);
        self.cursor_col = self.cursor_col + 1;
        self.dirty = true;
        self.needs_redraw = true;
    }

    /// Breaks the line at the cursor (see `newline_typed`).
    #[verifier::spinoff_prover]
    pub fn type_newline(&mut self)
        requires
            old(self).inv(),
        ensures
            final(self).view() == newline_typed(old(self).view()),
    {
        self.record_undo();
        self.replace_selection();
        let (row, col) = self.text_buffer.insert_newline(self.cursor_row, self.cursor_col);
        self.cursor_row = row;
        self.cursor_col = col;
        self.dirty = true;
        self.needs_redraw = true;
    }

    /// Deletes backwards (see `backspace_pressed`).
    #[verifier::spinoff_prover]
    pub fn press_backspace(&mut self)
        requires
            old(self).inv(),
        ensures
            final(self).view() == backspace_pressed(old(self).view()),
    {
        self.record_undo();
        proof {
            lemma_line_measures(self.text_buffer.text(), self.cursor_row - 1);
        }
        if self.text_buffer.has_selection() {
            self.replace_selection();
            self.dirty = true;
            self.needs_redraw = true;
        } else if let Some((row, col)) = self.text_buffer.backspace(self.cursor_row, self.cursor_col) {
            self.cursor_row = row;
            self.cursor_col = col;
            self.dirty = true;
            self.needs_redraw = true;
        }
    }
}

/// `n` occurs in `h` at byte position `p`.
pub open spec fn matches_at(h: Seq<u8>, n: Seq<u8>, p: int) -> bool {
    0 <= p && p + n.len() <= h.len() && h.subrange(p, p + n.len()) == n
}

/// The positions below `p` at which `n` occurs in `h`, in order.
pub open spec fn hits_below(h: Seq<u8>, n: Seq<u8>, p: int) -> Seq<int>
    decreases p,
{
    if p <= 0 {
        Seq::empty()
    } else if matches_at(h, n, p - 1) {
        hits_below(h, n, p - 1).push(p - 1)
    } else {
        hits_below(h, n, p - 1)
    }
}

/// Every position at which `n` occurs in `h`, in order (overlapping
/// occurrences included).
pub open spec fn hits(h: Seq<u8>, n: Seq<u8>) -> Seq<int> {
    hits_below(h, n, h.len() + 1int)
}

/// The UTF-8 bytes of the lowercase form of `s`.
pub open spec fn lowered_bytes(s: Seq<char>) -> Seq<u8> {
    encode_utf8(lowercase(s))
}

/// The matches of query `q` in line `r` of `s`, as `(row, byte offset)`
/// pairs: case is ignored by comparing lowercase forms.
pub open spec fn row_hits(s: Seq<char>, q: Seq<char>, r: nat) -> Seq<(usize, usize)> {
    hits(lowered_bytes(line_chars(s, r)), lowered_bytes(q)).map_values(
        |p: int| (r as usize, p as usize),
    )
}

/// The matches of `q` in the first `k` lines of `s`, line by line.
pub open spec fn search_hits(s: Seq<char>, q: Seq<char>, k: nat) -> Seq<(usize, usize)>
    decreases k,
{
    if k == 0 {
        Seq::empty()
    } else {
        search_hits(s, q, (k - 1) as nat) + row_hits(s, q, (k - 1) as nat)
    }
}

/// The state after a search: no results for an empty query, else every
/// match in the text, with the first one current.
#[verifier::opaque]
pub open spec fn searched(v: AppView) -> AppView {
    if v.search_query.len() == 0 {
        AppView { search_results: Seq::empty(), ..v }
    } else {
        AppView {
            search_results: search_hits(v.text, v.search_query, line_count(v.text)),
            current_search_index: 0,
            ..v
        }
    }
}

/// Whether `n` occurs in `h` at `p`.
fn bytes_match_at(h: &[u8], n: &[u8], p: usize) -> (b: bool)
    requires
        p + n@.len() <= h@.len(),
    ensures
        b == matches_at(h@, n@, p as int),
{
    let hl = h.len();
    let mut j: usize = 0;
    while j < n.len()
        invariant
            hl == h@.len(),
            p + n@.len() <= h@.len(),
            j <= n@.len(),
            forall|k: int| 0 <= k < j ==> h@[p + k] == n@[k],
        decreases n@.len() - j,
    {
        if h[p + j] != n[j] {
            assert(h@.subrange(p as int, p + n@.len())[j as int] != n@[j as int]);
            return false;
        }
        j = j + 1;
    }
    assert(h@.subrange(p as int, p + n@.len()) =~= n@);
    true
}

/// Appends `(row, p)` for every position `p` at which `n` occurs in `h`.
fn push_row_hits(results: &mut Vec<(usize, usize)>, row: usize, h: &[u8], n: &[u8])
    ensures
        final(results)@ == old(results)@ + hits(h@, n@).map_values(
            |p: int| ((row as nat) as usize, p as usize),
        ),
{
    let hlen = h.len();
    let ghost start = old(results)@;
    let mut p: usize = 0;
    loop
        invariant_except_break
            p <= hlen,
            results@ == start + hits_below(h@, n@, p as int).map_values(
                |q: int| ((row as nat) as usize, q as usize),
            ),
        invariant
            hlen == h@.len(),
        ensures
            results@ == start + hits_below(h@, n@, hlen + 1int).map_values(
                |q: int| ((row as nat) as usize, q as usize),
            ),
        decreases hlen - p,
    {
        let ghost before = results@;
        if n.len() <= hlen - p && bytes_match_at(h, n, p) {
            results.push((row, p));
            assert(hits_below(h@, n@, p + 1) == hits_below(h@, n@, p as int).push(p as int));
            assert(hits_below(h@, n@, p + 1).map_values(|q: int| ((row as nat) as usize, q as usize))
                =~= hits_below(h@, n@, p as int).map_values(
                |q: int| ((row as nat) as usize, q as usize),
            ).push((row, p)));
            assert(results@ =~= start + hits_below(h@, n@, p + 1).map_values(
                |q: int| ((row as nat) as usize, q as usize),
            ));
        } else {
            assert(!matches_at(h@, n@, p as int));
            assert(hits_below(h@, n@, p + 1) == hits_below(h@, n@, p as int));
        }
        if p == hlen {
            break;
        }
        p = p + 1;
    }
}

impl App {
    /// Searches the text for the query, ignoring case (see `searched`).
    #[verifier::spinoff_prover]
    pub fn perform_search(&mut self)
        ensures
            final(self).view() == searched(old(self).view()),
    {
        reveal(searched);
        self.search_results.clear();
        if self.search_query.as_str().is_empty() {
            assert(self.view() == searched(old(self).view()));
            return;
        }
        let ghost s = self.text_buffer.text();
        let ghost query = self.search_query@;
        let q = to_lowercase(self.search_query.as_str());
        let qb = q.as_str().as_bytes();
        let count = self.text_buffer.line_count();
        let mut results: Vec<(usize, usize)> = Vec::new();
        let mut row: usize = 0;
        while row < count
            invariant
                row <= count,
                count == line_count(s),
                s == self.text_buffer.text(),
                qb@ == lowered_bytes(query),
                results@ == search_hits(s, query, row as nat),
            decreases count - row,
        {
            if let Some(line) = self.text_buffer.get_line(row) {
                let lower = to_lowercase(line.as_str());
                push_row_hits(&mut results, row, lower.as_str().as_bytes(), qb);
            }
            row = row + 1;
        }
        self.search_results = results;
        self.current_search_index = 0;
        assert(self.view() == searched(old(self).view()));
    }
}

/// The outside work a key asks for, as plain values.
pub enum CommandView {
    Nothing,
    Stop,
    CreateNote,
    Copy(Seq<char>),
    Cut(Seq<char>),
    Paste,
}

/// An `Outcome` as plain values.
pub struct OutcomeView {
    pub save: Option<NoteView>,
    pub delete: Option<NoteView>,
    pub command: CommandView,
}

impl Command {
    pub open spec fn view(&self) -> CommandView {
        match self {
            Command::Nothing => CommandView::Nothing,
            Command::Stop => CommandView::Stop,
            Command::CreateNote => CommandView::CreateNote,
            Command::Copy(t) => CommandView::Copy(t@),
            Command::Cut(t) => CommandView::Cut(t@),
            Command::Paste => CommandView::Paste,
        }
    }
}

impl Outcome {
    pub open spec fn view(&self) -> OutcomeView {
        OutcomeView { save: opt_view(self.save), delete: opt_view(self.delete), command: self.command.view() }
    }
}

/// No outside work.
pub open spec fn no_work() -> OutcomeView {
    OutcomeView { save: None, delete: None, command: CommandView::Nothing }
}

/// Writing the note that saving `v` gives, and nothing more.
pub open spec fn save_work(v: AppView) -> OutcomeView {
    OutcomeView { save: saved_note(v), delete: None, command: CommandView::Nothing }
}

/// `s` without its last character (unchanged when empty).
pub open spec fn popped(s: Seq<char>) -> Seq<char> {
    if s.len() > 0 {
        s.drop_last()
    } else {
        s
    }
}

/// The open note retitled from the title being edited.
pub open spec fn retitled(v: AppView) -> AppView {
    match v.current_note {
        None => v,
        Some(n) => AppView { current_note: Some(NoteView { title: v.title_buffer, ..n }), ..v },
    }
}

/// The list entry at the selected index retitled from the title being
/// edited.
pub open spec fn entry_retitled(v: AppView) -> AppView {
    if v.selected_note_index < v.notes_list.len() {
        AppView {
            notes_list: v.notes_list.update(
                v.selected_note_index as int,
                NoteView { title: v.title_buffer, ..v.notes_list[v.selected_note_index as int] },
            ),
            ..v
        }
    } else {
        v
    }
}

/// The open note retitled from the title being edited, then saved (which
/// takes the title from the first line again), and its list entry retitled.
#[verifier::opaque]
pub open spec fn title_committed(v: AppView) -> AppView {
    match v.current_note {
        None => v,
        Some(n) => entry_retitled(saved(retitled(v))),
    }
}

/// The note written when the edited title is committed.
#[verifier::opaque]
pub open spec fn title_commit_save(v: AppView) -> Option<NoteView> {
    match v.current_note {
        None => None,
        Some(n) => saved_note(retitled(v)),
    }
}

/// A character key without Control or Command.
pub open spec fn plain_char(k: KeyEvent) -> bool {
    k.code is Char && !k.modifiers.ctrl && !k.modifiers.cmd
}

/// A title being edited committed, and title editing ended.
pub open spec fn menu_enter_commit(v: AppView) -> AppView {
    if v.editing_title {
        AppView { editing_title: false, ..title_committed(v) }
    } else {
        v
    }
}

/// The open note saved and the selected one opened at its top, and the
/// menu closed; unchanged when the selection is past the list.
pub open spec fn menu_open(w: AppView) -> AppView {
    if w.selected_note_index < w.notes_list.len() {
        let w2 = saved(w);
        redraw(
            AppView {
                cursor_row: 0,
                cursor_col: 0,
                viewport_row: 0,
                viewport_col: 0,
                notes_menu_expanded: false,
                ..loaded(w2, w2.notes_list[w2.selected_note_index as int])
            },
        )
    } else {
        w
    }
}

/// Enter in the notes menu: a title being edited is committed, then the
/// open note is saved and the selected one opened at its top, and the menu
/// closes.
pub open spec fn menu_enter(v: AppView) -> (AppView, OutcomeView) {
    let w = menu_enter_commit(v);
    (
        menu_open(w),
        OutcomeView {
            save: if w.selected_note_index < w.notes_list.len() {
                saved_note(w)
            } else if v.editing_title {
                title_commit_save(v)
            } else {
                None
            },
            ..no_work()
        },
    )
}

/// A character typed in the notes menu: starts editing the selected note's
/// title with it, or adds it to the title being edited.
pub open spec fn menu_char(v: AppView, c: char) -> AppView {
    if !v.editing_title && v.selected_note_index < v.notes_list.len() {
        redraw(AppView { editing_title: true, title_buffer: seq![c], ..v })
    } else if v.editing_title {
        redraw(AppView { title_buffer: v.title_buffer.push(c), ..v })
    } else {
        redraw(v)
    }
}

/// The notes menu closed.
pub open spec fn menu_closed(v: AppView) -> AppView {
    AppView { notes_menu_expanded: false, ..v }
}

/// Keys while the notes menu is open: Up and Down select, Enter commits a
/// title being edited and opens the selected note, Esc and Backspace end
/// title editing or close the menu, typing edits the selected note's title,
/// and any other key closes the menu.
pub open spec fn menu_step(v: AppView, k: KeyEvent) -> (AppView, OutcomeView) {
    match k.code {
        KeyCode::Up => (menu_up(v), no_work()),
        KeyCode::Down => (menu_down(v), no_work()),
        KeyCode::Enter => menu_enter(v),
        KeyCode::Esc => (menu_esc(v), no_work()),
        KeyCode::Backspace => (menu_backspace(v), no_work()),
        KeyCode::Char(c) => if plain_char(k) {
            (menu_char(v, c), no_work())
        } else {
            (menu_closed(v), no_work())
        },
        _ => (menu_closed(v), no_work()),
    }
}

/// Up in the notes menu: the previous note selected (not above the first).
pub open spec fn menu_up(v: AppView) -> AppView {
    if v.selected_note_index > 0 {
        redraw(AppView { selected_note_index: (v.selected_note_index - 1) as usize, ..v })
    } else {
        v
    }
}

/// Down in the notes menu: the next note selected (not below the last).
pub open spec fn menu_down(v: AppView) -> AppView {
    if v.selected_note_index + 1 < v.notes_list.len() {
        redraw(AppView { selected_note_index: (v.selected_note_index + 1) as usize, ..v })
    } else {
        v
    }
}

/// Esc in the notes menu: title editing ends, or else the menu closes.
pub open spec fn menu_esc(v: AppView) -> AppView {
    if v.editing_title {
        redraw(AppView { editing_title: false, ..v })
    } else {
        redraw(menu_closed(v))
    }
}

/// Backspace in the notes menu: the edited title loses its last character,
/// or else the menu closes.
pub open spec fn menu_backspace(v: AppView) -> AppView {
    if v.editing_title {
        redraw(AppView { title_buffer: popped(v.title_buffer), ..v })
    } else {
        menu_closed(v)
    }
}

/// Enter while typing a query: search, jump to the first match and report
/// the count, and leave search typing.
pub open spec fn search_enter(v: AppView) -> AppView {
    let w = searched(v);
    let w2 = if w.search_results.len() > 0 {
        AppView {
            cursor_row: w.search_results[0].0,
            cursor_col: w.search_results[0].1,
            status_message: "Found "@ + decimal(w.search_results.len()) + " matches"@,
            ..w
        }
    } else {
        status(w, "No matches found"@)
    };
    redraw(AppView { search_mode: false, ..w2 })
}

/// The query set to `q`, shown in the status line.
pub open spec fn query_set(v: AppView, q: Seq<char>) -> AppView {
    redraw(AppView { search_query: q, status_message: "Search: "@ + q, ..v })
}

/// Search typing left, with the query and matches cleared.
pub open spec fn search_cancelled(v: AppView) -> AppView {
    redraw(
        AppView {
            search_mode: false,
            search_query: Seq::empty(),
            search_results: Seq::empty(),
            status_message: "Search cancelled"@,
            ..v
        },
    )
}

/// Keys while typing a search query: Enter searches and jumps to the first
/// match, Esc cancels, Backspace and typing edit the query.
pub open spec fn search_step(v: AppView, k: KeyEvent) -> (AppView, OutcomeView) {
    match k.code {
        KeyCode::Enter => (search_enter(v), no_work()),
        KeyCode::Esc => (search_cancelled(v), no_work()),
        KeyCode::Backspace => (query_set(v, popped(v.search_query)), no_work()),
        KeyCode::Char(c) => if plain_char(k) {
            (query_set(v, v.search_query.push(c)), no_work())
        } else {
            (v, no_work())
        },
        _ => (v, no_work()),
    }
}

/// Keys while editing the open note's title: Enter commits it, Esc
/// abandons it, Backspace and typing edit it.
pub open spec fn title_step(v: AppView, k: KeyEvent) -> (AppView, OutcomeView) {
    match k.code {
        KeyCode::Enter => (
            redraw(AppView { editing_title: false, ..title_committed(v) }),
            OutcomeView { save: title_commit_save(v), ..no_work() },
        ),
        KeyCode::Esc => (redraw(AppView { editing_title: false, ..v }), no_work()),
        KeyCode::Backspace => (redraw(AppView { title_buffer: popped(v.title_buffer), ..v }), no_work()),
        KeyCode::Char(c) => if plain_char(k) {
            (redraw(AppView { title_buffer: v.title_buffer.push(c), ..v }), no_work())
        } else {
            (v, no_work())
        },
        _ => (v, no_work()),
    }
}

/// The next search match made current (wrapping round), with the cursor on
/// it; unchanged without matches.
pub open spec fn next_result(v: AppView) -> AppView {
    if v.search_results.len() > 0 {
        let i = ((v.current_search_index + 1) % (v.search_results.len() as int)) as usize;
        AppView {
            current_search_index: i,
            cursor_row: v.search_results[i as int].0,
            cursor_col: v.search_results[i as int].1,
            ..v
        }
    } else {
        v
    }
}

/// The previous search match made current (wrapping round), with the
/// cursor on it; unchanged without matches.
pub open spec fn prev_result(v: AppView) -> AppView {
    if v.search_results.len() > 0 {
        let i = if v.current_search_index == 0 {
            (v.search_results.len() - 1) as usize
        } else {
            (v.current_search_index - 1) as usize
        };
        AppView {
            current_search_index: i,
            cursor_row: v.search_results[i as int].0,
            cursor_col: v.search_results[i as int].1,
            ..v
        }
    } else {
        v
    }
}

/// Undo: the last recorded state restored (the current one kept for redo)
/// and the note marked changed; a message when there is none.
pub open spec fn undone(v: AppView) -> AppView {
    if v.undo_states.len() > 0 {
        let st = v.undo_states.last();
        AppView {
            text: restored_text(st.0),
            selection: None,
            cursor_row: st.1,
            cursor_col: st.2,
            undo_states: v.undo_states.drop_last(),
            redo_states: v.redo_states.push((v.text, v.cursor_row, v.cursor_col)),
            dirty: true,
            status_message: "Undo"@,
            ..v
        }
    } else {
        status(v, "Nothing to undo"@)
    }
}

/// Redo: the last undone state restored (the current one kept for undo)
/// and the note marked changed; a message when there is none.
pub open spec fn redone(v: AppView) -> AppView {
    if v.redo_states.len() > 0 {
        let st = v.redo_states.last();
        AppView {
            text: restored_text(st.0),
            selection: None,
            cursor_row: st.1,
            cursor_col: st.2,
            redo_states: v.redo_states.drop_last(),
            undo_states: v.undo_states.push((v.text, v.cursor_row, v.cursor_col)),
            dirty: true,
            status_message: "Redo"@,
            ..v
        }
    } else {
        status(v, "Nothing to redo"@)
    }
}

/// The selected text, as `TextBuffer::get_selected_text` gives it.
pub open spec fn selected_text(v: AppView) -> Option<Seq<char>> {
    match v.selection {
        None => None,
        Some(sel) => {
            let (a, b) = selection_range(v.text, sel);
            if a < b && b <= v.text.len() {
                Some(v.text.subrange(a, b))
            } else {
                None
            }
        },
    }
}

/// After a note left the list: the note now at the selected index (or the
/// last one) opens; with no note left the buffer is empty and no note is
/// open.
pub open spec fn reopened(w: AppView) -> AppView {
    if w.notes_list.len() > 0 {
        let i = min_of(w.selected_note_index, (w.notes_list.len() - 1) as usize);
        loaded(AppView { selected_note_index: i, ..w }, w.notes_list[i as int])
    } else {
        AppView { text: seq!['\n'], selection: None, current_note: None, ..w }
    }
}

/// The open note deleted from the list (see `reopened`).
pub open spec fn note_deleted(v: AppView) -> AppView {
    reopened(AppView { notes_list: v.notes_list.remove(v.selected_note_index as int), ..v })
}

/// Switching to note `i` of the list after saving the open one.
pub open spec fn switched_to(v: AppView, i: usize) -> AppView {
    let w = saved(v);
    redraw(
        AppView {
            cursor_row: 0,
            cursor_col: 0,
            ..loaded(AppView { selected_note_index: i, ..w }, w.notes_list[i as int])
        },
    )
}

/// Command+N: the next match when there are matches and no query is being
/// typed; otherwise the open note is saved and a new one asked for.
pub open spec fn new_note_step(v: AppView) -> (AppView, OutcomeView) {
    if v.search_results.len() > 0 && !v.search_mode {
        (redraw(next_result(v)), no_work())
    } else {
        (saved(v), OutcomeView { save: saved_note(v), delete: None, command: CommandView::CreateNote })
    }
}

/// Command+D: the first press asks for confirmation; a second press on the
/// same note deletes the open note.
pub open spec fn delete_step(v: AppView) -> (AppView, OutcomeView) {
    if v.delete_confirmation_note == Some(v.selected_note_index) {
        match v.current_note {
            Some(n) => (
                redraw(
                    AppView {
                        delete_confirmation_note: None,
                        status_message: "Note deleted"@,
                        ..note_deleted(v)
                    },
                ),
                OutcomeView { save: None, delete: Some(n), command: CommandView::Nothing },
            ),
            None => (redraw(AppView { delete_confirmation_note: None, ..v }), no_work()),
        }
    } else {
        (
            redraw(
                AppView {
                    delete_confirmation_note: Some(v.selected_note_index),
                    status_message: "Press Cmd+D again to confirm deletion"@,
                    ..v
                },
            ),
            no_work(),
        )
    }
}

/// Command+F: search typing starts with an empty query.
pub open spec fn search_started(v: AppView) -> AppView {
    redraw(
        AppView {
            search_mode: true,
            search_query: Seq::empty(),
            search_results: Seq::empty(),
            status_message: "Search: "@,
            ..v
        },
    )
}

/// Command+C: the selected text goes to the clipboard.
pub open spec fn copy_step(v: AppView) -> (AppView, OutcomeView) {
    match selected_text(v) {
        Some(t) => (v, OutcomeView { command: CommandView::Copy(t), ..no_work() }),
        None => (redraw(status(v, "No text selected to copy"@)), no_work()),
    }
}

/// Command+X: recorded for undo, then the selected text goes to the
/// clipboard.
pub open spec fn cut_step(v: AppView) -> (AppView, OutcomeView) {
    match selected_text(v) {
        Some(t) => (undo_pushed(v), OutcomeView { command: CommandView::Cut(t), ..no_work() }),
        None => (redraw(status(v, "No text selected to cut"@)), no_work()),
    }
}

/// Command+A: everything from the second line to the end selected, with the
/// cursor at the end.
pub open spec fn all_selected(v: AppView) -> AppView {
    let mr = last_line(v.text) as usize;
    let mc = len_of_line(v.text, mr as int);
    redraw(
        AppView {
            selection: Some(Selection { start_row: 1, start_col: 0, end_row: mr, end_col: mc }),
            cursor_row: mr,
            cursor_col: mc,
            status_message: "Selected all"@,
            ..v
        },
    )
}

/// Command with a character.
pub open spec fn command_char_step(v: AppView, ch: char) -> (AppView, OutcomeView) {
    if ch == 's' || ch == 'S' || ch == 'n' || ch == 'N' || ch == 'p' || ch == 'P' || ch == 'd'
        || ch == 'D' || ch == 'f' || ch == 'F' {
        file_command_step(v, ch)
    } else {
        edit_command_step(v, ch)
    }
}

/// Command+S saves; the other file and search shortcuts.
pub open spec fn file_command_step(v: AppView, ch: char) -> (AppView, OutcomeView) {
    if ch == 's' || ch == 'S' {
        (redraw(status(saved(v), "Saved"@)), save_work(v))
    } else if ch == 'n' || ch == 'N' {
        new_note_step(v)
    } else if ch == 'p' || ch == 'P' {
        if v.search_results.len() > 0 {
            (redraw(prev_result(v)), no_work())
        } else {
            (v, no_work())
        }
    } else if ch == 'd' || ch == 'D' {
        delete_step(v)
    } else {
        (search_started(v), no_work())
    }
}

/// The editing shortcuts: undo, redo, copy, cut, paste, select all.
pub open spec fn edit_command_step(v: AppView, ch: char) -> (AppView, OutcomeView) {
    if ch == 'z' || ch == 'Z' {
        (redraw(undone(v)), no_work())
    } else if ch == 'r' || ch == 'R' || ch == 'y' || ch == 'Y' {
        (redraw(redone(v)), no_work())
    } else if ch == 'c' || ch == 'C' {
        copy_step(v)
    } else if ch == 'x' || ch == 'X' {
        cut_step(v)
    } else if ch == 'v' || ch == 'V' {
        (v, OutcomeView { command: CommandView::Paste, ..no_work() })
    } else if ch == 'a' || ch == 'A' {
        (all_selected(v), no_work())
    } else {
        (v, no_work())
    }
}

/// Command-key shortcuts: S save, N next match or new note, P previous
/// match, D delete (asking first), F search, Z undo, R and Y redo, C copy,
/// X cut, V paste, A select all but the title line, Up and Down switch
/// notes.
pub open spec fn command_step(v: AppView, k: KeyEvent) -> (AppView, OutcomeView) {
    match k.code {
        KeyCode::Char(ch) => command_char_step(v, ch),
        KeyCode::Up => if v.selected_note_index > 0 {
            (switched_to(v, (v.selected_note_index - 1) as usize), save_work(v))
        } else {
            (v, no_work())
        },
        KeyCode::Down => if v.selected_note_index + 1 < v.notes_list.len() {
            (switched_to(v, (v.selected_note_index + 1) as usize), save_work(v))
        } else {
            (v, no_work())
        },
        _ => (v, no_work()),
    }
}

/// Keys while editing: Control+Q saves and stops, Command keys are
/// shortcuts, characters, Enter and Backspace edit, and the arrows, Home,
/// End, Page Up/Down and Esc move the cursor and drop the selection.
pub open spec fn normal_step(v: AppView, k: KeyEvent) -> (AppView, OutcomeView) {
    if k.modifiers.ctrl && (k.code == KeyCode::Char('q') || k.code == KeyCode::Char('Q')) {
        (saved(v), OutcomeView { save: saved_note(v), delete: None, command: CommandView::Stop })
    } else if k.modifiers.cmd {
        command_step(v, k)
    } else {
        (edit_key_step(v, k.code), no_work())
    }
}

/// A key without Command while editing.
pub open spec fn edit_key_step(v: AppView, code: KeyCode) -> AppView {
    match code {
        KeyCode::Char(c) => char_typed(v, c),
        KeyCode::Enter => newline_typed(v),
        KeyCode::Backspace => backspace_pressed(v),
        KeyCode::Left => moved_left(v),
        KeyCode::Right => moved_right(v),
        KeyCode::Up => moved_up(v),
        KeyCode::Down => moved_down(v),
        KeyCode::Home => cursor_moved(v, v.cursor_row, 0),
        KeyCode::End => cursor_moved(v, v.cursor_row, len_of_line(v.text, v.cursor_row as int)),
        KeyCode::PageUp => paged_up(v),
        KeyCode::PageDown => paged_down(v),
        KeyCode::Esc => cursor_moved(v, v.cursor_row, v.cursor_col),
        KeyCode::Tab => v,
    }
}

/// What a key does: the notes menu, a search query and a title being
/// edited take keys first, in that order; otherwise editing does.
pub open spec fn input_step(v: AppView, k: KeyEvent) -> (AppView, OutcomeView) {
    if v.notes_menu_expanded {
        menu_step(v, k)
    } else if v.search_mode {
        search_step(v, k)
    } else if v.editing_title {
        title_step(v, k)
    } else {
        normal_step(v, k)
    }
}

/// The state after a created note is put first in the list and opened.
pub open spec fn with_created(v: AppView, n: NoteView) -> AppView {
    redraw(
        AppView {
            notes_list: v.notes_list.insert(0, n),
            selected_note_index: 0,
            cursor_row: 0,
            cursor_col: 0,
            status_message: "New note created"@,
            ..loaded(v, n)
        },
    )
}

/// The clipboard's answer to a paste: its text is pasted (an empty one is
/// reported), and a failure is reported with its error.
pub open spec fn paste_reply_step(v: AppView, reply: PasteReply) -> AppView {
    match reply {
        PasteReply::Text(t) => if t@.len() == 0 {
            redraw(status(v, "Clipboard is empty"@))
        } else {
            pasted(v, t@)
        },
        PasteReply::ReadError(e) => redraw(status(v, "Clipboard read error: "@ + e@)),
        PasteReply::AccessError(e) => redraw(status(v, "Clipboard access error: "@ + e@)),
    }
}

/// Pasting `t`: recorded for undo, the selection replaced, `t` inserted at
/// the cursor, which moves to its end; the message counts its bytes.
pub open spec fn pasted(v: AppView, t: Seq<char>) -> AppView {
    let w = selection_deleted(undo_pushed(v));
    let i = pos_index(w.text, w.cursor_row as int, w.cursor_col as int);
    let text = w.text.take(i) + t + w.text.skip(i);
    let (r, c) = pos_of_index(text, i + t.len());
    redraw(
        AppView {
            text,
            cursor_row: r as usize,
            cursor_col: c as usize,
            dirty: true,
            status_message: "Pasted "@ + decimal(encode_utf8(t).len()) + " chars"@,
            ..w
        },
    )
}

/// The clipboard's answer to a paste.
pub enum PasteReply {
    /// The clipboard's text.
    Text(String),
    /// The clipboard could not be read; the error as text.
    ReadError(String),
    /// The clipboard could not be opened; the error as text.
    AccessError(String),
}

/// `prefix` followed by `n` in decimal and `suffix`.
pub(crate) fn counted(prefix: &str, n: usize, suffix: &str) -> (s: String)
    ensures
        s@ == prefix@ + decimal(n as nat) + suffix@,
{
    let mut s = literal(prefix);
    push_decimal(&mut s, n as u64);
    push_str(&mut s, suffix);
    s
}

/// `prefix` followed by `t`.
pub(crate) fn joined(prefix: &str, t: &str) -> (s: String)
    ensures
        s@ == prefix@ + t@,
{
    let mut s = literal(prefix);
    push_str(&mut s, t);
    s
}

impl App {
    /// Sets the status message.
    pub(crate) fn set_status(&mut self, msg: String)
        ensures
            final(self).view() == status(old(self).view(), msg@),
    {
        self.status_message = msg;
    }

    /// Retitles the open note from the title being edited.
    pub(crate) fn retitle_current(&mut self)
        ensures
            final(self).view() == retitled(old(self).view()),
    {
        let retitled = match &self.current_note {
            Some(n) => Note {
                id: n.id.clone(),
                title: self.title_buffer.clone(),
                content: n.content.clone(),
                path: n.path.clone(),
            },
            None => {
                return;
            },
        };
        self.current_note = Some(retitled);
    }

    /// Retitles the list entry at the selected index from the title being
    /// edited.
    pub(crate) fn retitle_entry(&mut self)
        ensures
            final(self).view() == entry_retitled(old(self).view()),
    {
        proof {
            lemma_note_views(self.notes_list@);
        }
        if self.selected_note_index < self.notes_list.len() {
            let i = self.selected_note_index;
            let entry = Note {
                id: self.notes_list[i].id.clone(),
                title: self.title_buffer.clone(),
                content: self.notes_list[i].content.clone(),
                path: self.notes_list[i].path.clone(),
            };
            let ghost before = self.notes_list@;
            self.notes_list.set(i, entry);
            proof {
                lemma_note_views_update(before, i as int, entry);
            }
        }
    }

    /// Commits the title being edited (see `title_committed`) and gives the
    /// note to write.
    #[verifier::spinoff_prover]
    pub(crate) fn commit_title(&mut self) -> (r: Option<Note>)
        ensures
            final(self).view() == title_committed(old(self).view()),
            opt_view(r) == title_commit_save(old(self).view()),
    {
        reveal(title_committed);
        reveal(title_commit_save);
        if self.current_note.is_none() {
            return None;
        }
        self.retitle_current();
        let written = self.save_current_note();
        self.retitle_entry();
        written
    }

    /// Makes the next search match current and moves the cursor to it (see
    /// `next_result`).
    pub fn next_search_result(&mut self)
        requires
            old(self).current_search_index < usize::MAX,
        ensures
            final(self).view() == next_result(old(self).view()),
    {
        if self.search_results.len() > 0 {
            self.current_search_index = (self.current_search_index + 1) % self.search_results.len();
            let (row, col) = self.search_results[self.current_search_index];
            self.cursor_row = row;
            self.cursor_col = col;
        }
    }

    /// Makes the previous search match current and moves the cursor to it
    /// (see `prev_result`).
    pub fn prev_search_result(&mut self)
        requires
            old(self).search_results@.len() > 0 ==> old(self).current_search_index
                < old(self).search_results@.len(),
        ensures
            final(self).view() == prev_result(old(self).view()),
    {
        if self.search_results.len() > 0 {
            self.current_search_index = if self.current_search_index == 0 {
                self.search_results.len() - 1
            } else {
                self.current_search_index - 1
            };
            let (row, col) = self.search_results[self.current_search_index];
            self.cursor_row = row;
            self.cursor_col = col;
        }
    }

    /// Commits a title being edited (see `menu_enter_commit`).
    #[verifier::spinoff_prover]
    pub(crate) fn menu_commit_key(&mut self) -> (r: Option<Note>)
        ensures
            final(self).view() == menu_enter_commit(old(self).view()),
            old(self).view().editing_title ==> opt_view(r) == title_commit_save(old(self).view()),
            !old(self).view().editing_title ==> r is None,
    {
        if self.editing_title {
            let save = self.commit_title();
            self.editing_title = false;
            save
        } else {
            None
        }
    }

    /// Saves the open note and opens the selected one (see `menu_open`).
    #[verifier::spinoff_prover]
    pub(crate) fn menu_open_key(&mut self) -> (r: Option<Note>)
        ensures
            final(self).view() == menu_open(old(self).view()),
            old(self).view().selected_note_index < old(self).view().notes_list.len() ==> opt_view(r)
                == saved_note(old(self).view()),
            !(old(self).view().selected_note_index < old(self).view().notes_list.len()) ==> r is None,
    {
        proof {
            lemma_note_views(self.notes_list@);
        }
        if self.selected_note_index < self.notes_list.len() {
            let save = self.save_current_note();
            self.load_note(self.selected_note_index);
            self.cursor_row = 0;
            self.cursor_col = 0;
            self.viewport_row = 0;
            self.viewport_col = 0;
            self.notes_menu_expanded = false;
            self.needs_redraw = true;
            save
        } else {
            None
        }
    }

    /// Enter in the notes menu (see `menu_enter`).
    #[verifier::spinoff_prover]
    pub(crate) fn menu_enter_key(&mut self) -> (r: Outcome)
        ensures
            (final(self).view(), r.view()) == menu_enter(old(self).view()),
    {
        let first = self.menu_commit_key();
        proof {
            lemma_note_views(self.notes_list@);
        }
        let in_list = self.selected_note_index < self.notes_list.len();
        let second = self.menu_open_key();
        let save = if in_list {
            second
        } else {
            first
        };
        Outcome { save, delete: None, command: Command::Nothing }
    }

    /// A character typed in the notes menu (see `menu_char`).
    pub(crate) fn menu_char_key(&mut self, c: char)
        ensures
            final(self).view() == menu_char(old(self).view(), c),
    {
        proof {
            lemma_note_views(self.notes_list@);
        }
        if !self.editing_title && self.selected_note_index < self.notes_list.len() {
            self.editing_title = true;
            let mut t = String::new();
            t.push(c);
            assert(t@ =~= seq![c]);
            self.title_buffer = t;
        } else if self.editing_title {
            self.title_buffer.push(c);
        }
        self.needs_redraw = true;
    }

    /// Enter while typing a query (see `search_enter`).
    #[verifier::spinoff_prover]
    pub(crate) fn search_enter_key(&mut self)
        ensures
            final(self).view() == search_enter(old(self).view()),
    {
        self.perform_search();
        if self.search_results.len() > 0 {
            let (row, col) = self.search_results[0];
            self.cursor_row = row;
            self.cursor_col = col;
            let msg = counted("Found ", self.search_results.len(), " matches");
            self.set_status(msg);
        } else {
            self.set_status(literal("No matches found"));
        }
        self.search_mode = false;
        self.needs_redraw = true;
    }

    /// Leaves search typing (see `search_cancelled`).
    pub(crate) fn cancel_search(&mut self)
        ensures
            final(self).view() == search_cancelled(old(self).view()),
    {
        self.search_mode = false;
        self.search_query = String::new();
        self.search_results = Vec::new();
        self.set_status(literal("Search cancelled"));
        self.needs_redraw = true;
    }

    /// Shows the query in the status line.
    pub(crate) fn show_query(&mut self)
        ensures
            final(self).view() == query_set(old(self).view(), old(self).view().search_query),
    {
        let msg = joined("Search: ", self.search_query.as_str());
        self.set_status(msg);
        self.needs_redraw = true;
    }

    /// Up in the notes menu (see `menu_up`).
    pub(crate) fn menu_up_key(&mut self)
        ensures
            final(self).view() == menu_up(old(self).view()),
    {
        if self.selected_note_index > 0 {
            self.selected_note_index = self.selected_note_index - 1;
            self.needs_redraw = true;
        }
    }

    /// Down in the notes menu (see `menu_down`).
    pub(crate) fn menu_down_key(&mut self)
        ensures
            final(self).view() == menu_down(old(self).view()),
    {
        proof {
            lemma_note_views(self.notes_list@);
        }
        if self.notes_list.len() > 0 && self.selected_note_index < self.notes_list.len() - 1 {
            self.selected_note_index = self.selected_note_index + 1;
            self.needs_redraw = true;
        }
    }

    /// Esc in the notes menu (see `menu_esc`).
    pub(crate) fn menu_esc_key(&mut self)
        ensures
            final(self).view() == menu_esc(old(self).view()),
    {
        if self.editing_title {
            self.editing_title = false;
        } else {
            self.notes_menu_expanded = false;
        }
        self.needs_redraw = true;
    }

    /// Backspace in the notes menu (see `menu_backspace`).
    pub(crate) fn menu_backspace_key(&mut self)
        ensures
            final(self).view() == menu_backspace(old(self).view()),
    {
        if self.editing_title {
            self.title_buffer.pop();
            self.needs_redraw = true;
        } else {
            self.notes_menu_expanded = false;
        }
    }

    /// Keys while the notes menu is open (see `menu_step`).
    #[verifier::spinoff_prover]
    pub fn handle_notes_menu(&mut self, key: KeyEvent) -> (r: Outcome)
        ensures
            (final(self).view(), r.view()) == menu_step(old(self).view(), key),
    {
        match key.code {
            KeyCode::Up => {
                self.menu_up_key();
                nothing()
            },
            KeyCode::Down => {
                self.menu_down_key();
                nothing()
            },
            KeyCode::Enter => self.menu_enter_key(),
            KeyCode::Esc => {
                self.menu_esc_key();
                nothing()
            },
            KeyCode::Backspace => {
                self.menu_backspace_key();
                nothing()
            },
            KeyCode::Char(c) => {
                if !key.modifiers.ctrl && !key.modifiers.cmd {
                    self.menu_char_key(c);
                } else {
                    self.notes_menu_expanded = false;
                }
                nothing()
            },
            _ => {
                self.notes_menu_expanded = false;
                nothing()
            },
        }
    }

    /// Backspace while typing a query.
    fn search_backspace_key(&mut self)
        ensures
            final(self).view() == query_set(old(self).view(), popped(old(self).view().search_query)),
    {
        self.search_query.pop();
        self.show_query();
    }

    /// A character typed into the query.
    fn search_char_key(&mut self, c: char)
        ensures
            final(self).view() == query_set(old(self).view(), old(self).view().search_query.push(c)),
    {
        self.search_query.push(c);
        self.show_query();
    }

    /// Keys while a search query is typed (see `search_step`).
    #[verifier::spinoff_prover]
    pub fn handle_search_mode(&mut self, key: KeyEvent) -> (r: Outcome)
        ensures
            (final(self).view(), r.view()) == search_step(old(self).view(), key),
    {
        match key.code {
            KeyCode::Enter => self.search_enter_key(),
            KeyCode::Esc => self.cancel_search(),
            KeyCode::Backspace => self.search_backspace_key(),
            KeyCode::Char(c) => {
                if !key.modifiers.ctrl && !key.modifiers.cmd {
                    self.search_char_key(c);
                }
            },
            _ => {},
        }
        nothing()
    }

    /// Keys while the open note's title is edited (see `title_step`).
    #[verifier::spinoff_prover]
    pub fn handle_title_editing(&mut self, key: KeyEvent) -> (r: Outcome)
        ensures
            (final(self).view(), r.view()) == title_step(old(self).view(), key),
    {
        match key.code {
            KeyCode::Enter => {
                let save = self.commit_title();
                self.editing_title = false;
                self.needs_redraw = true;
                Outcome { save, delete: None, command: Command::Nothing }
            },
            KeyCode::Esc => {
                self.editing_title = false;
                self.needs_redraw = true;
                nothing()
            },
            KeyCode::Backspace => {
                self.title_buffer.pop();
                self.needs_redraw = true;
                nothing()
            },
            KeyCode::Char(c) => {
                if !key.modifiers.ctrl && !key.modifiers.cmd {
                    self.title_buffer.push(c);
                    self.needs_redraw = true;
                }
                nothing()
            },
            _ => nothing(),
        }
    }
}

} // verus!
