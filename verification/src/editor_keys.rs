//! Command-key shortcuts and the dispatch of keys to the editor's modes,
//! and what the editor does with the results of outside work.

use crate::editor::{
    cursor_moved, len_of_line, edit_key_step, normal_step, input_step, with_created, loaded, lemma_note_views_insert, selection_removed, pasted, paste_reply_step, PasteReply, counted, joined, file_command_step, edit_command_step, saved, status, save_work, prev_result, note_deleted, reopened, AppView, App, Command, Note, Outcome, all_selected, command_char_step, command_step, copy_step, cut_step, delete_step, lemma_line_measures, lemma_note_views, lemma_note_views_remove, new_note_step, nothing, opt_view, redone, redraw, saved_note, search_started, switched_to, undone,
};
use crate::kitty_native::{literal, KeyCode, KeyEvent};
use crate::text_buffer::TextBuffer;
use vstd::prelude::*;
use vstd::utf8::encode_utf8;

verus! {

impl App {
    /// Saves the open note and opens note `i` at its top (see
    /// `switched_to`); gives the note to write.
    fn switch_note(&mut self, i: usize) -> (r: Option<Note>)
        requires
            i < old(self).notes_list@.len(),
        ensures
            final(self).view() == switched_to(old(self).view(), i),
            opt_view(r) == saved_note(old(self).view()),
    {
        let save = self.save_current_note();
        self.load_note_at(i);
        self.cursor_row = 0;
        self.cursor_col = 0;
        self.needs_redraw = true;
        save
    }

    /// Command+N (see `new_note_step`).
    fn new_note_key(&mut self) -> (r: Outcome)
        requires
            old(self).current_search_index < usize::MAX,
        ensures
            (final(self).view(), r.view()) == new_note_step(old(self).view()),
    {
        if self.search_results.len() > 0 && !self.search_mode {
            self.next_search_result();
            self.needs_redraw = true;
            nothing()
        } else {
            let save = self.save_current_note();
            Outcome { save, delete: None, command: Command::CreateNote }
        }
    }

    /// Removes the selected entry from the list.
    fn remove_selected_entry(&mut self)
        requires
            old(self).selected_note_index < old(self).notes_list@.len(),
        ensures
            final(self).view() == (AppView {
                notes_list: old(self).view().notes_list.remove(old(self).selected_note_index as int),
                ..old(self).view()
            }),
    {
        let ghost before = self.notes_list@;
        let i = self.selected_note_index;
        self.notes_list.remove(i);
        proof {
            lemma_note_views_remove(before, i as int);
        }
    }

    /// Opens the note at the selected index or the last one, or empties the
    /// buffer when no note is left (see `reopened`).
    fn reopen(&mut self)
        ensures
            final(self).view() == reopened(old(self).view()),
    {
        proof {
            lemma_note_views(self.notes_list@);
        }
        if self.notes_list.len() > 0 {
            let last = self.notes_list.len() - 1;
            let j = if self.selected_note_index < last {
                self.selected_note_index
            } else {
                last
            };
            self.load_note_at(j);
        } else {
            self.text_buffer = TextBuffer::new();
            self.current_note = None;
        }
    }

    /// Deletes the open note from the list and opens another (see
    /// `note_deleted`); gives the deleted note.
    fn delete_current(&mut self) -> (r: Note)
        requires
            old(self).inv(),
            old(self).current_note is Some,
        ensures
            final(self).view() == redraw(
                AppView {
                    delete_confirmation_note: None,
                    status_message: "Note deleted"@,
                    ..note_deleted(old(self).view())
                },
            ),
            Some(r.view()) == old(self).view().current_note,
    {
        let deleted = match &self.current_note {
            Some(n) => n.clone(),
            None => Note { id: String::new(), title: String::new(), content: String::new(), path: String::new() },
        };
        self.remove_selected_entry();
        self.reopen();
        self.delete_confirmation_note = None;
        self.set_status(literal("Note deleted"));
        self.needs_redraw = true;
        deleted
    }

    /// Command+D (see `delete_step`).
    #[verifier::spinoff_prover]
    fn delete_key(&mut self) -> (r: Outcome)
        requires
            old(self).inv(),
        ensures
            (final(self).view(), r.view()) == delete_step(old(self).view()),
    {
        let confirmed = match self.delete_confirmation_note {
            Some(i) => i == self.selected_note_index,
            None => false,
        };
        if !confirmed {
            self.delete_confirmation_note = Some(self.selected_note_index);
            self.set_status(literal("Press Cmd+D again to confirm deletion"));
            self.needs_redraw = true;
            nothing()
        } else if self.current_note.is_none() {
            self.delete_confirmation_note = None;
            self.needs_redraw = true;
            nothing()
        } else {
            let deleted = self.delete_current();
            Outcome { save: None, delete: Some(deleted), command: Command::Nothing }
        }
    }

    /// Command+F (see `search_started`).
    fn start_search(&mut self)
        ensures
            final(self).view() == search_started(old(self).view()),
    {
        self.search_mode = true;
        self.search_query = String::new();
        self.search_results = Vec::new();
        self.set_status(literal("Search: "));
        self.needs_redraw = true;
    }

    /// Undoes the last change (see `undone`).
    pub fn undo(&mut self)
        ensures
            final(self).view() == redraw(undone(old(self).view())),
    {
        if self.undo_stack.undo(&mut self.text_buffer, &mut self.cursor_row, &mut self.cursor_col) {
            self.dirty = true;
            self.set_status(literal("Undo"));
        } else {
            self.set_status(literal("Nothing to undo"));
        }
        self.needs_redraw = true;
    }

    /// Redoes the last undone change (see `redone`).
    pub fn redo(&mut self)
        ensures
            final(self).view() == redraw(redone(old(self).view())),
    {
        if self.undo_stack.redo(&mut self.text_buffer, &mut self.cursor_row, &mut self.cursor_col) {
            self.dirty = true;
            self.set_status(literal("Redo"));
        } else {
            self.set_status(literal("Nothing to redo"));
        }
        self.needs_redraw = true;
    }

    /// Command+C (see `copy_step`).
    fn copy_key(&mut self) -> (r: Outcome)
        requires
            old(self).inv(),
        ensures
            (final(self).view(), r.view()) == copy_step(old(self).view()),
    {
        match self.text_buffer.get_selected_text() {
            Some(t) => Outcome { save: None, delete: None, command: Command::Copy(t) },
            None => {
                self.set_status(literal("No text selected to copy"));
                self.needs_redraw = true;
                nothing()
            },
        }
    }

    /// Command+X (see `cut_step`).
    fn cut_key(&mut self) -> (r: Outcome)
        requires
            old(self).inv(),
        ensures
            (final(self).view(), r.view()) == cut_step(old(self).view()),
    {
        match self.text_buffer.get_selected_text() {
            Some(t) => {
                self.record_undo();
                Outcome { save: None, delete: None, command: Command::Cut(t) }
            },
            None => {
                self.set_status(literal("No text selected to cut"));
                self.needs_redraw = true;
                nothing()
            },
        }
    }

    /// Command+A (see `all_selected`).
    fn select_all(&mut self)
        ensures
            final(self).view() == all_selected(old(self).view()),
    {
        let max_row = self.text_buffer.line_count() - 1;
        let max_col = self.text_buffer.get_line_length(max_row);
        proof {
            lemma_line_measures(self.text_buffer.text(), max_row as int);
        }
        self.text_buffer.start_selection(1, 0);
        self.text_buffer.update_selection(max_row, max_col);
        self.cursor_row = max_row;
        self.cursor_col = max_col;
        self.set_status(literal("Selected all"));
        self.needs_redraw = true;
    }

    /// Command+S: saves the open note.
    fn save_key(&mut self) -> (r: Outcome)
        ensures
            (final(self).view(), r.view()) == (redraw(status(saved(old(self).view()), "Saved"@)), save_work(
                old(self).view(),
            )),
    {
        let save = self.save_current_note();
        self.set_status(literal("Saved"));
        self.needs_redraw = true;
        Outcome { save, delete: None, command: Command::Nothing }
    }

    /// Command+P: the previous match.
    fn prev_key(&mut self)
        requires
            old(self).inv(),
        ensures
            final(self).view() == if old(self).view().search_results.len() > 0 {
                redraw(prev_result(old(self).view()))
            } else {
                old(self).view()
            },
    {
        if self.search_results.len() > 0 {
            self.prev_search_result();
            self.needs_redraw = true;
        }
    }

    /// The file and search shortcuts (see `file_command_step`).
    #[verifier::spinoff_prover]
    fn file_command(&mut self, ch: char) -> (r: Outcome)
        requires
            old(self).inv(),
        ensures
            (final(self).view(), r.view()) == file_command_step(old(self).view(), ch),
    {
        if ch == 's' || ch == 'S' {
            self.save_key()
        } else if ch == 'n' || ch == 'N' {
            self.new_note_key()
        } else if ch == 'p' || ch == 'P' {
            self.prev_key();
            nothing()
        } else if ch == 'd' || ch == 'D' {
            self.delete_key()
        } else {
            self.start_search();
            nothing()
        }
    }

    /// The editing shortcuts (see `edit_command_step`).
    #[verifier::spinoff_prover]
    fn edit_command(&mut self, ch: char) -> (r: Outcome)
        requires
            old(self).inv(),
        ensures
            (final(self).view(), r.view()) == edit_command_step(old(self).view(), ch),
    {
        if ch == 'z' || ch == 'Z' {
            self.undo();
            nothing()
        } else if ch == 'r' || ch == 'R' || ch == 'y' || ch == 'Y' {
            self.redo();
            nothing()
        } else if ch == 'c' || ch == 'C' {
            self.copy_key()
        } else if ch == 'x' || ch == 'X' {
            self.cut_key()
        } else if ch == 'v' || ch == 'V' {
            Outcome { save: None, delete: None, command: Command::Paste }
        } else if ch == 'a' || ch == 'A' {
            self.select_all();
            nothing()
        } else {
            nothing()
        }
    }

    /// A Command+character shortcut (see `command_char_step`).
    fn command_char(&mut self, ch: char) -> (r: Outcome)
        requires
            old(self).inv(),
        ensures
            (final(self).view(), r.view()) == command_char_step(old(self).view(), ch),
    {
        if ch == 's' || ch == 'S' || ch == 'n' || ch == 'N' || ch == 'p' || ch == 'P' || ch == 'd'
            || ch == 'D' || ch == 'f' || ch == 'F' {
            self.file_command(ch)
        } else {
            self.edit_command(ch)
        }
    }

    /// Command-key shortcuts (see `command_step`).
    pub fn handle_command_keys(&mut self, key: KeyEvent) -> (r: Outcome)
        requires
            old(self).inv(),
        ensures
            (final(self).view(), r.view()) == command_step(old(self).view(), key),
    {
        proof {
            lemma_note_views(self.notes_list@);
        }
        match key.code {
            KeyCode::Char(ch) => self.command_char(ch),
            KeyCode::Up => {
                if self.selected_note_index > 0 {
                    let save = self.switch_note(self.selected_note_index - 1);
                    Outcome { save, delete: None, command: Command::Nothing }
                } else {
                    nothing()
                }
            },
            KeyCode::Down => {
                if self.notes_list.len() > 0 && self.selected_note_index < self.notes_list.len() - 1 {
                    let save = self.switch_note(self.selected_note_index + 1);
                    Outcome { save, delete: None, command: Command::Nothing }
                } else {
                    nothing()
                }
            },
            _ => nothing(),
        }
    }
}

impl App {
    /// Home: the start of the line; the selection is dropped.
    fn move_home(&mut self)
        ensures
            final(self).view() == cursor_moved(old(self).view(), old(self).cursor_row, 0),
    {
        self.text_buffer.clear_selection();
        self.cursor_col = 0;
        self.needs_redraw = true;
    }

    /// End: the end of the line; the selection is dropped.
    fn move_end(&mut self)
        ensures
            final(self).view() == cursor_moved(
                old(self).view(),
                old(self).cursor_row,
                len_of_line(old(self).view().text, old(self).cursor_row as int),
            ),
    {
        self.text_buffer.clear_selection();
        self.cursor_col = self.text_buffer.get_line_length(self.cursor_row);
        proof {
            lemma_line_measures(self.text_buffer.text(), self.cursor_row as int);
        }
        self.needs_redraw = true;
    }

    /// Esc while editing: the selection is dropped.
    fn drop_selection(&mut self)
        ensures
            final(self).view() == cursor_moved(old(self).view(), old(self).cursor_row, old(self).cursor_col),
    {
        self.text_buffer.clear_selection();
        self.needs_redraw = true;
    }

    /// A key without Command while editing (see `edit_key_step`).
    #[verifier::spinoff_prover]
    pub fn edit_key(&mut self, code: KeyCode)
        requires
            old(self).inv(),
        ensures
            final(self).view() == edit_key_step(old(self).view(), code),
    {
        match code {
            KeyCode::Char(c) => self.type_char(c),
            KeyCode::Enter => self.type_newline(),
            KeyCode::Backspace => self.press_backspace(),
            KeyCode::Left => self.move_left(),
            KeyCode::Right => self.move_right(),
            KeyCode::Up => self.move_up(),
            KeyCode::Down => self.move_down(),
            KeyCode::Home => self.move_home(),
            KeyCode::End => self.move_end(),
            KeyCode::PageUp => self.page_up(),
            KeyCode::PageDown => self.page_down(),
            KeyCode::Esc => self.drop_selection(),
            KeyCode::Tab => {},
        }
    }

    /// Keys while editing (see `normal_step`).
    pub fn handle_normal_mode(&mut self, key: KeyEvent) -> (r: Outcome)
        requires
            old(self).inv(),
        ensures
            (final(self).view(), r.view()) == normal_step(old(self).view(), key),
    {
        if key.modifiers.ctrl && (key.code == KeyCode::Char('q') || key.code == KeyCode::Char('Q')) {
            let save = self.save_current_note();
            Outcome { save, delete: None, command: Command::Stop }
        } else if key.modifiers.cmd {
            self.handle_command_keys(key)
        } else {
            self.edit_key(key.code);
            nothing()
        }
    }

    /// What a key does (see `input_step`): the notes menu, a search query
    /// and a title being edited take keys first, in that order.
    pub fn handle_input(&mut self, key: KeyEvent) -> (r: Outcome)
        requires
            old(self).inv(),
        ensures
            (final(self).view(), r.view()) == input_step(old(self).view(), key),
    {
        if self.notes_menu_expanded {
            self.handle_notes_menu(key)
        } else if self.search_mode {
            self.handle_search_mode(key)
        } else if self.editing_title {
            self.handle_title_editing(key)
        } else {
            self.handle_normal_mode(key)
        }
    }

    /// A created note goes first in the list and opens (see
    /// `with_created`).
    pub fn note_created(&mut self, note: Note)
        ensures
            final(self).view() == with_created(old(self).view(), note.view()),
    {
        reveal(loaded);
        let ghost before = self.notes_list@;
        let entry = note.clone();
        let ghost e = entry;
        self.notes_list.insert(0, entry);
        proof {
            lemma_note_views_insert(before, 0, e);
        }
        self.text_buffer = TextBuffer::from_string(note.content.as_str());
        self.cursor_row = 0;
        self.cursor_col = 0;
        self.current_note = Some(note);
        self.selected_note_index = 0;
        self.set_status(literal("New note created"));
        self.needs_redraw = true;
    }

    /// Reports whether the copied text reached the clipboard.
    pub fn copy_done(&mut self, ok: bool)
        ensures
            final(self).view() == redraw(
                status(
                    old(self).view(),
                    if ok {
                        "Copied to clipboard"@
                    } else {
                        "Failed to access clipboard"@
                    },
                ),
            ),
    {
        if ok {
            self.set_status(literal("Copied to clipboard"));
        } else {
            self.set_status(literal("Failed to access clipboard"));
        }
        self.needs_redraw = true;
    }

    /// Reports whether the cut text reached the clipboard: only then is the
    /// selection removed.
    pub fn cut_done(&mut self, ok: bool)
        requires
            old(self).inv(),
        ensures
            final(self).view() == if ok {
                redraw(status(AppView { dirty: true, ..selection_removed(old(self).view()) }, "Cut to clipboard"@))
            } else {
                redraw(status(old(self).view(), "Failed to access clipboard"@))
            },
    {
        if ok {
            self.text_buffer.delete_selection();
            self.dirty = true;
            self.set_status(literal("Cut to clipboard"));
        } else {
            self.set_status(literal("Failed to access clipboard"));
        }
        self.needs_redraw = true;
    }

    /// Pastes `text` at the cursor when it is not empty (see `pasted`).
    pub fn paste_text(&mut self, text: &str)
        requires
            old(self).inv(),
            encode_utf8(text@).len() <= usize::MAX,
        ensures
            final(self).view() == if text@.len() > 0 {
                pasted(old(self).view(), text@)
            } else {
                old(self).view()
            },
    {
        if text.is_empty() {
            return;
        }
        self.record_undo();
        self.replace_selection();
        let (row, col) = self.text_buffer.insert_text(self.cursor_row, self.cursor_col, text);
        self.cursor_row = row;
        self.cursor_col = col;
        self.dirty = true;
        let msg = counted("Pasted ", text.len(), " chars");
        self.set_status(msg);
        self.needs_redraw = true;
    }

    /// The clipboard's answer to Command+V (see `paste_reply_step`).
    pub fn paste_done(&mut self, reply: PasteReply)
        requires
            old(self).inv(),
            reply matches PasteReply::Text(t) ==> encode_utf8(t@).len() <= usize::MAX,
        ensures
            final(self).view() == paste_reply_step(old(self).view(), reply),
    {
        match reply {
            PasteReply::Text(t) => {
                if t.as_str().is_empty() {
                    self.set_status(literal("Clipboard is empty"));
                    self.needs_redraw = true;
                } else {
                    self.paste_text(t.as_str());
                }
            },
            PasteReply::ReadError(e) => {
                let msg = joined("Clipboard read error: ", e.as_str());
                self.set_status(msg);
                self.needs_redraw = true;
            },
            PasteReply::AccessError(e) => {
                let msg = joined("Clipboard access error: ", e.as_str());
                self.set_status(msg);
                self.needs_redraw = true;
            },
        }
    }
}

} // verus!
