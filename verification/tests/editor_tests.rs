use chonker::editor::{note_file_content, App, Command, Note, PasteReply};
use chonker::kitty_native::{KeyCode, KeyEvent, KeyModifiers};

fn note(id: &str, content: &str) -> Note {
    Note {
        id: id.to_string(),
        title: content.lines().next().unwrap_or("Untitled").to_string(),
        content: content.to_string(),
        path: format!("/notes/{}.txt", id),
    }
}

fn plain(code: KeyCode) -> KeyEvent {
    KeyEvent { code, modifiers: KeyModifiers { ctrl: false, alt: false, shift: false, cmd: false } }
}

fn cmd(c: char) -> KeyEvent {
    KeyEvent { code: KeyCode::Char(c), modifiers: KeyModifiers { ctrl: false, alt: false, shift: false, cmd: true } }
}

fn cmd_code(code: KeyCode) -> KeyEvent {
    KeyEvent { code, modifiers: KeyModifiers { ctrl: false, alt: false, shift: false, cmd: true } }
}

fn ctrl(c: char) -> KeyEvent {
    KeyEvent { code: KeyCode::Char(c), modifiers: KeyModifiers { ctrl: true, alt: false, shift: false, cmd: false } }
}

fn app_with(contents: &[&str]) -> App {
    let notes: Vec<Note> = contents.iter().enumerate().map(|(i, c)| note(&format!("n{}", i), c)).collect();
    App::from_notes(notes)
}

#[test]
fn opens_first_note() {
    let app = app_with(&["First\nbody", "Second"]);
    assert_eq!(app.text_buffer.to_string(), "First\nbody");
    assert_eq!(app.current_note.as_ref().unwrap().id, "n0");
    assert_eq!(app.status_message, "Ready");
    assert!(app.needs_redraw);
    let empty = App::from_notes(Vec::new());
    assert_eq!(empty.text_buffer.to_string(), "\n");
    assert!(empty.current_note.is_none());
}

#[test]
fn typing_inserts_and_marks_dirty() {
    let mut app = app_with(&["Title\n"]);
    app.cursor_row = 1;
    app.cursor_col = 0;
    let out = app.handle_input(plain(KeyCode::Char('h')));
    assert!(matches!(out.command, Command::Nothing));
    app.handle_input(plain(KeyCode::Char('i')));
    assert_eq!(app.text_buffer.to_string(), "Title\nhi");
    assert_eq!((app.cursor_row, app.cursor_col), (1, 2));
    assert!(app.dirty);
}

#[test]
fn enter_and_backspace_edit_lines() {
    let mut app = app_with(&["abcd"]);
    app.cursor_col = 2;
    app.handle_input(plain(KeyCode::Enter));
    assert_eq!(app.text_buffer.to_string(), "ab\ncd");
    assert_eq!((app.cursor_row, app.cursor_col), (1, 0));
    app.handle_input(plain(KeyCode::Backspace));
    assert_eq!(app.text_buffer.to_string(), "abcd");
    assert_eq!((app.cursor_row, app.cursor_col), (0, 2));
}

#[test]
fn arrows_wrap_between_lines() {
    let mut app = app_with(&["ab\ncdef"]);
    app.handle_input(plain(KeyCode::End));
    assert_eq!(app.cursor_col, 2);
    app.handle_input(plain(KeyCode::Right));
    assert_eq!((app.cursor_row, app.cursor_col), (1, 0));
    app.handle_input(plain(KeyCode::Left));
    assert_eq!((app.cursor_row, app.cursor_col), (0, 2));
    app.cursor_row = 1;
    app.cursor_col = 4;
    app.handle_input(plain(KeyCode::Up));
    assert_eq!((app.cursor_row, app.cursor_col), (0, 2));
    app.handle_input(plain(KeyCode::PageDown));
    assert_eq!(app.cursor_row, 1);
    app.handle_input(plain(KeyCode::Home));
    assert_eq!(app.cursor_col, 0);
}

#[test]
fn typing_replaces_selection() {
    let mut app = app_with(&["Hello World"]);
    app.text_buffer.start_selection(0, 0);
    app.text_buffer.update_selection(0, 4);
    app.cursor_col = 5;
    app.handle_input(plain(KeyCode::Char('J')));
    assert_eq!(app.text_buffer.to_string(), "J World");
    assert_eq!((app.cursor_row, app.cursor_col), (0, 1));
}

#[test]
fn ctrl_q_saves_and_stops() {
    let mut app = app_with(&["Old"]);
    app.handle_input(plain(KeyCode::End));
    app.handle_input(plain(KeyCode::Char('!')));
    let out = app.handle_input(ctrl('q'));
    assert!(matches!(out.command, Command::Stop));
    let saved = out.save.unwrap();
    assert_eq!(saved.content, "Old!");
    assert_eq!(saved.title, "Old!");
    assert_eq!(saved.path, "/notes/n0.txt");
    assert!(!app.dirty);
    assert_eq!(app.notes_list[0].content, "Old!");
}

#[test]
fn cmd_s_saves_with_first_line_title() {
    let mut app = app_with(&["x"]);
    app.handle_input(plain(KeyCode::Enter));
    let out = app.handle_input(cmd('s'));
    assert_eq!(app.status_message, "Saved");
    assert_eq!(out.save.unwrap().title, "");
}

#[test]
fn search_finds_case_insensitive_matches() {
    let mut app = app_with(&["Cat cat\nCAT dog"]);
    app.handle_input(cmd('f'));
    assert!(app.search_mode);
    assert_eq!(app.status_message, "Search: ");
    for c in "cat".chars() {
        app.handle_input(plain(KeyCode::Char(c)));
    }
    assert_eq!(app.status_message, "Search: cat");
    app.handle_input(plain(KeyCode::Enter));
    assert!(!app.search_mode);
    assert_eq!(app.search_results, vec![(0, 0), (0, 4), (1, 0)]);
    assert_eq!(app.status_message, "Found 3 matches");
    assert_eq!((app.cursor_row, app.cursor_col), (0, 0));
    app.handle_input(cmd('n'));
    assert_eq!((app.cursor_row, app.cursor_col), (0, 4));
    app.handle_input(cmd('p'));
    app.handle_input(cmd('p'));
    assert_eq!((app.cursor_row, app.cursor_col), (1, 0));
}

#[test]
fn search_overlapping_and_missing() {
    let mut app = app_with(&["aaaa"]);
    app.search_query = "aa".to_string();
    app.perform_search();
    assert_eq!(app.search_results, vec![(0, 0), (0, 1), (0, 2)]);
    app.handle_input(cmd('f'));
    app.handle_input(plain(KeyCode::Char('z')));
    app.handle_input(plain(KeyCode::Enter));
    assert_eq!(app.status_message, "No matches found");
    app.handle_input(cmd('f'));
    app.handle_input(plain(KeyCode::Esc));
    assert_eq!(app.status_message, "Search cancelled");
    assert!(app.search_results.is_empty());
}

#[test]
fn delete_asks_then_deletes() {
    let mut app = app_with(&["One", "Two"]);
    let first = app.handle_input(cmd('d'));
    assert!(first.delete.is_none());
    assert_eq!(app.status_message, "Press Cmd+D again to confirm deletion");
    let second = app.handle_input(cmd('d'));
    assert_eq!(second.delete.unwrap().id, "n0");
    assert_eq!(app.notes_list.len(), 1);
    assert_eq!(app.text_buffer.to_string(), "Two");
    assert_eq!(app.status_message, "Note deleted");
    app.handle_input(cmd('d'));
    let last = app.handle_input(cmd('d'));
    assert_eq!(last.delete.unwrap().id, "n1");
    assert!(app.current_note.is_none());
    assert_eq!(app.text_buffer.to_string(), "\n");
}

#[test]
fn new_note_goes_first() {
    let mut app = app_with(&["One"]);
    let out = app.handle_input(cmd('n'));
    assert!(matches!(out.command, Command::CreateNote));
    assert_eq!(out.save.unwrap().id, "n0");
    app.note_created(note("n9", "Untitled"));
    assert_eq!(app.notes_list.len(), 2);
    assert_eq!(app.notes_list[0].id, "n9");
    assert_eq!(app.selected_note_index, 0);
    assert_eq!(app.text_buffer.to_string(), "Untitled");
    assert_eq!(app.status_message, "New note created");
}

#[test]
fn cmd_arrows_switch_notes() {
    let mut app = app_with(&["One", "Two"]);
    let out = app.handle_input(cmd_code(KeyCode::Down));
    assert_eq!(out.save.unwrap().id, "n0");
    assert_eq!(app.selected_note_index, 1);
    assert_eq!(app.text_buffer.to_string(), "Two");
    app.handle_input(cmd_code(KeyCode::Down));
    assert_eq!(app.selected_note_index, 1);
    app.handle_input(cmd_code(KeyCode::Up));
    assert_eq!(app.text_buffer.to_string(), "One");
}

#[test]
fn undo_and_redo_restore_text() {
    let mut app = app_with(&["ab"]);
    app.cursor_col = 2;
    app.handle_input(plain(KeyCode::Char('c')));
    assert_eq!(app.text_buffer.to_string(), "abc");
    app.handle_input(cmd('z'));
    assert_eq!(app.text_buffer.to_string(), "ab");
    assert_eq!(app.status_message, "Undo");
    assert_eq!(app.cursor_col, 2);
    app.handle_input(cmd('z'));
    assert_eq!(app.status_message, "Nothing to undo");
    app.handle_input(cmd('y'));
    assert_eq!(app.text_buffer.to_string(), "abc");
    assert_eq!(app.status_message, "Redo");
    app.handle_input(cmd('r'));
    assert_eq!(app.status_message, "Nothing to redo");
}

#[test]
fn copy_cut_and_paste_go_through_the_caller() {
    let mut app = app_with(&["Hello World"]);
    let none = app.handle_input(cmd('c'));
    assert!(matches!(none.command, Command::Nothing));
    assert_eq!(app.status_message, "No text selected to copy");
    app.handle_input(cmd('a'));
    assert_eq!(app.status_message, "Selected all");
    app.text_buffer.start_selection(0, 6);
    app.text_buffer.update_selection(0, 10);
    match app.handle_input(cmd('c')).command {
        Command::Copy(t) => assert_eq!(t, "World"),
        _ => panic!("expected a copy"),
    }
    app.copy_done(true);
    assert_eq!(app.status_message, "Copied to clipboard");
    match app.handle_input(cmd('x')).command {
        Command::Cut(t) => assert_eq!(t, "World"),
        _ => panic!("expected a cut"),
    }
    app.cut_done(true);
    assert_eq!(app.text_buffer.to_string(), "Hello ");
    assert_eq!(app.status_message, "Cut to clipboard");
    assert!(matches!(app.handle_input(cmd('v')).command, Command::Paste));
    app.cursor_col = 6;
    app.paste_done(PasteReply::Text("there".to_string()));
    assert_eq!(app.text_buffer.to_string(), "Hello there");
    assert_eq!(app.status_message, "Pasted 5 chars");
    assert_eq!(app.cursor_col, 11);
    app.paste_done(PasteReply::Text(String::new()));
    assert_eq!(app.status_message, "Clipboard is empty");
    app.paste_done(PasteReply::ReadError("busy".to_string()));
    assert_eq!(app.status_message, "Clipboard read error: busy");
    app.paste_done(PasteReply::AccessError("gone".to_string()));
    assert_eq!(app.status_message, "Clipboard access error: gone");
}

#[test]
fn paste_counts_bytes() {
    let mut app = app_with(&[""]);
    app.paste_text("héé");
    assert_eq!(app.status_message, "Pasted 5 chars");
    assert_eq!(app.text_buffer.to_string(), "héé\n");
}

#[test]
fn select_all_skips_title_line() {
    let mut app = app_with(&["T\nab\ncd"]);
    app.handle_input(cmd('a'));
    let sel = app.text_buffer.selection.clone().unwrap();
    assert_eq!(sel.normalized(), (1, 0, 2, 2));
    assert_eq!((app.cursor_row, app.cursor_col), (2, 2));
}

#[test]
fn notes_menu_renames_and_opens() {
    let mut app = app_with(&["One", "Two"]);
    app.notes_menu_expanded = true;
    app.handle_input(plain(KeyCode::Down));
    assert_eq!(app.selected_note_index, 1);
    app.handle_input(plain(KeyCode::Up));
    app.handle_input(plain(KeyCode::Char('N')));
    assert!(app.editing_title);
    assert_eq!(app.title_buffer, "N");
    app.handle_input(plain(KeyCode::Char('e')));
    app.handle_input(plain(KeyCode::Backspace));
    assert_eq!(app.title_buffer, "N");
    let out = app.handle_input(plain(KeyCode::Enter));
    assert!(out.save.is_some());
    assert!(!app.editing_title);
    assert!(!app.notes_menu_expanded);
    assert_eq!(app.current_note.as_ref().unwrap().title, "One");
    assert_eq!(app.notes_list[0].title, "One");
    app.notes_menu_expanded = true;
    app.handle_input(plain(KeyCode::Tab));
    assert!(!app.notes_menu_expanded);
}

#[test]
fn title_editing_mode() {
    let mut app = app_with(&["One"]);
    app.editing_title = true;
    app.handle_input(plain(KeyCode::Char('A')));
    assert_eq!(app.title_buffer, "A");
    app.handle_input(plain(KeyCode::Backspace));
    assert_eq!(app.title_buffer, "");
    app.handle_input(plain(KeyCode::Esc));
    assert!(!app.editing_title);
}

#[test]
fn new_note_file_holds_title_then_content() {
    assert_eq!(note_file_content("Title", ""), "Title");
    assert_eq!(note_file_content("Title", "body\nmore"), "Title\nbody\nmore");
}
