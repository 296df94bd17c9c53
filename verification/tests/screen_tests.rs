use chonker::editor::{App, Note};
use chonker::editor_screen::{
    menu_line, menu_line_fits, more_notes_line, note_indicator, note_indicator_fits, sidebar_entry,
    sidebar_entry_fits, sidebar_title, sidebar_window, status_left, status_left_fits, status_position,
};

fn titled(id: &str, title: &str) -> Note {
    Note { id: id.to_string(), title: title.to_string(), content: String::new(), path: format!("/n/{}", id) }
}

fn app_with(titles: &[&str]) -> App {
    let notes = titles.iter().enumerate().map(|(i, t)| titled(&format!("n{}", i), t)).collect();
    App::from_notes(notes)
}

#[test]
fn shown_titles() {
    let mut app = app_with(&["Shopping", ""]);
    assert_eq!(sidebar_title(&app, 0), "Shopping");
    assert_eq!(sidebar_title(&app, 1), "Untitled");
    app.editing_title = true;
    app.title_buffer = "New".to_string();
    assert_eq!(sidebar_title(&app, 0), "New_");
    assert_eq!(sidebar_title(&app, 1), "Untitled");
}

#[test]
fn sidebar_entries_are_cut_to_the_width() {
    let app = app_with(&["Shopping", "A very long title that will not fit"]);
    assert!(sidebar_entry_fits(&app, 0, 30));
    assert_eq!(sidebar_entry(&app, 0, 30), "▸ Shopping");
    assert!(sidebar_entry_fits(&app, 1, 12));
    assert_eq!(sidebar_entry(&app, 1, 12), "  A very lo…");
    assert_eq!(sidebar_entry(&app, 0, 5), "▸ …");
}

#[test]
fn sidebar_entry_cut_inside_a_character_is_refused() {
    let app = app_with(&["x", "ééééé"]);
    assert!(!sidebar_entry_fits(&app, 1, 8));
    assert!(sidebar_entry_fits(&app, 1, 9));
    assert_eq!(sidebar_entry(&app, 1, 9), "  ééé…");
}

#[test]
fn sidebar_window_follows_scroll() {
    let mut app = app_with(&["a", "b", "c", "d", "e"]);
    app.notes_list_scroll = 1;
    assert_eq!(sidebar_window(&app, 4), (1, 3));
    assert_eq!(sidebar_window(&app, 10), (1, 5));
}

#[test]
fn menu_lines() {
    let long = "a".repeat(50);
    let app = app_with(&["Shopping", &long]);
    assert!(menu_line_fits(&app, 0));
    assert_eq!(menu_line(&app, 0), "▸ Shopping");
    assert!(menu_line_fits(&app, 1));
    assert_eq!(menu_line(&app, 1), format!("  {}…", "a".repeat(40)));
}

#[test]
fn more_notes_below_the_menu() {
    let titles: Vec<String> = (0..17).map(|i| format!("note {}", i)).collect();
    let refs: Vec<&str> = titles.iter().map(|s| s.as_str()).collect();
    assert_eq!(more_notes_line(&app_with(&refs)), Some("  ... 2 more notes".to_string()));
    assert_eq!(more_notes_line(&app_with(&refs[..15])), None);
}

#[test]
fn status_line_halves() {
    let mut app = app_with(&["a"]);
    app.cursor_row = 2;
    app.cursor_col = 4;
    assert_eq!(status_position(&app), "Ln 3, Col 5 ");
    app.cursor_row = 0;
    app.cursor_col = 0;
    assert!(status_left_fits(&app, 80));
    assert_eq!(status_left(&app, 80), " Ready");
    app.status_message = "Saved note X".to_string();
    app.dirty = true;
    assert!(status_left_fits(&app, 20));
    assert_eq!(status_left(&app, 20), "*Saved…");
}

#[test]
fn note_indicator_in_title_bar() {
    let mut app = app_with(&["Shopping"]);
    assert!(note_indicator_fits(&app, 80));
    assert_eq!(note_indicator(&app, 80), Some(" │ Shopping".to_string()));
    app.dirty = true;
    assert_eq!(note_indicator(&app, 80), Some(" │ Shopping*".to_string()));
    app.dirty = false;
    assert_eq!(note_indicator(&app, 45), Some(" │ Sh...".to_string()));
    let empty = app_with(&[]);
    assert_eq!(note_indicator(&empty, 80), None);
}
