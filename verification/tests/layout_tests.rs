use chonker::coordinate_system::{CoordinateSystem, Pane};
use chonker::editor::{App, Note};
use chonker::editor_mouse::{MouseEvent, MouseState};
use chonker::editor_pane::wrap_line;

fn note(id: &str, content: &str) -> Note {
    Note { id: id.to_string(), title: String::new(), content: content.to_string(), path: format!("/n/{}", id) }
}

fn chars(s: &str) -> Vec<char> {
    s.chars().collect()
}

#[test]
fn wrap_breaks_after_last_space() {
    assert_eq!(wrap_line(&chars("hello world foo"), 8), vec![(0, 6), (6, 12), (12, 15)]);
    assert_eq!(wrap_line(&chars("abcdefghij"), 4), vec![(0, 4), (4, 8), (8, 10)]);
    assert_eq!(wrap_line(&chars(""), 5), vec![(0, 0)]);
    assert_eq!(wrap_line(&chars("short"), 10), vec![(0, 5)]);
}

#[test]
fn pane_layout_and_cursor() {
    let mut app = App::from_notes(vec![note("a", "hello world\n\nxy")]);
    app.cursor_row = 0;
    app.cursor_col = 8;
    let (rows, cursor) = app.layout_pane(8, 10);
    let pieces: Vec<(usize, usize, usize)> = rows.iter().map(|r| (r.row, r.start, r.end)).collect();
    assert_eq!(pieces, vec![(0, 0, 6), (0, 6, 11), (1, 0, 0), (2, 0, 2)]);
    assert_eq!(cursor, Some((2, 1)));
    app.cursor_row = 1;
    app.cursor_col = 0;
    assert_eq!(app.layout_pane(8, 10).1, Some((0, 2)));
    let (short, _) = app.layout_pane(8, 2);
    assert_eq!(short.len(), 2);
    app.viewport_row = 2;
    app.cursor_row = 2;
    app.cursor_col = 2;
    let (rows, cursor) = app.layout_pane(8, 10);
    assert_eq!(rows.len(), 1);
    assert_eq!(cursor, Some((2, 0)));
}

#[test]
fn viewport_follows_cursor() {
    let text: String = (0..30).map(|i| format!("line {}\n", i)).collect();
    let mut app = App::from_notes(vec![note("a", &text)]);
    app.cursor_row = 25;
    app.update_viewport(80, 9);
    assert_eq!(app.viewport_row, 22);
    assert_eq!(app.viewport_col, 0);
    app.cursor_row = 22;
    app.update_viewport(80, 9);
    assert_eq!(app.viewport_row, 22);
    app.cursor_row = 1;
    app.update_viewport(80, 9);
    assert_eq!(app.viewport_row, 21);
    app.sidebar_expanded = true;
    app.cursor_col = 3;
    app.clamp_cursor_to_visible_area(30);
    assert_eq!(app.cursor_col, 30);
}

#[test]
fn coordinates_in_split_mode() {
    let cs = CoordinateSystem::new(false, None, None, Some((5, 10)), 80, 24);
    assert_eq!(cs.which_pane(10), Some(Pane::Pdf));
    assert_eq!(cs.which_pane(40), None);
    assert_eq!(cs.which_pane(41), Some(Pane::Extraction));
    assert_eq!(cs.screen_to_document(10, 5), Some((10, 5)));
    assert_eq!(cs.screen_to_document(45, 5), Some((9, 15)));
    let click = cs.process_click(45, 5).unwrap();
    assert_eq!(click.pane, Pane::Extraction);
    assert_eq!(click.pane_relative, (4, 5));
    assert_eq!(click.document, (9, 15));
    assert_eq!(click.grid, (9, 15));
    assert!(cs.process_click(40, 5).is_none());
}

#[test]
fn coordinates_in_notes_mode() {
    let cs = CoordinateSystem::new(true, None, Some((0, 3)), None, 84, 24);
    assert_eq!(cs.which_pane(2), Some(Pane::NotesList));
    assert_eq!(cs.which_pane(4), Some(Pane::NotesEditor));
    assert_eq!(cs.which_pane(44), Some(Pane::Extraction));
    assert_eq!(cs.screen_to_pane(10, 2, Pane::NotesEditor), Some((6, 2)));
    assert_eq!(cs.pane_to_document(6, 2, Pane::NotesEditor), Some((6, 5)));
    assert_eq!(cs.pane_to_document(6, 2, Pane::Extraction), None);
    assert!(cs.process_click(50, 1).is_none());
}

#[test]
fn mouse_click_places_cursor_and_double_click_selects_line() {
    let mut app = App::from_notes(vec![note("a", "first\nsecond line")]);
    let mut state = MouseState::new();
    let press = MouseEvent { x: 3, y: 2, is_press: true, is_drag: false };
    let out = app.handle_mouse(&press, &mut state, 10_000);
    assert!(out.click_recorded);
    assert_eq!((app.cursor_row, app.cursor_col), (1, 3));
    assert!(state.dragging);
    let drag = MouseEvent { x: 6, y: 2, is_press: false, is_drag: true };
    app.handle_mouse(&drag, &mut state, 0);
    assert_eq!(app.text_buffer.get_selected_text(), Some("ond ".to_string()));
    let release = MouseEvent { x: 6, y: 2, is_press: false, is_drag: false };
    app.handle_mouse(&release, &mut state, 0);
    assert!(!state.dragging);
    let out = app.handle_mouse(&press, &mut state, 10_000);
    assert!(out.click_recorded);
    let out = app.handle_mouse(&press, &mut state, 100);
    assert!(!out.click_recorded);
    assert_eq!(app.text_buffer.get_selected_text(), Some("second line".to_string()));
    assert_eq!(app.cursor_col, 11);
}

#[test]
fn mouse_clamps_to_text_and_uses_menus() {
    let mut app = App::from_notes(vec![note("a", "ab"), note("b", "cd")]);
    let mut state = MouseState::new();
    app.handle_mouse(&MouseEvent { x: 50, y: 9, is_press: true, is_drag: false }, &mut state, 10_000);
    assert_eq!((app.cursor_row, app.cursor_col), (0, 2));
    app.handle_mouse(&MouseEvent { x: 2, y: 0, is_press: true, is_drag: false }, &mut state, 0);
    assert!(app.notes_menu_expanded);
    let out = app.handle_mouse(&MouseEvent { x: 5, y: 3, is_press: true, is_drag: false }, &mut state, 0);
    assert_eq!(out.save.unwrap().id, "a");
    assert!(!app.notes_menu_expanded);
    assert_eq!(app.text_buffer.to_string(), "cd");
    app.handle_mouse(&MouseEvent { x: 12, y: 0, is_press: true, is_drag: false }, &mut state, 0);
    assert!(app.help_menu_expanded);
}

#[test]
fn zero_width_pane_shows_empty_pieces() {
    let mut app = App::from_notes(vec![note("a", "\nab\ncd")]);
    let (rows, cursor) = app.layout_pane(0, 4);
    let pieces: Vec<(usize, usize, usize)> = rows.iter().map(|r| (r.row, r.start, r.end)).collect();
    assert_eq!(pieces, vec![(0, 0, 0), (1, 0, 0), (1, 0, 0), (1, 0, 0)]);
    assert_eq!(cursor, Some((0, 0)));
    app.cursor_row = 1;
    assert_eq!(app.layout_pane(0, 4).1, None);
    assert_eq!(app.layout_pane(0, 0).0.len(), 0);
}
