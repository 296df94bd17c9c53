use chonker::text_buffer::{Selection, TextBuffer};

#[test]
fn test_insert_char() {
    let mut buf = TextBuffer::new();
    buf.insert_char(0, 0, 'H');
    buf.insert_char(0, 1, 'i');
    assert_eq!(buf.get_line(0), Some("Hi\n".to_string()));
}

#[test]
fn test_backspace() {
    let mut buf = TextBuffer::from_string("Hello\nWorld");
    buf.backspace(1, 0);
    assert_eq!(buf.to_string(), "HelloWorld");
}

#[test]
fn test_selection() {
    let mut buf = TextBuffer::from_string("Hello World");
    buf.start_selection(0, 0);
    buf.update_selection(0, 4);
    assert_eq!(buf.get_selected_text(), Some("Hello".to_string()));
}

#[test]
fn empty_content_gives_one_newline() {
    let buf = TextBuffer::from_string("");
    assert_eq!(buf.to_string(), "\n");
    assert_eq!(buf.line_count(), 2);
}

#[test]
fn line_lengths_exclude_the_newline() {
    let buf = TextBuffer::from_string("ab\ncde\n");
    assert_eq!(buf.line_count(), 3);
    assert_eq!(buf.get_line_length(0), 2);
    assert_eq!(buf.get_line_length(1), 3);
    assert_eq!(buf.get_line_length(2), 0);
    assert_eq!(buf.get_line_length(7), 0);
    assert_eq!(buf.get_line(3), None);
}

#[test]
fn positions_are_clamped_to_the_text() {
    let mut buf = TextBuffer::from_string("ab\ncd");
    buf.insert_char(0, 99, 'X');
    assert_eq!(buf.to_string(), "abX\ncd");
    buf.insert_char(99, 0, 'Y');
    assert_eq!(buf.to_string(), "abX\nYcd");
}

#[test]
fn backspace_at_start_of_text_does_nothing() {
    let mut buf = TextBuffer::from_string("abc");
    assert_eq!(buf.backspace(0, 0), None);
    assert_eq!(buf.to_string(), "abc");
    assert_eq!(buf.backspace(0, 2), Some((0, 1)));
    assert_eq!(buf.to_string(), "ac");
}

#[test]
fn backspace_joins_lines_and_reports_previous_end() {
    let mut buf = TextBuffer::from_string("abc\ndef");
    assert_eq!(buf.backspace(1, 0), Some((0, 3)));
    assert_eq!(buf.to_string(), "abcdef");
}

#[test]
fn delete_char_removes_at_position() {
    let mut buf = TextBuffer::from_string("abc");
    buf.delete_char(0, 1);
    assert_eq!(buf.to_string(), "ac");
    buf.delete_char(0, 5);
    assert_eq!(buf.to_string(), "ac");
}

#[test]
fn newline_moves_to_next_row() {
    let mut buf = TextBuffer::from_string("abcd");
    assert_eq!(buf.insert_newline(0, 2), (1, 0));
    assert_eq!(buf.to_string(), "ab\ncd");
}

#[test]
fn insert_text_reports_end_position() {
    let mut buf = TextBuffer::from_string("ab");
    assert_eq!(buf.insert_text(0, 1, "x\nyz"), (1, 2));
    assert_eq!(buf.to_string(), "ax\nyzb");
}

#[test]
fn delete_selection_spans_lines_in_either_order() {
    let mut buf = TextBuffer::from_string("Hello\nWorld");
    buf.start_selection(1, 2);
    buf.update_selection(0, 3);
    assert_eq!(buf.delete_selection(), Some("lo\nWor".to_string()));
    assert_eq!(buf.to_string(), "Helld");
    assert!(buf.selection.is_none());
    assert_eq!(buf.delete_selection(), None);
}

#[test]
fn clear_resets_to_one_newline() {
    let mut buf = TextBuffer::from_string("abc");
    buf.start_selection(0, 0);
    buf.clear();
    assert_eq!(buf.to_string(), "\n");
    assert!(buf.selection.is_none());
}

#[test]
fn selection_normalizes_and_contains() {
    let mut sel = Selection::new(2, 5);
    sel.update(1, 3);
    assert_eq!(sel.normalized(), (1, 3, 2, 5));
    assert!(sel.contains(1, 3));
    assert!(sel.contains(1, 100));
    assert!(sel.contains(2, 5));
    assert!(!sel.contains(2, 6));
    assert!(!sel.contains(1, 2));
    assert!(!sel.contains(3, 0));
}
