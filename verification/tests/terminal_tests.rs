use chonker::block_selection::{char_idx_to_visual_col, visual_col_to_char_idx, BlockSelection};
use chonker::config::{rgb_bg, rgb_fg};
use chonker::coordinate_validator::{CoordinateValidator, IssueType};
use chonker::debug_overlay::{render_status_line, DebugInfo};
use chonker::grid_cursor::GridCursor;
use chonker::kitty_native::{literal, KeyCode, KeyModifiers, KittyTerminal};
use chonker::renderer::{is_highlighted, TextRenderer};
use chonker::theme::KittyTheme;
use ropey::Rope;

#[test]
fn parses_keys() {
    let enter = KittyTerminal::parse_input(&[13]).unwrap().unwrap();
    assert_eq!(enter.code, KeyCode::Enter);
    let a = KittyTerminal::parse_input(b"a").unwrap().unwrap();
    assert_eq!(a.code, KeyCode::Char('a'));
    let ctrl_s = KittyTerminal::parse_input(&[19]).unwrap().unwrap();
    assert_eq!(ctrl_s.code, KeyCode::Char('s'));
    assert!(ctrl_s.modifiers.contains(KeyModifiers::control()));
    let up = KittyTerminal::parse_input(b"\x1b[A").unwrap().unwrap();
    assert_eq!(up.code, KeyCode::Up);
    let shift_right = KittyTerminal::parse_input(b"\x1b[1;2C").unwrap().unwrap();
    assert_eq!(shift_right.code, KeyCode::Right);
    assert!(shift_right.modifiers.shift);
    let page = KittyTerminal::parse_input(b"\x1b[6~").unwrap().unwrap();
    assert_eq!(page.code, KeyCode::PageDown);
    assert!(KittyTerminal::parse_input(b"\x1b[Z").unwrap().is_none());
    assert!(KittyTerminal::parse_input(&[0]).unwrap().is_none());
}

#[test]
fn escape_sequences() {
    assert_eq!(KittyTerminal::move_to(0, 0), "\x1b[1;1H");
    assert_eq!(KittyTerminal::move_to(9, 4), "\x1b[5;10H");
    assert_eq!(KittyTerminal::set_fg_rgb(1, 2, 3), "\x1b[38;2;1;2;3m");
    assert_eq!(KittyTerminal::set_bg_rgb(255, 0, 10), "\x1b[48;2;255;0;10m");
    assert_eq!(KittyTerminal::clear_line(), "\x1b[2K");
    assert_eq!(rgb_bg(0, 128, 128), "\x1b[48;2;0;128;128m");
    assert_eq!(rgb_fg(255, 255, 255), "\x1b[38;2;255;255;255m");
    assert_eq!(KittyTheme::set_text_dim_fg(), "\x1b[38;2;96;99;102m");
    assert_eq!(KittyTheme::set_accent_load_file_bg(), "\x1b[48;2;169;133;202m");
    assert_eq!(KittyTheme::reset_colors(), "\x1b[m");
    assert_eq!(literal("x"), "x");
}

#[test]
fn modifiers_contain() {
    let both = KeyModifiers { ctrl: true, alt: false, shift: true, cmd: false };
    assert!(both.contains(KeyModifiers::control()));
    assert!(both.contains(KeyModifiers::shift()));
    assert!(!both.contains(KeyModifiers::alt()));
    assert!(!both.contains(KeyModifiers::super_key()));
}

#[test]
fn renderer_scrolls_and_clips() {
    let mut r = TextRenderer::new(3, 2);
    r.update_buffer(&[vec!['a', 'b', 'c', 'd'], vec!['e']]);
    assert_eq!(r.render_lines(3, 2), vec!["abc".to_string(), "e  ".to_string()]);
    r.scroll_right(1);
    assert_eq!(r.render_lines(3, 2), vec!["bcd".to_string(), "   ".to_string()]);
    r.scroll_left(5);
    r.update_buffer(&[vec!['x'], vec!['y'], vec!['z']]);
    r.scroll_down(5);
    assert_eq!(r.render_lines(3, 2), vec!["y  ".to_string(), "z  ".to_string()]);
    r.scroll_up(9);
    assert_eq!(r.render_lines(2, 1), vec!["x ".to_string()]);
    assert!(is_highlighted(&[(0, 1, 0, 2)], 0, 1));
    assert!(!is_highlighted(&[(0, 1, 0, 2)], 0, 3));
}

#[test]
fn renderer_highlighted_rows() {
    let mut r = TextRenderer::new(3, 3);
    r.update_buffer(&[vec!['a', 'b', 'c', 'd'], vec!['e']]);
    assert!(r.view_fits(3));
    let rows = r.highlighted_rows(&[(0, 1, 1, 0)]);
    assert_eq!(rows[0], vec![('a', false), ('b', true), ('c', true)]);
    assert_eq!(rows[1], vec![('e', true), (' ', false), (' ', false)]);
    assert_eq!(rows[2], vec![(' ', false), (' ', false), (' ', false)]);
    r.scroll_right(3);
    assert!(r.view_fits(3));
    r.update_buffer(&[vec!['a', 'b', 'c', 'd'], vec![]]);
    assert!(!r.view_fits(3));
    assert!(r.view_fits(1));
}

#[test]
fn debug_status_line() {
    let info = DebugInfo {
        mouse_screen: (1, 2),
        mouse_document: (3, 4),
        cursor_grid: (5, 6),
        viewport: (7, 8),
        active_pane: "Notes".to_string(),
    };
    assert_eq!(info.render(), "\x1b]0;Mouse:(1,2)→Doc:(3,4) Cursor:(5,6) Viewport:(7,8) Pane:Notes\x07");
    assert_eq!(render_status_line(&info, 33), "\x1b[7m M:(1,2) C:(5,6) V:(7,8) Notes   \x1b[0m");
}

#[test]
fn validator_records_mismatches() {
    let mut v = CoordinateValidator::new();
    assert!(v.validate_click_to_cursor(10, 5, 15, 10, 0, 10));
    assert!(!v.validate_click_to_cursor(10, 5, 0, 0, 1, 2));
    assert_eq!(v.issues().len(), 1);
    assert_eq!(v.issues()[0].issue_type, IssueType::CursorMismatch);
    assert_eq!(v.issues()[0].expected, (7, 11));
    assert_eq!(
        v.issues()[0].context,
        "Click(10,5) + Viewport(1,2) should put cursor at (7,11), but it's at (0,0)"
    );
    assert!(v.validate_viewport_consistency((10, 10), (12, 7), (2, -3)));
    assert!(!v.validate_viewport_consistency((10, 10), (10, 10), (1, 0)));
    assert_eq!(v.issues()[1].issue_type, IssueType::ViewportDrift);
    assert_eq!(v.issues()[1].expected, (11, 10));
}

#[test]
fn block_selection_rectangles() {
    let mut b = BlockSelection::new(5, 8);
    b.extend_to(2, 3, 4);
    assert_eq!(b.normalized(), ((2, 3), (5, 8)));
    assert!(b.contains(3, 5));
    assert!(!b.contains(6, 5));
    assert_eq!(b.iter_lines(), vec![(2, 3, 8), (3, 3, 8), (4, 3, 8), (5, 3, 8)]);
    assert_eq!(b.visual_bounds(), ((2, 3), (5, 8)));
}

#[test]
fn block_selection_ranges_in_text() {
    let rope = Rope::from_str("ab\ncdef\n");
    let mut b = BlockSelection::new(0, 1);
    b.extend_to(1, 3, 3);
    assert_eq!(b.to_selection(&rope), vec![(1, 3), (4, 6)]);
    let mut tall = BlockSelection::new(1, 1);
    tall.extend_to(9, 3, 3);
    assert_eq!(tall.to_selection(&rope), vec![(4, 6), (8, 8)]);
    let below = BlockSelection::new(5, 2);
    assert_eq!(below.to_selection(&rope), vec![(8, 8)]);
    let mut wide = BlockSelection::new(0, 10);
    wide.extend_to(0, 20, 20);
    assert_eq!(wide.to_selection(&rope), vec![(3, 3)]);
    let line = rope.line(1);
    assert_eq!(char_idx_to_visual_col(line, 4), 4);
    assert_eq!(visual_col_to_char_idx(rope.line(0), 2), 2);
}

#[test]
fn grid_cursor_offsets() {
    let rope = Rope::from_str("ab\ncde\n");
    let c = GridCursor { row: 1, col: 2 };
    assert_eq!(c.to_char_offset(&rope), Some(5));
    let past = GridCursor { row: 1, col: 3 };
    assert_eq!(past.to_char_offset(&rope), None);
    let below = GridCursor { row: 5, col: 0 };
    assert_eq!(below.to_char_offset(&rope), None);
    let back = GridCursor::from_char_offset(5, &rope);
    assert_eq!((back.row, back.col), (1, 2));
    let mut m = GridCursor::new();
    m.move_down(3);
    m.move_right(10);
    m.move_up();
    m.move_left();
    assert_eq!((m.row, m.col), (0, 0));
    m.move_to(4, 7);
    assert_eq!((m.row, m.col), (4, 7));
}

#[test]
fn grid_cursor_offset_roundtrip() {
    let rope = Rope::from_str("ab\n\ncde\r\nf");
    for row in 0..5 {
        for col in 0..5 {
            let c = GridCursor { row, col };
            if let Some(o) = c.to_char_offset(&rope) {
                let back = GridCursor::from_char_offset(o, &rope);
                assert_eq!((back.row, back.col), (row, col));
            }
        }
    }
}
