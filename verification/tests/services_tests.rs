use chonker::debug_capture::{clear_debug_buffer, debug_print, get_debug_messages, log_coordinate_event};
use chonker::kitty_file_picker::{search_pdf_filename, FilePicker, PickerAction};
use chonker::kitty_native::{KeyCode, KeyEvent, KeyModifiers};
use chonker::macos_services::ServicesIntegration;
use chonker::spotlight_indexer::SpotlightIndexer;
use chonker::text_matrix::{matrix_to_string, place_text_on_grid_spatial};

fn key(code: KeyCode) -> KeyEvent {
    KeyEvent { code, modifiers: KeyModifiers { ctrl: false, alt: false, shift: false, cmd: false } }
}

#[test]
fn services_transform_cycles_case() {
    let s = ServicesIntegration::new();
    assert_eq!(s.service_name, "Chonker7");
    assert_eq!(s.temp_dir, "/tmp/chonker7_services");
    assert_eq!(s.transform_text("HELLO WORLD"), "hello world");
    assert_eq!(s.transform_text("hello   world"), "Hello World");
    assert_eq!(s.transform_text("Hello World"), "HELLO WORLD");
    assert_eq!(s.capitalize_words("  émile  zola "), "Émile Zola");
    assert_eq!(s.handle_service_request("transform", "abc"), "Abc");
    assert_eq!(s.handle_service_request("search", "cat"), "Searching for: cat");
    assert_eq!(s.handle_service_request("other", "keep"), "keep");
}

#[test]
fn services_markdown_and_rtf() {
    let s = ServicesIntegration::new();
    assert_eq!(s.convert_to_markdown("# Title\n\nbody"), "# Title\n\n**body**\n");
    assert_eq!(s.handle_service_request("markdown", "x"), "**x**\n");
    assert_eq!(
        s.text_to_rtf("a{b}\\", Some("meta")),
        "{\\rtf1\\ansi\\deff0 {\\fonttbl {\\f0 Times New Roman;}}{\\*\\comment meta}\\f0\\fs24 a\\{b\\}\\\\\\par}"
    );
    assert_eq!(
        s.text_to_rtf("x", None),
        "{\\rtf1\\ansi\\deff0 {\\fonttbl {\\f0 Times New Roman;}}\\f0\\fs24 x\\par}"
    );
}

#[test]
fn keywords_are_frequent_long_words() {
    let idx = SpotlightIndexer { index_dir: String::from("/tmp/idx") };
    let words = idx.extract_keywords("Rust rust RUST! verus proof proof the and a tiny Zebra");
    assert_eq!(words, vec!["rust".to_string(), "proof".to_string(), "verus".to_string(), "tiny".to_string(), "zebra".to_string()]);
    let many: String = (0..12).map(|i| format!("word{} ", i)).collect();
    assert_eq!(idx.extract_keywords(&many).len(), 10);
    assert!(idx.extract_keywords("a an the of").is_empty());
}

#[test]
fn filename_search_ignores_case() {
    assert!(search_pdf_filename("Report.PDF", "report"));
    assert!(search_pdf_filename("Report.PDF", "  "));
    assert!(!search_pdf_filename("Report.PDF", "invoice"));
    assert!(search_pdf_filename("a.pdf", ""));
}

#[test]
fn picker_navigates_searches_and_opens() {
    let files = vec!["alpha.pdf".to_string(), "beta.pdf".to_string(), "gamma.pdf".to_string()];
    let mut p = FilePicker::new();
    assert!(matches!(p.handle_key(key(KeyCode::Down), &files), PickerAction::Continue));
    assert_eq!(p.selected_index, 1);
    assert!(matches!(p.handle_key(key(KeyCode::Enter), &files), PickerAction::Open(1)));
    p.handle_key(key(KeyCode::Char('/')), &files);
    assert!(p.search_mode);
    p.handle_key(key(KeyCode::Char('m')), &files);
    assert_eq!(p.search_query, "m");
    assert_eq!(p.shown(&files), vec![2]);
    assert!(matches!(p.handle_key(key(KeyCode::Enter), &files), PickerAction::Open(2)));
    p.handle_key(key(KeyCode::Backspace), &files);
    assert_eq!(p.search_query, "");
    p.handle_key(key(KeyCode::Esc), &files);
    assert!(!p.search_mode);
    assert!(matches!(p.handle_key(key(KeyCode::Esc), &files), PickerAction::Cancel));
    let ctrl_q = KeyEvent { code: KeyCode::Char('q'), modifiers: KeyModifiers { ctrl: true, alt: false, shift: false, cmd: false } };
    assert!(matches!(p.handle_key(ctrl_q, &files), PickerAction::Cancel));
    p.selected_index = 7;
    p.scroll_offset = 0;
    p.update_scroll(5);
    assert_eq!(p.scroll_offset, 3);
}

#[test]
fn matrix_text_trims_line_ends() {
    let m = vec![vec!['a', 'b', ' '], vec![' ', 'c', ' '], vec![' ', ' ']];
    assert_eq!(matrix_to_string(&m), "ab\n c\n\n");
    assert_eq!(matrix_to_string(&[vec!['a'], vec![' '], vec!['b']]), "a\n\nb\n");
    assert_eq!(matrix_to_string(&[]), "");
}

#[test]
fn text_placement_wraps_and_stops() {
    let mut g = vec![vec![' '; 4]; 2];
    place_text_on_grid_spatial(&mut g, "abcdefghij", 1, 0, 4, 2);
    assert_eq!(g[0], vec![' ', 'a', 'b', 'c']);
    assert_eq!(g[1], vec![' ', 'd', 'e', 'f']);
    let mut h = vec![vec!['.'; 3]; 3];
    place_text_on_grid_spatial(&mut h, "x\ny\nz\nw", 0, 0, 3, 3);
    assert_eq!(h[0][0], 'x');
    assert_eq!(h[1][0], 'y');
    assert_eq!(h[2][0], 'z');
}

#[test]
fn debug_buffer_and_log_line() {
    let mut buf = vec!["one".to_string()];
    debug_print(&mut buf, "two".to_string());
    assert_eq!(buf, vec!["one".to_string(), "two".to_string()]);
    assert_eq!(get_debug_messages(&buf), buf);
    clear_debug_buffer(&mut buf);
    assert!(buf.is_empty());
    debug_print(&mut buf, "x".to_string());
    assert_eq!(get_debug_messages(&buf), vec!["x".to_string()]);
    assert_eq!(
        log_coordinate_event("click", (10, 5), (3, 5), (8, 15), (5, 10)),
        "click: Screen(10,5) → Pane(3,5) + Viewport(5,10) = Doc(8,15)"
    );
}

#[test]
fn pdf_metadata_and_index_file() {
    let indexer = SpotlightIndexer { index_dir: String::from("/idx") };
    let content = "Quarterly report\nrevenue revenue growth";
    let m = indexer.extract_metadata(content, "report", "/docs/report.pdf", 42);
    assert_eq!(m.title, "Quarterly report");
    assert_eq!(m.author, "Unknown");
    assert_eq!(m.page_count, 0);
    assert_eq!(m.file_path, "/docs/report.pdf");
    assert_eq!(m.last_modified, 42);
    assert_eq!(m.keywords, vec!["revenue", "quarterly", "report", "growth"]);
    assert_eq!(m.keywords_line(), "revenue, quarterly, report, growth");
    assert_eq!(
        m.index_file_text(),
        "Title: Quarterly report\nAuthor: Unknown\nPages: 0\nKeywords: revenue, quarterly, report, growth\nPath: /docs/report.pdf\n\nQuarterly report\nrevenue revenue growth"
    );
    let short = indexer.extract_metadata("tiny", "notes", "/n.pdf", 0);
    assert_eq!(short.title, "notes");
    let long_text = "x".repeat(1200);
    let big = indexer.extract_metadata(&long_text, "big", "/b.pdf", 0);
    assert!(big.index_file_text().ends_with(&format!("\n\n{}", "x".repeat(1000))));
    assert_eq!(big.keywords_line(), "xxxx".repeat(300));
}
