use chonker::ocr_layout::{flow_words, ocr_text_to_grid, WordBreak};

fn rows(g: &[Vec<char>]) -> Vec<String> {
    g.iter().map(|r| r.iter().collect::<String>().trim_end().to_string()).collect()
}

#[test]
fn paragraphs_items_and_indents_get_blank_rows() {
    let text = "Title\n\nFirst para line\n- item\n  indented";
    let g = ocr_text_to_grid(text, 20, 8);
    assert_eq!(g.len(), 8);
    assert!(g.iter().all(|r| r.len() == 20));
    assert_eq!(rows(&g), vec!["Title", "", "First para line", "", "- item", "", "  indented", ""]);
}

#[test]
fn control_characters_are_dropped_and_grid_is_cut() {
    let g = ocr_text_to_grid("a\u{7}b\nsecond\nthird", 4, 2);
    assert_eq!(rows(&g), vec!["ab", "seco"]);
    let many_blanks = ocr_text_to_grid("x\n\n\n\ny", 5, 4);
    assert_eq!(rows(&many_blanks), vec!["x", "", "y", ""]);
}

fn w(s: &str, b: WordBreak) -> (String, WordBreak) {
    (s.to_string(), b)
}

#[test]
fn words_flow_with_line_and_paragraph_breaks() {
    let words = vec![
        w("Hello", WordBreak::SameLine),
        w("world", WordBreak::SameLine),
        w("Next", WordBreak::NewLine),
        w("Para", WordBreak::NewParagraph),
    ];
    let g = flow_words(&words, 12, 6);
    assert_eq!(rows(&g), vec!["Hello world", "Next", "", "Para", "", ""]);
}

#[test]
fn long_words_wrap_and_rows_run_out() {
    let g = flow_words(&vec![w("abcdef", WordBreak::SameLine)], 4, 3);
    assert_eq!(rows(&g), vec!["abcd", "ef", ""]);
    let g = flow_words(&vec![w("a", WordBreak::SameLine), w("b", WordBreak::NewLine)], 5, 1);
    assert_eq!(rows(&g), vec!["a"]);
    let g = flow_words(&vec![w("a\u{7}b", WordBreak::SameLine)], 5, 1);
    assert_eq!(rows(&g), vec!["ab"]);
}
