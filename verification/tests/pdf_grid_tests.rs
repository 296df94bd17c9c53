use chonker::pdf_to_grid::SpatialTextGrid;

#[test]
fn empty_grid_renders_spaces() {
    let g = SpatialTextGrid::new(4, 3);
    assert_eq!(g.render(), "    \n    \n    \n");
    assert_eq!(g.to_char_grid(), vec![vec![' '; 4]; 3]);
    assert_eq!(SpatialTextGrid::new(0, 5).render(), "");
}

#[test]
fn text_wraps_at_block_width() {
    let mut g = SpatialTextGrid::new(10, 3);
    g.place_text("hello world", 0, 0, 5);
    assert_eq!(g.render(), "hello     \n worl     \nd         \n");
    let mut h = SpatialTextGrid::new(6, 2);
    h.place_text("ab\ncd", 2, 0, 10);
    assert_eq!(h.render(), "  ab  \n  cd  \n");
}

#[test]
fn taken_cells_are_kept_unless_overlap_allowed() {
    let mut g = SpatialTextGrid::new(5, 1);
    g.place_text("abc", 0, 0, 10);
    g.place_text("xy", 1, 0, 10);
    assert_eq!(g.render(), "abc  \n");
    g.set_allow_overlap(true);
    g.place_text("xy", 1, 0, 10);
    assert_eq!(g.render(), "axy  \n");
}

#[test]
fn table_border_and_cells() {
    let mut g = SpatialTextGrid::new(7, 4);
    let cells = vec![vec!["A".to_string(), "B".to_string()]];
    assert!(g.table_fits_grid(0, 0, 6, 3, &cells));
    g.draw_table(0, 0, 6, 3, cells);
    assert_eq!(g.render(), "┌─────┐\n│A  B │\n│     │\n└─────┘\n");
    let narrow = vec![vec!["A".to_string(), "B".to_string()]];
    assert!(!g.table_fits_grid(0, 0, 1, 3, &narrow));
    assert!(!g.table_fits_grid(0, 0, 7, 3, &narrow));
}
