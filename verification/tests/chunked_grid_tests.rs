use chonker::chunked_grid::{ChunkedGrid, Direction, Viewport};

#[test]
fn test_chunk_positioning() {
    let mut grid = ChunkedGrid::new();

    grid.set(0, 0, 'A');
    grid.set(31, 31, 'B');
    grid.set(32, 0, 'C');
    grid.set(0, 32, 'D');
    grid.set(100, 100, 'E');

    assert_eq!(grid.get(0, 0), 'A');
    assert_eq!(grid.get(31, 31), 'B');
    assert_eq!(grid.get(32, 0), 'C');
    assert_eq!(grid.get(0, 32), 'D');
    assert_eq!(grid.get(100, 100), 'E');

    assert_eq!(grid.chunk_count(), 4);
}

#[test]
fn test_insert_anywhere() {
    let mut grid = ChunkedGrid::new();

    grid.insert_at(1000, 5000, "Hello");

    assert_eq!(grid.get(1000, 5000), 'H');
    assert_eq!(grid.get(1000, 5004), 'o');

    assert!(grid.chunk_count() > 0);
}

#[test]
fn test_sparse_chunks() {
    let mut grid = ChunkedGrid::new();

    grid.set(0, 0, 'A');
    grid.set(1000, 1000, 'B');

    assert_eq!(grid.chunk_count(), 2);
    assert_eq!(grid.cell_count(), 2);
}

#[test]
fn test_viewport_culling() {
    let mut grid = ChunkedGrid::new();

    for i in 0..10 {
        grid.set(i * 50, i * 50, 'X');
    }

    let viewport = Viewport {
        start_row: 0,
        start_col: 0,
        end_row: 100,
        end_col: 100,
    };

    let visible = grid.get_visible_chunks(viewport);

    assert!(visible.len() < grid.chunk_count());
}

#[test]
fn test_export_import() {
    let mut grid = ChunkedGrid::new();

    grid.insert_at(5, 10, "Hello");
    grid.insert_at(10, 20, "World");

    let lines = grid.to_lines();
    let grid2 = ChunkedGrid::from_lines(&lines);

    assert_eq!(grid2.get(5, 10), 'H');
    assert_eq!(grid2.get(10, 20), 'W');
}

#[test]
fn blank_characters_clear_cells() {
    let mut grid = ChunkedGrid::new();
    grid.set(3, 4, 'x');
    assert_eq!(grid.cell_count(), 1);
    grid.set(3, 4, '\n');
    assert_eq!(grid.get(3, 4), ' ');
    assert_eq!(grid.cell_count(), 0);
    assert_eq!(grid.chunk_count(), 0);
    grid.set(3, 4, 'y');
    grid.delete_at(3, 4);
    assert_eq!(grid.chunk_count(), 0);
}

#[test]
fn insert_skips_newlines() {
    let mut grid = ChunkedGrid::new();
    grid.insert_at(0, 0, "ab\ncd");
    assert_eq!(grid.get(0, 0), 'a');
    assert_eq!(grid.get(0, 1), 'b');
    assert_eq!(grid.get(0, 2), ' ');
    assert_eq!(grid.get(0, 3), 'c');
    assert_eq!(grid.get(0, 4), 'd');
    assert_eq!(grid.cell_count(), 4);
}

#[test]
fn bounds_and_lines() {
    let mut grid = ChunkedGrid::new();
    assert_eq!(grid.bounds(), None);
    assert_eq!(grid.to_lines(), vec![String::new()]);
    grid.insert_at(2, 3, "hi");
    grid.set(40, 1, 'z');
    assert_eq!(grid.bounds(), Some((2, 1, 40, 4)));
    let lines = grid.to_lines();
    assert_eq!(lines.len(), 41);
    assert_eq!(lines[0], "");
    assert_eq!(lines[2], "   hi");
    assert_eq!(lines[40], " z");
    assert_eq!(grid.get_line(2, 3, 10), "hi");
    assert_eq!(grid.get_line(2, 5, 4), "");
}

#[test]
fn string_roundtrip() {
    let mut grid = ChunkedGrid::new();
    grid.insert_at(0, 0, "one");
    grid.insert_at(3, 2, "two three");
    let text = grid.to_string();
    assert_eq!(text, "one\n\n\n  two three");
    let back = ChunkedGrid::from_string(&text);
    assert_eq!(back.cell_count(), grid.cell_count());
    assert_eq!(back.get(3, 2), 't');
    assert_eq!(back.get(3, 7), 'h');
    let from_crlf = ChunkedGrid::from_string("ab\r\ncd\n");
    assert_eq!(from_crlf.get(1, 1), 'd');
    assert_eq!(from_crlf.cell_count(), 4);
}

#[test]
fn next_content_to_the_right() {
    let mut grid = ChunkedGrid::new();
    grid.set(5, 3, 'a');
    grid.set(5, 40, 'b');
    grid.set(5, 200, 'c');
    assert_eq!(grid.next_content(5, 0, Direction::Right), Some((5, 3)));
    assert_eq!(grid.next_content(5, 3, Direction::Right), Some((5, 40)));
    assert_eq!(grid.next_content(5, 40, Direction::Right), Some((5, 200)));
    assert_eq!(grid.next_content(5, 200, Direction::Right), None);
    assert_eq!(grid.next_content(5, 0, Direction::Left), None);
    assert_eq!(grid.next_content(5, 40, Direction::Left), Some((5, 3)));
    assert_eq!(grid.next_content(6, 0, Direction::Right), None);
}

#[test]
fn visible_chunks_in_order() {
    let mut grid = ChunkedGrid::new();
    grid.set(40, 5, 'a');
    grid.set(0, 70, 'b');
    grid.set(3, 3, 'c');
    grid.set(500, 500, 'd');
    let v = grid.get_visible_chunks(Viewport { start_row: 0, start_col: 0, end_row: 63, end_col: 95 });
    assert_eq!(v, vec![(0, 0), (0, 2), (1, 0)]);
}

#[test]
fn clear_and_clone() {
    let mut grid = ChunkedGrid::new();
    grid.insert_at(1, 1, "abc");
    let copy = grid.clone();
    grid.clear();
    assert_eq!(grid.cell_count(), 0);
    assert_eq!(copy.get(1, 2), 'b');
}

#[test]
fn far_reads_see_only_their_position() {
    let mut grid = ChunkedGrid::new();
    grid.set(0, 0, 'q');
    let far: usize = 1 << 37;
    if usize::BITS == 64 {
        assert_eq!(grid.get(far, 0), ' ');
    }
    assert_eq!(grid.get(0, 0), 'q');
}

#[test]
fn next_content_in_all_directions() {
    let mut g = ChunkedGrid::new();
    g.set(0, 3, 'a');
    g.set(0, 40, 'b');
    g.set(70, 3, 'c');
    assert_eq!(g.next_content(0, 40, Direction::Left), Some((0, 3)));
    assert_eq!(g.next_content(0, 3, Direction::Left), None);
    assert_eq!(g.next_content(0, 3, Direction::Right), Some((0, 40)));
    assert_eq!(g.next_content(0, 40, Direction::Right), None);
    assert_eq!(g.next_content(0, 3, Direction::Down), Some((70, 3)));
    assert_eq!(g.next_content(70, 3, Direction::Down), None);
    assert_eq!(g.next_content(70, 3, Direction::Up), Some((0, 3)));
    assert_eq!(g.next_content(0, 3, Direction::Up), None);
    assert_eq!(g.next_content(5, 40, Direction::Up), Some((0, 40)));
}
