use chonker::chunked_grid::ChunkedGrid;
use chonker::grid_file::GridFileError;

#[test]
fn grid_file_bytes_of_one_cell() {
    let mut g = ChunkedGrid::new();
    g.set(0, 0, 'A');
    let bytes = g.to_grid_bytes();
    let expected: Vec<u8> = vec![
        b'G', b'R', b'I', b'D', 1, 0, // magic and version
        1, 0, 0, 0, // one chunk
        0, 0, 0, 0, 0, 0, 0, 0, // chunk (0, 0)
        1, 0, 0, 0, // one cell
        0, 0, b'A', 0, 0, 0, // cell (0, 0): 'A'
    ];
    assert_eq!(bytes, expected);
}

#[test]
fn grid_file_roundtrip() {
    let mut g = ChunkedGrid::new();
    g.insert_at(10, 20, "Hello");
    g.set(1000, 5000, '€');
    g.set(31, 32, 'z');
    let bytes = g.to_grid_bytes();
    let back = ChunkedGrid::from_grid_bytes(&bytes).unwrap();
    assert_eq!(back.cell_count(), g.cell_count());
    assert_eq!(back.get_line(10, 20, 24), "Hello");
    assert_eq!(back.get(1000, 5000), '€');
    assert_eq!(back.get(31, 32), 'z');
    assert_eq!(back.chunk_count(), g.chunk_count());
}

#[test]
fn grid_file_empty_grid() {
    let g = ChunkedGrid::new();
    let bytes = g.to_grid_bytes();
    assert_eq!(bytes, vec![b'G', b'R', b'I', b'D', 1, 0, 0, 0, 0, 0]);
    let back = ChunkedGrid::from_grid_bytes(&bytes).unwrap();
    assert_eq!(back.cell_count(), 0);
}

#[test]
fn grid_file_errors() {
    assert_eq!(ChunkedGrid::from_grid_bytes(b"GRI").err(), Some(GridFileError::UnexpectedEnd));
    assert_eq!(ChunkedGrid::from_grid_bytes(b"GRIX\x01\x00\x00\x00\x00\x00").err(), Some(GridFileError::InvalidFormat));
    assert_eq!(ChunkedGrid::from_grid_bytes(b"GRID\x01\x00").err(), Some(GridFileError::UnexpectedEnd));
    assert_eq!(ChunkedGrid::from_grid_bytes(b"GRID\x01\x00\x01\x00\x00\x00").err(), Some(GridFileError::UnexpectedEnd));
    let negative: Vec<u8> = vec![
        b'G', b'R', b'I', b'D', 1, 0, 1, 0, 0, 0, 0xFF, 0xFF, 0xFF, 0xFF, 0, 0, 0, 0, 1, 0, 0, 0, 0, 0, b'x', 0, 0, 0,
    ];
    assert_eq!(ChunkedGrid::from_grid_bytes(&negative).err(), Some(GridFileError::OutOfRange));
}

#[test]
fn grid_file_skips_bad_utf8_and_blank() {
    let bytes: Vec<u8> = vec![
        b'G', b'R', b'I', b'D', 1, 0, 1, 0, 0, 0, 0, 0, 0, 0, 1, 0, 0, 0, 3, 0, 0, 0,
        0, 0, 0xFF, 0, 0, 0, // not UTF-8: skipped
        0, 1, b'q', 0, 0, 0, // 'q' at (0, 33) in chunk (0, 1)
        0, 1, b' ', 0, 0, 0, // a space clears it again
        9, 9, // trailing bytes are ignored
    ];
    let g = ChunkedGrid::from_grid_bytes(&bytes).unwrap();
    assert_eq!(g.cell_count(), 0);
    let mut one = bytes.clone();
    one[18] = 2;
    let g2 = ChunkedGrid::from_grid_bytes(&one).unwrap();
    assert_eq!(g2.get(0, 33), 'q');
    assert_eq!(g2.cell_count(), 1);
}
