# chonker

A terminal notes editor and its supporting text tools, written in Verus: the
editing, layout and file-format logic is verified against contracts, and a
thin program drives the terminal.

## Layout

- `src/` — the verified library.
  - `editor*.rs`, `text_buffer.rs`, `undo.rs`: the notes editor (keys, mouse,
    undo/redo, search, pane layout, screen texts) as a state machine; the
    laws in `editor_laws.rs` relate its operations.
  - `chunked_grid.rs`, `grid_file.rs`: an unbounded character canvas stored
    in 32x32 chunks, and its binary `.grid` file format (with round-trip
    laws).
  - `text_*.rs`, `rope.rs`, `std_text.rs`: text utilities over `ropey` and
    the parts of `std` that the library relies on.
  - `kitty_*.rs`, `renderer.rs`, `theme.rs`, `block_selection.rs`,
    `grid_cursor.rs`: terminal protocols, drawing and cursors.
  - `file_picker.rs`, `kitty_file_picker.rs`, `spotlight_indexer.rs`,
    `macos_services.rs`: the PDF pickers' decisions, search-index keywords
    and metadata, and the text services.
  - `pdf_to_grid.rs`, `ocr_layout.rs`, `table_extractor*.rs`,
    `document_*.rs`: laying recognised text and tables out on a grid.
- `app/` — the program: terminal I/O, files, the clock, the fuzzy matcher,
  clipboard, and the floating-point page geometry.
- `tests/` — tests of the library on concrete values.

Trusted items (calls into `ropey`, `grid`, `image`, `base64` and `std`)
carry their contracts in doc comments beside the wrapper that makes the call.
