//! Verified core of a terminal notes editor: text filtering, an infinite
//! chunked character grid, selections, cursors, terminal escape sequences
//! and key decoding.

pub mod std_text;
pub mod rope;
pub mod text_format;
pub mod config;
pub mod text_filter;
pub mod text_lines;
pub mod chunked_grid;
pub mod grid_file;
pub mod block_selection;
pub mod text_buffer;
pub mod grid_cursor;
pub mod kitty_native;
pub mod theme;
pub mod renderer;
pub mod debug_overlay;
pub mod coordinate_validator;
pub mod undo;
pub mod editor;
pub mod editor_keys;
pub mod editor_view;
pub mod editor_pane;
pub mod editor_mouse;
pub mod editor_laws;
pub mod editor_screen;
pub mod text_matrix;
pub mod debug_capture;
pub mod macos_services;
pub mod kitty_file_picker;
pub mod file_picker;
pub mod spotlight_indexer;
pub mod coordinate_system;
pub mod table_extractor;
pub mod table_extractor_v2;
pub mod table_extractor_v3;
pub mod document_understanding;
pub mod minimal_debug;
pub mod kitty_graphics;
pub mod document_chunks;
pub mod pdf_to_grid;
pub mod ocr_layout;
