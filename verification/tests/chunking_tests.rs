use chonker::document_chunks::{ChunkConfig, ChunkedProcessor, DocumentChunk};

fn ranges(chunks: &[DocumentChunk]) -> Vec<(usize, usize, usize, usize)> {
    chunks.iter().map(|c| (c.start_idx, c.end_idx, c.chunk_id, c.total_chunks)).collect()
}

#[test]
fn default_chunk_config() {
    let c = ChunkConfig::default();
    assert_eq!((c.max_tokens, c.overlap_tokens, c.stride), (512, 64, 448));
}

#[test]
fn short_page_is_one_chunk() {
    let p = ChunkedProcessor::new(ChunkConfig::default());
    assert_eq!(ranges(&p.create_chunks(300)), vec![(0, 300, 0, 1)]);
    assert_eq!(ranges(&p.create_chunks(0)), vec![(0, 0, 0, 1)]);
}

#[test]
fn windows_step_and_last_window_reaches_end() {
    let p = ChunkedProcessor::new(ChunkConfig { max_tokens: 4, overlap_tokens: 0, stride: 4 });
    assert_eq!(ranges(&p.create_chunks(10)), vec![(0, 4, 0, 3), (4, 8, 1, 3), (6, 10, 2, 3)]);
    assert_eq!(ranges(&p.create_chunks(8)), vec![(0, 4, 0, 2), (4, 8, 1, 2)]);
}

#[test]
fn windows_with_longer_step_leave_gaps_but_reach_the_end() {
    let p = ChunkedProcessor::new(ChunkConfig { max_tokens: 2, overlap_tokens: 0, stride: 5 });
    assert_eq!(ranges(&p.create_chunks(10)), vec![(0, 2, 0, 3), (5, 7, 1, 3), (8, 10, 2, 3)]);
}

#[test]
fn long_page_gets_overlapping_windows_with_default_config() {
    let p = ChunkedProcessor::new(ChunkConfig::default());
    assert_eq!(ranges(&p.create_chunks(1000)), vec![(0, 512, 0, 3), (448, 960, 1, 3), (488, 1000, 2, 3)]);
    assert_eq!(ranges(&p.create_chunks(513)), vec![(0, 512, 0, 2), (1, 513, 1, 2)]);
}
