//! Splitting the characters of a page into overlapping windows for a model
//! that reads a bounded number of tokens at a time.
//!
//! A chunk is a window `start..end` of character indices; the characters
//! themselves stay with the caller.

use vstd::prelude::*;

verus! {

/// Window size, overlap, and the step between window starts.
pub struct ChunkConfig {
    pub max_tokens: usize,
    pub overlap_tokens: usize,
    pub stride: usize,
}

impl Default for ChunkConfig {
    /// Windows of 512 tokens overlapping by 64, so starts 448 apart.
    fn default() -> (c: Self)
        ensures
            c.max_tokens == 512 && c.overlap_tokens == 64 && c.stride == 448,
    {
        ChunkConfig { max_tokens: 512, overlap_tokens: 64, stride: 448 }
    }
}

/// One window of a page: characters `start_idx..end_idx`, the `chunk_id`-th
/// of `total_chunks`.
#[derive(Debug, Clone, Copy, PartialEq, Eq, Structural)]
pub struct DocumentChunk {
    pub start_idx: usize,
    pub end_idx: usize,
    pub chunk_id: usize,
    pub total_chunks: usize,
}

/// Splits pages into windows as its configuration says.
pub struct ChunkedProcessor {
    pub config: ChunkConfig,
}

/// The windows from start `s` on, as `(start, end)` pairs: a full window
/// at `s` and the windows one stride on, until a window would reach the
/// end of the page; the last window then ends at the page's end.
pub open spec fn windows_from(s: int, total: int, max: int, stride: int) -> Seq<(int, int)>
    decreases (if s < total {
        total - s
    } else {
        0
    }),
    when stride > 0 && max >= 0
{
    if s + max >= total {
        seq![(total - max, total)]
    } else {
        seq![(s, s + max)] + windows_from(s + stride, total, max, stride)
    }
}

/// The windows of a page of `total` characters: one window of it all when
/// it fits, else overlapping windows from 0 on (see `windows_from`).
pub open spec fn windows(total: int, max: int, stride: int) -> Seq<(int, int)> {
    if total <= max {
        seq![(0, total)]
    } else {
        windows_from(0, total, max, stride)
    }
}

/// Character `i` lies in one of the windows.
pub open spec fn in_some_window(ws: Seq<(int, int)>, i: int) -> bool {
    exists|k: int| 0 <= k < ws.len() && #[trigger] ws[k].0 <= i < ws[k].1
}

/// Windows from `s` on each hold exactly `max` characters of the page, the
/// last one ends at the page's end, and when a step is at most a window
/// they cover every character from `s` on.
proof fn lemma_windows_from(s: int, total: int, max: int, stride: int)
    requires
        0 <= s,
        stride > 0,
        0 < max < total,
    ensures
        windows_from(s, total, max, stride).len() > 0,
        windows_from(s, total, max, stride).last() == (total - max, total),
        forall|k: int|
            0 <= k < windows_from(s, total, max, stride).len() ==> {
                let w = #[trigger] windows_from(s, total, max, stride)[k];
                0 <= w.0 < w.1 <= total && w.1 - w.0 == max
            },
        stride <= max ==> forall|i: int|
            s <= i < total ==> #[trigger] in_some_window(windows_from(s, total, max, stride), i),
    decreases (if s < total {
        total - s
    } else {
        0
    }),
{
    let all = windows_from(s, total, max, stride);
    if s + max >= total {
        assert(all[0] == (total - max, total));
        if stride <= max {
            assert forall|i: int| s <= i < total implies #[trigger] in_some_window(all, i) by {
                assert(all[0].0 <= i < all[0].1);
            }
        }
    } else {
        let n = s + stride;
        lemma_windows_from(n, total, max, stride);
        let rest = windows_from(n, total, max, stride);
        assert(all == seq![(s, s + max)] + rest);
        assert(all.last() == rest.last());
        assert forall|k: int| 0 <= k < all.len() implies {
            let w = #[trigger] all[k];
            0 <= w.0 < w.1 <= total && w.1 - w.0 == max
        } by {
            if k > 0 {
                assert(all[k] == rest[k - 1]);
            }
        }
        if stride <= max {
            assert forall|i: int| s <= i < total implies #[trigger] in_some_window(all, i) by {
                if i < s + max {
                    assert(all[0] == (s, s + max));
                    assert(all[0].0 <= i < all[0].1);
                } else {
                    assert(in_some_window(rest, i));
                    let k = choose|k: int| 0 <= k < rest.len() && #[trigger] rest[k].0 <= i < rest[k].1;
                    assert(all[k + 1] == rest[k]);
                }
            }
        }
    }
}

/// Every window lies in the page and is non-empty; a page longer than a
/// window is cut into windows of exactly `max_tokens` characters, the last
/// ending at the page's end; and when windows start at most a window apart
/// (so they overlap or touch), every character of the page is in some
/// window.
pub proof fn law_windows_cover(total: int, max: int, stride: int)
    requires
        0 < total,
        0 < max,
        total <= max || stride > 0,
    ensures
        windows(total, max, stride).len() > 0,
        windows(total, max, stride).last().1 == total,
        forall|k: int|
            0 <= k < windows(total, max, stride).len() ==> {
                let w = #[trigger] windows(total, max, stride)[k];
                0 <= w.0 < w.1 <= total && w.1 - w.0 <= max
            },
        total > max ==> forall|k: int|
            0 <= k < windows(total, max, stride).len() ==> #[trigger] windows(total, max, stride)[k].1
                - windows(total, max, stride)[k].0 == max,
        (total <= max || stride <= max) ==> forall|i: int|
            0 <= i < total ==> #[trigger] in_some_window(windows(total, max, stride), i),
{
    if total <= max {
        assert(windows(total, max, stride)[0] == (0int, total));
        assert forall|i: int| 0 <= i < total implies #[trigger] in_some_window(
            windows(total, max, stride),
            i,
        ) by {
            assert(windows(total, max, stride)[0] == (0int, total));
            assert(windows(total, max, stride)[0].0 <= i < windows(total, max, stride)[0].1);
        }
    } else {
        lemma_windows_from(0, total, max, stride);
    }
}

impl ChunkedProcessor {
    /// A processor with this configuration.
    pub fn new(config: ChunkConfig) -> (p: Self)
        ensures
            p.config == config,
    {
        ChunkedProcessor { config }
    }

    /// The windows of a page of `total_chars` characters (see `windows`),
    /// numbered in order, each knowing how many there are.
    pub fn create_chunks(&self, total_chars: usize) -> (chunks: Vec<DocumentChunk>)
        requires
            total_chars <= self.config.max_tokens || self.config.stride > 0,
            total_chars + self.config.stride <= usize::MAX,
        ensures
            chunks@.len() == windows(
                total_chars as int,
                self.config.max_tokens as int,
                self.config.stride as int,
            ).len(),
            forall|k: int|
                0 <= k < chunks@.len() ==> {
                    let w = windows(
                        total_chars as int,
                        self.config.max_tokens as int,
                        self.config.stride as int,
                    )[k];
                    &&& #[trigger] chunks@[k].start_idx == w.0
                    &&& chunks@[k].end_idx == w.1
                    &&& chunks@[k].chunk_id == k
                    &&& chunks@[k].total_chunks == chunks@.len()
                },
    {
        let max = self.config.max_tokens;
        let stride = self.config.stride;
        let total = total_chars;
        let mut chunks: Vec<DocumentChunk> = Vec::new();
        if total <= max {
            chunks.push(DocumentChunk { start_idx: 0, end_idx: total, chunk_id: 0, total_chunks: 1 });
            return chunks;
        }
        let ghost all = windows_from(0, total as int, max as int, stride as int);
        let mut start: usize = 0;
        let mut chunk_id: usize = 0;
        while start < total - max
            invariant
                total > max,
                stride > 0,
                total + stride <= usize::MAX,
                start <= total - max + stride,
                chunk_id == chunks@.len(),
                chunk_id <= start,
                all == windows_from(0, total as int, max as int, stride as int),
                all == chunks@.map_values(|c: DocumentChunk| (c.start_idx as int, c.end_idx as int))
                    + windows_from(start as int, total as int, max as int, stride as int),
                forall|k: int| 0 <= k < chunks@.len() ==> #[trigger] chunks@[k].chunk_id == k,
            decreases total + stride - start,
        {
            let ghost before = chunks@;
            chunks.push(DocumentChunk { start_idx: start, end_idx: start + max, chunk_id, total_chunks: 0 });
            assert(chunks@.map_values(|c: DocumentChunk| (c.start_idx as int, c.end_idx as int))
                =~= before.map_values(|c: DocumentChunk| (c.start_idx as int, c.end_idx as int)).push(
                (start as int, (start + max) as int),
            ));
            chunk_id = chunk_id + 1;
            start = start + stride;
        }
        let ghost before = chunks@;
        chunks.push(DocumentChunk { start_idx: total - max, end_idx: total, chunk_id, total_chunks: 0 });
        assert(chunks@.map_values(|c: DocumentChunk| (c.start_idx as int, c.end_idx as int))
            =~= before.map_values(|c: DocumentChunk| (c.start_idx as int, c.end_idx as int)).push(
            ((total - max) as int, total as int),
        ));
        let total_chunks = chunks.len();
        let ghost ranges = chunks@.map_values(|c: DocumentChunk| (c.start_idx as int, c.end_idx as int));
        assert(ranges =~= all);
        let mut k: usize = 0;
        while k < total_chunks
            invariant
                k <= total_chunks,
                total_chunks == chunks@.len(),
                ranges == chunks@.map_values(|c: DocumentChunk| (c.start_idx as int, c.end_idx as int)),
                forall|j: int| 0 <= j < chunks@.len() ==> #[trigger] chunks@[j].chunk_id == j,
                forall|j: int| 0 <= j < k ==> #[trigger] chunks@[j].total_chunks == total_chunks,
            decreases total_chunks - k,
        {
            let c = chunks[k];
            chunks.set(k, DocumentChunk { total_chunks, ..c });
            assert(chunks@.map_values(|c: DocumentChunk| (c.start_idx as int, c.end_idx as int)) =~= ranges);
            k = k + 1;
        }
        assert forall|j: int| 0 <= j < chunks@.len() implies (#[trigger] chunks@[j].start_idx as int, chunks@[j].end_idx as int) == all[j] by {
            assert(ranges[j] == (chunks@[j].start_idx as int, chunks@[j].end_idx as int));
        }
        chunks
    }
}

} // verus!
