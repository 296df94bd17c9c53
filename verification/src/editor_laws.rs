//! What holds of the editor across operations: undoing an edit brings back
//! the text before it, redoing brings back what was undone, the undo
//! history stays within its capacity, wrapped pieces cover each line once,
//! and every search result is a match.

use crate::editor::{
    backspace_pressed, char_typed, hits, hits_below, matches_at, newline_typed, pasted, undo_pushed,
    selection_deleted, AppView,
};
use crate::editor::{redone, undone};
use crate::editor::{lowered_bytes, row_hits, search_hits, searched};
use crate::std_text::lowercase;
use crate::rope::line_chars;
use crate::editor_pane::{segment_end, segments_from, wrap_segments};
use crate::editor::{edit_key_step, lemma_line_measures, PAGE_ROWS};
use crate::kitty_native::KeyCode;
use crate::rope::{lemma_line_start_order, line_count};
use crate::text_buffer::line_length;
use crate::undo::restored_text;
use vstd::prelude::*;

verus! {

/// The undo history of a state holds a free place or drops its oldest
/// state, so recording the current state keeps it as the last one.
proof fn lemma_pushed_last(v: AppView)
    requires
        v.undo_capacity > 0,
        v.undo_states.len() <= v.undo_capacity,
    ensures
        undo_pushed(v).undo_states.len() > 0,
        undo_pushed(v).undo_states.last() == (v.text, v.cursor_row, v.cursor_col),
        undo_pushed(v).undo_states.len() <= v.undo_capacity,
        undo_pushed(v).redo_states.len() == 0,
{
}

/// Undoing right after typing a character, breaking a line, deleting
/// backwards or pasting brings back the text and cursor from before the
/// edit (an empty text comes back as a single newline).
pub proof fn law_undo_reverts_edit(v: AppView, c: char, t: Seq<char>)
    requires
        v.undo_capacity > 0,
        v.undo_states.len() <= v.undo_capacity,
    ensures
        undone(char_typed(v, c)).text == restored_text(v.text),
        (undone(char_typed(v, c)).cursor_row, undone(char_typed(v, c)).cursor_col) == (
            v.cursor_row,
            v.cursor_col,
        ),
        undone(newline_typed(v)).text == restored_text(v.text),
        (undone(newline_typed(v)).cursor_row, undone(newline_typed(v)).cursor_col) == (
            v.cursor_row,
            v.cursor_col,
        ),
        undone(backspace_pressed(v)).text == restored_text(v.text),
        (undone(backspace_pressed(v)).cursor_row, undone(backspace_pressed(v)).cursor_col) == (
            v.cursor_row,
            v.cursor_col,
        ),
        undone(pasted(v, t)).text == restored_text(v.text),
        (undone(pasted(v, t)).cursor_row, undone(pasted(v, t)).cursor_col) == (
            v.cursor_row,
            v.cursor_col,
        ),
{
    lemma_pushed_last(v);
    let w = undo_pushed(v);
    assert(selection_deleted(w).undo_states == w.undo_states);
}

/// Redoing right after an undo brings back the text and cursor that the
/// undo replaced.
pub proof fn law_redo_reverts_undo(v: AppView)
    requires
        v.undo_states.len() > 0,
    ensures
        redone(undone(v)).text == restored_text(v.text),
        (redone(undone(v)).cursor_row, redone(undone(v)).cursor_col) == (v.cursor_row, v.cursor_col),
        redone(undone(v)).undo_states == v.undo_states.drop_last().push(
            (restored_text(v.undo_states.last().0), v.undo_states.last().1, v.undo_states.last().2),
        ),
{
}

/// Recording a state for undo keeps the history within its capacity and
/// empties the redo history.
pub proof fn law_undo_history_bounded(v: AppView)
    requires
        v.undo_states.len() <= v.undo_capacity,
    ensures
        undo_pushed(v).undo_states.len() <= v.undo_capacity,
        undo_pushed(v).redo_states.len() == 0,
{
}

/// The positions below `q` that `hits_below` lists are exactly the match
/// positions below `q`, in increasing order.
proof fn lemma_hits_below(h: Seq<u8>, n: Seq<u8>, q: int)
    ensures
        forall|p: int| #[trigger] hits_below(h, n, q).contains(p) <==> (0 <= p < q && matches_at(h, n, p)),
        forall|i: int, j: int|
            0 <= i < j < hits_below(h, n, q).len() ==> hits_below(h, n, q)[i] < hits_below(h, n, q)[j],
        forall|i: int| 0 <= i < hits_below(h, n, q).len() ==> #[trigger] hits_below(h, n, q)[i] < q,
    decreases q,
{
    if q > 0 {
        lemma_hits_below(h, n, q - 1);
        let prev = hits_below(h, n, q - 1);
        if matches_at(h, n, q - 1) {
            let cur = prev.push(q - 1);
            assert(hits_below(h, n, q) == cur);
            assert forall|p: int| #[trigger] cur.contains(p) <==> (0 <= p < q && matches_at(h, n, p)) by {
                if cur.contains(p) {
                    let i = choose|i: int| 0 <= i < cur.len() && cur[i] == p;
                    if i < prev.len() {
                        assert(prev[i] == p);
                        assert(prev.contains(p));
                    }
                }
                if 0 <= p < q && matches_at(h, n, p) {
                    if p == q - 1 {
                        assert(cur[prev.len() as int] == p);
                    } else {
                        assert(prev.contains(p));
                        let i = choose|i: int| 0 <= i < prev.len() && prev[i] == p;
                        assert(cur[i] == p);
                    }
                }
            }
            assert forall|i: int, j: int| 0 <= i < j < cur.len() implies cur[i] < cur[j] by {
                if j < prev.len() {
                    assert(cur[i] == prev[i] && cur[j] == prev[j]);
                } else {
                    assert(cur[i] == prev[i]);
                }
            }
            assert forall|i: int| 0 <= i < cur.len() implies #[trigger] cur[i] < q by {
                if i < prev.len() {
                    assert(cur[i] == prev[i]);
                }
            }
        }
    }
}

/// Search finds every match and nothing else: a byte position is reported
/// for a line exactly when the query occurs there, and positions come in
/// increasing order.
pub proof fn law_hits_are_matches(h: Seq<u8>, n: Seq<u8>, p: int)
    ensures
        hits(h, n).contains(p) <==> matches_at(h, n, p),
        forall|i: int, j: int| 0 <= i < j < hits(h, n).len() ==> hits(h, n)[i] < hits(h, n)[j],
{
    lemma_hits_below(h, n, h.len() + 1int);
}

/// The pieces of a line from `col` on start at `col`, each starts where the
/// one before it ended, each is at least one and at most `w` characters
/// long, and the last ends at the end of the line.
proof fn lemma_segments_tile(l: Seq<char>, col: int, w: int)
    requires
        0 <= col < l.len(),
        w > 0,
    ensures
        segments_from(l, col, w).len() > 0,
        segments_from(l, col, w)[0].0 == col,
        segments_from(l, col, w).last().1 == l.len(),
        forall|i: int|
            0 <= i < segments_from(l, col, w).len() ==> #[trigger] segments_from(l, col, w)[i].0
                < segments_from(l, col, w)[i].1 <= segments_from(l, col, w)[i].0 + w,
        forall|i: int|
            0 <= i < segments_from(l, col, w).len() - 1 ==> #[trigger] segments_from(l, col, w)[i].1
                == segments_from(l, col, w)[i + 1].0,
    decreases l.len() - col,
{
    crate::editor_pane::lemma_segment_end_pub(l, col, w);
    let e = segment_end(l, col, w);
    let s = segments_from(l, col, w);
    if e < l.len() {
        lemma_segments_tile(l, e, w);
        let rest = segments_from(l, e, w);
        assert(s == seq![(col, e)] + rest);
        assert forall|i: int| 0 <= i < s.len() implies #[trigger] s[i].0 < s[i].1 <= s[i].0 + w by {
            if i > 0 {
                assert(s[i] == rest[i - 1]);
            }
        }
        assert forall|i: int| 0 <= i < s.len() - 1 implies #[trigger] s[i].1 == s[i + 1].0 by {
            if i > 0 {
                assert(s[i] == rest[i - 1]);
                assert(s[i + 1] == rest[i]);
            }
        }
    } else {
        assert(segments_from(l, e, w) =~= Seq::<(int, int)>::empty());
        assert(s =~= seq![(col, e)]);
    }
}

/// Wrapping shows every character of a line exactly once: the pieces
/// start at 0, each starts where the one before it ended, each holds at
/// most `w` characters (and at least one, on a non-empty line), and the
/// last ends at the end of the line.
pub proof fn law_wrap_covers_line(l: Seq<char>, w: int)
    requires
        w > 0,
    ensures
        wrap_segments(l, w).len() > 0,
        wrap_segments(l, w)[0].0 == 0,
        wrap_segments(l, w).last().1 == l.len(),
        forall|i: int|
            0 <= i < wrap_segments(l, w).len() ==> #[trigger] wrap_segments(l, w)[i].1 - wrap_segments(
                l,
                w,
            )[i].0 <= w,
        forall|i: int|
            0 <= i < wrap_segments(l, w).len() - 1 ==> #[trigger] wrap_segments(l, w)[i].1
                == wrap_segments(l, w)[i + 1].0,
{
    if l.len() > 0 {
        lemma_segments_tile(l, 0, w);
    }
}

/// A line's length without its break is at most the text's length.
proof fn lemma_line_length_bound(s: Seq<char>, r: nat)
    ensures
        0 <= line_length(s, r) <= s.len(),
{
    if r < line_count(s) {
        lemma_line_start_order(s, r);
    }
}

/// The smaller of a column and a line's length.
pub open spec fn clamped(col: int, len: int) -> int {
    if col < len {
        col
    } else {
        len
    }
}

/// The keys that only move the cursor.
pub open spec fn is_cursor_key(k: KeyCode) -> bool {
    k == KeyCode::Down || k == KeyCode::Up || k == KeyCode::Left || k == KeyCode::Right || k == KeyCode::Home
        || k == KeyCode::End || k == KeyCode::PageUp || k == KeyCode::PageDown
}

/// The cursor keys move the cursor as a text editor does, measured on
/// the lines of the text: Up and Down (and Page Up/Down, 20 lines, not
/// past the first or last line) go to the target line keeping the column
/// but never past that line's end; Left and Right step one character,
/// crossing to the end of the previous line or the start of the next at a
/// line's edge, and stop at the text's ends; Home and End go to the
/// line's start and end. Each drops the selection and leaves the text as
/// it is; and a cursor within its line stays within its line.
pub proof fn law_cursor_keys(v: AppView)
    requires
        v.text.len() <= usize::MAX,
    ensures
        v.cursor_row + 1 < line_count(v.text) ==> edit_key_step(v, KeyCode::Down).cursor_row == v.cursor_row + 1
            && edit_key_step(v, KeyCode::Down).cursor_col == clamped(
            v.cursor_col as int,
            line_length(v.text, (v.cursor_row + 1) as nat),
        ),
        v.cursor_row + 1 >= line_count(v.text) ==> edit_key_step(v, KeyCode::Down).cursor_row == v.cursor_row
            && edit_key_step(v, KeyCode::Down).cursor_col == v.cursor_col,
        v.cursor_row > 0 ==> edit_key_step(v, KeyCode::Up).cursor_row == v.cursor_row - 1 && edit_key_step(
            v,
            KeyCode::Up,
        ).cursor_col == clamped(v.cursor_col as int, line_length(v.text, (v.cursor_row - 1) as nat)),
        v.cursor_row == 0 ==> edit_key_step(v, KeyCode::Up).cursor_row == 0 && edit_key_step(v, KeyCode::Up).cursor_col
            == v.cursor_col,
        v.cursor_col > 0 ==> edit_key_step(v, KeyCode::Left).cursor_row == v.cursor_row && edit_key_step(
            v,
            KeyCode::Left,
        ).cursor_col == v.cursor_col - 1,
        v.cursor_col == 0 && v.cursor_row > 0 ==> edit_key_step(v, KeyCode::Left).cursor_row == v.cursor_row - 1
            && edit_key_step(v, KeyCode::Left).cursor_col == line_length(v.text, (v.cursor_row - 1) as nat),
        v.cursor_col == 0 && v.cursor_row == 0 ==> edit_key_step(v, KeyCode::Left).cursor_row == 0
            && edit_key_step(v, KeyCode::Left).cursor_col == 0,
        v.cursor_col < line_length(v.text, v.cursor_row as nat) ==> edit_key_step(v, KeyCode::Right).cursor_row
            == v.cursor_row && edit_key_step(v, KeyCode::Right).cursor_col == v.cursor_col + 1,
        v.cursor_col >= line_length(v.text, v.cursor_row as nat) && v.cursor_row + 1 < line_count(v.text)
            ==> edit_key_step(v, KeyCode::Right).cursor_row == v.cursor_row + 1 && edit_key_step(
            v,
            KeyCode::Right,
        ).cursor_col == 0,
        v.cursor_col >= line_length(v.text, v.cursor_row as nat) && v.cursor_row + 1 >= line_count(v.text)
            ==> edit_key_step(v, KeyCode::Right).cursor_row == v.cursor_row && edit_key_step(
            v,
            KeyCode::Right,
        ).cursor_col == v.cursor_col,
        edit_key_step(v, KeyCode::Home).cursor_row == v.cursor_row,
        edit_key_step(v, KeyCode::Home).cursor_col == 0,
        edit_key_step(v, KeyCode::End).cursor_row == v.cursor_row,
        edit_key_step(v, KeyCode::End).cursor_col == line_length(v.text, v.cursor_row as nat),
        edit_key_step(v, KeyCode::PageUp).cursor_row == (if v.cursor_row >= PAGE_ROWS {
            v.cursor_row - PAGE_ROWS
        } else {
            0
        }),
        edit_key_step(v, KeyCode::PageUp).cursor_col == clamped(
            v.cursor_col as int,
            line_length(v.text, edit_key_step(v, KeyCode::PageUp).cursor_row as nat),
        ),
        edit_key_step(v, KeyCode::PageDown).cursor_row == (if v.cursor_row + PAGE_ROWS < line_count(v.text) - 1 {
            v.cursor_row + PAGE_ROWS
        } else {
            line_count(v.text) - 1
        }),
        edit_key_step(v, KeyCode::PageDown).cursor_col == clamped(
            v.cursor_col as int,
            line_length(v.text, edit_key_step(v, KeyCode::PageDown).cursor_row as nat),
        ),
        forall|k: KeyCode|
            is_cursor_key(k) ==> (#[trigger] edit_key_step(v, k)).text == v.text && edit_key_step(v, k).selection is None,
        v.cursor_row < line_count(v.text) && v.cursor_col <= line_length(v.text, v.cursor_row as nat) ==> forall|
            k: KeyCode,
        |
            is_cursor_key(k) ==> (#[trigger] edit_key_step(v, k)).cursor_row < line_count(v.text)
                && edit_key_step(v, k).cursor_col <= line_length(v.text, edit_key_step(v, k).cursor_row as nat),
{
    let s = v.text;
    let r = v.cursor_row as int;
    crate::rope::lemma_breaks_before_step(s, s.len() as int);
    lemma_line_measures(s, r);
    lemma_line_measures(s, r + 1);
    lemma_line_measures(s, r - 1);
    lemma_line_length_bound(s, r as nat);
    lemma_line_length_bound(s, (r + 1) as nat);
    lemma_line_length_bound(s, (r - 1) as nat);
    let up_row = if r >= PAGE_ROWS { r - PAGE_ROWS } else { 0 };
    let dn_row = if r + PAGE_ROWS < line_count(s) - 1 { r + PAGE_ROWS } else { line_count(s) - 1 };
    lemma_line_measures(s, up_row);
    lemma_line_measures(s, dn_row);
    lemma_line_length_bound(s, up_row as nat);
    lemma_line_length_bound(s, dn_row as nat);
}

/// The search results depend on the query only through the bytes of its
/// lowercase form.
proof fn lemma_search_hits_lowered(s: Seq<char>, q1: Seq<char>, q2: Seq<char>, k: nat)
    requires
        lowered_bytes(q1) == lowered_bytes(q2),
    ensures
        search_hits(s, q1, k) == search_hits(s, q2, k),
    decreases k,
{
    if k > 0 {
        lemma_search_hits_lowered(s, q1, q2, (k - 1) as nat);
    }
}

/// Search ignores case on both sides: two non-empty queries with the same
/// lowercase form (such as a query and any other casing of it) find the
/// same matches, in the same order.
pub proof fn law_search_ignores_case(v: AppView, q2: Seq<char>)
    requires
        v.search_query.len() > 0,
        q2.len() > 0,
        lowercase(v.search_query) == lowercase(q2),
    ensures
        searched(v).search_results == searched(AppView { search_query: q2, ..v }).search_results,
{
    reveal(searched);
    lemma_search_hits_lowered(v.text, v.search_query, q2, line_count(v.text));
}

/// Every match of line `r` lies among the search results of the first `k`
/// lines when `r < k`.
proof fn lemma_row_hits_in_search(s: Seq<char>, q: Seq<char>, r: nat, k: nat, x: (usize, usize))
    requires
        r < k,
        row_hits(s, q, r).contains(x),
    ensures
        search_hits(s, q, k).contains(x),
    decreases k,
{
    let prev = search_hits(s, q, (k - 1) as nat);
    let row = row_hits(s, q, (k - 1) as nat);
    assert(search_hits(s, q, k) == prev + row);
    if r < k - 1 {
        lemma_row_hits_in_search(s, q, r, (k - 1) as nat, x);
        let i = choose|i: int| 0 <= i < prev.len() && prev[i] == x;
        assert((prev + row)[i] == x);
    } else {
        let i = choose|i: int| 0 <= i < row.len() && row[i] == x;
        assert((prev + row)[prev.len() + i] == x);
    }
}

/// Search finds every match, case ignored: wherever the lowercase form
/// of a line holds the lowercase form of the (non-empty) query, at byte
/// offset `p`, the search results hold that line and offset.
pub proof fn law_search_finds_lowercase_matches(v: AppView, r: nat, p: int)
    requires
        v.search_query.len() > 0,
        r < line_count(v.text),
        matches_at(lowered_bytes(line_chars(v.text, r)), lowered_bytes(v.search_query), p),
    ensures
        searched(v).search_results.contains((r as usize, p as usize)),
{
    reveal(searched);
    let h = lowered_bytes(line_chars(v.text, r));
    let n = lowered_bytes(v.search_query);
    law_hits_are_matches(h, n, p);
    let i = choose|i: int| 0 <= i < hits(h, n).len() && hits(h, n)[i] == p;
    let rh = row_hits(v.text, v.search_query, r);
    assert(rh[i] == (r as usize, p as usize));
    assert(rh.contains((r as usize, p as usize)));
    lemma_row_hits_in_search(v.text, v.search_query, r, line_count(v.text), (r as usize, p as usize));
}

} // verus!
