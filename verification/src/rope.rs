//! The text rope of the `ropey` crate, seen as a sequence of characters, and
//! the line structure that its documentation defines: a line ends after a
//! line break (LF, CRLF, lone CR, VT, FF, NEL, U+2028 or U+2029), which
//! belongs to the line it ends.

use ropey::{Rope, RopeSlice};
use vstd::prelude::*;

verus! {

/// `ropey::Rope`.
#[verifier::external_type_specification]
#[verifier::external_body]
pub struct ExRope(ropey::Rope);

/// `ropey::RopeSlice`.
#[verifier::external_type_specification]
#[verifier::external_body]
pub struct ExRopeSlice<'a>(ropey::RopeSlice<'a>);

/// The characters that a rope holds.
pub uninterp spec fn rope_chars(r: Rope) -> Seq<char>;

/// The characters that a rope slice holds.
pub uninterp spec fn slice_chars(s: RopeSlice) -> Seq<char>;

/// A line break ends at index `i` of `s`: LF, VT, FF, NEL, U+2028, U+2029,
/// or a CR that is not the first half of a CRLF pair.
pub open spec fn is_break_end(s: Seq<char>, i: int) -> bool {
    &&& 0 <= i < s.len()
    &&& {
        ||| s[i] == '\n'
        ||| s[i] == '\x0B'
        ||| s[i] == '\x0C'
        ||| s[i] == '\u{85}'
        ||| s[i] == '\u{2028}'
        ||| s[i] == '\u{2029}'
        ||| (s[i] == '\r' && !(i + 1 < s.len() && s[i + 1] == '\n'))
    }
}

/// Number of line breaks that end before index `c`: the index of the line
/// that char `c` is in.
pub open spec fn breaks_before(s: Seq<char>, c: int) -> nat
    decreases c,
{
    if c <= 0 {
        0
    } else {
        breaks_before(s, c - 1) + if is_break_end(s, c - 1) {
            1nat
        } else {
            0nat
        }
    }
}

/// Number of lines: one more than the number of line breaks.
pub open spec fn line_count(s: Seq<char>) -> nat {
    breaks_before(s, s.len() as int) + 1
}

/// The first index from `c` on that has at least `l` line breaks before it
/// (the length of `s` if there is none).
pub open spec fn first_index_after_breaks(s: Seq<char>, l: nat, c: int) -> int
    decreases s.len() - c,
{
    if c >= s.len() || breaks_before(s, c) >= l {
        c
    } else {
        first_index_after_breaks(s, l, c + 1)
    }
}

/// Char index of the start of line `l`; the length of `s` for
/// `l == line_count(s)`.
pub open spec fn line_start(s: Seq<char>, l: nat) -> int {
    first_index_after_breaks(s, l, 0)
}

/// The characters of line `l`, with its line break.
pub open spec fn line_chars(s: Seq<char>, l: nat) -> Seq<char> {
    s.subrange(line_start(s, l), line_start(s, l + 1))
}

/// Line breaks before an index grow by at most one per character.
pub proof fn lemma_breaks_before_step(s: Seq<char>, c: int)
    requires
        0 <= c,
    ensures
        breaks_before(s, c) <= breaks_before(s, c + 1) <= breaks_before(s, c) + 1,
        breaks_before(s, c) <= c,
    decreases c,
{
    if c > 0 {
        lemma_breaks_before_step(s, c - 1);
    }
}

/// Line breaks before an index grow with the index.
pub proof fn lemma_breaks_before_mono(s: Seq<char>, a: int, b: int)
    requires
        0 <= a <= b,
    ensures
        breaks_before(s, a) <= breaks_before(s, b),
    decreases b - a,
{
    if a < b {
        lemma_breaks_before_step(s, b - 1);
        lemma_breaks_before_mono(s, a, b - 1);
    }
}

proof fn lemma_first_index_bounds(s: Seq<char>, l: nat, c: int)
    requires
        0 <= c <= s.len(),
    ensures
        c <= first_index_after_breaks(s, l, c) <= s.len(),
    decreases s.len() - c,
{
    if !(c >= s.len() || breaks_before(s, c) >= l) {
        lemma_first_index_bounds(s, l, c + 1);
    }
}

proof fn lemma_first_index_mono(s: Seq<char>, l: nat, c: int)
    requires
        0 <= c <= s.len(),
    ensures
        first_index_after_breaks(s, l, c) <= first_index_after_breaks(s, l + 1, c),
    decreases s.len() - c,
{
    if c >= s.len() || breaks_before(s, c) >= l + 1 {
    } else if breaks_before(s, c) >= l {
        lemma_first_index_bounds(s, l + 1, c + 1);
    } else {
        lemma_first_index_mono(s, l, c + 1);
    }
}

/// A position `c` is not before the start of the line that holds it.
proof fn lemma_first_index_before(s: Seq<char>, c: int, d: int)
    requires
        0 <= d <= c <= s.len(),
        breaks_before(s, d) <= breaks_before(s, c),
    ensures
        first_index_after_breaks(s, breaks_before(s, c), d) <= c,
    decreases c - d,
{
    if d >= s.len() || breaks_before(s, d) >= breaks_before(s, c) {
    } else {
        lemma_breaks_before_step(s, d);
        lemma_first_index_before(s, c, d + 1);
    }
}

/// Before the first index reached, the indices have fewer than `l` breaks
/// before them; at it, `l` or more (unless it is the end of the text).
proof fn lemma_first_index_props(s: Seq<char>, l: nat, d: int)
    requires
        0 <= d <= s.len(),
    ensures
        forall|x: int| d <= x < first_index_after_breaks(s, l, d) ==> #[trigger] breaks_before(s, x) < l,
        first_index_after_breaks(s, l, d) == s.len() || breaks_before(s, first_index_after_breaks(s, l, d))
            >= l,
    decreases s.len() - d,
{
    if !(d >= s.len() || breaks_before(s, d) >= l) {
        lemma_first_index_props(s, l, d + 1);
    }
}

/// An index between the start of line `row` and the start of the next one
/// is in line `row`.
pub proof fn lemma_line_of_position(s: Seq<char>, row: nat, c: int)
    requires
        line_start(s, row) <= c < line_start(s, row + 1),
    ensures
        breaks_before(s, c) == row,
{
    lemma_first_index_props(s, row, 0);
    lemma_first_index_props(s, row + 1, 0);
    lemma_first_index_bounds(s, row + 1, 0);
    lemma_line_start_order(s, row);
    lemma_breaks_before_mono(s, line_start(s, row), c);
}

/// A line past the last one starts at the end of the text.
pub proof fn lemma_next_line_past_end(s: Seq<char>, row: nat)
    requires
        row + 1 >= line_count(s),
    ensures
        line_start(s, row + 1) == s.len(),
{
    lemma_first_index_props(s, row + 1, 0);
    lemma_first_index_bounds(s, row + 1, 0);
    lemma_breaks_before_mono(s, line_start(s, row + 1), s.len() as int);
}

/// Line starts are in order and within the text.
pub proof fn lemma_line_start_order(s: Seq<char>, l: nat)
    ensures
        0 <= line_start(s, l) <= line_start(s, l + 1) <= s.len(),
{
    lemma_first_index_bounds(s, l, 0);
    lemma_first_index_bounds(s, l + 1, 0);
    lemma_first_index_mono(s, l, 0);
}

/// Char `c` lies at or after the start of its line, and its line exists.
pub proof fn lemma_line_of_char(s: Seq<char>, c: int)
    requires
        0 <= c <= s.len(),
    ensures
        line_start(s, breaks_before(s, c)) <= c,
        breaks_before(s, c) < line_count(s),
{
    lemma_first_index_before(s, c, 0);
    lemma_breaks_before_mono(s, c, s.len() as int);
}

/// `Rope::from_str`: a rope holding the characters of `text`.
#[verifier::external_body]
pub(crate) fn rope_from_str(text: &str) -> (r: Rope)
    ensures
        rope_chars(r) == text@,
{
    Rope::from_str(text)
}

/// `Rope::to_string` (through `Display`): the characters of the rope.
#[verifier::external_body]
pub(crate) fn rope_to_string(r: &Rope) -> (s: String)
    ensures
        s@ == rope_chars(*r),
{
    r.to_string()
}

/// `Rope::clone`: a rope with the same characters.
#[verifier::external_body]
pub(crate) fn rope_clone(r: &Rope) -> (c: Rope)
    ensures
        rope_chars(c) == rope_chars(*r),
{
    r.clone()
}

/// `Rope::len_chars`: the number of characters.
#[verifier::external_body]
pub(crate) fn rope_len_chars(r: &Rope) -> (n: usize)
    ensures
        n == rope_chars(*r).len(),
{
    r.len_chars()
}

/// `Rope::len_lines`: the number of lines, one more than the number of
/// line breaks.
#[verifier::external_body]
pub(crate) fn rope_len_lines(r: &Rope) -> (n: usize)
    ensures
        n == line_count(rope_chars(*r)),
{
    r.len_lines()
}

/// `Rope::line_to_char`: the char index where line `line` starts (the
/// length of the rope for one past the last line).
#[verifier::external_body]
pub(crate) fn rope_line_to_char(r: &Rope, line: usize) -> (c: usize)
    requires
        line <= line_count(rope_chars(*r)),
    ensures
        c == line_start(rope_chars(*r), line as nat),
{
    r.line_to_char(line)
}

/// `Rope::char_to_line`: the index of the line that char `c` is in (the
/// number of line breaks that end before it).
#[verifier::external_body]
pub(crate) fn rope_char_to_line(r: &Rope, c: usize) -> (l: usize)
    requires
        c <= rope_chars(*r).len(),
    ensures
        l == breaks_before(rope_chars(*r), c as int),
{
    r.char_to_line(c)
}

/// `Rope::insert_char`: inserts `ch` at char index `idx`.
#[verifier::external_body]
pub(crate) fn rope_insert_char(r: &mut Rope, idx: usize, ch: char)
    requires
        idx <= rope_chars(*old(r)).len(),
    ensures
        rope_chars(*final(r)) == rope_chars(*old(r)).insert(idx as int, ch),
{
    r.insert_char(idx, ch)
}

/// `Rope::insert`: inserts `text` at char index `idx`.
#[verifier::external_body]
pub(crate) fn rope_insert(r: &mut Rope, idx: usize, text: &str)
    requires
        idx <= rope_chars(*old(r)).len(),
    ensures
        rope_chars(*final(r)) == rope_chars(*old(r)).take(idx as int) + text@ + rope_chars(
            *old(r),
        ).skip(idx as int),
{
    r.insert(idx, text)
}

/// `Rope::remove`: removes the chars in `start..end`.
#[verifier::external_body]
pub(crate) fn rope_remove(r: &mut Rope, start: usize, end: usize)
    requires
        start <= end <= rope_chars(*old(r)).len(),
    ensures
        rope_chars(*final(r)) == rope_chars(*old(r)).take(start as int) + rope_chars(
            *old(r),
        ).skip(end as int),
{
    r.remove(start..end)
}

/// `Rope::line`: line `line` with its line break.
#[verifier::external_body]
pub(crate) fn rope_line(r: &Rope, line: usize) -> (s: RopeSlice<'_>)
    requires
        line < line_count(rope_chars(*r)),
    ensures
        slice_chars(s) == line_chars(rope_chars(*r), line as nat),
{
    r.line(line)
}

/// `Rope::slice`: the chars in `start..end`.
#[verifier::external_body]
pub(crate) fn rope_slice(r: &Rope, start: usize, end: usize) -> (s: RopeSlice<'_>)
    requires
        start <= end <= rope_chars(*r).len(),
    ensures
        slice_chars(s) == rope_chars(*r).subrange(start as int, end as int),
{
    r.slice(start..end)
}

/// `RopeSlice::len_chars`: the number of characters of the slice.
#[verifier::external_body]
pub(crate) fn slice_len_chars(s: &RopeSlice) -> (n: usize)
    ensures
        n == slice_chars(*s).len(),
{
    s.len_chars()
}

/// `RopeSlice::char`: the character at index `i` of the slice.
#[verifier::external_body]
pub(crate) fn slice_char(s: &RopeSlice, i: usize) -> (c: char)
    requires
        i < slice_chars(*s).len(),
    ensures
        c == slice_chars(*s)[i as int],
{
    s.char(i)
}

/// `RopeSlice::to_string` (through `Display`): the characters of the slice.
#[verifier::external_body]
pub(crate) fn slice_to_string(s: &RopeSlice) -> (t: String)
    ensures
        t@ == slice_chars(*s),
{
    s.to_string()
}

} // verus!
