//! Choosing a PDF from a list of files with the arrow keys, optionally
//! narrowed by a search on file names. Listing the files, drawing the list
//! and reading keys are left to the caller.

use crate::kitty_native::{KeyCode, KeyEvent};
use crate::std_text::{lowercase, to_lowercase};
use crate::text_filter::{is_whitespace_char, is_whitespace_spec};
use crate::text_format::chars_of;
use vstd::prelude::*;

verus! {

/// Every character of `s` is whitespace.
pub open spec fn all_whitespace(s: Seq<char>) -> bool {
    forall|i: int| 0 <= i < s.len() ==> is_whitespace_spec(#[trigger] s[i])
}

/// `n` occurs in `h` as a run of characters.
pub open spec fn contains_seq(h: Seq<char>, n: Seq<char>) -> bool {
    exists|i: int| 0 <= i && i + n.len() <= h.len() && #[trigger] h.subrange(i, i + n.len()) == n
}

/// A file matches a query when the query is blank or the lowercase file
/// name contains the lowercase query.
pub open spec fn name_matches(file_name: Seq<char>, query: Seq<char>) -> bool {
    all_whitespace(query) || contains_seq(lowercase(file_name), lowercase(query))
}

/// Whether `n` occurs in `h` starting at `i`.
fn occurs_at(h: &Vec<char>, n: &Vec<char>, i: usize) -> (b: bool)
    requires
        i + n@.len() <= h@.len(),
    ensures
        b == (h@.subrange(i as int, i + n@.len()) == n@),
{
    let hl = h.len();
    let mut j: usize = 0;
    while j < n.len()
        invariant
            hl == h@.len(),
            i + n@.len() <= h@.len(),
            j <= n@.len(),
            forall|k: int| 0 <= k < j ==> h@[i + k] == n@[k],
        decreases n@.len() - j,
    {
        if h[i + j] != n[j] {
            assert(h@.subrange(i as int, i + n@.len())[j as int] != n@[j as int]);
            return false;
        }
        j = j + 1;
    }
    assert(h@.subrange(i as int, i + n@.len()) =~= n@);
    true
}

/// Whether `n` occurs in `h`.
fn contains_chars(h: &Vec<char>, n: &Vec<char>) -> (b: bool)
    ensures
        b == contains_seq(h@, n@),
{
    if n.len() > h.len() {
        return false;
    }
    if n.len() == 0 {
        assert(h@.subrange(0, 0int + n@.len()) =~= n@);
        return true;
    }
    let hl = h.len();
    let nl = n.len();
    let last = hl - nl;
    let mut i: usize = 0;
    while i < last + 1
        invariant
            last == h@.len() - n@.len(),
            hl == h@.len(),
            last < hl,
            0 < n@.len() <= h@.len(),
            i <= last + 1,
            forall|k: int| 0 <= k < i ==> #[trigger] h@.subrange(k, k + n@.len()) != n@,
        decreases last + 1 - i,
    {
        if occurs_at(h, n, i) {
            return true;
        }
        i = i + 1;
    }
    false
}

/// Whether a file name matches a search query, ignoring case; a blank
/// query matches every file.
pub fn search_pdf_filename(file_name: &str, query: &str) -> (b: bool)
    ensures
        b == name_matches(file_name@, query@),
{
    let mut blank = true;
    for ch in it: query.chars()
        invariant
            it.seq() == query@,
            blank == all_whitespace(query@.take(it.index() as int)),
    {
        let ghost prev = query@.take(it.index() as int);
        let ghost next = query@.take(it.index() + 1);
        assert(next =~= prev.push(ch));
        assert(next[it.index() as int] == ch);
        if !is_whitespace_char(ch) {
            blank = false;
        }
        proof {
            if all_whitespace(prev) && is_whitespace_spec(ch) {
                assert forall|i: int| 0 <= i < next.len() implies is_whitespace_spec(#[trigger] next[i]) by {
                    if i < prev.len() {
                        assert(next[i] == prev[i]);
                    }
                }
            }
            if !all_whitespace(prev) {
                let j = choose|j: int| 0 <= j < prev.len() && !is_whitespace_spec(#[trigger] prev[j]);
                assert(next[j] == prev[j]);
            }
        }
    }
    assert(query@.take(query@.len() as int) =~= query@);
    if blank {
        return true;
    }
    let name = to_lowercase(file_name);
    let q = to_lowercase(query);
    let h = chars_of(name.as_str());
    let n = chars_of(q.as_str());
    contains_chars(&h, &n)
}

/// What the picker asks for after a key.
pub enum PickerAction {
    /// Keep going.
    Continue,
    /// Open the file at this index of the full list.
    Open(usize),
    /// Close without a choice.
    Cancel,
}

/// The picker's state: the selected row, the first row shown, whether the
/// list must be drawn again, and the file-name search.
pub struct FilePicker {
    pub selected_index: usize,
    pub scroll_offset: usize,
    pub needs_redraw: bool,
    pub search_query: String,
    pub search_mode: bool,
}

/// The indices, in the full list, of the files that the picker shows: all
/// of them, or while searching those whose names match the query.
pub open spec fn shown_files(names: Seq<Seq<char>>, search_mode: bool, query: Seq<char>) -> Seq<usize>
    decreases names.len(),
{
    if names.len() == 0 {
        Seq::empty()
    } else {
        let before = shown_files(names.drop_last(), search_mode, query);
        if !search_mode || name_matches(names.last(), query) {
            before.push((names.len() - 1) as usize)
        } else {
            before
        }
    }
}

/// The file names as plain values.
pub open spec fn names_of(files: Seq<String>) -> Seq<Seq<char>> {
    files.map_values(|f: String| f@)
}

impl FilePicker {
    /// A picker on the first file, not searching.
    pub fn new() -> (p: Self)
        ensures
            p.selected_index == 0 && p.scroll_offset == 0 && p.needs_redraw,
            p.search_query@ == Seq::<char>::empty(),
            !p.search_mode,
    {
        FilePicker {
            selected_index: 0,
            scroll_offset: 0,
            needs_redraw: true,
            search_query: String::new(),
            search_mode: false,
        }
    }

    /// The indices of the files shown (see `shown_files`).
    pub fn shown(&self, files: &Vec<String>) -> (r: Vec<usize>)
        ensures
            r@ == shown_files(names_of(files@), self.search_mode, self.search_query@),
    {
        let ghost names = names_of(files@);
        let mut r: Vec<usize> = Vec::new();
        let mut i: usize = 0;
        while i < files.len()
            invariant
                i <= files@.len(),
                names == names_of(files@),
                r@ == shown_files(names.take(i as int), self.search_mode, self.search_query@),
            decreases files@.len() - i,
        {
            assert(names.take(i + 1).drop_last() =~= names.take(i as int));
            assert(names.take(i + 1).last() == files@[i as int]@);
            if !self.search_mode || search_pdf_filename(files[i].as_str(), self.search_query.as_str()) {
                r.push(i);
            }
            i = i + 1;
        }
        assert(names.take(files@.len() as int) =~= names);
        r
    }

    /// Keeps the selected row among the `max_items` rows shown. (With no
    /// row shown, only a selection above the scrolled-to row can be kept.)
    pub fn update_scroll(&mut self, max_items: usize)
        requires
            max_items > 0 || old(self).selected_index < old(self).scroll_offset,
        ensures
            final(self).scroll_offset == if old(self).selected_index >= old(self).scroll_offset
                + max_items {
                (old(self).selected_index - (max_items - 1)) as usize
            } else if old(self).selected_index < old(self).scroll_offset {
                old(self).selected_index
            } else {
                old(self).scroll_offset
            },
            final(self).selected_index == old(self).selected_index,
            final(self).needs_redraw == old(self).needs_redraw,
            final(self).search_query@ == old(self).search_query@,
            final(self).search_mode == old(self).search_mode,
    {
        if self.scroll_offset <= self.selected_index && self.selected_index - self.scroll_offset
            >= max_items {
            self.scroll_offset = self.selected_index - (max_items - 1);
        } else if self.selected_index < self.scroll_offset {
            self.scroll_offset = self.selected_index;
        }
    }

    /// What a key does: Up and Down move the selection (within the shown
    /// files while a query is typed, else within all files), Enter opens
    /// the selected file, Esc leaves search or cancels, `/` starts a new
    /// search, Backspace and characters edit the query while searching, and
    /// Control+Q cancels.
    pub fn handle_key(&mut self, key: KeyEvent, files: &Vec<String>) -> (r: PickerAction)
        ensures
            ({
                let shown = shown_files(names_of(files@), old(self).search_mode, old(self).search_query@);
                let narrowed = old(self).search_mode && old(self).search_query@.len() > 0;
                let sel = old(self).selected_index;
                match key.code {
                    KeyCode::Up => r is Continue && final(self).selected_index == (if sel > 0 {
                        sel - 1
                    } else {
                        sel as int
                    }) && final(self).search_query@ == old(self).search_query@
                        && final(self).search_mode == old(self).search_mode
                        && final(self).scroll_offset == old(self).scroll_offset
                        && final(self).needs_redraw == (sel > 0 || old(self).needs_redraw),
                    KeyCode::Down => {
                        let count = if narrowed {
                            shown.len()
                        } else {
                            files@.len()
                        };
                        r is Continue && final(self).selected_index == (if sel + 1 < count {
                            sel + 1
                        } else {
                            sel as int
                        }) && final(self).search_query@ == old(self).search_query@
                            && final(self).search_mode == old(self).search_mode
                            && final(self).scroll_offset == old(self).scroll_offset
                            && final(self).needs_redraw == (sel + 1 < count
                            || old(self).needs_redraw)
                    },
                    KeyCode::Enter => {
                        let target_len = if narrowed {
                            shown.len()
                        } else {
                            files@.len()
                        };
                        &&& r == if sel < target_len {
                            PickerAction::Open(
                                if narrowed {
                                    shown[sel as int]
                                } else {
                                    sel
                                },
                            )
                        } else {
                            PickerAction::Continue
                        }
                        &&& *final(self) == *old(self)
                    },
                    KeyCode::Esc => if old(self).search_mode {
                        r is Continue && !final(self).search_mode && final(self).search_query@.len()
                            == 0 && final(self).selected_index == 0 && final(self).needs_redraw
                            && final(self).scroll_offset == old(self).scroll_offset
                    } else {
                        r is Cancel && *final(self) == *old(self)
                    },
                    KeyCode::Char(c) => if c == '/' {
                        r is Continue && final(self).search_mode && final(self).search_query@.len()
                            == 0 && final(self).selected_index == 0 && final(self).scroll_offset == 0
                            && final(self).needs_redraw
                    } else if old(self).search_mode && !key.modifiers.ctrl {
                        r is Continue && final(self).search_mode && final(self).search_query@
                            == old(self).search_query@.push(c) && final(self).selected_index == 0
                            && final(self).scroll_offset == 0 && final(self).needs_redraw
                    } else if c == 'q' && key.modifiers.ctrl {
                        r is Cancel && *final(self) == *old(self)
                    } else {
                        r is Continue && *final(self) == *old(self)
                    },
                    KeyCode::Backspace => if old(self).search_mode {
                        r is Continue && final(self).search_mode && final(self).search_query@ == (
                        if old(self).search_query@.len() > 0 {
                            old(self).search_query@.drop_last()
                        } else {
                            old(self).search_query@
                        }) && final(self).selected_index == 0 && final(self).scroll_offset == 0
                            && final(self).needs_redraw
                    } else {
                        r is Continue && *final(self) == *old(self)
                    },
                    _ => r is Continue && *final(self) == *old(self),
                }
            }),
    {
        let shown = self.shown(files);
        let narrowed = self.search_mode && !self.search_query.as_str().is_empty();
        match key.code {
            KeyCode::Up => {
                if self.selected_index > 0 {
                    self.selected_index = self.selected_index - 1;
                    self.needs_redraw = true;
                }
                PickerAction::Continue
            },
            KeyCode::Down => {
                let count = if narrowed {
                    shown.len()
                } else {
                    files.len()
                };
                if count > 0 && self.selected_index < count - 1 {
                    self.selected_index = self.selected_index + 1;
                    self.needs_redraw = true;
                }
                PickerAction::Continue
            },
            KeyCode::Enter => {
                if narrowed {
                    if self.selected_index < shown.len() {
                        return PickerAction::Open(shown[self.selected_index]);
                    }
                } else if self.selected_index < files.len() {
                    return PickerAction::Open(self.selected_index);
                }
                PickerAction::Continue
            },
            KeyCode::Esc => {
                if self.search_mode {
                    self.search_mode = false;
                    self.search_query = String::new();
                    self.selected_index = 0;
                    self.needs_redraw = true;
                    PickerAction::Continue
                } else {
                    PickerAction::Cancel
                }
            },
            KeyCode::Char(c) => {
                if c == '/' {
                    self.search_mode = true;
                    self.search_query = String::new();
                    self.selected_index = 0;
                    self.scroll_offset = 0;
                    self.needs_redraw = true;
                    PickerAction::Continue
                } else if self.search_mode && !key.modifiers.ctrl {
                    self.search_query.push(c);
                    self.selected_index = 0;
                    self.scroll_offset = 0;
                    self.needs_redraw = true;
                    PickerAction::Continue
                } else if c == 'q' && key.modifiers.ctrl {
                    PickerAction::Cancel
                } else {
                    PickerAction::Continue
                }
            },
            KeyCode::Backspace => {
                if self.search_mode {
                    self.search_query.pop();
                    self.selected_index = 0;
                    self.scroll_offset = 0;
                    self.needs_redraw = true;
                }
                PickerAction::Continue
            },
            _ => PickerAction::Continue,
        }
    }
}

/// Whether the file at index `k` is one the picker shows: any file, or
/// while searching one whose name matches the query.
pub open spec fn picked(names: Seq<Seq<char>>, search_mode: bool, query: Seq<char>, k: int) -> bool {
    !search_mode || name_matches(names[k], query)
}

/// While searching, the picker shows exactly the files whose names match
/// the query, in their order in the full list; otherwise it shows them all.
pub proof fn law_shown_files_match(names: Seq<Seq<char>>, search_mode: bool, query: Seq<char>)
    requires
        names.len() <= usize::MAX,
    ensures
        forall|i: int| 0 <= i < shown_files(names, search_mode, query).len() ==> {
            let k = #[trigger] shown_files(names, search_mode, query)[i];
            &&& k < names.len()
            &&& picked(names, search_mode, query, k as int)
        },
        forall|i: int, j: int|
            0 <= i < j < shown_files(names, search_mode, query).len() ==> #[trigger] shown_files(
                names,
                search_mode,
                query,
            )[i] < #[trigger] shown_files(names, search_mode, query)[j],
        forall|k: int|
            0 <= k < names.len() && #[trigger] picked(names, search_mode, query, k) ==> shown_files(
                names,
                search_mode,
                query,
            ).contains(k as usize),
    decreases names.len(),
{
    if names.len() > 0 {
        let p = names.drop_last();
        law_shown_files_match(p, search_mode, query);
        let before = shown_files(p, search_mode, query);
        let now = shown_files(names, search_mode, query);
        let last = (names.len() - 1) as usize;
        if !search_mode || name_matches(names.last(), query) {
            assert(now == before.push(last));
        } else {
            assert(now == before);
        }
        assert forall|i: int| 0 <= i < now.len() implies {
            let k = #[trigger] now[i];
            &&& k < names.len()
            &&& picked(names, search_mode, query, k as int)
        } by {
            if i < before.len() {
                assert(now[i] == before[i]);
                assert(p[before[i] as int] == names[before[i] as int]);
            } else {
                assert(now[i] == last);
                assert(names[last as int] == names.last());
            }
        }
        assert forall|i: int, j: int| 0 <= i < j < now.len() implies #[trigger] now[i] < #[trigger] now[j] by {
            assert(now[i] == before[i]);
            if j < before.len() {
                assert(now[j] == before[j]);
            } else {
                assert(now[j] == last);
            }
        }
        assert forall|k: int|
            0 <= k < names.len() && #[trigger] picked(names, search_mode, query, k) implies shown_files(
                names,
                search_mode,
                query,
            ).contains(k as usize) by {
            if k < p.len() {
                assert(p[k] == names[k]);
                assert(picked(p, search_mode, query, k));
                assert(before.contains(k as usize));
                let i = choose|i: int| 0 <= i < before.len() && before[i] == k as usize;
                assert(now[i] == before[i]);
                assert(now.contains(k as usize));
            } else {
                assert(names[k] == names.last());
                assert(now[now.len() - 1] == k as usize);
                assert(now.contains(k as usize));
            }
        }
    }
}

} // verus!
