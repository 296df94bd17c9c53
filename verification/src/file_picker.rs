//! The fuzzy file picker's decisions: the query typed so far and the
//! selected match. Matching the query against the files is the fuzzy
//! matcher's work, done by the caller, which reports how many matches are
//! shown.

use crate::editor_screen::{byte_len, less, utf8_prefix};
use crate::kitty_native::{KeyCode, KeyEvent};
use crate::text_format::{chars_of, push_str};
use vstd::prelude::*;
use vstd::utf8::{encode_utf8, is_char_boundary};

verus! {

/// Most matches shown at once.
pub const MAX_SHOWN: usize = 20;

/// The query and the selected row among the shown matches.
pub struct FuzzyPicker {
    pub query: String,
    pub selected_index: usize,
}

/// What the picker asks for after a key.
pub enum FuzzyAction {
    /// Keep going.
    Continue,
    /// The query changed: match it again.
    Requery,
    /// Open the match at this row.
    Select(usize),
    /// Close without a choice.
    Cancel,
}

impl FuzzyPicker {
    /// An empty query on the first row.
    pub fn new() -> (p: Self)
        ensures
            p.query@ == Seq::<char>::empty(),
            p.selected_index == 0,
    {
        FuzzyPicker { query: String::new(), selected_index: 0 }
    }

    /// What a key does while `shown` matches are listed: Esc cancels, Enter
    /// opens the selected match (when there is one), Up and Down move among
    /// the matches, and Backspace and characters edit the query, which
    /// selects the first row and asks for new matches.
    pub fn handle_key(&mut self, key: KeyEvent, shown: usize) -> (r: FuzzyAction)
        ensures
            match key.code {
                KeyCode::Esc => r is Cancel && final(self).query@ == old(self).query@
                    && final(self).selected_index == old(self).selected_index,
                KeyCode::Enter => final(self).query@ == old(self).query@ && final(self).selected_index
                    == old(self).selected_index && r == if old(self).selected_index < shown {
                    FuzzyAction::Select(old(self).selected_index)
                } else {
                    FuzzyAction::Continue
                },
                KeyCode::Up => r is Continue && final(self).query@ == old(self).query@
                    && final(self).selected_index == if old(self).selected_index > 0 {
                    (old(self).selected_index - 1) as usize
                } else {
                    old(self).selected_index
                },
                KeyCode::Down => r is Continue && final(self).query@ == old(self).query@
                    && final(self).selected_index == if old(self).selected_index + 1 < shown {
                    (old(self).selected_index + 1) as usize
                } else {
                    old(self).selected_index
                },
                KeyCode::Backspace => r is Requery && final(self).selected_index == 0
                    && final(self).query@ == if old(self).query@.len() > 0 {
                    old(self).query@.drop_last()
                } else {
                    old(self).query@
                },
                KeyCode::Char(c) => r is Requery && final(self).selected_index == 0
                    && final(self).query@ == old(self).query@.push(c),
                _ => r is Continue && final(self).query@ == old(self).query@
                    && final(self).selected_index == old(self).selected_index,
            },
    {
        match key.code {
            KeyCode::Esc => FuzzyAction::Cancel,
            KeyCode::Enter => {
                if self.selected_index < shown {
                    FuzzyAction::Select(self.selected_index)
                } else {
                    FuzzyAction::Continue
                }
            },
            KeyCode::Up => {
                if self.selected_index > 0 {
                    self.selected_index = self.selected_index - 1;
                }
                FuzzyAction::Continue
            },
            KeyCode::Down => {
                if shown > 0 && self.selected_index < shown - 1 {
                    self.selected_index = self.selected_index + 1;
                }
                FuzzyAction::Continue
            },
            KeyCode::Backspace => {
                self.query.pop();
                self.selected_index = 0;
                FuzzyAction::Requery
            },
            KeyCode::Char(c) => {
                self.query.push(c);
                self.selected_index = 0;
                FuzzyAction::Requery
            },
            _ => FuzzyAction::Continue,
        }
    }
}

/// The folder whose PDFs the picker lists.
pub open spec fn documents_dir() -> Seq<char> {
    "/Users/jack/Documents/"@
}

/// A path without the documents folder in front, when it has it.
pub open spec fn in_documents(p: Seq<char>) -> Seq<char> {
    if p.len() >= documents_dir().len() && p.take(documents_dir().len() as int) == documents_dir() {
        p.skip(documents_dir().len() as int)
    } else {
        p
    }
}

/// The part of a path after its last `/` (all of it when it has none).
pub open spec fn file_name_of(s: Seq<char>) -> Seq<char>
    decreases s.len(),
{
    if s.len() == 0 {
        s
    } else if s.last() == '/' {
        Seq::empty()
    } else {
        file_name_of(s.drop_last()).push(s.last())
    }
}

/// The smaller of two numbers.
pub open spec fn min_of(a: int, b: int) -> int {
    if a < b {
        a
    } else {
        b
    }
}

/// A path as the list shows it in `max` columns: without the documents
/// folder; when longer than `max` bytes, `.../` and the file name when that
/// fits, else the file name cut to `max - 3` bytes and `...`; then at most
/// `max` characters of that.
pub open spec fn shown_path_spec(p: Seq<char>, max: int) -> Seq<char> {
    let clean = in_documents(p);
    let f = file_name_of(clean);
    let d = if byte_len(clean) > max {
        if byte_len(f) <= max - 4 {
            ".../"@ + f
        } else {
            utf8_prefix(f, min_of(less(max, 3), byte_len(f))) + "..."@
        }
    } else {
        clean
    };
    d.take(min_of(max, d.len() as int))
}

/// A path can be shown: a long path leaves at least 4 columns, and a file
/// name that must be cut is cut between two characters.
pub open spec fn shown_path_ok(p: Seq<char>, max: int) -> bool {
    let clean = in_documents(p);
    let f = file_name_of(clean);
    byte_len(clean) > max ==> max >= 4 && (byte_len(f) > max - 4 ==> is_char_boundary(
        encode_utf8(f),
        min_of(less(max, 3), byte_len(f)),
    ))
}

/// The path without the documents folder, and its file name.
fn path_parts(path: &str) -> (r: (String, String))
    ensures
        r.0@ == in_documents(path@),
        r.1@ == file_name_of(in_documents(path@)),
{
    let pc = chars_of(path);
    let dc = chars_of("/Users/jack/Documents/");
    let mut same = pc.len() >= dc.len();
    let mut i: usize = 0;
    while same && i < dc.len()
        invariant
            dc@ == documents_dir(),
            pc@ == path@,
            i <= dc@.len(),
            same ==> pc@.len() >= dc@.len() && pc@.take(i as int) == dc@.take(i as int),
            !same ==> !(pc@.len() >= dc@.len() && pc@.take(dc@.len() as int) == dc@),
        decreases dc@.len() - i + (if same { 1int } else { 0int }),
    {
        if pc[i] != dc[i] {
            same = false;
            assert(pc@.take(dc@.len() as int)[i as int] != dc@[i as int]);
        } else {
            assert(pc@.take(i + 1) =~= pc@.take(i as int).push(pc@[i as int]));
            assert(dc@.take(i + 1) =~= dc@.take(i as int).push(dc@[i as int]));
            i = i + 1;
        }
    }
    let start: usize = if same {
        assert(dc@.take(dc@.len() as int) =~= dc@);
        dc.len()
    } else {
        0
    };
    let mut clean = String::new();
    let mut k: usize = start;
    while k < pc.len()
        invariant
            start <= k <= pc@.len(),
            clean@ == pc@.subrange(start as int, k as int),
        decreases pc@.len() - k,
    {
        clean.push(pc[k]);
        assert(pc@.subrange(start as int, k + 1) =~= pc@.subrange(start as int, k as int).push(pc@[k as int]));
        k = k + 1;
    }
    assert(clean@ =~= in_documents(path@));
    let cc = chars_of(clean.as_str());
    let mut m: usize = cc.len();
    assert(cc@.take(m as int) =~= cc@);
    assert(cc@.subrange(m as int, cc@.len() as int) =~= Seq::<char>::empty());
    while m > 0 && cc[m - 1] != '/'
        invariant
            m <= cc@.len(),
            file_name_of(cc@) == file_name_of(cc@.take(m as int)) + cc@.subrange(m as int, cc@.len() as int),
        decreases m,
    {
        let ghost t = cc@.take(m as int);
        assert(t.drop_last() =~= cc@.take(m - 1));
        assert(cc@.subrange(m - 1, cc@.len() as int) =~= seq![cc@[m - 1]] + cc@.subrange(m as int, cc@.len() as int));
        m = m - 1;
    }
    proof {
        if m == 0 {
            assert(cc@.take(0) =~= Seq::<char>::empty());
        } else {
            assert(cc@.take(m as int).last() == '/');
        }
        assert(file_name_of(cc@.take(m as int)) =~= Seq::<char>::empty());
    }
    let mut name = String::new();
    let mut q: usize = m;
    while q < cc.len()
        invariant
            m <= q <= cc@.len(),
            name@ == cc@.subrange(m as int, q as int),
        decreases cc@.len() - q,
    {
        name.push(cc[q]);
        assert(cc@.subrange(m as int, q + 1) =~= cc@.subrange(m as int, q as int).push(cc@[q as int]));
        q = q + 1;
    }
    assert(name@ =~= file_name_of(cc@));
    (clean, name)
}

/// Whether a path can be shown in `max` columns (see `shown_path_ok`).
pub fn shown_path_fits(path: &str, max: usize) -> (b: bool)
    ensures
        b == shown_path_ok(path@, max as int),
{
    let (clean, name) = path_parts(path);
    if clean.as_str().as_bytes().len() <= max {
        return true;
    }
    if max < 4 {
        return false;
    }
    if name.as_str().as_bytes().len() <= max - 4 {
        return true;
    }
    let cut3 = if max > 3 {
        max - 3
    } else {
        0
    };
    let cut = if cut3 < name.as_str().as_bytes().len() {
        cut3
    } else {
        name.as_str().as_bytes().len()
    };
    name.as_str().is_char_boundary(cut)
}

/// A path as the list shows it in `max` columns (see `shown_path_spec`).
pub fn shown_path(path: &str, max: usize) -> (r: String)
    requires
        shown_path_ok(path@, max as int),
    ensures
        r@ == shown_path_spec(path@, max as int),
{
    broadcast use vstd::utf8::encode_utf8_decode_utf8, vstd::utf8::encode_utf8_valid_utf8;

    let (clean, name) = path_parts(path);
    let mut d = String::new();
    if clean.as_str().as_bytes().len() > max {
        if name.as_str().as_bytes().len() <= max - 4 {
            push_str(&mut d, ".../");
            push_str(&mut d, name.as_str());
        } else {
            let cut3 = if max > 3 {
                max - 3
            } else {
                0
            };
            let cut = if cut3 < name.as_str().as_bytes().len() {
                cut3
            } else {
                name.as_str().as_bytes().len()
            };
            let (head, _) = name.as_str().split_at(cut);
            assert(encode_utf8(head@) == encode_utf8(name@).subrange(0, cut as int));
            assert(encode_utf8(name@).subrange(0, cut as int) == encode_utf8(name@).take(cut as int));
            assert(head@ == vstd::utf8::decode_utf8(encode_utf8(head@)));
            assert(head@ == utf8_prefix(name@, cut as int));
            push_str(&mut d, head);
            push_str(&mut d, "...");
        }
    } else {
        push_str(&mut d, clean.as_str());
        assert(d@ =~= clean@);
    }
    proof {
        let clean_s = in_documents(path@);
        let f = file_name_of(clean_s);
        let want = if byte_len(clean_s) > max {
            if byte_len(f) <= max - 4 {
                ".../"@ + f
            } else {
                utf8_prefix(f, min_of(less(max as int, 3), byte_len(f))) + "..."@
            }
        } else {
            clean_s
        };
        assert(d@ == want);
    }
    let dc = chars_of(d.as_str());
    let mut r = String::new();
    let mut k: usize = 0;
    while k < dc.len() && k < max
        invariant
            k <= dc@.len(),
            k <= max,
            r@ == dc@.take(k as int),
        decreases dc@.len() - k,
    {
        r.push(dc[k]);
        assert(dc@.take(k + 1) =~= dc@.take(k as int).push(dc@[k as int]));
        k = k + 1;
    }
    assert(k as int == min_of(max as int, dc@.len() as int));
    r
}

} // verus!
