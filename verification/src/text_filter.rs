//! Filtering of text that arrives from the terminal: ANSI escape sequences
//! and control characters are removed before text enters the editor.

use vstd::prelude::*;
use crate::text_format::chars_of;

verus! {

/// Unicode general category `Cc`: U+0000..=U+001F and U+007F..=U+009F.
pub open spec fn is_control_spec(c: char) -> bool {
    (c as u32) <= 0x1F || (0x7F <= (c as u32) && (c as u32) <= 0x9F)
}

/// The Unicode `White_Space` property.
pub open spec fn is_whitespace_spec(c: char) -> bool {
    let n = c as u32;
    ||| (0x09 <= n && n <= 0x0D)
    ||| n == 0x20
    ||| n == 0x85
    ||| n == 0xA0
    ||| n == 0x1680
    ||| (0x2000 <= n && n <= 0x200A)
    ||| n == 0x2028
    ||| n == 0x2029
    ||| n == 0x202F
    ||| n == 0x205F
    ||| n == 0x3000
}

/// A character may enter the editor unless it is a control character that is
/// not whitespace (so ESC, NUL and BEL are refused, tab and newline pass).
pub open spec fn is_allowed_spec(c: char) -> bool {
    !is_control_spec(c) || is_whitespace_spec(c)
}

/// Whether `c` may be inserted into the editor.
pub fn is_allowed_char(c: char) -> (r: bool)
    ensures
        r == is_allowed_spec(c),
{
    let n = c as u32;
    if 0x20 <= n && n <= 0x7E {
        true
    } else if c == '\n' || c == '\r' || c == '\t' {
        true
    } else if n <= 0x1F {
        // the remaining C0 controls: only VT and FF are whitespace
        n == 0x0B || n == 0x0C
    } else if 0x7F <= n && n <= 0x9F {
        n == 0x85
    } else {
        true
    }
}

/// Where the escape-sequence scanner stands after a prefix of the input.
pub enum AnsiState {
    /// Ordinary text.
    Text,
    /// Just after an ESC character.
    Escape,
    /// Inside a CSI sequence (`ESC [`), which ends at an ASCII letter.
    Csi,
    /// Inside an OSC sequence (`ESC ]`), which ends at BEL or at ESC.
    Osc,
}

pub open spec fn is_ascii_alphabetic_spec(c: char) -> bool {
    ('a' <= c && c <= 'z') || ('A' <= c && c <= 'Z')
}

/// One step of the scanner: the next state and the character kept, if any.
pub open spec fn ansi_step(st: AnsiState, c: char) -> (AnsiState, Seq<char>) {
    match st {
        AnsiState::Text => {
            if c == '\x1B' {
                (AnsiState::Escape, Seq::empty())
            } else if is_allowed_spec(c) {
                (AnsiState::Text, seq![c])
            } else {
                (AnsiState::Text, Seq::empty())
            }
        },
        AnsiState::Escape => {
            if c == '[' {
                (AnsiState::Csi, Seq::empty())
            } else if c == ']' {
                (AnsiState::Osc, Seq::empty())
            } else {
                (AnsiState::Text, Seq::empty())
            }
        },
        AnsiState::Csi => {
            if is_ascii_alphabetic_spec(c) {
                (AnsiState::Text, Seq::empty())
            } else {
                (AnsiState::Csi, Seq::empty())
            }
        },
        AnsiState::Osc => {
            if c == '\x07' {
                (AnsiState::Text, Seq::empty())
            } else if c == '\x1B' {
                (AnsiState::Escape, Seq::empty())
            } else {
                (AnsiState::Osc, Seq::empty())
            }
        },
    }
}

/// The scanner run over `s` from the start: final state and kept text.
pub open spec fn ansi_run(s: Seq<char>) -> (AnsiState, Seq<char>)
    decreases s.len(),
{
    if s.len() == 0 {
        (AnsiState::Text, Seq::empty())
    } else {
        let (st, out) = ansi_run(s.drop_last());
        let (st2, kept) = ansi_step(st, s.last());
        (st2, out + kept)
    }
}

/// The text left once escape sequences and refused characters are removed.
pub open spec fn strip_ansi_spec(s: Seq<char>) -> Seq<char> {
    ansi_run(s).1
}


/// Removes ANSI escape sequences (and refused control characters) from
/// `text`: `ESC [` ... letter, `ESC ]` ... BEL, and two-character escapes.
pub fn strip_ansi_codes(text: &str) -> (r: String)
    ensures
        r@ == strip_ansi_spec(text@),
{
    let mut result = String::new();
    let mut state = AnsiState::Text;
    let ghost s = text@;
    for c in iter: text.chars()
        invariant
            iter.seq() == s,
            (state, result@) == ansi_run(s.take(iter.index() as int)),
    {
        proof {
            assert(s.take(iter.index() + 1).drop_last() == s.take(iter.index() as int));
        }
        match state {
            AnsiState::Text => {
                if c == '\x1B' {
                    state = AnsiState::Escape;
                } else if is_allowed_char(c) {
                    result.push(c);
                }
            },
            AnsiState::Escape => {
                if c == '[' {
                    state = AnsiState::Csi;
                } else if c == ']' {
                    state = AnsiState::Osc;
                } else {
                    state = AnsiState::Text;
                }
            },
            AnsiState::Csi => {
                if ('a' <= c && c <= 'z') || ('A' <= c && c <= 'Z') {
                    state = AnsiState::Text;
                }
            },
            AnsiState::Osc => {
                if c == '\x07' {
                    state = AnsiState::Text;
                } else if c == '\x1B' {
                    state = AnsiState::Escape;
                }
            },
        }
    }
    proof {
        assert(s.take(s.len() as int) == s);
    }
    result
}

/// Every character that the scanner keeps is an allowed one.
pub proof fn lemma_strip_keeps_allowed(s: Seq<char>)
    ensures
        forall|i: int| 0 <= i < strip_ansi_spec(s).len() ==> is_allowed_spec(#[trigger] strip_ansi_spec(s)[i]),
    decreases s.len(),
{
    if s.len() > 0 {
        lemma_strip_keeps_allowed(s.drop_last());
        let (st, out) = ansi_run(s.drop_last());
        let (st2, kept) = ansi_step(st, s.last());
        assert(forall|i: int| 0 <= i < kept.len() ==> is_allowed_spec(#[trigger] kept[i]));
        assert forall|i: int| 0 <= i < strip_ansi_spec(s).len() implies is_allowed_spec(
            #[trigger] strip_ansi_spec(s)[i],
        ) by {
            if i < out.len() {
                assert(strip_ansi_spec(s)[i] == out[i]);
                assert(strip_ansi_spec(s.drop_last()) == out);
                assert(is_allowed_spec(strip_ansi_spec(s.drop_last())[i]));
            } else {
                assert(strip_ansi_spec(s)[i] == kept[i - out.len()]);
            }
        }
    }
}

/// Text made only of allowed characters passes the scanner unchanged.
pub proof fn lemma_strip_of_allowed(s: Seq<char>)
    requires
        forall|i: int| 0 <= i < s.len() ==> is_allowed_spec(#[trigger] s[i]),
    ensures
        ansi_run(s) == (AnsiState::Text, s),
    decreases s.len(),
{
    if s.len() > 0 {
        lemma_strip_of_allowed(s.drop_last());
        assert(s.drop_last() + seq![s.last()] == s);
    }
}

/// Cleans `text` for insertion into the editor: escape sequences and
/// refused characters are removed.
pub fn clean_text_for_insertion(text: &str) -> (r: String)
    ensures
        r@ == strip_ansi_spec(text@),
        forall|i: int| 0 <= i < r@.len() ==> is_allowed_spec(#[trigger] r@[i]),
{
    let stripped = strip_ansi_codes(text);
    proof {
        lemma_strip_keeps_allowed(text@);
    }
    let ghost s = stripped@;
    let mut result = String::new();
    for c in iter: stripped.as_str().chars()
        invariant
            iter.seq() == s,
            forall|i: int| 0 <= i < s.len() ==> is_allowed_spec(#[trigger] s[i]),
            result@ == s.take(iter.index() as int),
    {
        if is_allowed_char(c) {
            result.push(c);
        }
        proof {
            assert(s.take(iter.index() as int).push(c) == s.take(iter.index() + 1));
        }
    }
    proof {
        assert(s.take(s.len() as int) == s);
    }
    result
}

/// Cleaning is idempotent: cleaned text is left as it is by a second
/// cleaning.
pub proof fn law_clean_idempotent(s: Seq<char>)
    ensures
        strip_ansi_spec(strip_ansi_spec(s)) == strip_ansi_spec(s),
{
    lemma_strip_keeps_allowed(s);
    lemma_strip_of_allowed(strip_ansi_spec(s));
}

/// Whether `c` has the Unicode `White_Space` property.
pub fn is_whitespace_char(c: char) -> (r: bool)
    ensures
        r == is_whitespace_spec(c),
{
    let n = c as u32;
    (0x09 <= n && n <= 0x0D) || n == 0x20 || n == 0x85 || n == 0xA0 || n == 0x1680 || (0x2000
        <= n && n <= 0x200A) || n == 0x2028 || n == 0x2029 || n == 0x202F || n == 0x205F || n
        == 0x3000
}

/// `s` without its trailing whitespace.
pub open spec fn trim_end_spec(s: Seq<char>) -> Seq<char>
    decreases s.len(),
{
    if s.len() > 0 && is_whitespace_spec(s.last()) {
        trim_end_spec(s.drop_last())
    } else {
        s
    }
}

/// The trimmed text is a prefix of the original whose remaining characters
/// are all whitespace, and it does not end in whitespace.
pub proof fn lemma_trim_end(s: Seq<char>)
    ensures
        trim_end_spec(s).len() <= s.len(),
        trim_end_spec(s) == s.take(trim_end_spec(s).len() as int),
        forall|i: int|
            trim_end_spec(s).len() <= i < s.len() ==> is_whitespace_spec(#[trigger] s[i]),
        trim_end_spec(s).len() > 0 ==> !is_whitespace_spec(trim_end_spec(s).last()),
    decreases s.len(),
{
    if s.len() > 0 && is_whitespace_spec(s.last()) {
        lemma_trim_end(s.drop_last());
        assert(s.drop_last().take(trim_end_spec(s).len() as int) == s.take(
            trim_end_spec(s).len() as int,
        ));
        assert forall|i: int| trim_end_spec(s).len() <= i < s.len() implies is_whitespace_spec(
            #[trigger] s[i],
        ) by {
            if i < s.len() - 1 {
                assert(s[i] == s.drop_last()[i]);
            }
        }
    } else {
        assert(s.take(s.len() as int) == s);
    }
}

/// The characters of `v` without trailing whitespace, as a `String`.
pub fn trimmed_string(v: &Vec<char>) -> (r: String)
    ensures
        r@ == trim_end_spec(v@),
{
    proof {
        lemma_trim_end(v@);
        assert(v@.take(v@.len() as int) == v@);
    }
    let mut k: usize = v.len();
    while k > 0 && is_whitespace_char(v[k - 1])
        invariant
            k <= v.len(),
            trim_end_spec(v@) == trim_end_spec(v@.take(k as int)),
        decreases k,
    {
        assert(v@.take(k as int).drop_last() == v@.take(k - 1));
        k = k - 1;
    }
    let mut r = String::new();
    let mut i: usize = 0;
    while i < k
        invariant
            k <= v.len(),
            i <= k,
            r@ == v@.take(i as int),
        decreases k - i,
    {
        r.push(v[i]);
        assert(v@.take(i as int).push(v@[i as int]) == v@.take(i + 1));
        i = i + 1;
    }
    r
}

/// `s` without its leading whitespace.
pub open spec fn trim_start_spec(s: Seq<char>) -> Seq<char>
    decreases s.len(),
{
    if s.len() > 0 && is_whitespace_spec(s[0]) {
        trim_start_spec(s.drop_first())
    } else {
        s
    }
}

/// `s` without leading and trailing whitespace, as `str::trim` gives it.
pub open spec fn trim_spec(s: Seq<char>) -> Seq<char> {
    trim_start_spec(trim_end_spec(s))
}

/// The text without leading and trailing whitespace.
pub fn trim_text(text: &str) -> (r: String)
    ensures
        r@ == trim_spec(text@),
{
    let v = chars_of(text);
    assert(v@.take(v@.len() as int) == v@);
    let mut k: usize = v.len();
    while k > 0 && is_whitespace_char(v[k - 1])
        invariant
            k <= v.len(),
            trim_end_spec(v@) == trim_end_spec(v@.take(k as int)),
        decreases k,
    {
        assert(v@.take(k as int).drop_last() == v@.take(k - 1));
        k = k - 1;
    }
    assert(trim_end_spec(v@) == v@.take(k as int));
    assert(v@.take(k as int) == v@.subrange(0, k as int));
    let mut j: usize = 0;
    while j < k && is_whitespace_char(v[j])
        invariant
            j <= k,
            k <= v.len(),
            trim_spec(v@) == trim_start_spec(v@.subrange(j as int, k as int)),
        decreases k - j,
    {
        assert(v@.subrange(j as int, k as int).drop_first() == v@.subrange(j + 1, k as int));
        j = j + 1;
    }
    assert(trim_spec(v@) == v@.subrange(j as int, k as int));
    let mut r = String::new();
    let mut i: usize = j;
    while i < k
        invariant
            j <= i <= k,
            k <= v.len(),
            r@ == v@.subrange(j as int, i as int),
        decreases k - i,
    {
        r.push(v[i]);
        assert(v@.subrange(j as int, i as int).push(v@[i as int]) == v@.subrange(j as int, i + 1));
        i = i + 1;
    }
    r
}

} // verus!
