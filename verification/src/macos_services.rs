//! Text services offered to other applications: transforming the case of a
//! selection, a search message, Markdown emphasis and RTF wrapping.
//! Registering the services with the system and talking to the pasteboard
//! are left to the caller.

use crate::kitty_native::literal;
use crate::std_text::{
    char_to_uppercase, char_uppercase, lowercase, same_text, to_lowercase, to_uppercase, uppercase,
};
use crate::text_filter::{is_whitespace_char, is_whitespace_spec};
use crate::text_format::push_str;
use crate::text_lines::{lines_spec, split_lines};
use vstd::prelude::*;

verus! {

/// The services' names and the directory they exchange files through.
pub struct ServicesIntegration {
    pub service_name: String,
    pub bundle_id: String,
    pub temp_dir: String,
}

/// Words finished so far and the word being read, after the characters of
/// `s`: whitespace ends a word.
pub open spec fn words_run(s: Seq<char>) -> (Seq<Seq<char>>, Seq<char>)
    decreases s.len(),
{
    if s.len() == 0 {
        (Seq::empty(), Seq::empty())
    } else {
        let (done, cur) = words_run(s.drop_last());
        if is_whitespace_spec(s.last()) {
            if cur.len() > 0 {
                (done.push(cur), Seq::empty())
            } else {
                (done, cur)
            }
        } else {
            (done, cur.push(s.last()))
        }
    }
}

/// The words of `s` as `str::split_whitespace` gives them: the maximal runs
/// of non-whitespace characters, in order.
pub open spec fn words_spec(s: Seq<char>) -> Seq<Seq<char>> {
    let (done, cur) = words_run(s);
    if cur.len() > 0 {
        done.push(cur)
    } else {
        done
    }
}

/// A word with its first character in uppercase.
pub open spec fn capitalized(w: Seq<char>) -> Seq<char> {
    if w.len() == 0 {
        Seq::empty()
    } else {
        char_uppercase(w[0]) + w.skip(1)
    }
}

/// Words joined with single spaces.
pub open spec fn join_spaced(ws: Seq<Seq<char>>) -> Seq<char>
    decreases ws.len(),
{
    if ws.len() == 0 {
        Seq::empty()
    } else if ws.len() == 1 {
        ws[0]
    } else {
        join_spaced(ws.drop_last()) + seq![' '] + ws.last()
    }
}

/// The words of `s`, each capitalized, joined with single spaces.
pub open spec fn capitalize_words_spec(s: Seq<char>) -> Seq<char> {
    join_spaced(words_spec(s).map_values(|w: Seq<char>| capitalized(w)))
}

/// The next case of a text: all-uppercase text becomes lowercase,
/// all-lowercase text gets capitalized words, anything else becomes
/// uppercase.
pub open spec fn transformed(s: Seq<char>) -> Seq<char> {
    if s == uppercase(s) {
        lowercase(s)
    } else if s == lowercase(s) {
        capitalize_words_spec(s)
    } else {
        uppercase(s)
    }
}

/// A line in Markdown: headings stay, other non-empty lines become bold,
/// and every line ends with a newline.
pub open spec fn markdown_line(l: Seq<char>) -> Seq<char> {
    if l.len() >= 2 && l[0] == '#' && l[1] == ' ' {
        l.push('\n')
    } else if l.len() > 0 {
        ("**"@ + l + "**"@).push('\n')
    } else {
        seq!['\n']
    }
}

/// The Markdown form of the first `k` lines.
pub open spec fn markdown_lines(ls: Seq<Seq<char>>, k: nat) -> Seq<char>
    decreases k,
{
    if k == 0 {
        Seq::empty()
    } else {
        markdown_lines(ls, (k - 1) as nat) + markdown_line(ls[k - 1])
    }
}

/// The Markdown form of a text (see `markdown_line`).
pub open spec fn markdown_spec(s: Seq<char>) -> Seq<char> {
    markdown_lines(lines_spec(s), lines_spec(s).len())
}

/// A character escaped for RTF: backslash and braces get a backslash.
pub open spec fn rtf_char(c: char) -> Seq<char> {
    if c == '\\' || c == '{' || c == '}' {
        seq!['\\', c]
    } else {
        seq![c]
    }
}

/// The RTF escape of the first `k` characters of `s`.
pub open spec fn rtf_escaped(s: Seq<char>, k: nat) -> Seq<char>
    decreases k,
{
    if k == 0 {
        Seq::empty()
    } else {
        rtf_escaped(s, (k - 1) as nat) + rtf_char(s[k - 1])
    }
}

/// The RTF document holding `text`, with `metadata` as a comment.
pub open spec fn rtf_spec(text: Seq<char>, metadata: Option<Seq<char>>) -> Seq<char> {
    "{\\rtf1\\ansi\\deff0 {\\fonttbl {\\f0 Times New Roman;}}"@ + match metadata {
        Some(m) => "{\\*\\comment "@ + m + "}"@,
        None => Seq::empty(),
    } + "\\f0\\fs24 "@ + rtf_escaped(text, text.len()) + "\\par}"@
}

/// The reply to a service request: `transform`, `search` and `markdown`
/// act on the text; any other action gives it back.
pub open spec fn service_reply(action: Seq<char>, text: Seq<char>) -> Seq<char> {
    if action == "transform"@ {
        transformed(text)
    } else if action == "search"@ {
        "Searching for: "@ + text
    } else if action == "markdown"@ {
        markdown_spec(text)
    } else {
        text
    }
}

/// The words of `s` (see `words_spec`).
pub(crate) fn split_words(s: &str) -> (r: Vec<String>)
    ensures
        r@.map_values(|w: String| w@) == words_spec(s@),
{
    let ghost t = s@;
    let mut done: Vec<String> = Vec::new();
    let mut cur = String::new();
    for ch in it: s.chars()
        invariant
            it.seq() == t,
            (done@.map_values(|w: String| w@), cur@) == words_run(t.take(it.index() as int)),
    {
        proof {
            assert(t.take(it.index() + 1).drop_last() =~= t.take(it.index() as int));
        }
        if is_whitespace_char(ch) {
            if !cur.as_str().is_empty() {
                let ghost before = done@.map_values(|w: String| w@);
                done.push(cur);
                assert(done@.map_values(|w: String| w@) =~= before.push(
                    words_run(t.take(it.index() as int)).1,
                ));
                cur = String::new();
            }
        } else {
            cur.push(ch);
        }
    }
    proof {
        assert(t.take(t.len() as int) =~= t);
    }
    if !cur.as_str().is_empty() {
        let ghost before = done@.map_values(|w: String| w@);
        done.push(cur);
        assert(done@.map_values(|w: String| w@) =~= before.push(words_run(t).1));
    }
    done
}

/// `w` with its first character in uppercase.
fn capitalize(w: &String) -> (r: String)
    ensures
        r@ == capitalized(w@),
{
    let mut r = String::new();
    let mut first = true;
    let ghost t = w@;
    for ch in it: w.as_str().chars()
        invariant
            it.seq() == t,
            first == (it.index() == 0),
            it.index() > 0 ==> r@ == char_uppercase(t[0]) + t.subrange(1, it.index() as int),
            it.index() == 0 ==> r@.len() == 0,
    {
        if first {
            let up = char_to_uppercase(ch);
            push_str(&mut r, up.as_str());
            first = false;
            assert(t.subrange(1, 1) =~= Seq::<char>::empty());
            assert(r@ =~= char_uppercase(t[0]) + t.subrange(1, 1));
        } else {
            let ghost before = r@;
            r.push(ch);
            assert(t.subrange(1, it.index() + 1) =~= t.subrange(1, it.index() as int).push(ch));
            assert(r@ =~= char_uppercase(t[0]) + t.subrange(1, it.index() + 1));
        }
    }
    proof {
        if t.len() > 0 {
            assert(t.subrange(1, t.len() as int) =~= t.skip(1));
        }
    }
    r
}

impl ServicesIntegration {
    /// The services of this editor, exchanging files through
    /// `/tmp/chonker7_services`.
    pub fn new() -> (s: Self)
        ensures
            s.service_name@ == "Chonker7"@,
            s.bundle_id@ == "com.chonker7.app"@,
            s.temp_dir@ == "/tmp/chonker7_services"@,
    {
        ServicesIntegration {
            service_name: literal("Chonker7"),
            bundle_id: literal("com.chonker7.app"),
            temp_dir: literal("/tmp/chonker7_services"),
        }
    }

    /// The reply to a service request (see `service_reply`).
    pub fn handle_service_request(&self, action: &str, text: &str) -> (r: String)
        ensures
            r@ == service_reply(action@, text@),
    {
        if same_text(action, "transform") {
            self.transform_text(text)
        } else if same_text(action, "search") {
            self.search_text(text)
        } else if same_text(action, "markdown") {
            self.convert_to_markdown(text)
        } else {
            literal(text)
        }
    }

    /// The next case of the text (see `transformed`).
    pub fn transform_text(&self, text: &str) -> (r: String)
        ensures
            r@ == transformed(text@),
    {
        let upper = to_uppercase(text);
        if same_text(text, upper.as_str()) {
            return to_lowercase(text);
        }
        let lower = to_lowercase(text);
        if same_text(text, lower.as_str()) {
            self.capitalize_words(text)
        } else {
            upper
        }
    }

    /// The words of the text, each capitalized, joined with single spaces.
    pub fn capitalize_words(&self, text: &str) -> (r: String)
        ensures
            r@ == capitalize_words_spec(text@),
    {
        let words = split_words(text);
        let ghost ws = words@.map_values(|w: String| w@);
        let ghost caps = ws.map_values(|w: Seq<char>| capitalized(w));
        let mut r = String::new();
        let mut i: usize = 0;
        while i < words.len()
            invariant
                i <= words@.len(),
                ws == words@.map_values(|w: String| w@),
                caps == ws.map_values(|w: Seq<char>| capitalized(w)),
                r@ == join_spaced(caps.take(i as int)),
            decreases words@.len() - i,
        {
            if i > 0 {
                r.push(' ');
            }
            let c = capitalize(&words[i]);
            push_str(&mut r, c.as_str());
            assert(caps.take(i + 1).drop_last() =~= caps.take(i as int));
            assert(caps[i as int] == capitalized(words@[i as int]@));
            if i == 0 {
                assert(r@ =~= join_spaced(caps.take(1)));
            }
            i = i + 1;
        }
        assert(caps.take(words@.len() as int) =~= caps);
        r
    }

    /// The message that answers a search request.
    pub fn search_text(&self, query: &str) -> (r: String)
        ensures
            r@ == "Searching for: "@ + query@,
    {
        let mut r = literal("Searching for: ");
        push_str(&mut r, query);
        r
    }

    /// The Markdown form of the text (see `markdown_spec`).
    pub fn convert_to_markdown(&self, text: &str) -> (r: String)
        ensures
            r@ == markdown_spec(text@),
    {
        let lines = split_lines(text);
        let ghost ls = lines@.map_values(|l: String| l@);
        let mut r = String::new();
        let mut i: usize = 0;
        while i < lines.len()
            invariant
                i <= lines@.len(),
                ls == lines@.map_values(|l: String| l@),
                ls == lines_spec(text@),
                r@ == markdown_lines(ls, i as nat),
            decreases lines@.len() - i,
        {
            let line = &lines[i];
            let ghost l = line@;
            assert(ls[i as int] == l);
            let ghost before = r@;
            let chars = line.as_str();
            let is_heading = starts_with_heading(chars);
            if is_heading {
                push_str(&mut r, chars);
            } else if !chars.is_empty() {
                push_str(&mut r, "**");
                push_str(&mut r, chars);
                push_str(&mut r, "**");
            }
            r.push('\n');
            assert(r@ =~= before + markdown_line(l));
            i = i + 1;
        }
        r
    }

    /// The RTF document holding the text, with the metadata as a comment
    /// (see `rtf_spec`).
    pub fn text_to_rtf(&self, text: &str, metadata: Option<&str>) -> (r: String)
        ensures
            r@ == rtf_spec(
                text@,
                match metadata {
                    Some(m) => Some(m@),
                    None => None,
                },
            ),
    {
        let mut r = literal("{\\rtf1\\ansi\\deff0 {\\fonttbl {\\f0 Times New Roman;}}");
        match metadata {
            Some(m) => {
                push_str(&mut r, "{\\*\\comment ");
                push_str(&mut r, m);
                push_str(&mut r, "}");
            },
            None => {},
        }
        push_str(&mut r, "\\f0\\fs24 ");
        let ghost head = r@;
        let ghost t = text@;
        for ch in it: text.chars()
            invariant
                it.seq() == t,
                r@ == head + rtf_escaped(t, it.index() as nat),
        {
            if ch == '\\' || ch == '{' || ch == '}' {
                r.push('\\');
            }
            r.push(ch);
            assert(r@ =~= head + rtf_escaped(t, (it.index() + 1) as nat));
        }
        push_str(&mut r, "\\par}");
        proof {
            match metadata {
                Some(m) => {},
                None => {},
            }
        }
        assert(r@ =~= rtf_spec(
            text@,
            match metadata {
                Some(m) => Some(m@),
                None => None,
            },
        ));
        r
    }
}

/// Whether a line starts with `# `.
fn starts_with_heading(l: &str) -> (b: bool)
    ensures
        b == (l@.len() >= 2 && l@[0] == '#' && l@[1] == ' '),
{
    let mut n: usize = 0;
    let mut first = ' ';
    let mut second = ' ';
    for ch in it: l.chars()
        invariant
            it.seq() == l@,
            n == if it.index() < 2 {
                it.index()
            } else {
                2
            },
            n >= 1 ==> first == l@[0],
            n >= 2 ==> second == l@[1],
    {
        if n == 0 {
            first = ch;
            n = 1;
        } else if n == 1 {
            second = ch;
            n = 2;
        }
    }
    n == 2 && first == '#' && second == ' '
}

} // verus!
