//! Choosing the keywords of a document for the system search index: the
//! most frequent long words. Writing the index and its attributes is left
//! to the caller.

use crate::kitty_native::literal;
use crate::macos_services::words_spec;
use crate::text_format::{decimal, push_decimal, push_str};
use crate::std_text::{alphanumeric, is_alphanumeric, lowercase, same_text, to_lowercase};
use crate::text_lines::{lines_spec, split_lines};
use vstd::prelude::*;
use vstd::utf8::encode_utf8;

verus! {

/// Where the index files of the documents go.
pub struct SpotlightIndexer {
    pub index_dir: String,
}

/// Most keywords kept for a document.
pub const MAX_KEYWORDS: usize = 10;

/// The length in bytes of the UTF-8 form of `s`, as `str::len` gives it.
pub open spec fn utf8_len(s: Seq<char>) -> usize {
    encode_utf8(s).len() as usize
}

/// The alphanumeric characters of `s`, in order.
pub open spec fn alnum_only(s: Seq<char>) -> Seq<char>
    decreases s.len(),
{
    if s.len() == 0 {
        Seq::empty()
    } else if alphanumeric(s.last()) {
        alnum_only(s.drop_last()).push(s.last())
    } else {
        alnum_only(s.drop_last())
    }
}

/// A word cleaned for counting: lowercase, alphanumeric characters only.
pub open spec fn cleaned(w: Seq<char>) -> Seq<char> {
    alnum_only(lowercase(w))
}

/// Words too common to be keywords.
pub open spec fn is_stop_word(w: Seq<char>) -> bool {
    w == "the"@ || w == "a"@ || w == "an"@ || w == "and"@ || w == "or"@ || w == "but"@ || w
        == "in"@ || w == "on"@ || w == "at"@ || w == "to"@ || w == "for"@
}

/// A cleaned word counts when it is longer than three bytes and not a stop
/// word.
pub open spec fn counts_as_keyword(w: Seq<char>) -> bool {
    utf8_len(w) > 3 && !is_stop_word(w)
}

/// The cleaned words of the first `k` words that count, in order.
pub open spec fn candidates(ws: Seq<Seq<char>>, k: nat) -> Seq<Seq<char>>
    decreases k,
{
    if k == 0 {
        Seq::empty()
    } else {
        let before = candidates(ws, (k - 1) as nat);
        if counts_as_keyword(cleaned(ws[k - 1])) {
            before.push(cleaned(ws[k - 1]))
        } else {
            before
        }
    }
}

/// The first index of `w` among the words of a tally, or -1.
pub open spec fn tally_index(t: Seq<(Seq<char>, nat)>, w: Seq<char>) -> int
    decreases t.len(),
{
    if t.len() == 0 {
        -1
    } else {
        let i = tally_index(t.drop_last(), w);
        if i >= 0 {
            i
        } else if t.last().0 == w {
            t.len() - 1
        } else {
            -1
        }
    }
}

/// Each distinct word with its number of occurrences, in order of first
/// occurrence.
pub open spec fn tally(ws: Seq<Seq<char>>) -> Seq<(Seq<char>, nat)>
    decreases ws.len(),
{
    if ws.len() == 0 {
        Seq::empty()
    } else {
        let t = tally(ws.drop_last());
        let i = tally_index(t, ws.last());
        if i >= 0 {
            t.update(i, (t[i].0, t[i].1 + 1))
        } else {
            t.push((ws.last(), 1))
        }
    }
}

/// The index of the first entry with the highest count.
pub open spec fn best(t: Seq<(Seq<char>, nat)>) -> int
    decreases t.len(),
{
    if t.len() <= 1 {
        0
    } else {
        let b = best(t.drop_last());
        if t.last().1 > t[b].1 {
            t.len() - 1
        } else {
            b
        }
    }
}

/// Up to `k` words of a tally, highest counts first; among equal counts the
/// one that occurred first comes first.
pub open spec fn ranked(t: Seq<(Seq<char>, nat)>, k: nat) -> Seq<Seq<char>>
    decreases k,
{
    if k == 0 || t.len() == 0 {
        Seq::empty()
    } else {
        seq![t[best(t)].0] + ranked(t.remove(best(t)), (k - 1) as nat)
    }
}

/// The keywords of a text: its most frequent cleaned words that count (see
/// `counts_as_keyword`), at most `MAX_KEYWORDS`.
pub open spec fn keywords_spec(content: Seq<char>) -> Seq<Seq<char>> {
    let ws = words_spec(content);
    ranked(tally(candidates(ws, ws.len())), MAX_KEYWORDS as nat)
}

proof fn lemma_best(t: Seq<(Seq<char>, nat)>)
    requires
        t.len() > 0,
    ensures
        0 <= best(t) < t.len(),
    decreases t.len(),
{
    if t.len() > 1 {
        lemma_best(t.drop_last());
    }
}

/// The first index of a word is found by scanning from the front.
proof fn lemma_tally_index(t: Seq<(Seq<char>, nat)>, w: Seq<char>, j: int)
    requires
        0 <= j <= t.len(),
        forall|k: int| 0 <= k < j ==> #[trigger] t[k].0 != w,
    ensures
        j < t.len() && t[j].0 == w ==> tally_index(t, w) == j,
        j == t.len() ==> tally_index(t, w) == -1,
    decreases t.len(),
{
    if t.len() > 0 {
        if j < t.len() {
            if j < t.len() - 1 {
                assert forall|k: int| 0 <= k < j implies #[trigger] t.drop_last()[k].0 != w by {
                    assert(t.drop_last()[k] == t[k]);
                }
                lemma_tally_index(t.drop_last(), w, j);
                assert(t.drop_last()[j] == t[j]);
            } else {
                assert forall|k: int| 0 <= k < t.len() - 1 implies #[trigger] t.drop_last()[k].0 != w by {
                    assert(t.drop_last()[k] == t[k]);
                }
                lemma_tally_index(t.drop_last(), w, t.len() - 1);
            }
        } else {
            assert forall|k: int| 0 <= k < t.len() - 1 implies #[trigger] t.drop_last()[k].0 != w by {
                assert(t.drop_last()[k] == t[k]);
            }
            lemma_tally_index(t.drop_last(), w, t.len() - 1);
        }
    }
}

/// The words that a ranking picks are words of the tally, and there are at
/// most `k` of them.
proof fn lemma_ranked(t: Seq<(Seq<char>, nat)>, k: nat)
    ensures
        ranked(t, k).len() <= k,
        forall|i: int| 0 <= i < ranked(t, k).len() ==> exists|j: int| 0 <= j < t.len() && #[trigger] t[j].0
            == #[trigger] ranked(t, k)[i],
    decreases k,
{
    if k > 0 && t.len() > 0 {
        lemma_best(t);
        let b = best(t);
        let rest = t.remove(b);
        lemma_ranked(rest, (k - 1) as nat);
        let r = ranked(t, k);
        assert(r == seq![t[b].0] + ranked(rest, (k - 1) as nat));
        assert forall|i: int| 0 <= i < r.len() implies exists|j: int| 0 <= j < t.len() && #[trigger] t[j].0
            == #[trigger] r[i] by {
            if i == 0 {
                assert(t[b].0 == r[0]);
            } else {
                assert(r[i] == ranked(rest, (k - 1) as nat)[i - 1]);
                let j = choose|j: int| 0 <= j < rest.len() && #[trigger] rest[j].0 == ranked(
                    rest,
                    (k - 1) as nat,
                )[i - 1];
                if j < b {
                    assert(rest[j] == t[j]);
                } else {
                    assert(rest[j] == t[j + 1]);
                }
            }
        }
    }
}

/// A found index is an index of the tally.
proof fn lemma_tally_index_range(t: Seq<(Seq<char>, nat)>, w: Seq<char>)
    ensures
        -1 <= tally_index(t, w) < t.len(),
    decreases t.len(),
{
    if t.len() > 0 {
        lemma_tally_index_range(t.drop_last(), w);
    }
}

/// The words of a tally are words of the list it counts.
proof fn lemma_tally_words(ws: Seq<Seq<char>>)
    ensures
        forall|j: int| 0 <= j < tally(ws).len() ==> exists|i: int| 0 <= i < ws.len() && #[trigger] ws[i]
            == #[trigger] tally(ws)[j].0,
    decreases ws.len(),
{
    if ws.len() > 0 {
        let p = ws.drop_last();
        lemma_tally_words(p);
        let t = tally(p);
        let x = tally_index(t, ws.last());
        lemma_tally_index_range(t, ws.last());
        assert forall|j: int| 0 <= j < tally(ws).len() implies exists|i: int| 0 <= i < ws.len()
            && #[trigger] ws[i] == #[trigger] tally(ws)[j].0 by {
            if j < t.len() {
                if x >= 0 {
                    assert(tally(ws) == t.update(x, (t[x].0, t[x].1 + 1)));
                } else {
                    assert(tally(ws) == t.push((ws.last(), 1)));
                }
                assert(tally(ws)[j].0 == t[j].0);
                let i = choose|i: int| 0 <= i < p.len() && #[trigger] p[i] == #[trigger] t[j].0;
                assert(ws[i] == p[i]);
            } else {
                assert(tally(ws) == t.push((ws.last(), 1)));
                assert(tally(ws)[j].0 == ws.last());
                assert(ws[ws.len() - 1] == ws.last());
            }
        }
    }
}

/// Every candidate counts as a keyword.
proof fn lemma_candidates_count(ws: Seq<Seq<char>>, k: nat)
    ensures
        forall|i: int| 0 <= i < candidates(ws, k).len() ==> counts_as_keyword(
            #[trigger] candidates(ws, k)[i],
        ),
    decreases k,
{
    if k > 0 {
        let before = candidates(ws, (k - 1) as nat);
        lemma_candidates_count(ws, (k - 1) as nat);
        assert forall|i: int| 0 <= i < candidates(ws, k).len() implies counts_as_keyword(
            #[trigger] candidates(ws, k)[i],
        ) by {
            if i < before.len() {
                assert(candidates(ws, k)[i] == before[i]);
            }
        }
    }
}

/// A text has at most `MAX_KEYWORDS` keywords, and each is longer than
/// three bytes and no stop word.
pub proof fn law_keywords_bounded(content: Seq<char>)
    ensures
        keywords_spec(content).len() <= MAX_KEYWORDS,
        forall|i: int| 0 <= i < keywords_spec(content).len() ==> counts_as_keyword(
            #[trigger] keywords_spec(content)[i],
        ),
{
    let ws = words_spec(content);
    let c = candidates(ws, ws.len());
    let t = tally(c);
    lemma_ranked(t, MAX_KEYWORDS as nat);
    lemma_tally_words(c);
    lemma_candidates_count(ws, ws.len());
    let r = keywords_spec(content);
    assert forall|i: int| 0 <= i < r.len() implies counts_as_keyword(#[trigger] r[i]) by {
        let j = choose|j: int| 0 <= j < t.len() && #[trigger] t[j].0 == r[i];
        let m = choose|m: int| 0 <= m < c.len() && #[trigger] c[m] == t[j].0;
    }
}

/// A word cleaned for counting (see `cleaned`).
fn clean_word(w: &str) -> (r: String)
    ensures
        r@ == cleaned(w@),
{
    let lower = to_lowercase(w);
    let ghost l = lower@;
    let mut r = String::new();
    for ch in it: lower.as_str().chars()
        invariant
            it.seq() == l,
            r@ == alnum_only(l.take(it.index() as int)),
    {
        assert(l.take(it.index() + 1).drop_last() =~= l.take(it.index() as int));
        if is_alphanumeric(ch) {
            r.push(ch);
        }
    }
    assert(l.take(l.len() as int) =~= l);
    r
}

/// Whether a word is a stop word.
fn stop_word(w: &str) -> (b: bool)
    ensures
        b == is_stop_word(w@),
{
    same_text(w, "the") || same_text(w, "a") || same_text(w, "an") || same_text(w, "and")
        || same_text(w, "or") || same_text(w, "but") || same_text(w, "in") || same_text(w, "on")
        || same_text(w, "at") || same_text(w, "to") || same_text(w, "for")
}

/// The words of `s` (see `words_spec`).
fn words_of(s: &str) -> (r: Vec<String>)
    ensures
        r@.map_values(|w: String| w@) == words_spec(s@),
{
    crate::macos_services::split_words(s)
}

/// The tally as plain values.
pub open spec fn tally_view(v: Seq<(String, usize)>) -> Seq<(Seq<char>, nat)> {
    v.map_values(|e: (String, usize)| (e.0@, e.1 as nat))
}

impl SpotlightIndexer {
    /// The keywords of a text (see `keywords_spec`).
    #[verifier::spinoff_prover]
    pub fn extract_keywords(&self, content: &str) -> (r: Vec<String>)
        ensures
            r@.map_values(|w: String| w@) == keywords_spec(content@),
    {
        let words = words_of(content);
        let ghost ws = words@.map_values(|w: String| w@);
        let mut counts: Vec<(String, usize)> = Vec::new();
        let mut i: usize = 0;
        while i < words.len()
            invariant
                i <= words@.len(),
                ws == words@.map_values(|w: String| w@),
                ws == words_spec(content@),
                tally_view(counts@) == tally(candidates(ws, i as nat)),
                counts@.len() <= i,
                forall|j: int| 0 <= j < counts@.len() ==> #[trigger] counts@[j].1 <= i,
            decreases words@.len() - i,
        {
            let cw = clean_word(words[i].as_str());
            assert(ws[i as int] == words@[i as int]@);
            if cw.as_str().len() > 3 && !stop_word(cw.as_str()) {
                let ghost cands = candidates(ws, i as nat);
                assert(candidates(ws, (i + 1) as nat) == cands.push(cw@));
                assert(cands.push(cw@).drop_last() =~= cands);
                let mut j: usize = 0;
                let mut found = false;
                while j < counts.len()
                    invariant_except_break
                        j <= counts@.len(),
                        !found,
                        forall|k: int| 0 <= k < j ==> #[trigger] counts@[k].0@ != cw@,
                    invariant
                        tally_view(counts@) == tally(cands),
                    ensures
                        j <= counts@.len(),
                        forall|k: int| 0 <= k < j ==> #[trigger] counts@[k].0@ != cw@,
                        found ==> j < counts@.len() && counts@[j as int].0@ == cw@,
                        !found ==> j == counts@.len(),
                    decreases counts@.len() - j,
                {
                    if same_text(counts[j].0.as_str(), cw.as_str()) {
                        found = true;
                        break;
                    }
                    j = j + 1;
                }
                let ghost t = tally(cands);
                assert forall|k: int| 0 <= k < j implies #[trigger] t[k].0 != cw@ by {
                    assert(t[k] == tally_view(counts@)[k]);
                    assert(counts@[k].0@ != cw@);
                }
                if found {
                    assert(t[j as int].0 == cw@);
                    proof {
                        lemma_tally_index(t, cw@, j as int);
                    }
                    let name = counts[j].0.clone();
                    let n = counts[j].1;
                    counts.set(j, (name, n + 1));
                    assert(tally_view(counts@) =~= t.update(j as int, (t[j as int].0, t[j as int].1 + 1)));
                } else {
                    proof {
                        lemma_tally_index(t, cw@, j as int);
                    }
                    counts.push((cw, 1));
                    assert(tally_view(counts@) =~= t.push((cands.push(cw@).last(), 1)));
                }
                assert forall|k: int| 0 <= k < counts@.len() implies #[trigger] counts@[k].1 <= i + 1 by {
                }
            } else {
                assert(candidates(ws, (i + 1) as nat) == candidates(ws, i as nat));
            }
            i = i + 1;
        }
        let ghost t0 = tally_view(counts@);
        let mut result: Vec<String> = Vec::new();
        let mut taken: usize = 0;
        while taken < MAX_KEYWORDS && counts.len() > 0
            invariant
                taken <= MAX_KEYWORDS,
                result@.map_values(|w: String| w@) + ranked(tally_view(counts@), (MAX_KEYWORDS - taken) as nat)
                    == ranked(t0, MAX_KEYWORDS as nat),
            decreases MAX_KEYWORDS - taken,
        {
            let ghost t = tally_view(counts@);
            proof {
                lemma_best(t);
            }
            let mut b: usize = 0;
            let mut k: usize = 1;
            while k < counts.len()
                invariant
                    t == tally_view(counts@),
                    1 <= k <= counts@.len(),
                    b as int == best(t.take(k as int)),
                    b < k,
                decreases counts@.len() - k,
            {
                assert(t.take(k + 1).drop_last() =~= t.take(k as int));
                assert(t.take(k + 1).last() == t[k as int]);
                assert(t.take(k + 1)[b as int] == t[b as int]);
                if counts[k].1 > counts[b].1 {
                    b = k;
                }
                k = k + 1;
            }
            assert(t.take(counts@.len() as int) =~= t);
            let (word, _) = counts.remove(b);
            assert(tally_view(counts@) =~= t.remove(b as int));
            let ghost before = result@.map_values(|w: String| w@);
            result.push(word);
            assert(result@.map_values(|w: String| w@) =~= before.push(t[b as int].0));
            assert(ranked(t, (MAX_KEYWORDS - taken) as nat) == seq![t[b as int].0] + ranked(
                t.remove(b as int),
                (MAX_KEYWORDS - taken - 1) as nat,
            ));
            taken = taken + 1;
        }
        result
    }
}

/// The title of an indexed document: its first line when that is longer
/// than 5 and shorter than 100 bytes, else the file's name without its
/// extension.
pub open spec fn pdf_title_spec(content: Seq<char>, file_stem: Seq<char>) -> Seq<char> {
    let ls = lines_spec(content);
    if ls.len() > 0 && 5 < utf8_len(ls[0]) < 100 {
        ls[0]
    } else {
        file_stem
    }
}

/// The title of an indexed document (see `pdf_title_spec`).
pub fn pdf_title(content: &str, file_stem: &str) -> (t: String)
    ensures
        t@ == pdf_title_spec(content@, file_stem@),
{
    let lines = split_lines(content);
    if lines.len() > 0 {
        let n = lines[0].as_str().len();
        assert(lines@.map_values(|l: String| l@)[0] == lines@[0]@);
        if n > 5 && n < 100 {
            return lines[0].clone();
        }
    }
    literal(file_stem)
}

/// The estimated page count of a document: one page per 50 lines, rounded
/// down.
pub fn estimated_page_count(content: &str) -> (n: usize)
    ensures
        n == lines_spec(content@).len() / 50,
{
    let lines = split_lines(content);
    assert(lines@.map_values(|l: String| l@).len() == lines@.len());
    lines.len() / 50
}


/// What the search index records of a document. The time of its last
/// change is in seconds since the Unix epoch.
#[derive(Clone, Debug)]
pub struct PDFMetadata {
    pub title: String,
    pub author: String,
    pub content: String,
    pub page_count: usize,
    pub file_path: String,
    pub last_modified: u64,
    pub keywords: Vec<String>,
}

/// The words of `ws` with `sep` between each two.
pub open spec fn joined_with(ws: Seq<Seq<char>>, sep: Seq<char>) -> Seq<char>
    decreases ws.len(),
{
    if ws.len() == 0 {
        Seq::empty()
    } else if ws.len() == 1 {
        ws[0]
    } else {
        joined_with(ws.drop_last(), sep) + sep + ws.last()
    }
}

/// Characters of a document's text that its index file holds.
pub const INDEX_TEXT_CHARS: usize = 1000;

/// The index file of a document: its title, author, page count, keywords
/// and path, a blank line, then the first characters of its text.
pub open spec fn index_file_spec(m: PDFMetadata) -> Seq<char> {
    let text = if m.content@.len() > INDEX_TEXT_CHARS {
        m.content@.take(INDEX_TEXT_CHARS as int)
    } else {
        m.content@
    };
    "Title: "@ + m.title@ + "\nAuthor: "@ + m.author@ + "\nPages: "@ + decimal(m.page_count as nat)
        + "\nKeywords: "@ + joined_with(m.keywords@.map_values(|w: String| w@), ", "@) + "\nPath: "@
        + m.file_path@ + "\n\n"@ + text
}

impl SpotlightIndexer {
    /// The metadata of a document from its text, the name of its file
    /// without the extension, its path and the time of its last change.
    pub fn extract_metadata(&self, content: &str, file_stem: &str, file_path: &str, last_modified: u64) -> (m:
        PDFMetadata)
        ensures
            m.title@ == pdf_title_spec(content@, file_stem@),
            m.author@ == "Unknown"@,
            m.content@ == content@,
            m.page_count == lines_spec(content@).len() / 50,
            m.file_path@ == file_path@,
            m.last_modified == last_modified,
            m.keywords@.map_values(|w: String| w@) == keywords_spec(content@),
    {
        PDFMetadata {
            title: pdf_title(content, file_stem),
            author: literal("Unknown"),
            content: literal(content),
            page_count: estimated_page_count(content),
            file_path: literal(file_path),
            last_modified,
            keywords: self.extract_keywords(content),
        }
    }
}

impl PDFMetadata {
    /// The keywords with `, ` between each two, as the index attribute
    /// holds them.
    pub fn keywords_line(&self) -> (s: String)
        ensures
            s@ == joined_with(self.keywords@.map_values(|w: String| w@), ", "@),
    {
        let ghost ws = self.keywords@.map_values(|w: String| w@);
        let mut s = String::new();
        let mut i: usize = 0;
        while i < self.keywords.len()
            invariant
                i <= self.keywords@.len(),
                ws == self.keywords@.map_values(|w: String| w@),
                s@ == joined_with(ws.take(i as int), ", "@),
            decreases self.keywords@.len() - i,
        {
            if i > 0 {
                push_str(&mut s, ", ");
            }
            push_str(&mut s, self.keywords[i].as_str());
            proof {
                let next = ws.take(i + 1);
                assert(next.drop_last() =~= ws.take(i as int));
                assert(next.last() == ws[i as int]);
                if i == 0 {
                    assert(ws.take(0) =~= Seq::<Seq<char>>::empty());
                    assert(s@ =~= joined_with(next, ", "@));
                }
            }
            i = i + 1;
        }
        assert(ws.take(self.keywords@.len() as int) =~= ws);
        s
    }

    /// The text of the document's index file (see `index_file_spec`).
    pub fn index_file_text(&self) -> (s: String)
        ensures
            s@ == index_file_spec(*self),
    {
        let mut s = String::new();
        push_str(&mut s, "Title: ");
        push_str(&mut s, self.title.as_str());
        push_str(&mut s, "\nAuthor: ");
        push_str(&mut s, self.author.as_str());
        push_str(&mut s, "\nPages: ");
        push_decimal(&mut s, self.page_count as u64);
        push_str(&mut s, "\nKeywords: ");
        let k = self.keywords_line();
        push_str(&mut s, k.as_str());
        push_str(&mut s, "\nPath: ");
        push_str(&mut s, self.file_path.as_str());
        push_str(&mut s, "\n\n");
        let ghost before = s@;
        let mut taken: usize = 0;
        for ch in it: self.content.as_str().chars()
            invariant
                it.seq() == self.content@,
                taken == if it.index() < INDEX_TEXT_CHARS { it.index() } else { INDEX_TEXT_CHARS as int },
                s@ == before + self.content@.take(taken as int),
        {
            if taken < INDEX_TEXT_CHARS {
                s.push(ch);
                assert(before + self.content@.take(taken + 1) == (before + self.content@.take(
                    taken as int,
                )).push(ch));
                taken = taken + 1;
            }
        }
        proof {
            if self.content@.len() <= INDEX_TEXT_CHARS {
                assert(self.content@.take(self.content@.len() as int) =~= self.content@);
            }
        }
        s
    }
}

} // verus!
