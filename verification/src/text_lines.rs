//! Splitting text into lines and joining lines into text, as `str::lines`
//! and `join("\n")` do.

use vstd::prelude::*;

verus! {

/// A line without one trailing carriage return, if it has one.
pub open spec fn strip_cr(l: Seq<char>) -> Seq<char> {
    if l.len() > 0 && l.last() == '\r' {
        l.drop_last()
    } else {
        l
    }
}

/// Lines scanned so far and the line being read, after the characters of
/// `s`: a newline ends the current line (without a carriage return just
/// before it).
pub open spec fn lines_run(s: Seq<char>) -> (Seq<Seq<char>>, Seq<char>)
    decreases s.len(),
{
    if s.len() == 0 {
        (Seq::empty(), Seq::empty())
    } else {
        let (done, cur) = lines_run(s.drop_last());
        if s.last() == '\n' {
            (done.push(strip_cr(cur)), Seq::empty())
        } else {
            (done, cur.push(s.last()))
        }
    }
}

/// The lines of `s` as `str::lines` gives them: split at `\n` or `\r\n`,
/// terminators removed, and no empty line after a final terminator.
pub open spec fn lines_spec(s: Seq<char>) -> Seq<Seq<char>> {
    let (done, cur) = lines_run(s);
    if cur.len() > 0 {
        done.push(cur)
    } else {
        done
    }
}

/// The lines joined with `\n` between them.
pub open spec fn join_lines_spec(ls: Seq<Seq<char>>) -> Seq<char>
    decreases ls.len(),
{
    if ls.len() == 0 {
        Seq::empty()
    } else if ls.len() == 1 {
        ls[0]
    } else {
        join_lines_spec(ls.drop_last()) + seq!['\n'] + ls.last()
    }
}

/// The lines of `text`, as `text.lines()` yields them.
pub fn split_lines(text: &str) -> (r: Vec<String>)
    ensures
        r@.map_values(|l: String| l@) == lines_spec(text@),
{
    let ghost s = text@;
    let mut done: Vec<String> = Vec::new();
    let mut cur: String = String::new();
    for ch in it: text.chars()
        invariant
            it.seq() == s,
            (done@.map_values(|l: String| l@), cur@) == lines_run(s.take(it.index() as int)),
    {
        proof {
            assert(s.take(it.index() + 1).drop_last() == s.take(it.index() as int));
        }
        if ch == '\n' {
            let line = strip_trailing_cr(&cur);
            let ghost before = done@.map_values(|l: String| l@);
            done.push(line);
            assert(done@.map_values(|l: String| l@) == before.push(strip_cr(cur@)));
            cur = String::new();
        } else {
            cur.push(ch);
        }
    }
    proof {
        assert(s.take(s.len() as int) == s);
    }
    if !cur.as_str().is_empty() {
        let ghost before = done@.map_values(|l: String| l@);
        proof {
            assert(cur@.len() > 0);
        }
        done.push(cur);
        assert(done@.map_values(|l: String| l@) == before.push(lines_run(s).1));
    } else {
        proof {
            assert(cur@.len() == 0);
        }
    }
    done
}

/// `line` without one trailing carriage return.
fn strip_trailing_cr(line: &String) -> (r: String)
    ensures
        r@ == strip_cr(line@),
{
    let ghost s = line@;
    let mut chars: Vec<char> = Vec::new();
    for ch in it: line.as_str().chars()
        invariant
            it.seq() == s,
            chars@ == s.take(it.index() as int),
    {
        chars.push(ch);
        assert(chars@ == s.take(it.index() + 1));
    }
    proof {
        assert(s.take(s.len() as int) == s);
    }
    let mut n: usize = chars.len();
    if n > 0 && chars[n - 1] == '\r' {
        n = n - 1;
    }
    let mut r = String::new();
    let mut i: usize = 0;
    while i < n
        invariant
            n <= chars@.len(),
            i <= n,
            r@ == chars@.take(i as int),
        decreases n - i,
    {
        r.push(chars[i]);
        assert(chars@.take(i as int).push(chars@[i as int]) == chars@.take(i + 1));
        i = i + 1;
    }
    proof {
        assert(strip_cr(s) == chars@.take(n as int));
    }
    r
}

/// The lines joined with `\n` between them, as `lines.join("\n")` gives.
pub fn join_lines(lines: &Vec<String>) -> (r: String)
    ensures
        r@ == join_lines_spec(lines@.map_values(|l: String| l@)),
{
    let ghost ls = lines@.map_values(|l: String| l@);
    let mut r = String::new();
    let mut i: usize = 0;
    while i < lines.len()
        invariant
            i <= lines@.len(),
            ls == lines@.map_values(|l: String| l@),
            r@ == join_lines_spec(ls.take(i as int)),
        decreases lines@.len() - i,
    {
        let ghost before = r@;
        if i > 0 {
            r.push('\n');
        }
        let ghost mid = r@;
        let line = &lines[i];
        let ghost l = line@;
        for ch in it: line.as_str().chars()
            invariant
                it.seq() == l,
                r@ == mid + l.take(it.index() as int),
        {
            r.push(ch);
            assert(mid + l.take(it.index() + 1) == (mid + l.take(it.index() as int)).push(ch));
        }
        proof {
            assert(l.take(l.len() as int) == l);
            assert(ls.take(i + 1).drop_last() == ls.take(i as int));
            assert(ls[i as int] == l);
            if i == 0 {
                assert(ls.take(1)[0] == l);
            }
        }
        i = i + 1;
    }
    proof {
        assert(ls.take(lines@.len() as int) == ls);
    }
    r
}

/// Reading characters without a newline extends the current line.
pub proof fn lemma_lines_run_append(a: Seq<char>, b: Seq<char>)
    requires
        forall|i: int| 0 <= i < b.len() ==> b[i] != '\n',
    ensures
        lines_run(a + b) == (lines_run(a).0, lines_run(a).1 + b),
    decreases b.len(),
{
    if b.len() == 0 {
        assert(a + b == a);
        assert(lines_run(a).1 + b == lines_run(a).1);
    } else {
        lemma_lines_run_append(a, b.drop_last());
        assert((a + b).drop_last() == a + b.drop_last());
        assert((a + b).last() == b.last());
        assert(lines_run(a).1 + b.drop_last() + seq![b.last()] == lines_run(a).1 + b);
    }
}

/// Joining lines without newlines and scanning the result gives back every
/// line but the last (without a trailing carriage return) as finished
/// lines, and the last line as the line being read.
pub proof fn lemma_lines_run_join(ls: Seq<Seq<char>>)
    requires
        ls.len() >= 1,
        forall|i: int, j: int| 0 <= i < ls.len() && 0 <= j < ls[i].len() ==> ls[i][j] != '\n',
    ensures
        lines_run(join_lines_spec(ls)) == (
            ls.drop_last().map_values(|l: Seq<char>| strip_cr(l)),
            ls.last(),
        ),
    decreases ls.len(),
{
    if ls.len() == 1 {
        lemma_lines_run_append(Seq::empty(), ls[0]);
        assert(Seq::<char>::empty() + ls[0] == ls[0]);
        assert(ls.drop_last().map_values(|l: Seq<char>| strip_cr(l)) =~= Seq::empty());
        assert(Seq::<char>::empty() + ls[0] == ls[0]);
    } else {
        let front = ls.drop_last();
        lemma_lines_run_join(front);
        let a = join_lines_spec(front);
        let an = a + seq!['\n'];
        assert(an.drop_last() == a);
        assert forall|j: int| 0 <= j < ls.last().len() implies ls.last()[j] != '\n' by {
            assert(ls.last() == ls[ls.len() - 1]);
        }
        lemma_lines_run_append(an, ls.last());
        assert(join_lines_spec(ls) == an + ls.last());
        assert(Seq::<char>::empty() + ls.last() == ls.last());
        assert(front.drop_last().map_values(|l: Seq<char>| strip_cr(l)).push(strip_cr(front.last()))
            =~= ls.drop_last().map_values(|l: Seq<char>| strip_cr(l)));
    }
}

} // verus!
