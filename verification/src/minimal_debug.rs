//! The click log: one record per click, `Click(x,y) → Cursor(row,col)`,
//! and the reading of such a log back, to find the clicks that did not
//! land where the cursor went.

use crate::text_format::{chars_of, decimal, digit_char, push_decimal, push_str};
use vstd::prelude::*;

verus! {

/// The record of one click at screen cell `(x, y)` that put the cursor at
/// `(row, col)`.
pub open spec fn click_record_spec(x: u16, y: u16, row: usize, col: usize) -> Seq<char> {
    "Click("@ + decimal(x as nat) + seq![','] + decimal(y as nat) + ") → Cursor("@ + decimal(
        row as nat,
    ) + seq![','] + decimal(col as nat) + seq![')']
}

/// The record of one click (see `click_record_spec`).
pub fn click_record(x: u16, y: u16, cursor_row: usize, cursor_col: usize) -> (r: String)
    ensures
        r@ == click_record_spec(x, y, cursor_row, cursor_col),
{
    let mut r = String::new();
    push_str(&mut r, "Click(");
    push_decimal(&mut r, x as u64);
    r.push(',');
    push_decimal(&mut r, y as u64);
    push_str(&mut r, ") → Cursor(");
    push_decimal(&mut r, cursor_row as u64);
    r.push(',');
    push_decimal(&mut r, cursor_col as u64);
    r.push(')');
    assert(r@ =~= click_record_spec(x, y, cursor_row, cursor_col));
    r
}

/// A click missed when its column is not the cursor's column or its row is
/// not the cursor's row.
pub fn click_mismatch(x: u16, y: u16, cursor_row: usize, cursor_col: usize) -> (b: bool)
    ensures
        b == (x != cursor_col || y != cursor_row),
{
    x as usize != cursor_col || y as usize != cursor_row
}

/// `p` occurs in `s` at `i`.
pub open spec fn occurs_at(s: Seq<char>, p: Seq<char>, i: int) -> bool {
    0 <= i && i + p.len() <= s.len() && s.subrange(i, i + p.len()) == p
}

/// The first index from `i` on where `p` occurs in `s`, or -1.
pub open spec fn find_from(s: Seq<char>, p: Seq<char>, i: int) -> int
    decreases s.len() + 1 - i,
{
    if i < 0 || i + p.len() > s.len() {
        -1
    } else if occurs_at(s, p, i) {
        i
    } else {
        find_from(s, p, i + 1)
    }
}

/// `s` split at `p` when `p` occurs exactly once (scanning left to right
/// without overlaps): the text before it and the text after it.
pub open spec fn split_in_two(s: Seq<char>, p: Seq<char>) -> Option<(Seq<char>, Seq<char>)> {
    let f = find_from(s, p, 0);
    if f < 0 {
        None
    } else {
        let rest = s.subrange(f + p.len(), s.len() as int);
        if find_from(rest, p, 0) >= 0 {
            None
        } else {
            Some((s.subrange(0, f), rest))
        }
    }
}

/// `s` with every occurrence of `p` taken out, scanning left to right.
pub open spec fn remove_all(s: Seq<char>, p: Seq<char>) -> Seq<char>
    decreases s.len(),
{
    if s.len() == 0 {
        Seq::empty()
    } else if p.len() > 0 && p.len() <= s.len() && s.subrange(0, p.len() as int) == p {
        remove_all(s.subrange(p.len() as int, s.len() as int), p)
    } else {
        seq![s[0]] + remove_all(s.subrange(1, s.len() as int), p)
    }
}

/// The number written by the decimal digits `d`.
pub open spec fn digits_value(d: Seq<char>) -> nat
    decreases d.len(),
{
    if d.len() == 0 {
        0
    } else {
        digits_value(d.drop_last()) * 10 + ((d.last() as u32) - ('0' as u32)) as nat
    }
}

/// Every character of `d` is an ASCII digit.
pub open spec fn all_digits(d: Seq<char>) -> bool {
    forall|i: int| 0 <= i < d.len() ==> '0' <= #[trigger] d[i] <= '9'
}

/// What parsing `s` as a `usize` gives: an optional `+` and at least one
/// digit, with a value that fits, else nothing.
pub open spec fn parsed_usize(s: Seq<char>) -> Option<nat> {
    let d = if s.len() > 0 && s[0] == '+' {
        s.subrange(1, s.len() as int)
    } else {
        s
    };
    if d.len() > 0 && all_digits(d) && digits_value(d) <= usize::MAX {
        Some(digits_value(d))
    } else {
        None
    }
}

/// The number in `s`, or 0 when `s` is not one.
pub open spec fn number_or_zero(s: Seq<char>) -> nat {
    match parsed_usize(s) {
        Some(n) => n,
        None => 0,
    }
}

/// A pair `a,b` of numbers (each 0 when it is not a number), when the text
/// holds exactly one comma.
pub open spec fn number_pair(s: Seq<char>) -> Option<(nat, nat)> {
    match split_in_two(s, seq![',']) {
        Some((a, b)) => Some((number_or_zero(a), number_or_zero(b))),
        None => None,
    }
}

/// What a line of the click log says, as `(click_x, click_y, cursor_row,
/// cursor_col)`: the line is split at ` → `, the click part loses
/// `Click(` and `)`, the cursor part loses `Cursor(` and `)`, and each
/// part must be a pair; otherwise the line says nothing.
pub open spec fn click_entry(line: Seq<char>) -> Option<(nat, nat, nat, nat)> {
    match split_in_two(line, " → "@) {
        Some((a, b)) => {
            let click = remove_all(remove_all(a, "Click("@), ")"@);
            let cursor = remove_all(remove_all(b, "Cursor("@), ")"@);
            match (number_pair(click), number_pair(cursor)) {
                (Some((cx, cy)), Some((row, col))) => Some((cx, cy, row, col)),
                _ => None,
            }
        },
        None => None,
    }
}

/// The entries of the log lines whose click missed the cursor, in order.
pub open spec fn mismatches(lines: Seq<Seq<char>>) -> Seq<(nat, nat, nat, nat)>
    decreases lines.len(),
{
    if lines.len() == 0 {
        Seq::empty()
    } else {
        let before = mismatches(lines.drop_last());
        match click_entry(lines.last()) {
            Some(e) => if e.0 != e.3 || e.1 != e.2 {
                before.push(e)
            } else {
                before
            },
            None => before,
        }
    }
}

/// With no occurrence of `p` at `i..k`, the search from `i` goes on from
/// `k`.
proof fn lemma_find_skip(s: Seq<char>, p: Seq<char>, i: int, k: int)
    requires
        0 <= i <= k,
        k + p.len() <= s.len() + 1,
        forall|j: int| i <= j < k ==> !occurs_at(s, p, j),
    ensures
        find_from(s, p, i) == find_from(s, p, k),
    decreases k - i,
{
    if i < k {
        lemma_find_skip(s, p, i + 1, k);
    }
}

/// The first occurrence of `p` in `v` from `i` on, if any.
fn find_chars(v: &Vec<char>, p: &Vec<char>, i: usize) -> (f: Option<usize>)
    requires
        i <= v@.len(),
    ensures
        match f {
            Some(k) => k == find_from(v@, p@, i as int),
            None => find_from(v@, p@, i as int) < 0,
        },
{
    let n = v.len();
    if p.len() > n - i {
        return None;
    }
    let last = n - p.len();
    let mut j: usize = i;
    while j <= last
        invariant
            i <= j <= last + 1,
            last + p@.len() == v@.len(),
            n == v@.len(),
            forall|k: int| i <= k < j ==> !occurs_at(v@, p@, k),
        decreases last + 1 - j,
    {
        let mut m: usize = 0;
        let mut same = true;
        assert(v@.subrange(j as int, j as int) =~= p@.take(0));
        while m < p.len()
            invariant
                i <= j <= last,
                last + p@.len() == v@.len(),
                n == v@.len(),
                m <= p@.len(),
                same == (v@.subrange(j as int, j + m) == p@.take(m as int)),
            decreases p@.len() - m,
        {
            if v[j + m] != p[m] {
                same = false;
                assert(v@.subrange(j as int, j + m + 1)[m as int] != p@.take(m + 1)[m as int]);
            } else if same {
                assert(v@.subrange(j as int, j + m + 1) =~= p@.take(m + 1));
            } else {
                assert(v@.subrange(j as int, j + m) == v@.subrange(j as int, j + m + 1).take(m as int));
                assert(p@.take(m as int) == p@.take(m + 1).take(m as int));
            }
            m = m + 1;
        }
        assert(p@.take(p@.len() as int) == p@);
        if same {
            proof {
                lemma_find_skip(v@, p@, i as int, j as int);
            }
            return Some(j);
        }
        j = j + 1;
    }
    proof {
        lemma_find_skip(v@, p@, i as int, j as int);
    }
    None
}

/// The characters `v[a..b]` as a vector.
fn slice_chars(v: &Vec<char>, a: usize, b: usize) -> (r: Vec<char>)
    requires
        a <= b <= v@.len(),
    ensures
        r@ == v@.subrange(a as int, b as int),
{
    let mut r: Vec<char> = Vec::new();
    let mut i: usize = a;
    while i < b
        invariant
            a <= i <= b,
            b <= v@.len(),
            r@ == v@.subrange(a as int, i as int),
        decreases b - i,
    {
        r.push(v[i]);
        assert(r@ =~= v@.subrange(a as int, i + 1));
        i = i + 1;
    }
    r
}

/// `v` split at `p` when `p` occurs exactly once (see `split_in_two`).
fn split_chars(v: &Vec<char>, p: &Vec<char>) -> (r: Option<(Vec<char>, Vec<char>)>)
    ensures
        match r {
            Some((a, b)) => split_in_two(v@, p@) == Some((a@, b@)),
            None => split_in_two(v@, p@) is None,
        },
{
    let f = find_chars(v, p, 0);
    match f {
        None => None,
        Some(fu) => {
            proof {
                lemma_find_range(v@, p@, 0);
                assert(occurs_at(v@, p@, fu as int));
            }
            let n = v.len();
            assert(fu + p@.len() <= n);
            let rest = slice_chars(v, fu + p.len(), n);
            match find_chars(&rest, p, 0) {
                Some(_) => None,
                None => {
                    let before = slice_chars(v, 0, fu);
                    Some((before, rest))
                },
            }
        },
    }
}

/// A found index is one where `p` occurs.
proof fn lemma_find_range(s: Seq<char>, p: Seq<char>, i: int)
    ensures
        find_from(s, p, i) >= 0 ==> i <= find_from(s, p, i) && occurs_at(s, p, find_from(s, p, i)),
        find_from(s, p, i) >= -1,
    decreases s.len() + 1 - i,
{
    if !(i < 0 || i + p.len() > s.len()) && !occurs_at(s, p, i) {
        lemma_find_range(s, p, i + 1);
    }
}

/// `v` with every occurrence of `p` taken out (see `remove_all`).
fn remove_chars(v: &Vec<char>, p: &Vec<char>) -> (r: Vec<char>)
    ensures
        r@ == remove_all(v@, p@),
{
    let mut r: Vec<char> = Vec::new();
    let mut i: usize = 0;
    let n = v.len();
    assert(v@.subrange(0, n as int) == v@);
    while i < n
        invariant
            i <= n,
            n == v@.len(),
            r@ + remove_all(v@.subrange(i as int, n as int), p@) == remove_all(v@, p@),
        decreases n - i,
    {
        let ghost rest = v@.subrange(i as int, n as int);
        let mut same = p.len() > 0 && p.len() <= n - i;
        if same {
            let mut m: usize = 0;
            assert(v@.subrange(i as int, i as int) =~= p@.take(0));
            while m < p.len()
                invariant
                    i + p@.len() <= n,
                    n == v@.len(),
                    m <= p@.len(),
                    same == (v@.subrange(i as int, i + m) == p@.take(m as int)),
                decreases p@.len() - m,
            {
                if v[i + m] != p[m] {
                    same = false;
                    assert(v@.subrange(i as int, i + m + 1)[m as int] != p@.take(m + 1)[m as int]);
                } else if same {
                    assert(v@.subrange(i as int, i + m + 1) =~= p@.take(m + 1));
                } else {
                    assert(v@.subrange(i as int, i + m) == v@.subrange(i as int, i + m + 1).take(m as int));
                    assert(p@.take(m as int) == p@.take(m + 1).take(m as int));
                }
                m = m + 1;
            }
            assert(p@.take(p@.len() as int) == p@);
            assert(rest.subrange(0, p@.len() as int) == v@.subrange(i as int, i + p@.len()));
        } else {
            assert(p@.len() == 0 || p@.len() > rest.len());
        }
        if same {
            assert(rest.subrange(p@.len() as int, rest.len() as int) == v@.subrange(i + p@.len(), n as int));
            i = i + p.len();
        } else {
            assert(rest.subrange(1, rest.len() as int) == v@.subrange(i + 1, n as int));
            assert(rest[0] == v@[i as int]);
            assert(remove_all(rest, p@) == seq![rest[0]] + remove_all(rest.subrange(1, rest.len() as int), p@));
            let ghost r0 = r@;
            r.push(v[i]);
            assert(r@ + remove_all(v@.subrange(i + 1, n as int), p@) =~= r0 + remove_all(rest, p@));
            i = i + 1;
        }
    }
    assert(v@.subrange(n as int, n as int) == Seq::<char>::empty());
    r
}

/// Digits after the first `k` are worth no less than the first `k`.
proof fn lemma_digits_prefix(d: Seq<char>, k: int)
    requires
        0 <= k <= d.len(),
        all_digits(d),
    ensures
        digits_value(d.take(k)) <= digits_value(d),
    decreases d.len(),
{
    if k < d.len() {
        let dl = d.drop_last();
        assert(dl.take(k) == d.take(k));
        assert forall|i: int| 0 <= i < dl.len() implies '0' <= #[trigger] dl[i] <= '9' by {
            assert(dl[i] == d[i]);
        }
        lemma_digits_prefix(dl, k);
    } else {
        assert(d.take(k) == d);
    }
}

/// The number in `v`, or 0 when `v` is not one (see `number_or_zero`).
fn number_or_zero_of(v: &Vec<char>) -> (n: usize)
    ensures
        n == number_or_zero(v@),
{
    let len = v.len();
    let start: usize = if len > 0 && v[0] == '+' {
        1
    } else {
        0
    };
    let ghost d = v@.subrange(start as int, len as int);
    assert(start == 0 ==> d == v@);
    if start == len {
        return 0;
    }
    let mut val: usize = 0;
    let mut i: usize = start;
    assert(d.take(0) =~= Seq::<char>::empty());
    assert(parsed_usize(v@) == (if d.len() > 0 && all_digits(d) && digits_value(d) <= usize::MAX {
        Some(digits_value(d))
    } else {
        None
    }));
    while i < len
        invariant
            parsed_usize(v@) == (if d.len() > 0 && all_digits(d) && digits_value(d) <= usize::MAX {
                Some(digits_value(d))
            } else {
                None
            }),
            start <= i <= len,
            len == v@.len(),
            start < len,
            d == v@.subrange(start as int, len as int),
            all_digits(d.take(i - start)),
            val == digits_value(d.take(i - start)),
        decreases len - i,
    {
        let c = v[i];
        assert(d[i - start] == c);
        if c < '0' || c > '9' {
            assert(!all_digits(d));
            return 0;
        }
        let digit = (c as u32 - '0' as u32) as usize;
        let ghost k = i - start;
        assert(d.take(k + 1).drop_last() == d.take(k));
        assert(d.take(k + 1).last() == c);
        if val > (usize::MAX - digit) / 10 {
            assert(val * 10 + digit > usize::MAX) by (nonlinear_arith)
                requires
                    val > (usize::MAX - digit) / 10,
                    digit <= 9,
            ;
            proof {
                if all_digits(d) {
                    lemma_digits_prefix(d, k + 1);
                }
            }
            return 0;
        }
        assert(val * 10 + digit <= usize::MAX) by (nonlinear_arith)
            requires
                val <= (usize::MAX - digit) / 10,
                digit <= 9,
        ;
        val = val * 10 + digit;
        assert forall|j: int| 0 <= j < d.take(k + 1).len() implies '0' <= #[trigger] d.take(k + 1)[j]
            <= '9' by {
            if j < k {
                assert(d.take(k + 1)[j] == d.take(k)[j]);
            }
        }
        i = i + 1;
    }
    assert(d.take(len - start) == d);
    val
}

/// A pair `a,b` of numbers (see `number_pair`).
fn number_pair_of(v: &Vec<char>) -> (r: Option<(usize, usize)>)
    ensures
        match r {
            Some((a, b)) => number_pair(v@) == Some((a as nat, b as nat)),
            None => number_pair(v@) is None,
        },
{
    let comma = vec![','];
    assert(comma@ =~= seq![',']);
    match split_chars(v, &comma) {
        Some((a, b)) => Some((number_or_zero_of(&a), number_or_zero_of(&b))),
        None => None,
    }
}

/// What a line of the click log says (see `click_entry`).
pub fn parse_click_record(line: &str) -> (r: Option<(usize, usize, usize, usize)>)
    ensures
        match r {
            Some((cx, cy, row, col)) => click_entry(line@) == Some(
                (cx as nat, cy as nat, row as nat, col as nat),
            ),
            None => click_entry(line@) is None,
        },
{
    let v = chars_of(line);
    let sep = chars_of(" → ");
    match split_chars(&v, &sep) {
        None => None,
        Some((a, b)) => {
            let click_word = chars_of("Click(");
            let cursor_word = chars_of("Cursor(");
            let close = chars_of(")");
            let click = remove_chars(&remove_chars(&a, &click_word), &close);
            let cursor = remove_chars(&remove_chars(&b, &cursor_word), &close);
            match (number_pair_of(&click), number_pair_of(&cursor)) {
                (Some((cx, cy)), Some((row, col))) => Some((cx, cy, row, col)),
                _ => None,
            }
        },
    }
}

/// An entry as plain numbers.
pub open spec fn entry_view(e: (usize, usize, usize, usize)) -> (nat, nat, nat, nat) {
    (e.0 as nat, e.1 as nat, e.2 as nat, e.3 as nat)
}

/// The entries of the log lines whose click missed the cursor, in order
/// (see `mismatches`).
pub fn click_mismatches(lines: &Vec<String>) -> (r: Vec<(usize, usize, usize, usize)>)
    ensures
        r@.map_values(|e: (usize, usize, usize, usize)| entry_view(e)) == mismatches(
            lines@.map_values(|l: String| l@),
        ),
{
    let ghost ls = lines@.map_values(|l: String| l@);
    let mut r: Vec<(usize, usize, usize, usize)> = Vec::new();
    let mut i: usize = 0;
    while i < lines.len()
        invariant
            i <= lines@.len(),
            ls == lines@.map_values(|l: String| l@),
            r@.map_values(|e: (usize, usize, usize, usize)| entry_view(e)) == mismatches(
                ls.take(i as int),
            ),
        decreases lines@.len() - i,
    {
        assert(ls.take(i + 1).drop_last() == ls.take(i as int));
        assert(ls.take(i + 1).last() == lines@[i as int]@);
        let ghost before = r@;
        match parse_click_record(lines[i].as_str()) {
            Some((cx, cy, row, col)) => {
                if cx != col || cy != row {
                    r.push((cx, cy, row, col));
                    assert(r@.map_values(|e: (usize, usize, usize, usize)| entry_view(e))
                        =~= before.map_values(|e: (usize, usize, usize, usize)| entry_view(e)).push(
                        entry_view((cx, cy, row, col)),
                    ));
                }
            },
            None => {},
        }
        i = i + 1;
    }
    assert(ls.take(i as int) == ls);
    r
}

/// `c` does not occur in `s`.
pub open spec fn lacks(s: Seq<char>, c: char) -> bool {
    forall|i: int| 0 <= i < s.len() ==> #[trigger] s[i] != c
}

proof fn lemma_digit_char(d: nat)
    requires
        d < 10,
    ensures
        '0' <= digit_char(d) <= '9',
        (digit_char(d) as u32) - ('0' as u32) == d,
{
}

/// A decimal representation is a non-empty run of digits worth its number.
proof fn lemma_decimal(n: nat)
    ensures
        decimal(n).len() >= 1,
        all_digits(decimal(n)),
        digits_value(decimal(n)) == n,
    decreases n,
{
    lemma_digit_char(n % 10);
    let d = decimal(n);
    assert(digits_value(d) == digits_value(d.drop_last()) * 10 + ((d.last() as u32) - ('0' as u32)) as nat);
    if n < 10 {
        assert(d.drop_last() =~= Seq::<char>::empty());
        assert(n % 10 == n);
        assert(d.last() == digit_char(n));
        assert(digits_value(d.drop_last()) == 0);
    } else {
        lemma_decimal(n / 10);
        assert(d.drop_last() == decimal(n / 10));
        assert(d.last() == digit_char(n % 10));
        assert((n / 10) * 10 + n % 10 == n) by (nonlinear_arith);
        assert forall|i: int| 0 <= i < d.len() implies '0' <= #[trigger] d[i] <= '9' by {
            if i < d.len() - 1 {
                assert(d[i] == decimal(n / 10)[i]);
            }
        }
    }
}

/// Digits hold none of the punctuation of a click record.
proof fn lemma_digits_lack(d: Seq<char>)
    requires
        all_digits(d),
    ensures
        lacks(d, ','),
        lacks(d, ')'),
        lacks(d, '→'),
        lacks(d, 'C'),
        lacks(d, ' '),
{
}

/// A pattern whose `m`-th character is absent from `s` occurs nowhere in
/// it.
proof fn lemma_find_absent(s: Seq<char>, p: Seq<char>, m: int, i: int)
    requires
        0 <= m < p.len(),
        0 <= i,
        lacks(s, p[m]),
    ensures
        find_from(s, p, i) == -1,
    decreases s.len() + 1 - i,
{
    if i + p.len() <= s.len() {
        assert(s.subrange(i, i + p.len())[m] == s[i + m]);
        lemma_find_absent(s, p, m, i + 1);
    }
}

/// `p` is found first at `k` when its `m`-th character is absent from the
/// text before `k + m`.
proof fn lemma_find_first(s: Seq<char>, p: Seq<char>, m: int, k: int)
    requires
        0 <= m < p.len(),
        0 <= k,
        occurs_at(s, p, k),
        lacks(s.take(k + m), p[m]),
    ensures
        find_from(s, p, 0) == k,
{
    assert forall|j: int| 0 <= j < k implies !occurs_at(s, p, j) by {
        assert(s.take(k + m)[j + m] == s[j + m]);
        if occurs_at(s, p, j) {
            assert(s.subrange(j, j + p.len())[m] == s[j + m]);
        }
    }
    lemma_find_skip(s, p, 0, k);
}

/// Text without the first character of `p` passes through unchanged.
proof fn lemma_remove_free(u: Seq<char>, p: Seq<char>, v: Seq<char>)
    requires
        p.len() > 0,
        lacks(u, p[0]),
    ensures
        remove_all(u + v, p) == u + remove_all(v, p),
    decreases u.len(),
{
    if u.len() > 0 {
        let w = u + v;
        assert(w[0] == u[0]);
        assert(w.subrange(0, p.len() as int)[0] == w[0] || p.len() > w.len());
        assert(w.subrange(1, w.len() as int) == u.subrange(1, u.len() as int) + v);
        assert forall|i: int| 0 <= i < u.subrange(1, u.len() as int).len() implies #[trigger] u.subrange(
            1,
            u.len() as int,
        )[i] != p[0] by {
            assert(u.subrange(1, u.len() as int)[i] == u[i + 1]);
        }
        lemma_remove_free(u.subrange(1, u.len() as int), p, v);
        assert(seq![u[0]] + (u.subrange(1, u.len() as int) + remove_all(v, p)) == u + remove_all(v, p));
    } else {
        assert(u + v == v);
        assert(u + remove_all(v, p) == remove_all(v, p));
    }
}

/// A leading occurrence of `p` is taken out.
proof fn lemma_remove_lead(p: Seq<char>, v: Seq<char>)
    requires
        p.len() > 0,
    ensures
        remove_all(p + v, p) == remove_all(v, p),
{
    assert((p + v).subrange(0, p.len() as int) == p);
    assert((p + v).subrange(p.len() as int, (p + v).len() as int) == v);
}

/// A pair of decimal numbers reads back as the numbers.
proof fn lemma_pair_reads_back(a: nat, b: nat)
    requires
        a <= usize::MAX,
        b <= usize::MAX,
    ensures
        number_pair(decimal(a) + seq![','] + decimal(b)) == Some((a, b)),
{
    let da = decimal(a);
    let db = decimal(b);
    lemma_decimal(a);
    lemma_decimal(b);
    lemma_digits_lack(da);
    lemma_digits_lack(db);
    let s = da + seq![','] + db;
    let p = seq![','];
    assert(s.subrange(da.len() as int, da.len() + 1int) == p);
    assert(s.take(da.len() as int) == da);
    lemma_find_first(s, p, 0, da.len() as int);
    let rest = s.subrange(da.len() + 1int, s.len() as int);
    assert(rest == db);
    lemma_find_absent(db, p, 0, 0);
    assert(s.subrange(0, da.len() as int) == da);
    assert(da[0] != '+');
    assert(db[0] != '+');
}

/// A click record reads back as the click and the cursor it records.
pub proof fn law_click_record_reads_back(x: u16, y: u16, row: usize, col: usize)
    ensures
        click_entry(click_record_spec(x, y, row, col)) == Some((x as nat, y as nat, row as nat, col as nat)),
{
    let dx = decimal(x as nat);
    let dy = decimal(y as nat);
    let dr = decimal(row as nat);
    let dc = decimal(col as nat);
    lemma_decimal(x as nat);
    lemma_decimal(y as nat);
    lemma_decimal(row as nat);
    lemma_decimal(col as nat);
    lemma_digits_lack(dx);
    lemma_digits_lack(dy);
    lemma_digits_lack(dr);
    lemma_digits_lack(dc);
    let click_word = "Click("@;
    let cursor_word = "Cursor("@;
    let close = ")"@;
    let sep = " → "@;
    reveal_strlit("Click(");
    reveal_strlit("Cursor(");
    reveal_strlit(")");
    reveal_strlit(" → ");
    reveal_strlit(") → Cursor(");
    let xy = dx + seq![','] + dy;
    let rc = dr + seq![','] + dc;
    let a = click_word + xy + close;
    let b = cursor_word + rc + close;
    let rec = click_record_spec(x, y, row, col);
    assert(rec == a + sep + b);
    let l = a.len() as int;
    assert(rec.subrange(l, l + 3) == sep);
    assert(lacks(rec.take(l + 1), '→')) by {
        assert forall|i: int| 0 <= i < rec.take(l + 1).len() implies #[trigger] rec.take(l + 1)[i] != '→' by {
            assert(rec.take(l + 1)[i] == rec[i]);
            if i < 6 {
                assert(rec[i] == click_word[i]);
            } else if i < 6 + xy.len() {
                assert(rec[i] == xy[i - 6]);
                if i - 6 < dx.len() {
                    assert(xy[i - 6] == dx[i - 6]);
                } else if i - 6 > dx.len() {
                    assert(xy[i - 6] == dy[i - 7 - dx.len()]);
                }
            }
        }
    }
    lemma_find_first(rec, sep, 1, l);
    let rest = rec.subrange(l + 3, rec.len() as int);
    assert(rest == b);
    assert(lacks(b, '→')) by {
        assert forall|i: int| 0 <= i < b.len() implies #[trigger] b[i] != '→' by {
            if i >= 7 && i < 7 + rc.len() {
                assert(b[i] == rc[i - 7]);
                if i - 7 < dr.len() {
                    assert(rc[i - 7] == dr[i - 7]);
                } else if i - 7 > dr.len() {
                    assert(rc[i - 7] == dc[i - 8 - dr.len()]);
                }
            }
        }
    }
    lemma_find_absent(b, sep, 1, 0);
    assert(rec.subrange(0, l) == a);
    assert(lacks(xy, 'C') && lacks(xy, ')')) by {
        assert forall|i: int| 0 <= i < xy.len() implies #[trigger] xy[i] != 'C' && xy[i] != ')' by {
            if i < dx.len() {
                assert(xy[i] == dx[i]);
            } else if i > dx.len() {
                assert(xy[i] == dy[i - 1 - dx.len()]);
            }
        }
    }
    assert(lacks(rc, 'C') && lacks(rc, ')')) by {
        assert forall|i: int| 0 <= i < rc.len() implies #[trigger] rc[i] != 'C' && rc[i] != ')' by {
            if i < dr.len() {
                assert(rc[i] == dr[i]);
            } else if i > dr.len() {
                assert(rc[i] == dc[i - 1 - dr.len()]);
            }
        }
    }
    assert(a == click_word + (xy + close));
    lemma_remove_lead(click_word, xy + close);
    lemma_remove_free(xy, click_word, close);
    assert(remove_all(close, click_word) == close) by {
        lemma_remove_free(close, click_word, Seq::empty());
        assert(close + Seq::<char>::empty() == close);
        assert(remove_all(Seq::<char>::empty(), click_word) == Seq::<char>::empty());
    }
    lemma_remove_free(xy, close, close);
    lemma_remove_lead(close, Seq::empty());
    assert(close + Seq::<char>::empty() == close);
    assert(xy + Seq::<char>::empty() == xy);
    assert(b == cursor_word + (rc + close));
    lemma_remove_lead(cursor_word, rc + close);
    lemma_remove_free(rc, cursor_word, close);
    assert(remove_all(close, cursor_word) == close) by {
        lemma_remove_free(close, cursor_word, Seq::empty());
        assert(close + Seq::<char>::empty() == close);
    }
    lemma_remove_free(rc, close, close);
    assert(rc + Seq::<char>::empty() == rc);
    lemma_pair_reads_back(x as nat, y as nat);
    lemma_pair_reads_back(row as nat, col as nat);
}

} // verus!
