//! Decklist parsing.
//!
//! A decklist is a UTF-8 text, one card per line.  A line is either
//! `<digit> <name> (<set>)` or `<digit> <name>`; anything else is skipped
//! with a warning.  The grammar is line-oriented and is defined here over
//! the raw bytes of the text, so that names may hold arbitrary UTF-8.

use vstd::prelude::*;

verus! {

/// One parsed decklist line: a card name and an optional set code.
pub struct DecklistEntry {
    pub name: Vec<u8>,
    pub set_code: Option<Vec<u8>>,
}

impl View for DecklistEntry {
    type V = (Seq<u8>, Option<Seq<u8>>);

    open spec fn view(&self) -> (Seq<u8>, Option<Seq<u8>>) {
        (
            self.name@,
            match self.set_code {
                Option::Some(ref v) => Option::Some(v@),
                Option::None => Option::None,
            },
        )
    }
}

/// ASCII decimal digit.
pub open spec fn is_digit(b: u8) -> bool {
    48 <= b <= 57
}

/// ASCII whitespace as trimmed from the ends of a captured card name.
pub open spec fn is_space(b: u8) -> bool {
    b == 32 || b == 9 || b == 10 || b == 11 || b == 12 || b == 13
}

/// ASCII letter or digit, the alphabet of a set code.
pub open spec fn is_alnum(b: u8) -> bool {
    is_digit(b) || (65 <= b <= 90) || (97 <= b <= 122)
}

/// A quantity prefix starts at `i`: a digit followed by a space.
pub open spec fn qty_at(s: Seq<u8>, i: int) -> bool {
    0 <= i && i + 1 < s.len() && is_digit(s[i]) && s[i + 1] == 32
}

/// `" ("` stands at position `j`.
pub open spec fn space_paren_at(s: Seq<u8>, j: int) -> bool {
    0 <= j && j + 1 < s.len() && s[j] == 32 && s[j + 1] == 40
}

/// The last `j < n` with `" ("` at `j`, if any.
pub open spec fn last_space_paren_before(s: Seq<u8>, n: int) -> Option<int>
    decreases n,
{
    if n <= 0 {
        Option::None
    } else if space_paren_at(s, n - 1) {
        Option::Some(n - 1)
    } else {
        last_space_paren_before(s, n - 1)
    }
}

/// The first `i >= n` with a quantity prefix at `i` and room for a
/// (possibly empty) name capture before position `bound`.
pub open spec fn first_qty_from(s: Seq<u8>, n: int, bound: int) -> Option<int>
    decreases s.len() - n,
{
    if n >= s.len() || n < 0 {
        Option::None
    } else if qty_at(s, n) && n + 2 <= bound {
        Option::Some(n)
    } else {
        first_qty_from(s, n + 1, bound)
    }
}

/// The end of the run of alphanumeric bytes that starts at `k`.
pub open spec fn alnum_run_end(s: Seq<u8>, k: int) -> int
    decreases s.len() - k,
{
    if k < 0 {
        k
    } else if k < s.len() && is_alnum(s[k]) {
        alnum_run_end(s, k + 1)
    } else {
        k
    }
}

/// A set code `(<alphanumerics>)` starts at `p`.
pub open spec fn set_code_at(s: Seq<u8>, p: int) -> bool {
    &&& 0 <= p < s.len()
    &&& s[p] == 40
    &&& alnum_run_end(s, p + 1) < s.len()
    &&& s[alnum_run_end(s, p + 1)] == 41
}

/// The first `p >= n` where a set code starts, if any.
pub open spec fn first_set_from(s: Seq<u8>, n: int) -> Option<int>
    decreases s.len() - n,
{
    if n >= s.len() || n < 0 {
        Option::None
    } else if set_code_at(s, n) {
        Option::Some(n)
    } else {
        first_set_from(s, n + 1)
    }
}

/// The set code captured from a line, if any.
pub open spec fn set_code_of(s: Seq<u8>) -> Option<Seq<u8>> {
    match first_set_from(s, 0) {
        Option::Some(p) => Option::Some(s.subrange(p + 1, alnum_run_end(s, p + 1))),
        Option::None => Option::None,
    }
}

/// A two-byte UTF-8 whitespace character: the next line or the
/// no-break space.
pub open spec fn is_space2(a: u8, b: u8) -> bool {
    a == 194 && (b == 133 || b == 160)
}

/// A three-byte UTF-8 whitespace character: the ogham space mark, the
/// typographic spaces, the line and paragraph separators, the narrow
/// and medium mathematical spaces, and the ideographic space.
pub open spec fn is_space3(a: u8, b: u8, c: u8) -> bool {
    ||| (a == 225 && b == 154 && c == 128)
    ||| (a == 226 && b == 128 && (128 <= c <= 138 || c == 168 || c == 169 || c == 175))
    ||| (a == 226 && b == 129 && c == 159)
    ||| (a == 227 && b == 128 && c == 128)
}

/// The byte length of the UTF-8 whitespace character that ends `s`,
/// or zero when `s` ends with something else.  At most one of the
/// encodings can end a byte string, so the order of the tests does
/// not matter.
pub open spec fn ws_len_at_end(s: Seq<u8>) -> int {
    if s.len() >= 3 && is_space3(s[s.len() - 3], s[s.len() - 2], s[s.len() - 1]) {
        3
    } else if s.len() >= 2 && is_space2(s[s.len() - 2], s[s.len() - 1]) {
        2
    } else if s.len() >= 1 && is_space(s[s.len() - 1]) {
        1
    } else {
        0
    }
}

/// The byte length of the UTF-8 whitespace character that starts `s`,
/// or zero when `s` starts with something else.
pub open spec fn ws_len_at_start(s: Seq<u8>) -> int {
    if s.len() >= 3 && is_space3(s[0], s[1], s[2]) {
        3
    } else if s.len() >= 2 && is_space2(s[0], s[1]) {
        2
    } else if s.len() >= 1 && is_space(s[0]) {
        1
    } else {
        0
    }
}

/// `s` with trailing whitespace characters removed.
pub open spec fn trim_end(s: Seq<u8>) -> Seq<u8>
    decreases s.len(),
{
    if ws_len_at_end(s) > 0 {
        trim_end(s.subrange(0, s.len() - ws_len_at_end(s)))
    } else {
        s
    }
}

/// `s` with leading whitespace characters removed.
pub open spec fn trim_start(s: Seq<u8>) -> Seq<u8>
    decreases s.len(),
{
    if ws_len_at_start(s) > 0 {
        trim_start(s.subrange(ws_len_at_start(s), s.len() as int))
    } else {
        s
    }
}

/// `s` with surrounding whitespace removed: the whitespace characters
/// of the text encoding, as written in UTF-8.
pub open spec fn trim(s: Seq<u8>) -> Seq<u8> {
    trim_start(trim_end(s))
}

/// Whether the line holds a `(` anywhere.
pub open spec fn has_open_paren(s: Seq<u8>) -> bool {
    exists|i: int| 0 <= i < s.len() && s[i] == 40
}

/// What one line parses to: the trimmed captured name and the set code,
/// or nothing when the line matches neither line pattern.
///
/// A line holding a `(` must match `digit SPACE name SPACE (`, the name
/// capture being greedy, so it runs to the last `" ("` of the line; the
/// set code is the first `(<alphanumerics>)` of the line.  A line with
/// no `(` must match `digit SPACE rest-of-line`.
pub open spec fn line_entry(s: Seq<u8>) -> Option<(Seq<u8>, Option<Seq<u8>>)> {
    if has_open_paren(s) {
        match last_space_paren_before(s, s.len() as int) {
            Option::Some(j) => match first_qty_from(s, 0, j) {
                Option::Some(i) => Option::Some((trim(s.subrange(i + 2, j)), set_code_of(s))),
                Option::None => Option::None,
            },
            Option::None => Option::None,
        }
    } else {
        match first_qty_from(s, 0, s.len() as int) {
            Option::Some(i) => Option::Some(
                (trim(s.subrange(i + 2, s.len() as int)), set_code_of(s)),
            ),
            Option::None => Option::None,
        }
    }
}

/// Copies `v[from..to]` into a fresh vector.
pub fn copy_range(v: &Vec<u8>, from: usize, to: usize) -> (r: Vec<u8>)
    requires
        from <= to <= v@.len(),
    ensures
        r@ == v@.subrange(from as int, to as int),
{
    let mut r: Vec<u8> = Vec::new();
    let mut k: usize = from;
    while k < to
        invariant
            from <= k <= to <= v@.len(),
            r@ == v@.subrange(from as int, k as int),
        decreases to - k,
    {
        r.push(v[k]);
        assert(v@.subrange(from as int, (k + 1) as int) == v@.subrange(
            from as int,
            k as int,
        ).push(v@[k as int]));
        k = k + 1;
    }
    r
}

fn is_digit_exec(b: u8) -> (r: bool)
    ensures
        r == is_digit(b),
{
    48 <= b && b <= 57
}

fn is_space_exec(b: u8) -> (r: bool)
    ensures
        r == is_space(b),
{
    b == 32 || b == 9 || b == 10 || b == 11 || b == 12 || b == 13
}

fn is_alnum_exec(b: u8) -> (r: bool)
    ensures
        r == is_alnum(b),
{
    (48 <= b && b <= 57) || (65 <= b && b <= 90) || (97 <= b && b <= 122)
}

fn find_last_space_paren(s: &Vec<u8>) -> (r: Option<usize>)
    ensures
        match r {
            Option::Some(j) => last_space_paren_before(s@, s@.len() as int) == Option::Some(
                j as int,
            ) && space_paren_at(s@, j as int),
            Option::None => last_space_paren_before(s@, s@.len() as int) is None,
        },
{
    let mut n: usize = s.len();
    while n > 0
        invariant
            n <= s@.len(),
            last_space_paren_before(s@, s@.len() as int) == last_space_paren_before(s@, n as int),
        decreases n,
    {
        n = n - 1;
        if n + 1 < s.len() && s[n] == 32 && s[n + 1] == 40 {
            return Some(n);
        }
    }
    None
}

fn find_first_qty(s: &Vec<u8>, bound: usize) -> (r: Option<usize>)
    requires
        bound <= s@.len(),
    ensures
        match r {
            Option::Some(i) => first_qty_from(s@, 0, bound as int) == Option::Some(i as int)
                && qty_at(s@, i as int) && i + 2 <= bound,
            Option::None => first_qty_from(s@, 0, bound as int) is None,
        },
{
    let mut n: usize = 0;
    while n < s.len()
        invariant
            n <= s@.len(),
            bound <= s@.len(),
            first_qty_from(s@, 0, bound as int) == first_qty_from(s@, n as int, bound as int),
        decreases s@.len() - n,
    {
        if n + 1 < s.len() && is_digit_exec(s[n]) && s[n + 1] == 32 && n + 2 <= bound {
            return Some(n);
        }
        n = n + 1;
    }
    None
}

fn find_alnum_run_end(s: &Vec<u8>, k: usize) -> (r: usize)
    requires
        k <= s@.len(),
    ensures
        r == alnum_run_end(s@, k as int),
        k <= r <= s@.len(),
{
    let mut q: usize = k;
    while q < s.len() && is_alnum_exec(s[q])
        invariant
            k <= q <= s@.len(),
            alnum_run_end(s@, k as int) == alnum_run_end(s@, q as int),
        decreases s@.len() - q,
    {
        q = q + 1;
    }
    q
}

fn find_set_code(s: &Vec<u8>) -> (r: Option<Vec<u8>>)
    ensures
        match r {
            Option::Some(ref c) => set_code_of(s@) == Option::Some(c@),
            Option::None => set_code_of(s@) is None,
        },
{
    let mut n: usize = 0;
    while n < s.len()
        invariant
            n <= s@.len(),
            first_set_from(s@, 0) == first_set_from(s@, n as int),
        decreases s@.len() - n,
    {
        if s[n] == 40 {
            let q = find_alnum_run_end(s, n + 1);
            if q < s.len() && s[q] == 41 {
                return Some(copy_range(s, n + 1, q));
            }
        }
        n = n + 1;
    }
    None
}

fn is_space2_exec(a: u8, b: u8) -> (r: bool)
    ensures
        r == is_space2(a, b),
{
    a == 194 && (b == 133 || b == 160)
}

fn is_space3_exec(a: u8, b: u8, c: u8) -> (r: bool)
    ensures
        r == is_space3(a, b, c),
{
    (a == 225 && b == 154 && c == 128) || (a == 226 && b == 128 && ((128 <= c && c <= 138) || c
        == 168 || c == 169 || c == 175)) || (a == 226 && b == 129 && c == 159) || (a == 227 && b
        == 128 && c == 128)
}

/// Trims surrounding whitespace characters from `v[from..to]`.
fn trimmed_range(v: &Vec<u8>, from: usize, to: usize) -> (r: Vec<u8>)
    requires
        from <= to <= v@.len(),
    ensures
        r@ == trim(v@.subrange(from as int, to as int)),
{
    let ghost orig: Seq<u8> = v@.subrange(from as int, to as int);
    let mut hi: usize = to;
    let mut end_done = false;
    while !end_done
        invariant
            from <= hi <= to <= v@.len(),
            trim_end(orig) == trim_end(v@.subrange(from as int, hi as int)),
            end_done ==> ws_len_at_end(v@.subrange(from as int, hi as int)) == 0,
        decreases 2 * hi + (if end_done { 0int } else { 1int }),
    {
        let ghost cur: Seq<u8> = v@.subrange(from as int, hi as int);
        let len: usize = hi - from;
        let k: usize = if len >= 3 && is_space3_exec(v[hi - 3], v[hi - 2], v[hi - 1]) {
            3
        } else if len >= 2 && is_space2_exec(v[hi - 2], v[hi - 1]) {
            2
        } else if len >= 1 && is_space_exec(v[hi - 1]) {
            1
        } else {
            0
        };
        proof {
            if len >= 1 {
                assert(cur[cur.len() - 1] == v@[hi - 1]);
            }
            if len >= 2 {
                assert(cur[cur.len() - 2] == v@[hi - 2]);
            }
            if len >= 3 {
                assert(cur[cur.len() - 3] == v@[hi - 3]);
            }
            assert(ws_len_at_end(cur) == k);
        }
        if k == 0 {
            end_done = true;
        } else {
            assert(cur.subrange(0, cur.len() - k) =~= v@.subrange(from as int, (hi - k) as int));
            hi = hi - k;
        }
    }
    assert(trim_end(orig) == v@.subrange(from as int, hi as int));
    let mut lo: usize = from;
    let mut start_done = false;
    while !start_done
        invariant
            from <= lo <= hi <= v@.len(),
            trim_end(orig) == v@.subrange(from as int, hi as int),
            trim_start(trim_end(orig)) == trim_start(v@.subrange(lo as int, hi as int)),
            start_done ==> ws_len_at_start(v@.subrange(lo as int, hi as int)) == 0,
        decreases 2 * (hi - lo) + (if start_done { 0int } else { 1int }),
    {
        let ghost cur: Seq<u8> = v@.subrange(lo as int, hi as int);
        let len: usize = hi - lo;
        let k: usize = if len >= 3 && is_space3_exec(v[lo], v[lo + 1], v[lo + 2]) {
            3
        } else if len >= 2 && is_space2_exec(v[lo], v[lo + 1]) {
            2
        } else if len >= 1 && is_space_exec(v[lo]) {
            1
        } else {
            0
        };
        proof {
            if len >= 1 {
                assert(cur[0] == v@[lo as int]);
            }
            if len >= 2 {
                assert(cur[1] == v@[lo + 1]);
            }
            if len >= 3 {
                assert(cur[2] == v@[lo + 2]);
            }
            assert(ws_len_at_start(cur) == k);
        }
        if k == 0 {
            start_done = true;
        } else {
            assert(cur.subrange(k as int, cur.len() as int) =~= v@.subrange(
                (lo + k) as int,
                hi as int,
            ));
            lo = lo + k;
        }
    }
    assert(trim(orig) == v@.subrange(lo as int, hi as int));
    copy_range(v, lo, hi)
}

/// The first `k >= n` with a line feed at `k`, if any.
pub open spec fn first_newline_from(t: Seq<u8>, n: int) -> Option<int>
    decreases t.len() - n,
{
    if n >= t.len() || n < 0 {
        Option::None
    } else if t[n] == 10 {
        Option::Some(n)
    } else {
        first_newline_from(t, n + 1)
    }
}

/// A line as handed to the parser: without a trailing carriage return.
pub open spec fn strip_cr(s: Seq<u8>) -> Seq<u8> {
    if s.len() > 0 && s[s.len() - 1] == 13 {
        s.drop_last()
    } else {
        s
    }
}

/// A found line feed lies between `n` and the end of the text.
pub proof fn lemma_first_newline_bounds(t: Seq<u8>, n: int)
    ensures
        match first_newline_from(t, n) {
            Option::Some(k) => n <= k < t.len() && t[k] == 10,
            Option::None => true,
        },
    decreases t.len() - n,
{
    if 0 <= n < t.len() && t[n] != 10 {
        lemma_first_newline_bounds(t, n + 1);
    }
}

/// The lines of `t` from position `n` on, split at line feeds, each
/// without its line ending.  A trailing line feed opens no empty line.
pub open spec fn lines_from(t: Seq<u8>, n: int) -> Seq<Seq<u8>>
    decreases t.len() - n,
    via lines_from_decreases
{
    if n >= t.len() || n < 0 {
        Seq::empty()
    } else {
        match first_newline_from(t, n) {
            Option::Some(k) => seq![strip_cr(t.subrange(n, k))] + lines_from(t, k + 1),
            Option::None => seq![strip_cr(t.subrange(n, t.len() as int))],
        }
    }
}

#[via_fn]
proof fn lines_from_decreases(t: Seq<u8>, n: int) {
    lemma_first_newline_bounds(t, n);
}

/// The lines of a decklist text.
pub open spec fn lines_of(t: Seq<u8>) -> Seq<Seq<u8>> {
    lines_from(t, 0)
}

/// The entries of the lines that match a line pattern, in line order.
pub open spec fn entries_of(ls: Seq<Seq<u8>>) -> Seq<(Seq<u8>, Option<Seq<u8>>)>
    decreases ls.len(),
{
    if ls.len() == 0 {
        Seq::empty()
    } else {
        match line_entry(ls.last()) {
            Option::Some(e) => entries_of(ls.drop_last()).push(e),
            Option::None => entries_of(ls.drop_last()),
        }
    }
}

/// The trimmed lines that match neither pattern, in line order.
pub open spec fn skipped_of(ls: Seq<Seq<u8>>) -> Seq<Seq<u8>>
    decreases ls.len(),
{
    if ls.len() == 0 {
        Seq::empty()
    } else {
        match line_entry(ls.last()) {
            Option::Some(e) => skipped_of(ls.drop_last()),
            Option::None => skipped_of(ls.drop_last()).push(trim(ls.last())),
        }
    }
}

/// Every line either yields an entry or is skipped: the entry count plus
/// the skipped count equals the line count.
pub proof fn lemma_entry_counts(ls: Seq<Seq<u8>>)
    ensures
        entries_of(ls).len() + skipped_of(ls).len() == ls.len(),
    decreases ls.len(),
{
    if ls.len() > 0 {
        lemma_entry_counts(ls.drop_last());
    }
}

/// Splits a decklist text into its lines.
pub fn split_lines(text: &Vec<u8>) -> (r: Vec<Vec<u8>>)
    ensures
        r@.map_values(|l: Vec<u8>| l@) == lines_of(text@),
{
    let mut out: Vec<Vec<u8>> = Vec::new();
    let mut pos: usize = 0;
    while pos < text.len()
        invariant
            pos <= text@.len(),
            lines_of(text@) == out@.map_values(|l: Vec<u8>| l@) + lines_from(text@, pos as int),
        decreases text@.len() - pos,
    {
        let ghost start: int = pos as int;
        let mut k: usize = pos;
        while k < text.len() && text[k] != 10
            invariant
                pos <= k <= text@.len(),
                first_newline_from(text@, pos as int) == first_newline_from(text@, k as int),
            decreases text@.len() - k,
        {
            k = k + 1;
        }
        let end: usize = if k > pos && text[k - 1] == 13 {
            k - 1
        } else {
            k
        };
        assert(strip_cr(text@.subrange(start, k as int)) == text@.subrange(start, end as int)) by {
            if k > pos && text@[k - 1] == 13 {
                assert(text@.subrange(start, k as int).drop_last() == text@.subrange(
                    start,
                    (k - 1) as int,
                ));
            }
        }
        let line = copy_range(text, pos, end);
        proof {
            let f = |l: Vec<u8>| l@;
            assert(out@.push(line).map_values(f) =~= out@.map_values(f).push(line@));
        }
        out.push(line);
        if k < text.len() {
            pos = k + 1;
        } else {
            pos = k;
            assert(lines_from(text@, k as int) =~= Seq::<Seq<u8>>::empty());
        }
    }
    assert(lines_from(text@, pos as int) =~= Seq::<Seq<u8>>::empty());
    assert(lines_of(text@) =~= out@.map_values(|l: Vec<u8>| l@));
    out
}

/// Parses a whole decklist text.  Yields the entries of the matching
/// lines in line order, and the trimmed text of every skipped line, so
/// that a caller can warn about each.  No line aborts parsing, and a
/// name appearing on two lines yields two entries.
pub fn parse_decklist(text: &Vec<u8>) -> (r: (Vec<DecklistEntry>, Vec<Vec<u8>>))
    ensures
        r.0@.map_values(|e: DecklistEntry| e@) == entries_of(lines_of(text@)),
        r.1@.map_values(|l: Vec<u8>| l@) == skipped_of(lines_of(text@)),
        r.0@.len() + r.1@.len() == lines_of(text@).len(),
{
    let lines = split_lines(text);
    let ghost ls: Seq<Seq<u8>> = lines@.map_values(|l: Vec<u8>| l@);
    let mut entries: Vec<DecklistEntry> = Vec::new();
    let mut skipped: Vec<Vec<u8>> = Vec::new();
    let mut idx: usize = 0;
    while idx < lines.len()
        invariant
            idx <= lines@.len(),
            ls == lines@.map_values(|l: Vec<u8>| l@),
            entries@.map_values(|e: DecklistEntry| e@) == entries_of(ls.subrange(0, idx as int)),
            skipped@.map_values(|l: Vec<u8>| l@) == skipped_of(ls.subrange(0, idx as int)),
        decreases lines@.len() - idx,
    {
        assert(ls.subrange(0, (idx + 1) as int).drop_last() == ls.subrange(0, idx as int));
        assert(ls.subrange(0, (idx + 1) as int).last() == lines@[idx as int]@);
        match parse_line(&lines[idx]) {
            Option::Some(e) => {
                proof {
                    let f = |x: DecklistEntry| x@;
                    assert(entries@.push(e).map_values(f) =~= entries@.map_values(f).push(e@));
                }
                entries.push(e);
            },
            Option::None => {
                let t = trimmed_range(&lines[idx], 0, lines[idx].len());
                assert(lines@[idx as int]@.subrange(0, lines@[idx as int]@.len() as int)
                    =~= lines@[idx as int]@);
                proof {
                    let f = |l: Vec<u8>| l@;
                    assert(skipped@.push(t).map_values(f) =~= skipped@.map_values(f).push(t@));
                }
                skipped.push(t);
            },
        }
        idx = idx + 1;
    }
    assert(ls.subrange(0, ls.len() as int) =~= ls);
    proof {
        lemma_entry_counts(ls);
    }
    (entries, skipped)
}

/// Parses one decklist line.  Yields the entry for a line matching one of
/// the two line patterns, and nothing for a line matching neither.
pub fn parse_line(line: &Vec<u8>) -> (r: Option<DecklistEntry>)
    ensures
        match r {
            Option::Some(e) => line_entry(line@) == Option::Some(e@),
            Option::None => line_entry(line@) is None,
        },
{
    let mut has_paren = false;
    let mut k: usize = 0;
    while k < line.len()
        invariant
            k <= line@.len(),
            has_paren == exists|i: int| 0 <= i < k && line@[i] == 40,
        decreases line@.len() - k,
    {
        if line[k] == 40 {
            has_paren = true;
        }
        k = k + 1;
    }
    assert(has_paren == has_open_paren(line@));
    if has_paren {
        match find_last_space_paren(line) {
            Option::Some(j) => match find_first_qty(line, j) {
                Option::Some(i) => {
                    let name = trimmed_range(line, i + 2, j);
                    let set_code = find_set_code(line);
                    Some(DecklistEntry { name, set_code })
                },
                Option::None => None,
            },
            Option::None => None,
        }
    } else {
        match find_first_qty(line, line.len()) {
            Option::Some(i) => {
                let name = trimmed_range(line, i + 2, line.len());
                let set_code = find_set_code(line);
                Some(DecklistEntry { name, set_code })
            },
            Option::None => None,
        }
    }
}

} // verus!
