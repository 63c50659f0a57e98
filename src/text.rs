//! Character-level helpers over string views: locating a pattern, splitting
//! on a separator and trimming a repeated character.
use vstd::prelude::*;

verus! {

/// `p` occurs in `s` starting at index `i`.
pub open spec fn occurs_at(s: Seq<char>, p: Seq<char>, i: int) -> bool {
    0 <= i && i + p.len() <= s.len() && s.subrange(i, i + p.len()) == p
}

/// The first index at or after `i` where `p` occurs in `s`, or `s.len()` when
/// there is none.
pub open spec fn find_from(s: Seq<char>, p: Seq<char>, i: int) -> int
    decreases s.len() - i,
{
    if i < 0 || i >= s.len() || i + p.len() > s.len() {
        s.len() as int
    } else if occurs_at(s, p, i) {
        i
    } else {
        find_from(s, p, i + 1)
    }
}

/// The tokens of `s` between non-overlapping occurrences of `p`, scanning from
/// index `i` with the current token starting at `tok`.
pub open spec fn split_scan(s: Seq<char>, p: Seq<char>, tok: int, i: int) -> Seq<Seq<char>>
    decreases s.len() - i,
{
    if p.len() == 0 || i < 0 || i >= s.len() || i + p.len() > s.len() {
        seq![s.subrange(tok, s.len() as int)]
    } else if occurs_at(s, p, i) {
        seq![s.subrange(tok, i)] + split_scan(s, p, i + p.len(), i + p.len())
    } else {
        split_scan(s, p, tok, i + 1)
    }
}

/// `s` split on every non-overlapping occurrence of `p`, left to right.
pub open spec fn split_on(s: Seq<char>, p: Seq<char>) -> Seq<Seq<char>> {
    split_scan(s, p, 0, 0)
}

/// The part of `s` before the first occurrence of `c` (all of `s` when `c`
/// does not occur).
pub open spec fn before_char(s: Seq<char>, c: char) -> Seq<char> {
    s.subrange(0, find_from(s, seq![c], 0))
}

/// The part of `s` after the first occurrence of `p`, or `s` itself when `p`
/// does not occur.
pub open spec fn after_first(s: Seq<char>, p: Seq<char>) -> Seq<char> {
    let j = find_from(s, p, 0);
    if j < s.len() {
        s.subrange(j + p.len(), s.len() as int)
    } else {
        s
    }
}

/// The first index at or after `i` that does not hold `c`.
pub open spec fn skip_from(s: Seq<char>, c: char, i: int) -> int
    decreases s.len() - i,
{
    if 0 <= i < s.len() && s[i] == c {
        skip_from(s, c, i + 1)
    } else {
        i
    }
}

/// Moving back from `j` towards `lo`, the end of `s` once trailing `c`s are
/// dropped.
pub open spec fn back_from(s: Seq<char>, c: char, lo: int, j: int) -> int
    decreases j - lo,
{
    if lo < j && j <= s.len() && s[j - 1] == c {
        back_from(s, c, lo, j - 1)
    } else {
        j
    }
}

/// `s` without its leading `c`s.
pub open spec fn trim_start(s: Seq<char>, c: char) -> Seq<char> {
    s.subrange(skip_from(s, c, 0), s.len() as int)
}

/// `s` without its trailing `c`s.
pub open spec fn trim_end(s: Seq<char>, c: char) -> Seq<char> {
    s.subrange(0, back_from(s, c, 0, s.len() as int))
}

/// `s` without its leading and trailing `c`s.
pub open spec fn trim_both(s: Seq<char>, c: char) -> Seq<char> {
    trim_end(trim_start(s, c), c)
}

/// The characters with the Unicode White_Space property.
pub open spec fn is_white_space(c: char) -> bool {
    let u = c as u32;
    (0x9 <= u && u <= 0xD) || u == 0x20 || u == 0x85 || u == 0xA0 || u == 0x1680 || (0x2000 <= u
        && u <= 0x200A) || u == 0x2028 || u == 0x2029 || u == 0x202F || u == 0x205F || u == 0x3000
}

/// The first index at or after `i` that is not white space.
pub open spec fn skip_white_from(s: Seq<char>, i: int) -> int
    decreases s.len() - i,
{
    if 0 <= i < s.len() && is_white_space(s[i]) {
        skip_white_from(s, i + 1)
    } else {
        i
    }
}

/// Moving back from `j` towards `lo`, the end of `s` once trailing white space
/// is dropped.
pub open spec fn back_white_from(s: Seq<char>, lo: int, j: int) -> int
    decreases j - lo,
{
    if lo < j && j <= s.len() && is_white_space(s[j - 1]) {
        back_white_from(s, lo, j - 1)
    } else {
        j
    }
}

/// `s` without its leading and trailing white space.
pub open spec fn trim_white(s: Seq<char>) -> Seq<char> {
    let a = skip_white_from(s, 0);
    s.subrange(a, back_white_from(s, a, s.len() as int))
}

proof fn lemma_find_from_bounds(s: Seq<char>, p: Seq<char>, i: int)
    requires
        0 <= i <= s.len(),
    ensures
        i <= find_from(s, p, i) <= s.len(),
        find_from(s, p, i) < s.len() ==> occurs_at(s, p, find_from(s, p, i)),
    decreases s.len() - i,
{
    if i < 0 || i >= s.len() || i + p.len() > s.len() {
    } else if occurs_at(s, p, i) {
    } else {
        lemma_find_from_bounds(s, p, i + 1);
    }
}

/// Whether `p` occurs in `s` at index `i`.
fn matches_at(s: &str, p: &str, i: usize) -> (r: bool)
    requires
        i <= s@.len(),
    ensures
        r == occurs_at(s@, p@, i as int),
{
    let n = s.unicode_len();
    let m = p.unicode_len();
    if m > n - i {
        return false;
    }
    let mut k: usize = 0;
    while k < m
        invariant
            i + m <= n,
            n == s@.len(),
            m == p@.len(),
            k <= m,
            forall|t: int| 0 <= t < k ==> s@[i + t] == p@[t],
        decreases m - k,
    {
        if s.get_char(i + k) != p.get_char(k) {
            assert(s@.subrange(i as int, i + m)[k as int] != p@[k as int]);
            return false;
        }
        k = k + 1;
    }
    assert(s@.subrange(i as int, i + m) =~= p@);
    true
}

/// The first index where `p` occurs in `s`, or the length of `s`.
pub fn find_first(s: &str, p: &str) -> (r: usize)
    ensures
        r == find_from(s@, p@, 0),
{
    let n = s.unicode_len();
    let m = p.unicode_len();
    let mut i: usize = 0;
    while i < n && m <= n - i
        invariant
            n == s@.len(),
            m == p@.len(),
            i <= n,
            find_from(s@, p@, i as int) == find_from(s@, p@, 0),
        decreases n - i,
    {
        if matches_at(s, p, i) {
            return i;
        }
        i = i + 1;
    }
    n
}

/// `s` split on every occurrence of the non-empty separator `p`.
pub fn split_by(s: &str, p: &str) -> (r: Vec<String>)
    requires
        p@.len() > 0,
    ensures
        r.deep_view() == split_on(s@, p@),
{
    let n = s.unicode_len();
    let m = p.unicode_len();
    let mut out: Vec<String> = Vec::new();
    let mut tok: usize = 0;
    let mut i: usize = 0;
    while i < n && m <= n - i
        invariant
            n == s@.len(),
            m == p@.len(),
            m > 0,
            tok <= i <= n,
            out.deep_view() + split_scan(s@, p@, tok as int, i as int) == split_on(s@, p@),
        decreases n - i,
    {
        if matches_at(s, p, i) {
            let piece = s.substring_char(tok, i).to_owned();
            let ghost before = out.deep_view();
            out.push(piece);
            assert(out.deep_view() =~= before + seq![s@.subrange(tok as int, i as int)]);
            i = i + m;
            tok = i;
        } else {
            i = i + 1;
        }
    }
    let last = s.substring_char(tok, n).to_owned();
    let ghost before = out.deep_view();
    out.push(last);
    assert(out.deep_view() =~= before + seq![s@.subrange(tok as int, n as int)]);
    out
}

/// The part of `s` before the first `c`.
pub fn prefix_before(s: &str, c: char) -> (r: String)
    ensures
        r@ == before_char(s@, c),
{
    let n = s.unicode_len();
    let mut i: usize = 0;
    while i < n && s.get_char(i) != c
        invariant
            n == s@.len(),
            i <= n,
            find_from(s@, seq![c], i as int) == find_from(s@, seq![c], 0),
        decreases n - i,
    {
        assert(s@.subrange(i as int, i + 1)[0] == s@[i as int]);
        i = i + 1;
    }
    if i < n {
        assert(s@.subrange(i as int, i + 1) =~= seq![c]);
    }
    s.substring_char(0, i).to_owned()
}

/// The part of `s` after the first occurrence of `p`, or `s` itself.
pub fn suffix_after(s: &str, p: &str) -> (r: String)
    ensures
        r@ == after_first(s@, p@),
{
    let n = s.unicode_len();
    let j = find_first(s, p);
    proof {
        lemma_find_from_bounds(s@, p@, 0);
    }
    if j < n {
        s.substring_char(j + p.unicode_len(), n).to_owned()
    } else {
        s.to_owned()
    }
}

/// `s` without its leading and trailing `c`s.
pub fn trim_char(s: &str, c: char) -> (r: String)
    ensures
        r@ == trim_both(s@, c),
{
    let t = trim_start_char(s, c);
    trim_end_char(t.as_str(), c)
}

/// `s` without its leading `c`s.
pub fn trim_start_char(s: &str, c: char) -> (r: String)
    ensures
        r@ == trim_start(s@, c),
{
    let n = s.unicode_len();
    let mut i: usize = 0;
    while i < n && s.get_char(i) == c
        invariant
            n == s@.len(),
            i <= n,
            skip_from(s@, c, i as int) == skip_from(s@, c, 0),
        decreases n - i,
    {
        i = i + 1;
    }
    s.substring_char(i, n).to_owned()
}

/// `s` without its trailing `c`s.
pub fn trim_end_char(s: &str, c: char) -> (r: String)
    ensures
        r@ == trim_end(s@, c),
{
    let n = s.unicode_len();
    let mut j: usize = n;
    while j > 0 && s.get_char(j - 1) == c
        invariant
            n == s@.len(),
            j <= n,
            back_from(s@, c, 0, j as int) == back_from(s@, c, 0, n as int),
        decreases j,
    {
        j = j - 1;
    }
    s.substring_char(0, j).to_owned()
}

/// Whether two strings hold the same characters.
pub fn same_text(a: &str, b: &str) -> (r: bool)
    ensures
        r == (a@ == b@),
{
    let n = a.unicode_len();
    if n != b.unicode_len() {
        return false;
    }
    let mut i: usize = 0;
    while i < n
        invariant
            n == a@.len(),
            n == b@.len(),
            i <= n,
            forall|t: int| 0 <= t < i ==> a@[t] == b@[t],
        decreases n - i,
    {
        if a.get_char(i) != b.get_char(i) {
            return false;
        }
        i = i + 1;
    }
    assert(a@ =~= b@);
    true
}

} // verus!
