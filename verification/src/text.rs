//! Character-level helpers shared by the parsers.
use vstd::prelude::*;
use vstd::utf8::is_ascii_chars;
use crate::charclass::{ascii_lower, ascii_lower_code, is_white_space, white_space};

verus! {

/// Collects the characters of a string slice into a vector.
pub fn chars_of(s: &str) -> (r: Vec<char>)
    ensures
        r@ == s@,
{
    let mut r: Vec<char> = Vec::new();
    for c in it: s.chars()
        invariant
            r@ == it.seq().take(it.index() as int),
            it.seq() == s@,
    {
        r.push(c);
    }
    r
}

/// Whether the characters `s[a..b]` spell out `w`.
pub fn chars_equal(s: &Vec<char>, a: usize, b: usize, w: &[char]) -> (r: bool)
    requires
        a <= b <= s@.len(),
    ensures
        r == (s@.subrange(a as int, b as int) == w@),
{
    if b - a != w.len() {
        return false;
    }
    let mut k: usize = 0;
    while k < w.len()
        invariant
            a <= b <= s@.len(),
            b - a == w@.len(),
            k <= w@.len(),
            forall|j: int| 0 <= j < k ==> s@[a + j] == w@[j],
        decreases w@.len() - k,
    {
        if s[a + k] != w[k] {
            assert(s@.subrange(a as int, b as int)[k as int] != w@[k as int]);
            return false;
        }
        k = k + 1;
    }
    assert(s@.subrange(a as int, b as int) =~= w@);
    true
}

/// `c.to_ascii_lowercase()`
pub open spec fn lower_ascii_char(c: char) -> char {
    if 'A' <= c && c <= 'Z' {
        (c as u32 + 32) as char
    } else {
        c
    }
}

/// `s` with its ASCII upper-case letters lower-cased.
pub open spec fn ascii_lowercase(s: Seq<char>) -> Seq<char> {
    Seq::new(s.len(), |k: int| lower_ascii_char(s[k]))
}

/// What `str::to_lowercase` returns for the characters `s`: the Unicode
/// lower-case mapping of every character, with context-dependent final sigma.
pub uninterp spec fn lowercased(s: Seq<char>) -> Seq<char>;

/// Trusted: calls `str::to_lowercase`. Its result depends on the characters
/// of `s` alone (Unicode case tables, no locale); the contract names it, and
/// states the one plain fact that std's ASCII path shows: an ASCII string is
/// lower-cased character by character with `to_ascii_lowercase`. What non-ASCII
/// characters become is left unsaid.
#[verifier::external_body]
pub(crate) fn to_lowercase(s: &str) -> (r: String)
    ensures
        r@ == lowercased(s@),
        is_ascii_chars(s@) ==> r@ == ascii_lowercase(s@),
{
    s.to_lowercase()
}

/// Copies the characters `s[a..b]` into a new vector.
pub fn copy_range(s: &Vec<char>, a: usize, b: usize) -> (r: Vec<char>)
    requires
        a <= b <= s@.len(),
    ensures
        r@ == s@.subrange(a as int, b as int),
{
    let mut r: Vec<char> = Vec::new();
    let mut k: usize = a;
    while k < b
        invariant
            a <= k <= b <= s@.len(),
            r@ == s@.subrange(a as int, k as int),
        decreases b - k,
    {
        r.push(s[k]);
        k = k + 1;
    }
    r
}

/// Index of the first character at or after `a` that is not white space.
pub open spec fn trim_start_index(s: Seq<char>, a: int) -> int
    decreases s.len() - a,
{
    if 0 <= a < s.len() && is_white_space(s[a]) {
        trim_start_index(s, a + 1)
    } else {
        a
    }
}

/// One past the last character before `b` (and not before `a`) that is not white space.
pub open spec fn trim_end_index(s: Seq<char>, a: int, b: int) -> int
    decreases b - a,
{
    if a < b && is_white_space(s[b - 1]) {
        trim_end_index(s, a, b - 1)
    } else {
        b
    }
}

/// `str::trim`: `s` without leading and trailing Unicode white space.
pub open spec fn trimmed(s: Seq<char>) -> Seq<char> {
    let a = trim_start_index(s, 0);
    s.subrange(a, trim_end_index(s, a, s.len() as int))
}

/// The bounds of [`trimmed`] within `s`.
pub fn trim_range(s: &Vec<char>) -> (r: (usize, usize))
    ensures
        r.0 <= r.1 <= s@.len(),
        trimmed(s@) == s@.subrange(r.0 as int, r.1 as int),
{
    let mut a: usize = 0;
    while a < s.len() && white_space(s[a])
        invariant
            a <= s@.len(),
            trim_start_index(s@, 0) == trim_start_index(s@, a as int),
        decreases s@.len() - a,
    {
        a = a + 1;
    }
    let mut b: usize = s.len();
    while b > a && white_space(s[b - 1])
        invariant
            a <= b <= s@.len(),
            a == trim_start_index(s@, 0),
            trim_end_index(s@, a as int, s@.len() as int) == trim_end_index(s@, a as int, b as int),
        decreases b,
    {
        b = b - 1;
    }
    (a, b)
}

/// `t` with every `-` removed (`str::replace('-', "")`).
pub open spec fn without_dashes(t: Seq<char>) -> Seq<char>
    decreases t.len(),
{
    if t.len() == 0 {
        t
    } else if t.last() == '-' {
        without_dashes(t.drop_last())
    } else {
        without_dashes(t.drop_last()).push(t.last())
    }
}

/// Executable form of [`without_dashes`].
pub fn remove_dashes(t: &Vec<char>) -> (r: Vec<char>)
    ensures
        r@ == without_dashes(t@),
{
    let mut r: Vec<char> = Vec::new();
    let mut k: usize = 0;
    while k < t.len()
        invariant
            k <= t@.len(),
            r@ == without_dashes(t@.take(k as int)),
        decreases t@.len() - k,
    {
        assert(t@.take(k + 1).drop_last() =~= t@.take(k as int));
        if t[k] != '-' {
            r.push(t[k]);
        }
        k = k + 1;
    }
    assert(t@.take(t@.len() as int) =~= t@);
    r
}

/// `a.eq_ignore_ascii_case(b)`: same length, and equal characters once ASCII
/// letters are lower-cased.
pub open spec fn eq_ignore_ascii_case(a: Seq<char>, b: Seq<char>) -> bool {
    a.len() == b.len() && forall|k: int| 0 <= k < a.len() ==> ascii_lower_code(a[k])
        == ascii_lower_code(b[k])
}

/// Executable form of [`eq_ignore_ascii_case`].
pub fn chars_eq_ignore_ascii_case(a: &Vec<char>, b: &[char]) -> (r: bool)
    ensures
        r == eq_ignore_ascii_case(a@, b@),
{
    if a.len() != b.len() {
        return false;
    }
    let mut k: usize = 0;
    while k < a.len()
        invariant
            a@.len() == b@.len(),
            k <= a@.len(),
            forall|j: int| 0 <= j < k ==> ascii_lower_code(a@[j]) == ascii_lower_code(b@[j]),
        decreases a@.len() - k,
    {
        if ascii_lower(a[k]) != ascii_lower(b[k]) {
            return false;
        }
        k = k + 1;
    }
    true
}

/// `s` begins with `p`.
pub open spec fn has_prefix(s: Seq<char>, p: Seq<char>) -> bool {
    p.len() <= s.len() && s.subrange(0, p.len() as int) == p
}

/// Executable form of [`has_prefix`].
pub fn starts_with_chars(s: &Vec<char>, p: &[char]) -> (r: bool)
    ensures
        r == has_prefix(s@, p@),
{
    if p.len() > s.len() {
        return false;
    }
    chars_equal(s, 0, p.len(), p)
}

/// Index of the last `c` in `s[0..end]`, or -1 when there is none.
pub open spec fn last_index_of(s: Seq<char>, end: int, c: char) -> int
    decreases end,
{
    if end <= 0 {
        -1
    } else if s[end - 1] == c {
        end - 1
    } else {
        last_index_of(s, end - 1, c)
    }
}

/// The pieces of `s[0..end]` between occurrences of `c` (`str::split(c)`).
pub open spec fn split_prefix(s: Seq<char>, end: int, c: char) -> Seq<Seq<char>>
    decreases end,
{
    if end < 0 || end > s.len() {
        seq![]
    } else {
        let k = last_index_of(s, end, c);
        if k < 0 || k >= end {
            seq![s.subrange(0, end)]
        } else {
            split_prefix(s, k, c).push(s.subrange(k + 1, end))
        }
    }
}

/// When `s[st..i]` holds no `c` and `c` stands just before `st` (or `st` is
/// 0), the last `c` before `i` is at `st - 1`.
pub proof fn lemma_last_index_of_run(s: Seq<char>, st: int, i: int, c: char)
    requires
        0 <= st <= i <= s.len(),
        forall|j: int| st <= j < i ==> s[j] != c,
        st > 0 ==> s[st - 1] == c,
        st == 0 ==> forall|j: int| 0 <= j < i ==> s[j] != c,
    ensures
        last_index_of(s, i, c) == st - 1,
    decreases i - st,
{
    if i > st {
        lemma_last_index_of_run(s, st, i - 1, c);
    }
}

/// The texts of a sequence of strings.
pub open spec fn strings_view(v: Seq<String>) -> Seq<Seq<char>> {
    v.map_values(|t: String| t@)
}

} // verus!
