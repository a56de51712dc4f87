//! The filename grammar of episode detection: nine patterns, each matched at
//! the leftmost position where it applies, with the preference order of a
//! backtracking regular-expression engine (greedy repetitions try their
//! longest form first, optional parts are tried present before absent, and
//! alternatives left to right).
//!
//! A match is reported as `(g1, g1_len, g2, g2_len, end)`: the bounds of the
//! first and second captured digit runs and the end of the whole match, all
//! as character indices. Patterns with one capture report `(end of g1, 0)` as
//! their second capture.
use vstd::prelude::*;
use crate::charclass::{
    decimal_number, fold_eq, folds_to, is_ascii_alnum, is_ascii_digit, is_decimal_number, is_white_space,
    is_word_char, white_space, word_character,
};

verus! {

// ---------------------------------------------------------------------------
// Positional predicates
// ---------------------------------------------------------------------------

/// A decimal digit stands at `p`.
pub open spec fn digit_at(s: Seq<char>, p: int) -> bool {
    0 <= p < s.len() && is_decimal_number(s[p])
}

/// `n` decimal digits stand at `p..p+n`.
pub open spec fn digits_at(s: Seq<char>, p: int, n: int) -> bool {
    0 <= p && p + n <= s.len() && forall|k: int| p <= k < p + n ==> is_decimal_number(s[k])
}

/// A word character stands at `p`.
pub open spec fn word_at(s: Seq<char>, p: int) -> bool {
    0 <= p < s.len() && word_character(s[p])
}

/// `\b`: a word boundary lies between `p - 1` and `p`.
pub open spec fn boundary_at(s: Seq<char>, p: int) -> bool {
    word_at(s, p - 1) != word_at(s, p)
}

/// The character at `p` is `c`.
pub open spec fn char_at_is(s: Seq<char>, p: int, c: char) -> bool {
    0 <= p < s.len() && s[p] == c
}

/// The character at `p` case-folds to the lower-case ASCII letter `l`.
pub open spec fn fold_at(s: Seq<char>, p: int, l: char) -> bool {
    0 <= p < s.len() && folds_to(s[p], l)
}

/// The word `w` (lower-case ASCII letters) stands at `p`, compared case-insensitively.
pub open spec fn word_folds_at(s: Seq<char>, p: int, w: Seq<char>) -> bool {
    0 <= p && p + w.len() <= s.len() && forall|k: int| 0 <= k < w.len() ==> folds_to(s[p + k], w[k])
}

/// The first of two alternatives that matches.
pub open spec fn first_of<T>(a: Option<T>, b: Option<T>) -> Option<T> {
    match a {
        Some(x) => Some(x),
        None => b,
    }
}

/// Number of consecutive white-space characters from `p`.
pub open spec fn space_run(s: Seq<char>, p: int) -> int
    decreases s.len() - p,
{
    if 0 <= p < s.len() && is_white_space(s[p]) {
        1 + space_run(s, p + 1)
    } else {
        0
    }
}

/// Number of consecutive characters from `p` that are not ASCII digits, at most `cap`.
pub open spec fn non_digit_run(s: Seq<char>, p: int, cap: nat) -> int
    decreases cap,
{
    if cap == 0 || !(0 <= p < s.len()) || is_ascii_digit(s[p]) {
        0
    } else {
        1 + non_digit_run(s, p + 1, (cap - 1) as nat)
    }
}

/// Number of consecutive `0` characters from `p`.
pub open spec fn zero_run(s: Seq<char>, p: int) -> int
    decreases s.len() - p,
{
    if 0 <= p < s.len() && s[p] == '0' {
        1 + zero_run(s, p + 1)
    } else {
        0
    }
}

/// Widens an executable match to its specification form.
pub open spec fn span_of(t: (usize, usize, usize, usize, usize)) -> (int, int, int, int, int) {
    (t.0 as int, t.1 as int, t.2 as int, t.3 as int, t.4 as int)
}

/// Widens an optional executable match.
pub open spec fn opt_span(r: Option<(usize, usize, usize, usize, usize)>) -> Option<
    (int, int, int, int, int),
> {
    match r {
        Some(t) => Some(span_of(t)),
        None => None,
    }
}

/// A match found at `i` lies inside `s`: one or two captured runs of at most
/// three characters, and an end past `i`.
pub open spec fn span_ok(s: Seq<char>, i: int, m: (int, int, int, int, int)) -> bool {
    &&& 0 <= m.0
    &&& 1 <= m.1 <= 3
    &&& m.0 + m.1 <= s.len()
    &&& 0 <= m.2
    &&& 0 <= m.3 <= 2
    &&& m.2 + m.3 <= s.len()
    &&& i < m.4 <= s.len()
}

// ---------------------------------------------------------------------------
// Executable positional predicates
// ---------------------------------------------------------------------------

/// The index `p + off` when it lies inside `s`.
fn at_pos(s: &Vec<char>, p: usize, off: usize) -> (r: Option<usize>)
    ensures
        match r {
            Some(q) => q == p + off && q < s@.len(),
            None => p + off >= s@.len(),
        },
{
    if off < s.len() && p < s.len() - off {
        Some(p + off)
    } else {
        None
    }
}

fn digit_exec(s: &Vec<char>, p: usize, off: usize) -> (r: bool)
    ensures
        r == digit_at(s@, p + off),
{
    match at_pos(s, p, off) {
        Some(q) => decimal_number(s[q]),
        None => false,
    }
}

fn digits_exec(s: &Vec<char>, p: usize, off: usize, n: usize) -> (r: bool)
    ensures
        r == digits_at(s@, p + off, n as int),
{
    if off > s.len() || p > s.len() - off {
        return false;
    }
    let q = p + off;
    if n > s.len() - q {
        return false;
    }
    let mut k: usize = q;
    while k < q + n
        invariant
            q == p + off,
            q <= k <= q + n <= s@.len(),
            s@.len() <= usize::MAX,
            forall|j: int| q <= j < k ==> is_decimal_number(s@[j]),
        decreases q + n - k,
    {
        if !decimal_number(s[k]) {
            return false;
        }
        k = k + 1;
    }
    true
}

fn word_exec(s: &Vec<char>, q: usize) -> (r: bool)
    ensures
        r == word_at(s@, q as int),
{
    q < s.len() && is_word_char(s[q])
}

fn boundary_exec(s: &Vec<char>, p: usize, off: usize) -> (r: bool)
    ensures
        r == boundary_at(s@, p + off),
{
    if off > s.len() || p > s.len() - off {
        return false;
    }
    let q = p + off;
    let before = q > 0 && word_exec(s, q - 1);
    let after = word_exec(s, q);
    before != after
}

fn char_exec(s: &Vec<char>, p: usize, off: usize, c: char) -> (r: bool)
    ensures
        r == char_at_is(s@, p + off, c),
{
    match at_pos(s, p, off) {
        Some(q) => s[q] == c,
        None => false,
    }
}

fn fold_exec(s: &Vec<char>, p: usize, off: usize, l: char) -> (r: bool)
    requires
        'a' <= l <= 'z',
    ensures
        r == fold_at(s@, p + off, l),
{
    match at_pos(s, p, off) {
        Some(q) => fold_eq(s[q], l),
        None => false,
    }
}

fn word_folds_exec(s: &Vec<char>, p: usize, off: usize, w: &[char]) -> (r: bool)
    requires
        forall|k: int| 0 <= k < w@.len() ==> 'a' <= #[trigger] w@[k] <= 'z',
    ensures
        r == word_folds_at(s@, p + off, w@),
{
    if off > s.len() || p > s.len() - off {
        return false;
    }
    let q = p + off;
    if w.len() > s.len() - q {
        return false;
    }
    let mut k: usize = 0;
    while k < w.len()
        invariant
            q == p + off,
            q + w@.len() <= s@.len(),
            s@.len() <= usize::MAX,
            k <= w@.len(),
            forall|j: int| 0 <= j < w@.len() ==> 'a' <= #[trigger] w@[j] <= 'z',
            forall|j: int| 0 <= j < k ==> folds_to(s@[q + j], w@[j]),
        decreases w@.len() - k,
    {
        if !fold_eq(s[q + k], w[k]) {
            return false;
        }
        k = k + 1;
    }
    true
}

fn space_run_exec(s: &Vec<char>, p: usize) -> (r: usize)
    requires
        p <= s@.len(),
    ensures
        r == space_run(s@, p as int),
        p + r <= s@.len(),
{
    let mut k: usize = p;
    while k < s.len() && white_space(s[k])
        invariant
            p <= k <= s@.len(),
            space_run(s@, p as int) == (k - p) + space_run(s@, k as int),
        decreases s@.len() - k,
    {
        k = k + 1;
    }
    k - p
}

fn non_digit_run_exec(s: &Vec<char>, p: usize, cap: usize) -> (r: usize)
    requires
        p <= s@.len(),
    ensures
        r == non_digit_run(s@, p as int, cap as nat),
        r <= cap,
        p + r <= s@.len(),
{
    let _n = s.len();
    let mut k: usize = 0;
    while k < cap && p + k < s.len() && !(s[p + k] >= '0' && s[p + k] <= '9')
        invariant
            p <= s@.len(),
            s@.len() <= usize::MAX,
            k <= cap,
            p + k <= s@.len(),
            non_digit_run(s@, p as int, cap as nat) == k + non_digit_run(
                s@,
                p + k,
                (cap - k) as nat,
            ),
        decreases cap - k,
    {
        k = k + 1;
    }
    k
}

fn zero_run_exec(s: &Vec<char>, p: usize) -> (r: usize)
    requires
        p <= s@.len(),
    ensures
        r == zero_run(s@, p as int),
        p + r <= s@.len(),
{
    let mut k: usize = p;
    while k < s.len() && s[k] == '0'
        invariant
            p <= k <= s@.len(),
            zero_run(s@, p as int) == (k - p) + zero_run(s@, k as int),
        decreases s@.len() - k,
    {
        k = k + 1;
    }
    k - p
}

// ---------------------------------------------------------------------------
// `(?i)[sS](\d{1,2})[eE](\d{1,2})`
// ---------------------------------------------------------------------------

/// The preferred match of `(?i)[sS](\d{1,2})[eE](\d{1,2})` starting at `i`.
pub open spec fn sxxexx_at(s: Seq<char>, i: int) -> Option<(int, int, int, int, int)> {
    if fold_at(s, i, 's') {
        if digits_at(s, i + 1, 2) && fold_at(s, i + 3, 'e') && digit_at(s, i + 4) {
            let l2: int = if digit_at(s, i + 5) {
                2
            } else {
                1
            };
            Some((i + 1, 2, i + 4, l2, i + 4 + l2))
        } else if digit_at(s, i + 1) && fold_at(s, i + 2, 'e') && digit_at(s, i + 3) {
            let l2: int = if digit_at(s, i + 4) {
                2
            } else {
                1
            };
            Some((i + 1, 1, i + 3, l2, i + 3 + l2))
        } else {
            None
        }
    } else {
        None
    }
}

fn sxxexx_exec(s: &Vec<char>, i: usize) -> (r: Option<(usize, usize, usize, usize, usize)>)
    requires
        i < s@.len(),
    ensures
        opt_span(r) == sxxexx_at(s@, i as int),
        r matches Some(t) ==> span_ok(s@, i as int, span_of(t)),
{
    let _n = s.len();
    if !fold_exec(s, i, 0, 's') {
        return None;
    }
    if digits_exec(s, i, 1, 2) && fold_exec(s, i, 3, 'e') && digit_exec(s, i, 4) {
        let l2: usize = if digit_exec(s, i, 5) {
            2
        } else {
            1
        };
        Some((i + 1, 2, i + 4, l2, i + 4 + l2))
    } else if digit_exec(s, i, 1) && fold_exec(s, i, 2, 'e') && digit_exec(s, i, 3) {
        let l2: usize = if digit_exec(s, i, 4) {
            2
        } else {
            1
        };
        Some((i + 1, 1, i + 3, l2, i + 3 + l2))
    } else {
        None
    }
}

// ---------------------------------------------------------------------------
// `\b(\d{1,2})[xX](\d{2})\b` and `\b(\d{1,2})\.(\d{2})\b`
// ---------------------------------------------------------------------------

/// The separator of the two digit pairs: `[xX]`, or `.` when `period`.
pub open spec fn pair_sep_at(s: Seq<char>, p: int, period: bool) -> bool {
    if period {
        char_at_is(s, p, '.')
    } else {
        char_at_is(s, p, 'x') || char_at_is(s, p, 'X')
    }
}

/// The preferred match of `\b(\d{1,2})[xX](\d{2})\b` (or, when `period`,
/// `\b(\d{1,2})\.(\d{2})\b`) starting at `i`.
pub open spec fn pair_at(s: Seq<char>, i: int, period: bool) -> Option<(int, int, int, int, int)> {
    if boundary_at(s, i) {
        if digits_at(s, i, 2) && pair_sep_at(s, i + 2, period) && digits_at(s, i + 3, 2)
            && boundary_at(s, i + 5) {
            Some((i, 2, i + 3, 2, i + 5))
        } else if digits_at(s, i, 1) && pair_sep_at(s, i + 1, period) && digits_at(s, i + 2, 2)
            && boundary_at(s, i + 4) {
            Some((i, 1, i + 2, 2, i + 4))
        } else {
            None
        }
    } else {
        None
    }
}

fn pair_sep_exec(s: &Vec<char>, p: usize, off: usize, period: bool) -> (r: bool)
    ensures
        r == pair_sep_at(s@, p + off, period),
{
    if period {
        char_exec(s, p, off, '.')
    } else {
        char_exec(s, p, off, 'x') || char_exec(s, p, off, 'X')
    }
}

fn pair_exec(s: &Vec<char>, i: usize, period: bool) -> (r: Option<
    (usize, usize, usize, usize, usize),
>)
    requires
        i < s@.len(),
    ensures
        opt_span(r) == pair_at(s@, i as int, period),
        r matches Some(t) ==> span_ok(s@, i as int, span_of(t)),
{
    let _n = s.len();
    if !boundary_exec(s, i, 0) {
        return None;
    }
    if digits_exec(s, i, 0, 2) && pair_sep_exec(s, i, 2, period) && digits_exec(s, i, 3, 2)
        && boundary_exec(s, i, 5) {
        Some((i, 2, i + 3, 2, i + 5))
    } else if digits_exec(s, i, 0, 1) && pair_sep_exec(s, i, 1, period) && digits_exec(s, i, 2, 2)
        && boundary_exec(s, i, 4) {
        Some((i, 1, i + 2, 2, i + 4))
    } else {
        None
    }
}

// ---------------------------------------------------------------------------
// `(?i)[sS]eason\s+(\d{1,2})[^0-9]{1,20}[eE]pisode\s+(\d{1,2})`
// ---------------------------------------------------------------------------

/// `season`, to be compared case-insensitively.
pub open spec fn season_word() -> Seq<char> {
    seq!['s', 'e', 'a', 's', 'o', 'n']
}

/// `episode`, to be compared case-insensitively.
pub open spec fn episode_word() -> Seq<char> {
    seq!['e', 'p', 'i', 's', 'o', 'd', 'e']
}

/// `isode`, to be compared case-insensitively.
pub open spec fn isode_word() -> Seq<char> {
    seq!['i', 's', 'o', 'd', 'e']
}

/// A white-space character stands at `p`.
pub open spec fn space_at(s: Seq<char>, p: int) -> bool {
    0 <= p < s.len() && is_white_space(s[p])
}

/// `[eE]pisode\s+(\d{1,2})` at `r`: the captured digits.
/// A run of white space never gives characters back to a following digit (no
/// digit is white space), so the greedy run is taken whole.
pub open spec fn episode_tail(s: Seq<char>, r: int) -> Option<(int, int)> {
    if word_folds_at(s, r, episode_word()) {
        let w = space_run(s, r + 7);
        let p = r + 7 + w;
        if w >= 1 && digit_at(s, p) {
            Some(
                (
                    p,
                    if digit_at(s, p + 1) {
                        2
                    } else {
                        1
                    },
                ),
            )
        } else {
            None
        }
    } else {
        None
    }
}

/// `[^0-9]{1,g}` followed by the episode tail, trying the longest gap first.
pub open spec fn gap_search(s: Seq<char>, q: int, g: nat) -> Option<(int, int)>
    decreases g,
{
    if g == 0 {
        None
    } else {
        first_of(episode_tail(s, q + g), gap_search(s, q, (g - 1) as nat))
    }
}

/// `[^0-9]{1,20}[eE]pisode\s+(\d{1,2})` at `q`.
pub open spec fn episode_after(s: Seq<char>, q: int) -> Option<(int, int)> {
    gap_search(s, q, non_digit_run(s, q, 20) as nat)
}

/// The season capture of length `l1` at `p`, extended by the rest of the pattern.
pub open spec fn season_with(s: Seq<char>, p: int, l1: int) -> Option<(int, int, int, int, int)> {
    match episode_after(s, p + l1) {
        Some((c, l)) => Some((p, l1, c, l, c + l)),
        None => None,
    }
}

/// The preferred match of the "Season N ... Episode M" pattern starting at `i`.
pub open spec fn season_text_at(s: Seq<char>, i: int) -> Option<(int, int, int, int, int)> {
    if word_folds_at(s, i, season_word()) {
        let w = space_run(s, i + 6);
        let p = i + 6 + w;
        if w >= 1 && digit_at(s, p) {
            first_of(
                if digit_at(s, p + 1) {
                    season_with(s, p, 2)
                } else {
                    None
                },
                season_with(s, p, 1),
            )
        } else {
            None
        }
    } else {
        None
    }
}

fn episode_tail_exec(s: &Vec<char>, r: usize) -> (res: Option<(usize, usize)>)
    requires
        r <= s@.len(),
    ensures
        match res {
            Some((c, l)) => episode_tail(s@, r as int) == Some((c as int, l as int)) && c + l
                <= s@.len() && c >= r && 1 <= l <= 2,
            None => episode_tail(s@, r as int) is None,
        },
{
    let _n = s.len();
    let w = ['e', 'p', 'i', 's', 'o', 'd', 'e'];
    assert(w@ == episode_word());
    if !word_folds_exec(s, r, 0, &w) {
        return None;
    }
    let n = space_run_exec(s, r + 7);
    let p = r + 7 + n;
    if n >= 1 && digit_exec(s, p, 0) {
        let l: usize = if digit_exec(s, p, 1) {
            2
        } else {
            1
        };
        Some((p, l))
    } else {
        None
    }
}

fn episode_after_exec(s: &Vec<char>, q: usize) -> (res: Option<(usize, usize)>)
    requires
        q <= s@.len(),
    ensures
        match res {
            Some((c, l)) => episode_after(s@, q as int) == Some((c as int, l as int)) && c + l
                <= s@.len() && c >= q && 1 <= l <= 2,
            None => episode_after(s@, q as int) is None,
        },
{
    let _n = s.len();
    let g = non_digit_run_exec(s, q, 20);
    let mut k: usize = g;
    while k > 0
        invariant
            k <= g,
            g == non_digit_run(s@, q as int, 20),
            s@.len() <= usize::MAX,
            q + g <= s@.len(),
            gap_search(s@, q as int, g as nat) == gap_search(s@, q as int, k as nat),
        decreases k,
    {
        match episode_tail_exec(s, q + k) {
            Some(x) => {
                return Some(x);
            },
            None => {},
        }
        k = k - 1;
    }
    None
}

fn season_with_exec(s: &Vec<char>, p: usize, l1: usize) -> (r: Option<
    (usize, usize, usize, usize, usize),
>)
    requires
        p + l1 <= s@.len(),
        1 <= l1 <= 2,
    ensures
        opt_span(r) == season_with(s@, p as int, l1 as int),
        r matches Some(t) ==> span_ok(s@, p - 1, span_of(t)),
{
    let _n = s.len();
    match episode_after_exec(s, p + l1) {
        Some((c, l)) => Some((p, l1, c, l, c + l)),
        None => None,
    }
}

fn season_text_exec(s: &Vec<char>, i: usize) -> (r: Option<(usize, usize, usize, usize, usize)>)
    requires
        i < s@.len(),
    ensures
        opt_span(r) == season_text_at(s@, i as int),
        r matches Some(t) ==> span_ok(s@, i as int, span_of(t)),
{
    let _n = s.len();
    let w = ['s', 'e', 'a', 's', 'o', 'n'];
    assert(w@ == season_word());
    if !word_folds_exec(s, i, 0, &w) {
        return None;
    }
    let n = space_run_exec(s, i + 6);
    let p = i + 6 + n;
    if n >= 1 && digit_exec(s, p, 0) {
        if digit_exec(s, p, 1) {
            let two = season_with_exec(s, p, 2);
            if two.is_some() {
                return two;
            }
        }
        season_with_exec(s, p, 1)
    } else {
        None
    }
}

// ---------------------------------------------------------------------------
// `[\[\(](?:[sS])?(\d{1,2})[.\s]?(?:[eExX])(\d{1,2})[\]\)]`
// ---------------------------------------------------------------------------

/// One way of reading the bracketed pattern at `i`: `os` = the `s` is present,
/// `l1` = digits in the first group, `sp` = the separator is present,
/// `l2` = digits in the second group.
pub open spec fn bracket_try(s: Seq<char>, i: int, os: int, l1: int, sp: int, l2: int) -> Option<
    (int, int, int, int, int),
> {
    let a = i + 1 + os;
    let b = a + l1;
    let e = b + sp;
    let c = e + 1;
    let z = c + l2;
    if (char_at_is(s, i, '[') || char_at_is(s, i, '(')) && (os == 1 ==> (char_at_is(s, i + 1, 's')
        || char_at_is(s, i + 1, 'S'))) && digits_at(s, a, l1) && (sp == 1 ==> (char_at_is(
        s,
        b,
        '.',
    ) || space_at(s, b))) && (char_at_is(s, e, 'e') || char_at_is(s, e, 'E') || char_at_is(
        s,
        e,
        'x',
    ) || char_at_is(s, e, 'X')) && digits_at(s, c, l2) && (char_at_is(s, z, ']') || char_at_is(
        s,
        z,
        ')',
    )) {
        Some((a, l1, c, l2, z + 1))
    } else {
        None
    }
}

/// The second group: two digits before one.
pub open spec fn bracket_l2(s: Seq<char>, i: int, os: int, l1: int, sp: int) -> Option<
    (int, int, int, int, int),
> {
    first_of(bracket_try(s, i, os, l1, sp, 2), bracket_try(s, i, os, l1, sp, 1))
}

/// The optional separator: present before absent.
pub open spec fn bracket_sp(s: Seq<char>, i: int, os: int, l1: int) -> Option<
    (int, int, int, int, int),
> {
    first_of(bracket_l2(s, i, os, l1, 1), bracket_l2(s, i, os, l1, 0))
}

/// The first group: two digits before one.
pub open spec fn bracket_l1(s: Seq<char>, i: int, os: int) -> Option<(int, int, int, int, int)> {
    first_of(bracket_sp(s, i, os, 2), bracket_sp(s, i, os, 1))
}

/// The preferred match of the bracketed pattern starting at `i`.
pub open spec fn bracketed_at(s: Seq<char>, i: int) -> Option<(int, int, int, int, int)> {
    first_of(bracket_l1(s, i, 1), bracket_l1(s, i, 0))
}

fn space_exec(s: &Vec<char>, p: usize, off: usize) -> (r: bool)
    ensures
        r == space_at(s@, p + off),
{
    match at_pos(s, p, off) {
        Some(q) => white_space(s[q]),
        None => false,
    }
}

fn bracket_try_exec(s: &Vec<char>, i: usize, os: usize, l1: usize, sp: usize, l2: usize) -> (r:
    Option<(usize, usize, usize, usize, usize)>)
    requires
        i < s@.len(),
        os <= 1,
        1 <= l1 <= 2,
        sp <= 1,
        1 <= l2 <= 2,
    ensures
        opt_span(r) == bracket_try(s@, i as int, os as int, l1 as int, sp as int, l2 as int),
        r matches Some(t) ==> span_ok(s@, i as int, span_of(t)),
{
    let _n = s.len();
    let a = 1 + os;
    let b = a + l1;
    let e = b + sp;
    let c = e + 1;
    let z = c + l2;
    if (char_exec(s, i, 0, '[') || char_exec(s, i, 0, '(')) && (os == 0 || (char_exec(s, i, 1, 's')
        || char_exec(s, i, 1, 'S'))) && digits_exec(s, i, a, l1) && (sp == 0 || (char_exec(
        s,
        i,
        b,
        '.',
    ) || space_exec(s, i, b))) && (char_exec(s, i, e, 'e') || char_exec(s, i, e, 'E')
        || char_exec(s, i, e, 'x') || char_exec(s, i, e, 'X')) && digits_exec(s, i, c, l2) && (
    char_exec(s, i, z, ']') || char_exec(s, i, z, ')')) {
        Some((i + a, l1, i + c, l2, i + z + 1))
    } else {
        None
    }
}

fn bracket_l2_exec(s: &Vec<char>, i: usize, os: usize, l1: usize, sp: usize) -> (r: Option<
    (usize, usize, usize, usize, usize),
>)
    requires
        i < s@.len(),
        os <= 1,
        1 <= l1 <= 2,
        sp <= 1,
    ensures
        opt_span(r) == bracket_l2(s@, i as int, os as int, l1 as int, sp as int),
        r matches Some(t) ==> span_ok(s@, i as int, span_of(t)),
{
    let r = bracket_try_exec(s, i, os, l1, sp, 2);
    if r.is_some() {
        r
    } else {
        bracket_try_exec(s, i, os, l1, sp, 1)
    }
}

fn bracket_sp_exec(s: &Vec<char>, i: usize, os: usize, l1: usize) -> (r: Option<
    (usize, usize, usize, usize, usize),
>)
    requires
        i < s@.len(),
        os <= 1,
        1 <= l1 <= 2,
    ensures
        opt_span(r) == bracket_sp(s@, i as int, os as int, l1 as int),
        r matches Some(t) ==> span_ok(s@, i as int, span_of(t)),
{
    let r = bracket_l2_exec(s, i, os, l1, 1);
    if r.is_some() {
        r
    } else {
        bracket_l2_exec(s, i, os, l1, 0)
    }
}

fn bracket_l1_exec(s: &Vec<char>, i: usize, os: usize) -> (r: Option<
    (usize, usize, usize, usize, usize),
>)
    requires
        i < s@.len(),
        os <= 1,
    ensures
        opt_span(r) == bracket_l1(s@, i as int, os as int),
        r matches Some(t) ==> span_ok(s@, i as int, span_of(t)),
{
    let r = bracket_sp_exec(s, i, os, 2);
    if r.is_some() {
        r
    } else {
        bracket_sp_exec(s, i, os, 1)
    }
}

fn bracketed_exec(s: &Vec<char>, i: usize) -> (r: Option<(usize, usize, usize, usize, usize)>)
    requires
        i < s@.len(),
    ensures
        opt_span(r) == bracketed_at(s@, i as int),
        r matches Some(t) ==> span_ok(s@, i as int, span_of(t)),
{
    let r = bracket_l1_exec(s, i, 1);
    if r.is_some() {
        r
    } else {
        bracket_l1_exec(s, i, 0)
    }
}

// ---------------------------------------------------------------------------
// `(?i)[_\-][eE]p?(\d{1,3})\b`
// ---------------------------------------------------------------------------

/// One reading of the dash pattern at `i`: `pp` = the `p` is present,
/// `k` = number of digits.
pub open spec fn dash_try(s: Seq<char>, i: int, pp: int, k: int) -> Option<
    (int, int, int, int, int),
> {
    let a = i + 2 + pp;
    if (char_at_is(s, i, '_') || char_at_is(s, i, '-')) && fold_at(s, i + 1, 'e') && (pp == 1
        ==> fold_at(s, i + 2, 'p')) && digits_at(s, a, k) && boundary_at(s, a + k) {
        Some((a, k, a + k, 0, a + k))
    } else {
        None
    }
}

/// `\d{1,3}\b` after the dash prefix: three digits before two before one.
pub open spec fn dash_digits(s: Seq<char>, i: int, pp: int) -> Option<(int, int, int, int, int)> {
    first_of(dash_try(s, i, pp, 3), first_of(dash_try(s, i, pp, 2), dash_try(s, i, pp, 1)))
}

/// The preferred match of the dash pattern starting at `i`.
pub open spec fn dash_at(s: Seq<char>, i: int) -> Option<(int, int, int, int, int)> {
    first_of(dash_digits(s, i, 1), dash_digits(s, i, 0))
}

fn dash_try_exec(s: &Vec<char>, i: usize, pp: usize, k: usize) -> (r: Option<
    (usize, usize, usize, usize, usize),
>)
    requires
        i < s@.len(),
        pp <= 1,
        1 <= k <= 3,
    ensures
        opt_span(r) == dash_try(s@, i as int, pp as int, k as int),
        r matches Some(t) ==> span_ok(s@, i as int, span_of(t)),
{
    let _n = s.len();
    let a = 2 + pp;
    if (char_exec(s, i, 0, '_') || char_exec(s, i, 0, '-')) && fold_exec(s, i, 1, 'e') && (pp == 0
        || fold_exec(s, i, 2, 'p')) && digits_exec(s, i, a, k) && boundary_exec(s, i, a + k) {
        Some((i + a, k, i + a + k, 0, i + a + k))
    } else {
        None
    }
}

fn dash_digits_exec(s: &Vec<char>, i: usize, pp: usize) -> (r: Option<
    (usize, usize, usize, usize, usize),
>)
    requires
        i < s@.len(),
        pp <= 1,
    ensures
        opt_span(r) == dash_digits(s@, i as int, pp as int),
        r matches Some(t) ==> span_ok(s@, i as int, span_of(t)),
{
    let r = dash_try_exec(s, i, pp, 3);
    if r.is_some() {
        return r;
    }
    let r = dash_try_exec(s, i, pp, 2);
    if r.is_some() {
        return r;
    }
    dash_try_exec(s, i, pp, 1)
}

fn dash_exec(s: &Vec<char>, i: usize) -> (r: Option<(usize, usize, usize, usize, usize)>)
    requires
        i < s@.len(),
    ensures
        opt_span(r) == dash_at(s@, i as int),
        r matches Some(t) ==> span_ok(s@, i as int, span_of(t)),
{
    let r = dash_digits_exec(s, i, 1);
    if r.is_some() {
        r
    } else {
        dash_digits_exec(s, i, 0)
    }
}

// ---------------------------------------------------------------------------
// `(?i)\bEp(?:isode)?[.\s_]?(\d{1,3})\b`
// ---------------------------------------------------------------------------

/// One reading of the "Ep" pattern at `i`: `iso` = `isode` is present,
/// `sep` = the separator is present, `k` = number of digits.
pub open spec fn ep_try(s: Seq<char>, i: int, iso: int, sep: int, k: int) -> Option<
    (int, int, int, int, int),
> {
    let b = i + 2 + 5 * iso;
    let c = b + sep;
    if boundary_at(s, i) && fold_at(s, i, 'e') && fold_at(s, i + 1, 'p') && (iso == 1
        ==> word_folds_at(s, i + 2, isode_word())) && (sep == 1 ==> (char_at_is(s, b, '.')
        || char_at_is(s, b, '_') || space_at(s, b))) && digits_at(s, c, k) && boundary_at(
        s,
        c + k,
    ) {
        Some((c, k, c + k, 0, c + k))
    } else {
        None
    }
}

/// `(\d{1,3})\b` of the "Ep" pattern: three digits before two before one.
pub open spec fn ep_digits(s: Seq<char>, i: int, iso: int, sep: int) -> Option<
    (int, int, int, int, int),
> {
    first_of(ep_try(s, i, iso, sep, 3), first_of(ep_try(s, i, iso, sep, 2), ep_try(s, i, iso, sep, 1)))
}

/// The optional separator of the "Ep" pattern: present before absent.
pub open spec fn ep_sep(s: Seq<char>, i: int, iso: int) -> Option<(int, int, int, int, int)> {
    first_of(ep_digits(s, i, iso, 1), ep_digits(s, i, iso, 0))
}

/// The preferred match of the "Ep" pattern starting at `i`.
pub open spec fn ep_word_at(s: Seq<char>, i: int) -> Option<(int, int, int, int, int)> {
    first_of(ep_sep(s, i, 1), ep_sep(s, i, 0))
}

fn ep_try_exec(s: &Vec<char>, i: usize, iso: usize, sep: usize, k: usize) -> (r: Option<
    (usize, usize, usize, usize, usize),
>)
    requires
        i < s@.len(),
        iso <= 1,
        sep <= 1,
        1 <= k <= 3,
    ensures
        opt_span(r) == ep_try(s@, i as int, iso as int, sep as int, k as int),
        r matches Some(t) ==> span_ok(s@, i as int, span_of(t)),
{
    let _n = s.len();
    let w = ['i', 's', 'o', 'd', 'e'];
    assert(w@ == isode_word());
    let b = 2 + 5 * iso;
    let c = b + sep;
    if boundary_exec(s, i, 0) && fold_exec(s, i, 0, 'e') && fold_exec(s, i, 1, 'p') && (iso == 0
        || word_folds_exec(s, i, 2, &w)) && (sep == 0 || (char_exec(s, i, b, '.') || char_exec(
        s,
        i,
        b,
        '_',
    ) || space_exec(s, i, b))) && digits_exec(s, i, c, k) && boundary_exec(s, i, c + k) {
        Some((i + c, k, i + c + k, 0, i + c + k))
    } else {
        None
    }
}

fn ep_digits_exec(s: &Vec<char>, i: usize, iso: usize, sep: usize) -> (r: Option<
    (usize, usize, usize, usize, usize),
>)
    requires
        i < s@.len(),
        iso <= 1,
        sep <= 1,
    ensures
        opt_span(r) == ep_digits(s@, i as int, iso as int, sep as int),
        r matches Some(t) ==> span_ok(s@, i as int, span_of(t)),
{
    let r = ep_try_exec(s, i, iso, sep, 3);
    if r.is_some() {
        return r;
    }
    let r = ep_try_exec(s, i, iso, sep, 2);
    if r.is_some() {
        return r;
    }
    ep_try_exec(s, i, iso, sep, 1)
}

fn ep_sep_exec(s: &Vec<char>, i: usize, iso: usize) -> (r: Option<
    (usize, usize, usize, usize, usize),
>)
    requires
        i < s@.len(),
        iso <= 1,
    ensures
        opt_span(r) == ep_sep(s@, i as int, iso as int),
        r matches Some(t) ==> span_ok(s@, i as int, span_of(t)),
{
    let r = ep_digits_exec(s, i, iso, 1);
    if r.is_some() {
        r
    } else {
        ep_digits_exec(s, i, iso, 0)
    }
}

fn ep_word_exec(s: &Vec<char>, i: usize) -> (r: Option<(usize, usize, usize, usize, usize)>)
    requires
        i < s@.len(),
    ensures
        opt_span(r) == ep_word_at(s@, i as int),
        r matches Some(t) ==> span_ok(s@, i as int, span_of(t)),
{
    let r = ep_sep_exec(s, i, 1);
    if r.is_some() {
        r
    } else {
        ep_sep_exec(s, i, 0)
    }
}

// ---------------------------------------------------------------------------
// `\b0*(\d{3})\b`
// ---------------------------------------------------------------------------

/// The absolute-number pattern at `i` with `z` leading zeros taken by `0*`.
pub open spec fn absolute_try(s: Seq<char>, i: int, z: int) -> Option<(int, int, int, int, int)> {
    if boundary_at(s, i) && digits_at(s, i + z, 3) && boundary_at(s, i + z + 3) {
        Some((i + z, 3, i + z + 3, 0, i + z + 3))
    } else {
        None
    }
}

/// `0*` gives back zeros one at a time, from `z` down to none.
pub open spec fn absolute_search(s: Seq<char>, i: int, z: nat) -> Option<(int, int, int, int, int)>
    decreases z,
{
    if z == 0 {
        absolute_try(s, i, 0)
    } else {
        first_of(absolute_try(s, i, z as int), absolute_search(s, i, (z - 1) as nat))
    }
}

/// The preferred match of `\b0*(\d{3})\b` starting at `i`.
pub open spec fn absolute_at(s: Seq<char>, i: int) -> Option<(int, int, int, int, int)> {
    absolute_search(s, i, zero_run(s, i) as nat)
}

fn absolute_try_exec(s: &Vec<char>, i: usize, z: usize) -> (r: Option<
    (usize, usize, usize, usize, usize),
>)
    requires
        i + z <= s@.len(),
    ensures
        opt_span(r) == absolute_try(s@, i as int, z as int),
        r matches Some(t) ==> span_ok(s@, i as int, span_of(t)),
{
    let _n = s.len();
    if boundary_exec(s, i, 0) && digits_exec(s, i, z, 3) && boundary_exec(s, i + z, 3) {
        Some((i + z, 3, i + z + 3, 0, i + z + 3))
    } else {
        None
    }
}

fn absolute_exec(s: &Vec<char>, i: usize) -> (r: Option<(usize, usize, usize, usize, usize)>)
    requires
        i < s@.len(),
    ensures
        opt_span(r) == absolute_at(s@, i as int),
        r matches Some(t) ==> span_ok(s@, i as int, span_of(t)),
{
    let _n = s.len();
    let zmax = zero_run_exec(s, i);
    let mut z: usize = zmax;
    while z > 0
        invariant
            z <= zmax,
            i + zmax <= s@.len(),
            s@.len() <= usize::MAX,
            absolute_at(s@, i as int) == absolute_search(s@, i as int, z as nat),
        decreases z,
    {
        let r = absolute_try_exec(s, i, z);
        if r.is_some() {
            return r;
        }
        z = z - 1;
    }
    absolute_try_exec(s, i, 0)
}

// ---------------------------------------------------------------------------
// `[^a-zA-Z0-9](\d{1,2})([^a-zA-Z0-9]|$)`
// ---------------------------------------------------------------------------

/// A character that is not an ASCII letter or digit stands at `p`.
pub open spec fn non_alnum_at(s: Seq<char>, p: int) -> bool {
    0 <= p < s.len() && !is_ascii_alnum(s[p])
}

/// One reading of the bare-number pattern at `i`: `k` digits, then a closing
/// non-alphanumeric character (`alt == 0`) or the end of the text (`alt == 1`).
pub open spec fn bare_try(s: Seq<char>, i: int, k: int, alt: int) -> Option<
    (int, int, int, int, int),
> {
    let e = i + 1 + k;
    if non_alnum_at(s, i) && digits_at(s, i + 1, k) {
        if alt == 0 {
            if non_alnum_at(s, e) {
                Some((i + 1, k, e, 0, e + 1))
            } else {
                None
            }
        } else if e == s.len() {
            Some((i + 1, k, e, 0, e))
        } else {
            None
        }
    } else {
        None
    }
}

/// The bare-number pattern with `k` digits: the character class before `$`.
pub open spec fn bare_digits(s: Seq<char>, i: int, k: int) -> Option<(int, int, int, int, int)> {
    first_of(bare_try(s, i, k, 0), bare_try(s, i, k, 1))
}

/// The preferred match of the bare-number pattern starting at `i`.
pub open spec fn bare_at(s: Seq<char>, i: int) -> Option<(int, int, int, int, int)> {
    first_of(bare_digits(s, i, 2), bare_digits(s, i, 1))
}

fn non_alnum_exec(s: &Vec<char>, p: usize, off: usize) -> (r: bool)
    ensures
        r == non_alnum_at(s@, p + off),
{
    match at_pos(s, p, off) {
        Some(q) => {
            let c = s[q];
            !(('a' <= c && c <= 'z') || ('A' <= c && c <= 'Z') || ('0' <= c && c <= '9'))
        },
        None => false,
    }
}

fn bare_try_exec(s: &Vec<char>, i: usize, k: usize, alt: usize) -> (r: Option<
    (usize, usize, usize, usize, usize),
>)
    requires
        i < s@.len(),
        1 <= k <= 2,
        alt <= 1,
    ensures
        opt_span(r) == bare_try(s@, i as int, k as int, alt as int),
        r matches Some(t) ==> span_ok(s@, i as int, span_of(t)),
{
    let _n = s.len();
    if non_alnum_exec(s, i, 0) && digits_exec(s, i, 1, k) {
        let e = i + 1 + k;
        if alt == 0 {
            if non_alnum_exec(s, e, 0) {
                Some((i + 1, k, e, 0, e + 1))
            } else {
                None
            }
        } else if e == s.len() {
            Some((i + 1, k, e, 0, e))
        } else {
            None
        }
    } else {
        None
    }
}

fn bare_digits_exec(s: &Vec<char>, i: usize, k: usize) -> (r: Option<
    (usize, usize, usize, usize, usize),
>)
    requires
        i < s@.len(),
        1 <= k <= 2,
    ensures
        opt_span(r) == bare_digits(s@, i as int, k as int),
        r matches Some(t) ==> span_ok(s@, i as int, span_of(t)),
{
    let r = bare_try_exec(s, i, k, 0);
    if r.is_some() {
        r
    } else {
        bare_try_exec(s, i, k, 1)
    }
}

fn bare_exec(s: &Vec<char>, i: usize) -> (r: Option<(usize, usize, usize, usize, usize)>)
    requires
        i < s@.len(),
    ensures
        opt_span(r) == bare_at(s@, i as int),
        r matches Some(t) ==> span_ok(s@, i as int, span_of(t)),
{
    let r = bare_digits_exec(s, i, 2);
    if r.is_some() {
        r
    } else {
        bare_digits_exec(s, i, 1)
    }
}

// ---------------------------------------------------------------------------
// Leftmost match of each pattern
// ---------------------------------------------------------------------------

/// The nine filename patterns, in the order in which detection tries them.
#[derive(Clone, Copy, Debug, PartialEq, Eq, Structural)]
pub enum EpisodePattern {
    /// `(?i)[sS](\d{1,2})[eE](\d{1,2})`, as in `S02E05`.
    SeasonEpisode,
    /// `\b(\d{1,2})[xX](\d{2})\b`, as in `2x08`.
    Cross,
    /// `(?i)[sS]eason\s+(\d{1,2})[^0-9]{1,20}[eE]pisode\s+(\d{1,2})`.
    SeasonText,
    /// `[\[\(](?:[sS])?(\d{1,2})[.\s]?(?:[eExX])(\d{1,2})[\]\)]`, as in `[S01E03]`.
    Bracketed,
    /// `\b(\d{1,2})\.(\d{2})\b`, as in `1.05`.
    Period,
    /// `(?i)[_\-][eE]p?(\d{1,3})\b`, as in `-E07`.
    Dash,
    /// `(?i)\bEp(?:isode)?[.\s_]?(\d{1,3})\b`, as in `Ep.07`.
    EpWord,
    /// `\b0*(\d{3})\b`, an absolute episode number such as `103`.
    Absolute,
    /// `[^a-zA-Z0-9](\d{1,2})([^a-zA-Z0-9]|$)`, a bare episode number.
    Bare,
}

/// The preferred match of `p` starting exactly at `i`.
pub open spec fn pattern_at(p: EpisodePattern, s: Seq<char>, i: int) -> Option<
    (int, int, int, int, int),
> {
    match p {
        EpisodePattern::SeasonEpisode => sxxexx_at(s, i),
        EpisodePattern::Cross => pair_at(s, i, false),
        EpisodePattern::SeasonText => season_text_at(s, i),
        EpisodePattern::Bracketed => bracketed_at(s, i),
        EpisodePattern::Period => pair_at(s, i, true),
        EpisodePattern::Dash => dash_at(s, i),
        EpisodePattern::EpWord => ep_word_at(s, i),
        EpisodePattern::Absolute => absolute_at(s, i),
        EpisodePattern::Bare => bare_at(s, i),
    }
}

/// The first position at or after `i` where `p` matches, with that match.
pub open spec fn leftmost_from(p: EpisodePattern, s: Seq<char>, i: int) -> Option<
    (int, (int, int, int, int, int)),
>
    decreases s.len() - i,
{
    if i < 0 || i >= s.len() {
        None
    } else {
        match pattern_at(p, s, i) {
            Some(m) => Some((i, m)),
            None => leftmost_from(p, s, i + 1),
        }
    }
}

/// The leftmost match of `p` in `s`: what `Regex::captures` reports.
pub open spec fn leftmost(p: EpisodePattern, s: Seq<char>) -> Option<(int, (int, int, int, int, int))> {
    leftmost_from(p, s, 0)
}

fn pattern_exec(p: EpisodePattern, s: &Vec<char>, i: usize) -> (r: Option<
    (usize, usize, usize, usize, usize),
>)
    requires
        i < s@.len(),
    ensures
        opt_span(r) == pattern_at(p, s@, i as int),
        r matches Some(t) ==> span_ok(s@, i as int, span_of(t)),
{
    match p {
        EpisodePattern::SeasonEpisode => sxxexx_exec(s, i),
        EpisodePattern::Cross => pair_exec(s, i, false),
        EpisodePattern::SeasonText => season_text_exec(s, i),
        EpisodePattern::Bracketed => bracketed_exec(s, i),
        EpisodePattern::Period => pair_exec(s, i, true),
        EpisodePattern::Dash => dash_exec(s, i),
        EpisodePattern::EpWord => ep_word_exec(s, i),
        EpisodePattern::Absolute => absolute_exec(s, i),
        EpisodePattern::Bare => bare_exec(s, i),
    }
}

/// Finds the leftmost match of `p` in `s`: its start and its captures.
pub fn find_leftmost(p: EpisodePattern, s: &Vec<char>) -> (r: Option<
    (usize, (usize, usize, usize, usize, usize)),
>)
    ensures
        match r {
            Some((i, m)) => leftmost(p, s@) == Some((i as int, span_of(m))) && span_ok(
                s@,
                i as int,
                span_of(m),
            ),
            None => leftmost(p, s@) is None,
        },
{
    let mut i: usize = 0;
    while i < s.len()
        invariant
            i <= s@.len(),
            leftmost(p, s@) == leftmost_from(p, s@, i as int),
        decreases s@.len() - i,
    {
        match pattern_exec(p, s, i) {
            Some(m) => {
                return Some((i, m));
            },
            None => {},
        }
        i = i + 1;
    }
    None
}

// ---------------------------------------------------------------------------
// Capture lengths
// ---------------------------------------------------------------------------

/// The captures of a match of `p` have the lengths the pattern allows: one or
/// two digits in each capture of the two-capture patterns, one to three
/// digits in the capture of the others.
pub open spec fn capture_lengths_ok(p: EpisodePattern, m: (int, int, int, int, int)) -> bool {
    match p {
        EpisodePattern::Dash | EpisodePattern::EpWord | EpisodePattern::Absolute
        | EpisodePattern::Bare => 1 <= m.1 <= 3,
        _ => 1 <= m.1 <= 2 && 1 <= m.3 <= 2,
    }
}

proof fn lemma_gap_search_lengths(s: Seq<char>, q: int, g: nat)
    ensures
        gap_search(s, q, g) matches Some((c, l)) ==> 1 <= l <= 2,
    decreases g,
{
    if g > 0 {
        lemma_gap_search_lengths(s, q, (g - 1) as nat);
    }
}

proof fn lemma_absolute_search_lengths(s: Seq<char>, i: int, z: nat)
    ensures
        absolute_search(s, i, z) matches Some(m) ==> m.1 == 3,
    decreases z,
{
    if z > 0 {
        lemma_absolute_search_lengths(s, i, (z - 1) as nat);
    }
}

/// Every match of a pattern has captures of the allowed lengths.
pub proof fn lemma_pattern_lengths(p: EpisodePattern, s: Seq<char>, i: int)
    ensures
        pattern_at(p, s, i) matches Some(m) ==> capture_lengths_ok(p, m),
{
    match p {
        EpisodePattern::SeasonText => {
            let w = space_run(s, i + 6);
            let pp = i + 6 + w;
            lemma_gap_search_lengths(s, pp + 1, non_digit_run(s, pp + 1, 20) as nat);
            lemma_gap_search_lengths(s, pp + 2, non_digit_run(s, pp + 2, 20) as nat);
        },
        EpisodePattern::Absolute => {
            lemma_absolute_search_lengths(s, i, zero_run(s, i) as nat);
        },
        _ => {},
    }
}

/// The leftmost match is a match of the pattern at its position.
pub proof fn lemma_leftmost_is_match(p: EpisodePattern, s: Seq<char>, i: int)
    ensures
        leftmost_from(p, s, i) matches Some((j, m)) ==> pattern_at(p, s, j) == Some(m),
    decreases s.len() - i,
{
    if 0 <= i < s.len() && pattern_at(p, s, i) is None {
        lemma_leftmost_is_match(p, s, i + 1);
    }
}

} // verus!
