//! The last component of a `/`-separated path and its extension, with the
//! rules of `std::path::Path::file_name` and `Path::extension` on Unix.
use vstd::prelude::*;

verus! {

/// Index of the last `/` in `s[0..end]`, or -1 when there is none.
pub open spec fn last_slash(s: Seq<char>, end: int) -> int
    decreases end,
{
    if end <= 0 {
        -1
    } else if s[end - 1] == '/' {
        end - 1
    } else {
        last_slash(s, end - 1)
    }
}

/// `last_slash` lies before `end`.
pub proof fn lemma_last_slash_bound(s: Seq<char>, end: int)
    requires
        0 <= end <= s.len(),
    ensures
        -1 <= last_slash(s, end) < end,
        last_slash(s, end) >= 0 ==> s[last_slash(s, end)] == '/',
        forall|k: int| last_slash(s, end) < k < end ==> s[k] != '/',
    decreases end,
{
    if end > 0 && s[end - 1] != '/' {
        lemma_last_slash_bound(s, end - 1);
    }
}

/// The bounds `[a, b)` of the final normal component of `s[0..end]`: empty and
/// `.` components are skipped; a final `..` (or no component at all) gives none.
pub open spec fn file_name_bounds(s: Seq<char>, end: int) -> Option<(int, int)>
    decreases end,
{
    if end < 0 || end > s.len() {
        None
    } else {
        let j = last_slash(s, end);
        let piece = s.subrange(j + 1, end);
        if piece.len() == 0 || piece == seq!['.'] {
            if j < 0 || j >= end {
                None
            } else {
                file_name_bounds(s, j)
            }
        } else if piece == seq!['.', '.'] {
            None
        } else {
            Some((j + 1, end))
        }
    }
}

/// `Path::new(s).file_name()`: the final normal component of `s`.
pub open spec fn file_name_of(s: Seq<char>) -> Option<Seq<char>> {
    match file_name_bounds(s, s.len() as int) {
        Some((a, b)) => Some(s.subrange(a, b)),
        None => None,
    }
}

/// Index of the last `.` in `s[a..b]`, or -1 when there is none.
pub open spec fn last_dot(s: Seq<char>, a: int, b: int) -> int
    decreases b - a,
{
    if b <= a {
        -1
    } else if s[b - 1] == '.' {
        b - 1
    } else {
        last_dot(s, a, b - 1)
    }
}

/// `Path::new(s).extension()`: the text after the last `.` of the file name,
/// when a dot is present and something precedes it.
pub open spec fn extension_of(s: Seq<char>) -> Option<Seq<char>> {
    match file_name_bounds(s, s.len() as int) {
        Some((a, b)) => {
            let k = last_dot(s, a, b);
            if k < 0 || k == a {
                None
            } else {
                Some(s.subrange(k + 1, b))
            }
        },
        None => None,
    }
}

proof fn lemma_last_dot_bound(s: Seq<char>, a: int, b: int)
    requires
        0 <= a <= b <= s.len(),
    ensures
        last_dot(s, a, b) == -1 || (a <= last_dot(s, a, b) < b && s[last_dot(s, a, b)] == '.'),
    decreases b - a,
{
    if b > a && s[b - 1] != '.' {
        lemma_last_dot_bound(s, a, b - 1);
    }
}

/// Executable form of [`file_name_bounds`] over the whole of `s`.
pub fn file_name_range(s: &Vec<char>) -> (r: Option<(usize, usize)>)
    ensures
        match r {
            Some((a, b)) => file_name_bounds(s@, s@.len() as int) == Some((a as int, b as int))
                && a <= b <= s@.len(),
            None => file_name_bounds(s@, s@.len() as int) is None,
        },
{
    let mut end: usize = s.len();
    loop
        invariant
            end <= s@.len(),
            file_name_bounds(s@, s@.len() as int) == file_name_bounds(s@, end as int),
        decreases end,
    {
        let mut j: usize = end;
        while j > 0 && s[j - 1] != '/'
            invariant
                j <= end <= s@.len(),
                last_slash(s@, end as int) == last_slash(s@, j as int),
            decreases j,
        {
            j = j - 1;
        }
        proof {
            lemma_last_slash_bound(s@, end as int);
        }
        let ghost jj: int = last_slash(s@, end as int);
        let start: usize = j;
        // `start` is one past the separator (or 0)
        assert(start as int == jj + 1);
        let len = end - start;
        let piece_is_dot = len == 1 && s[start] == '.';
        if len == 0 || piece_is_dot {
            proof {
                let piece = s@.subrange(jj + 1, end as int);
                if len == 1 {
                    assert(piece =~= seq![s@[start as int]]);
                }
                if len == 0 {
                    assert(piece.len() == 0);
                }
            }
            if start == 0 {
                return None;
            }
            end = start - 1;
        } else {
            let piece_is_dotdot = len == 2 && s[start] == '.' && s[start + 1] == '.';
            proof {
                let piece = s@.subrange(jj + 1, end as int);
                if len == 1 {
                    assert(piece =~= seq![s@[start as int]]);
                    assert(piece.len() != 2);
                }
                if len == 2 {
                    assert(piece =~= seq![s@[start as int], s@[start + 1]]);
                }
                if len > 2 {
                    assert(piece.len() != 2 && piece.len() != 1);
                }
            }
            if piece_is_dotdot {
                return None;
            }
            proof {
                let piece = s@.subrange(jj + 1, end as int);
                assert(piece.len() != 0);
                if piece == seq!['.'] {
                    assert(piece[0] == '.');
                }
                if piece == seq!['.', '.'] {
                    assert(piece[0] == '.' && piece[1] == '.');
                }
                assert(!(piece == seq!['.']));
                assert(!(piece == seq!['.', '.']));
            }
            return Some((start, end));
        }
    }
}

/// Executable form of [`extension_of`]: the bounds of the extension in `s`.
pub fn extension_range(s: &Vec<char>) -> (r: Option<(usize, usize)>)
    ensures
        match r {
            Some((a, b)) => extension_of(s@) == Some(s@.subrange(a as int, b as int)) && a <= b
                <= s@.len(),
            None => extension_of(s@) is None,
        },
{
    match file_name_range(s) {
        None => None,
        Some((a, b)) => {
            let mut k: usize = b;
            while k > a && s[k - 1] != '.'
                invariant
                    a <= k <= b <= s@.len(),
                    last_dot(s@, a as int, b as int) == last_dot(s@, a as int, k as int),
                decreases k,
            {
                k = k - 1;
            }
            proof {
                lemma_last_dot_bound(s@, a as int, b as int);
            }
            if k == a || k - 1 == a {
                None
            } else {
                Some((k, b))
            }
        },
    }
}

/// A single normal path component: non-empty, free of `/`, and neither `.`
/// nor `..`.
pub open spec fn is_plain_name(n: Seq<char>) -> bool {
    &&& n.len() > 0
    &&& forall|k: int| 0 <= k < n.len() ==> n[k] != '/'
    &&& n != seq!['.']
    &&& n != seq!['.', '.']
}

proof fn lemma_last_slash_is(s: Seq<char>, j: int, end: int)
    requires
        -1 <= j < end <= s.len(),
        j >= 0 ==> s[j] == '/',
        forall|k: int| j < k < end ==> s[k] != '/',
    ensures
        last_slash(s, end) == j,
    decreases end,
{
    if end - 1 > j {
        lemma_last_slash_is(s, j, end - 1);
    }
}

/// Law: the file name of `dir/name` is `name`, whatever `dir` holds, and the
/// file name of a plain `name` is the name itself.
pub proof fn lemma_file_name_of_joined(dir: Seq<char>, name: Seq<char>)
    requires
        is_plain_name(name),
    ensures
        file_name_of(dir + seq!['/'] + name) == Some(name),
        file_name_of(name) == Some(name),
{
    let s = dir + seq!['/'] + name;
    let j = dir.len() as int;
    assert(s[j] == '/');
    assert forall|k: int| j < k < s.len() implies s[k] != '/' by {
        assert(s[k] == name[k - j - 1]);
    }
    lemma_last_slash_is(s, j, s.len() as int);
    let piece = s.subrange(j + 1, s.len() as int);
    assert(piece =~= name);
    lemma_last_slash_is(name, -1, name.len() as int);
    assert(name.subrange(0, name.len() as int) =~= name);
}

proof fn lemma_last_dot_is(s: Seq<char>, a: int, b: int, k: int)
    requires
        a <= k < b <= s.len(),
        s[k] == '.',
        forall|j: int| k < j < b ==> s[j] != '.',
    ensures
        last_dot(s, a, b) == k,
    decreases b - k,
{
    if b - 1 > k {
        lemma_last_dot_is(s, a, b - 1, k);
    }
}

/// Law: a plain file stem, a dot and a non-empty text without dots or slashes
/// has that text as its extension, alone or under any directory.
pub proof fn lemma_extension_of_stem_dot(dir: Seq<char>, stem: Seq<char>, e: Seq<char>)
    requires
        stem.len() > 0,
        forall|k: int| 0 <= k < stem.len() ==> stem[k] != '/',
        e.len() > 0,
        forall|k: int| 0 <= k < e.len() ==> e[k] != '/' && e[k] != '.',
    ensures
        extension_of(stem + seq!['.'] + e) == Some(e),
        extension_of(dir + seq!['/'] + stem + seq!['.'] + e) == Some(e),
{
    let name = stem + seq!['.'] + e;
    assert forall|k: int| 0 <= k < name.len() implies name[k] != '/' by {
        if k < stem.len() {
            assert(name[k] == stem[k]);
        } else if k > stem.len() {
            assert(name[k] == e[k - stem.len() - 1]);
        }
    }
    assert(name.len() >= 3);
    assert(name != seq!['.']);
    assert(name != seq!['.', '.']);
    lemma_file_name_of_joined(dir, name);
    let full = dir + seq!['/'] + name;
    assert(full =~= dir + seq!['/'] + stem + seq!['.'] + e);
    let j = stem.len() as int;
    assert forall|i: int| j < i < name.len() implies name[i] != '.' by {
        assert(name[i] == e[i - j - 1]);
    }
    lemma_last_dot_is(name, 0, name.len() as int, j);
    // the file name of `name` is all of it
    lemma_last_slash_is(name, -1, name.len() as int);
    assert(name.subrange(0, name.len() as int) =~= name);
    assert(name.subrange(j + 1, name.len() as int) =~= e);
    // under a directory, the file name starts after the last slash
    let o = dir.len() + 1int;
    assert(full[o - 1] == '/');
    assert forall|k: int| o - 1 < k < full.len() implies full[k] != '/' by {
        assert(full[k] == name[k - o]);
    }
    lemma_last_slash_is(full, o - 1, full.len() as int);
    assert(full.subrange(o, full.len() as int) =~= name);
    assert forall|i: int| o + j < i < full.len() implies full[i] != '.' by {
        assert(full[i] == name[i - o]);
    }
    assert(full[o + j] == '.');
    lemma_last_dot_is(full, o, full.len() as int, o + j);
    assert(full.subrange(o + j + 1, full.len() as int) =~= e);
}

} // verus!
