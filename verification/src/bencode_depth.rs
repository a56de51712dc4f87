//! How deeply the lists and dictionaries of bencoded bytes nest, read the way
//! a recursive bencode decoder walks them.
//!
//! The walk mirrors the decoder token by token: `l` and `d` open a container,
//! `e` closes one, `i` skips to the next `e`, and any other byte starts a
//! string whose length prefix (optional `+`, decimal digits, no leading zero
//! without the `+`) runs up to `:`. The walk stops where the decoder would
//! fail to find its next token. It never stops earlier than the decoder, so
//! the depth it reports bounds the decoder's recursion depth.
use vstd::prelude::*;

verus! {

/// `l`
pub open spec fn list_open() -> u8 {
    108u8
}

/// `d`
pub open spec fn dict_open() -> u8 {
    100u8
}

/// `e`
pub open spec fn close_byte() -> u8 {
    101u8
}

/// `i`
pub open spec fn int_open() -> u8 {
    105u8
}

/// `:`
pub open spec fn length_end() -> u8 {
    58u8
}

/// The largest nesting of lists and dictionaries that `.torrent` bytes are
/// handed to the decoder with. Torrent files nest five levels deep.
pub const MAX_BENCODE_DEPTH: usize = 256;

/// Index of the first byte `c` in `b` at or after `p`.
pub open spec fn find_byte(b: Seq<u8>, p: int, c: u8) -> Option<int>
    decreases b.len() - p,
{
    if p < 0 || p >= b.len() {
        None
    } else if b[p] == c {
        Some(p)
    } else {
        find_byte(b, p + 1, c)
    }
}

/// Where [`find_byte`] finds a byte, or that none is there.
pub proof fn lemma_find_byte(b: Seq<u8>, p: int, c: u8)
    ensures
        find_byte(b, p, c) matches Some(q) ==> 0 <= p <= q < b.len() && b[q] == c,
        find_byte(b, p, c) is None ==> forall|k: int| 0 <= p <= k < b.len() ==> b[k] != c,
    decreases b.len() - p,
{
    if 0 <= p < b.len() && b[p] != c {
        lemma_find_byte(b, p + 1, c);
    }
}

/// An ASCII decimal digit byte.
pub open spec fn is_digit_byte(c: u8) -> bool {
    48 <= c <= 57
}

/// The decimal value of the digit bytes `u`.
pub open spec fn decimal(u: Seq<u8>) -> nat
    decreases u.len(),
{
    if u.len() == 0 {
        0
    } else {
        10 * decimal(u.drop_last()) + (u.last() - 48) as nat
    }
}

/// A non-empty run of decimal digits, and its value.
pub open spec fn digits_number(u: Seq<u8>) -> Option<nat> {
    if u.len() > 0 && forall|k: int| 0 <= k < u.len() ==> is_digit_byte(u[k]) {
        Some(decimal(u))
    } else {
        None
    }
}

/// The string length written by the text `t` before a `:`: an optional `+`
/// and decimal digits, without a leading zero unless the `+` is there.
pub open spec fn length_value(t: Seq<u8>) -> Option<nat> {
    if t.len() > 0 && t[0] == 43u8 {
        digits_number(t.drop_first())
    } else if t.len() > 1 && t[0] == 48u8 {
        None
    } else {
        digits_number(t)
    }
}

/// The deepest nesting reached by the walk from position `p`, with `d`
/// containers open and `m` the deepest nesting seen so far.
pub open spec fn scan_depth(b: Seq<u8>, p: int, d: nat, m: nat) -> nat
    decreases b.len() - p,
{
    if p < 0 || p >= b.len() {
        m
    } else if b[p] == list_open() || b[p] == dict_open() {
        scan_depth(b, p + 1, d + 1, if d + 1 > m {
            (d + 1) as nat
        } else {
            m
        })
    } else if b[p] == close_byte() {
        if d == 0 {
            m
        } else {
            scan_depth(b, p + 1, (d - 1) as nat, m)
        }
    } else if b[p] == int_open() {
        match find_byte(b, p + 1, close_byte()) {
            Some(q) => {
                proof {
                    lemma_find_byte(b, p + 1, close_byte());
                }
                scan_depth(b, q + 1, d, m)
            },
            None => m,
        }
    } else {
        match find_byte(b, p, length_end()) {
            Some(q) => {
                proof {
                    lemma_find_byte(b, p, length_end());
                }
                match length_value(b.subrange(p, q)) {
                    Some(len) => scan_depth(b, if q + 1 + len <= b.len() {
                        q + 1 + len
                    } else {
                        b.len() as int
                    }, d, m),
                    None => m,
                }
            },
            None => m,
        }
    }
}

/// How deeply the lists and dictionaries of the bencoded bytes `b` nest.
pub open spec fn nesting_depth(b: Seq<u8>) -> nat {
    scan_depth(b, 0, 0, 0)
}

fn find_byte_exec(b: &[u8], p: usize, c: u8) -> (r: Option<usize>)
    ensures
        opt_index(r) == find_byte(b@, p as int, c),
{
    let mut k: usize = p;
    while k < b.len()
        invariant
            p <= k,
            find_byte(b@, p as int, c) == find_byte(b@, k as int, c),
        decreases b@.len() - k,
    {
        if b[k] == c {
            return Some(k);
        }
        k = k + 1;
    }
    None
}

/// An optional index, widened.
pub open spec fn opt_index(r: Option<usize>) -> Option<int> {
    match r {
        Some(q) => Some(q as int),
        None => None,
    }
}

proof fn lemma_decimal_step(u: Seq<u8>, k: int)
    requires
        0 <= k < u.len(),
    ensures
        decimal(u.take(k + 1)) == 10 * decimal(u.take(k)) + (u[k] - 48) as nat,
{
    assert(u.take(k + 1).drop_last() =~= u.take(k));
}

/// The digits `b[a..q]` (`a < q`), and their value capped at `cap`.
fn capped_digits(b: &[u8], a: usize, q: usize, cap: usize) -> (r: Option<usize>)
    requires
        a <= q <= b@.len(),
    ensures
        match digits_number(b@.subrange(a as int, q as int)) {
            Some(v) => r == Some(if v <= cap {
                v as usize
            } else {
                cap
            }),
            None => r is None,
        },
{
    if a == q {
        return None;
    }
    let ghost u = b@.subrange(a as int, q as int);
    let mut v: usize = 0;
    let mut k: usize = a;
    while k < q
        invariant
            a <= k <= q <= b@.len(),
            u == b@.subrange(a as int, q as int),
            forall|j: int| 0 <= j < k - a ==> is_digit_byte(u[j]),
            v == (if decimal(u.take(k - a)) <= cap {
                decimal(u.take(k - a))
            } else {
                cap as nat
            }),
        decreases q - k,
    {
        let c = b[k];
        if !(48 <= c && c <= 57) {
            assert(!is_digit_byte(u[k - a]));
            return None;
        }
        proof {
            lemma_decimal_step(u, k - a);
        }
        let next: u128 = (v as u128) * 10 + ((c - 48) as u128);
        if v == cap || next > cap as u128 {
            v = cap;
        } else {
            v = next as usize;
        }
        k = k + 1;
    }
    assert(u.take(u.len() as int) =~= u);
    Some(v)
}

/// The string length written in `b[a..q]`, capped at `cap`.
fn capped_length(b: &[u8], a: usize, q: usize, cap: usize) -> (r: Option<usize>)
    requires
        a <= q <= b@.len(),
    ensures
        match length_value(b@.subrange(a as int, q as int)) {
            Some(v) => r == Some(if v <= cap {
                v as usize
            } else {
                cap
            }),
            None => r is None,
        },
{
    let ghost t = b@.subrange(a as int, q as int);
    if a < q && b[a] == 43u8 {
        assert(t.drop_first() =~= b@.subrange(a + 1, q as int));
        capped_digits(b, a + 1, q, cap)
    } else if q - a > 1 && b[a] == 48u8 {
        None
    } else {
        capped_digits(b, a, q, cap)
    }
}

/// How deeply the lists and dictionaries of the bencoded bytes `b` nest.
pub fn bencode_nesting_depth(b: &[u8]) -> (r: usize)
    ensures
        r == nesting_depth(b@),
{
    let n = b.len();
    let mut p: usize = 0;
    let mut d: usize = 0;
    let mut m: usize = 0;
    loop
        invariant
            n == b@.len(),
            p <= n,
            d <= p,
            m <= n,
            nesting_depth(b@) == scan_depth(b@, p as int, d as nat, m as nat),
        decreases n - p,
    {
        if p >= n {
            return m;
        }
        let c = b[p];
        if c == 108u8 || c == 100u8 {
            d = d + 1;
            if d > m {
                m = d;
            }
            p = p + 1;
        } else if c == 101u8 {
            if d == 0 {
                return m;
            }
            d = d - 1;
            p = p + 1;
        } else if c == 105u8 {
            proof {
                lemma_find_byte(b@, p + 1, close_byte());
            }
            match find_byte_exec(b, p + 1, 101u8) {
                Some(q) => {
                    p = q + 1;
                },
                None => {
                    return m;
                },
            }
        } else {
            proof {
                lemma_find_byte(b@, p as int, length_end());
            }
            match find_byte_exec(b, p, 58u8) {
                Some(q) => match capped_length(b, p, q, n - (q + 1)) {
                    Some(len) => {
                        p = q + 1 + len;
                    },
                    None => {
                        return m;
                    },
                },
                None => {
                    return m;
                },
            }
        }
    }
}

} // verus!
