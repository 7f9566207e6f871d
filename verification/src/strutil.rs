//! Small verified string helpers: equality, substring search, prefix test
//! and ASCII case folding, each specified over the character view.

use vstd::prelude::*;
use vstd::string::{StrSliceExecFns, StringExecFns};

verus! {

/// Character-level ASCII lowercasing; characters outside 'A'..'Z' are kept.
/// The case-insensitive comparisons built on this fold ASCII letters only:
/// every word in the operator-label tables is plain ASCII, so a label
/// matches a table entry exactly when its ASCII-folded form does.
pub open spec fn lower_char(c: char) -> char {
    if 'A' <= c && c <= 'Z' {
        ((c as u8) + 32) as char
    } else {
        c
    }
}

/// View of a string after ASCII case folding.
pub open spec fn lower_seq(s: Seq<char>) -> Seq<char> {
    s.map_values(|c: char| lower_char(c))
}

/// `n` occurs in `h` starting at position `i`.
pub open spec fn matches_at(h: Seq<char>, n: Seq<char>, i: int) -> bool {
    &&& 0 <= i
    &&& i + n.len() <= h.len()
    &&& h.subrange(i, i + n.len() as int) == n
}

/// `n` occurs somewhere in `h`.
pub open spec fn contains_seq(h: Seq<char>, n: Seq<char>) -> bool {
    exists|i: int| matches_at(h, n, i)
}

/// `p` is a prefix of `h`.
pub open spec fn starts_with_seq(h: Seq<char>, p: Seq<char>) -> bool {
    p.len() <= h.len() && h.subrange(0, p.len() as int) == p
}

/// String equality decided through the character views.
pub fn str_eq(a: &str, b: &str) -> (r: bool)
    ensures
        r == (a@ == b@),
{
    let sa: String = a.to_owned();
    let sb: String = b.to_owned();
    sa == sb
}

/// Case-insensitive comparison of `a` against an already-lowercase `b`,
/// decided as equality of `a`'s folded view with `b`'s view.
pub fn str_ieq(a: &str, b: &str) -> (r: bool)
    ensures
        r == (lower_seq(a@) == b@),
{
    let n = a.unicode_len();
    let m = b.unicode_len();
    if n != m {
        assert(lower_seq(a@).len() == a@.len());
        return false;
    }
    let mut i: usize = 0;
    while i < n
        invariant
            n == a@.len(),
            n == b@.len(),
            i <= n,
            forall|k: int| 0 <= k < i ==> lower_seq(a@)[k] == b@[k],
        decreases n - i,
    {
        let c = a.get_char(i);
        let lc: char = if 'A' <= c && c <= 'Z' {
            ((c as u8) + 32) as char
        } else {
            c
        };
        assert(lc == lower_seq(a@)[i as int]);
        if lc != b.get_char(i) {
            assert(lower_seq(a@) != b@) by {
                assert(lower_seq(a@)[i as int] != b@[i as int]);
            }
            return false;
        }
        i = i + 1;
    }
    assert(lower_seq(a@) =~= b@);
    true
}

/// Whether `h` and `n` agree over `n`'s length starting at position `i` of `h`.
fn matches_here(h: &str, n: &str, i: usize) -> (r: bool)
    requires
        i + n@.len() <= h@.len(),
        h@.len() <= usize::MAX,
    ensures
        r == matches_at(h@, n@, i as int),
{
    let m = n.unicode_len();
    let mut j: usize = 0;
    while j < m
        invariant
            m == n@.len(),
            j <= m,
            i + m <= h@.len(),
            h@.len() <= usize::MAX,
            forall|k: int| 0 <= k < j ==> h@[i + k] == n@[k],
        decreases m - j,
    {
        if h.get_char(i + j) != n.get_char(j) {
            assert(h@.subrange(i as int, i + m) != n@) by {
                assert(h@.subrange(i as int, i + m)[j as int] != n@[j as int]);
            }
            return false;
        }
        j = j + 1;
    }
    assert(h@.subrange(i as int, i + m) =~= n@);
    true
}

/// Substring search, specified as existence of a match position.
pub fn str_contains(h: &str, n: &str) -> (r: bool)
    ensures
        r == contains_seq(h@, n@),
{
    let hl = h.unicode_len();
    let nl = n.unicode_len();
    if nl > hl {
        assert(forall|i: int| !matches_at(h@, n@, i));
        return false;
    }
    let limit: usize = hl - nl;
    let mut i: usize = 0;
    loop
        invariant
            hl == h@.len(),
            nl == n@.len(),
            nl <= hl,
            limit == hl - nl,
            i <= limit,
            forall|k: int| 0 <= k < i ==> !matches_at(h@, n@, k),
        decreases limit - i,
    {
        if matches_here(h, n, i) {
            return true;
        }
        assert(!matches_at(h@, n@, i as int));
        if i == limit {
            assert forall|k: int| !matches_at(h@, n@, k) by {
                if 0 <= k < i {
                } else if k == limit {
                } else {
                    assert(!(0 <= k && k + n@.len() <= h@.len()));
                }
            }
            return false;
        }
        i = i + 1;
    }
}

/// Concatenation of five pieces, for assembling messages.
pub fn concat5(a: &str, b: &str, c: &str, d: &str, e: &str) -> (r: String)
    ensures
        r@ == a@ + b@ + c@ + d@ + e@,
{
    let mut s: String = a.to_owned();
    s.append(b);
    s.append(c);
    s.append(d);
    s.append(e);
    s
}

/// Prefix test, specified over the views.
pub fn str_starts_with(h: &str, p: &str) -> (r: bool)
    ensures
        r == starts_with_seq(h@, p@),
{
    let hl = h.unicode_len();
    let pl = p.unicode_len();
    if pl > hl {
        return false;
    }
    matches_here(h, p, 0)
}

} // verus!
