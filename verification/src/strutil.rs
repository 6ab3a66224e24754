//! Verified string scanning primitives shared by the registry parser
//! and the path translators: substring search, first-occurrence
//! replacement, prefix stripping, whitespace trimming and splitting.

use vstd::prelude::*;
use vstd::string::StrSliceExecFns;
use vstd::string::StringExecFns;

verus! {

/// The views of a sequence of string slices.
pub open spec fn views_of(ts: Seq<&str>) -> Seq<Seq<char>> {
    ts.map_values(|t: &str| t@)
}

/// `pat` occurs in `s` starting at position `i`.
pub open spec fn occurs_at(s: Seq<char>, pat: Seq<char>, i: int) -> bool {
    0 <= i && i + pat.len() <= s.len() && s.subrange(i, i + pat.len() as int) == pat
}

/// Position of the first occurrence of `pat` in `s` at or after `i`.
pub open spec fn spec_find_from(s: Seq<char>, pat: Seq<char>, i: int) -> Option<int>
    decreases s.len() - i + 1,
{
    if i < 0 || i + pat.len() > s.len() {
        None
    } else if occurs_at(s, pat, i) {
        Some(i)
    } else {
        spec_find_from(s, pat, i + 1)
    }
}

/// Position of the first occurrence of `pat` in `s`, if any.
pub open spec fn spec_find(s: Seq<char>, pat: Seq<char>) -> Option<int> {
    spec_find_from(s, pat, 0)
}

pub proof fn lemma_find_from_some(s: Seq<char>, pat: Seq<char>, i0: int, i: int)
    requires
        0 <= i0,
        spec_find_from(s, pat, i0) == Some(i),
    ensures
        i0 <= i,
        occurs_at(s, pat, i),
    decreases s.len() - i0 + 1,
{
    if i0 + pat.len() > s.len() {
    } else if occurs_at(s, pat, i0) {
    } else {
        lemma_find_from_some(s, pat, i0 + 1, i);
    }
}

pub proof fn lemma_find_at_start(s: Seq<char>, pat: Seq<char>)
    requires
        pat.len() <= s.len(),
        s.subrange(0, pat.len() as int) == pat,
    ensures
        spec_find(s, pat) == Some(0int),
{
    assert(occurs_at(s, pat, 0));
}

/// Whether `s` begins with `pat`, as a check at a given offset.
pub fn starts_with_at(s: &str, pat: &str, at: usize) -> (r: bool)
    requires
        at + pat@.len() <= s@.len(),
    ensures
        r == occurs_at(s@, pat@, at as int),
{
    let n = s.unicode_len();
    let m = pat.unicode_len();
    let mut j: usize = 0;
    while j < m
        invariant
            n == s@.len(),
            at + m <= n,
            m == pat@.len(),
            j <= m,
            forall|k: int| 0 <= k < j ==> s@[at + k] == pat@[k],
        decreases m - j,
    {
        if s.get_char(at + j) != pat.get_char(j) {
            proof {
                assert(s@.subrange(at as int, at + m as int)[j as int] == s@[at + j]);
            }
            return false;
        }
        j += 1;
    }
    proof {
        assert(s@.subrange(at as int, at + m as int) =~= pat@);
    }
    true
}

/// First occurrence of `pat` in `s`, by character index.
pub fn find_first(s: &str, pat: &str) -> (r: Option<usize>)
    ensures
        match r {
            Some(i) => spec_find(s@, pat@) == Some(i as int),
            None => spec_find(s@, pat@) is None,
        },
{
    let n = s.unicode_len();
    let m = pat.unicode_len();
    if m > n {
        return None;
    }
    if m == 0 {
        proof {
            assert(s@.subrange(0, 0) =~= pat@);
            assert(occurs_at(s@, pat@, 0));
        }
        return Some(0);
    }
    let mut i: usize = 0;
    while i <= n - m
        invariant
            0 < m <= n,
            n == s@.len(),
            m == pat@.len(),
            i <= n - m + 1,
            spec_find(s@, pat@) == spec_find_from(s@, pat@, i as int),
        decreases n - i,
    {
        if starts_with_at(s, pat, i) {
            return Some(i);
        }
        i += 1;
    }
    proof {
        assert(spec_find_from(s@, pat@, i as int) is None);
    }
    None
}

/// What replacing the first occurrence of `pat` in `s` by `rep` yields;
/// `s` itself when `pat` does not occur.
pub open spec fn spec_replace_first(s: Seq<char>, pat: Seq<char>, rep: Seq<char>) -> Seq<char> {
    match spec_find(s, pat) {
        Some(i) => s.subrange(0, i) + rep + s.subrange(i + pat.len() as int, s.len() as int),
        None => s,
    }
}

/// Replaces at most one occurrence of `pat` in `s` by `rep`.
pub fn replace_first(s: &str, pat: &str, rep: &str) -> (r: String)
    ensures
        r@ == spec_replace_first(s@, pat@, rep@),
{
    match find_first(s, pat) {
        Some(i) => {
            proof {
                lemma_find_from_some(s@, pat@, 0, i as int);
            }
            let n = s.unicode_len();
            let m = pat.unicode_len();
            let head = s.substring_char(0, i);
            let tail = s.substring_char(i + m, n);
            let r = head.to_owned().concat(rep).concat(tail);
            proof {
                assert(r@ =~= spec_replace_first(s@, pat@, rep@));
            }
            r
        },
        None => s.to_owned(),
    }
}

/// What stripping one leading occurrence of `pre` from `s` yields;
/// `s` itself when `s` does not begin with `pre`.
pub open spec fn spec_strip_prefix(s: Seq<char>, pre: Seq<char>) -> Seq<char> {
    if pre.len() <= s.len() && s.subrange(0, pre.len() as int) == pre {
        s.subrange(pre.len() as int, s.len() as int)
    } else {
        s
    }
}

/// Strips one occurrence of `pre` from the start of `s`, if present.
pub fn strip_prefix_once<'a>(s: &'a str, pre: &str) -> (r: &'a str)
    ensures
        r@ == spec_strip_prefix(s@, pre@),
{
    let n = s.unicode_len();
    let m = pre.unicode_len();
    if m <= n && starts_with_at(s, pre, 0) {
        s.substring_char(m, n)
    } else {
        s
    }
}

/// Character-for-character string equality.
pub fn str_eq(a: &str, b: &str) -> (r: bool)
    ensures
        r == (a@ == b@),
{
    let n = a.unicode_len();
    let m = b.unicode_len();
    if n != m {
        return false;
    }
    let mut i: usize = 0;
    while i < n
        invariant
            n == a@.len(),
            n == b@.len(),
            i <= n,
            forall|k: int| 0 <= k < i ==> a@[k] == b@[k],
        decreases n - i,
    {
        if a.get_char(i) != b.get_char(i) {
            return false;
        }
        i += 1;
    }
    proof {
        assert(a@ =~= b@);
    }
    true
}

/// The whitespace characters recognised when a line is trimmed.
pub open spec fn is_ws(c: char) -> bool {
    c == ' ' || c == '\t' || c == '\r' || c == '\n' || c == '\u{000B}' || c == '\u{000C}'
}

/// Whitespace test on a character.
pub fn is_ws_char(c: char) -> (r: bool)
    ensures
        r == is_ws(c),
{
    c == ' ' || c == '\t' || c == '\r' || c == '\n' || c == '\u{000B}' || c == '\u{000C}'
}

/// `s` with leading whitespace removed.
pub open spec fn spec_trim_front(s: Seq<char>) -> Seq<char>
    decreases s.len(),
{
    if s.len() > 0 && is_ws(s[0]) {
        spec_trim_front(s.drop_first())
    } else {
        s
    }
}

/// `s` with trailing whitespace removed.
pub open spec fn spec_trim_back(s: Seq<char>) -> Seq<char>
    decreases s.len(),
{
    if s.len() > 0 && is_ws(s.last()) {
        spec_trim_back(s.drop_last())
    } else {
        s
    }
}

/// `s` with surrounding whitespace removed.
pub open spec fn spec_trim(s: Seq<char>) -> Seq<char> {
    spec_trim_back(spec_trim_front(s))
}

/// Removes surrounding whitespace.
pub fn trim_ws(s: &str) -> (r: &str)
    ensures
        r@ == spec_trim(s@),
{
    let n = s.unicode_len();
    let mut a: usize = 0;
    proof {
        assert(s@.skip(0) =~= s@);
    }
    while a < n && is_ws_char(s.get_char(a))
        invariant
            n == s@.len(),
            a <= n,
            spec_trim_front(s@) == spec_trim_front(s@.skip(a as int)),
        decreases n - a,
    {
        proof {
            assert(s@.skip(a as int).drop_first() =~= s@.skip(a + 1));
        }
        a += 1;
    }
    proof {
        if a < n {
            assert(s@.skip(a as int)[0] == s@[a as int]);
        }
        assert(spec_trim_front(s@) =~= s@.skip(a as int));
        assert(s@.skip(a as int) =~= s@.subrange(a as int, n as int));
    }
    let mut b: usize = n;
    while b > a && is_ws_char(s.get_char(b - 1))
        invariant
            n == s@.len(),
            a <= b <= n,
            spec_trim_front(s@) == s@.skip(a as int),
            spec_trim_back(s@.skip(a as int)) == spec_trim_back(s@.subrange(a as int, b as int)),
        decreases b,
    {
        proof {
            assert(s@.subrange(a as int, b as int).drop_last() =~= s@.subrange(
                a as int,
                b - 1,
            ));
        }
        b -= 1;
    }
    proof {
        if b > a {
            assert(s@.subrange(a as int, b as int).last() == s@[b - 1]);
        }
        assert(spec_trim_back(s@.subrange(a as int, b as int)) =~= s@.subrange(a as int, b as int));
    }
    s.substring_char(a, b)
}

/// Position of the first character at or after `i` that equals `c1` or `c2`.
pub open spec fn spec_sep_from(s: Seq<char>, c1: char, c2: char, i: int) -> Option<int>
    decreases s.len() - i,
{
    if i < 0 || i >= s.len() {
        None
    } else if s[i] == c1 || s[i] == c2 {
        Some(i)
    } else {
        spec_sep_from(s, c1, c2, i + 1)
    }
}

pub proof fn lemma_sep_from_at(s: Seq<char>, c1: char, c2: char, i0: int, d: int)
    requires
        0 <= i0 <= d < s.len(),
        forall|k: int| i0 <= k < d ==> !(s[k] == c1 || s[k] == c2),
        s[d] == c1 || s[d] == c2,
    ensures
        spec_sep_from(s, c1, c2, i0) == Some(d),
    decreases d - i0,
{
    if i0 < d {
        lemma_sep_from_at(s, c1, c2, i0 + 1, d);
    }
}

pub proof fn lemma_sep_from_none(s: Seq<char>, c1: char, c2: char, i0: int)
    requires
        0 <= i0,
        forall|k: int| i0 <= k < s.len() ==> !(s[k] == c1 || s[k] == c2),
    ensures
        spec_sep_from(s, c1, c2, i0) is None,
    decreases s.len() - i0,
{
    if i0 < s.len() {
        lemma_sep_from_none(s, c1, c2, i0 + 1);
    }
}

/// The segments of `s` between occurrences of `c1` or `c2`. Splitting
/// never yields an empty sequence: a string without separators is one
/// segment, and each separator ends a (possibly empty) segment.
pub open spec fn spec_split(s: Seq<char>, c1: char, c2: char) -> Seq<Seq<char>>
    decreases s.len(),
{
    match spec_sep_from(s, c1, c2, 0) {
        Some(i) => {
            if 0 <= i < s.len() {
                seq![s.subrange(0, i)] + spec_split(s.subrange(i + 1, s.len() as int), c1, c2)
            } else {
                seq![s]
            }
        },
        None => seq![s],
    }
}

/// Splits `s` on every occurrence of `c1` or `c2`.
pub fn split_chars<'a>(s: &'a str, c1: char, c2: char) -> (r: Vec<&'a str>)
    ensures
        views_of(r@) == spec_split(s@, c1, c2),
        r@.len() > 0,
{
    let n = s.unicode_len();
    let mut parts: Vec<&'a str> = Vec::new();
    let mut start: usize = 0;
    let mut i: usize = 0;
    proof {
        assert(s@.subrange(0, n as int) =~= s@);
        assert(views_of(parts@) + spec_split(s@, c1, c2) =~= spec_split(s@, c1, c2));
    }
    while i < n
        invariant
            n == s@.len(),
            start <= i <= n,
            forall|k: int| start <= k < i ==> !(s@[k] == c1 || s@[k] == c2),
            spec_split(s@, c1, c2) == views_of(parts@) + spec_split(
                s@.subrange(start as int, n as int),
                c1,
                c2,
            ),
        decreases n - i,
    {
        let c = s.get_char(i);
        if c == c1 || c == c2 {
            let ghost rem = s@.subrange(start as int, n as int);
            proof {
                lemma_sep_from_at(rem, c1, c2, 0, i - start);
                assert(rem.subrange(0, i - start) =~= s@.subrange(start as int, i as int));
                assert(rem.subrange(i - start + 1, rem.len() as int) =~= s@.subrange(
                    i + 1,
                    n as int,
                ));
            }
            let piece = s.substring_char(start, i);
            parts.push(piece);
            proof {
                assert(views_of(parts@) =~= views_of(parts@.drop_last()) + seq![piece@]);
                assert(spec_split(s@, c1, c2) == views_of(parts@) + spec_split(
                    s@.subrange(i + 1, n as int),
                    c1,
                    c2,
                ));
            }
            start = i + 1;
        }
        i += 1;
    }
    let ghost rem = s@.subrange(start as int, n as int);
    proof {
        lemma_sep_from_none(rem, c1, c2, 0);
    }
    let piece = s.substring_char(start, n);
    parts.push(piece);
    proof {
        assert(views_of(parts@) =~= views_of(parts@.drop_last()) + seq![piece@]);
        assert(views_of(parts@) =~= spec_split(s@, c1, c2));
    }
    parts
}

} // verus!
