//! Character-level primitives for path strings: ASCII case folding,
//! extraction of the final path segment and of the file extension,
//! prefix tests and lexicographic comparison.
//!
//! Paths are modelled as sequences of characters with `/` as the
//! separator.  The final segment of a path is what remains after
//! stripping trailing separators and everything up to the last
//! remaining separator; the extension of a name is the part after the
//! last dot, provided that dot is not the leading character of the
//! name.

use vstd::prelude::*;

verus! {

// ---------------------------------------------------------------------------
// ASCII case folding
// ---------------------------------------------------------------------------

/// Lowercase an ASCII letter; every other character is unchanged.
pub open spec fn lower_char(c: char) -> char {
    if 'A' <= c && c <= 'Z' {
        (((c as u8) + 32) as char)
    } else {
        c
    }
}

/// Pointwise ASCII case folding of a character sequence.
pub open spec fn lower_seq(s: Seq<char>) -> Seq<char> {
    s.map_values(|c: char| lower_char(c))
}

/// Executable ASCII case folding for one character.
pub fn lower_char_exec(c: char) -> (r: char)
    ensures
        r == lower_char(c),
{
    if 'A' <= c && c <= 'Z' {
        ((c as u8) + 32) as char
    } else {
        c
    }
}

// ---------------------------------------------------------------------------
// Final path segment
// ---------------------------------------------------------------------------

/// Drop every trailing `/` of a path.
pub open spec fn strip_trailing_separators(p: Seq<char>) -> Seq<char>
    decreases p.len(),
{
    if p.len() > 0 && p.last() == '/' {
        strip_trailing_separators(p.drop_last())
    } else {
        p
    }
}

/// The suffix of `p` after its last `/` (all of `p` if it has none).
pub open spec fn last_segment(p: Seq<char>) -> Seq<char>
    decreases p.len(),
{
    if p.len() == 0 {
        Seq::<char>::empty()
    } else if p.last() == '/' {
        Seq::<char>::empty()
    } else {
        last_segment(p.drop_last()).push(p.last())
    }
}

/// The file name of a path: its final segment, ignoring trailing
/// separators.  Empty when the path is empty or consists of separators.
pub open spec fn file_name_spec(p: Seq<char>) -> Seq<char> {
    last_segment(strip_trailing_separators(p))
}

proof fn lemma_strip_trailing_range(p: Seq<char>, e: int)
    requires
        0 <= e <= p.len(),
        forall|j: int| e <= j < p.len() ==> p[j] == '/',
        e == 0 || p[e - 1] != '/',
    ensures
        strip_trailing_separators(p) == p.subrange(0, e),
    decreases p.len(),
{
    if p.len() == e {
        assert(p.subrange(0, e) =~= p);
    } else {
        lemma_strip_trailing_range(p.drop_last(), e);
        assert(p.drop_last().subrange(0, e) =~= p.subrange(0, e));
    }
}

proof fn lemma_last_segment_range(q: Seq<char>, s: int)
    requires
        0 <= s <= q.len(),
        forall|j: int| s <= j < q.len() ==> q[j] != '/',
        s == 0 || q[s - 1] == '/',
    ensures
        last_segment(q) == q.subrange(s, q.len() as int),
    decreases q.len(),
{
    if q.len() == s {
        assert(q.subrange(s, q.len() as int) =~= Seq::<char>::empty());
    } else {
        lemma_last_segment_range(q.drop_last(), s);
        assert(q.drop_last().subrange(s, q.len() - 1) =~= q.subrange(s, q.len() - 1));
        assert(q.subrange(s, q.len() - 1).push(q[q.len() - 1]) =~= q.subrange(s, q.len() as int));
    }
}

/// Character bounds of the file name of `path`: the name is
/// `path@.subrange(r.0, r.1)`, it contains no separator, and dropping
/// it leaves either nothing or a separator-terminated prefix.
fn file_name_bounds(path: &str) -> (r: (usize, usize))
    ensures
        r.0 <= r.1 <= path@.len(),
        file_name_spec(path@) == path@.subrange(r.0 as int, r.1 as int),
        forall|j: int| r.0 <= j < r.1 ==> path@[j] != '/',
{
    let n = path.unicode_len();
    let mut end = n;
    while end > 0 && path.get_char(end - 1) == '/'
        invariant
            0 <= end <= n,
            n == path@.len(),
            forall|j: int| end <= j < n ==> path@[j] == '/',
        decreases end,
    {
        end = end - 1;
    }
    let mut start = end;
    while start > 0 && path.get_char(start - 1) != '/'
        invariant
            0 <= start <= end <= n,
            n == path@.len(),
            forall|j: int| start <= j < end ==> path@[j] != '/',
        decreases start,
    {
        start = start - 1;
    }
    proof {
        lemma_strip_trailing_range(path@, end as int);
        let q = path@.subrange(0, end as int);
        lemma_last_segment_range(q, start as int);
        assert(q.subrange(start as int, q.len() as int) =~= path@.subrange(
            start as int,
            end as int,
        ));
    }
    (start, end)
}

/// The file name of `path` as a fresh string.
pub fn get_file_name(path: &str) -> (r: String)
    ensures
        r@ == file_name_spec(path@),
{
    let (start, end) = file_name_bounds(path);
    path.substring_char(start, end).to_owned()
}

// ---------------------------------------------------------------------------
// File extension
// ---------------------------------------------------------------------------

/// The extension of a file name: the part after the last dot, where a
/// dot in leading position does not count (names like `.profile` have
/// no extension).
pub open spec fn extension_of_name(f: Seq<char>) -> Option<Seq<char>>
    decreases f.len(),
{
    if f.len() < 2 {
        None
    } else if f.last() == '.' {
        Some(Seq::<char>::empty())
    } else {
        match extension_of_name(f.drop_last()) {
            Some(e) => Some(e.push(f.last())),
            None => None,
        }
    }
}

/// The extension of a path: the extension of its file name.
pub open spec fn extension_spec(p: Seq<char>) -> Option<Seq<char>> {
    extension_of_name(file_name_spec(p))
}

proof fn lemma_extension_found(f: Seq<char>, k: int)
    requires
        1 <= k < f.len(),
        f[k] == '.',
        forall|j: int| k < j < f.len() ==> f[j] != '.',
    ensures
        extension_of_name(f) == Some(f.subrange(k + 1, f.len() as int)),
    decreases f.len(),
{
    if k == f.len() - 1 {
        assert(f.subrange(k + 1, f.len() as int) =~= Seq::<char>::empty());
    } else {
        lemma_extension_found(f.drop_last(), k);
        assert(f.drop_last().subrange(k + 1, f.len() - 1) =~= f.subrange(k + 1, f.len() - 1));
        assert(f.subrange(k + 1, f.len() - 1).push(f[f.len() - 1]) =~= f.subrange(
            k + 1,
            f.len() as int,
        ));
    }
}

proof fn lemma_extension_none(f: Seq<char>)
    requires
        forall|j: int| 1 <= j < f.len() ==> f[j] != '.',
    ensures
        extension_of_name(f) is None,
    decreases f.len(),
{
    if f.len() >= 2 {
        lemma_extension_none(f.drop_last());
    }
}

/// Character bounds of the extension of `path`, if it has one.
pub fn extension_bounds(path: &str) -> (r: Option<(usize, usize)>)
    ensures
        match r {
            Some(b) => b.0 <= b.1 <= path@.len() && extension_spec(path@) == Some(
                path@.subrange(b.0 as int, b.1 as int),
            ),
            None => extension_spec(path@) is None,
        },
{
    let (ns, ne) = file_name_bounds(path);
    let ghost f = path@.subrange(ns as int, ne as int);
    let mut d = ne;
    while d > 0 && d - 1 > ns && path.get_char(d - 1) != '.'
        invariant
            ns <= d <= ne,
            ns <= ne <= path@.len(),
            forall|j: int| d <= j < ne ==> path@[j] != '.',
        decreases d,
    {
        d = d - 1;
    }
    if d > 0 && d - 1 > ns && path.get_char(d - 1) == '.' {
        proof {
            lemma_extension_found(f, d - 1 - ns as int);
            assert(f.subrange(d - ns as int, f.len() as int) =~= path@.subrange(
                d as int,
                ne as int,
            ));
        }
        Some((d, ne))
    } else {
        proof {
            assert forall|j: int| 1 <= j < f.len() implies f[j] != '.' by {
                assert(f[j] == path@[ns + j]);
            }
            lemma_extension_none(f);
        }
        None
    }
}

// ---------------------------------------------------------------------------
// Case-folded comparison of a region against a literal
// ---------------------------------------------------------------------------

/// Does the ASCII-lowercased region `[a, b)` of `s` spell exactly `lit`?
pub fn region_lower_eq(s: &str, a: usize, b: usize, lit: &str) -> (r: bool)
    requires
        a <= b <= s@.len(),
    ensures
        r == (lower_seq(s@.subrange(a as int, b as int)) == lit@),
{
    let ghost region = s@.subrange(a as int, b as int);
    let m = lit.unicode_len();
    if b - a != m {
        proof {
            assert(lower_seq(region).len() == region.len());
        }
        return false;
    }
    let mut i: usize = 0;
    while i < m
        invariant
            0 <= i <= m,
            m == lit@.len(),
            a + m == b <= s@.len(),
            region == s@.subrange(a as int, b as int),
            forall|j: int| 0 <= j < i ==> lower_char(region[j]) == lit@[j],
        decreases m - i,
    {
        let c = lower_char_exec(s.get_char(a + i));
        if c != lit.get_char(i) {
            proof {
                assert(lower_seq(region)[i as int] != lit@[i as int]);
            }
            return false;
        }
        i = i + 1;
    }
    proof {
        assert(lower_seq(region) =~= lit@);
    }
    true
}

/// Character-for-character equality of two strings.
pub fn str_eq(a: &str, b: &str) -> (r: bool)
    ensures
        r == (a@ == b@),
{
    let n = a.unicode_len();
    if n != b.unicode_len() {
        return false;
    }
    let mut i: usize = 0;
    while i < n
        invariant
            0 <= i <= n,
            n == a@.len() && n == b@.len(),
            forall|j: int| 0 <= j < i ==> a@[j] == b@[j],
        decreases n - i,
    {
        if a.get_char(i) != b.get_char(i) {
            return false;
        }
        i = i + 1;
    }
    proof {
        assert(a@ =~= b@);
    }
    true
}

// ---------------------------------------------------------------------------
// Prefix test
// ---------------------------------------------------------------------------

/// Does `s` start with `prefix`, character for character?
pub fn str_starts_with(s: &str, prefix: &str) -> (r: bool)
    ensures
        r == prefix@.is_prefix_of(s@),
{
    let m = prefix.unicode_len();
    let n = s.unicode_len();
    if m > n {
        return false;
    }
    let mut i: usize = 0;
    while i < m
        invariant
            0 <= i <= m <= n,
            m == prefix@.len(),
            n == s@.len(),
            forall|j: int| 0 <= j < i ==> s@[j] == prefix@[j],
        decreases m - i,
    {
        if s.get_char(i) != prefix.get_char(i) {
            proof {
                assert(s@.subrange(0, m as int)[i as int] != prefix@[i as int]);
            }
            return false;
        }
        i = i + 1;
    }
    proof {
        assert(s@.subrange(0, m as int) =~= prefix@);
    }
    true
}

} // verus!
