//! Lexical utilities on slash-separated archive entry paths.
//!
//! Everything here is pure string logic: ASCII case folding, suffix tests,
//! splitting a path into its final segment and its parent prefix, the
//! platform-metadata prefix test, traversal-safety of relative paths, and
//! joining an entry path under a target directory.

use vstd::prelude::*;

verus! {

/// ASCII lowercase image of one character; other characters are unchanged.
pub open spec fn lower_char_spec(c: char) -> char {
    match c {
        'A' => 'a',
        'B' => 'b',
        'C' => 'c',
        'D' => 'd',
        'E' => 'e',
        'F' => 'f',
        'G' => 'g',
        'H' => 'h',
        'I' => 'i',
        'J' => 'j',
        'K' => 'k',
        'L' => 'l',
        'M' => 'm',
        'N' => 'n',
        'O' => 'o',
        'P' => 'p',
        'Q' => 'q',
        'R' => 'r',
        'S' => 's',
        'T' => 't',
        'U' => 'u',
        'V' => 'v',
        'W' => 'w',
        'X' => 'x',
        'Y' => 'y',
        'Z' => 'z',
        _ => c,
    }
}

pub fn lower_char(c: char) -> (r: char)
    ensures
        r == lower_char_spec(c),
{
    match c {
        'A' => 'a',
        'B' => 'b',
        'C' => 'c',
        'D' => 'd',
        'E' => 'e',
        'F' => 'f',
        'G' => 'g',
        'H' => 'h',
        'I' => 'i',
        'J' => 'j',
        'K' => 'k',
        'L' => 'l',
        'M' => 'm',
        'N' => 'n',
        'O' => 'o',
        'P' => 'p',
        'Q' => 'q',
        'R' => 'r',
        'S' => 's',
        'T' => 't',
        'U' => 'u',
        'V' => 'v',
        'W' => 'w',
        'X' => 'x',
        'Y' => 'y',
        'Z' => 'z',
        _ => c,
    }
}

/// `s` ends, ASCII-case-insensitively, with `suffix` (given in lowercase).
pub open spec fn ends_ci(s: Seq<char>, suffix: Seq<char>) -> bool {
    &&& suffix.len() <= s.len()
    &&& forall|j: int|
        0 <= j < suffix.len() ==> lower_char_spec(s[s.len() - suffix.len() + j]) == suffix[j]
}

/// `s` equals `t` ASCII-case-insensitively (`t` given in lowercase).
pub open spec fn eq_ci(s: Seq<char>, t: Seq<char>) -> bool {
    &&& s.len() == t.len()
    &&& forall|j: int| 0 <= j < t.len() ==> lower_char_spec(s[j]) == t[j]
}

pub fn str_ends_ci(s: &str, suffix: &str) -> (r: bool)
    ensures
        r == ends_ci(s@, suffix@),
{
    let n = s.unicode_len();
    let m = suffix.unicode_len();
    if m > n {
        return false;
    }
    let mut j: usize = 0;
    while j < m
        invariant
            0 <= j <= m,
            m <= n,
            n == s@.len(),
            m == suffix@.len(),
            forall|t: int| 0 <= t < j ==> lower_char_spec(s@[n - m + t]) == suffix@[t],
        decreases m - j,
    {
        let cs = s.get_char(n - m + j);
        let cf = suffix.get_char(j);
        if lower_char(cs) != cf {
            return false;
        }
        j += 1;
    }
    true
}

pub fn str_eq_ci(s: &str, t: &str) -> (r: bool)
    ensures
        r == eq_ci(s@, t@),
{
    let n = s.unicode_len();
    let m = t.unicode_len();
    if m != n {
        return false;
    }
    let mut j: usize = 0;
    while j < m
        invariant
            0 <= j <= m,
            m == n,
            n == s@.len(),
            m == t@.len(),
            forall|x: int| 0 <= x < j ==> lower_char_spec(s@[x]) == t@[x],
        decreases m - j,
    {
        if lower_char(s.get_char(j)) != t.get_char(j) {
            return false;
        }
        j += 1;
    }
    true
}

/// Index of the last occurrence of `c` in `s`, or -1 when absent.
pub open spec fn find_last(s: Seq<char>, c: char) -> int
    decreases s.len(),
{
    if s.len() == 0 {
        -1
    } else if s[s.len() - 1] == c {
        s.len() - 1
    } else {
        find_last(s.drop_last(), c)
    }
}

pub proof fn lemma_find_last(s: Seq<char>, c: char)
    ensures
        -1 <= find_last(s, c) < s.len(),
        find_last(s, c) >= 0 ==> s[find_last(s, c)] == c,
        forall|i: int| find_last(s, c) < i < s.len() ==> s[i] != c,
    decreases s.len(),
{
    if s.len() > 0 && s[s.len() - 1] != c {
        lemma_find_last(s.drop_last(), c);
        assert(forall|i: int|
            0 <= i < s.len() - 1 ==> s.drop_last()[i] == s[i]);
    }
}

/// Last occurrence of `c` among the first `end` characters of `s`.
fn find_last_below(s: &str, c: char, end: usize) -> (r: Option<usize>)
    requires
        end <= s@.len(),
    ensures
        match r {
            Some(k) => k < end && k == find_last(s@.subrange(0, end as int), c),
            None => find_last(s@.subrange(0, end as int), c) == -1,
        },
{
    let ghost pre = s@.subrange(0, end as int);
    let mut i = end;
    while i > 0
        invariant
            0 <= i <= end,
            end <= s@.len(),
            pre == s@.subrange(0, end as int),
            forall|t: int| i <= t < end ==> s@[t] != c,
        decreases i,
    {
        i -= 1;
        if s.get_char(i) == c {
            proof {
                lemma_find_last(pre, c);
                let k = find_last(pre, c);
                assert(pre[i as int] == c);
                assert(k >= 0);
                if k < i {
                    assert(pre[i as int] != c);
                }
                if k > i {
                    assert(pre[k] == c);
                    assert(s@[k] != c);
                }
                assert(k == i);
            }
            return Some(i);
        }
    }
    proof {
        lemma_find_last(pre, c);
        let k = find_last(pre, c);
        if k >= 0 {
            assert(pre[k] == c);
            assert(s@[k] != c);
        }
    }
    None
}

/// A path with one trailing separator removed, if it has one.
pub open spec fn strip_slash(p: Seq<char>) -> Seq<char> {
    if p.len() > 0 && p[p.len() - 1] == '/' {
        p.drop_last()
    } else {
        p
    }
}

/// Final path segment: what follows the last separator, ignoring one
/// trailing separator.
pub open spec fn name_of(p: Seq<char>) -> Seq<char> {
    let s = strip_slash(p);
    s.subrange(find_last(s, '/') + 1, s.len() as int)
}

/// Parent prefix: everything up to and including the last separator,
/// ignoring one trailing separator; `None` for root-level paths.
pub open spec fn parent_of(p: Seq<char>) -> Option<Seq<char>> {
    let s = strip_slash(p);
    let k = find_last(s, '/');
    if k < 0 {
        None
    } else {
        Some(s.subrange(0, k + 1))
    }
}

/// A present parent prefix is strictly shorter than the path itself.
pub proof fn lemma_parent_shorter(p: Seq<char>)
    ensures
        parent_of(p) matches Some(q) ==> q.len() < p.len(),
        parent_of(p) matches Some(q) ==> q.len() > 0,
{
    let s = strip_slash(p);
    lemma_find_last(s, '/');
    let k = find_last(s, '/');
    if k >= 0 {
        if s.len() == p.len() {
            assert(s == p);
            assert(p[p.len() - 1] != '/');
            assert(s[k] == '/');
            assert(k < p.len() - 1);
        }
    }
}

/// Splits a path into its final segment and its optional parent prefix.
pub fn split_path(path: &str) -> (r: (String, Option<String>))
    ensures
        r.0@ == name_of(path@),
        match r.1 {
            Some(q) => parent_of(path@) matches Some(qs) && q@ == qs,
            None => parent_of(path@) is None,
        },
{
    let n = path.unicode_len();
    let end = if n > 0 && path.get_char(n - 1) == '/' {
        n - 1
    } else {
        n
    };
    proof {
        assert(path@.subrange(0, end as int) =~= strip_slash(path@));
    }
    let k = find_last_below(path, '/', end);
    match k {
        Some(k) => {
            let name = String::from_str(path.substring_char(k + 1, end));
            let par = String::from_str(path.substring_char(0, k + 1));
            proof {
                lemma_find_last(strip_slash(path@), '/');
                assert(name@ =~= name_of(path@));
                assert(par@ =~= parent_of(path@)->Some_0);
            }
            (name, Some(par))
        },
        None => {
            let name = String::from_str(path.substring_char(0, end));
            proof {
                assert(name@ =~= name_of(path@));
            }
            (name, None)
        },
    }
}

/// The reserved platform-metadata folder marker.
pub open spec fn metadata_marker() -> Seq<char> {
    "__MACOSX"@
}

/// The path begins with the platform-metadata folder marker.
pub open spec fn is_metadata_path(p: Seq<char>) -> bool {
    &&& metadata_marker().len() <= p.len()
    &&& forall|j: int| 0 <= j < metadata_marker().len() ==> p[j] == metadata_marker()[j]
}

pub fn is_metadata(path: &str) -> (r: bool)
    ensures
        r == is_metadata_path(path@),
{
    let marker = "__MACOSX";
    proof {
        reveal_strlit("__MACOSX");
    }
    let n = path.unicode_len();
    if n < 8 {
        return false;
    }
    let mut j: usize = 0;
    while j < 8
        invariant
            0 <= j <= 8,
            n == path@.len(),
            8 <= n,
            marker@ == metadata_marker(),
            marker@.len() == 8,
            forall|t: int| 0 <= t < j ==> path@[t] == metadata_marker()[t],
        decreases 8 - j,
    {
        if path.get_char(j) != marker.get_char(j) {
            return false;
        }
        j += 1;
    }
    true
}

/// A `..` path segment begins at index `i` of `p`.
pub open spec fn dotdot_at(p: Seq<char>, i: int) -> bool {
    &&& 0 <= i
    &&& i + 2 <= p.len()
    &&& (i == 0 || p[i - 1] == '/')
    &&& p[i] == '.'
    &&& p[i + 1] == '.'
    &&& (i + 2 == p.len() || p[i + 2] == '/')
}

/// A stored entry path that extraction may follow: nonempty, relative, and
/// free of traversal (`..`) segments, so joining it under a target directory
/// cannot escape that directory.
pub open spec fn is_safe_rel_path(p: Seq<char>) -> bool {
    &&& p.len() > 0
    &&& p[0] != '/'
    &&& !(exists|i: int| dotdot_at(p, i))
}

pub fn is_safe_path(path: &str) -> (r: bool)
    ensures
        r == is_safe_rel_path(path@),
{
    let n = path.unicode_len();
    if n == 0 {
        return false;
    }
    if path.get_char(0) == '/' {
        return false;
    }
    let mut i: usize = 0;
    while i < n
        invariant
            0 <= i <= n,
            n == path@.len(),
            n > 0,
            path@[0] != '/',
            forall|t: int| 0 <= t < i ==> !dotdot_at(path@, t),
        decreases n - i,
    {
        let seg_start = i == 0 || path.get_char(i - 1) == '/';
        if seg_start && n - i >= 2 {
            if path.get_char(i) == '.' && path.get_char(i + 1) == '.' {
                if i + 2 == n || path.get_char(i + 2) == '/' {
                    assert(dotdot_at(path@, i as int));
                    return false;
                }
            }
        }
        proof {
            if dotdot_at(path@, i as int) {
                assert(i + 2 <= n);
                assert(path@[i as int] == '.');
            }
        }
        i += 1;
    }
    true
}

/// `entry` joined under `target` with one separator between them.
pub open spec fn joined_path(target: Seq<char>, entry: Seq<char>) -> Seq<char> {
    target + seq!['/'] + entry
}

pub fn join_under(target: &str, entry: &str) -> (r: String)
    ensures
        r@ == joined_path(target@, entry@),
{
    proof {
        reveal_strlit("/");
    }
    let mut r = String::from_str(target);
    r.append("/");
    r.append(entry);
    proof {
        assert(r@ =~= joined_path(target@, entry@));
    }
    r
}

/// A path followed by a trailing separator, added only when absent.
pub open spec fn with_dir_slash(p: Seq<char>) -> Seq<char> {
    if p.len() > 0 && p[p.len() - 1] == '/' {
        p
    } else {
        p + seq!['/']
    }
}

pub fn ensure_dir_slash(path: &str) -> (r: String)
    ensures
        r@ == with_dir_slash(path@),
{
    proof {
        reveal_strlit("/");
    }
    let n = path.unicode_len();
    let mut r = String::from_str(path);
    if n == 0 || path.get_char(n - 1) != '/' {
        r.append("/");
    }
    proof {
        assert(r@ =~= with_dir_slash(path@));
    }
    r
}

} // verus!
