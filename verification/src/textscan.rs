//! Character-level scanning primitives over `&str`, used by the pattern
//! classifier and the identity resolver. All results are stated against the
//! string's view (`Seq<char>`), so callers reason about exact positions.

use vstd::prelude::*;
use vstd::string::StrSliceExecFns;

verus! {

/// True when `needle` occurs in `hay` starting at position `at`.
pub open spec fn occurs_at(hay: Seq<char>, needle: Seq<char>, at: int) -> bool {
    &&& 0 <= at
    &&& at + needle.len() <= hay.len()
    &&& hay.subrange(at, at + needle.len()) == needle
}

/// True when `needle` occurs somewhere in `hay`.
pub open spec fn contains_seq(hay: Seq<char>, needle: Seq<char>) -> bool {
    exists|i: int| occurs_at(hay, needle, i)
}

/// True when `hay` ends with `needle`.
pub open spec fn ends_with_seq(hay: Seq<char>, needle: Seq<char>) -> bool {
    occurs_at(hay, needle, hay.len() - needle.len())
}

/// Whether `pat` occurs in `s` at position `pos`.
pub fn starts_with_at(s: &str, pos: usize, pat: &str) -> (r: bool)
    requires
        pos <= s@.len(),
    ensures
        r == occurs_at(s@, pat@, pos as int),
{
    let n = s.unicode_len();
    let pl = pat.unicode_len();
    if pl > n - pos {
        assert(!occurs_at(s@, pat@, pos as int));
        return false;
    }
    let mut i: usize = 0;
    while i < pl
        invariant
            pos + pl <= n,
            n == s@.len(),
            pl == pat@.len(),
            i <= pl,
            forall|j: int| 0 <= j < i ==> s@[pos + j] == pat@[j],
        decreases pl - i,
    {
        if s.get_char(pos + i) != pat.get_char(i) {
            assert(!occurs_at(s@, pat@, pos as int)) by {
                if s@.subrange(pos as int, pos + pat@.len()) == pat@ {
                    assert(s@.subrange(pos as int, pos + pat@.len())[i as int] == pat@[i as int]);
                }
            }
            return false;
        }
        i += 1;
    }
    assert(s@.subrange(pos as int, pos + pat@.len()) =~= pat@);
    true
}

/// Whether two strings hold the same characters.
pub fn str_eq(a: &str, b: &str) -> (r: bool)
    ensures
        r == (a@ == b@),
{
    let na = a.unicode_len();
    let nb = b.unicode_len();
    if na != nb {
        return false;
    }
    let r = starts_with_at(a, 0, b);
    assert(a@.subrange(0, a@.len() as int) =~= a@);
    r
}

/// Whether `hay` ends with `pat`.
pub fn ends_with(hay: &str, pat: &str) -> (r: bool)
    ensures
        r == ends_with_seq(hay@, pat@),
{
    let n = hay.unicode_len();
    let pl = pat.unicode_len();
    if pl > n {
        return false;
    }
    starts_with_at(hay, n - pl, pat)
}

/// Position of the first occurrence of the character `c` in `s` at or after
/// `pos`, if any.
pub fn find_char_from(s: &str, pos: usize, c: char) -> (r: Option<usize>)
    requires
        pos <= s@.len(),
    ensures
        match r {
            Some(i) => {
                &&& pos <= i < s@.len()
                &&& s@[i as int] == c
                &&& forall|j: int| pos <= j < i ==> s@[j] != c
            },
            None => forall|j: int| pos <= j < s@.len() ==> s@[j] != c,
        },
{
    let n = s.unicode_len();
    let mut i: usize = pos;
    while i < n
        invariant
            pos <= i <= n,
            n == s@.len(),
            forall|j: int| pos <= j < i ==> s@[j] != c,
        decreases n - i,
    {
        if s.get_char(i) == c {
            return Some(i);
        }
        i += 1;
    }
    None
}

/// Position of the first occurrence of `pat` in `s` at or after `pos`, if any.
pub fn find_str_from(s: &str, pos: usize, pat: &str) -> (r: Option<usize>)
    requires
        pos <= s@.len(),
    ensures
        match r {
            Some(i) => {
                &&& pos <= i
                &&& occurs_at(s@, pat@, i as int)
                &&& forall|j: int| pos <= j < i ==> !occurs_at(s@, pat@, j)
            },
            None => forall|j: int| pos <= j ==> !occurs_at(s@, pat@, j),
        },
{
    let n = s.unicode_len();
    let pl = pat.unicode_len();
    if pl == 0 {
        assert(s@.subrange(pos as int, pos as int) =~= pat@);
        return Some(pos);
    }
    let mut i: usize = pos;
    while i < n
        invariant
            pos <= i <= n,
            n == s@.len(),
            pl == pat@.len(),
            forall|j: int| pos <= j < i ==> !occurs_at(s@, pat@, j),
        decreases n - i,
    {
        if starts_with_at(s, i, pat) {
            return Some(i);
        }
        i += 1;
    }
    None
}

} // verus!
