//! Character-level text helpers shared by the parser and the matcher.

use vstd::prelude::*;

verus! {

/// Compares two string slices by their character sequences.
pub fn str_eq(a: &str, b: &str) -> (r: bool)
    ensures
        r == (a@ == b@),
{
    let n = a.unicode_len();
    if n != b.unicode_len() {
        proof {
            assert(a@ != b@) by {
                assert(a@.len() != b@.len());
            }
        }
        return false;
    }
    for i in 0..n
        invariant
            n == a@.len(),
            n == b@.len(),
            forall|j: int| 0 <= j < i ==> a@[j] == b@[j],
    {
        if a.get_char(i) != b.get_char(i) {
            return false;
        }
    }
    proof {
        assert(a@ =~= b@);
    }
    true
}

/// Collects the characters of a string slice into a vector.
pub fn chars_of(s: &str) -> (r: Vec<char>)
    ensures
        r@ == s@,
{
    let n = s.unicode_len();
    let mut r: Vec<char> = Vec::new();
    for i in 0..n
        invariant
            n == s@.len(),
            r@ == s@.subrange(0, i as int),
    {
        r.push(s.get_char(i));
        proof {
            assert(r@ =~= s@.subrange(0, i as int + 1));
        }
    }
    proof {
        assert(s@.subrange(0, n as int) =~= s@);
    }
    r
}

/// Holds when `s` begins with the prefix `p`.
pub open spec fn seq_starts_with(s: Seq<char>, p: Seq<char>) -> bool {
    p.len() <= s.len() && s.subrange(0, p.len() as int) == p
}

/// Holds when `s` ends with the suffix `p`.
pub open spec fn seq_ends_with(s: Seq<char>, p: Seq<char>) -> bool {
    p.len() <= s.len() && s.subrange(s.len() - p.len(), s.len() as int) == p
}

/// Holds when `p` occurs in `s` at position `i`.
pub open spec fn seq_matches_at(s: Seq<char>, p: Seq<char>, i: int) -> bool {
    0 <= i && i + p.len() <= s.len() && s.subrange(i, i + p.len()) == p
}

/// Holds when `p` occurs somewhere in `s`.
pub open spec fn seq_contains(s: Seq<char>, p: Seq<char>) -> bool {
    exists|i: int| seq_matches_at(s, p, i)
}

/// Compares `p` against the characters of `s` starting at `off`.
pub fn match_at(s: &str, p: &str, off: usize) -> (r: bool)
    requires
        off + p@.len() <= s@.len(),
    ensures
        r == seq_matches_at(s@, p@, off as int),
{
    let n = s.unicode_len();
    let m = p.unicode_len();
    for j in 0..m
        invariant
            n == s@.len(),
            m == p@.len(),
            off + m <= s@.len(),
            forall|k: int| 0 <= k < j ==> s@[off + k] == p@[k],
    {
        if s.get_char(off + j) != p.get_char(j) {
            return false;
        }
    }
    proof {
        assert(s@.subrange(off as int, off as int + m as int) =~= p@);
    }
    true
}

/// Decides whether `s` begins with `p`.
pub fn str_starts_with(s: &str, p: &str) -> (r: bool)
    ensures
        r == seq_starts_with(s@, p@),
{
    if p.unicode_len() > s.unicode_len() {
        return false;
    }
    match_at(s, p, 0)
}

/// Decides whether `s` ends with `p`.
pub fn str_ends_with(s: &str, p: &str) -> (r: bool)
    ensures
        r == seq_ends_with(s@, p@),
{
    let n = s.unicode_len();
    let m = p.unicode_len();
    if m > n {
        return false;
    }
    match_at(s, p, n - m)
}

/// Decides whether `p` occurs somewhere in `s`.
pub fn str_contains(s: &str, p: &str) -> (r: bool)
    ensures
        r == seq_contains(s@, p@),
{
    let n = s.unicode_len();
    let m = p.unicode_len();
    if m > n {
        proof {
            assert(forall|i: int| !seq_matches_at(s@, p@, i));
        }
        return false;
    }
    if m == 0 {
        proof {
            assert(s@.subrange(0, 0) =~= p@);
            assert(seq_matches_at(s@, p@, 0));
        }
        return true;
    }
    let end = n - m;
    for i in 0..end + 1
        invariant
            n == s@.len(),
            m == p@.len(),
            m <= n,
            end == n - m,
            forall|k: int| 0 <= k < i ==> !seq_matches_at(s@, p@, k),
    {
        if match_at(s, p, i) {
            return true;
        }
    }
    proof {
        assert(forall|k: int| seq_matches_at(s@, p@, k) ==> 0 <= k <= end);
    }
    false
}

/// Relies on `String::push`: appends the character to the string.
#[verifier::external_body]
pub fn push_char(s: &mut String, c: char)
    ensures
        final(s)@ == old(s)@.push(c),
{
    s.push(c)
}

/// Builds a string from a character sequence.
pub fn string_of(chars: &Vec<char>) -> (r: String)
    ensures
        r@ == chars@,
{
    let mut r = String::new();
    let n = chars.len();
    for i in 0..n
        invariant
            n == chars@.len(),
            r@ == chars@.subrange(0, i as int),
    {
        push_char(&mut r, chars[i]);
        proof {
            assert(r@ =~= chars@.subrange(0, i as int + 1));
        }
    }
    proof {
        assert(chars@.subrange(0, n as int) =~= chars@);
    }
    r
}

} // verus!
