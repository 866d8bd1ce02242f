//! A selector-based query engine for tree-structured documents.
//!
//! Given a textual selector (a CSS-like mini-language) and a parsed document
//! tree, the engine returns the ordered subset of nodes matching the
//! selector.  An empty or blank selector means no filtering; a malformed
//! selector is rejected as a whole.

pub mod evaluation;
pub mod laws;
pub mod literals;
pub mod node;
pub mod parser;
pub mod query;
pub mod text;

use vstd::prelude::*;

use crate::node::Node;
use crate::parser::parse_selector;
use crate::query::apply_selector;

verus! {

/// A character the selector's surrounding blank space is made of.
pub open spec fn is_blank(c: char) -> bool {
    ('\u{0009}' <= c <= '\u{000D}') || c == ' ' || c == '\u{0085}' || c == '\u{00A0}' || c
        == '\u{1680}' || ('\u{2000}' <= c <= '\u{200A}') || c == '\u{2028}' || c == '\u{2029}' || c
        == '\u{202F}' || c == '\u{205F}' || c == '\u{3000}'
}

/// The first index of `s` that holds no blank character, from `i` on.
pub open spec fn blank_prefix_end(s: Seq<char>, i: int) -> int
    decreases s.len() - i,
{
    if 0 <= i < s.len() && is_blank(s[i]) {
        blank_prefix_end(s, i + 1)
    } else {
        i
    }
}

/// The index past the last non-blank character of `s`, before `j`.
pub open spec fn blank_suffix_start(s: Seq<char>, j: int) -> int
    decreases j,
{
    if 0 < j <= s.len() && is_blank(s[j - 1]) {
        blank_suffix_start(s, j - 1)
    } else {
        j
    }
}

/// The text with its surrounding blank space removed.
pub open spec fn trimmed(s: Seq<char>) -> Seq<char> {
    let a = blank_prefix_end(s, 0);
    let b = blank_suffix_start(s, s.len() as int);
    if a <= b {
        s.subrange(a, b)
    } else {
        Seq::empty()
    }
}

/// Decides [`is_blank`].
fn blank(c: char) -> (r: bool)
    ensures
        r == is_blank(c),
{
    ('\u{0009}' <= c && c <= '\u{000D}') || c == ' ' || c == '\u{0085}' || c == '\u{00A0}' || c
        == '\u{1680}' || ('\u{2000}' <= c && c <= '\u{200A}') || c == '\u{2028}' || c
        == '\u{2029}' || c == '\u{202F}' || c == '\u{205F}' || c == '\u{3000}'
}

/// The characters of the selector text, trimmed of blank space.
fn trimmed_chars(input: &str) -> (r: Vec<char>)
    ensures
        r@ == trimmed(input@),
{
    let s = crate::text::chars_of(input);
    let n = s.len();
    let mut a: usize = 0;
    while a < n && blank(s[a])
        invariant
            a <= n == s@.len(),
            s@ == input@,
            blank_prefix_end(s@, 0) == blank_prefix_end(s@, a as int),
        decreases n - a,
    {
        a = a + 1;
    }
    let mut b: usize = n;
    while b > 0 && blank(s[b - 1])
        invariant
            b <= n == s@.len(),
            s@ == input@,
            blank_suffix_start(s@, n as int) == blank_suffix_start(s@, b as int),
        decreases b,
    {
        b = b - 1;
    }
    let mut r: Vec<char> = Vec::new();
    if a <= b {
        let mut p = a;
        while p < b
            invariant
                a <= p <= b <= n == s@.len(),
                s@ == input@,
                r@ =~= s@.subrange(a as int, p as int),
            decreases b - p,
        {
            r.push(s[p]);
            proof {
                assert(r@ =~= s@.subrange(a as int, p as int + 1));
            }
            p = p + 1;
        }
    }
    proof {
        assert(a as int == blank_prefix_end(s@, 0));
        assert(b as int == blank_suffix_start(s@, n as int));
        assert(r@ =~= trimmed(input@));
    }
    r
}

/// Runs a selector against a document: an empty or blank selector returns
/// the document unchanged; a well-formed selector is evaluated; a malformed
/// one is rejected.
pub fn query_document(input: &str, document: Vec<Node>) -> (r: Result<Vec<Node>, String>)
    ensures
        match r {
            Ok(out) => {
                let t = trimmed(input@);
                if t.len() == 0 {
                    out.deep_view() == document.deep_view()
                } else {
                    parse_selector(t) matches Some(sel) && out.deep_view() == apply_selector(
                        sel,
                        document.deep_view(),
                    )
                }
            },
            Err(_) => trimmed(input@).len() != 0 && parse_selector(trimmed(input@)) is None,
        },
{
    let t = trimmed_chars(input);
    if t.len() == 0 {
        return Ok(document);
    }
    match crate::parser::selector(&t) {
        Some((sel, consumed)) => {
            if consumed == t.len() {
                Ok(crate::query::query_by_selector(&sel, document))
            } else {
                Err(String::from_str("failed to parse the selector"))
            }
        },
        None => Err(String::from_str("failed to parse the selector")),
    }
}

} // verus!
