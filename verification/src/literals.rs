//! The document format's literal grammar: identifiers, quoted and raw
//! strings, numbers in four bases, booleans and null.
//!
//! The selector language reuses these literal forms, so the parser works over
//! a character vector with an explicit position; each parsing function agrees
//! with a specification-level parser over the character sequence.

use vstd::prelude::*;

use crate::node::{Value, ValueV};
use crate::text::string_of;

verus! {

/// A line-break character of the document format.
pub open spec fn is_newline_char(c: char) -> bool {
    c == '\r' || c == '\n' || c == '\u{0085}' || c == '\u{000C}' || c == '\u{2028}' || c
        == '\u{2029}'
}

/// A horizontal space character of the document format.
pub open spec fn is_unicode_space(c: char) -> bool {
    c == ' ' || c == '\t' || c == '\u{00A0}' || c == '\u{1680}' || c == '\u{2000}' || c
        == '\u{2001}' || c == '\u{2002}' || c == '\u{2003}' || c == '\u{2004}' || c == '\u{2005}'
        || c == '\u{2006}' || c == '\u{2007}' || c == '\u{2008}' || c == '\u{2009}' || c
        == '\u{200A}' || c == '\u{202F}' || c == '\u{205F}' || c == '\u{3000}'
}

/// A character excluded from bare identifiers by its syntactic role.
pub open spec fn is_special_char(c: char) -> bool {
    c == '\\' || c == '/' || c == '(' || c == ')' || c == '{' || c == '}' || c == '<' || c == '>'
        || c == ';' || c == '[' || c == ']' || c == '=' || c == ',' || c == '"'
}

/// A character that may stand in a bare identifier: anything but line
/// breaks, spaces, the byte-order mark and the special characters.
pub open spec fn is_identifier_char(c: char) -> bool {
    !is_newline_char(c) && !is_unicode_space(c) && c != '\u{FEFF}' && !is_special_char(c)
}

/// A decimal digit.
pub open spec fn is_digit(c: char) -> bool {
    '0' <= c <= '9'
}

/// A hexadecimal digit.
pub open spec fn is_hex_digit(c: char) -> bool {
    is_digit(c) || ('a' <= c <= 'f') || ('A' <= c <= 'F')
}

/// An octal digit.
pub open spec fn is_oct_digit(c: char) -> bool {
    '0' <= c <= '7'
}

/// A binary digit.
pub open spec fn is_bin_digit(c: char) -> bool {
    c == '0' || c == '1'
}

/// The numeric value of a digit in any of the four bases.
pub open spec fn digit_value(c: char) -> int {
    if is_digit(c) {
        c as int - '0' as int
    } else if 'a' <= c <= 'f' {
        c as int - 'a' as int + 10
    } else if 'A' <= c <= 'F' {
        c as int - 'A' as int + 10
    } else {
        0
    }
}

/// Decides [`is_newline_char`].
pub fn newline_char(c: char) -> (r: bool)
    ensures
        r == is_newline_char(c),
{
    c == '\r' || c == '\n' || c == '\u{0085}' || c == '\u{000C}' || c == '\u{2028}' || c
        == '\u{2029}'
}

/// Decides [`is_unicode_space`].
pub fn unicode_space(c: char) -> (r: bool)
    ensures
        r == is_unicode_space(c),
{
    c == ' ' || c == '\t' || c == '\u{00A0}' || c == '\u{1680}' || c == '\u{2000}' || c
        == '\u{2001}' || c == '\u{2002}' || c == '\u{2003}' || c == '\u{2004}' || c == '\u{2005}'
        || c == '\u{2006}' || c == '\u{2007}' || c == '\u{2008}' || c == '\u{2009}' || c
        == '\u{200A}' || c == '\u{202F}' || c == '\u{205F}' || c == '\u{3000}'
}

/// Decides [`is_identifier_char`].
pub fn identifier_char(c: char) -> (r: bool)
    ensures
        r == is_identifier_char(c),
{
    !newline_char(c) && !unicode_space(c) && c != '\u{FEFF}' && !(c == '\\' || c == '/' || c == '('
        || c == ')' || c == '{' || c == '}' || c == '<' || c == '>' || c == ';' || c == '[' || c
        == ']' || c == '=' || c == ',' || c == '"')
}

/// Decides [`is_digit`].
pub fn digit(c: char) -> (r: bool)
    ensures
        r == is_digit(c),
{
    '0' <= c && c <= '9'
}


/// The position of the first comment terminator at or after `i`, if any.
pub open spec fn find_close(s: Seq<char>, i: int) -> Option<int>
    decreases s.len() - i,
{
    if i + 2 > s.len() {
        None
    } else if s[i] == '*' && s[i + 1] == '/' {
        Some(i)
    } else {
        find_close(s, i + 1)
    }
}

/// The end of a comment body beginning at `i`: the terminator closes it; a
/// nested comment opener is taken as its own comment first; otherwise the
/// scan jumps to the next terminator.
pub open spec fn commented_block(s: Seq<char>, i: int) -> Option<int>
    decreases s.len() - i,
{
    if i < 0 || i + 2 > s.len() {
        None
    } else if s[i] == '*' && s[i + 1] == '/' {
        Some(i + 2)
    } else {
        let step = if s[i] == '/' && s[i + 1] == '*' && commented_block(s, i + 2) is Some {
            commented_block(s, i + 2)
        } else {
            match find_close(s, i) {
                Some(k) => if k > i {
                    Some(k)
                } else {
                    None
                },
                None => if s[i] == '*' || s[i] == '/' {
                    Some(i + 1)
                } else {
                    None
                },
            }
        };
        match step {
            Some(j) => if i < j && j <= s.len() {
                commented_block(s, j)
            } else {
                None
            },
            None => None,
        }
    }
}

/// One whitespace unit: the byte-order mark, a space character, or a whole
/// multi-line comment.
pub open spec fn ws_unit(s: Seq<char>, i: int) -> Option<int> {
    if 0 <= i < s.len() && s[i] == '\u{FEFF}' {
        Some(i + 1)
    } else if 0 <= i < s.len() && is_unicode_space(s[i]) {
        Some(i + 1)
    } else if i + 2 <= s.len() && s[i] == '/' && s[i + 1] == '*' {
        commented_block(s, i + 2)
    } else {
        None
    }
}

/// The end of the longest run of whitespace units from `i`.
pub open spec fn ws_more(s: Seq<char>, i: int) -> int
    decreases s.len() - i,
{
    match ws_unit(s, i) {
        Some(j) => if i < j && j <= s.len() {
            ws_more(s, j)
        } else {
            i
        },
        None => i,
    }
}

/// The end of a non-empty run of whitespace units from `i`, if there is one.
pub open spec fn ws_run(s: Seq<char>, i: int) -> Option<int> {
    match ws_unit(s, i) {
        Some(j) => if i < j && j <= s.len() {
            Some(ws_more(s, j))
        } else {
            None
        },
        None => None,
    }
}

/// Every result of [`ws_more`] lies between `i` and the end of the input.
pub proof fn lemma_ws_more_bounds(s: Seq<char>, i: int)
    requires
        0 <= i <= s.len(),
    ensures
        i <= ws_more(s, i) <= s.len(),
    decreases s.len() - i,
{
    match ws_unit(s, i) {
        Some(j) => {
            if i < j && j <= s.len() {
                lemma_ws_more_bounds(s, j);
            }
        },
        None => {},
    }
}

/// Decides [`find_close`].
fn close_from(s: &Vec<char>, i: usize) -> (r: Option<usize>)
    requires
        i <= s@.len(),
    ensures
        match r {
            Some(k) => i <= k && k + 2 <= s@.len() && find_close(s@, i as int) == Some(k as int),
            None => find_close(s@, i as int) is None,
        },
{
    let mut p = i;
    while p < s.len() && p + 1 < s.len()
        invariant
            i <= p,
            p <= s@.len(),
            find_close(s@, i as int) == find_close(s@, p as int),
        decreases s@.len() - p,
    {
        if s[p] == '*' && s[p + 1] == '/' {
            return Some(p);
        }
        p = p + 1;
    }
    None
}

/// Decides [`commented_block`].
fn comment_block_end(s: &Vec<char>, i: usize) -> (r: Option<usize>)
    requires
        i <= s@.len(),
    ensures
        match r {
            Some(j) => i < j && j <= s@.len() && commented_block(s@, i as int) == Some(j as int),
            None => commented_block(s@, i as int) is None,
        },
    decreases s@.len() - i,
{
    if i >= s.len() || i + 1 >= s.len() {
        return None;
    }
    if s[i] == '*' && s[i + 1] == '/' {
        return Some(i + 2);
    }
    let step: Option<usize> = if s[i] == '/' && s[i + 1] == '*' {
        match comment_block_end(s, i + 2) {
            Some(j) => Some(j),
            None => close_step(s, i),
        }
    } else {
        close_step(s, i)
    };
    match step {
        Some(j) => comment_block_end(s, j),
        None => None,
    }
}

/// The jump-to-terminator alternatives of a comment body.
fn close_step(s: &Vec<char>, i: usize) -> (r: Option<usize>)
    requires
        i + 2 <= s@.len(),
        !(s@[i as int] == '*' && s@[i as int + 1] == '/'),
    ensures
        ({
            let spec_step = match find_close(s@, i as int) {
                Some(k) => if k > i {
                    Some(k)
                } else {
                    None
                },
                None => if s@[i as int] == '*' || s@[i as int] == '/' {
                    Some(i as int + 1)
                } else {
                    None
                },
            };
            match r {
                Some(j) => i < j && j <= s@.len() && spec_step == Some(j as int),
                None => spec_step is None,
            }
        }),
{
    let _n = s.len();
    match close_from(s, i) {
        Some(k) => {
            if k > i {
                Some(k)
            } else {
                None
            }
        },
        None => {
            if s[i] == '*' || s[i] == '/' {
                Some(i + 1)
            } else {
                None
            }
        },
    }
}

/// Consumes one whitespace unit.
fn whitespace(s: &Vec<char>, i: usize) -> (r: Option<usize>)
    requires
        i <= s@.len(),
    ensures
        match r {
            Some(j) => i < j && j <= s@.len() && ws_unit(s@, i as int) == Some(j as int),
            None => ws_unit(s@, i as int) is None,
        },
{
    if i < s.len() && s[i] == '\u{FEFF}' {
        Some(i + 1)
    } else if i < s.len() && unicode_space(s[i]) {
        Some(i + 1)
    } else if i < s.len() && i + 1 < s.len() && s[i] == '/' && s[i + 1] == '*' {
        comment_block_end(s, i + 2)
    } else {
        None
    }
}

/// Consumes a non-empty whitespace run.
pub fn skip_whitespace(s: &Vec<char>, i: usize) -> (r: Option<usize>)
    requires
        i <= s@.len(),
    ensures
        match r {
            Some(j) => i < j && j <= s@.len() && ws_run(s@, i as int) == Some(j as int),
            None => ws_run(s@, i as int) is None,
        },
{
    match whitespace(s, i) {
        None => None,
        Some(first) => {
            let mut p = first;
            loop
                invariant_except_break
                    first <= p <= s@.len(),
                    ws_more(s@, first as int) == ws_more(s@, p as int),
                ensures
                    first <= p <= s@.len(),
                    ws_more(s@, first as int) == p as int,
                decreases s@.len() - p,
            {
                match whitespace(s, p) {
                    Some(q) => {
                        p = q;
                    },
                    None => {
                        break;
                    },
                }
            }
            Some(p)
        },
    }
}


/// Relies on `char::from_u32`: yields the character with the given code
/// point, and nothing for a surrogate or an out-of-range code.
pub assume_specification[ char::from_u32 ](u: u32) -> (r: Option<char>)
    ensures
        (u < 0xD800 || (0xE000 <= u && u <= 0x10FFFF)) ==> r == Some(u as char),
        !(u < 0xD800 || (0xE000 <= u && u <= 0x10FFFF)) ==> r is None,
;

/// The end of the longest run of identifier characters from `i`.
pub open spec fn ident_run(s: Seq<char>, i: int) -> int
    decreases s.len() - i,
{
    if 0 <= i < s.len() && is_identifier_char(s[i]) {
        ident_run(s, i + 1)
    } else {
        i
    }
}

/// Whether one of the keywords `true`, `false`, `null` begins at `i`.
pub open spec fn keyword_at(s: Seq<char>, i: int) -> bool {
    (i + 4 <= s.len() && s[i] == 't' && s[i + 1] == 'r' && s[i + 2] == 'u' && s[i + 3] == 'e') || (
    i + 5 <= s.len() && s[i] == 'f' && s[i + 1] == 'a' && s[i + 2] == 'l' && s[i + 3] == 's' && s[i
        + 4] == 'e') || (i + 4 <= s.len() && s[i] == 'n' && s[i + 1] == 'u' && s[i + 2] == 'l' && s[i
        + 3] == 'l')
}

/// The end of a bare identifier beginning at `i`, if one does.
///
/// A bare identifier must not begin with a keyword, a digit, or a digit
/// after its sign; a lone sign is itself an identifier.
pub open spec fn bare_ident_end(s: Seq<char>, i: int) -> Option<int> {
    if 0 <= i < s.len() && !keyword_at(s, i) && !is_digit(s[i]) && s[i] != '+' && s[i] != '-'
        && is_identifier_char(s[i]) {
        Some(ident_run(s, i + 1))
    } else if 0 <= i < s.len() && (s[i] == '+' || s[i] == '-') && !keyword_at(s, i + 1) && !(i + 1
        < s.len() && is_digit(s[i + 1])) {
        Some(ident_run(s, i + 1))
    } else {
        None
    }
}

/// Decides [`keyword_at`].
fn keyword(s: &Vec<char>, i: usize) -> (r: bool)
    requires
        i <= s@.len(),
    ensures
        r == keyword_at(s@, i as int),
{
    let n = s.len();
    (i < n && n - i >= 4 && s[i] == 't' && s[i + 1] == 'r' && s[i + 2] == 'u' && s[i + 3] == 'e')
        || (i < n && n - i >= 5 && s[i] == 'f' && s[i + 1] == 'a' && s[i + 2] == 'l' && s[i + 3]
        == 's' && s[i + 4] == 'e') || (i < n && n - i >= 4 && s[i] == 'n' && s[i + 1] == 'u' && s[i
        + 2] == 'l' && s[i + 3] == 'l')
}

/// Consumes the longest run of identifier characters.
fn ident_run_end(s: &Vec<char>, i: usize) -> (r: usize)
    requires
        i <= s@.len(),
    ensures
        i <= r <= s@.len(),
        r as int == ident_run(s@, i as int),
{
    let mut p = i;
    while p < s.len() && identifier_char(s[p])
        invariant
            i <= p <= s@.len(),
            ident_run(s@, i as int) == ident_run(s@, p as int),
        decreases s@.len() - p,
    {
        p = p + 1;
    }
    p
}

/// Consumes a bare identifier.
fn bare_identifier(s: &Vec<char>, i: usize) -> (r: Option<usize>)
    requires
        i <= s@.len(),
    ensures
        match r {
            Some(j) => i < j && j <= s@.len() && bare_ident_end(s@, i as int) == Some(j as int),
            None => bare_ident_end(s@, i as int) is None,
        },
{
    if i >= s.len() {
        return None;
    }
    let c = s[i];
    if !keyword(s, i) && !digit(c) && c != '+' && c != '-' && identifier_char(c) {
        Some(ident_run_end(s, i + 1))
    } else if (c == '+' || c == '-') && !keyword(s, i + 1) && !(i + 1 < s.len() && digit(
        s[i + 1],
    )) {
        Some(ident_run_end(s, i + 1))
    } else {
        None
    }
}

/// The mapping of single-character escapes.
pub open spec fn escape_char(c: char) -> Option<char> {
    match c {
        '"' => Some('"'),
        '\\' => Some('\\'),
        '/' => Some('/'),
        'b' => Some('\u{08}'),
        'f' => Some('\u{0C}'),
        'n' => Some('\n'),
        'r' => Some('\r'),
        't' => Some('\t'),
        _ => None,
    }
}

/// Decides [`escape_char`].
fn escape_chars(c: char) -> (r: Option<char>)
    ensures
        r == escape_char(c),
{
    match c {
        '"' => Some('"'),
        '\\' => Some('\\'),
        '/' => Some('/'),
        'b' => Some('\u{08}'),
        'f' => Some('\u{0C}'),
        'n' => Some('\n'),
        'r' => Some('\r'),
        't' => Some('\t'),
        _ => None,
    }
}

/// A hexadecimal digit.
fn hex_digit(c: char) -> (r: bool)
    ensures
        r == is_hex_digit(c),
{
    ('0' <= c && c <= '9') || ('a' <= c && c <= 'f') || ('A' <= c && c <= 'F')
}

/// The end of a run of at most `max` hexadecimal digits from `i`.
pub open spec fn hex_digits_end(s: Seq<char>, i: int, max: int) -> int
    decreases max,
{
    if max > 0 && 0 <= i < s.len() && is_hex_digit(s[i]) {
        hex_digits_end(s, i + 1, max - 1)
    } else {
        i
    }
}

/// Sixteen to the power `k`.
pub open spec fn pow16(k: int) -> int
    decreases k,
{
    if k <= 0 {
        1
    } else {
        16 * pow16(k - 1)
    }
}

proof fn lemma_pow16_pos(k: int)
    ensures
        pow16(k) >= 1,
    decreases k,
{
    if k > 0 {
        lemma_pow16_pos(k - 1);
    }
}

proof fn lemma_pow16_le(a: int, b: int)
    requires
        0 <= a <= b,
    ensures
        pow16(a) <= pow16(b),
    decreases b,
{
    lemma_pow16_pos(a);
    if a < b {
        lemma_pow16_le(a, b - 1);
        lemma_pow16_pos(b - 1);
    }
}

proof fn lemma_hex_value_bound(s: Seq<char>, i: int, j: int)
    requires
        i <= j,
    ensures
        0 <= hex_value(s, i, j) < pow16(j - i),
    decreases j - i,
{
    if i < j {
        lemma_hex_value_bound(s, i, j - 1);
    }
}

/// The value of the hexadecimal digits from `i` to `j`.
pub open spec fn hex_value(s: Seq<char>, i: int, j: int) -> int
    decreases j - i,
{
    if i >= j {
        0
    } else {
        hex_value(s, i, j - 1) * 16 + digit_value(s[j - 1])
    }
}

/// Whether `u` is a Unicode scalar value.
pub open spec fn is_scalar_value(u: int) -> bool {
    (0 <= u < 0xD800) || (0xE000 <= u <= 0x10FFFF)
}

/// One escape sequence, after the backslash: a code-point escape or a
/// single-character escape.
pub open spec fn parse_escape(s: Seq<char>, i: int) -> Option<(char, int)> {
    if i + 2 <= s.len() && s[i] == 'u' && s[i + 1] == '{' && ({
        let j = hex_digits_end(s, i + 2, 6);
        j > i + 2 && j < s.len() && s[j] == '}' && is_scalar_value(hex_value(s, i + 2, j))
    }) {
        let j = hex_digits_end(s, i + 2, 6);
        Some((((hex_value(s, i + 2, j) as u32) as char), j + 1))
    } else if 0 <= i < s.len() && escape_char(s[i]) is Some {
        Some((escape_char(s[i])->0, i + 1))
    } else {
        None
    }
}

/// One string character: an escape sequence or a plain character.
pub open spec fn parse_character(s: Seq<char>, i: int) -> Option<(char, int)> {
    if 0 <= i < s.len() && s[i] == '\\' {
        parse_escape(s, i + 1)
    } else if 0 <= i < s.len() && s[i] != '\\' && s[i] != '"' {
        Some((s[i], i + 1))
    } else {
        None
    }
}

/// The longest run of string characters from `i`, decoded, with its end.
pub open spec fn string_body(s: Seq<char>, i: int) -> (Seq<char>, int)
    decreases s.len() - i,
{
    match parse_character(s, i) {
        Some((c, j)) => if i < j && j <= s.len() {
            let (rest, k) = string_body(s, j);
            (seq![c] + rest, k)
        } else {
            (Seq::empty(), i)
        },
        None => (Seq::empty(), i),
    }
}

/// A quoted string literal: its decoded text and its end.
pub open spec fn parse_string(s: Seq<char>, i: int) -> Option<(Seq<char>, int)> {
    if 0 <= i < s.len() && s[i] == '"' {
        let (text, j) = string_body(s, i + 1);
        if j < s.len() && s[j] == '"' {
            Some((text, j + 1))
        } else {
            None
        }
    } else {
        None
    }
}

/// Consumes one escape sequence, after the backslash.
fn escape(s: &Vec<char>, i: usize) -> (r: Option<(char, usize)>)
    requires
        i <= s@.len(),
    ensures
        match r {
            Some((c, j)) => i < j && j <= s@.len() && parse_escape(s@, i as int) == Some(
                (c, j as int),
            ),
            None => parse_escape(s@, i as int) is None,
        },
{
    let n = s.len();
    if i < n && i + 1 < n && s[i] == 'u' && s[i + 1] == '{' {
        let mut j = i + 2;
        let mut value: u32 = 0;
        while j < n && j - i < 8 && hex_digit(s[j])
            invariant
                i + 2 <= j <= s@.len(),
                j - i <= 8,
                n == s@.len(),
                hex_digits_end(s@, i as int + 2, 6) == hex_digits_end(
                    s@,
                    j as int,
                    6 - (j - i - 2),
                ),
                value == hex_value(s@, i as int + 2, j as int),
                value < pow16(j - i - 2),
            decreases s@.len() - j,
        {
            let d: u32 = hex_digit_value(s[j]);
            proof {
                lemma_pow16_le(j - i - 2, 5);
                assert(pow16(5) == 0x100000) by {
                    reveal_with_fuel(pow16, 6);
                }
            }
            value = value * 16 + d;
            j = j + 1;
        }
        proof {
            assert(hex_digits_end(s@, j as int, 6 - (j - i - 2)) == j as int);
        }
        if j > i + 2 && j < n && s[j] == '}' {
            match char::from_u32(value) {
                Some(c) => {
                    return Some((c, j + 1));
                },
                None => {
                    proof {
                        assert(!is_scalar_value(hex_value(s@, i as int + 2, j as int)));
                    }
                },
            }
        }
    }
    if i < s.len() {
        match escape_chars(s[i]) {
            Some(c) => Some((c, i + 1)),
            None => None,
        }
    } else {
        None
    }
}

/// The value of one hexadecimal digit.
fn hex_digit_value(c: char) -> (r: u32)
    requires
        is_hex_digit(c),
    ensures
        r == digit_value(c),
        r < 16,
{
    let u = c as u32;
    if '0' <= c && c <= '9' {
        u - 48
    } else if 'a' <= c && c <= 'f' {
        u - 97 + 10
    } else {
        u - 65 + 10
    }
}

/// Consumes a quoted string literal.
fn string_lit(s: &Vec<char>, i: usize) -> (r: Option<(String, usize)>)
    requires
        i <= s@.len(),
    ensures
        match r {
            Some((t, j)) => i < j && j <= s@.len() && parse_string(s@, i as int) == Some(
                (t@, j as int),
            ),
            None => parse_string(s@, i as int) is None,
        },
{
    if i >= s.len() || s[i] != '"' {
        return None;
    }
    let mut acc = String::new();
    let mut p = i + 1;
    loop
        invariant_except_break
            i + 1 <= p <= s@.len(),
            string_body(s@, i as int + 1).1 == string_body(s@, p as int).1,
            string_body(s@, i as int + 1).0 =~= acc@ + string_body(s@, p as int).0,
        ensures
            i + 1 <= p <= s@.len(),
            string_body(s@, i as int + 1).1 == p as int,
            string_body(s@, i as int + 1).0 == acc@,
        decreases s@.len() - p,
    {
        let step = if p < s.len() && s[p] == '\\' {
            escape(s, p + 1)
        } else if p < s.len() && s[p] != '\\' && s[p] != '"' {
            Some((s[p], p + 1))
        } else {
            None
        };
        match step {
            Some((c, q)) => {
                proof {
                    assert(parse_character(s@, p as int) == Some((c, q as int)));
                    assert(string_body(s@, p as int).0 == seq![c] + string_body(s@, q as int).0);
                }
                crate::text::push_char(&mut acc, c);
                proof {
                    assert(string_body(s@, i as int + 1).0 =~= acc@ + string_body(
                        s@,
                        q as int,
                    ).0);
                }
                p = q;
            },
            None => {
                proof {
                    assert(parse_character(s@, p as int) is None);
                    assert(string_body(s@, i as int + 1).0 =~= acc@);
                }
                break;
            },
        }
    }
    if p < s.len() && s[p] == '"' {
        Some((acc, p + 1))
    } else {
        None
    }
}


/// The end of a run of `#` characters from `i`.
pub open spec fn hash_run(s: Seq<char>, i: int) -> int
    decreases s.len() - i,
{
    if 0 <= i < s.len() && s[i] == '#' {
        hash_run(s, i + 1)
    } else {
        i
    }
}

/// Whether `count` hash characters stand at `i`.
pub open spec fn hashes_at(s: Seq<char>, i: int, count: int) -> bool {
    i + count <= s.len() && forall|t: int| i <= t < i + count ==> s[t] == '#'
}

/// The position of the first raw-string terminator (a quote followed by
/// `count` hashes) at or after `i`, if any.
pub open spec fn find_raw_close(s: Seq<char>, i: int, count: int) -> Option<int>
    decreases s.len() - i,
{
    if i >= s.len() {
        None
    } else if s[i] == '"' && hashes_at(s, i + 1, count) {
        Some(i)
    } else {
        find_raw_close(s, i + 1, count)
    }
}

/// A raw string literal: `r`, hashes, a quote, verbatim text up to the
/// matching terminator.
pub open spec fn parse_raw_string(s: Seq<char>, i: int) -> Option<(Seq<char>, int)> {
    if 0 <= i < s.len() && s[i] == 'r' {
        let q = hash_run(s, i + 1);
        let count = q - (i + 1);
        if q < s.len() && s[q] == '"' {
            match find_raw_close(s, q + 1, count) {
                Some(k) => Some((s.subrange(q + 1, k), k + 1 + count)),
                None => None,
            }
        } else {
            None
        }
    } else {
        None
    }
}

/// An identifier: a quoted string or a bare identifier.
pub open spec fn parse_identifier(s: Seq<char>, i: int) -> Option<(Seq<char>, int)> {
    match parse_string(s, i) {
        Some((text, j)) => Some((text, j)),
        None => match bare_ident_end(s, i) {
            Some(j) => Some((s.subrange(i, j), j)),
            None => None,
        },
    }
}

/// Decides [`hashes_at`].
fn hashes_here(s: &Vec<char>, start: usize, count: usize) -> (r: bool)
    requires
        start <= s@.len(),
    ensures
        r == hashes_at(s@, start as int, count as int),
{
    let n = s.len();
    if count > n - start {
        return false;
    }
    for t in 0..count
        invariant
            start + count <= n == s@.len(),
            forall|u: int| start <= u < start + t ==> s@[u] == '#',
    {
        if s[start + t] != '#' {
            return false;
        }
    }
    true
}

/// Consumes a raw string literal.
fn raw_string(s: &Vec<char>, i: usize) -> (r: Option<(String, usize)>)
    requires
        i <= s@.len(),
    ensures
        match r {
            Some((t, j)) => i < j && j <= s@.len() && parse_raw_string(s@, i as int) == Some(
                (t@, j as int),
            ),
            None => parse_raw_string(s@, i as int) is None,
        },
{
    let n = s.len();
    if i >= n || s[i] != 'r' {
        return None;
    }
    let mut q = i + 1;
    while q < n && s[q] == '#'
        invariant
            i + 1 <= q <= n == s@.len(),
            hash_run(s@, i as int + 1) == hash_run(s@, q as int),
        decreases s@.len() - q,
    {
        q = q + 1;
    }
    let count = q - (i + 1);
    if q >= n || s[q] != '"' {
        return None;
    }
    let mut k = q + 1;
    loop
        invariant_except_break
            n == s@.len(),
            i < n,
            s@[i as int] == 'r',
            i + 1 <= q < n,
            hash_run(s@, i as int + 1) == q as int,
            count == q - (i + 1),
            s@[q as int] == '"',
            q + 1 <= k <= n,
            find_raw_close(s@, q as int + 1, count as int) == find_raw_close(
                s@,
                k as int,
                count as int,
            ),
        ensures
            n == s@.len(),
            i < n,
            s@[i as int] == 'r',
            i + 1 <= q < n,
            hash_run(s@, i as int + 1) == q as int,
            count == q - (i + 1),
            s@[q as int] == '"',
            q + 1 <= k < n,
            find_raw_close(s@, q as int + 1, count as int) == Some(k as int),
            hashes_at(s@, k as int + 1, count as int),
        decreases s@.len() - k,
    {
        if k >= n {
            proof {
                assert(find_raw_close(s@, k as int, count as int) is None);
            }
            return None;
        }
        if s[k] == '"' && hashes_here(s, k + 1, count) {
            break;
        }
        k = k + 1;
    }
    let mut text: Vec<char> = Vec::new();
    let mut p = q + 1;
    while p < k
        invariant
            q + 1 <= p <= k < s@.len(),
            text@ =~= s@.subrange(q as int + 1, p as int),
        decreases k - p,
    {
        text.push(s[p]);
        proof {
            assert(text@ =~= s@.subrange(q as int + 1, p as int + 1));
        }
        p = p + 1;
    }
    let out = crate::text::string_of(&text);
    Some((out, k + 1 + count))
}

/// Consumes an identifier.
pub fn identifier(s: &Vec<char>, i: usize) -> (r: Option<(String, usize)>)
    requires
        i <= s@.len(),
    ensures
        match r {
            Some((t, j)) => i < j && j <= s@.len() && parse_identifier(s@, i as int) == Some(
                (t@, j as int),
            ),
            None => parse_identifier(s@, i as int) is None,
        },
{
    match string_lit(s, i) {
        Some((t, j)) => Some((t, j)),
        None => match bare_identifier(s, i) {
            Some(j) => {
                let mut text: Vec<char> = Vec::new();
                let mut p = i;
                while p < j
                    invariant
                        i <= p <= j <= s@.len(),
                        text@ =~= s@.subrange(i as int, p as int),
                    decreases j - p,
                {
                    text.push(s[p]);
                    proof {
                        assert(text@ =~= s@.subrange(i as int, p as int + 1));
                    }
                    p = p + 1;
                }
                Some((crate::text::string_of(&text), j))
            },
            None => None,
        },
    }
}


/// The sign multiplier at `i`: minus one for `-`, one otherwise.
pub open spec fn sign_mult(s: Seq<char>, i: int) -> int {
    if 0 <= i < s.len() && s[i] == '-' {
        -1
    } else {
        1
    }
}

/// The position after an optional sign at `i`.
pub open spec fn sign_end(s: Seq<char>, i: int) -> int {
    if 0 <= i < s.len() && (s[i] == '+' || s[i] == '-') {
        i + 1
    } else {
        i
    }
}

/// A digit of the given base.
pub open spec fn is_base_digit(c: char, base: int) -> bool {
    if base == 16 {
        is_hex_digit(c)
    } else if base == 8 {
        is_oct_digit(c)
    } else if base == 2 {
        is_bin_digit(c)
    } else {
        is_digit(c)
    }
}

/// The end of a run of base digits and underscores from `i`.
pub open spec fn run_end(s: Seq<char>, i: int, base: int) -> int
    decreases s.len() - i,
{
    if 0 <= i < s.len() && (is_base_digit(s[i], base) || s[i] == '_') {
        run_end(s, i + 1, base)
    } else {
        i
    }
}

/// The value of the digits from `i` to `j` in the given base, underscores
/// ignored.
pub open spec fn run_value(s: Seq<char>, i: int, j: int, base: int) -> int
    decreases j - i,
{
    if i >= j {
        0
    } else if s[j - 1] == '_' {
        run_value(s, i, j - 1, base)
    } else {
        run_value(s, i, j - 1, base) * base + digit_value(s[j - 1])
    }
}

pub proof fn lemma_run_value_nonneg(s: Seq<char>, i: int, j: int, base: int)
    requires
        base >= 1,
    ensures
        run_value(s, i, j, base) >= 0,
    decreases j - i,
{
    if i < j {
        lemma_run_value_nonneg(s, i, j - 1, base);
        let v = run_value(s, i, j - 1, base);
        assert(v * base >= 0) by (nonlinear_arith)
            requires
                v >= 0,
                base >= 1,
        ;
    }
}

pub proof fn lemma_run_value_mono(s: Seq<char>, i: int, j: int, k: int, base: int)
    requires
        i <= j <= k,
        base >= 1,
    ensures
        run_value(s, i, j, base) <= run_value(s, i, k, base),
    decreases k - j,
{
    if j < k {
        lemma_run_value_mono(s, i, j, k - 1, base);
        let v = run_value(s, i, k - 1, base);
        lemma_run_value_nonneg(s, i, k - 1, base);
        assert(v * base >= v) by (nonlinear_arith)
            requires
                v >= 0,
                base >= 1,
        ;
    }
}

/// A signed, prefixed integer literal in the given base, as `0x`/`0X` does
/// for sixteen; the digits must fit a signed 64-bit magnitude.
pub open spec fn parse_prefixed(
    s: Seq<char>,
    i: int,
    base: int,
    lower: char,
    upper: char,
) -> Option<(int, int)> {
    let m = sign_mult(s, i);
    let j = sign_end(s, i);
    if j + 2 < s.len() && s[j] == '0' && (s[j + 1] == lower || s[j + 1] == upper) && is_base_digit(
        s[j + 2],
        base,
    ) {
        let k = run_end(s, j + 3, base);
        let v = run_value(s, j + 2, k, base);
        if v <= i64::MAX {
            Some((m * v, k))
        } else {
            None
        }
    } else {
        None
    }
}

/// A signed decimal integer literal; the digits must fit a signed 64-bit
/// magnitude.
pub open spec fn parse_int(s: Seq<char>, i: int) -> Option<(int, int)> {
    let m = sign_mult(s, i);
    let j = sign_end(s, i);
    if j < s.len() && is_digit(s[j]) {
        let k = run_end(s, j + 1, 10);
        let v = run_value(s, j, k, 10);
        if v <= i64::MAX {
            Some((m * v, k))
        } else {
            None
        }
    } else {
        None
    }
}

/// The end of a float literal at `i`: an optional sign, an integer part,
/// then a fraction part, an exponent part, or both.
pub open spec fn float_end(s: Seq<char>, i: int) -> Option<int> {
    let j0 = sign_end(s, i);
    if j0 < s.len() && is_digit(s[j0]) {
        let j1 = run_end(s, j0 + 1, 10);
        let frac = j1 + 1 < s.len() && s[j1] == '.' && is_digit(s[j1 + 1]);
        let j2 = if frac {
            run_end(s, j1 + 2, 10)
        } else {
            j1
        };
        if j2 < s.len() && (s[j2] == 'e' || s[j2] == 'E') {
            let j3 = sign_end(s, j2 + 1);
            if j3 < s.len() && is_digit(s[j3]) {
                Some(run_end(s, j3 + 1, 10))
            } else if frac {
                Some(j2)
            } else {
                None
            }
        } else if frac {
            Some(j2)
        } else {
            None
        }
    } else {
        None
    }
}

/// The text with its underscores removed.
pub open spec fn strip_underscores(t: Seq<char>) -> Seq<char>
    decreases t.len(),
{
    if t.len() == 0 {
        Seq::empty()
    } else {
        strip_underscores(t.drop_last()) + if t.last() == '_' {
            Seq::empty()
        } else {
            seq![t.last()]
        }
    }
}

/// The IEEE 754 bit pattern of the number a decimal float text denotes.
pub uninterp spec fn float_bits_of(text: Seq<char>) -> u64;

/// Relies on `nom::number::complete::double`, which parses a decimal float
/// text with the standard library's semantics: the result is a function of
/// the text alone.
#[verifier::external_body]
fn float_bits(text: &str) -> (r: u64)
    ensures
        r == float_bits_of(text@),
{
    match nom::number::complete::double::<&str, nom::error::Error<&str>>(text) {
        Ok((_, value)) => value.to_bits(),
        Err(_) => 0,
    }
}

/// A float literal: the bit pattern of its value and its end.
pub open spec fn parse_float(s: Seq<char>, i: int) -> Option<(u64, int)> {
    match float_end(s, i) {
        Some(j) => Some((float_bits_of(strip_underscores(s.subrange(i, j))), j)),
        None => None,
    }
}

/// A number literal: a prefixed base, a float, or a decimal integer, in
/// that order.
pub open spec fn parse_number(s: Seq<char>, i: int) -> Option<(ValueV, int)> {
    match parse_prefixed(s, i, 16, 'x', 'X') {
        Some((v, j)) => Some((ValueV::Int(v), j)),
        None => match parse_prefixed(s, i, 8, 'o', 'O') {
            Some((v, j)) => Some((ValueV::Int(v), j)),
            None => match parse_prefixed(s, i, 2, 'b', 'B') {
                Some((v, j)) => Some((ValueV::Int(v), j)),
                None => match parse_float(s, i) {
                    Some((bits, j)) => Some((ValueV::Float(bits), j)),
                    None => match parse_int(s, i) {
                        Some((v, j)) => Some((ValueV::Int(v), j)),
                        None => None,
                    },
                },
            },
        },
    }
}

/// The keyword literals `true`, `false` and `null`, matched as prefixes.
pub open spec fn parse_keyword_value(s: Seq<char>, i: int) -> Option<(ValueV, int)> {
    if i + 4 <= s.len() && s[i] == 't' && s[i + 1] == 'r' && s[i + 2] == 'u' && s[i + 3] == 'e' {
        Some((ValueV::Bool(true), i + 4))
    } else if i + 5 <= s.len() && s[i] == 'f' && s[i + 1] == 'a' && s[i + 2] == 'l' && s[i + 3]
        == 's' && s[i + 4] == 'e' {
        Some((ValueV::Bool(false), i + 5))
    } else if i + 4 <= s.len() && s[i] == 'n' && s[i + 1] == 'u' && s[i + 2] == 'l' && s[i + 3]
        == 'l' {
        Some((ValueV::Null, i + 4))
    } else {
        None
    }
}

/// A value literal: a quoted string, a raw string, a number, a boolean, or
/// null.
pub open spec fn parse_node_value(s: Seq<char>, i: int) -> Option<(ValueV, int)> {
    match parse_string(s, i) {
        Some((t, j)) => Some((ValueV::Text(t), j)),
        None => match parse_raw_string(s, i) {
            Some((t, j)) => Some((ValueV::Text(t), j)),
            None => match parse_number(s, i) {
                Some(r) => Some(r),
                None => parse_keyword_value(s, i),
            },
        },
    }
}


proof fn lemma_run_end_bounds(s: Seq<char>, i: int, base: int)
    requires
        0 <= i <= s.len(),
    ensures
        i <= run_end(s, i, base) <= s.len(),
    decreases s.len() - i,
{
    if i < s.len() && (is_base_digit(s[i], base) || s[i] == '_') {
        lemma_run_end_bounds(s, i + 1, base);
    }
}

proof fn lemma_run_chars(s: Seq<char>, i: int, base: int)
    requires
        0 <= i <= s.len(),
    ensures
        forall|t: int|
            i <= t < run_end(s, i, base) ==> is_base_digit(s[t], base) || s[t] == '_',
    decreases s.len() - i,
{
    if i < s.len() && (is_base_digit(s[i], base) || s[i] == '_') {
        lemma_run_chars(s, i + 1, base);
    }
}

/// A digit of the given base.
fn base_digit(c: char, base: u32) -> (r: bool)
    ensures
        r == is_base_digit(c, base as int),
{
    if base == 16 {
        hex_digit(c)
    } else if base == 8 {
        '0' <= c && c <= '7'
    } else if base == 2 {
        c == '0' || c == '1'
    } else {
        digit(c)
    }
}

/// Consumes the longest run of base digits and underscores.
fn run_scan(s: &Vec<char>, i: usize, base: u32) -> (r: usize)
    requires
        i <= s@.len(),
    ensures
        i <= r <= s@.len(),
        r as int == run_end(s@, i as int, base as int),
{
    let mut p = i;
    while p < s.len() && (base_digit(s[p], base) || s[p] == '_')
        invariant
            i <= p <= s@.len(),
            run_end(s@, i as int, base as int) == run_end(s@, p as int, base as int),
        decreases s@.len() - p,
    {
        p = p + 1;
    }
    p
}

/// The value of a digit run, or nothing when it exceeds a signed 64-bit
/// magnitude.
fn run_to_value(s: &Vec<char>, start: usize, end: usize, base: u32) -> (r: Option<i64>)
    requires
        start <= end <= s@.len(),
        base == 2 || base == 8 || base == 10 || base == 16,
        forall|t: int|
            start <= t < end ==> is_base_digit(s@[t], base as int) || s@[t] == '_',
    ensures
        match r {
            Some(v) => 0 <= v && v as int == run_value(s@, start as int, end as int, base as int),
            None => run_value(s@, start as int, end as int, base as int) > i64::MAX,
        },
{
    let mut acc: i64 = 0;
    let mut p = start;
    while p < end
        invariant
            start <= p <= end <= s@.len(),
            base == 2 || base == 8 || base == 10 || base == 16,
            forall|t: int|
                start <= t < end ==> is_base_digit(s@[t], base as int) || s@[t] == '_',
            0 <= acc,
            acc as int == run_value(s@, start as int, p as int, base as int),
        decreases end - p,
    {
        let c = s[p];
        if c != '_' {
            let d = hex_digit_value(c);
            let stepped = match acc.checked_mul(base as i64) {
                Some(m) => m.checked_add(d as i64),
                None => None,
            };
            match stepped {
                Some(v) => {
                    acc = v;
                },
                None => {
                    proof {
                        let ghost sv = s@;
                        let ghost b = base as int;
                        assert(run_value(sv, start as int, p as int + 1, b) == acc as int * b
                            + digit_value(c));
                        assert(acc as int * b + digit_value(c) > i64::MAX);
                        lemma_run_value_mono(sv, start as int, p as int + 1, end as int, b);
                    }
                    return None;
                },
            }
        }
        p = p + 1;
    }
    Some(acc)
}

/// Consumes a signed, prefixed integer literal in the given base.
fn prefixed_int(s: &Vec<char>, i: usize, base: u32, lower: char, upper: char) -> (r: Option<
    (i64, usize),
>)
    requires
        i <= s@.len(),
        base == 2 || base == 8 || base == 16,
    ensures
        match r {
            Some((v, j)) => i < j <= s@.len() && parse_prefixed(
                s@,
                i as int,
                base as int,
                lower,
                upper,
            ) == Some((v as int, j as int)),
            None => parse_prefixed(s@, i as int, base as int, lower, upper) is None,
        },
{
    let n = s.len();
    let neg = i < n && s[i] == '-';
    let j = if i < n && (s[i] == '+' || s[i] == '-') {
        i + 1
    } else {
        i
    };
    if j < n && n - j >= 3 && s[j] == '0' && (s[j + 1] == lower || s[j + 1] == upper) && base_digit(
        s[j + 2],
        base,
    ) {
        let k = run_scan(s, j + 3, base);
        proof {
            lemma_run_chars(s@, j as int + 3, base as int);
        }
        match run_to_value(s, j + 2, k, base) {
            Some(v) => {
                if neg {
                    Some((-v, k))
                } else {
                    Some((v, k))
                }
            },
            None => None,
        }
    } else {
        None
    }
}

/// Consumes a signed decimal integer literal.
fn decimal_int(s: &Vec<char>, i: usize) -> (r: Option<(i64, usize)>)
    requires
        i <= s@.len(),
    ensures
        match r {
            Some((v, j)) => i < j <= s@.len() && parse_int(s@, i as int) == Some(
                (v as int, j as int),
            ),
            None => parse_int(s@, i as int) is None,
        },
{
    let n = s.len();
    let neg = i < n && s[i] == '-';
    let j = if i < n && (s[i] == '+' || s[i] == '-') {
        i + 1
    } else {
        i
    };
    if j < n && digit(s[j]) {
        let k = run_scan(s, j + 1, 10);
        proof {
            lemma_run_chars(s@, j as int + 1, 10);
        }
        match run_to_value(s, j, k, 10) {
            Some(v) => {
                if neg {
                    Some((-v, k))
                } else {
                    Some((v, k))
                }
            },
            None => None,
        }
    } else {
        None
    }
}

/// Consumes a float literal, yielding the bit pattern of its value.
fn float_lit(s: &Vec<char>, i: usize) -> (r: Option<(u64, usize)>)
    requires
        i <= s@.len(),
    ensures
        match r {
            Some((bits, j)) => i < j <= s@.len() && parse_float(s@, i as int) == Some(
                (bits, j as int),
            ),
            None => parse_float(s@, i as int) is None,
        },
{
    let n = s.len();
    let j0 = if i < n && (s[i] == '+' || s[i] == '-') {
        i + 1
    } else {
        i
    };
    if !(j0 < n && digit(s[j0])) {
        return None;
    }
    let j1 = run_scan(s, j0 + 1, 10);
    let frac = j1 < n && n - j1 >= 2 && s[j1] == '.' && digit(s[j1 + 1]);
    let j2 = if frac {
        run_scan(s, j1 + 2, 10)
    } else {
        j1
    };
    let end: usize;
    if j2 < n && (s[j2] == 'e' || s[j2] == 'E') {
        let j3 = if j2 + 1 < n && (s[j2 + 1] == '+' || s[j2 + 1] == '-') {
            j2 + 2
        } else {
            j2 + 1
        };
        if j3 < n && digit(s[j3]) {
            end = run_scan(s, j3 + 1, 10);
        } else if frac {
            end = j2;
        } else {
            return None;
        }
    } else if frac {
        end = j2;
    } else {
        return None;
    }
    let mut clean: Vec<char> = Vec::new();
    let mut p = i;
    while p < end
        invariant
            n == s@.len(),
            i <= p <= end <= s@.len(),
            clean@ =~= strip_underscores(s@.subrange(i as int, p as int)),
        decreases end - p,
    {
        let c = s[p];
        proof {
            assert(s@.subrange(i as int, p as int + 1).drop_last() =~= s@.subrange(
                i as int,
                p as int,
            ));
            assert(s@.subrange(i as int, p as int + 1).last() == c);
        }
        if c != '_' {
            clean.push(c);
        }
        p = p + 1;
    }
    let text = crate::text::string_of(&clean);
    let bits = float_bits(text.as_str());
    Some((bits, end))
}

/// Consumes a number literal.
fn number(s: &Vec<char>, i: usize) -> (r: Option<(Value, usize)>)
    requires
        i <= s@.len(),
    ensures
        match r {
            Some((v, j)) => i < j <= s@.len() && parse_number(s@, i as int) == Some(
                (v@, j as int),
            ),
            None => parse_number(s@, i as int) is None,
        },
{
    match prefixed_int(s, i, 16, 'x', 'X') {
        Some((v, j)) => Some((Value::Int(v), j)),
        None => match prefixed_int(s, i, 8, 'o', 'O') {
            Some((v, j)) => Some((Value::Int(v), j)),
            None => match prefixed_int(s, i, 2, 'b', 'B') {
                Some((v, j)) => Some((Value::Int(v), j)),
                None => match float_lit(s, i) {
                    Some((bits, j)) => Some((Value::Float(bits), j)),
                    None => match decimal_int(s, i) {
                        Some((v, j)) => Some((Value::Int(v), j)),
                        None => None,
                    },
                },
            },
        },
    }
}

/// Consumes a value literal.
pub fn node_value(s: &Vec<char>, i: usize) -> (r: Option<(Value, usize)>)
    requires
        i <= s@.len(),
    ensures
        match r {
            Some((v, j)) => i < j <= s@.len() && parse_node_value(s@, i as int) == Some(
                (v@, j as int),
            ),
            None => parse_node_value(s@, i as int) is None,
        },
{
    match string_lit(s, i) {
        Some((t, j)) => Some((Value::Text(t), j)),
        None => match raw_string(s, i) {
            Some((t, j)) => Some((Value::Text(t), j)),
            None => match number(s, i) {
                Some(r) => Some(r),
                None => {
                    let n = s.len();
                    if i < n && n - i >= 4 && s[i] == 't' && s[i + 1] == 'r' && s[i + 2] == 'u'
                        && s[i + 3] == 'e' {
                        Some((Value::Bool(true), i + 4))
                    } else if i < n && n - i >= 5 && s[i] == 'f' && s[i + 1] == 'a' && s[i + 2]
                        == 'l' && s[i + 3] == 's' && s[i + 4] == 'e' {
                        Some((Value::Bool(false), i + 5))
                    } else if i < n && n - i >= 4 && s[i] == 'n' && s[i + 1] == 'u' && s[i + 2]
                        == 'l' && s[i + 3] == 'l' {
                        Some((Value::Null, i + 4))
                    } else {
                        None
                    }
                },
            },
        },
    }
}

} // verus!
