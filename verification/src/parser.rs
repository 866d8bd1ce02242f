//! The selector grammar: the abstract syntax of accessors, matchers and
//! combinators with their mathematical views, and the parser that turns
//! selector text into an ordered combinator list.

use vstd::prelude::*;

use crate::literals::{is_digit, parse_identifier, parse_node_value, run_value, ws_run};
use crate::node::{Value, ValueV};

verus! {

/// A hierarchy relation pairing a head accessor with a sibling chain.
#[derive(Debug, PartialEq)]
pub enum Combinator {
    Child(Accessor, Vec<(Sibling, Accessor)>),
    Descendant(Accessor, Vec<(Sibling, Accessor)>),
}

/// A sibling relation: immediately preceding, or anywhere earlier.
#[derive(Debug, Clone, Copy, PartialEq, Eq, Structural)]
pub enum Sibling {
    Adjacent,
    General,
}

/// A single node-selection criterion.
#[derive(Debug, PartialEq)]
pub enum Accessor {
    AnyElement,
    AnyElementWithTypeTag(Option<String>),
    Closed(Option<String>, Matcher),
    Sole(String),
    Top,
}

/// A presence test or a comparison test against a part of a node.
#[derive(Debug, PartialEq)]
pub enum Matcher {
    Direct(Entity),
    Expression(Entity, Operator, Value),
}

/// The part of a node referenced by a matcher.
#[derive(Debug, PartialEq)]
pub enum Entity {
    NodeName,
    PropName(String),
    Props,
    TypeTag,
    Val(usize),
    Values,
}

/// A comparison operator of the selector language.
#[derive(Debug, Clone, Copy, PartialEq, Eq, Structural)]
pub enum Operator {
    Contains,
    EndsWith,
    Equal,
    GreaterThan,
    GreaterThanOrEqualTo,
    LessThan,
    LessThanOrEqualTo,
    NotEqual,
    StartsWith,
}

/// The mathematical model of an [`Entity`].
pub ghost enum EntityV {
    NodeName,
    PropName(Seq<char>),
    Props,
    TypeTag,
    Val(int),
    Values,
}

/// The mathematical model of a [`Matcher`].
pub ghost enum MatcherV {
    Direct(EntityV),
    Expression(EntityV, Operator, ValueV),
}

/// The mathematical model of an [`Accessor`].
pub ghost enum AccessorV {
    AnyElement,
    AnyElementWithTypeTag(Option<Seq<char>>),
    Closed(Option<Seq<char>>, MatcherV),
    Sole(Seq<char>),
    Top,
}

/// The mathematical model of a [`Combinator`].
pub ghost enum CombinatorV {
    Child(AccessorV, Seq<(Sibling, AccessorV)>),
    Descendant(AccessorV, Seq<(Sibling, AccessorV)>),
}

impl View for Entity {
    type V = EntityV;

    open spec fn view(&self) -> EntityV {
        match self {
            Entity::NodeName => EntityV::NodeName,
            Entity::PropName(name) => EntityV::PropName(name@),
            Entity::Props => EntityV::Props,
            Entity::TypeTag => EntityV::TypeTag,
            Entity::Val(index) => EntityV::Val(*index as int),
            Entity::Values => EntityV::Values,
        }
    }
}

impl View for Matcher {
    type V = MatcherV;

    open spec fn view(&self) -> MatcherV {
        match self {
            Matcher::Direct(entity) => MatcherV::Direct(entity@),
            Matcher::Expression(entity, op, value) => MatcherV::Expression(entity@, *op, value@),
        }
    }
}

impl View for Accessor {
    type V = AccessorV;

    open spec fn view(&self) -> AccessorV {
        match self {
            Accessor::AnyElement => AccessorV::AnyElement,
            Accessor::AnyElementWithTypeTag(id) => AccessorV::AnyElementWithTypeTag(
                match id {
                    Some(s) => Some(s@),
                    None => None,
                },
            ),
            Accessor::Closed(id, matcher) => AccessorV::Closed(
                match id {
                    Some(s) => Some(s@),
                    None => None,
                },
                matcher@,
            ),
            Accessor::Sole(id) => AccessorV::Sole(id@),
            Accessor::Top => AccessorV::Top,
        }
    }
}

/// The model of a sibling chain: each accessor replaced by its view.
pub open spec fn chain_view(chain: Seq<(Sibling, Accessor)>) -> Seq<(Sibling, AccessorV)> {
    chain.map_values(|p: (Sibling, Accessor)| (p.0, p.1@))
}

impl View for Combinator {
    type V = CombinatorV;

    open spec fn view(&self) -> CombinatorV {
        match self {
            Combinator::Child(accessor, chain) => CombinatorV::Child(
                accessor@,
                chain_view(chain@),
            ),
            Combinator::Descendant(accessor, chain) => CombinatorV::Descendant(
                accessor@,
                chain_view(chain@),
            ),
        }
    }
}

impl DeepView for Combinator {
    type V = CombinatorV;

    open spec fn deep_view(&self) -> CombinatorV {
        self.view()
    }
}


/// Whether the word `w` stands at position `i` of `s`.
pub open spec fn word_at(s: Seq<char>, i: int, w: Seq<char>) -> bool {
    0 <= i && i + w.len() <= s.len() && forall|t: int| 0 <= t < w.len() ==> s[i + t] == w[t]
}

/// Decides [`word_at`].
fn lit_at(s: &Vec<char>, i: usize, w: &str) -> (r: bool)
    requires
        i <= s@.len(),
    ensures
        r == word_at(s@, i as int, w@),
        s@.len() <= usize::MAX,
{
    let m = w.unicode_len();
    if m > s.len() - i {
        return false;
    }
    for t in 0..m
        invariant
            i + m <= s@.len(),
            s@.len() <= usize::MAX,
            m == w@.len(),
            forall|u: int| 0 <= u < t ==> s@[i + u] == w@[u],
    {
        if s[i + t] != w.get_char(t) {
            return false;
        }
    }
    true
}

/// The end of a run of plain decimal digits from `i`.
pub open spec fn digits_end(s: Seq<char>, i: int) -> int
    decreases s.len() - i,
{
    if 0 <= i < s.len() && is_digit(s[i]) {
        digits_end(s, i + 1)
    } else {
        i
    }
}

proof fn lemma_digits_chars(s: Seq<char>, i: int)
    requires
        0 <= i <= s.len(),
    ensures
        i <= digits_end(s, i) <= s.len(),
        forall|t: int| i <= t < digits_end(s, i) ==> is_digit(s[t]),
    decreases s.len() - i,
{
    if i < s.len() && is_digit(s[i]) {
        lemma_digits_chars(s, i + 1);
    }
}

/// The positional index denoted by the digits from `i` to `j`: their value,
/// or zero when they are empty or exceed the machine's index range.
pub open spec fn val_index(s: Seq<char>, i: int, j: int) -> int {
    if run_value(s, i, j, 10) > usize::MAX {
        0
    } else {
        run_value(s, i, j, 10)
    }
}

/// An entity reference, in the grammar's order: the named forms, a
/// positional-value form, an explicit property form, or a bare property
/// name.
pub open spec fn parse_entity(s: Seq<char>, i: int) -> Option<(EntityV, int)> {
    if word_at(s, i, "name()"@) {
        Some((EntityV::NodeName, i + 6))
    } else if word_at(s, i, "tag()"@) {
        Some((EntityV::TypeTag, i + 5))
    } else if word_at(s, i, "props()"@) {
        Some((EntityV::Props, i + 7))
    } else if word_at(s, i, "values()"@) {
        Some((EntityV::Values, i + 8))
    } else if word_at(s, i, "val("@) && ({
        let j = digits_end(s, i + 4);
        j < s.len() && s[j] == ')'
    }) {
        let j = digits_end(s, i + 4);
        Some((EntityV::Val(val_index(s, i + 4, j)), j + 1))
    } else if word_at(s, i, "prop("@) && (match parse_identifier(s, i + 5) {
        Some((id, j)) => j < s.len() && s[j] == ')',
        None => false,
    }) {
        let (id, j) = parse_identifier(s, i + 5)->0;
        Some((EntityV::PropName(id), j + 1))
    } else {
        match parse_identifier(s, i) {
            Some((id, j)) => Some((EntityV::PropName(id), j)),
            None => None,
        }
    }
}

/// Consumes the positional index of a `val(...)` form.
fn parse_index(s: &Vec<char>, i: usize, j: usize) -> (r: usize)
    requires
        i <= j <= s@.len(),
        forall|t: int| i <= t < j ==> is_digit(s@[t]),
    ensures
        r as int == val_index(s@, i as int, j as int),
{
    let mut acc: usize = 0;
    let mut p = i;
    while p < j
        invariant
            i <= p <= j <= s@.len(),
            forall|t: int| i <= t < j ==> is_digit(s@[t]),
            acc as int == run_value(s@, i as int, p as int, 10),
            run_value(s@, i as int, p as int, 10) <= usize::MAX,
        decreases j - p,
    {
        let c = s[p];
        let d = (c as u32) - 48;
        let stepped = match acc.checked_mul(10) {
            Some(m) => m.checked_add(d as usize),
            None => None,
        };
        match stepped {
            Some(v) => {
                acc = v;
            },
            None => {
                proof {
                    crate::literals::lemma_run_value_mono(
                        s@,
                        i as int,
                        p as int + 1,
                        j as int,
                        10,
                    );
                }
                return 0;
            },
        }
        p = p + 1;
    }
    acc
}

/// Consumes an entity reference.
pub fn entity(s: &Vec<char>, i: usize) -> (r: Option<(Entity, usize)>)
    requires
        i <= s@.len(),
    ensures
        match r {
            Some((e, j)) => i < j && j <= s@.len() && parse_entity(s@, i as int) == Some(
                (e@, j as int),
            ),
            None => parse_entity(s@, i as int) is None,
        },
{
    proof {
        reveal_strlit("name()");
        reveal_strlit("tag()");
        reveal_strlit("props()");
        reveal_strlit("values()");
        reveal_strlit("val(");
        reveal_strlit("prop(");
    }
    let n = s.len();
    if lit_at(s, i, "name()") {
        return Some((Entity::NodeName, i + 6));
    }
    if lit_at(s, i, "tag()") {
        return Some((Entity::TypeTag, i + 5));
    }
    if lit_at(s, i, "props()") {
        return Some((Entity::Props, i + 7));
    }
    if lit_at(s, i, "values()") {
        return Some((Entity::Values, i + 8));
    }
    if lit_at(s, i, "val(") {
        let mut j = i + 4;
        while j < n && crate::literals::digit(s[j])
            invariant
                i + 4 <= j <= n == s@.len(),
                digits_end(s@, i as int + 4) == digits_end(s@, j as int),
            decreases s@.len() - j,
        {
            j = j + 1;
        }
        if j < n && s[j] == ')' {
            proof {
                lemma_digits_chars(s@, i as int + 4);
            }
            let index = parse_index(s, i + 4, j);
            return Some((Entity::Val(index), j + 1));
        }
    }
    if lit_at(s, i, "prop(") {
        match crate::literals::identifier(s, i + 5) {
            Some((id, j)) => {
                if j < n && s[j] == ')' {
                    return Some((Entity::PropName(id), j + 1));
                }
            },
            None => {},
        }
    }
    match crate::literals::identifier(s, i) {
        Some((id, j)) => Some((Entity::PropName(id), j)),
        None => None,
    }
}

/// A comparison operator token: the two-character forms first, then their
/// single-character prefixes.
pub open spec fn parse_operator(s: Seq<char>, i: int) -> Option<(Operator, int)> {
    if word_at(s, i, "*="@) {
        Some((Operator::Contains, i + 2))
    } else if word_at(s, i, "$="@) {
        Some((Operator::EndsWith, i + 2))
    } else if word_at(s, i, ">="@) {
        Some((Operator::GreaterThanOrEqualTo, i + 2))
    } else if word_at(s, i, "<="@) {
        Some((Operator::LessThanOrEqualTo, i + 2))
    } else if word_at(s, i, "!="@) {
        Some((Operator::NotEqual, i + 2))
    } else if word_at(s, i, "^="@) {
        Some((Operator::StartsWith, i + 2))
    } else if word_at(s, i, "="@) {
        Some((Operator::Equal, i + 1))
    } else if word_at(s, i, ">"@) {
        Some((Operator::GreaterThan, i + 1))
    } else if word_at(s, i, "<"@) {
        Some((Operator::LessThan, i + 1))
    } else {
        None
    }
}

/// Consumes a comparison operator token.
pub fn operator(s: &Vec<char>, i: usize) -> (r: Option<(Operator, usize)>)
    requires
        i <= s@.len(),
    ensures
        match r {
            Some((op, j)) => i < j && j <= s@.len() && parse_operator(s@, i as int) == Some(
                (op, j as int),
            ),
            None => parse_operator(s@, i as int) is None,
        },
{
    proof {
        reveal_strlit("*=");
        reveal_strlit("$=");
        reveal_strlit(">=");
        reveal_strlit("<=");
        reveal_strlit("!=");
        reveal_strlit("^=");
        reveal_strlit("=");
        reveal_strlit(">");
        reveal_strlit("<");
    }
    if lit_at(s, i, "*=") {
        Some((Operator::Contains, i + 2))
    } else if lit_at(s, i, "$=") {
        Some((Operator::EndsWith, i + 2))
    } else if lit_at(s, i, ">=") {
        Some((Operator::GreaterThanOrEqualTo, i + 2))
    } else if lit_at(s, i, "<=") {
        Some((Operator::LessThanOrEqualTo, i + 2))
    } else if lit_at(s, i, "!=") {
        Some((Operator::NotEqual, i + 2))
    } else if lit_at(s, i, "^=") {
        Some((Operator::StartsWith, i + 2))
    } else if lit_at(s, i, "=") {
        Some((Operator::Equal, i + 1))
    } else if lit_at(s, i, ">") {
        Some((Operator::GreaterThan, i + 1))
    } else if lit_at(s, i, "<") {
        Some((Operator::LessThan, i + 1))
    } else {
        None
    }
}


/// A flat separator token between accessors, before structuring.
#[derive(Debug, Clone, Copy, PartialEq, Eq, Structural)]
pub enum ParsedCombinator {
    AdjacentSibling,
    Child,
    Descendant,
    GeneralSibling,
}

/// A matcher: an entity, optionally compared to a value literal, in square
/// brackets.
pub open spec fn parse_matcher(s: Seq<char>, i: int) -> Option<(MatcherV, int)> {
    if 0 <= i < s.len() && s[i] == '[' {
        match parse_entity(s, i + 1) {
            Some((e, j)) => {
                let expr = match ws_run(s, j) {
                    Some(j1) => match parse_operator(s, j1) {
                        Some((op, j2)) => match ws_run(s, j2) {
                            Some(j3) => match parse_node_value(s, j3) {
                                Some((v, j4)) => Some((op, v, j4)),
                                None => None,
                            },
                            None => None,
                        },
                        None => None,
                    },
                    None => None,
                };
                match expr {
                    Some((op, v, j4)) => if j4 < s.len() && s[j4] == ']' {
                        Some((MatcherV::Expression(e, op, v), j4 + 1))
                    } else {
                        None
                    },
                    None => if j < s.len() && s[j] == ']' {
                        Some((MatcherV::Direct(e), j + 1))
                    } else {
                        None
                    },
                }
            },
            None => None,
        }
    } else {
        None
    }
}

/// An accessor: the anchor, the wildcard, the reserved tagged form, an
/// identifier with a matcher, or an identifier alone.
pub open spec fn parse_accessor(s: Seq<char>, i: int) -> Option<(AccessorV, int)> {
    if word_at(s, i, "top()"@) {
        Some((AccessorV::Top, i + 5))
    } else if word_at(s, i, "[]"@) {
        Some((AccessorV::AnyElement, i + 2))
    } else if 0 <= i < s.len() && s[i] == '(' {
        match parse_identifier(s, i + 1) {
            Some((id, j)) => if j < s.len() && s[j] == ')' {
                Some((AccessorV::AnyElementWithTypeTag(Some(id)), j + 1))
            } else {
                None
            },
            None => if i + 1 < s.len() && s[i + 1] == ')' {
                Some((AccessorV::AnyElementWithTypeTag(None), i + 2))
            } else {
                None
            },
        }
    } else {
        match parse_identifier(s, i) {
            Some((id, j)) => match parse_matcher(s, j) {
                Some((m, k)) => Some((AccessorV::Closed(Some(id), m), k)),
                None => Some((AccessorV::Sole(id), j)),
            },
            None => match parse_matcher(s, i) {
                Some((m, k)) => Some((AccessorV::Closed(None, m), k)),
                None => None,
            },
        }
    }
}

/// A separator between accessors: a symbol wrapped in whitespace, or bare
/// whitespace for the descendant relation.
pub open spec fn parse_separator(s: Seq<char>, i: int) -> Option<(ParsedCombinator, int)> {
    match ws_run(s, i) {
        Some(j) => if j < s.len() && (s[j] == '>' || s[j] == '+' || s[j] == '~') && ws_run(
            s,
            j + 1,
        ) is Some {
            let k = ws_run(s, j + 1)->0;
            if s[j] == '>' {
                Some((ParsedCombinator::Child, k))
            } else if s[j] == '+' {
                Some((ParsedCombinator::AdjacentSibling, k))
            } else {
                Some((ParsedCombinator::GeneralSibling, k))
            }
        } else {
            Some((ParsedCombinator::Descendant, j))
        },
        None => None,
    }
}

/// Consumes a matcher.
pub fn matcher(s: &Vec<char>, i: usize) -> (r: Option<(Matcher, usize)>)
    requires
        i <= s@.len(),
    ensures
        match r {
            Some((m, j)) => i < j && j <= s@.len() && parse_matcher(s@, i as int) == Some(
                (m@, j as int),
            ),
            None => parse_matcher(s@, i as int) is None,
        },
{
    let n = s.len();
    if !(i < n && s[i] == '[') {
        return None;
    }
    match entity(s, i + 1) {
        Some((e, j)) => {
            let expr: Option<(Operator, Value, usize)> = match crate::literals::skip_whitespace(
                s,
                j,
            ) {
                Some(j1) => match operator(s, j1) {
                    Some((op, j2)) => match crate::literals::skip_whitespace(s, j2) {
                        Some(j3) => match crate::literals::node_value(s, j3) {
                            Some((v, j4)) => Some((op, v, j4)),
                            None => None,
                        },
                        None => None,
                    },
                    None => None,
                },
                None => None,
            };
            match expr {
                Some((op, v, j4)) => {
                    if j4 < n && s[j4] == ']' {
                        Some((Matcher::Expression(e, op, v), j4 + 1))
                    } else {
                        None
                    }
                },
                None => {
                    if j < n && s[j] == ']' {
                        Some((Matcher::Direct(e), j + 1))
                    } else {
                        None
                    }
                },
            }
        },
        None => None,
    }
}

/// Consumes an accessor.
pub fn accessor(s: &Vec<char>, i: usize) -> (r: Option<(Accessor, usize)>)
    requires
        i <= s@.len(),
    ensures
        match r {
            Some((a, j)) => i < j && j <= s@.len() && parse_accessor(s@, i as int) == Some(
                (a@, j as int),
            ),
            None => parse_accessor(s@, i as int) is None,
        },
{
    proof {
        reveal_strlit("top()");
        reveal_strlit("[]");
    }
    let n = s.len();
    if lit_at(s, i, "top()") {
        return Some((Accessor::Top, i + 5));
    }
    if lit_at(s, i, "[]") {
        return Some((Accessor::AnyElement, i + 2));
    }
    if i < n && s[i] == '(' {
        return match crate::literals::identifier(s, i + 1) {
            Some((id, j)) => {
                if j < n && s[j] == ')' {
                    Some((Accessor::AnyElementWithTypeTag(Some(id)), j + 1))
                } else {
                    None
                }
            },
            None => {
                if i + 1 < n && s[i + 1] == ')' {
                    Some((Accessor::AnyElementWithTypeTag(None), i + 2))
                } else {
                    None
                }
            },
        };
    }
    match crate::literals::identifier(s, i) {
        Some((id, j)) => match matcher(s, j) {
            Some((m, k)) => Some((Accessor::Closed(Some(id), m), k)),
            None => Some((Accessor::Sole(id), j)),
        },
        None => match matcher(s, i) {
            Some((m, k)) => Some((Accessor::Closed(None, m), k)),
            None => None,
        },
    }
}

/// Consumes a separator token.
pub fn combinator(s: &Vec<char>, i: usize) -> (r: Option<(ParsedCombinator, usize)>)
    requires
        i <= s@.len(),
    ensures
        match r {
            Some((c, j)) => i < j && j <= s@.len() && parse_separator(s@, i as int) == Some(
                (c, j as int),
            ),
            None => parse_separator(s@, i as int) is None,
        },
{
    let n = s.len();
    match crate::literals::skip_whitespace(s, i) {
        Some(j) => {
            if j < n && (s[j] == '>' || s[j] == '+' || s[j] == '~') {
                match crate::literals::skip_whitespace(s, j + 1) {
                    Some(k) => {
                        if s[j] == '>' {
                            Some((ParsedCombinator::Child, k))
                        } else if s[j] == '+' {
                            Some((ParsedCombinator::AdjacentSibling, k))
                        } else {
                            Some((ParsedCombinator::GeneralSibling, k))
                        }
                    },
                    None => Some((ParsedCombinator::Descendant, j)),
                }
            } else {
                Some((ParsedCombinator::Descendant, j))
            }
        },
        None => None,
    }
}


/// The flat stream of separator-accessor pairs from `i`, with the position
/// where it stops.
pub open spec fn parse_pairs(s: Seq<char>, i: int) -> (Seq<(ParsedCombinator, AccessorV)>, int)
    decreases s.len() - i,
{
    match parse_separator(s, i) {
        Some((pc, j)) => if i < j && j <= s.len() {
            match parse_accessor(s, j) {
                Some((a, k)) => if j < k && k <= s.len() {
                    let (rest, e) = parse_pairs(s, k);
                    (seq![(pc, a)] + rest, e)
                } else {
                    (Seq::empty(), i)
                },
                None => (Seq::empty(), i),
            }
        } else {
            (Seq::empty(), i)
        },
        None => (Seq::empty(), i),
    }
}

/// Appends one sibling pair to a combinator's chain.
pub open spec fn append_sibling(c: CombinatorV, sib: Sibling, a: AccessorV) -> CombinatorV {
    match c {
        CombinatorV::Child(h, ch) => CombinatorV::Child(h, ch.push((sib, a))),
        CombinatorV::Descendant(h, ch) => CombinatorV::Descendant(h, ch.push((sib, a))),
    }
}

/// The structuring pass: the head accessor opens a `Descendant` combinator;
/// each sibling separator appends to the last combinator's chain, and each
/// hierarchy separator opens a new combinator with an empty chain.
pub open spec fn structure(head: AccessorV, pairs: Seq<(ParsedCombinator, AccessorV)>) -> Seq<
    CombinatorV,
>
    decreases pairs.len(),
{
    if pairs.len() == 0 {
        seq![CombinatorV::Descendant(head, Seq::empty())]
    } else {
        let prev = structure(head, pairs.drop_last());
        let a = pairs.last().1;
        match pairs.last().0 {
            ParsedCombinator::Child => prev.push(CombinatorV::Child(a, Seq::empty())),
            ParsedCombinator::Descendant => prev.push(CombinatorV::Descendant(a, Seq::empty())),
            ParsedCombinator::AdjacentSibling => prev.update(
                prev.len() - 1,
                append_sibling(prev.last(), Sibling::Adjacent, a),
            ),
            ParsedCombinator::GeneralSibling => prev.update(
                prev.len() - 1,
                append_sibling(prev.last(), Sibling::General, a),
            ),
        }
    }
}

/// A parsed selector is a non-empty combinator list whose first element
/// wraps the head accessor as a `Descendant`.
pub proof fn lemma_structure_shape(head: AccessorV, pairs: Seq<(ParsedCombinator, AccessorV)>)
    ensures
        structure(head, pairs).len() >= 1,
        structure(head, pairs)[0] matches CombinatorV::Descendant(h, _) && h == head,
    decreases pairs.len(),
{
    if pairs.len() > 0 {
        lemma_structure_shape(head, pairs.drop_last());
    }
}

/// A parsed selector keeps the invariant: it is non-empty, and its first
/// combinator wraps the head accessor as a `Descendant` from the anchor.
pub proof fn lemma_selector_shape(s: Seq<char>)
    ensures
        parse_selector(s) matches Some(sel) ==> sel.len() >= 1 && (sel[0] matches
            CombinatorV::Descendant(_, _)),
{
    match parse_accessor(s, 0) {
        Some((h, i)) => {
            lemma_structure_shape(h, parse_pairs(s, i).0);
        },
        None => {},
    }
}

/// A whole selector, structured, with the position where parsing stopped.
pub open spec fn parse_selector_full(s: Seq<char>) -> Option<(Seq<CombinatorV>, int)> {
    match parse_accessor(s, 0) {
        Some((h, i)) => {
            let (pairs, j) = parse_pairs(s, i);
            Some((structure(h, pairs), j))
        },
        None => None,
    }
}

/// A whole selector; parsing must consume the input in full.
pub open spec fn parse_selector(s: Seq<char>) -> Option<Seq<CombinatorV>> {
    match parse_selector_full(s) {
        Some((sel, j)) => if j == s.len() {
            Some(sel)
        } else {
            None
        },
        None => None,
    }
}


/// Appends one sibling pair to the chain of the last combinator.
fn push_sibling(output: &mut Vec<Combinator>, sib: Sibling, a: Accessor)
    requires
        old(output)@.len() >= 1,
    ensures
        final(output)@.len() == old(output)@.len(),
        final(output).deep_view() == old(output).deep_view().update(
            old(output)@.len() - 1,
            append_sibling(old(output).deep_view().last(), sib, a@),
        ),
{
    let ghost before = output.deep_view();
    let ghost av = a@;
    match output.pop() {
        Some(Combinator::Child(h, chain)) => {
            let ghost oldchain = chain@;
            proof {
                assert(before.last() == CombinatorV::Child(h@, chain_view(oldchain)));
            }
            let mut chain = chain;
            chain.push((sib, a));
            proof {
                assert(chain_view(chain@) =~= chain_view(oldchain).push((sib, av)));
            }
            output.push(Combinator::Child(h, chain));
        },
        Some(Combinator::Descendant(h, chain)) => {
            let ghost oldchain = chain@;
            proof {
                assert(before.last() == CombinatorV::Descendant(h@, chain_view(oldchain)));
            }
            let mut chain = chain;
            chain.push((sib, a));
            proof {
                assert(chain_view(chain@) =~= chain_view(oldchain).push((sib, av)));
            }
            output.push(Combinator::Descendant(h, chain));
        },
        None => {
            proof {
                assert(false);
            }
        },
    }
    proof {
        assert(output.deep_view() =~= before.update(
            before.len() - 1,
            append_sibling(before.last(), sib, av),
        ));
    }
}

/// Consumes a whole selector: the head accessor, then separator-accessor
/// pairs as far as they go, structured into a combinator list.
#[verifier::rlimit(100)]
pub fn selector(s: &Vec<char>) -> (r: Option<(Vec<Combinator>, usize)>)
    ensures
        match r {
            Some((sel, j)) => j <= s@.len() && parse_selector_full(s@) == Some(
                (sel.deep_view(), j as int),
            ),
            None => parse_selector_full(s@) is None,
        },
{
    match accessor(s, 0) {
        None => None,
        Some((head, i0)) => {
            let ghost headv = head@;
            let mut output: Vec<Combinator> = Vec::new();
            output.push(Combinator::Descendant(head, Vec::new()));
            let mut p = i0;
            let ghost mut done: Seq<(ParsedCombinator, AccessorV)> = Seq::empty();
            proof {
                assert(chain_view(Seq::<(Sibling, Accessor)>::empty()) =~= Seq::<
                    (Sibling, AccessorV),
                >::empty());
                assert(output.deep_view() =~= structure(headv, done));
                assert(done + parse_pairs(s@, i0 as int).0 =~= parse_pairs(s@, i0 as int).0);
            }
            loop
                invariant_except_break
                    i0 <= p <= s@.len(),
                    output@.len() >= 1,
                    output.deep_view() =~= structure(headv, done),
                    parse_pairs(s@, i0 as int).0 =~= done + parse_pairs(s@, p as int).0,
                    parse_pairs(s@, i0 as int).1 == parse_pairs(s@, p as int).1,
                ensures
                    p <= s@.len(),
                    output.deep_view() == structure(headv, parse_pairs(s@, i0 as int).0),
                    p as int == parse_pairs(s@, i0 as int).1,
                decreases s@.len() - p,
            {
                let step = match combinator(s, p) {
                    Some((pc, j)) => match accessor(s, j) {
                        Some((a, k)) => Some((pc, a, k)),
                        None => None,
                    },
                    None => None,
                };
                match step {
                    Some((pc, a, k)) => {
                        let ghost av = a@;
                        proof {
                            assert(parse_pairs(s@, p as int).0 =~= seq![(pc, av)] + parse_pairs(
                                s@,
                                k as int,
                            ).0);
                            assert(parse_pairs(s@, p as int).1 == parse_pairs(s@, k as int).1);
                        }
                        match pc {
                            ParsedCombinator::Child => {
                                output.push(Combinator::Child(a, Vec::new()));
                            },
                            ParsedCombinator::Descendant => {
                                output.push(Combinator::Descendant(a, Vec::new()));
                            },
                            ParsedCombinator::AdjacentSibling | ParsedCombinator::GeneralSibling => {
                                let sib = match pc {
                                    ParsedCombinator::AdjacentSibling => Sibling::Adjacent,
                                    _ => Sibling::General,
                                };
                                push_sibling(&mut output, sib, a);
                            },
                        }
                        proof {
                            let stepped = done.push((pc, av));
                            assert(stepped.drop_last() =~= done);
                            assert(stepped.last() == (pc, av));
                            assert(chain_view(Seq::<(Sibling, Accessor)>::empty()) =~= Seq::<
                                (Sibling, AccessorV),
                            >::empty());
                            assert(output.deep_view() =~= structure(headv, stepped));
                            assert(done + (seq![(pc, av)] + parse_pairs(s@, k as int).0)
                                =~= stepped + parse_pairs(s@, k as int).0);
                            done = stepped;
                        }
                        p = k;
                    },
                    None => {
                        proof {
                            assert(parse_pairs(s@, p as int).0 =~= Seq::<
                                (ParsedCombinator, AccessorV),
                            >::empty());
                            assert(parse_pairs(s@, p as int).1 == p as int);
                            assert(done + parse_pairs(s@, p as int).0 =~= done);
                        }
                        break;
                    },
                }
            }
            Some((output, p))
        },
    }
}

} // verus!
