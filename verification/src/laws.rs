//! Properties of the engine, stated and proved once and for all: the
//! zero-width behaviour of the `top()` anchor, the strictness of the
//! adjacent-sibling relation, the existential reading of the general-sibling
//! relation, and the type safety of the comparator.

use vstd::prelude::*;

use crate::evaluation::eval;
use crate::node::NodeV;
use crate::parser::{parse_selector, AccessorV, Operator, Sibling};
use crate::query::{
    accessor_matches, apply_selector, chain_matches, scan_back,
};

verus! {

/// Law: the selector `top()` parses, and returns any document's top-level
/// nodes, in order, unchanged.
#[verifier::rlimit(100)]
pub proof fn lemma_top_returns_document(doc: Seq<NodeV>)
    ensures
        parse_selector("top()"@) matches Some(sel) && apply_selector(sel, doc) == doc,
{
    reveal_strlit("top()");
    let s = "top()"@;
    assert(crate::parser::word_at(s, 0, s));
    assert(crate::parser::parse_accessor(s, 0) == Some((AccessorV::Top, 5int)));
    assert(crate::literals::ws_unit(s, 5) is None);
    assert(crate::parser::parse_separator(s, 5) is None);
    assert(crate::parser::parse_pairs(s, 5).0 =~= Seq::<
        (crate::parser::ParsedCombinator, AccessorV),
    >::empty());
    assert(crate::parser::parse_pairs(s, 5).1 == 5);
    let sel = parse_selector(s)->0;
    assert(sel =~= seq![crate::parser::CombinatorV::Descendant(AccessorV::Top, Seq::empty())]);
    assert(crate::query::apply_descendant(true, AccessorV::Top, Seq::empty(), doc) == doc);
    assert(crate::query::apply_from(sel, 1, true, doc) == doc);
    assert(crate::query::apply_from(sel, 0, true, doc) == doc);
    assert(apply_selector(sel, doc) == doc);
}

proof fn lemma_parse_top_child_form()
    ensures
        parse_selector("top() > []"@) matches Some(sel) && sel == seq![
            crate::parser::CombinatorV::Descendant(AccessorV::Top, Seq::<
                (Sibling, AccessorV),
            >::empty()),
            crate::parser::CombinatorV::Child(AccessorV::AnyElement, Seq::<
                (Sibling, AccessorV),
            >::empty()),
        ],
{
    reveal_strlit("top() > []");
    reveal_strlit("top()");
    reveal_strlit("[]");
    let s1 = "top() > []"@;
    assert(crate::parser::word_at(s1, 0, "top()"@));
    assert(crate::parser::word_at(s1, 8, "[]"@));
    assert(crate::parser::parse_accessor(s1, 0) == Some((AccessorV::Top, 5int)));
    assert(crate::literals::ws_unit(s1, 5) == Some(6int));
    assert(crate::literals::ws_unit(s1, 6) is None);
    assert(crate::literals::ws_more(s1, 6) == 6);
    assert(crate::literals::ws_run(s1, 5) == Some(6int));
    assert(crate::literals::ws_unit(s1, 7) == Some(8int));
    assert(crate::literals::ws_unit(s1, 8) is None);
    assert(crate::literals::ws_more(s1, 8) == 8);
    assert(crate::literals::ws_run(s1, 7) == Some(8int));
    assert(crate::parser::parse_separator(s1, 5) == Some(
        (crate::parser::ParsedCombinator::Child, 8int),
    ));
    assert(crate::parser::parse_accessor(s1, 8) == Some((AccessorV::AnyElement, 10int)));
    assert(crate::literals::ws_unit(s1, 10) is None);
    assert(crate::parser::parse_separator(s1, 10) is None);
    assert(crate::parser::parse_pairs(s1, 10).0 =~= Seq::<
        (crate::parser::ParsedCombinator, AccessorV),
    >::empty());
    assert(crate::parser::parse_pairs(s1, 5).0 =~= seq![
        (crate::parser::ParsedCombinator::Child, AccessorV::AnyElement),
    ]);
    assert(crate::parser::parse_pairs(s1, 5).1 == 10);
    let p1 = crate::parser::parse_pairs(s1, 5).0;
    assert(p1.drop_last() =~= Seq::<(crate::parser::ParsedCombinator, AccessorV)>::empty());
    assert(p1.last() == (crate::parser::ParsedCombinator::Child, AccessorV::AnyElement));
    assert(crate::parser::structure(AccessorV::Top, p1.drop_last()) =~= seq![
        crate::parser::CombinatorV::Descendant(AccessorV::Top, Seq::empty()),
    ]);
    assert(parse_selector(s1)->0 =~= seq![
        crate::parser::CombinatorV::Descendant(AccessorV::Top, Seq::<
            (Sibling, AccessorV),
        >::empty()),
        crate::parser::CombinatorV::Child(AccessorV::AnyElement, Seq::<
            (Sibling, AccessorV),
        >::empty()),
    ]);
}

proof fn lemma_parse_top_descendant_form()
    ensures
        parse_selector("top() []"@) matches Some(sel) && sel == seq![
            crate::parser::CombinatorV::Descendant(AccessorV::Top, Seq::<
                (Sibling, AccessorV),
            >::empty()),
            crate::parser::CombinatorV::Descendant(AccessorV::AnyElement, Seq::<
                (Sibling, AccessorV),
            >::empty()),
        ],
{
    reveal_strlit("top() []");
    reveal_strlit("top()");
    reveal_strlit("[]");
    let s2 = "top() []"@;
    assert(crate::parser::word_at(s2, 0, "top()"@));
    assert(crate::parser::word_at(s2, 6, "[]"@));
    assert(crate::parser::parse_accessor(s2, 0) == Some((AccessorV::Top, 5int)));
    assert(crate::literals::ws_unit(s2, 5) == Some(6int));
    assert(crate::literals::ws_unit(s2, 6) is None);
    assert(crate::literals::ws_more(s2, 6) == 6);
    assert(crate::literals::ws_run(s2, 5) == Some(6int));
    assert(crate::parser::parse_separator(s2, 5) == Some(
        (crate::parser::ParsedCombinator::Descendant, 6int),
    ));
    assert(crate::parser::parse_accessor(s2, 6) == Some((AccessorV::AnyElement, 8int)));
    assert(crate::literals::ws_unit(s2, 8) is None);
    assert(crate::parser::parse_separator(s2, 8) is None);
    assert(crate::parser::parse_pairs(s2, 8).0 =~= Seq::<
        (crate::parser::ParsedCombinator, AccessorV),
    >::empty());
    assert(crate::parser::parse_pairs(s2, 5).0 =~= seq![
        (crate::parser::ParsedCombinator::Descendant, AccessorV::AnyElement),
    ]);
    assert(crate::parser::parse_pairs(s2, 5).1 == 8);
    let p2 = crate::parser::parse_pairs(s2, 5).0;
    assert(p2.drop_last() =~= Seq::<(crate::parser::ParsedCombinator, AccessorV)>::empty());
    assert(p2.last() == (crate::parser::ParsedCombinator::Descendant, AccessorV::AnyElement));
    assert(crate::parser::structure(AccessorV::Top, p2.drop_last()) =~= seq![
        crate::parser::CombinatorV::Descendant(AccessorV::Top, Seq::empty()),
    ]);
    assert(parse_selector(s2)->0 =~= seq![
        crate::parser::CombinatorV::Descendant(AccessorV::Top, Seq::<
            (Sibling, AccessorV),
        >::empty()),
        crate::parser::CombinatorV::Descendant(AccessorV::AnyElement, Seq::<
            (Sibling, AccessorV),
        >::empty()),
    ]);
}

/// Law: `top()` has no depth, so a child step and a descendant step
/// immediately under it return the same result: `top() > []` and
/// `top() []` agree on every document.
pub proof fn lemma_top_child_equals_top_descendant(doc: Seq<NodeV>)
    ensures
        parse_selector("top() > []"@) matches Some(child_sel)
            && parse_selector("top() []"@) matches Some(desc_sel)
            && apply_selector(child_sel, doc) == apply_selector(desc_sel, doc),
{
    lemma_parse_top_child_form();
    lemma_parse_top_descendant_form();
    let sel1 = parse_selector("top() > []"@)->0;
    let sel2 = parse_selector("top() []"@)->0;
    assert(crate::query::apply_descendant(true, AccessorV::Top, Seq::empty(), doc) == doc);
    assert(crate::query::apply_child(true, AccessorV::AnyElement, Seq::empty(), doc) == doc);
    assert(crate::query::apply_descendant(true, AccessorV::AnyElement, Seq::empty(), doc)
        == doc);
    assert(crate::query::apply_from(sel1, 2, false, doc) == doc);
    assert(crate::query::apply_from(sel1, 1, true, doc) == doc);
    assert(crate::query::apply_from(sel1, 0, true, doc) == doc);
    assert(crate::query::apply_from(sel2, 2, false, doc) == doc);
    assert(crate::query::apply_from(sel2, 1, true, doc) == doc);
    assert(crate::query::apply_from(sel2, 0, true, doc) == doc);
}

/// Law: the adjacent-sibling relation is strict.  For the chain `a + b`, a
/// node matching `b` is rejected whenever the node immediately before it
/// does not match `a`, even if some earlier sibling does.
pub proof fn lemma_adjacent_is_strict(
    a: AccessorV,
    b: AccessorV,
    sibs: Seq<NodeV>,
    i: int,
)
    requires
        0 <= i < sibs.len(),
        accessor_matches(b, sibs[i]),
        i == 0 || !accessor_matches(a, sibs[i - 1]),
    ensures
        !chain_matches(a, seq![(Sibling::Adjacent, b)], sibs, i),
{
    let chain = seq![(Sibling::Adjacent, b)];
    let pairs = crate::query::full_chain(a, chain);
    assert(pairs =~= seq![(Sibling::General, a), (Sibling::Adjacent, b)]);
    assert(pairs.last() == (Sibling::Adjacent, b));
    assert(pairs.drop_last() =~= seq![(Sibling::General, a)]);
    let rest = seq![(Sibling::General, a)];
    assert(rest.last() == (Sibling::General, a));
    assert(!crate::query::chain_before(rest, Sibling::Adjacent, sibs, i));
}

/// Every earlier match is found: the backward scan succeeds exactly when
/// some earlier sibling matches the accessor.
pub proof fn lemma_scan_back_finds(a: AccessorV, sibs: Seq<NodeV>, pos: int)
    ensures
        scan_back(a, sibs, pos) is Some <==> exists|j: int|
            0 <= j < pos && #[trigger] accessor_matches(a, sibs[j]),
    decreases pos,
{
    if pos > 0 {
        lemma_scan_back_finds(a, sibs, pos - 1);
        if accessor_matches(a, sibs[pos - 1]) {
            assert(0 <= pos - 1 < pos && accessor_matches(a, sibs[pos - 1]));
        }
    }
}

/// Law: the general-sibling relation is existential.  For the chain
/// `a ~ b`, a node matching `b` is accepted as soon as any earlier sibling
/// matches `a`, whatever the gap.
pub proof fn lemma_general_is_existential(
    a: AccessorV,
    b: AccessorV,
    sibs: Seq<NodeV>,
    i: int,
    j: int,
)
    requires
        0 <= i < sibs.len(),
        accessor_matches(b, sibs[i]),
        0 <= j < i,
        accessor_matches(a, sibs[j]),
    ensures
        chain_matches(a, seq![(Sibling::General, b)], sibs, i),
{
    let chain = seq![(Sibling::General, b)];
    let pairs = crate::query::full_chain(a, chain);
    assert(pairs =~= seq![(Sibling::General, a), (Sibling::General, b)]);
    assert(pairs.last() == (Sibling::General, b));
    assert(pairs.drop_last() =~= seq![(Sibling::General, a)]);
    lemma_scan_back_finds(a, sibs, i);
    assert(scan_back(a, sibs, i) is Some);
    let rest = seq![(Sibling::General, a)];
    assert(rest.last() == (Sibling::General, a));
    assert(rest.drop_last() =~= Seq::<(Sibling, AccessorV)>::empty());
    let pos = scan_back(a, sibs, i)->0;
    assert(crate::query::chain_before(rest.drop_last(), Sibling::General, sibs, pos));
    assert(crate::query::chain_before(rest, Sibling::General, sibs, i));
    assert(crate::query::chain_before(pairs.drop_last(), pairs.last().0, sibs, i));
}

/// Law: the comparator is type-safe.  A string value compared against an
/// integer literal yields false, whatever the operator.
pub proof fn lemma_string_int_comparison_false(text: Seq<char>, number: int, op: Operator)
    ensures
        !eval(crate::node::ValueV::Text(text), op, crate::node::ValueV::Int(number)),
{
}

} // verus!
