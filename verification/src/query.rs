//! The combinator evaluator: folds a parsed selector over a document tree and
//! yields the matched nodes in document order.
//!
//! Matching is specified over the mathematical views of nodes and selectors;
//! every executable function here is proved to agree with those
//! specifications.

use vstd::prelude::*;

use crate::evaluation::{eval, evaluate};
use crate::node::{lookup_prop, node_view, Node, NodeV, Value, ValueV};
use crate::parser::{
    chain_view, Accessor, AccessorV, Combinator, CombinatorV, Entity, EntityV, Matcher, MatcherV,
    Sibling,
};
use crate::parser::Operator;
use crate::text::{
    seq_contains, seq_ends_with, seq_starts_with, str_contains, str_ends_with, str_eq,
    str_starts_with,
};

verus! {

/// Whether a matcher accepts a node.
///
/// A `Direct` matcher is a presence test: a named property must exist, or a
/// positional value must exist.  An `Expression` matcher reads the referenced
/// part of the node and hands it to the comparator; an absent part never
/// matches.  The reserved entities never match, and a node name supports the
/// string operators against a string literal only.
pub open spec fn matcher_holds(m: MatcherV, n: NodeV) -> bool {
    match m {
        MatcherV::Direct(entity) => match entity {
            EntityV::PropName(name) => lookup_prop(n.properties, name) is Some,
            EntityV::Val(index) => n.values.len() > index,
            _ => false,
        },
        MatcherV::Expression(entity, op, value) => match entity {
            EntityV::PropName(name) => match lookup_prop(n.properties, name) {
                Some(lhs) => eval(lhs, op, value),
                None => false,
            },
            EntityV::Val(index) => if 0 <= index < n.values.len() {
                eval(n.values[index], op, value)
            } else {
                false
            },
            EntityV::NodeName => match value {
                ValueV::Text(s) => match op {
                    Operator::Contains => seq_contains(n.name, s),
                    Operator::EndsWith => seq_ends_with(n.name, s),
                    Operator::Equal => n.name == s,
                    Operator::NotEqual => n.name != s,
                    Operator::StartsWith => seq_starts_with(n.name, s),
                    _ => false,
                },
                _ => false,
            },
            _ => false,
        },
    }
}

/// Whether a node passes the identifier filter and the matcher of a `Closed`
/// accessor.
pub open spec fn accessor_filter_holds(id: Option<Seq<char>>, m: MatcherV, n: NodeV) -> bool {
    (match id {
        Some(name) => n.name == name,
        None => true,
    }) && matcher_holds(m, n)
}

/// Whether an accessor accepts a node.
pub open spec fn accessor_matches(a: AccessorV, n: NodeV) -> bool {
    match a {
        AccessorV::AnyElement => true,
        AccessorV::AnyElementWithTypeTag(_) => false,
        AccessorV::Closed(id, m) => accessor_filter_holds(id, m, n),
        AccessorV::Sole(id) => n.name == id,
        AccessorV::Top => true,
    }
}

/// Decides [`matcher_holds`].
pub fn match_by_matcher(matcher: &Matcher, node: &Node) -> (r: bool)
    ensures
        r == matcher_holds(matcher@, node@),
{
    match matcher {
        Matcher::Direct(entity) => match entity {
            Entity::PropName(name) => node.get_prop(name.as_str()).is_some(),
            Entity::Val(index) => node.values.len() > *index,
            Entity::NodeName | Entity::Props | Entity::TypeTag | Entity::Values => false,
        },
        Matcher::Expression(entity, operator, value) => match entity {
            Entity::PropName(name) => match node.get_prop(name.as_str()) {
                Some(lhs) => evaluate(lhs, operator, value),
                None => false,
            },
            Entity::Val(index) => if *index < node.values.len() {
                evaluate(&node.values[*index], operator, value)
            } else {
                false
            },
            Entity::NodeName => match value {
                Value::Text(s) => match operator {
                    Operator::Contains => str_contains(node.name.as_str(), s.as_str()),
                    Operator::EndsWith => str_ends_with(node.name.as_str(), s.as_str()),
                    Operator::Equal => str_eq(node.name.as_str(), s.as_str()),
                    Operator::NotEqual => !str_eq(node.name.as_str(), s.as_str()),
                    Operator::StartsWith => str_starts_with(node.name.as_str(), s.as_str()),
                    Operator::GreaterThan
                    | Operator::GreaterThanOrEqualTo
                    | Operator::LessThan
                    | Operator::LessThanOrEqualTo => false,
                },
                Value::Int(_) | Value::Float(_) | Value::Bool(_) | Value::Null => false,
            },
            Entity::Props | Entity::TypeTag | Entity::Values => false,
        },
    }
}

/// Decides [`accessor_filter_holds`].
pub fn match_by_accessor_filter(identifier: &Option<String>, matcher: &Matcher, node: &Node) -> (r:
    bool)
    ensures
        r == accessor_filter_holds(
            match identifier {
                Some(s) => Some(s@),
                None => None,
            },
            matcher@,
            node@,
        ),
{
    let named = match identifier {
        Some(identifier) => str_eq(node.name.as_str(), identifier.as_str()),
        None => true,
    };
    named && match_by_matcher(matcher, node)
}

/// The position of the nearest sibling before `pos` accepted by `a`, if any.
pub open spec fn scan_back(a: AccessorV, sibs: Seq<NodeV>, pos: int) -> Option<int>
    decreases pos,
{
    if pos <= 0 {
        None
    } else if accessor_matches(a, sibs[pos - 1]) {
        Some(pos - 1)
    } else {
        scan_back(a, sibs, pos - 1)
    }
}

/// Whether the pairs still to match are satisfied to the left of `pos`.
///
/// `rel` is the relation carried by the pair consumed just before: it says
/// how the accessor of the rightmost remaining pair must relate to `pos`.
/// An `Adjacent` relation demands the immediate predecessor; a `General`
/// relation is satisfied by the nearest earlier match, and the cursor moves
/// to the position it matched at.
pub open spec fn chain_before(
    pairs: Seq<(Sibling, AccessorV)>,
    rel: Sibling,
    sibs: Seq<NodeV>,
    pos: int,
) -> bool
    decreases pairs.len(),
{
    if pairs.len() == 0 {
        true
    } else {
        match rel {
            Sibling::Adjacent => pos >= 1 && accessor_matches(pairs.last().1, sibs[pos - 1])
                && chain_before(pairs.drop_last(), pairs.last().0, sibs, pos - 1),
            Sibling::General => match scan_back(pairs.last().1, sibs, pos) {
                Some(j) => chain_before(pairs.drop_last(), pairs.last().0, sibs, j),
                None => false,
            },
        }
    }
}

/// The full relation chain of a combinator: the head accessor, reached by a
/// `General` relation, followed by the sibling chain.
pub open spec fn full_chain(head: AccessorV, chain: Seq<(Sibling, AccessorV)>) -> Seq<
    (Sibling, AccessorV),
> {
    seq![(Sibling::General, head)] + chain
}

/// Whether the node at position `i` of the sibling list satisfies the
/// relation chain: the final accessor accepts it, and walking backward each
/// relation finds its match among the preceding siblings.
pub open spec fn chain_matches(
    head: AccessorV,
    chain: Seq<(Sibling, AccessorV)>,
    sibs: Seq<NodeV>,
    i: int,
) -> bool {
    let pairs = full_chain(head, chain);
    accessor_matches(pairs.last().1, sibs[i]) && chain_before(
        pairs.drop_last(),
        pairs.last().0,
        sibs,
        i,
    )
}

/// Decides [`accessor_matches`].
pub fn match_by_accessor(accessor: &Accessor, node: &Node) -> (r: bool)
    ensures
        r == accessor_matches(accessor@, node@),
{
    match accessor {
        Accessor::AnyElement => true,
        Accessor::AnyElementWithTypeTag(_) => false,
        Accessor::Closed(identifier, matcher) => match_by_accessor_filter(
            identifier,
            matcher,
            node,
        ),
        Accessor::Sole(identifier) => str_eq(node.name.as_str(), identifier.as_str()),
        Accessor::Top => true,
    }
}


/// Scans backward from `pos` for the nearest earlier sibling accepted by the
/// accessor.
fn find_preceding(accessor: &Accessor, document: &Vec<Node>, pos: usize) -> (r: Option<usize>)
    requires
        pos <= document@.len(),
    ensures
        match r {
            Some(j) => j < pos && scan_back(accessor@, document.deep_view(), pos as int) == Some(
                j as int,
            ),
            None => scan_back(accessor@, document.deep_view(), pos as int) is None,
        },
{
    let ghost sibs = document.deep_view();
    let mut p = pos;
    while p > 0
        invariant
            p <= pos <= document@.len(),
            sibs == document.deep_view(),
            scan_back(accessor@, sibs, pos as int) == scan_back(accessor@, sibs, p as int),
        decreases p,
    {
        if match_by_accessor(accessor, &document[p - 1]) {
            return Some(p - 1);
        }
        p = p - 1;
    }
    None
}

/// Decides [`chain_matches`] for the node at position `i`.
fn matches_chain_at(
    accessor: &Accessor,
    siblings: &Vec<(Sibling, Accessor)>,
    document: &Vec<Node>,
    i: usize,
) -> (r: bool)
    requires
        i < document@.len(),
    ensures
        r == chain_matches(accessor@, chain_view(siblings@), document.deep_view(), i as int),
{
    let ghost sibs = document.deep_view();
    let ghost full = full_chain(accessor@, chain_view(siblings@));
    let nchain = siblings.len();
    proof {
        assert(full.len() == nchain + 1);
        assert(full.last() == if nchain > 0 {
            (siblings@[nchain - 1].0, siblings@[nchain - 1].1@)
        } else {
            (Sibling::General, accessor@)
        });
    }
    let last_acc: &Accessor = if nchain > 0 {
        &siblings[nchain - 1].1
    } else {
        accessor
    };
    if !match_by_accessor(last_acc, &document[i]) {
        return false;
    }
    let mut rel: Sibling = if nchain > 0 {
        siblings[nchain - 1].0
    } else {
        Sibling::General
    };
    let mut pos: usize = i;
    let mut k: usize = nchain;
    proof {
        assert(full.drop_last() =~= full.take(nchain as int));
    }
    while k > 0
        invariant
            pos <= document@.len(),
            k <= nchain == siblings@.len(),
            sibs == document.deep_view(),
            full == full_chain(accessor@, chain_view(siblings@)),
            full.len() == nchain + 1,
            chain_matches(accessor@, chain_view(siblings@), sibs, i as int) == chain_before(
                full.take(k as int),
                rel,
                sibs,
                pos as int,
            ),
        decreases k,
    {
        let ghost pairs = full.take(k as int);
        proof {
            assert(pairs.last() == full[k as int - 1]);
            assert(pairs.drop_last() =~= full.take(k as int - 1));
        }
        let cur_acc: &Accessor = if k == 1 {
            accessor
        } else {
            &siblings[k - 2].1
        };
        let cur_rel: Sibling = if k == 1 {
            Sibling::General
        } else {
            siblings[k - 2].0
        };
        proof {
            assert(full[k as int - 1] == if k == 1 {
                (Sibling::General, accessor@)
            } else {
                (siblings@[k - 2].0, siblings@[k - 2].1@)
            });
        }
        match rel {
            Sibling::Adjacent => {
                if pos == 0 {
                    return false;
                }
                if !match_by_accessor(cur_acc, &document[pos - 1]) {
                    return false;
                }
                pos = pos - 1;
            },
            Sibling::General => {
                match find_preceding(cur_acc, document, pos) {
                    Some(j) => {
                        pos = j;
                    },
                    None => {
                        return false;
                    },
                }
            },
        }
        rel = cur_rel;
        k = k - 1;
    }
    proof {
        assert(full.take(0).len() == 0);
    }
    true
}

/// The nodes of the sibling list accepted by the relation chain, up to
/// position `k`, in order.
pub open spec fn chain_filter_upto(
    head: AccessorV,
    chain: Seq<(Sibling, AccessorV)>,
    sibs: Seq<NodeV>,
    k: int,
) -> Seq<NodeV>
    decreases k,
{
    if k <= 0 {
        Seq::empty()
    } else {
        chain_filter_upto(head, chain, sibs, k - 1) + if chain_matches(head, chain, sibs, k - 1) {
            seq![sibs[k - 1]]
        } else {
            Seq::empty()
        }
    }
}

/// The nodes of the sibling list accepted by the relation chain, in order.
pub open spec fn chain_filter(
    head: AccessorV,
    chain: Seq<(Sibling, AccessorV)>,
    sibs: Seq<NodeV>,
) -> Seq<NodeV> {
    chain_filter_upto(head, chain, sibs, sibs.len() as int)
}

/// Filters a sibling list by the relation chain `[(General, accessor)] ++
/// siblings`.
pub fn filter_by_siblings(
    accessor: &Accessor,
    siblings: &Vec<(Sibling, Accessor)>,
    document: &Vec<Node>,
) -> (r: Vec<Node>)
    ensures
        r.deep_view() == chain_filter(accessor@, chain_view(siblings@), document.deep_view()),
{
    let ghost sibs = document.deep_view();
    let ghost headv = accessor@;
    let ghost chainv = chain_view(siblings@);
    let mut r: Vec<Node> = Vec::new();
    let n = document.len();
    for i in 0..n
        invariant
            n == document@.len(),
            sibs == document.deep_view(),
            headv == accessor@,
            chainv == chain_view(siblings@),
            r.deep_view() =~= chain_filter_upto(headv, chainv, sibs, i as int),
    {
        if matches_chain_at(accessor, siblings, document, i) {
            r.push(document[i].clone());
        }
        proof {
            assert(r.deep_view() =~= chain_filter_upto(headv, chainv, sibs, i as int + 1));
        }
    }
    r
}


/// The number of nodes in the subtree rooted at `n`, the root included.
pub open spec fn subtree_size(n: NodeV) -> nat
    decreases n,
{
    1 + forest_size(n.children)
}

/// The number of nodes in all the subtrees of a node list.
pub open spec fn forest_size(doc: Seq<NodeV>) -> nat
    decreases doc, 1int,
{
    if doc.len() == 0 {
        0
    } else {
        subtree_size(doc[0]) + forest_size(doc.drop_first())
    }
}

proof fn lemma_forest_size_concat(a: Seq<NodeV>, b: Seq<NodeV>)
    ensures
        forest_size(a + b) == forest_size(a) + forest_size(b),
    decreases a.len(),
{
    if a.len() == 0 {
        assert(a + b =~= b);
    } else {
        assert((a + b).drop_first() =~= a.drop_first() + b);
        lemma_forest_size_concat(a.drop_first(), b);
    }
}

/// The number of nodes in all the subtrees of a queue of node lists, plus
/// one per queued list.
pub open spec fn queue_size(q: Seq<Seq<NodeV>>) -> nat
    decreases q,
{
    if q.len() == 0 {
        0
    } else {
        forest_size(q[0]) + 1 + queue_size(q.drop_first())
    }
}

proof fn lemma_queue_size_concat(a: Seq<Seq<NodeV>>, b: Seq<Seq<NodeV>>)
    ensures
        queue_size(a + b) == queue_size(a) + queue_size(b),
    decreases a.len(),
{
    if a.len() == 0 {
        assert(a + b =~= b);
    } else {
        assert((a + b).drop_first() =~= a.drop_first() + b);
        lemma_queue_size_concat(a.drop_first(), b);
    }
}

/// The nodes of a queue of subtrees accepted by the predicate, in
/// breadth-first visitation order: the head list first, its members'
/// children queued behind.
pub open spec fn bfs_filter(queue: Seq<NodeV>, pred: spec_fn(NodeV) -> bool) -> Seq<NodeV>
    decreases forest_size(queue),
    via bfs_filter_decreases
{
    if queue.len() == 0 {
        Seq::empty()
    } else {
        (if pred(queue[0]) {
            seq![queue[0]]
        } else {
            Seq::empty()
        }) + bfs_filter(queue.drop_first() + queue[0].children, pred)
    }
}

#[via_fn]
proof fn bfs_filter_decreases(queue: Seq<NodeV>, pred: spec_fn(NodeV) -> bool) {
    if queue.len() > 0 {
        lemma_forest_size_concat(queue.drop_first(), queue[0].children);
        assert(forest_size(queue) == subtree_size(queue[0]) + forest_size(queue.drop_first()));
        assert(subtree_size(queue[0]) == 1 + forest_size(queue[0].children));
    }
}

proof fn lemma_forest_size_single(n: NodeV)
    ensures
        forest_size(seq![n]) == subtree_size(n),
{
    reveal_with_fuel(forest_size, 2);
    assert(seq![n].drop_first() =~= Seq::<NodeV>::empty());
}

proof fn lemma_queue_size_single(l: Seq<NodeV>)
    ensures
        queue_size(seq![l]) == forest_size(l) + 1,
{
    reveal_with_fuel(queue_size, 2);
    assert(seq![l].drop_first() =~= Seq::<Seq<NodeV>>::empty());
}

/// The non-empty children lists of the nodes of a sibling list, up to
/// position `k`, in order.
pub open spec fn child_lists_upto(sibs: Seq<NodeV>, k: int) -> Seq<Seq<NodeV>>
    decreases k,
{
    if k <= 0 {
        Seq::empty()
    } else {
        child_lists_upto(sibs, k - 1) + if sibs[k - 1].children.len() > 0 {
            seq![sibs[k - 1].children]
        } else {
            Seq::empty()
        }
    }
}

/// The non-empty children lists of the nodes of a sibling list, in order.
pub open spec fn child_lists(sibs: Seq<NodeV>) -> Seq<Seq<NodeV>> {
    child_lists_upto(sibs, sibs.len() as int)
}

proof fn lemma_child_lists_size(sibs: Seq<NodeV>, k: int)
    requires
        0 <= k <= sibs.len(),
    ensures
        queue_size(child_lists_upto(sibs, k)) <= forest_size(sibs.take(k)),
    decreases k,
{
    if k > 0 {
        lemma_child_lists_size(sibs, k - 1);
        assert(sibs.take(k) =~= sibs.take(k - 1) + seq![sibs[k - 1]]);
        lemma_forest_size_concat(sibs.take(k - 1), seq![sibs[k - 1]]);
        lemma_forest_size_single(sibs[k - 1]);
        let tail = if sibs[k - 1].children.len() > 0 {
            seq![sibs[k - 1].children]
        } else {
            Seq::<Seq<NodeV>>::empty()
        };
        lemma_queue_size_concat(child_lists_upto(sibs, k - 1), tail);
        if sibs[k - 1].children.len() > 0 {
            lemma_queue_size_single(sibs[k - 1].children);
        }
    } else {
        assert(sibs.take(0) =~= Seq::<NodeV>::empty());
    }
}

/// The nodes accepted by the relation chain over a queue of sibling lists,
/// in breadth-first visitation order: each list is chain-filtered as one
/// sibling list, and its members' children lists are queued behind.
pub open spec fn bfs_chain(
    queue: Seq<Seq<NodeV>>,
    head: AccessorV,
    chain: Seq<(Sibling, AccessorV)>,
) -> Seq<NodeV>
    decreases queue_size(queue),
    via bfs_chain_decreases
{
    if queue.len() == 0 {
        Seq::empty()
    } else {
        chain_filter(head, chain, queue[0]) + bfs_chain(
            queue.drop_first() + child_lists(queue[0]),
            head,
            chain,
        )
    }
}

#[via_fn]
proof fn bfs_chain_decreases(
    queue: Seq<Seq<NodeV>>,
    head: AccessorV,
    chain: Seq<(Sibling, AccessorV)>,
) {
    if queue.len() > 0 {
        lemma_queue_size_concat(queue.drop_first(), child_lists(queue[0]));
        lemma_child_lists_size(queue[0], queue[0].len() as int);
        assert(queue[0].take(queue[0].len() as int) =~= queue[0]);
    }
}


/// The predicate form of an accessor.
pub open spec fn accessor_pred(a: AccessorV) -> spec_fn(NodeV) -> bool {
    |n: NodeV| accessor_matches(a, n)
}

/// The nodes of a list accepted by the predicate, up to position `k`.
pub open spec fn filtered_upto(sibs: Seq<NodeV>, pred: spec_fn(NodeV) -> bool, k: int) -> Seq<
    NodeV,
>
    decreases k,
{
    if k <= 0 {
        Seq::empty()
    } else {
        filtered_upto(sibs, pred, k - 1) + if pred(sibs[k - 1]) {
            seq![sibs[k - 1]]
        } else {
            Seq::empty()
        }
    }
}

/// The nodes of a list accepted by the predicate, in order.
pub open spec fn filtered(sibs: Seq<NodeV>, pred: spec_fn(NodeV) -> bool) -> Seq<NodeV> {
    filtered_upto(sibs, pred, sibs.len() as int)
}

/// The children of the nodes of a list, up to position `k`, concatenated.
pub open spec fn children_upto(doc: Seq<NodeV>, k: int) -> Seq<NodeV>
    decreases k,
{
    if k <= 0 {
        Seq::empty()
    } else {
        children_upto(doc, k - 1) + doc[k - 1].children
    }
}

/// The children of the nodes of a list, concatenated in order.
pub open spec fn children_of_all(doc: Seq<NodeV>) -> Seq<NodeV> {
    children_upto(doc, doc.len() as int)
}

/// The node set a combinator applies to: the current set itself when the
/// previous accessor was the zero-width `Top` anchor, the children of its
/// nodes otherwise.
pub open spec fn base_set(prev_top: bool, doc: Seq<NodeV>) -> Seq<NodeV> {
    if prev_top {
        doc
    } else {
        children_of_all(doc)
    }
}

/// Keeps the nodes whose name equals the identifier.
pub fn filter_by_identifier(identifier: &str, document: &Vec<Node>) -> (r: Vec<Node>)
    ensures
        r.deep_view() == filtered(document.deep_view(), accessor_pred(AccessorV::Sole(identifier@))),
{
    let ghost docv = document.deep_view();
    let ghost pred = accessor_pred(AccessorV::Sole(identifier@));
    let mut r: Vec<Node> = Vec::new();
    let n = document.len();
    for i in 0..n
        invariant
            n == document@.len(),
            docv == document.deep_view(),
            pred == accessor_pred(AccessorV::Sole(identifier@)),
            r.deep_view() =~= filtered_upto(docv, pred, i as int),
    {
        if crate::text::str_eq(document[i].name.as_str(), identifier) {
            r.push(document[i].clone());
        }
        proof {
            assert(r.deep_view() =~= filtered_upto(docv, pred, i as int + 1));
        }
    }
    r
}

/// Keeps the nodes accepted by the accessor.
fn filter_by_accessor(accessor: &Accessor, document: &Vec<Node>) -> (r: Vec<Node>)
    ensures
        r.deep_view() == filtered(document.deep_view(), accessor_pred(accessor@)),
{
    let ghost docv = document.deep_view();
    let ghost pred = accessor_pred(accessor@);
    let mut r: Vec<Node> = Vec::new();
    let n = document.len();
    for i in 0..n
        invariant
            n == document@.len(),
            docv == document.deep_view(),
            pred == accessor_pred(accessor@),
            r.deep_view() =~= filtered_upto(docv, pred, i as int),
    {
        if match_by_accessor(accessor, &document[i]) {
            r.push(document[i].clone());
        }
        proof {
            assert(r.deep_view() =~= filtered_upto(docv, pred, i as int + 1));
        }
    }
    r
}

/// Clones the children of every node, concatenated in document order.
fn child_nodes(document: &Vec<Node>) -> (r: Vec<Node>)
    ensures
        r.deep_view() == children_of_all(document.deep_view()),
{
    let ghost docv = document.deep_view();
    let mut r: Vec<Node> = Vec::new();
    let n = document.len();
    for i in 0..n
        invariant
            n == document@.len(),
            docv == document.deep_view(),
            r.deep_view() =~= children_upto(docv, i as int),
    {
        let node = &document[i];
        let m = node.children.len();
        for j in 0..m
            invariant
                m == node.children@.len(),
                node == document[i as int],
                n == document@.len(),
                i < n,
                docv == document.deep_view(),
                r.deep_view() =~= children_upto(docv, i as int) + docv[i as int].children.take(
                    j as int,
                ),
        {
            let child = node.children[j].clone();
            proof {
                assert(docv[i as int] == node_view(document@[i as int]));
                assert(child@ == docv[i as int].children[j as int]);
            }
            let ghost pre_deep = r.deep_view();
            r.push(child);
            proof {
                assert(r.deep_view() =~= pre_deep.push(child@));
                assert(r.deep_view() =~= children_upto(docv, i as int)
                    + docv[i as int].children.take(j as int + 1));
            }
        }
        proof {
            assert(docv[i as int].children.take(m as int) =~= docv[i as int].children);
            assert(r.deep_view() =~= children_upto(docv, i as int + 1));
        }
    }
    r
}

/// The views of a queue of node references.
pub open spec fn refs_view(q: Seq<&Node>) -> Seq<NodeV> {
    q.map_values(|n: &Node| n@)
}

/// The views of a queue of sibling-list references.
pub open spec fn lists_view(q: Seq<&Vec<Node>>) -> Seq<Seq<NodeV>> {
    q.map_values(|v: &Vec<Node>| v.deep_view())
}

/// Breadth-first search of the subtrees rooted at the given nodes, keeping
/// every visited node the accessor accepts, in visitation order.
pub fn traverse(accessor: &Accessor, document: &Vec<Node>) -> (r: Vec<Node>)
    ensures
        r.deep_view() == bfs_filter(document.deep_view(), accessor_pred(accessor@)),
{
    let ghost pred = accessor_pred(accessor@);
    let mut result: Vec<Node> = Vec::new();
    let mut queue: Vec<&Node> = Vec::new();
    let n = document.len();
    for i in 0..n
        invariant
            n == document@.len(),
            queue@.len() == i,
            forall|j: int| 0 <= j < i ==> queue@[j] == &document@[j],
    {
        queue.push(&document[i]);
    }
    proof {
        assert(refs_view(queue@) =~= document.deep_view());
    }
    let ghost goal = bfs_filter(document.deep_view(), pred);
    let mut h: usize = 0;
    proof {
        assert(queue@.skip(0) =~= queue@);
        assert(result.deep_view() + bfs_filter(refs_view(queue@), pred) =~= goal);
    }
    while h < queue.len()
        invariant
            h <= queue@.len(),
            pred == accessor_pred(accessor@),
            goal == bfs_filter(document.deep_view(), pred),
            result.deep_view() + bfs_filter(refs_view(queue@.skip(h as int)), pred) == goal,
        decreases forest_size(refs_view(queue@.skip(h as int))),
    {
        let ghost pre = refs_view(queue@.skip(h as int));
        let cur: &Node = queue[h];
        proof {
            assert(pre[0] == cur@);
        }
        if match_by_accessor(accessor, cur) {
            let copied = cur.clone();
            result.push(copied);
        }
        let ghost mid_queue = queue@;
        let m = cur.children.len();
        for j in 0..m
            invariant
                m == cur.children@.len(),
                queue@.len() == mid_queue.len() + j,
                queue@ =~= mid_queue + Seq::new(j as nat, |t: int| &cur.children@[t]),
        {
            queue.push(&cur.children[j]);
            proof {
                assert(queue@ =~= mid_queue + Seq::new(
                    j as nat + 1,
                    |t: int| &cur.children@[t],
                ));
            }
        }
        proof {
            let post = refs_view(queue@.skip(h as int + 1));
            assert(queue@.skip(h as int + 1) =~= mid_queue.skip(h as int + 1) + Seq::new(
                m as nat,
                |t: int| &cur.children@[t],
            ));
            assert(post =~= pre.drop_first() + cur@.children);
            assert(bfs_filter(pre, pred) == (if pred(pre[0]) {
                seq![pre[0]]
            } else {
                Seq::<NodeV>::empty()
            }) + bfs_filter(post, pred));
            assert(result.deep_view() + bfs_filter(post, pred) =~= goal);
            lemma_forest_size_concat(pre.drop_first(), cur@.children);
            assert(forest_size(pre) == subtree_size(pre[0]) + forest_size(pre.drop_first()));
            assert(forest_size(post) < forest_size(pre));
        }
        h = h + 1;
    }
    proof {
        assert(refs_view(queue@.skip(h as int)).len() == 0);
        assert(refs_view(queue@.skip(h as int)) =~= Seq::<NodeV>::empty());
        assert(result.deep_view() =~= goal);
    }
    result
}


/// Breadth-first search over a queue of sibling lists: each list is filtered
/// by the relation chain as one sibling list, and the children lists of its
/// nodes are queued behind.
fn run_chain_bfs(
    accessor: &Accessor,
    siblings: &Vec<(Sibling, Accessor)>,
    queue: Vec<&Vec<Node>>,
) -> (r: Vec<Node>)
    ensures
        r.deep_view() == bfs_chain(lists_view(queue@), accessor@, chain_view(siblings@)),
{
    let ghost headv = accessor@;
    let ghost chainv = chain_view(siblings@);
    let ghost goal = bfs_chain(lists_view(queue@), headv, chainv);
    let mut queue = queue;
    let mut result: Vec<Node> = Vec::new();
    let mut h: usize = 0;
    proof {
        assert(queue@.skip(0) =~= queue@);
        assert(result.deep_view() + bfs_chain(lists_view(queue@), headv, chainv) =~= goal);
    }
    while h < queue.len()
        invariant
            h <= queue@.len(),
            headv == accessor@,
            chainv == chain_view(siblings@),
            result.deep_view() + bfs_chain(lists_view(queue@.skip(h as int)), headv, chainv)
                == goal,
        decreases queue_size(lists_view(queue@.skip(h as int))),
    {
        let ghost pre = lists_view(queue@.skip(h as int));
        let cur: &Vec<Node> = queue[h];
        proof {
            assert(pre[0] == cur.deep_view());
        }
        let mut part = filter_by_siblings(accessor, siblings, cur);
        let ghost part_deep = part.deep_view();
        let ghost res_deep = result.deep_view();
        result.append(&mut part);
        proof {
            assert(result.deep_view() =~= res_deep + part_deep);
        }
        let ghost mid_queue = queue@;
        let m = cur.len();
        for j in 0..m
            invariant
                m == cur@.len(),
                queue@.len() >= mid_queue.len(),
                queue@.take(mid_queue.len() as int) =~= mid_queue,
                lists_view(queue@.skip(mid_queue.len() as int)) =~= child_lists_upto(
                    cur.deep_view(),
                    j as int,
                ),
        {
            let node = &cur[j];
            if node.children.len() > 0 {
                let ghost pre_tail = lists_view(queue@.skip(mid_queue.len() as int));
                queue.push(&node.children);
                proof {
                    assert(queue@.take(mid_queue.len() as int) =~= mid_queue);
                    assert(lists_view(queue@.skip(mid_queue.len() as int)) =~= pre_tail.push(
                        node.children.deep_view(),
                    ));
                    assert(node.children.deep_view() =~= cur.deep_view()[j as int].children);
                    assert(lists_view(queue@.skip(mid_queue.len() as int))
                        =~= child_lists_upto(cur.deep_view(), j as int + 1));
                }
            } else {
                proof {
                    assert(cur.deep_view()[j as int].children.len() == 0);
                    assert(child_lists_upto(cur.deep_view(), j as int + 1)
                        =~= child_lists_upto(cur.deep_view(), j as int));
                }
            }
        }
        proof {
            let post = lists_view(queue@.skip(h as int + 1));
            assert(lists_view(queue@.skip(mid_queue.len() as int)) =~= child_lists(
                cur.deep_view(),
            ));
            assert(post =~= pre.drop_first() + child_lists(cur.deep_view()));
            assert(bfs_chain(pre, headv, chainv) == chain_filter(headv, chainv, pre[0])
                + bfs_chain(post, headv, chainv));
            assert(part_deep == chain_filter(headv, chainv, cur.deep_view()));
            assert(result.deep_view() + bfs_chain(post, headv, chainv) =~= goal);
            lemma_queue_size_concat(pre.drop_first(), child_lists(cur.deep_view()));
            lemma_child_lists_size(cur.deep_view(), cur.deep_view().len() as int);
            assert(cur.deep_view().take(cur.deep_view().len() as int) =~= cur.deep_view());
            assert(queue_size(pre) == forest_size(pre[0]) + 1 + queue_size(pre.drop_first()));
            assert(queue_size(post) < queue_size(pre));
        }
        h = h + 1;
    }
    proof {
        assert(lists_view(queue@.skip(h as int)) =~= Seq::<Seq<NodeV>>::empty());
        assert(result.deep_view() =~= goal);
    }
    result
}

/// Applies the relation chain at every level of the subtrees rooted at the
/// given sibling list, by breadth-first traversal.
pub fn traverse_by_siblings(
    accessor: &Accessor,
    siblings: &Vec<(Sibling, Accessor)>,
    document: &Vec<Node>,
) -> (r: Vec<Node>)
    ensures
        r.deep_view() == bfs_chain(
            seq![document.deep_view()],
            accessor@,
            chain_view(siblings@),
        ),
{
    let mut queue: Vec<&Vec<Node>> = Vec::new();
    queue.push(document);
    proof {
        assert(lists_view(queue@) =~= seq![document.deep_view()]);
    }
    run_chain_bfs(accessor, siblings, queue)
}


/// The chain-filtered children lists of the nodes of the current set, up to
/// position `k`, concatenated.
pub open spec fn chain_children_upto(
    head: AccessorV,
    chain: Seq<(Sibling, AccessorV)>,
    doc: Seq<NodeV>,
    k: int,
) -> Seq<NodeV>
    decreases k,
{
    if k <= 0 {
        Seq::empty()
    } else {
        chain_children_upto(head, chain, doc, k - 1) + chain_filter(head, chain, doc[k - 1].children)
    }
}

/// One `Child` combinator step.
///
/// Without a sibling chain, the head accessor filters the applicable set:
/// everything for the wildcard and the `Top` anchor, nothing for the
/// reserved type-tag form, the accessor test otherwise.  With a chain, the
/// relation chain filters the applicable sibling lists: the current set as
/// one list under the `Top` anchor, each node's children list otherwise.
pub open spec fn apply_child(
    prev_top: bool,
    a: AccessorV,
    chain: Seq<(Sibling, AccessorV)>,
    doc: Seq<NodeV>,
) -> Seq<NodeV> {
    if chain.len() == 0 {
        match a {
            AccessorV::AnyElement => base_set(prev_top, doc),
            AccessorV::AnyElementWithTypeTag(_) => Seq::empty(),
            AccessorV::Closed(_, _) => filtered(base_set(prev_top, doc), accessor_pred(a)),
            AccessorV::Sole(_) => filtered(base_set(prev_top, doc), accessor_pred(a)),
            AccessorV::Top => base_set(prev_top, doc),
        }
    } else if prev_top {
        chain_filter(a, chain, doc)
    } else {
        chain_children_upto(a, chain, doc, doc.len() as int)
    }
}

/// One `Descendant` combinator step.
///
/// As [`apply_child`], except that an accessor test searches the applicable
/// subtrees to unbounded depth, and a chain is applied at every level of
/// them, both by breadth-first traversal.
pub open spec fn apply_descendant(
    prev_top: bool,
    a: AccessorV,
    chain: Seq<(Sibling, AccessorV)>,
    doc: Seq<NodeV>,
) -> Seq<NodeV> {
    if chain.len() == 0 {
        match a {
            AccessorV::AnyElement => base_set(prev_top, doc),
            AccessorV::AnyElementWithTypeTag(_) => Seq::empty(),
            AccessorV::Closed(_, _) => bfs_filter(base_set(prev_top, doc), accessor_pred(a)),
            AccessorV::Sole(_) => bfs_filter(base_set(prev_top, doc), accessor_pred(a)),
            AccessorV::Top => base_set(prev_top, doc),
        }
    } else if prev_top {
        bfs_chain(seq![doc], a, chain)
    } else {
        bfs_chain(child_lists(doc), a, chain)
    }
}

/// Evaluates one `Child` combinator against the current set.
pub fn query_by_child_combinator(
    is_previous_sibling_top: bool,
    accessor: &Accessor,
    siblings: &Vec<(Sibling, Accessor)>,
    document: Vec<Node>,
) -> (r: Vec<Node>)
    ensures
        r.deep_view() == apply_child(
            is_previous_sibling_top,
            accessor@,
            chain_view(siblings@),
            document.deep_view(),
        ),
{
    let ghost docv = document.deep_view();
    if siblings.len() == 0 {
        match accessor {
            Accessor::AnyElement | Accessor::Top => {
                if is_previous_sibling_top {
                    document
                } else {
                    child_nodes(&document)
                }
            },
            Accessor::AnyElementWithTypeTag(_) => Vec::new(),
            Accessor::Closed(_, _) | Accessor::Sole(_) => {
                if is_previous_sibling_top {
                    filter_by_accessor(accessor, &document)
                } else {
                    let base = child_nodes(&document);
                    filter_by_accessor(accessor, &base)
                }
            },
        }
    } else if is_previous_sibling_top {
        filter_by_siblings(accessor, siblings, &document)
    } else {
        let ghost headv = accessor@;
        let ghost chainv = chain_view(siblings@);
        let mut r: Vec<Node> = Vec::new();
        let n = document.len();
        for i in 0..n
            invariant
                n == document@.len(),
                docv == document.deep_view(),
                headv == accessor@,
                chainv == chain_view(siblings@),
                r.deep_view() =~= chain_children_upto(headv, chainv, docv, i as int),
        {
            let mut part = filter_by_siblings(accessor, siblings, &document[i].children);
            let ghost part_deep = part.deep_view();
            let ghost res_deep = r.deep_view();
            r.append(&mut part);
            proof {
                assert(docv[i as int] == node_view(document@[i as int]));
                assert(document[i as int].children.deep_view() =~= docv[i as int].children);
                assert(r.deep_view() =~= res_deep + part_deep);
                assert(r.deep_view() =~= chain_children_upto(headv, chainv, docv, i as int + 1));
            }
        }
        r
    }
}

/// Evaluates one `Descendant` combinator against the current set.
pub fn query_by_descendant_combinator(
    is_previous_sibling_top: bool,
    accessor: &Accessor,
    siblings: &Vec<(Sibling, Accessor)>,
    document: Vec<Node>,
) -> (r: Vec<Node>)
    ensures
        r.deep_view() == apply_descendant(
            is_previous_sibling_top,
            accessor@,
            chain_view(siblings@),
            document.deep_view(),
        ),
{
    let ghost docv = document.deep_view();
    if siblings.len() == 0 {
        match accessor {
            Accessor::AnyElement | Accessor::Top => {
                if is_previous_sibling_top {
                    document
                } else {
                    child_nodes(&document)
                }
            },
            Accessor::AnyElementWithTypeTag(_) => Vec::new(),
            Accessor::Closed(_, _) | Accessor::Sole(_) => {
                if is_previous_sibling_top {
                    traverse(accessor, &document)
                } else {
                    let base = child_nodes(&document);
                    traverse(accessor, &base)
                }
            },
        }
    } else if is_previous_sibling_top {
        traverse_by_siblings(accessor, siblings, &document)
    } else {
        let mut queue: Vec<&Vec<Node>> = Vec::new();
        let n = document.len();
        for i in 0..n
            invariant
                n == document@.len(),
                docv == document.deep_view(),
                lists_view(queue@) =~= child_lists_upto(docv, i as int),
        {
            let node = &document[i];
            if node.children.len() > 0 {
                let ghost pre_lists = lists_view(queue@);
                queue.push(&node.children);
                proof {
                    assert(docv[i as int] == node_view(document@[i as int]));
                    assert(lists_view(queue@) =~= pre_lists.push(node.children.deep_view()));
                    assert(node.children.deep_view() =~= docv[i as int].children);
                    assert(lists_view(queue@) =~= child_lists_upto(docv, i as int + 1));
                }
            } else {
                proof {
                    assert(docv[i as int] == node_view(document@[i as int]));
                    assert(docv[i as int].children.len() == 0);
                    assert(child_lists_upto(docv, i as int + 1) =~= child_lists_upto(
                        docv,
                        i as int,
                    ));
                }
            }
        }
        run_chain_bfs(accessor, siblings, queue)
    }
}

/// Whether an accessor is the zero-width `Top` anchor.
pub open spec fn accessor_is_top(a: AccessorV) -> bool {
    a is Top
}

/// The remainder of a selector applied to the current set, starting at
/// combinator `k` with the given anchor state.
pub open spec fn apply_from(
    sel: Seq<CombinatorV>,
    k: int,
    prev_top: bool,
    cur: Seq<NodeV>,
) -> Seq<NodeV>
    decreases sel.len() - k,
{
    if k < 0 || k >= sel.len() {
        cur
    } else {
        match sel[k] {
            CombinatorV::Child(a, c) => apply_from(
                sel,
                k + 1,
                accessor_is_top(a),
                apply_child(prev_top, a, c, cur),
            ),
            CombinatorV::Descendant(a, c) => apply_from(
                sel,
                k + 1,
                accessor_is_top(a),
                apply_descendant(prev_top, a, c, cur),
            ),
        }
    }
}

/// A whole selector applied to the top-level document: the fold starts at
/// the virtual `Top` anchor over the full top-level node list.
pub open spec fn apply_selector(sel: Seq<CombinatorV>, doc: Seq<NodeV>) -> Seq<NodeV> {
    apply_from(sel, 0, true, doc)
}

/// Folds the combinator list over the document, in order, threading the
/// anchor state.
pub fn query_by_selector(selector: &Vec<Combinator>, document: Vec<Node>) -> (r: Vec<Node>)
    ensures
        r.deep_view() == apply_selector(selector.deep_view(), document.deep_view()),
{
    let ghost selv = selector.deep_view();
    let ghost docv = document.deep_view();
    let mut cur = document;
    let mut prev_top: bool = true;
    let n = selector.len();
    for k in 0..n
        invariant
            n == selector@.len(),
            selv == selector.deep_view(),
            apply_from(selv, k as int, prev_top, cur.deep_view()) == apply_selector(selv, docv),
    {
        proof {
            assert(selv[k as int] == selector@[k as int]@);
        }
        match &selector[k] {
            Combinator::Child(accessor, siblings) => {
                let next_top = matches!(accessor, Accessor::Top);
                cur = query_by_child_combinator(prev_top, accessor, siblings, cur);
                prev_top = next_top;
            },
            Combinator::Descendant(accessor, siblings) => {
                let next_top = matches!(accessor, Accessor::Top);
                cur = query_by_descendant_combinator(prev_top, accessor, siblings, cur);
                prev_top = next_top;
            },
        }
    }
    cur
}

} // verus!
