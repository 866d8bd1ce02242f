//! The document node model consumed by the query engine.
//!
//! A document is an ordered sequence of nodes; each node carries a name, a
//! property list with unique keys, an ordered value list, and ordered
//! children.  Floating-point values are carried as their IEEE 754 bit
//! patterns, so that the comparator can reason about them exactly.

use vstd::prelude::*;

verus! {

/// A document value: the closed variant set of the document format.
///
/// A `Float` holds the IEEE 754 double-precision bit pattern of the number.
#[derive(Debug, PartialEq)]
pub enum Value {
    Text(String),
    Int(i64),
    Float(u64),
    Bool(bool),
    Null,
}

/// The mathematical model of a [`Value`].
pub ghost enum ValueV {
    Text(Seq<char>),
    Int(int),
    Float(u64),
    Bool(bool),
    Null,
}

impl View for Value {
    type V = ValueV;

    open spec fn view(&self) -> ValueV {
        match self {
            Value::Text(s) => ValueV::Text(s@),
            Value::Int(n) => ValueV::Int(*n as int),
            Value::Float(bits) => ValueV::Float(*bits),
            Value::Bool(b) => ValueV::Bool(*b),
            Value::Null => ValueV::Null,
        }
    }
}

impl DeepView for Value {
    type V = ValueV;

    open spec fn deep_view(&self) -> ValueV {
        self.view()
    }
}

impl Clone for Value {
    fn clone(&self) -> (r: Self)
        ensures
            r@ == self@,
    {
        match self {
            Value::Text(s) => Value::Text(s.clone()),
            Value::Int(n) => Value::Int(*n),
            Value::Float(bits) => Value::Float(*bits),
            Value::Bool(b) => Value::Bool(*b),
            Value::Null => Value::Null,
        }
    }
}

/// A document node, consumed read-only by the query engine.
#[derive(Debug, PartialEq)]
pub struct Node {
    pub name: String,
    pub properties: Vec<(String, Value)>,
    pub values: Vec<Value>,
    pub children: Vec<Node>,
}

/// The mathematical model of a [`Node`].
#[verifier::ext_equal]
pub ghost struct NodeV {
    pub name: Seq<char>,
    pub properties: Seq<(Seq<char>, ValueV)>,
    pub values: Seq<ValueV>,
    pub children: Seq<NodeV>,
}

/// The model of a [`Node`]: every field replaced by its mathematical view.
pub open spec fn node_view(node: Node) -> NodeV
    decreases node,
    via node_view_decreases
{
    NodeV {
        name: node.name@,
        properties: node.properties@.map_values(|p: (String, Value)| (p.0@, p.1@)),
        values: node.values@.map_values(|v: Value| v@),
        children: Seq::new(
            node.children@.len(),
            |i: int|
                if 0 <= i < node.children@.len() {
                    node_view(node.children@[i])
                } else {
                    arbitrary()
                },
        ),
    }
}

#[via_fn]
proof fn node_view_decreases(node: Node) {
    broadcast use vstd::std_specs::vec::group_vec_axioms;
    broadcast use vstd::seq::group_seq_axioms;

    assert forall|i: int| 0 <= i < node.children@.len() implies #[trigger] (decreases_to!(
        node => node.children@[i]
    )) by {
        assert(decreases_to!(node => node.children));
        assert(decreases_to!(node.children => node.children@));
        assert(decreases_to!(node.children@ => node.children@[i]));
    }
}

impl View for Node {
    type V = NodeV;

    open spec fn view(&self) -> NodeV {
        node_view(*self)
    }
}

impl DeepView for Node {
    type V = NodeV;

    open spec fn deep_view(&self) -> NodeV {
        self.view()
    }
}

impl Clone for Node {
    fn clone(&self) -> (r: Self)
        ensures
            r@ == self@,
    {
        self.duplicate()
    }
}

/// Looks a key up in a property list, yielding the first binding.
///
/// The node model keeps property keys unique, so "first" is the only binding.
pub open spec fn lookup_prop(props: Seq<(Seq<char>, ValueV)>, key: Seq<char>) -> Option<ValueV>
    decreases props.len(),
{
    if props.len() == 0 {
        None
    } else if props[0].0 == key {
        Some(props[0].1)
    } else {
        lookup_prop(props.drop_first(), key)
    }
}

impl Node {
    /// Deep copy; the copy has the same model as the original.
    pub fn duplicate(&self) -> (r: Node)
        ensures
            r@ == self@,
        decreases *self,
    {
        let mut properties: Vec<(String, Value)> = Vec::new();
        let np = self.properties.len();
        for i in 0..np
            invariant
                np == self.properties@.len(),
                properties@.len() == i,
                forall|j: int|
                    0 <= j < i ==> properties@[j].0@ == self.properties@[j].0@
                        && properties@[j].1@ == self.properties@[j].1@,
        {
            let key = self.properties[i].0.clone();
            let val = self.properties[i].1.clone();
            proof {
                assert(key@ == self.properties@[i as int].0@);
                assert(val@ == self.properties@[i as int].1@);
            }
            properties.push((key, val));
            proof {
                assert(properties@[i as int].0@ == self.properties@[i as int].0@);
                assert(properties@[i as int].1@ == self.properties@[i as int].1@);
            }
        }
        let mut values: Vec<Value> = Vec::new();
        let nv = self.values.len();
        for i in 0..nv
            invariant
                nv == self.values@.len(),
                values@.len() == i,
                forall|j: int| 0 <= j < i ==> values@[j]@ == self.values@[j]@,
        {
            values.push(self.values[i].clone());
        }
        let mut children: Vec<Node> = Vec::new();
        let nc = self.children.len();
        for i in 0..nc
            invariant
                nc == self.children@.len(),
                children@.len() == i,
                forall|j: int| 0 <= j < i ==> children@[j]@ == self.children@[j]@,
        {
            proof {
                assert(decreases_to!(*self => self.children));
                assert(decreases_to!(self.children => self.children@));
                assert(decreases_to!(self.children@ => self.children@[i as int]));
            }
            let child = self.children[i].duplicate();
            children.push(child);
        }
        let r = Node { name: self.name.clone(), properties, values, children };
        proof {
            assert(r@.properties =~= self@.properties);
            assert(r@.values =~= self@.values);
            assert(r@.children =~= self@.children);
            assert(r@ =~= self@);
        }
        r
    }

    /// Yields the value bound to the property `key`, if any.
    pub fn get_prop(&self, key: &str) -> (r: Option<&Value>)
        ensures
            match r {
                Some(v) => lookup_prop(self@.properties, key@) == Some(v@),
                None => lookup_prop(self@.properties, key@) is None,
            },
    {
        proof {
            assert(self@.properties.skip(0) =~= self@.properties);
        }
        let n = self.properties.len();
        for i in 0..n
            invariant
                n == self.properties.len(),
                forall|j: int|
                    0 <= j < i ==> self@.properties[j].0 != key@,
                lookup_prop(self@.properties, key@) == lookup_prop(
                    self@.properties.skip(i as int),
                    key@,
                ),
        {
            proof {
                assert(self@.properties.skip(i as int)[0] == self@.properties[i as int]);
            }
            if crate::text::str_eq(self.properties[i].0.as_str(), key) {
                return Some(&self.properties[i].1);
            }
            proof {
                assert(self@.properties.skip(i as int).drop_first() =~= self@.properties.skip(
                    i as int + 1,
                ));
            }
        }
        proof {
            assert(self@.properties.skip(n as int).len() == 0);
        }
        None
    }
}

} // verus!
