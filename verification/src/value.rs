//! The nested-sequence value a tensor owns.

use vstd::prelude::*;

verus! {

/// A dense, arbitrarily nested numeric value: either a bare numeric leaf
/// (rank 0) or an ordered sequence of further values, one nesting level
/// deeper.
///
/// A rectangular arrangement of leaves — every sequence at a given depth
/// having the same length as its siblings — models a dense array; the type
/// itself does not enforce rectangularity, mirroring the cheap,
/// first-element-only shape inference of [`crate::shape`].
#[derive(Debug, PartialEq)]
pub enum Value {
    /// A numeric scalar with no further nesting.
    Leaf(i64),
    /// An ordered sequence of values, each one level deeper.
    Node(Vec<Value>),
}

/// The immediate elements of a nested value: the sequence a `Node`
/// holds, or nothing for a `Leaf`.
pub open spec fn children(v: Value) -> Seq<Value> {
    match v {
        Value::Leaf(_) => Seq::empty(),
        Value::Node(u) => u@,
    }
}

/// The number a leaf holds; zero for a nested value.
pub open spec fn leaf_value(v: Value) -> i64 {
    match v {
        Value::Leaf(x) => x,
        Value::Node(_) => 0,
    }
}

/// Structural, leaf-by-leaf equality of two nested values: both are
/// leaves holding the same number, or both are sequences of equal
/// length whose corresponding elements are again structurally equal.
pub open spec fn equal_values(a: Value, b: Value) -> bool
    decreases a,
{
    match a {
        Value::Leaf(x) => b matches Value::Leaf(y) && x == y,
        Value::Node(u) => b is Node && u@.len() == children(b).len() && (forall|i: int|
            #![trigger u@[i]]
            0 <= i < u@.len() ==> equal_values(u@[i], children(b)[i])),
    }
}

pub(crate) proof fn lemma_equal_values_node(a: Value, b: Value)
    requires
        a is Node,
        b is Node,
        children(a).len() == children(b).len(),
        forall|i: int| #![trigger children(a)[i]]
            0 <= i < children(a).len() ==> equal_values(children(a)[i], children(b)[i]),
    ensures
        equal_values(a, b),
{
}

} // verus!
