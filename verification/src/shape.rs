//! Shape inference: every value reports its multi-dimensional extent.

use vstd::prelude::*;

use crate::value::Value;

verus! {

/// The shape of a value: its ordered per-axis lengths, outermost axis
/// first. A leaf has the empty shape; a sequence contributes its own
/// length and then the shape of its first element, so inference costs
/// one step per nesting level and trusts the first element to stand for
/// its siblings. An empty sequence reports the single axis `[0]`.
pub open spec fn shape_of(v: Value) -> Seq<usize>
    decreases v,
{
    match v {
        Value::Leaf(_) => Seq::empty(),
        Value::Node(vs) => {
            if vs@.len() > 0 {
                seq![vs.len()] + shape_of(vs@[0])
            } else {
                seq![vs.len()]
            }
        },
    }
}

/// Any element entering a tensor must report its shape.
pub trait Shape {
    /// The shape this value reports, as contracts see it.
    spec fn spec_shape(&self) -> Seq<usize>;

    /// Computes the ordered per-axis lengths of this value.
    fn shape(&self) -> (s: Vec<usize>)
        ensures
            s@ == self.spec_shape(),
    ;
}

/// Computes the shape of a nested value by walking its first elements.
fn value_shape(v: &Value) -> (s: Vec<usize>)
    ensures
        s@ == shape_of(*v),
    decreases *v,
{
    match v {
        Value::Leaf(_) => Vec::new(),
        Value::Node(vs) => {
            let mut s: Vec<usize> = Vec::new();
            s.push(vs.len());
            if vs.len() > 0 {
                let mut rest = value_shape(&vs[0]);
                s.append(&mut rest);
            }
            assert(s@ == shape_of(*v));
            s
        },
    }
}

impl Shape for Value {
    open spec fn spec_shape(&self) -> Seq<usize> {
        shape_of(*self)
    }

    fn shape(&self) -> (s: Vec<usize>) {
        value_shape(self)
    }
}

/// A marker for the primitive numeric types a tensor's leaves may hold.
pub trait Numeric {}

impl Numeric for u8 {}

impl Numeric for u16 {}

impl Numeric for u32 {}

impl Numeric for u64 {}

impl Numeric for usize {}

impl Numeric for i8 {}

impl Numeric for i16 {}

impl Numeric for i32 {}

impl Numeric for i64 {}

impl Numeric for isize {}

impl Shape for i64 {
    open spec fn spec_shape(&self) -> Seq<usize> {
        Seq::empty()
    }

    fn shape(&self) -> (s: Vec<usize>) {
        Vec::new()
    }
}

/// A nested value is rectangular with per-axis lengths `dims` when every
/// sequence at depth `d` has length `dims[d]`, all the way down to
/// leaves at depth `dims.len()`.
pub open spec fn has_dims(v: Value, dims: Seq<usize>) -> bool
    decreases v,
{
    match v {
        Value::Leaf(_) => dims.len() == 0,
        Value::Node(u) => dims.len() >= 1 && dims[0] == u@.len() && (forall|i: int|
            #![trigger u@[i]]
            0 <= i < u@.len() ==> has_dims(u@[i], dims.drop_first())),
    }
}

/// On a rectangular value, first-element shape inference reports
/// exactly the per-axis lengths, provided no axis before the last is
/// empty (past an empty axis no deeper element exists to witness the
/// remaining lengths, and inference stops there).
pub proof fn lemma_shape_of_rectangular(v: Value, dims: Seq<usize>)
    requires
        has_dims(v, dims),
        forall|i: int| 0 <= i < dims.len() - 1 ==> dims[i] > 0,
    ensures
        shape_of(v) == dims,
    decreases v,
{
    match v {
        Value::Leaf(_) => {
            assert(shape_of(v) =~= dims);
        },
        Value::Node(u) => {
            assert(crate::value::children(v) == u@);
            if u@.len() > 0 {
                assert(has_dims(u@[0], dims.drop_first()));
                assert(decreases_to!(u => u@[0]));
                assert(decreases_to!(v => u@[0]));
                lemma_shape_of_rectangular(u@[0], dims.drop_first());
                assert(shape_of(v) =~= dims);
            } else {
                assert(dims[0] == 0);
                assert(dims.len() == 1) by {
                    if dims.len() >= 2 {
                        assert(dims[0] > 0);
                    }
                }
                assert(shape_of(v) =~= dims);
            }
        },
    }
}

} // verus!
