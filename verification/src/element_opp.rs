//! Element-wise arithmetic: combining two same-shaped values
//! position by position, bottoming out at the numeric leaves.

use vstd::prelude::*;

use crate::error::TensorError;
use crate::shape::Shape;
use crate::shape::shape_of;
use crate::value::Value;
use crate::value::children;
use crate::value::equal_values;

verus! {

/// One of the four element-wise (and scalar) arithmetic operations.
#[derive(Clone, Copy, Debug, PartialEq, Eq, Structural)]
pub enum Op {
    Add,
    Sub,
    Mul,
    Div,
}

/// Division truncated toward zero, as the primitive `/` of the leaves
/// computes it.
pub open spec fn trunc_div(x: int, d: int) -> int {
    if x == 0 {
        0
    } else if x > 0 && d > 0 {
        x / d
    } else if x < 0 && d < 0 {
        (x * -1) / (d * -1)
    } else if x < 0 {
        ((x * -1) / d) * -1
    } else {
        (x / (d * -1)) * -1
    }
}

/// The mathematical result of one operation on two numeric leaves.
pub open spec fn leaf_result(op: Op, x: i64, y: i64) -> int {
    match op {
        Op::Add => x + y,
        Op::Sub => x - y,
        Op::Mul => x * y,
        Op::Div => trunc_div(x as int, y as int),
    }
}

/// Whether one operation on two numeric leaves stays within the leaf
/// type's bounds (and, for division, avoids a zero divisor).
pub open spec fn leaf_in_range(op: Op, x: i64, y: i64) -> bool {
    match op {
        Op::Add => i64::MIN <= x + y <= i64::MAX,
        Op::Sub => i64::MIN <= x - y <= i64::MAX,
        Op::Mul => i64::MIN <= x * y <= i64::MAX,
        Op::Div => y != 0 && !(x == i64::MIN && y == -1),
    }
}

/// Whether two values have the same structure, so that an element-wise
/// operation visits every leaf: both are leaves, or both are sequences
/// of equal length whose corresponding elements are again compatible.
pub open spec fn compat(a: Value, b: Value) -> bool
    decreases a,
{
    match a {
        Value::Leaf(_) => b is Leaf,
        Value::Node(u) => b is Node && u@.len() == children(b).len() && (forall|i: int|
            #![trigger u@[i]]
            0 <= i < u@.len() ==> compat(u@[i], children(b)[i])),
    }
}

/// Whether one operation stays within the leaf bounds at every pair of
/// leaves the element-wise recursion would combine. Positions past a
/// structural mismatch constrain nothing: no result is computed there.
pub open spec fn in_range(op: Op, a: Value, b: Value) -> bool
    decreases a,
{
    match a {
        Value::Leaf(x) => b matches Value::Leaf(y) ==> leaf_in_range(op, x, y),
        Value::Node(u) => (b is Node && u@.len() == children(b).len()) ==> (forall|i: int|
            #![trigger u@[i]]
            0 <= i < u@.len() ==> in_range(op, u@[i], children(b)[i])),
    }
}

/// `r` is the element-wise combination of `a` and `b`: the same nesting
/// structure, with each leaf holding `a`'s leaf combined with `b`'s.
/// Only compatible operands have a combination.
pub open spec fn is_combined(op: Op, a: Value, b: Value, r: Value) -> bool
    decreases a,
{
    match a {
        Value::Leaf(x) => b matches Value::Leaf(y) && r matches Value::Leaf(z) && z == leaf_result(
            op,
            x,
            y,
        ),
        Value::Node(u) => b is Node && u@.len() == children(b).len() && r is Node && children(
            r,
        ).len() == u@.len() && (forall|i: int|
            #![trigger u@[i]]
            0 <= i < u@.len() ==> is_combined(op, u@[i], children(b)[i], children(r)[i])),
    }
}

/// `e` reports the first structural mismatch between `a` and `b`, in the
/// left-to-right, depth-first order the element-wise recursion visits
/// them: differing sequence lengths as a `LengthMismatch` of the two
/// lengths, a leaf met by a sequence as a `ShapeMismatch` of the two
/// shapes.
pub open spec fn mismatch_report(e: TensorError, a: Value, b: Value) -> bool
    decreases a,
{
    match a {
        Value::Leaf(_) => b is Node && (e matches TensorError::ShapeMismatch { left_shape, right_shape }
            && left_shape@ == shape_of(a) && right_shape@ == shape_of(b)),
        Value::Node(u) => {
            if b is Leaf {
                e matches TensorError::ShapeMismatch { left_shape, right_shape } && left_shape@
                    == shape_of(a) && right_shape@ == shape_of(b)
            } else if u@.len() != children(b).len() {
                e matches TensorError::LengthMismatch { left_len, right_len } && left_len == u@.len()
                    && right_len == children(b).len()
            } else {
                exists|i: int|
                    #![trigger u@[i]]
                    0 <= i < u@.len() && mismatch_report(e, u@[i], children(b)[i]) && (forall|
                        j: int,
                    |
                        #![trigger u@[j]]
                        0 <= j < i ==> compat(u@[j], children(b)[j]))
            }
        },
    }
}

/// Trait for element-wise operations of tensor elements.
///
/// Each operation combines two same-shaped values position by position
/// and reports the first structural mismatch as an error instead of a
/// result.
pub trait ElementOpp: Sized {
    /// Whether `self` and `rhs` have the same structure, so that the
    /// element-wise operations succeed on them.
    spec fn elem_compat(&self, rhs: &Self) -> bool;

    /// Whether `op` stays within the leaf type's bounds on every pair of
    /// leaves it would combine.
    spec fn elem_in_range(&self, op: Op, rhs: &Self) -> bool;

    /// Whether `r` is the element-wise combination of `self` and `rhs`
    /// under `op`.
    spec fn elem_combined(&self, op: Op, rhs: &Self, r: &Self) -> bool;

    /// Whether `e` reports the first structural mismatch between `self`
    /// and `rhs`.
    spec fn elem_mismatch(&self, rhs: &Self, e: &TensorError) -> bool;

    /// Adds `rhs` to `self`, leaf by leaf.
    fn element_add(&self, rhs: &Self) -> (r: Result<Self, TensorError>)
        requires
            self.elem_in_range(Op::Add, rhs),
        ensures
            r is Ok <==> self.elem_compat(rhs),
            r matches Ok(v) ==> self.elem_combined(Op::Add, rhs, &v),
            r matches Err(e) ==> self.elem_mismatch(rhs, &e),
    ;

    /// Subtracts `rhs` from `self`, leaf by leaf.
    fn element_sub(&self, rhs: &Self) -> (r: Result<Self, TensorError>)
        requires
            self.elem_in_range(Op::Sub, rhs),
        ensures
            r is Ok <==> self.elem_compat(rhs),
            r matches Ok(v) ==> self.elem_combined(Op::Sub, rhs, &v),
            r matches Err(e) ==> self.elem_mismatch(rhs, &e),
    ;

    /// Multiplies `self` by `rhs`, leaf by leaf.
    fn element_mul(&self, rhs: &Self) -> (r: Result<Self, TensorError>)
        requires
            self.elem_in_range(Op::Mul, rhs),
        ensures
            r is Ok <==> self.elem_compat(rhs),
            r matches Ok(v) ==> self.elem_combined(Op::Mul, rhs, &v),
            r matches Err(e) ==> self.elem_mismatch(rhs, &e),
    ;

    /// Divides `self` by `rhs`, leaf by leaf, truncating toward zero.
    fn element_div(&self, rhs: &Self) -> (r: Result<Self, TensorError>)
        requires
            self.elem_in_range(Op::Div, rhs),
        ensures
            r is Ok <==> self.elem_compat(rhs),
            r matches Ok(v) ==> self.elem_combined(Op::Div, rhs, &v),
            r matches Err(e) ==> self.elem_mismatch(rhs, &e),
    ;
}

/// Combines two numeric leaves with one primitive operation.
pub(crate) fn leaf_combine(op: Op, x: i64, y: i64) -> (r: i64)
    requires
        leaf_in_range(op, x, y),
    ensures
        r == leaf_result(op, x, y),
{
    match op {
        Op::Add => x + y,
        Op::Sub => x - y,
        Op::Mul => x * y,
        Op::Div => {
            let q = x.checked_div(y);
            proof {
                lemma_trunc_div_in_range(x as int, y as int);
            }
            q.unwrap()
        },
    }
}

/// The quotient of two non-negative numbers lies between zero and the
/// dividend.
proof fn lemma_pos_div_bounds(x: int, d: int)
    requires
        0 <= x,
        1 <= d,
    ensures
        0 <= x / d <= x,
{
    vstd::arithmetic::div_mod::lemma_div_pos_is_pos(x, d);
    if d == 1 {
        assert(x / 1 == x);
    } else if x > 0 {
        vstd::arithmetic::div_mod::lemma_div_is_strictly_smaller(x, d);
    }
}

/// The quotient of a truncating division never exceeds the dividend in
/// magnitude, so it stays within `i64` except for `i64::MIN / -1`.
proof fn lemma_trunc_div_in_range(x: int, d: int)
    requires
        i64::MIN <= x <= i64::MAX,
        i64::MIN <= d <= i64::MAX,
        d != 0,
        !(x == i64::MIN && d == -1),
    ensures
        i64::MIN <= trunc_div(x, d) <= i64::MAX,
{
    if x == 0 {
    } else if x > 0 && d > 0 {
        lemma_pos_div_bounds(x, d);
    } else if x < 0 && d < 0 {
        lemma_pos_div_bounds(x * -1, d * -1);
        if d * -1 > 1 {
            vstd::arithmetic::div_mod::lemma_div_is_strictly_smaller(x * -1, d * -1);
        }
    } else if x < 0 {
        lemma_pos_div_bounds(x * -1, d);
        if d > 1 {
            vstd::arithmetic::div_mod::lemma_div_is_strictly_smaller(x * -1, d);
        }
    } else {
        lemma_pos_div_bounds(x, d * -1);
    }
}

proof fn lemma_in_range_child(op: Op, a: Value, b: Value, i: int)
    requires
        a is Node,
        b is Node,
        children(a).len() == children(b).len(),
        0 <= i < children(a).len(),
        in_range(op, a, b),
    ensures
        in_range(op, children(a)[i], children(b)[i]),
{
}

proof fn lemma_compat_node(a: Value, b: Value)
    requires
        a is Node,
        b is Node,
        children(a).len() == children(b).len(),
        forall|i: int| #![trigger children(a)[i]]
            0 <= i < children(a).len() ==> compat(children(a)[i], children(b)[i]),
    ensures
        compat(a, b),
{
}

proof fn lemma_compat_child(a: Value, b: Value, i: int)
    requires
        a is Node,
        b is Node,
        0 <= i < children(a).len(),
        compat(a, b),
    ensures
        compat(children(a)[i], children(b)[i]),
{
}

proof fn lemma_is_combined_node(op: Op, a: Value, b: Value, r: Value)
    requires
        a is Node,
        b is Node,
        r is Node,
        children(a).len() == children(b).len(),
        children(r).len() == children(a).len(),
        forall|i: int| #![trigger children(a)[i]]
            0 <= i < children(a).len() ==> is_combined(
                op,
                children(a)[i],
                children(b)[i],
                children(r)[i],
            ),
    ensures
        is_combined(op, a, b, r),
{
}

proof fn lemma_mismatch_node(e: TensorError, a: Value, b: Value, i: int)
    requires
        a is Node,
        b is Node,
        children(a).len() == children(b).len(),
        0 <= i < children(a).len(),
        mismatch_report(e, children(a)[i], children(b)[i]),
        forall|j: int| #![trigger children(a)[j]] 0 <= j < i ==> compat(children(a)[j], children(b)[j]),
    ensures
        mismatch_report(e, a, b),
{
}

/// Combines two nested values element-wise, recursing to the leaves and
/// stopping at the first structural mismatch.
pub(crate) fn combine_values(op: Op, a: &Value, b: &Value) -> (r: Result<Value, TensorError>)
    requires
        in_range(op, *a, *b),
    ensures
        r is Ok <==> compat(*a, *b),
        r matches Ok(v) ==> is_combined(op, *a, *b, v),
        r matches Err(e) ==> mismatch_report(e, *a, *b),
    decreases *a,
{
    match (a, b) {
        (Value::Leaf(x), Value::Leaf(y)) => Ok(Value::Leaf(leaf_combine(op, *x, *y))),
        (Value::Node(u), Value::Node(v)) => {
            if u.len() != v.len() {
                return Err(TensorError::LengthMismatch { left_len: u.len(), right_len: v.len() });
            }
            let mut out: Vec<Value> = Vec::new();
            let n = u.len();
            for i in 0..n
                invariant
                    n == u@.len() == v@.len(),
                    in_range(op, *a, *b),
                    *a == Value::Node(*u),
                    *b == Value::Node(*v),
                    out@.len() == i,
                    forall|j: int| 0 <= j < i ==> compat(u@[j], v@[j]),
                    forall|j: int| 0 <= j < i ==> #[trigger] is_combined(op, u@[j], v@[j], out@[j]),
            {
                proof {
                    assert(children(*a) == u@ && children(*b) == v@);
                    lemma_in_range_child(op, *a, *b, i as int);
                    assert(in_range(op, u@[i as int], v@[i as int]));
                    assert(decreases_to!(*u => u@[i as int]));
                    assert(decreases_to!(*a => u@[i as int]));
                }
                match combine_values(op, &u[i], &v[i]) {
                    Ok(w) => out.push(w),
                    Err(e) => {
                        proof {
                            assert(children(*a) == u@ && children(*b) == v@);
                            lemma_mismatch_node(e, *a, *b, i as int);
                            assert(!compat(*a, *b)) by {
                                if compat(*a, *b) {
                                    lemma_compat_child(*a, *b, i as int);
                                }
                            }
                        }
                        return Err(e);
                    },
                }
            }
            let r = Value::Node(out);
            proof {
                assert(children(*a) == u@ && children(*b) == v@ && children(r) == out@);
                lemma_compat_node(*a, *b);
                lemma_is_combined_node(op, *a, *b, r);
            }
            Ok(r)
        },
        _ => {
            let left = a.shape();
            let right = b.shape();
            Err(TensorError::ShapeMismatch { left_shape: left, right_shape: right })
        },
    }
}

proof fn lemma_compat_inv(a: Value, b: Value)
    requires
        a is Node,
        compat(a, b),
    ensures
        b is Node,
        children(b).len() == children(a).len(),
        forall|i: int| #![trigger children(a)[i]]
            0 <= i < children(a).len() ==> compat(children(a)[i], children(b)[i]),
{
}

proof fn lemma_in_range_node(op: Op, a: Value, b: Value)
    requires
        a is Node,
        b is Node,
        forall|i: int| #![trigger children(a)[i]]
            0 <= i < children(a).len() ==> in_range(op, children(a)[i], children(b)[i]),
    ensures
        in_range(op, a, b),
{
    assert(children(a).len() >= 0 && children(b).len() >= 0);
}

proof fn lemma_is_combined_inv(op: Op, a: Value, b: Value, r: Value)
    requires
        a is Node,
        is_combined(op, a, b, r),
    ensures
        b is Node,
        r is Node,
        children(b).len() == children(a).len(),
        children(r).len() == children(a).len(),
        forall|i: int| #![trigger children(a)[i]]
            0 <= i < children(a).len() ==> is_combined(
                op,
                children(a)[i],
                children(b)[i],
                children(r)[i],
            ),
{
}

/// After an element-wise addition that stayed in range, the matching
/// subtraction is defined as well: each leaf of the sum minus the
/// corresponding leaf of `b` is the original leaf of `a`, which fits.
pub proof fn lemma_sub_after_add_in_range(a: Value, b: Value, c: Value)
    requires
        compat(a, b),
        in_range(Op::Add, a, b),
        is_combined(Op::Add, a, b, c),
    ensures
        compat(c, b),
        in_range(Op::Sub, c, b),
    decreases a,
{
    match a {
        Value::Leaf(_) => {
        },
        Value::Node(u) => {
            assert(children(a) == u@);
            lemma_compat_inv(a, b);
            lemma_is_combined_inv(Op::Add, a, b, c);
            assert forall|i: int| #![trigger children(c)[i]]
                0 <= i < children(c).len() implies compat(children(c)[i], children(b)[i])
                && in_range(Op::Sub, children(c)[i], children(b)[i]) by {
                lemma_in_range_child(Op::Add, a, b, i);
                assert(decreases_to!(u => u@[i]));
                assert(decreases_to!(a => u@[i]));
                lemma_sub_after_add_in_range(children(a)[i], children(b)[i], children(c)[i]);
            }
            lemma_compat_node(c, b);
            lemma_in_range_node(Op::Sub, c, b);
        },
    }
}

/// Element-wise identity law: subtracting `b` from the element-wise sum
/// of `a` and `b` gives back `a`, leaf for leaf.
pub proof fn lemma_element_identity(a: Value, b: Value, c: Value, d: Value)
    requires
        compat(a, b),
        in_range(Op::Add, a, b),
        is_combined(Op::Add, a, b, c),
        is_combined(Op::Sub, c, b, d),
    ensures
        equal_values(d, a),
    decreases a,
{
    match a {
        Value::Leaf(_) => {
        },
        Value::Node(u) => {
            assert(children(a) == u@);
            lemma_compat_inv(a, b);
            lemma_is_combined_inv(Op::Add, a, b, c);
            lemma_is_combined_inv(Op::Sub, c, b, d);
            assert forall|i: int| #![trigger children(d)[i]]
                0 <= i < children(d).len() implies equal_values(children(d)[i], children(a)[i]) by {
                lemma_in_range_child(Op::Add, a, b, i);
                assert(decreases_to!(u => u@[i]));
                assert(decreases_to!(a => u@[i]));
                lemma_element_identity(
                    children(a)[i],
                    children(b)[i],
                    children(c)[i],
                    children(d)[i],
                );
            }
            crate::value::lemma_equal_values_node(d, a);
        },
    }
}

/// The element-wise combination of two values is unique: any two
/// results of the same operation on the same operands agree leaf for
/// leaf, so the operations' contracts pin their results down.
pub proof fn lemma_combined_unique(op: Op, a: Value, b: Value, r1: Value, r2: Value)
    requires
        is_combined(op, a, b, r1),
        is_combined(op, a, b, r2),
    ensures
        equal_values(r1, r2),
    decreases a,
{
    match a {
        Value::Leaf(_) => {
        },
        Value::Node(u) => {
            assert(children(a) == u@);
            lemma_is_combined_inv(op, a, b, r1);
            lemma_is_combined_inv(op, a, b, r2);
            assert forall|i: int| #![trigger children(r1)[i]]
                0 <= i < children(r1).len() implies equal_values(
                children(r1)[i],
                children(r2)[i],
            ) by {
                assert(decreases_to!(u => u@[i]));
                assert(decreases_to!(a => u@[i]));
                lemma_combined_unique(
                    op,
                    children(a)[i],
                    children(b)[i],
                    children(r1)[i],
                    children(r2)[i],
                );
            }
            crate::value::lemma_equal_values_node(r1, r2);
        },
    }
}

/// An element-wise combination has the same shape as its left operand:
/// the operation only replaces leaves, never the nesting structure.
pub proof fn lemma_combined_preserves_shape(op: Op, a: Value, b: Value, r: Value)
    requires
        is_combined(op, a, b, r),
    ensures
        shape_of(r) == shape_of(a),
    decreases a,
{
    match a {
        Value::Leaf(_) => {
            assert(shape_of(r) == shape_of(a));
        },
        Value::Node(u) => {
            assert(children(a) == u@);
            if u@.len() > 0 {
                assert(decreases_to!(u => u@[0]));
                assert(decreases_to!(a => u@[0]));
                lemma_combined_preserves_shape(op, u@[0], children(b)[0], children(r)[0]);
            }
            assert(shape_of(r) == shape_of(a));
        },
    }
}

impl ElementOpp for Value {
    open spec fn elem_compat(&self, rhs: &Self) -> bool {
        compat(*self, *rhs)
    }

    open spec fn elem_in_range(&self, op: Op, rhs: &Self) -> bool {
        in_range(op, *self, *rhs)
    }

    open spec fn elem_combined(&self, op: Op, rhs: &Self, r: &Self) -> bool {
        is_combined(op, *self, *rhs, *r)
    }

    open spec fn elem_mismatch(&self, rhs: &Self, e: &TensorError) -> bool {
        mismatch_report(*e, *self, *rhs)
    }

    fn element_add(&self, rhs: &Self) -> (r: Result<Self, TensorError>) {
        combine_values(Op::Add, self, rhs)
    }

    fn element_sub(&self, rhs: &Self) -> (r: Result<Self, TensorError>) {
        combine_values(Op::Sub, self, rhs)
    }

    fn element_mul(&self, rhs: &Self) -> (r: Result<Self, TensorError>) {
        combine_values(Op::Mul, self, rhs)
    }

    fn element_div(&self, rhs: &Self) -> (r: Result<Self, TensorError>) {
        combine_values(Op::Div, self, rhs)
    }
}

impl ElementOpp for i64 {
    open spec fn elem_compat(&self, rhs: &Self) -> bool {
        true
    }

    open spec fn elem_in_range(&self, op: Op, rhs: &Self) -> bool {
        leaf_in_range(op, *self, *rhs)
    }

    open spec fn elem_combined(&self, op: Op, rhs: &Self, r: &Self) -> bool {
        r == leaf_result(op, *self, *rhs)
    }

    open spec fn elem_mismatch(&self, rhs: &Self, e: &TensorError) -> bool {
        false
    }

    fn element_add(&self, rhs: &Self) -> (r: Result<Self, TensorError>) {
        Ok(leaf_combine(Op::Add, *self, *rhs))
    }

    fn element_sub(&self, rhs: &Self) -> (r: Result<Self, TensorError>) {
        Ok(leaf_combine(Op::Sub, *self, *rhs))
    }

    fn element_mul(&self, rhs: &Self) -> (r: Result<Self, TensorError>) {
        Ok(leaf_combine(Op::Mul, *self, *rhs))
    }

    fn element_div(&self, rhs: &Self) -> (r: Result<Self, TensorError>) {
        Ok(leaf_combine(Op::Div, *self, *rhs))
    }
}

} // verus!
