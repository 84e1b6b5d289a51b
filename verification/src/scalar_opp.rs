//! Scalar arithmetic: combining every leaf of a value with one scalar.

use vstd::prelude::*;

use crate::element_opp::Op;
use crate::element_opp::leaf_in_range;
use crate::element_opp::leaf_result;
use crate::element_opp::trunc_div;
use crate::value::Value;
use crate::value::children;

verus! {

/// Whether combining every leaf of `v` with the scalar `k` under `op`
/// stays within the leaf type's bounds (and, for division, avoids a
/// zero divisor).
pub open spec fn scalar_in_range(op: Op, v: Value, k: i64) -> bool
    decreases v,
{
    match v {
        Value::Leaf(x) => leaf_in_range(op, x, k),
        Value::Node(u) => forall|i: int|
            #![trigger u@[i]]
            0 <= i < u@.len() ==> scalar_in_range(op, u@[i], k),
    }
}

/// `r` has the same nesting structure as `v`, with each leaf holding
/// `v`'s leaf combined with the scalar `k` under `op`. A scalar has no
/// shape to mismatch, so every value can be scaled.
pub open spec fn is_scaled(op: Op, v: Value, k: i64, r: Value) -> bool
    decreases v,
{
    match v {
        Value::Leaf(x) => r matches Value::Leaf(z) && z == leaf_result(op, x, k),
        Value::Node(u) => r is Node && children(r).len() == u@.len() && (forall|i: int|
            #![trigger u@[i]]
            0 <= i < u@.len() ==> is_scaled(op, u@[i], k, children(r)[i])),
    }
}

/// Trait for combining a value with a single scalar, multiplying or
/// dividing every leaf by it.
pub trait ScalarOpp: Sized {
    /// Whether `op` on every leaf and `scalar` stays within the leaf
    /// type's bounds.
    spec fn scalar_op_in_range(&self, op: Op, scalar: i64) -> bool;

    /// Whether `r` is `self` with every leaf combined with `scalar`
    /// under `op`.
    spec fn scaled_by(&self, op: Op, scalar: i64, r: &Self) -> bool;

    /// Multiplies every leaf of `self` by `scalar`.
    fn scalar_mul(&self, scalar: i64) -> (r: Self)
        requires
            self.scalar_op_in_range(Op::Mul, scalar),
        ensures
            self.scaled_by(Op::Mul, scalar, &r),
    ;

    /// Divides every leaf of `self` by `scalar`, truncating toward zero.
    fn scalar_div(&self, scalar: i64) -> (r: Self)
        requires
            self.scalar_op_in_range(Op::Div, scalar),
        ensures
            self.scaled_by(Op::Div, scalar, &r),
    ;
}

proof fn lemma_scalar_in_range_child(op: Op, v: Value, k: i64, i: int)
    requires
        v is Node,
        0 <= i < children(v).len(),
        scalar_in_range(op, v, k),
    ensures
        scalar_in_range(op, children(v)[i], k),
{
}

proof fn lemma_is_scaled_node(op: Op, v: Value, k: i64, r: Value)
    requires
        v is Node,
        r is Node,
        children(r).len() == children(v).len(),
        forall|i: int| #![trigger children(v)[i]]
            0 <= i < children(v).len() ==> is_scaled(op, children(v)[i], k, children(r)[i]),
    ensures
        is_scaled(op, v, k, r),
{
}

/// Maps one scalar operation over every leaf of a nested value.
pub(crate) fn scale_value(op: Op, v: &Value, k: i64) -> (r: Value)
    requires
        scalar_in_range(op, *v, k),
    ensures
        is_scaled(op, *v, k, r),
    decreases *v,
{
    match v {
        Value::Leaf(x) => Value::Leaf(crate::element_opp::leaf_combine(op, *x, k)),
        Value::Node(u) => {
            let mut out: Vec<Value> = Vec::new();
            let n = u.len();
            for i in 0..n
                invariant
                    n == u@.len(),
                    scalar_in_range(op, *v, k),
                    *v == Value::Node(*u),
                    out@.len() == i,
                    forall|j: int| #![trigger u@[j]] 0 <= j < i ==> is_scaled(op, u@[j], k, out@[j]),
            {
                proof {
                    assert(children(*v) == u@);
                    lemma_scalar_in_range_child(op, *v, k, i as int);
                    assert(decreases_to!(*u => u@[i as int]));
                    assert(decreases_to!(*v => u@[i as int]));
                }
                let w = scale_value(op, &u[i], k);
                out.push(w);
            }
            let r = Value::Node(out);
            proof {
                assert(children(*v) == u@ && children(r) == out@);
                lemma_is_scaled_node(op, *v, k, r);
            }
            r
        },
    }
}

proof fn lemma_scalar_in_range_node(op: Op, v: Value, k: i64)
    requires
        v is Node,
        forall|i: int| #![trigger children(v)[i]]
            0 <= i < children(v).len() ==> scalar_in_range(op, children(v)[i], k),
    ensures
        scalar_in_range(op, v, k),
{
    assert(children(v).len() >= 0);
}

proof fn lemma_is_scaled_inv(op: Op, v: Value, k: i64, r: Value)
    requires
        v is Node,
        is_scaled(op, v, k, r),
    ensures
        r is Node,
        children(r).len() == children(v).len(),
        forall|i: int| #![trigger children(v)[i]]
            0 <= i < children(v).len() ==> is_scaled(op, children(v)[i], k, children(r)[i]),
{
}

/// Multiplying a leaf by a nonzero scalar and dividing the product by
/// the same scalar gives the leaf back: the product is an exact
/// multiple, so truncation loses nothing.
proof fn lemma_leaf_scalar_identity(x: i64, k: i64, p: i64)
    requires
        k != 0,
        p == x as int * k as int,
    ensures
        leaf_in_range(Op::Div, p, k),
        leaf_result(Op::Div, p, k) == x,
{
    let xi = x as int;
    let ki = k as int;
    let pi = p as int;
    assert(!(p == i64::MIN && k == -1)) by {
        if p == i64::MIN && k == -1 {
            assert(pi == xi * -1) by (nonlinear_arith)
                requires
                    pi == xi * ki,
                    ki == -1,
            ;
        }
    }
    if x == 0 {
        assert(pi == 0) by (nonlinear_arith)
            requires
                pi == xi * ki,
                xi == 0,
        ;
        assert(trunc_div(pi, ki) == 0);
    } else if x > 0 && k > 0 {
        assert(pi == ki * xi && pi > 0) by (nonlinear_arith)
            requires
                pi == xi * ki,
                xi > 0,
                ki > 0,
        ;
        vstd::arithmetic::div_mod::lemma_div_multiples_vanish(xi, ki);
        assert(trunc_div(pi, ki) == xi);
    } else if x > 0 {
        assert(pi * -1 == (ki * -1) * xi && pi < 0) by (nonlinear_arith)
            requires
                pi == xi * ki,
                xi > 0,
                ki < 0,
        ;
        vstd::arithmetic::div_mod::lemma_div_multiples_vanish(xi, ki * -1);
        assert(trunc_div(pi, ki) == xi);
    } else if k > 0 {
        assert(pi * -1 == ki * (xi * -1) && pi < 0) by (nonlinear_arith)
            requires
                pi == xi * ki,
                xi < 0,
                ki > 0,
        ;
        vstd::arithmetic::div_mod::lemma_div_multiples_vanish(xi * -1, ki);
        assert(trunc_div(pi, ki) == xi);
    } else {
        assert(pi == (ki * -1) * (xi * -1) && pi > 0) by (nonlinear_arith)
            requires
                pi == xi * ki,
                xi < 0,
                ki < 0,
        ;
        vstd::arithmetic::div_mod::lemma_div_multiples_vanish(xi * -1, ki * -1);
        assert(trunc_div(pi, ki) == xi);
    }
}

/// After multiplying by a nonzero scalar, dividing by the same scalar
/// is defined on every leaf: no divisor is zero, and no product is the
/// one value whose negation overflows.
pub proof fn lemma_div_after_mul_in_range(v: Value, k: i64, m: Value)
    requires
        k != 0,
        is_scaled(Op::Mul, v, k, m),
    ensures
        scalar_in_range(Op::Div, m, k),
    decreases v,
{
    match v {
        Value::Leaf(x) => {
            lemma_leaf_scalar_identity(x, k, crate::value::leaf_value(m));
        },
        Value::Node(u) => {
            assert(children(v) == u@);
            lemma_is_scaled_inv(Op::Mul, v, k, m);
            assert forall|i: int| #![trigger children(m)[i]]
                0 <= i < children(m).len() implies scalar_in_range(
                Op::Div,
                children(m)[i],
                k,
            ) by {
                assert(decreases_to!(u => u@[i]));
                assert(decreases_to!(v => u@[i]));
                lemma_div_after_mul_in_range(children(v)[i], k, children(m)[i]);
            }
            lemma_scalar_in_range_node(Op::Div, m, k);
        },
    }
}

/// Scalar identity law: multiplying by a nonzero scalar and then
/// dividing by the same scalar gives back the original value, leaf for
/// leaf.
pub proof fn lemma_scalar_identity(v: Value, k: i64, m: Value, d: Value)
    requires
        k != 0,
        is_scaled(Op::Mul, v, k, m),
        is_scaled(Op::Div, m, k, d),
    ensures
        crate::value::equal_values(d, v),
    decreases v,
{
    match v {
        Value::Leaf(x) => {
            lemma_leaf_scalar_identity(x, k, crate::value::leaf_value(m));
        },
        Value::Node(u) => {
            assert(children(v) == u@);
            lemma_is_scaled_inv(Op::Mul, v, k, m);
            lemma_is_scaled_inv(Op::Div, m, k, d);
            assert forall|i: int| #![trigger children(d)[i]]
                0 <= i < children(d).len() implies crate::value::equal_values(
                children(d)[i],
                children(v)[i],
            ) by {
                assert(decreases_to!(u => u@[i]));
                assert(decreases_to!(v => u@[i]));
                lemma_scalar_identity(children(v)[i], k, children(m)[i], children(d)[i]);
            }
            crate::value::lemma_equal_values_node(d, v);
        },
    }
}

/// The scaled form of a value is unique: any two results of the same
/// scalar operation on the same value agree leaf for leaf, so the
/// operations' contracts pin their results down.
pub proof fn lemma_scaled_unique(op: Op, v: Value, k: i64, r1: Value, r2: Value)
    requires
        is_scaled(op, v, k, r1),
        is_scaled(op, v, k, r2),
    ensures
        crate::value::equal_values(r1, r2),
    decreases v,
{
    match v {
        Value::Leaf(_) => {
        },
        Value::Node(u) => {
            assert(children(v) == u@);
            lemma_is_scaled_inv(op, v, k, r1);
            lemma_is_scaled_inv(op, v, k, r2);
            assert forall|i: int| #![trigger children(r1)[i]]
                0 <= i < children(r1).len() implies crate::value::equal_values(
                children(r1)[i],
                children(r2)[i],
            ) by {
                assert(decreases_to!(u => u@[i]));
                assert(decreases_to!(v => u@[i]));
                lemma_scaled_unique(op, children(v)[i], k, children(r1)[i], children(r2)[i]);
            }
            crate::value::lemma_equal_values_node(r1, r2);
        },
    }
}

/// A scalar operation has the same shape as its input: it only
/// replaces leaves, never the nesting structure.
pub proof fn lemma_scaled_preserves_shape(op: Op, v: Value, k: i64, r: Value)
    requires
        is_scaled(op, v, k, r),
    ensures
        crate::shape::shape_of(r) == crate::shape::shape_of(v),
    decreases v,
{
    match v {
        Value::Leaf(_) => {
        },
        Value::Node(u) => {
            assert(children(v) == u@);
            if u@.len() > 0 {
                assert(decreases_to!(u => u@[0]));
                assert(decreases_to!(v => u@[0]));
                lemma_scaled_preserves_shape(op, u@[0], k, children(r)[0]);
            }
            assert(crate::shape::shape_of(r) == crate::shape::shape_of(v));
        },
    }
}

impl ScalarOpp for Value {
    open spec fn scalar_op_in_range(&self, op: Op, scalar: i64) -> bool {
        scalar_in_range(op, *self, scalar)
    }

    open spec fn scaled_by(&self, op: Op, scalar: i64, r: &Self) -> bool {
        is_scaled(op, *self, scalar, *r)
    }

    fn scalar_mul(&self, scalar: i64) -> (r: Self) {
        scale_value(Op::Mul, self, scalar)
    }

    fn scalar_div(&self, scalar: i64) -> (r: Self) {
        scale_value(Op::Div, self, scalar)
    }
}

impl ScalarOpp for i64 {
    open spec fn scalar_op_in_range(&self, op: Op, scalar: i64) -> bool {
        leaf_in_range(op, *self, scalar)
    }

    open spec fn scaled_by(&self, op: Op, scalar: i64, r: &Self) -> bool {
        r == leaf_result(op, *self, scalar)
    }

    fn scalar_mul(&self, scalar: i64) -> (r: Self) {
        crate::element_opp::leaf_combine(Op::Mul, *self, scalar)
    }

    fn scalar_div(&self, scalar: i64) -> (r: Self) {
        crate::element_opp::leaf_combine(Op::Div, *self, scalar)
    }
}

} // verus!
