//! The tensor wrapper: owned nested data with its shape cached at
//! construction, and shape-checked arithmetic operators.

use vstd::prelude::*;

use crate::element_opp::ElementOpp;
use crate::element_opp::Op;
use crate::element_opp::compat;
use crate::element_opp::in_range;
use crate::element_opp::is_combined;
use crate::element_opp::lemma_combined_preserves_shape;
use crate::element_opp::mismatch_report;
use crate::error::TensorError;
use crate::scalar_opp::ScalarOpp;
use crate::scalar_opp::is_scaled;
use crate::scalar_opp::lemma_scaled_preserves_shape;
use crate::scalar_opp::scalar_in_range;
use crate::shape::Shape;
use crate::shape::shape_of;
use crate::tensor_data::TensorData;
use crate::value::Value;

verus! {

/// A type for holding matrix/vector data: an owned nested numeric value
/// together with its shape, computed once at construction.
#[derive(Debug, PartialEq)]
pub struct Tensor {
    /// The cached per-axis lengths of `data`, outermost axis first.
    pub dimension: Vec<usize>,
    /// The owned nested numeric value.
    pub data: TensorData,
}

/// Compares two shape vectors element by element.
fn eq_shapes(a: &Vec<usize>, b: &Vec<usize>) -> (r: bool)
    ensures
        r <==> a@ == b@,
{
    if a.len() != b.len() {
        return false;
    }
    let n = a.len();
    for i in 0..n
        invariant
            n == a@.len() == b@.len(),
            forall|j: int| 0 <= j < i ==> a@[j] == b@[j],
    {
        if a[i] != b[i] {
            return false;
        }
    }
    proof {
        assert(a@ =~= b@);
    }
    true
}

impl Tensor {
    /// A tensor is well formed when its cached dimension vector is the
    /// shape of the data it owns.
    pub open spec fn wf(&self) -> bool {
        self.dimension@ == shape_of(self.data.0)
    }

    /// Wraps a nested numeric value, computing and caching its shape.
    pub fn new(data: Value) -> (t: Tensor)
        ensures
            t.wf(),
            t.data.0 == data,
            t.dimension@ == shape_of(data),
    {
        let dim = data.shape();
        Tensor { dimension: dim, data: TensorData(data) }
    }

    /// Adds `rhs` to this tensor, leaf by leaf, after checking that the
    /// cached shapes agree.
    pub fn add(self, rhs: Tensor) -> (r: Result<Tensor, TensorError>)
        requires
            self.wf(),
            rhs.wf(),
            in_range(Op::Add, self.data.0, rhs.data.0),
        ensures
            self.dimension@ != rhs.dimension@ ==> (r matches Err(e) && e matches
                TensorError::ShapeMismatch { left_shape, right_shape } && left_shape@
                == self.dimension@ && right_shape@ == rhs.dimension@),
            self.dimension@ == rhs.dimension@ ==> ((r is Ok <==> compat(self.data.0, rhs.data.0))
                && (r matches Err(e) ==> mismatch_report(e, self.data.0, rhs.data.0))),
            r matches Ok(t) ==> t.wf() && t.dimension@ == self.dimension@ && is_combined(
                Op::Add,
                self.data.0,
                rhs.data.0,
                t.data.0,
            ),
    {
        self.combine(rhs, Op::Add)
    }

    /// Subtracts `rhs` from this tensor, leaf by leaf, after checking
    /// that the cached shapes agree.
    pub fn sub(self, rhs: Tensor) -> (r: Result<Tensor, TensorError>)
        requires
            self.wf(),
            rhs.wf(),
            in_range(Op::Sub, self.data.0, rhs.data.0),
        ensures
            self.dimension@ != rhs.dimension@ ==> (r matches Err(e) && e matches
                TensorError::ShapeMismatch { left_shape, right_shape } && left_shape@
                == self.dimension@ && right_shape@ == rhs.dimension@),
            self.dimension@ == rhs.dimension@ ==> ((r is Ok <==> compat(self.data.0, rhs.data.0))
                && (r matches Err(e) ==> mismatch_report(e, self.data.0, rhs.data.0))),
            r matches Ok(t) ==> t.wf() && t.dimension@ == self.dimension@ && is_combined(
                Op::Sub,
                self.data.0,
                rhs.data.0,
                t.data.0,
            ),
    {
        self.combine(rhs, Op::Sub)
    }

    /// Multiplies this tensor by `rhs`, leaf by leaf, after checking
    /// that the cached shapes agree.
    pub fn mul(self, rhs: Tensor) -> (r: Result<Tensor, TensorError>)
        requires
            self.wf(),
            rhs.wf(),
            in_range(Op::Mul, self.data.0, rhs.data.0),
        ensures
            self.dimension@ != rhs.dimension@ ==> (r matches Err(e) && e matches
                TensorError::ShapeMismatch { left_shape, right_shape } && left_shape@
                == self.dimension@ && right_shape@ == rhs.dimension@),
            self.dimension@ == rhs.dimension@ ==> ((r is Ok <==> compat(self.data.0, rhs.data.0))
                && (r matches Err(e) ==> mismatch_report(e, self.data.0, rhs.data.0))),
            r matches Ok(t) ==> t.wf() && t.dimension@ == self.dimension@ && is_combined(
                Op::Mul,
                self.data.0,
                rhs.data.0,
                t.data.0,
            ),
    {
        self.combine(rhs, Op::Mul)
    }

    /// Divides this tensor by `rhs`, leaf by leaf and truncating toward
    /// zero, after checking that the cached shapes agree.
    pub fn div(self, rhs: Tensor) -> (r: Result<Tensor, TensorError>)
        requires
            self.wf(),
            rhs.wf(),
            in_range(Op::Div, self.data.0, rhs.data.0),
        ensures
            self.dimension@ != rhs.dimension@ ==> (r matches Err(e) && e matches
                TensorError::ShapeMismatch { left_shape, right_shape } && left_shape@
                == self.dimension@ && right_shape@ == rhs.dimension@),
            self.dimension@ == rhs.dimension@ ==> ((r is Ok <==> compat(self.data.0, rhs.data.0))
                && (r matches Err(e) ==> mismatch_report(e, self.data.0, rhs.data.0))),
            r matches Ok(t) ==> t.wf() && t.dimension@ == self.dimension@ && is_combined(
                Op::Div,
                self.data.0,
                rhs.data.0,
                t.data.0,
            ),
    {
        self.combine(rhs, Op::Div)
    }

    /// Checks the cached shapes, then combines the data element-wise
    /// and rewraps the result, recomputing its shape.
    fn combine(self, rhs: Tensor, op: Op) -> (r: Result<Tensor, TensorError>)
        requires
            self.wf(),
            rhs.wf(),
            in_range(op, self.data.0, rhs.data.0),
        ensures
            self.dimension@ != rhs.dimension@ ==> (r matches Err(e) && e matches
                TensorError::ShapeMismatch { left_shape, right_shape } && left_shape@
                == self.dimension@ && right_shape@ == rhs.dimension@),
            self.dimension@ == rhs.dimension@ ==> ((r is Ok <==> compat(self.data.0, rhs.data.0))
                && (r matches Err(e) ==> mismatch_report(e, self.data.0, rhs.data.0))),
            r matches Ok(t) ==> t.wf() && t.dimension@ == self.dimension@ && is_combined(
                op,
                self.data.0,
                rhs.data.0,
                t.data.0,
            ),
    {
        if !eq_shapes(&self.dimension, &rhs.dimension) {
            return Err(
                TensorError::ShapeMismatch {
                    left_shape: self.dimension,
                    right_shape: rhs.dimension,
                },
            );
        }
        let res = match op {
            Op::Add => self.data.add(&rhs.data),
            Op::Sub => self.data.sub(&rhs.data),
            Op::Mul => self.data.mul(&rhs.data),
            Op::Div => self.data.div(&rhs.data),
        };
        match res {
            Ok(d) => {
                proof {
                    lemma_combined_preserves_shape(op, self.data.0, rhs.data.0, d.0);
                }
                Ok(Tensor::new(d.0))
            },
            Err(e) => Err(e),
        }
    }

    /// Multiplies every leaf of this tensor by the scalar. A scalar has
    /// no shape to mismatch, so the operation cannot fail.
    pub fn scalar_mul(self, scalar: i64) -> (r: Tensor)
        requires
            self.wf(),
            scalar_in_range(Op::Mul, self.data.0, scalar),
        ensures
            r.wf(),
            r.dimension@ == self.dimension@,
            is_scaled(Op::Mul, self.data.0, scalar, r.data.0),
    {
        let v = self.data.0.scalar_mul(scalar);
        proof {
            lemma_scaled_preserves_shape(Op::Mul, self.data.0, scalar, v);
        }
        Tensor::new(v)
    }

    /// Divides every leaf of this tensor by the scalar, truncating
    /// toward zero. A scalar has no shape to mismatch, so the operation
    /// cannot fail.
    pub fn scalar_div(self, scalar: i64) -> (r: Tensor)
        requires
            self.wf(),
            scalar_in_range(Op::Div, self.data.0, scalar),
        ensures
            r.wf(),
            r.dimension@ == self.dimension@,
            is_scaled(Op::Div, self.data.0, scalar, r.data.0),
    {
        let v = self.data.0.scalar_div(scalar);
        proof {
            lemma_scaled_preserves_shape(Op::Div, self.data.0, scalar, v);
        }
        Tensor::new(v)
    }
}

} // verus!
