//! The raw nested-sequence storage a tensor owns, with element-wise
//! arithmetic on it.

use vstd::prelude::*;

use crate::element_opp::ElementOpp;
use crate::element_opp::Op;
use crate::element_opp::compat;
use crate::element_opp::in_range;
use crate::element_opp::is_combined;
use crate::element_opp::mismatch_report;
use crate::error::TensorError;
use crate::value::Value;

verus! {

/// The nested numeric data a tensor owns.
#[derive(Debug, PartialEq)]
pub struct TensorData(pub Value);

impl TensorData {
    /// Adds `rhs` to this data, leaf by leaf.
    pub fn add(&self, rhs: &TensorData) -> (r: Result<TensorData, TensorError>)
        requires
            in_range(Op::Add, self.0, rhs.0),
        ensures
            r is Ok <==> compat(self.0, rhs.0),
            r matches Ok(d) ==> is_combined(Op::Add, self.0, rhs.0, d.0),
            r matches Err(e) ==> mismatch_report(e, self.0, rhs.0),
    {
        match self.0.element_add(&rhs.0) {
            Ok(v) => Ok(TensorData(v)),
            Err(e) => Err(e),
        }
    }

    /// Subtracts `rhs` from this data, leaf by leaf.
    pub fn sub(&self, rhs: &TensorData) -> (r: Result<TensorData, TensorError>)
        requires
            in_range(Op::Sub, self.0, rhs.0),
        ensures
            r is Ok <==> compat(self.0, rhs.0),
            r matches Ok(d) ==> is_combined(Op::Sub, self.0, rhs.0, d.0),
            r matches Err(e) ==> mismatch_report(e, self.0, rhs.0),
    {
        match self.0.element_sub(&rhs.0) {
            Ok(v) => Ok(TensorData(v)),
            Err(e) => Err(e),
        }
    }

    /// Multiplies this data by `rhs`, leaf by leaf.
    pub fn mul(&self, rhs: &TensorData) -> (r: Result<TensorData, TensorError>)
        requires
            in_range(Op::Mul, self.0, rhs.0),
        ensures
            r is Ok <==> compat(self.0, rhs.0),
            r matches Ok(d) ==> is_combined(Op::Mul, self.0, rhs.0, d.0),
            r matches Err(e) ==> mismatch_report(e, self.0, rhs.0),
    {
        match self.0.element_mul(&rhs.0) {
            Ok(v) => Ok(TensorData(v)),
            Err(e) => Err(e),
        }
    }

    /// Divides this data by `rhs`, leaf by leaf, truncating toward zero.
    pub fn div(&self, rhs: &TensorData) -> (r: Result<TensorData, TensorError>)
        requires
            in_range(Op::Div, self.0, rhs.0),
        ensures
            r is Ok <==> compat(self.0, rhs.0),
            r matches Ok(d) ==> is_combined(Op::Div, self.0, rhs.0, d.0),
            r matches Err(e) ==> mismatch_report(e, self.0, rhs.0),
    {
        match self.0.element_div(&rhs.0) {
            Ok(v) => Ok(TensorData(v)),
            Err(e) => Err(e),
        }
    }
}

impl TensorData {
    /// Wraps a bare scalar as one-element data, the sequence `[scalar]`.
    pub fn from(scalar: i64) -> (r: TensorData)
        ensures
            r.0 is Node && crate::value::children(r.0) == seq![Value::Leaf(scalar)],
    {
        TensorData(Value::Node(vec![Value::Leaf(scalar)]))
    }
}

} // verus!
