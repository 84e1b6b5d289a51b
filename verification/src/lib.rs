//! A small arbitrary-rank numeric array ("tensor") library.
//!
//! A tensor wraps a nested, rectangular arrangement of `i64` leaves,
//! derives its shape once at construction, and offers shape-checked
//! element-wise arithmetic as well as scalar multiplication and division.

pub mod element_opp;
pub mod error;
pub mod scalar_opp;
pub mod shape;
pub mod tensor;
pub mod tensor_data;
pub mod value;
