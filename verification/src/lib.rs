//! A KZG polynomial commitment scheme over the BLS12-381 curve.
//!
//! The field and group arithmetic is that of `blstrs`; the polynomial
//! arithmetic and the protocol around it are verified against contracts
//! stated over integers modulo the order of the scalar field.

pub mod algebra;
pub mod curve;
pub mod division;
pub mod error;
pub mod evaluation;
pub mod kzg;
pub mod laws;
pub mod opening;
pub mod polynomial;
pub mod scalar;
