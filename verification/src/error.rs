//! The ways in which an operation of the scheme can fail.

use vstd::prelude::*;

verus! {

/// Why an operation gave no result.
#[derive(Clone, Copy, Debug, PartialEq, Eq, Structural)]
pub enum KzgError {
    /// A polynomial's length differs from the bound of the public parameters.
    LengthMismatch,
    /// A division by the zero polynomial, which has no leading coefficient.
    DivisionByZero,
    /// The division behind an opening proof left a remainder.
    IntegrityViolation,
}

} // verus!
