//! The ways in which an operation of this crate can be refused.

use vstd::prelude::*;

verus! {

/// Why a construction or an operation did not go through.
#[derive(Clone, Copy, Debug, PartialEq, Eq, Structural)]
pub enum Error {
    /// A residue was not below the modulus it was given with.
    InvalidElement,
    /// A pair of coordinates does not satisfy the curve equation.
    PointNotOnCurve,
    /// Two operands belong to different fields or different curves.
    CurveMismatch,
    /// The divisor of a field division was zero.
    DivisionByZero,
}

} // verus!
