//! Raising to a power, for exponents of more than one type.

use vstd::prelude::*;

verus! {

/// Exponentiation by an exponent of type `T`.
pub trait Pow<T>: Sized {
    /// The exponents that `pow` accepts for this base.
    spec fn pow_requires(&self, exponent: T) -> bool;

    /// What `pow` returns for this base and exponent.
    spec fn pow_ensures(&self, exponent: T, result: Self) -> bool;

    /// `self` raised to `exponent`.
    fn pow(&self, exponent: T) -> (result: Self)
        requires
            self.pow_requires(exponent),
        ensures
            self.pow_ensures(exponent, result),
    ;
}

} // verus!
