//! The operators `+`, `-`, `*` and `/` on field elements.

use crate::error::Error;
use crate::finite_fields::Felt;
use std::ops::{Add, Div, Mul, Sub};
use vstd::prelude::*;
use vstd::std_specs::ops::{AddSpecImpl, DivSpecImpl, MulSpecImpl, SubSpecImpl};

verus! {

impl Add for Felt {
    type Output = Result<Felt, Error>;

    /// `self + rhs`, as [`Felt::add`] gives it.
    fn add(self, rhs: Felt) -> (r: Result<Felt, Error>)
        ensures
            self@.prime == rhs@.prime ==> r is Ok && r->Ok_0@ == self@.add(rhs@),
            self@.prime != rhs@.prime ==> r == Err::<Felt, Error>(Error::CurveMismatch),
    {
        Felt::add(&self, &rhs)
    }
}

impl AddSpecImpl for Felt {
    /// The result is specified over what the operands stand for, by the
    /// contract of `add`, and not as a function on the representations.
    open spec fn obeys_add_spec() -> bool {
        false
    }

    open spec fn add_req(self, rhs: Felt) -> bool {
        true
    }

    open spec fn add_spec(self, rhs: Felt) -> Result<Felt, Error> {
        arbitrary()
    }
}

impl Sub for Felt {
    type Output = Result<Felt, Error>;

    /// `self - rhs`, as [`Felt::sub`] gives it.
    fn sub(self, rhs: Felt) -> (r: Result<Felt, Error>)
        ensures
            self@.prime == rhs@.prime ==> r is Ok && r->Ok_0@ == self@.sub(rhs@),
            self@.prime != rhs@.prime ==> r == Err::<Felt, Error>(Error::CurveMismatch),
    {
        Felt::sub(&self, &rhs)
    }
}

impl SubSpecImpl for Felt {
    /// The result is specified over what the operands stand for, by the
    /// contract of `sub`, and not as a function on the representations.
    open spec fn obeys_sub_spec() -> bool {
        false
    }

    open spec fn sub_req(self, rhs: Felt) -> bool {
        true
    }

    open spec fn sub_spec(self, rhs: Felt) -> Result<Felt, Error> {
        arbitrary()
    }
}

impl Mul for Felt {
    type Output = Result<Felt, Error>;

    /// `self * rhs`, as [`Felt::mul`] gives it.
    fn mul(self, rhs: Felt) -> (r: Result<Felt, Error>)
        ensures
            self@.prime == rhs@.prime ==> r is Ok && r->Ok_0@ == self@.mul(rhs@),
            self@.prime != rhs@.prime ==> r == Err::<Felt, Error>(Error::CurveMismatch),
    {
        Felt::mul(&self, &rhs)
    }
}

impl MulSpecImpl for Felt {
    /// The result is specified over what the operands stand for, by the
    /// contract of `mul`, and not as a function on the representations.
    open spec fn obeys_mul_spec() -> bool {
        false
    }

    open spec fn mul_req(self, rhs: Felt) -> bool {
        true
    }

    open spec fn mul_spec(self, rhs: Felt) -> Result<Felt, Error> {
        arbitrary()
    }
}

impl Div for Felt {
    type Output = Result<Felt, Error>;

    /// `self / rhs`, as [`Felt::div`] gives it.
    fn div(self, rhs: Felt) -> (r: Result<Felt, Error>)
        ensures
            self@.prime == rhs@.prime && rhs@.inner != 0 ==> r is Ok && r->Ok_0@ == self@.div(
                rhs@,
            ),
            self@.prime == rhs@.prime && rhs@.inner == 0 ==> r == Err::<Felt, Error>(
                Error::DivisionByZero,
            ),
            self@.prime != rhs@.prime ==> r == Err::<Felt, Error>(Error::CurveMismatch),
    {
        Felt::div(&self, &rhs)
    }
}

impl DivSpecImpl for Felt {
    /// The result is specified over what the operands stand for, by the
    /// contract of `div`, and not as a function on the representations.
    open spec fn obeys_div_spec() -> bool {
        false
    }

    open spec fn div_req(self, rhs: Felt) -> bool {
        true
    }

    open spec fn div_spec(self, rhs: Felt) -> Result<Felt, Error> {
        arbitrary()
    }
}

} // verus!
