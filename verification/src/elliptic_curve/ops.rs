//! The operators `+` and `*` on points.

use crate::elliptic_curve::point::{result_view, Point};
use crate::elliptic_curve::secp256k1::{as_point, field_prime, result_as_point, Secp256k1Point};
use crate::error::Error;
use crate::finite_fields::prime::is_prime;
use crate::uint::Uint256;
use std::ops::{Add, Mul};
use vstd::prelude::*;
use vstd::std_specs::ops::{AddSpecImpl, MulSpecImpl};

verus! {

impl Add for Point {
    type Output = Result<Point, Error>;

    /// `self + rhs`, as [`Point::add`] gives it.
    fn add(self, rhs: Point) -> (r: Result<Point, Error>)
        ensures
            result_view(r) == self@.add(rhs@),
            self@.curve == rhs@.curve && is_prime(self@.curve.prime()) ==> r is Ok,
            self@.curve != rhs@.curve ==> r == Err::<Point, Error>(Error::CurveMismatch),
    {
        Point::add(&self, &rhs)
    }
}

impl AddSpecImpl for Point {
    /// The result is specified over what the operands stand for, by the
    /// contract of `add`, and not as a function on the representations.
    open spec fn obeys_add_spec() -> bool {
        false
    }

    open spec fn add_req(self, rhs: Point) -> bool {
        true
    }

    open spec fn add_spec(self, rhs: Point) -> Result<Point, Error> {
        arbitrary()
    }
}

impl Mul<u32> for Point {
    type Output = Result<Point, Error>;

    /// `coefficient` times `self`, by binary expansion.
    fn mul(self, coefficient: u32) -> (r: Result<Point, Error>)
        ensures
            result_view(r) == self@.binary_expansion_mul(coefficient as nat),
            is_prime(self@.curve.prime()) ==> r is Ok,
    {
        self.binary_expansion_mul(coefficient)
    }
}

impl MulSpecImpl<u32> for Point {
    /// The result is specified over what the point stands for, by the
    /// contract of `mul`, and not as a function on the representation.
    open spec fn obeys_mul_spec() -> bool {
        false
    }

    open spec fn mul_req(self, coefficient: u32) -> bool {
        true
    }

    open spec fn mul_spec(self, coefficient: u32) -> Result<Point, Error> {
        arbitrary()
    }
}

impl Add for Secp256k1Point {
    type Output = Result<Secp256k1Point, Error>;

    /// `self + rhs`, as [`Secp256k1Point::add`] gives it.
    fn add(self, rhs: Secp256k1Point) -> (r: Result<Secp256k1Point, Error>)
        ensures
            result_as_point(r) == as_point(self@).add(as_point(rhs@)),
            is_prime(field_prime()) ==> r is Ok,
    {
        Secp256k1Point::add(&self, &rhs)
    }
}

impl AddSpecImpl for Secp256k1Point {
    /// The result is specified over what the operands stand for, by the
    /// contract of `add`, and not as a function on the representations.
    open spec fn obeys_add_spec() -> bool {
        false
    }

    open spec fn add_req(self, rhs: Secp256k1Point) -> bool {
        true
    }

    open spec fn add_spec(self, rhs: Secp256k1Point) -> Result<Secp256k1Point, Error> {
        arbitrary()
    }
}

impl Mul<Uint256> for Secp256k1Point {
    type Output = Result<Secp256k1Point, Error>;

    /// `coefficient` times `self`, by binary expansion.
    fn mul(self, coefficient: Uint256) -> (r: Result<Secp256k1Point, Error>)
        ensures
            result_as_point(r) == as_point(self@).binary_expansion_mul(coefficient@),
            is_prime(field_prime()) ==> r is Ok,
    {
        Secp256k1Point::mul(&self, &coefficient)
    }
}

impl MulSpecImpl<Uint256> for Secp256k1Point {
    /// The result is specified over what the point stands for, by the
    /// contract of `mul`, and not as a function on the representation.
    open spec fn obeys_mul_spec() -> bool {
        false
    }

    open spec fn mul_req(self, coefficient: Uint256) -> bool {
        true
    }

    open spec fn mul_spec(self, coefficient: Uint256) -> Result<Secp256k1Point, Error> {
        arbitrary()
    }
}

} // verus!
