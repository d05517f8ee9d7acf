//! A curve, as the pair of its coefficients.

use crate::elliptic_curve::point::{Point, PointView};
use crate::error::Error;
use crate::finite_fields::{Felt, FeltView};
use crate::uint::Uint256;
use vstd::prelude::*;
use vstd::std_specs::cmp::PartialEqSpecImpl;

verus! {

/// What a [`Curve`] stands for: the equation `y^2 = x^3 + a*x + b` over the
/// field of `a` and `b`.
pub struct CurveView {
    pub a: FeltView,
    pub b: FeltView,
}

impl CurveView {
    /// Both coefficients are reduced and lie in one field.
    pub open spec fn wf(self) -> bool {
        &&& self.a.wf()
        &&& self.b.wf()
        &&& self.a.prime == self.b.prime
    }

    /// The modulus of the curve's field.
    pub open spec fn prime(self) -> nat {
        self.a.prime
    }

    /// The right-hand side of the equation at `x`: `x^3 + a*x + b`.
    pub open spec fn rhs(self, x: FeltView) -> FeltView {
        x.mul(x).mul(x).add(self.a.mul(x)).add(self.b)
    }

    /// `(x, y)` is a pair of elements of the curve's field that satisfies the
    /// equation.
    pub open spec fn contains(self, x: FeltView, y: FeltView) -> bool {
        &&& x.wf()
        &&& y.wf()
        &&& x.prime == self.prime()
        &&& y.prime == self.prime()
        &&& y.mul(y) == self.rhs(x)
    }

    /// The point at infinity of this curve.
    pub open spec fn identity(self) -> PointView {
        PointView { curve: self, coords: None }
    }

    /// The affine point `(x, y)` if it lies on the curve.
    pub open spec fn point(self, x: FeltView, y: FeltView) -> Result<PointView, Error> {
        if x.prime != self.prime() || y.prime != self.prime() {
            Err(Error::CurveMismatch)
        } else if !self.contains(x, y) {
            Err(Error::PointNotOnCurve)
        } else {
            Ok(PointView { curve: self, coords: Some((x, y)) })
        }
    }
}

/// A short-Weierstrass curve over a prime field.
#[derive(Clone, Copy, Debug)]
pub struct Curve {
    a: Felt,
    b: Felt,
}

impl View for Curve {
    type V = CurveView;

    closed spec fn view(&self) -> CurveView {
        CurveView { a: self.a@, b: self.b@ }
    }
}

impl Curve {
    /// Every curve that exists has its coefficients in one field.
    #[verifier::type_invariant]
    pub open spec fn inv(self) -> bool {
        self@.wf()
    }

    /// The curve with coefficients `a` and `b`, which must lie in one field.
    pub fn new(a: Felt, b: Felt) -> (r: Result<Curve, Error>)
        ensures
            a@.prime == b@.prime ==> r is Ok && r->Ok_0@ == (CurveView { a: a@, b: b@ }),
            a@.prime != b@.prime ==> r == Err::<Curve, Error>(Error::CurveMismatch),
    {
        proof {
            use_type_invariant(&a);
            use_type_invariant(&b);
        }
        if a.same_field(&b) {
            Ok(Curve { a, b })
        } else {
            Err(Error::CurveMismatch)
        }
    }

    /// The coefficient of `x`.
    pub fn a(&self) -> (r: Felt)
        ensures
            r@ == self@.a,
            self@.wf(),
    {
        proof {
            use_type_invariant(self);
        }
        self.a
    }

    /// The constant coefficient.
    pub fn b(&self) -> (r: Felt)
        ensures
            r@ == self@.b,
            self@.wf(),
    {
        proof {
            use_type_invariant(self);
        }
        self.b
    }

    /// The modulus of the curve's field.
    pub fn prime(&self) -> (r: Uint256)
        ensures
            r@ == self@.prime(),
    {
        self.a.prime()
    }

    /// Whether `(x, y)`, a pair of elements of the curve's field, satisfies
    /// the equation.
    fn satisfied_by(&self, x: &Felt, y: &Felt) -> (r: bool)
        requires
            x@.prime == self@.prime(),
            y@.prime == self@.prime(),
        ensures
            r == self@.contains(x@, y@),
    {
        proof {
            use_type_invariant(self);
            use_type_invariant(x);
            use_type_invariant(y);
        }
        let left = y.mul(y).unwrap();
        let cube = x.mul(x).unwrap().mul(x).unwrap();
        let linear = self.a.mul(x).unwrap();
        let right = cube.add(&linear).unwrap().add(&self.b).unwrap();
        left == right
    }

    /// The affine point `(x, y)` of this curve. Coordinates from another
    /// field, and pairs that do not satisfy the equation, are refused.
    pub fn point(&self, x: Felt, y: Felt) -> (r: Result<Point, Error>)
        ensures
            match r {
                Ok(p) => Ok::<PointView, Error>(p@) == self@.point(x@, y@),
                Err(e) => Err::<PointView, Error>(e) == self@.point(x@, y@),
            },
    {
        proof {
            use_type_invariant(self);
        }
        if !self.a.same_field(&x) || !self.a.same_field(&y) {
            return Err(Error::CurveMismatch);
        }
        if !self.satisfied_by(&x, &y) {
            return Err(Error::PointNotOnCurve);
        }
        Ok(Point::affine(*self, x, y))
    }

    /// The point at infinity of this curve.
    pub fn identity(&self) -> (r: Point)
        ensures
            r@ == self@.identity(),
    {
        Point::infinity(*self)
    }
}

impl PartialEq for Curve {
    /// Two curves are the same when they have the same coefficients over the
    /// same field.
    fn eq(&self, other: &Self) -> (r: bool) {
        self.a.same_field(&other.a) && self.a == other.a && self.b.same_field(&other.b) && self.b
            == other.b
    }
}

impl PartialEqSpecImpl for Curve {
    open spec fn obeys_eq_spec() -> bool {
        true
    }

    open spec fn eq_spec(&self, other: &Self) -> bool {
        self@ == other@
    }
}

} // verus!
