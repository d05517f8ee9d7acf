//! Points of a curve, their addition, and multiplication by a scalar.

use crate::elliptic_curve::closure::{
    lemma_add_closed, lemma_binary_expansion_mul_closed, lemma_naive_mul_closed,
};
use crate::elliptic_curve::curve::{Curve, CurveView};
use crate::error::Error;
use crate::finite_fields::prime::is_prime;
use crate::finite_fields::{Felt, FeltView};
use crate::uint::{u256_bit, u256_bits, Uint256};
use vstd::arithmetic::div_mod::{
    lemma_basic_div, lemma_div_denominator, lemma_div_non_zero, lemma_mod_multiples_vanish,
    lemma_small_mod,
};
use vstd::arithmetic::power2::{
    lemma2_to64, lemma_pow2_pos, lemma_pow2_strictly_increases, lemma_pow2_unfold, pow2,
};
use vstd::prelude::*;
use vstd::std_specs::cmp::PartialEqSpecImpl;

verus! {

/// What a [`Point`] stands for: the point at infinity of `curve` when
/// `coords` is `None`, and the affine point with those coordinates otherwise.
pub struct PointView {
    pub curve: CurveView,
    pub coords: Option<(FeltView, FeltView)>,
}

/// The slope of the line through `(x1, y1)` and `(x2, y2)`:
/// `(y2 - y1) / (x2 - x1)`.
pub open spec fn chord_slope(x1: FeltView, y1: FeltView, x2: FeltView, y2: FeltView) -> FeltView {
    y2.sub(y1).div(x2.sub(x1))
}

/// The slope of the tangent at `(x, y)` to the curve with coefficient `a`:
/// `(3*x^2 + a) / (2*y)`.
pub open spec fn tangent_slope(a: FeltView, x: FeltView, y: FeltView) -> FeltView {
    let square = x.mul(x);
    square.add(square).add(square).add(a).div(y.add(y))
}

/// Where the line of slope `s` through `(x1, y1)` and a point of abscissa
/// `x2` leads: `x3 = s^2 - x1 - x2` and `y3 = s*(x1 - x3) - y1`.
pub open spec fn third_point(s: FeltView, x1: FeltView, y1: FeltView, x2: FeltView) -> (
    FeltView,
    FeltView,
) {
    let x3 = s.mul(s).sub(x1).sub(x2);
    (x3, s.mul(x1.sub(x3)).sub(y1))
}

impl PointView {
    /// The curve is well formed and the point, if affine, lies on it.
    pub open spec fn wf(self) -> bool {
        &&& self.curve.wf()
        &&& match self.coords {
            None => true,
            Some((x, y)) => self.curve.contains(x, y),
        }
    }

    /// The abscissa of an affine point.
    pub open spec fn x(self) -> Option<FeltView> {
        match self.coords {
            Some((x, _)) => Some(x),
            None => None,
        }
    }

    /// The ordinate of an affine point.
    pub open spec fn y(self) -> Option<FeltView> {
        match self.coords {
            Some((_, y)) => Some(y),
            None => None,
        }
    }

    /// The group law. Points of different curves are refused. Otherwise the
    /// point at infinity is neutral; two points on one vertical line, a point
    /// and its mirror image or a point with a vertical tangent taken twice,
    /// add up to the point at infinity; a point taken twice is doubled along
    /// its tangent; and two other points are joined by their chord. The sum
    /// is checked against the curve equation like any other point.
    #[verifier::opaque]
    pub open spec fn add(self, rhs: PointView) -> Result<PointView, Error> {
        if self.curve != rhs.curve {
            Err(Error::CurveMismatch)
        } else {
            match (self.coords, rhs.coords) {
                (None, _) => Ok(rhs),
                (_, None) => Ok(self),
                (Some((x1, y1)), Some((x2, y2))) => {
                    if x1 == x2 {
                        if y1 != y2 || y1.add(y2).inner == 0 {
                            Ok(self.curve.identity())
                        } else {
                            let (x3, y3) = third_point(
                                tangent_slope(self.curve.a, x1, y1),
                                x1,
                                y1,
                                x1,
                            );
                            self.curve.point(x3, y3)
                        }
                    } else {
                        let (x3, y3) = third_point(chord_slope(x1, y1, x2, y2), x1, y1, x2);
                        self.curve.point(x3, y3)
                    }
                },
            }
        }
    }

    /// `k` times the point by repeated addition: the point at infinity for
    /// zero, the point itself for one, and one more addition of the point for
    /// each further unit.
    pub open spec fn naive_mul(self, k: nat) -> Result<PointView, Error>
        decreases k,
    {
        if k == 0 {
            Ok(self.curve.identity())
        } else if k == 1 {
            Ok(self)
        } else {
            match self.naive_mul((k - 1) as nat) {
                Ok(acc) => acc.add(self),
                Err(e) => Err(e),
            }
        }
    }

    /// What double-and-add still has to do when `self` is the current
    /// power-of-two multiple, `acc` the sum so far and `k` the bits that are
    /// left: add `self` to `acc` if the lowest bit is set, then go on with the
    /// double of `self` and the other bits, if there are any.
    pub open spec fn double_and_add(self, acc: PointView, k: nat) -> Result<PointView, Error>
        decreases k,
    {
        if k == 0 {
            Ok(acc)
        } else {
            let sum = if k % 2 == 1 {
                acc.add(self)
            } else {
                Ok(acc)
            };
            match sum {
                Err(e) => Err(e),
                Ok(next) => if k / 2 == 0 {
                    Ok(next)
                } else {
                    match self.add(self) {
                        Err(e) => Err(e),
                        Ok(doubled) => doubled.double_and_add(next, k / 2),
                    }
                },
            }
        }
    }

    /// `k` times the point by binary expansion of `k`, from the least
    /// significant bit up.
    pub open spec fn binary_expansion_mul(self, k: nat) -> Result<PointView, Error> {
        self.double_and_add(self.curve.identity(), k)
    }
}

/// A point of a curve: the point at infinity, or an affine point that
/// satisfies the curve equation.
#[derive(Clone, Copy, Debug)]
pub struct Point {
    curve: Curve,
    coords: Option<(Felt, Felt)>,
}

impl View for Point {
    type V = PointView;

    closed spec fn view(&self) -> PointView {
        PointView {
            curve: self.curve@,
            coords: match self.coords {
                None => None,
                Some((x, y)) => Some((x@, y@)),
            },
        }
    }
}

/// The outcome of an operation on points, read through the views.
pub open spec fn result_view(r: Result<Point, Error>) -> Result<PointView, Error> {
    match r {
        Ok(p) => Ok(p@),
        Err(e) => Err(e),
    }
}

/// Two distinct residues differ by something that is not a multiple of the
/// modulus.
proof fn lemma_distinct_residues(a: FeltView, b: FeltView)
    requires
        a.wf(),
        b.wf(),
        a.prime == b.prime,
        a.inner != b.inner,
    ensures
        a.sub(b).inner != 0,
{
    let p = a.prime as int;
    if a.inner > b.inner {
        lemma_small_mod((a.inner - b.inner) as nat, a.prime);
    } else {
        lemma_mod_multiples_vanish(1, a.inner - b.inner, p);
        lemma_small_mod((a.inner - b.inner + p) as nat, a.prime);
    }
}

/// A sum that exists lies on the curve of its operands.
pub proof fn lemma_add_same_curve(p: PointView, q: PointView)
    requires
        p.add(q) is Ok,
    ensures
        p.add(q)->Ok_0.curve == p.curve,
        p.add(q)->Ok_0.curve == q.curve,
{
    reveal(PointView::add);
}

/// A multiple by binary expansion that exists lies on the curve of the point
/// it is a multiple of.
pub proof fn lemma_double_and_add_same_curve(current: PointView, acc: PointView, k: nat)
    requires
        current.curve == acc.curve,
        current.double_and_add(acc, k) is Ok,
    ensures
        current.double_and_add(acc, k)->Ok_0.curve == current.curve,
    decreases k,
{
    if k != 0 {
        if k % 2 == 1 {
            lemma_add_same_curve(acc, current);
        }
        if k / 2 != 0 {
            lemma_add_same_curve(current, current);
            let next = if k % 2 == 1 {
                acc.add(current)->Ok_0
            } else {
                acc
            };
            lemma_double_and_add_same_curve(current.add(current)->Ok_0, next, k / 2);
        }
    }
}

/// Once repeated addition has failed it stays failed: every larger multiple
/// is built on the one that could not be formed.
pub proof fn lemma_naive_mul_stays_failed(p: PointView, j: nat, k: nat, e: Error)
    requires
        j <= k,
        p.naive_mul(j) == Err::<PointView, Error>(e),
    ensures
        p.naive_mul(k) == Err::<PointView, Error>(e),
    decreases k,
{
    if j < k {
        lemma_naive_mul_stays_failed(p, j, (k - 1) as nat, e);
    }
}

/// How the bits of `k` from bit `i` on relate to those from bit `i + 1` on,
/// for a `k` that takes exactly `width` bits.
proof fn lemma_remaining_bits(k: nat, width: nat, i: nat)
    requires
        i < width,
        k < pow2(width),
        pow2((width - 1) as nat) <= k,
    ensures
        k / pow2(i) > 0,
        (k / pow2(i)) / 2 == k / pow2(i + 1),
        (k / pow2(i + 1) == 0) <==> i + 1 == width,
{
    lemma_pow2_pos(i);
    lemma_pow2_pos(i + 1);
    lemma_pow2_unfold(i + 1);
    lemma_div_denominator(k as int, pow2(i) as int, 2);
    if i < width - 1 {
        lemma_pow2_strictly_increases(i, (width - 1) as nat);
    }
    lemma_div_non_zero(k as int, pow2(i) as int);
    if i + 1 == width {
        lemma_basic_div(k as int, pow2(width) as int);
    } else {
        if i + 1 < width - 1 {
            lemma_pow2_strictly_increases(i + 1, (width - 1) as nat);
        }
        lemma_div_non_zero(k as int, pow2(i + 1) as int);
    }
}

impl Point {
    /// Every point that exists lies on its curve.
    #[verifier::type_invariant]
    pub open spec fn inv(self) -> bool {
        self@.wf()
    }

    /// The affine point `(x, y)`, known to lie on `curve`.
    pub(crate) fn affine(curve: Curve, x: Felt, y: Felt) -> (r: Point)
        requires
            curve@.wf(),
            curve@.contains(x@, y@),
        ensures
            r@ == (PointView { curve: curve@, coords: Some((x@, y@)) }),
    {
        Point { curve, coords: Some((x, y)) }
    }

    /// The point at infinity of `curve`.
    pub(crate) fn infinity(curve: Curve) -> (r: Point)
        ensures
            r@ == curve@.identity(),
    {
        proof {
            use_type_invariant(&curve);
        }
        Point { curve, coords: None }
    }

    /// The curve that the point lies on.
    pub fn curve(&self) -> (r: Curve)
        ensures
            r@ == self@.curve,
            self@.wf(),
    {
        proof {
            use_type_invariant(self);
        }
        self.curve
    }

    /// Whether this is the point at infinity.
    pub fn is_identity(&self) -> (r: bool)
        ensures
            r == (self@.coords is None),
    {
        self.coords.is_none()
    }

    /// The abscissa, which the point at infinity does not have.
    pub fn x(&self) -> (r: Option<Felt>)
        ensures
            match r {
                Some(x) => self@.x() == Some(x@),
                None => self@.x() is None,
            },
    {
        match self.coords {
            Some((x, _)) => Some(x),
            None => None,
        }
    }

    /// The ordinate, which the point at infinity does not have.
    pub fn y(&self) -> (r: Option<Felt>)
        ensures
            match r {
                Some(y) => self@.y() == Some(y@),
                None => self@.y() is None,
            },
    {
        match self.coords {
            Some((_, y)) => Some(y),
            None => None,
        }
    }

    /// The point that the line of slope `slope` through `(x1, y1)` and a
    /// point of abscissa `x2` meets the curve in, mirrored.
    fn third(&self, slope: &Felt, x1: &Felt, y1: &Felt, x2: &Felt) -> (r: Result<Point, Error>)
        requires
            slope@.prime == self@.curve.prime(),
            x1@.prime == self@.curve.prime(),
            y1@.prime == self@.curve.prime(),
            x2@.prime == self@.curve.prime(),
        ensures
            result_view(r) == ({
                let (x3, y3) = third_point(slope@, x1@, y1@, x2@);
                self@.curve.point(x3, y3)
            }),
    {
        let x3 = slope.mul(slope).unwrap().sub(x1).unwrap().sub(x2).unwrap();
        let y3 = slope.mul(&x1.sub(&x3).unwrap()).unwrap().sub(y1).unwrap();
        self.curve.point(x3, y3)
    }

    /// The sum of two points of one curve, by the group law. Over a field
    /// of prime order two points of one curve always have a sum.
    pub fn add(&self, rhs: &Point) -> (r: Result<Point, Error>)
        ensures
            result_view(r) == self@.add(rhs@),
            self@.curve == rhs@.curve && is_prime(self@.curve.prime()) ==> r is Ok,
            self@.curve != rhs@.curve ==> r == Err::<Point, Error>(Error::CurveMismatch),
    {
        proof {
            use_type_invariant(self);
            use_type_invariant(rhs);
            reveal(PointView::add);
            if self@.curve == rhs@.curve && is_prime(self@.curve.prime()) {
                lemma_add_closed(self@, rhs@);
            }
        }
        if !(self.curve == rhs.curve) {
            return Err(Error::CurveMismatch);
        }
        let (x1, y1) = match self.coords {
            None => {
                return Ok(*rhs);
            },
            Some(c) => c,
        };
        let (x2, y2) = match rhs.coords {
            None => {
                return Ok(*self);
            },
            Some(c) => c,
        };
        if x1 == x2 {
            let height = y1.add(&y2).unwrap();
            if !(y1 == y2) || height.is_zero() {
                return Ok(self.curve.identity());
            }
            let square = x1.mul(&x1).unwrap();
            let rise = square.add(&square).unwrap().add(&square).unwrap().add(
                &self.curve.a(),
            ).unwrap();
            let slope = rise.div(&height).unwrap();
            self.third(&slope, &x1, &y1, &x1)
        } else {
            proof {
                lemma_distinct_residues(x2@, x1@);
            }
            let slope = y2.sub(&y1).unwrap().div(&x2.sub(&x1).unwrap()).unwrap();
            self.third(&slope, &x1, &y1, &x2)
        }
    }
}

impl Point {
    /// `coefficient` times the point, by adding the point to itself one time
    /// less than `coefficient` says. Over a field of prime order the multiple
    /// always exists.
    pub fn naive_mul(&self, coefficient: u32) -> (r: Result<Point, Error>)
        ensures
            result_view(r) == self@.naive_mul(coefficient as nat),
            is_prime(self@.curve.prime()) ==> r is Ok,
    {
        proof {
            use_type_invariant(self);
            if is_prime(self@.curve.prime()) {
                lemma_naive_mul_closed(self@, coefficient as nat);
            }
        }
        if coefficient == 0 {
            return Ok(self.curve.identity());
        }
        let mut acc = *self;
        let mut done: u32 = 1;
        while done < coefficient
            invariant
                1 <= done <= coefficient,
                self@.naive_mul(done as nat) == Ok::<PointView, Error>(acc@),
                is_prime(self@.curve.prime()) ==> self@.naive_mul(coefficient as nat) is Ok,
            decreases coefficient - done,
        {
            match acc.add(self) {
                Ok(sum) => {
                    acc = sum;
                },
                Err(e) => {
                    proof {
                        lemma_naive_mul_stays_failed(
                            self@,
                            (done + 1) as nat,
                            coefficient as nat,
                            e,
                        );
                    }
                    return Err(e);
                },
            }
            done = done + 1;
        }
        Ok(acc)
    }

    /// `coefficient` times the point, by doubling a running multiple once per
    /// bit of `coefficient` and adding it in wherever the bit is set. Over a
    /// field of prime order the multiple always exists.
    pub fn binary_expansion_mul(&self, coefficient: u32) -> (r: Result<Point, Error>)
        ensures
            result_view(r) == self@.binary_expansion_mul(coefficient as nat),
            is_prime(self@.curve.prime()) ==> r is Ok,
    {
        proof {
            use_type_invariant(self);
            if is_prime(self@.curve.prime()) {
                lemma_binary_expansion_mul_closed(self@, coefficient as nat);
            }
        }
        let mut acc = self.curve.identity();
        let mut current = *self;
        let mut bits = coefficient;
        while bits > 0
            invariant
                is_prime(self@.curve.prime()) ==> self@.binary_expansion_mul(
                    coefficient as nat,
                ) is Ok,
                self@.binary_expansion_mul(coefficient as nat) == current@.double_and_add(
                    acc@,
                    bits as nat,
                ),
            decreases bits,
        {
            if bits % 2 == 1 {
                match acc.add(&current) {
                    Ok(sum) => {
                        acc = sum;
                    },
                    Err(e) => {
                        return Err(e);
                    },
                }
            }
            bits = bits / 2;
            if bits > 0 {
                match current.add(&current) {
                    Ok(doubled) => {
                        current = doubled;
                    },
                    Err(e) => {
                        return Err(e);
                    },
                }
            }
        }
        Ok(acc)
    }

    /// `coefficient` times the point, for a coefficient of up to 256 bits, by
    /// binary expansion. Over a field of prime order the multiple always
    /// exists.
    pub fn scalar_mul(&self, coefficient: &Uint256) -> (r: Result<Point, Error>)
        ensures
            result_view(r) == self@.binary_expansion_mul(coefficient@),
            is_prime(self@.curve.prime()) ==> r is Ok,
    {
        proof {
            use_type_invariant(self);
            if is_prime(self@.curve.prime()) {
                lemma_binary_expansion_mul_closed(self@, coefficient@);
            }
        }
        let width = u256_bits(coefficient);
        let mut acc = self.curve.identity();
        let mut current = *self;
        let mut i: usize = 0;
        proof {
            lemma2_to64();
        }
        while i < width
            invariant
                i <= width <= 256,
                coefficient@ < pow2(width as nat),
                width > 0 ==> pow2((width - 1) as nat) <= coefficient@,
                is_prime(self@.curve.prime()) ==> self@.binary_expansion_mul(coefficient@) is Ok,
                self@.binary_expansion_mul(coefficient@) == current@.double_and_add(
                    acc@,
                    coefficient@ / pow2(i as nat),
                ),
            decreases width - i,
        {
            proof {
                lemma_remaining_bits(coefficient@, width as nat, i as nat);
            }
            if u256_bit(coefficient, i) {
                match acc.add(&current) {
                    Ok(sum) => {
                        acc = sum;
                    },
                    Err(e) => {
                        return Err(e);
                    },
                }
            }
            i = i + 1;
            if i < width {
                match current.add(&current) {
                    Ok(doubled) => {
                        current = doubled;
                    },
                    Err(e) => {
                        return Err(e);
                    },
                }
            }
        }
        proof {
            lemma_pow2_pos(width as nat);
            lemma_basic_div(coefficient@ as int, pow2(width as nat) as int);
        }
        Ok(acc)
    }

}

impl PartialEq for Point {
    /// The point at infinity equals only the point at infinity of the same
    /// curve; two affine points are equal when they lie on the same curve and
    /// have the same coordinates.
    fn eq(&self, other: &Self) -> (r: bool) {
        proof {
            use_type_invariant(self);
            use_type_invariant(other);
        }
        if !(self.curve == other.curve) {
            return false;
        }
        match (self.coords, other.coords) {
            (None, None) => true,
            (Some((x1, y1)), Some((x2, y2))) => x1 == x2 && y1 == y2,
            _ => false,
        }
    }
}

impl PartialEqSpecImpl for Point {
    open spec fn obeys_eq_spec() -> bool {
        true
    }

    open spec fn eq_spec(&self, other: &Self) -> bool {
        self@ == other@
    }
}

} // verus!
