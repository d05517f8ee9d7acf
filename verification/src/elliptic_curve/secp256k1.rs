//! The curve secp256k1: `y^2 = x^3 + 7` over the field of
//! `2^256 - 2^32 - 977` elements, with its generator and the order of the
//! group that the generator spans.

use crate::elliptic_curve::curve::{Curve, CurveView};
use crate::elliptic_curve::point::{
    lemma_add_same_curve, lemma_double_and_add_same_curve, Point, PointView,
};
use crate::error::Error;
use crate::finite_fields::prime::is_prime;
use crate::finite_fields::{Felt, FeltView};
use crate::uint::{limit_256, Uint256};
use vstd::arithmetic::power2::{lemma2_to64, lemma_pow2_adds, pow2};
use vstd::prelude::*;
use vstd::std_specs::cmp::PartialEqSpecImpl;
use vstd::std_specs::convert::FromSpecImpl;

verus! {

/// The field modulus `p = 2^256 - 2^32 - 977`.
pub open spec fn field_prime() -> nat {
    0xFFFFFFFF_FFFFFFFF_FFFFFFFF_FFFFFFFF_FFFFFFFF_FFFFFFFF_FFFFFFFE_FFFFFC2Fnat
}

/// The order `n` of the generator.
pub open spec fn group_order() -> nat {
    0xFFFFFFFF_FFFFFFFF_FFFFFFFF_FFFFFFFE_BAAEDCE6_AF48A03B_BFD25E8C_D0364141nat
}

/// The abscissa of the generator.
pub open spec fn generator_x() -> nat {
    0x79BE667E_F9DCBBAC_55A06295_CE870B07_029BFCDB_2DCE28D9_59F2815B_16F81798nat
}

/// The ordinate of the generator.
pub open spec fn generator_y() -> nat {
    0x483ADA77_26A3C465_5DA4FBFC_0E1108A8_FD17B448_A6855419_9C47D08F_FB10D4B8nat
}

/// The element of the secp256k1 field with residue `inner`.
pub open spec fn element(inner: nat) -> FeltView {
    FeltView { inner, prime: field_prime() }
}

/// The curve itself: `a = 0` and `b = 7` over the field of `field_prime()`
/// elements.
pub open spec fn curve_view() -> CurveView {
    CurveView { a: element(0), b: element(7) }
}

/// The coordinates of a point of secp256k1, or `None` for the point at
/// infinity.
pub type Coordinates = Option<(FeltView, FeltView)>;

/// The point of the generic kind with these coordinates on secp256k1.
pub open spec fn as_point(coords: Coordinates) -> PointView {
    PointView { curve: curve_view(), coords }
}

/// The coordinates of a point of the generic kind, if secp256k1 is the curve
/// it lies on.
pub open spec fn from_point(p: PointView) -> Result<Coordinates, Error> {
    if p.curve == curve_view() {
        Ok(p.coords)
    } else {
        Err(Error::CurveMismatch)
    }
}

/// A point of secp256k1.
#[derive(Clone, Copy, Debug)]
pub struct Secp256k1Point {
    coords: Option<(Felt, Felt)>,
}

impl View for Secp256k1Point {
    type V = Coordinates;

    closed spec fn view(&self) -> Coordinates {
        match self.coords {
            None => None,
            Some((x, y)) => Some((x@, y@)),
        }
    }
}

/// The outcome of an operation on secp256k1 points, read as an outcome on
/// points of the generic kind.
pub open spec fn result_as_point(r: Result<Secp256k1Point, Error>) -> Result<PointView, Error> {
    match r {
        Ok(s) => Ok(as_point(s@)),
        Err(e) => Err(e),
    }
}

/// The field modulus.
fn prime() -> (r: Uint256)
    ensures
        r@ == field_prime(),
{
    Uint256(
        [0xFFFFFFFE_FFFFFC2F, 0xFFFFFFFF_FFFFFFFF, 0xFFFFFFFF_FFFFFFFF, 0xFFFFFFFF_FFFFFFFF],
    )
}

/// The element of the secp256k1 field with the residue `inner`, which is
/// below the modulus.
fn felt(inner: Uint256) -> (r: Felt)
    requires
        inner@ < field_prime(),
    ensures
        r@ == element(inner@),
{
    Felt::new(inner, prime()).unwrap()
}

impl Secp256k1Point {
    /// Every point that exists lies on secp256k1.
    #[verifier::type_invariant]
    pub open spec fn inv(self) -> bool {
        as_point(self@).wf()
    }

    /// The curve secp256k1.
    pub fn curve() -> (r: Curve)
        ensures
            r@ == curve_view(),
    {
        let a = felt(Uint256::from_u64(0));
        let b = felt(Uint256::from_u64(7));
        Curve::new(a, b).unwrap()
    }

    /// The order of the generator: the least positive number of times that
    /// the generator must be added to itself to reach the point at infinity.
    pub fn order() -> (r: Uint256)
        ensures
            r@ == group_order(),
    {
        Uint256(
            [0xBFD25E8C_D0364141, 0xBAAEDCE6_AF48A03B, 0xFFFFFFFF_FFFFFFFE, 0xFFFFFFFF_FFFFFFFF],
        )
    }

    /// The generator.
    pub fn g() -> (r: Secp256k1Point)
        ensures
            r@ == Some((element(generator_x()), element(generator_y()))),
    {
        let x = felt(
            Uint256(
                [
                    0x59F2815B_16F81798,
                    0x029BFCDB_2DCE28D9,
                    0x55A06295_CE870B07,
                    0x79BE667E_F9DCBBAC,
                ],
            ),
        );
        let y = felt(
            Uint256(
                [
                    0x9C47D08F_FB10D4B8,
                    0xFD17B448_A6855419,
                    0x5DA4FBFC_0E1108A8,
                    0x483ADA77_26A3C465,
                ],
            ),
        );
        proof {
            lemma_generator_on_curve();
        }
        Secp256k1Point { coords: Some((x, y)) }
    }

    /// The same point as a point of the generic kind: the coordinates are
    /// handed over as they are.
    pub fn to_point(&self) -> (r: Point)
        ensures
            r@ == as_point(self@),
    {
        proof {
            use_type_invariant(self);
        }
        let curve = Secp256k1Point::curve();
        match self.coords {
            None => curve.identity(),
            Some((x, y)) => Point::affine(curve, x, y),
        }
    }

    /// The point of secp256k1 that a point of the generic kind is. A point of
    /// another curve is refused; the coordinates are taken as they are.
    pub fn from_point(point: &Point) -> (r: Result<Secp256k1Point, Error>)
        ensures
            match r {
                Ok(s) => Ok::<Coordinates, Error>(s@) == from_point(point@),
                Err(e) => Err::<Coordinates, Error>(e) == from_point(point@),
            },
    {
        if !(point.curve() == Secp256k1Point::curve()) {
            return Err(Error::CurveMismatch);
        }
        match (point.x(), point.y()) {
            (Some(x), Some(y)) => Ok(Secp256k1Point { coords: Some((x, y)) }),
            _ => Ok(Secp256k1Point { coords: None }),
        }
    }

    /// Whether this is the point at infinity.
    pub fn is_identity(&self) -> (r: bool)
        ensures
            r == (self@ is None),
    {
        self.coords.is_none()
    }

    /// The sum of two points, by the group law.
    pub fn add(&self, rhs: &Secp256k1Point) -> (r: Result<Secp256k1Point, Error>)
        ensures
            result_as_point(r) == as_point(self@).add(as_point(rhs@)),
            is_prime(field_prime()) ==> r is Ok,
    {
        match self.to_point().add(&rhs.to_point()) {
            Ok(sum) => {
                proof {
                    lemma_add_same_curve(as_point(self@), as_point(rhs@));
                }
                match Secp256k1Point::from_point(&sum) {
                    Ok(s) => Ok(s),
                    Err(e) => Err(e),
                }
            },
            Err(e) => Err(e),
        }
    }

    /// `coefficient` times the point, by binary expansion.
    pub fn mul(&self, coefficient: &Uint256) -> (r: Result<Secp256k1Point, Error>)
        ensures
            result_as_point(r) == as_point(self@).binary_expansion_mul(coefficient@),
            is_prime(field_prime()) ==> r is Ok,
    {
        match self.to_point().scalar_mul(coefficient) {
            Ok(product) => {
                proof {
                    lemma_double_and_add_same_curve(
                        as_point(self@),
                        curve_view().identity(),
                        coefficient@,
                    );
                }
                match Secp256k1Point::from_point(&product) {
                    Ok(s) => Ok(s),
                    Err(e) => Err(e),
                }
            },
            Err(e) => Err(e),
        }
    }
}

/// Turning a point of secp256k1 into a point of the generic kind and back
/// gives the coordinates that one started from.
pub proof fn lemma_round_trip(coords: Coordinates)
    ensures
        from_point(as_point(coords)) == Ok::<Coordinates, Error>(coords),
{
}

/// Turning a point of the generic kind that lies on secp256k1 into a point of
/// secp256k1 and back gives the point that one started from.
pub proof fn lemma_round_trip_back(p: PointView)
    requires
        p.curve == curve_view(),
    ensures
        from_point(p) is Ok,
        as_point(from_point(p)->Ok_0) == p,
{
}

/// The field modulus is `2^256 - 2^32 - 977`.
pub proof fn lemma_field_prime_value()
    ensures
        field_prime() == pow2(256) - pow2(32) - 977,
{
    lemma2_to64();
    lemma_pow2_adds(64, 64);
    assert(pow2(128) == 0x1_0000_0000_0000_0000_0000_0000_0000_0000nat) by {
        assert(0x1_0000_0000_0000_0000nat * 0x1_0000_0000_0000_0000nat
            == 0x1_0000_0000_0000_0000_0000_0000_0000_0000nat);
    }
    lemma_pow2_adds(128, 128);
    assert(pow2(256) == limit_256()) by {
        assert(0x1_0000_0000_0000_0000_0000_0000_0000_0000nat
            * 0x1_0000_0000_0000_0000_0000_0000_0000_0000nat == limit_256());
    }
}

/// The generator satisfies `y^2 = x^3 + 7` in the secp256k1 field.
pub proof fn lemma_generator_on_curve()
    ensures
        curve_view().contains(element(generator_x()), element(generator_y())),
{
    let p = field_prime() as int;
    let x = generator_x() as int;
    let y = generator_y() as int;
    let square = 0x8550E7D2_38FCF308_6BA9ADCF_0FB52A9D_E3652194_D06CB5BB_38D50229_B854FC49int;
    let cube = 0x4866D6A5_AB41AB2C_6BCC57CC_D3735DA5_F16F80A5_48E5E20A_44E4E9B8_118C26EBint;
    assert((x * x) % p == square);
    assert((square * x) % p == cube);
    assert((0 * x) % p == 0);
    assert((cube + 0) % p == cube);
    assert((cube + 7) % p == cube + 7);
    assert((y * y) % p == cube + 7);
}

impl PartialEq for Secp256k1Point {
    /// Two points are equal when both are the point at infinity or both have
    /// the same coordinates.
    fn eq(&self, other: &Self) -> (r: bool) {
        proof {
            use_type_invariant(self);
            use_type_invariant(other);
        }
        match (self.coords, other.coords) {
            (None, None) => true,
            (Some((x1, y1)), Some((x2, y2))) => x1 == x2 && y1 == y2,
            _ => false,
        }
    }
}

impl PartialEqSpecImpl for Secp256k1Point {
    open spec fn obeys_eq_spec() -> bool {
        true
    }

    open spec fn eq_spec(&self, other: &Self) -> bool {
        self@ == other@
    }
}

impl From<Secp256k1Point> for Point {
    /// The same point as a point of the generic kind.
    fn from(point: Secp256k1Point) -> (r: Point)
        ensures
            r@ == as_point(point@),
    {
        point.to_point()
    }
}

impl FromSpecImpl<Secp256k1Point> for Point {
    /// The conversion is specified through the views, by the contract of
    /// `from`, and not as a function on the representations.
    open spec fn obeys_from_spec() -> bool {
        false
    }

    open spec fn from_spec(point: Secp256k1Point) -> Point {
        arbitrary()
    }
}

} // verus!
