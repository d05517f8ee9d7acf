use std::str::FromStr;

use ecc::elliptic_curve::curve::Curve;
use ecc::elliptic_curve::point::Point;
use ecc::elliptic_curve::secp256k1::Secp256k1Point;
use ecc::error::Error;
use ecc::finite_fields::Felt;
use ecc::uint::Uint256;
use num_bigint::BigUint;
use primitive_types::U256;

fn felt(inner: u64, prime: u64) -> Felt {
    Felt::new(Uint256(U256::from(inner).0), Uint256(U256::from(prime).0)).unwrap()
}

fn big(value: Uint256) -> BigUint {
    let mut bytes = Vec::new();
    for word in value.0 {
        bytes.extend_from_slice(&word.to_le_bytes());
    }
    BigUint::from_bytes_le(&bytes)
}

fn toy_curve() -> Curve {
    Curve::new(felt(0, 223), felt(7, 223)).unwrap()
}

fn toy_point(x: u64, y: u64) -> Point {
    toy_curve().point(felt(x, 223), felt(y, 223)).unwrap()
}

#[test]
fn test_curve() {
    let prime = 223u64;
    let curve = Curve::new(felt(0, prime), felt(7, prime)).unwrap();

    let valid_points = vec![(192, 105), (17, 56), (1, 193)];
    let invalid_points = vec![(200, 119), (42, 99)];

    for (x, y) in valid_points {
        let point = curve.point(felt(x, prime), felt(y, prime));
        assert!(point.is_ok());
    }

    for (x, y) in invalid_points {
        let point = curve.point(felt(x, prime), felt(y, prime));
        assert!(point.is_err());
    }
}

#[test]
fn test_point_add() {
    let prime = 223u64;

    let curve = Curve::new(felt(0, prime), felt(7, prime)).unwrap();

    let pt1 = curve.point(felt(170, prime), felt(142, prime)).unwrap();
    let pt2 = curve.point(felt(60, prime), felt(139, prime)).unwrap();
    let expected_sum = curve.point(felt(220, prime), felt(181, prime)).unwrap();
    assert_eq!((pt1 + pt2).unwrap(), expected_sum);
}

#[test]
fn test_scalar() {
    let scalar_multiples = vec![
        (47, 71),
        (36, 111),
        (15, 137),
        (194, 51),
        (126, 96),
        (139, 137),
        (92, 47),
        (116, 55),
    ];

    let prime = 223u64;
    let curve = Curve::new(felt(0, prime), felt(7, prime)).unwrap();
    let generator = curve.point(felt(47, prime), felt(71, prime)).unwrap();

    for i in 1..=scalar_multiples.len() as u32 {
        let result = (generator.clone() * i).unwrap();
        let expected = curve
            .point(
                felt(scalar_multiples[i as usize - 1].0, prime),
                felt(scalar_multiples[i as usize - 1].1, prime),
            )
            .unwrap();

        assert_eq!(result, expected);
    }
}

#[test]
fn test_order() {
    let prime: u64 = 223;
    let a = felt(0, prime);
    let b = felt(7, prime);
    let curve = Curve::new(a.clone(), b.clone()).unwrap();

    let mut i: usize = 0;
    let mut point = curve.identity();
    loop {
        let generator = curve.point(felt(15, prime), felt(86, prime)).unwrap();
        point = (point + generator).unwrap();
        i += 1;

        if point == curve.identity() {
            break;
        }
    }

    assert_eq!(i, 7);
}

#[test]
fn test_binary_expansion() {
    let prime = 223u64;
    let curve = Curve::new(felt(0, prime), felt(7, prime)).unwrap();
    let generator = curve.point(felt(47, prime), felt(71, prime)).unwrap();

    for i in 0..10 {
        let coefficient = (i + 1) as u32;
        let naive_multiple = generator.clone().naive_mul(coefficient).unwrap();
        let binary_expanded = generator.clone().binary_expansion_mul(coefficient).unwrap();

        assert_eq!(naive_multiple, binary_expanded);
    }
}

#[test]
fn test_secp256k1_values() {
    // The fact that this works means point is on the curve
    let point = Secp256k1Point::g();
    let point: Point = point.clone().into();

    // Compare point values with string representations of the values
    assert_eq!(
        BigUint::from_str(
            "55066263022277343669578718895168534326250603453777594175500187360389116729240"
        )
        .unwrap(),
        big(point.x().unwrap().inner())
    );

    assert_eq!(
        BigUint::from_str(
            "32670510020758816978083085130507043184471273380659243275938904335757337482424"
        )
        .unwrap(),
        big(point.y().unwrap().inner())
    );

    assert_eq!(
        BigUint::from_str(
            "115792089237316195423570985008687907853269984665640564039457584007908834671663"
        )
        .unwrap(),
        big(point.curve().a().prime())
    );
}

#[test]
fn test_secp256k1_scalar() {
    let point = Secp256k1Point::g();
    let identity: Point = (point * Secp256k1Point::order()).unwrap().into();

    assert_eq!(identity, Secp256k1Point::curve().identity());
}

#[test]
fn curve_needs_coefficients_of_one_field() {
    assert_eq!(
        Curve::new(felt(0, 223), felt(7, 227)).err(),
        Some(Error::CurveMismatch)
    );
    let curve = toy_curve();
    assert_eq!(curve.a(), felt(0, 223));
    assert_eq!(curve.b(), felt(7, 223));
    assert_eq!(curve.prime(), Uint256::from_u64(223));
}

#[test]
fn point_construction_errors() {
    let curve = toy_curve();
    assert_eq!(
        curve.point(felt(200, 223), felt(119, 223)).err(),
        Some(Error::PointNotOnCurve)
    );
    assert_eq!(
        curve.point(felt(42, 223), felt(99, 223)).err(),
        Some(Error::PointNotOnCurve)
    );
    assert_eq!(
        curve.point(felt(192, 227), felt(105, 223)).err(),
        Some(Error::CurveMismatch)
    );
    assert_eq!(
        curve.point(felt(192, 223), felt(105, 227)).err(),
        Some(Error::CurveMismatch)
    );
    let point = curve.point(felt(192, 223), felt(105, 223)).unwrap();
    assert_eq!(point.x(), Some(felt(192, 223)));
    assert_eq!(point.y(), Some(felt(105, 223)));
    assert_eq!(point.curve(), curve);
    assert!(!point.is_identity());
}

#[test]
fn identity_is_neutral() {
    let curve = toy_curve();
    let identity = curve.identity();
    assert!(identity.is_identity());
    assert_eq!(identity.x(), None);
    assert_eq!(identity.y(), None);
    let point = toy_point(192, 105);
    assert_eq!(identity.add(&point).unwrap(), point);
    assert_eq!(point.add(&identity).unwrap(), point);
    assert_eq!(identity.add(&identity).unwrap(), identity);
}

#[test]
fn opposite_points_add_up_to_identity() {
    let curve = toy_curve();
    // (192, 105) and (192, 223 - 105)
    let point = toy_point(192, 105);
    let mirror = toy_point(192, 118);
    assert_eq!(point.add(&mirror).unwrap(), curve.identity());
    assert_eq!(mirror.add(&point).unwrap(), curve.identity());
}

#[test]
fn vertical_tangent_doubles_to_identity() {
    // y^2 = x^3 + 1 over 7 elements holds (3, 0): 27 + 1 = 28 = 0
    let curve = Curve::new(felt(0, 7), felt(1, 7)).unwrap();
    let point = curve.point(felt(3, 7), felt(0, 7)).unwrap();
    assert_eq!(point.add(&point).unwrap(), curve.identity());
    // in a field of two elements every tangent is vertical
    let curve = Curve::new(felt(1, 2), felt(1, 2)).unwrap();
    let point = curve.point(felt(0, 2), felt(1, 2)).unwrap();
    assert_eq!(point.add(&point).unwrap(), curve.identity());
}

#[test]
fn doubling_follows_the_tangent() {
    // 2 * (47, 71) = (36, 111), 2 * (192, 105) = (49, 71)
    assert_eq!(
        toy_point(47, 71).add(&toy_point(47, 71)).unwrap(),
        toy_point(36, 111)
    );
    assert_eq!(
        toy_point(192, 105).add(&toy_point(192, 105)).unwrap(),
        toy_point(49, 71)
    );
    // with a nonzero coefficient of x: y^2 = x^3 + 2x + 3 over 97, 2 * (3, 6) = (80, 10)
    let curve = Curve::new(felt(2, 97), felt(3, 97)).unwrap();
    let point = curve.point(felt(3, 97), felt(6, 97)).unwrap();
    assert_eq!(
        point.add(&point).unwrap(),
        curve.point(felt(80, 97), felt(10, 97)).unwrap()
    );
}

#[test]
fn chord_addition() {
    assert_eq!(
        toy_point(47, 71).add(&toy_point(17, 56)).unwrap(),
        toy_point(215, 68)
    );
    assert_eq!(
        toy_point(143, 98).add(&toy_point(76, 66)).unwrap(),
        toy_point(47, 71)
    );
    // the other way round
    assert_eq!(
        toy_point(60, 139).add(&toy_point(170, 142)).unwrap(),
        toy_point(220, 181)
    );
}

#[test]
fn points_of_different_curves_do_not_add() {
    let other = Curve::new(felt(0, 223), felt(11, 223)).unwrap();
    let point = toy_point(192, 105);
    assert_eq!(point.add(&other.identity()).err(), Some(Error::CurveMismatch));
    assert_eq!(other.identity().add(&point).err(), Some(Error::CurveMismatch));
    assert_ne!(other.identity(), toy_curve().identity());
    let small = Curve::new(felt(0, 7), felt(0, 7)).unwrap();
    assert_eq!(small.identity().add(&point).err(), Some(Error::CurveMismatch));
}

#[test]
fn sum_off_the_curve_is_refused() {
    // 15 is not prime: (2, 5) lies on y^2 = x^3 + 2 over 15, its double does not
    let curve = Curve::new(felt(0, 15), felt(2, 15)).unwrap();
    let point = curve.point(felt(2, 15), felt(5, 15)).unwrap();
    assert_eq!(point.add(&point).err(), Some(Error::PointNotOnCurve));
    assert_eq!(point.naive_mul(2).err(), Some(Error::PointNotOnCurve));
    assert_eq!(point.naive_mul(5).err(), Some(Error::PointNotOnCurve));
    assert_eq!(point.binary_expansion_mul(2).err(), Some(Error::PointNotOnCurve));
    assert_eq!(point.naive_mul(1).unwrap(), point);
    assert_eq!(point.binary_expansion_mul(1).unwrap(), point);
}

#[test]
fn scalar_multiples_of_small_scalars() {
    let curve = toy_curve();
    let generator = toy_point(47, 71);
    assert_eq!(generator.naive_mul(0).unwrap(), curve.identity());
    assert_eq!(generator.binary_expansion_mul(0).unwrap(), curve.identity());
    assert_eq!((generator * 0).unwrap(), curve.identity());
    assert_eq!(generator.naive_mul(1).unwrap(), generator);
    assert_eq!(generator.binary_expansion_mul(1).unwrap(), generator);
    assert_eq!(generator.naive_mul(2).unwrap(), toy_point(36, 111));
    assert_eq!(generator.binary_expansion_mul(4).unwrap(), toy_point(194, 51));
    // (47, 71) has order 21
    assert_eq!(generator.naive_mul(21).unwrap(), curve.identity());
    assert_eq!(generator.binary_expansion_mul(21).unwrap(), curve.identity());
    assert_eq!(generator.binary_expansion_mul(22).unwrap(), generator);
    assert_eq!(curve.identity().naive_mul(5).unwrap(), curve.identity());
    assert_eq!(
        curve.identity().binary_expansion_mul(5).unwrap(),
        curve.identity()
    );
}

#[test]
fn scalar_multiplication_strategies_agree() {
    let generator = toy_point(47, 71);
    for k in 0..64u32 {
        let naive = generator.naive_mul(k).unwrap();
        assert_eq!(naive, generator.binary_expansion_mul(k).unwrap());
        assert_eq!(naive, (generator * k).unwrap());
        assert_eq!(
            naive,
            generator.scalar_mul(&Uint256::from_u64(k as u64)).unwrap()
        );
    }
    // 2^64 + 5 = 5 (mod 21): bits above the first word are looked at
    assert_eq!(
        generator.scalar_mul(&Uint256([5, 1, 0, 0])).unwrap(),
        generator.naive_mul(((1u128 << 64) % 21) as u32 + 5).unwrap()
    );
    assert_eq!(
        generator.binary_expansion_mul(u32::MAX).unwrap(),
        generator.naive_mul(u32::MAX % 21).unwrap()
    );
}

#[test]
fn generator_of_order_seven() {
    let curve = toy_curve();
    let generator = toy_point(15, 86);
    for k in 1..7 {
        assert_ne!(generator.naive_mul(k).unwrap(), curve.identity());
    }
    assert_eq!(generator.naive_mul(7).unwrap(), curve.identity());
    assert_eq!(generator.binary_expansion_mul(7).unwrap(), curve.identity());
}

#[test]
fn secp256k1_parameters() {
    let curve = Secp256k1Point::curve();
    assert_eq!(curve.a().inner(), Uint256::from_u64(0));
    assert_eq!(curve.b().inner(), Uint256::from_u64(7));
    let prime = (BigUint::from(1u8) << 256) - (BigUint::from(1u8) << 32) - BigUint::from(977u32);
    assert_eq!(big(curve.prime()), prime);
    assert_eq!(big(curve.b().prime()), prime);
    assert_eq!(
        big(Secp256k1Point::order()),
        BigUint::from_str(
            "115792089237316195423570985008687907852837564279074904382605163141518161494337"
        )
        .unwrap()
    );
    let g = Secp256k1Point::g();
    assert!(!g.is_identity());
    // the generator passes the check that every point of the generic kind passes
    let point = g.to_point();
    let again = curve
        .point(point.x().unwrap(), point.y().unwrap())
        .unwrap();
    assert_eq!(again, point);
}

#[test]
fn secp256k1_round_trip() {
    let g = Secp256k1Point::g();
    let point = g.to_point();
    assert_eq!(point.curve(), Secp256k1Point::curve());
    let back = Secp256k1Point::from_point(&point).unwrap();
    assert_eq!(back, g);
    assert_eq!(back.to_point(), point);

    let infinity = Secp256k1Point::from_point(&Secp256k1Point::curve().identity()).unwrap();
    assert!(infinity.is_identity());
    assert_eq!(infinity.to_point(), Secp256k1Point::curve().identity());

    let double = g.add(&g).unwrap();
    assert_eq!(
        Secp256k1Point::from_point(&double.to_point()).unwrap(),
        double
    );

    assert_eq!(
        Secp256k1Point::from_point(&toy_point(192, 105)).err(),
        Some(Error::CurveMismatch)
    );
}

#[test]
fn secp256k1_small_multiples() {
    let g = Secp256k1Point::g();
    let double = g.add(&g).unwrap();
    assert_eq!(
        big(double.to_point().x().unwrap().inner()),
        BigUint::from_str(
            "89565891926547004231252920425935692360644145829622209833684329913297188986597"
        )
        .unwrap()
    );
    assert_eq!(
        big(double.to_point().y().unwrap().inner()),
        BigUint::from_str(
            "12158399299693830322967808612713398636155367887041628176798871954788371653930"
        )
        .unwrap()
    );
    assert_eq!(g.mul(&Uint256::from_u64(2)).unwrap(), double);
    assert_eq!(g.mul(&Uint256::from_u64(1)).unwrap(), g);
    assert!(g.mul(&Uint256::from_u64(0)).unwrap().is_identity());
    let triple = double.add(&g).unwrap();
    assert_eq!(g.mul(&Uint256::from_u64(3)).unwrap(), triple);
    assert_eq!(g.add(&double).unwrap(), triple);
    // (n - 1) * G is the mirror image of G, and one more G closes the circle
    let order = U256(Secp256k1Point::order().0);
    let last = g.mul(&Uint256((order - 1).0)).unwrap();
    assert_eq!(last.to_point().x(), g.to_point().x());
    assert_ne!(last.to_point().y(), g.to_point().y());
    assert!(last.add(&g).unwrap().is_identity());
    assert_eq!(g.mul(&Uint256((order + 1).0)).unwrap(), g);
}

#[test]
fn point_operators_agree_with_methods() {
    let p = toy_point(170, 142);
    let q = toy_point(60, 139);
    assert_eq!(p + q, p.add(&q));
    assert_eq!(p * 5, p.binary_expansion_mul(5));
    let g = Secp256k1Point::g();
    assert_eq!(g + g, g.add(&g));
    assert_eq!(g * Uint256::from_u64(5), g.mul(&Uint256::from_u64(5)));
}
