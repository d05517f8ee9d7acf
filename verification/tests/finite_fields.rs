use ecc::error::Error;
use ecc::finite_fields::pow::Pow;
use ecc::finite_fields::Felt;
use ecc::uint::Uint256;
use primitive_types::U256;

fn uint(value: U256) -> Uint256 {
    Uint256(value.0)
}

fn felt(inner: u64, prime: u64) -> Felt {
    Felt::new(uint(inner.into()), uint(prime.into())).unwrap()
}

fn secp_prime() -> U256 {
    U256::from_dec_str(
        "115792089237316195423570985008687907853269984665640564039457584007908834671663",
    )
    .unwrap()
}

fn wide(inner: U256) -> Felt {
    Felt::new(uint(inner), uint(secp_prime())).unwrap()
}

#[test]
fn test_display() {
    let felt_a = Felt::new(uint(U256::from(1)), uint(U256::from(11))).unwrap();
    assert_eq!(format!("{}", felt_a.to_string()), "Field Element: 1 (11)")
}

#[test]
fn test_add_sub() {
    let felt_a = Felt::new(uint(11.into()), uint(19.into())).unwrap();
    let felt_b = Felt::new(uint(17.into()), uint(19.into())).unwrap();
    assert_eq!(
        (felt_a + felt_b).unwrap(),
        Felt::new(uint(9.into()), uint(19.into())).unwrap()
    );

    let felt_a = Felt::new(uint(6.into()), uint(19.into())).unwrap();
    let felt_b = Felt::new(uint(13.into()), uint(19.into())).unwrap();
    assert_eq!(
        (felt_a - felt_b).unwrap(),
        Felt::new(uint(12.into()), uint(19.into())).unwrap()
    );
}

#[test]
fn test_mul_div() {
    let felt_a = Felt::new(uint(2.into()), uint(19.into())).unwrap();
    let felt_b = Felt::new(uint(17.into()), uint(19.into())).unwrap();
    assert_eq!(
        (felt_a * felt_b).unwrap(),
        Felt::new(uint(15.into()), uint(19.into())).unwrap()
    );

    let felt_a = Felt::new(uint(2.into()), uint(19.into())).unwrap();
    let felt_b = Felt::new(uint(7.into()), uint(19.into())).unwrap();
    assert_eq!(
        (felt_a / felt_b).unwrap(),
        Felt::new(uint(3.into()), uint(19.into())).unwrap()
    );
}

#[test]
fn test_pow() {
    // 3^-1 == 1/3
    let felt_a = Felt::new(uint(3.into()), uint(19.into())).unwrap().pow(-1i64);
    let felt_b = Felt::new(uint(1.into()), uint(19.into()))
        .unwrap()
        .div(&Felt::new(uint(3.into()), uint(19.into())).unwrap())
        .unwrap();
    assert_eq!(felt_a, felt_b);
}

#[test]
fn new_keeps_residue_and_prime() {
    let element = Felt::new(uint(7.into()), uint(13.into())).unwrap();
    assert_eq!(element.inner(), uint(7.into()));
    assert_eq!(element.prime(), uint(13.into()));
    let large = wide(secp_prime() - 1);
    assert_eq!(large.inner(), uint(secp_prime() - 1));
    assert_eq!(large.prime(), uint(secp_prime()));
}

#[test]
fn new_refuses_unreduced_residue() {
    assert_eq!(
        Felt::new(uint(19.into()), uint(19.into())).err(),
        Some(Error::InvalidElement)
    );
    assert_eq!(
        Felt::new(uint(20.into()), uint(19.into())).err(),
        Some(Error::InvalidElement)
    );
    assert_eq!(
        Felt::new(uint(0.into()), uint(0.into())).err(),
        Some(Error::InvalidElement)
    );
    assert!(Felt::new(uint(18.into()), uint(19.into())).is_ok());
    // the comparison looks at the high words too
    let high = Uint256([0, 0, 0, 1]);
    let low = Uint256([5, 0, 0, 0]);
    assert!(Felt::new(low, high).is_ok());
    assert_eq!(Felt::new(high, low).err(), Some(Error::InvalidElement));
}

#[test]
fn operands_of_different_fields_are_refused() {
    let a = felt(3, 19);
    let b = felt(3, 23);
    assert_eq!(a.add(&b).err(), Some(Error::CurveMismatch));
    assert_eq!(a.sub(&b).err(), Some(Error::CurveMismatch));
    assert_eq!(a.mul(&b).err(), Some(Error::CurveMismatch));
    assert_eq!(a.div(&b).err(), Some(Error::CurveMismatch));
    assert!(!a.same_field(&b));
    assert!(a.same_field(&felt(4, 19)));
}

#[test]
fn division_by_zero_is_refused() {
    assert_eq!(
        felt(5, 19).div(&felt(0, 19)).err(),
        Some(Error::DivisionByZero)
    );
    assert_eq!(
        felt(0, 19).div(&felt(0, 19)).err(),
        Some(Error::DivisionByZero)
    );
    // a mismatch is reported before the divisor is looked at
    assert_eq!(
        felt(5, 19).div(&felt(0, 23)).err(),
        Some(Error::CurveMismatch)
    );
    assert_eq!(felt(0, 19).div(&felt(5, 19)).unwrap(), felt(0, 19));
}

#[test]
fn subtraction_wraps_without_underflow() {
    assert_eq!(felt(5, 19).sub(&felt(5, 19)).unwrap(), felt(0, 19));
    assert_eq!(felt(0, 19).sub(&felt(1, 19)).unwrap(), felt(18, 19));
    assert_eq!(felt(18, 19).sub(&felt(0, 19)).unwrap(), felt(18, 19));
    assert_eq!(felt(3, 19).sub(&felt(2, 19)).unwrap(), felt(1, 19));
}

#[test]
fn addition_wraps_at_the_prime() {
    assert_eq!(felt(18, 19).add(&felt(1, 19)).unwrap(), felt(0, 19));
    assert_eq!(felt(18, 19).add(&felt(18, 19)).unwrap(), felt(17, 19));
    assert_eq!(felt(0, 19).add(&felt(0, 19)).unwrap(), felt(0, 19));
    assert_eq!(felt(0, 1).add(&felt(0, 1)).unwrap(), felt(0, 1));
}

#[test]
fn arithmetic_near_the_top_of_the_range() {
    let p = secp_prime();
    let top = wide(p - 1);
    // (p - 1) + (p - 1) = p - 2 (mod p): the plain sum does not fit in 256 bits
    assert_eq!(top.add(&top).unwrap().inner(), uint(p - 2));
    // (p - 1) * (p - 1) = 1 (mod p): the plain product takes 512 bits
    assert_eq!(top.mul(&top).unwrap().inner(), uint(U256::from(1)));
    // 2 * (p - 1) = p - 2
    assert_eq!(
        wide(2.into()).mul(&top).unwrap().inner(),
        uint(p - 2)
    );
    assert_eq!(
        wide(1.into()).sub(&top).unwrap().inner(),
        uint(U256::from(2))
    );
    // 2^255 * 2 = 2^256 = 2^32 + 977 (mod p)
    let half = wide(U256::from(1) << 255);
    assert_eq!(
        half.add(&half).unwrap().inner(),
        uint((U256::from(1) << 32) + 977)
    );
    assert_eq!(
        half.mul(&wide(2.into())).unwrap().inner(),
        uint((U256::from(1) << 32) + 977)
    );
}

#[test]
fn unsigned_power_reduces_the_exponent_modulo_the_prime() {
    // 3^2 = 9
    assert_eq!(felt(3, 19).pow(2u32), felt(9, 19));
    // 2^10 = 1024 = 17 (mod 19)
    assert_eq!(felt(2, 19).pow(10u32), felt(17, 19));
    // the exponent 20 is taken as 20 mod 19 = 1
    assert_eq!(felt(2, 19).pow(20u32), felt(2, 19));
    // the exponent 19 is taken as 0
    assert_eq!(felt(2, 19).pow(19u32), felt(1, 19));
    assert_eq!(felt(0, 19).pow(19u32), felt(1, 19));
    assert_eq!(felt(5, 19).pow(0u32), felt(1, 19));
    assert_eq!(felt(0, 1).pow(0u32), felt(0, 1));
    // 7^4294967295 with a 256-bit prime: no reduction of the exponent
    let base = wide(7.into());
    let mut expected = wide(1.into());
    let mut square = base;
    for _ in 0..32 {
        expected = expected.mul(&square).unwrap();
        square = square.mul(&square).unwrap();
    }
    assert_eq!(base.pow(u32::MAX), expected);
}

#[test]
fn signed_power() {
    // 7^3 = 343 = 1 (mod 19)
    assert_eq!(felt(7, 19).pow(3i64), felt(1, 19));
    // a positive exponent is not reduced: 2^20 = 1048576 = 4 (mod 19)
    assert_eq!(felt(2, 19).pow(20i64), felt(4, 19));
    // 2^-1 = 2^17 = 10 (mod 19)
    assert_eq!(felt(2, 19).pow(-1i64), felt(10, 19));
    // 2^-3 = 2^15 = 12 (mod 19)
    assert_eq!(felt(2, 19).pow(-3i64), felt(12, 19));
    // exponent 0 is the power p - 1
    assert_eq!(felt(2, 19).pow(0i64), felt(1, 19));
    assert_eq!(felt(0, 19).pow(0i64), felt(0, 19));
    // exponent -(p - 1) is the power 0
    assert_eq!(felt(2, 19).pow(-18i64), felt(1, 19));
    assert_eq!(felt(0, 19).pow(-18i64), felt(1, 19));
    // the most negative exponent, in a field large enough for it
    let base = wide(3.into());
    let inverse = wide(1.into()).div(&base).unwrap();
    let mut expected = inverse;
    for _ in 0..63 {
        expected = expected.mul(&expected).unwrap();
    }
    assert_eq!(base.pow(i64::MIN), expected);
}

#[test]
fn field_axioms_on_small_values() {
    let prime = 23;
    for a in 0..prime {
        for b in 0..prime {
            let fa = felt(a, prime);
            let fb = felt(b, prime);
            assert_eq!(fa.add(&fb).unwrap(), fb.add(&fa).unwrap());
            assert_eq!(fa.mul(&fb).unwrap(), fb.mul(&fa).unwrap());
            assert_eq!(fa.add(&fb).unwrap().inner(), uint(((a + b) % prime).into()));
            assert_eq!(fa.mul(&fb).unwrap().inner(), uint(((a * b) % prime).into()));
            assert_eq!(
                fa.sub(&fb).unwrap().inner(),
                uint(((a + prime - b) % prime).into())
            );
            for c in [0, 1, 5, 22] {
                let fc = felt(c, prime);
                assert_eq!(
                    fa.add(&fb).unwrap().add(&fc).unwrap(),
                    fa.add(&fb.add(&fc).unwrap()).unwrap()
                );
                assert_eq!(
                    fa.mul(&fb.add(&fc).unwrap()).unwrap(),
                    fa.mul(&fb).unwrap().add(&fa.mul(&fc).unwrap()).unwrap()
                );
            }
        }
        if a != 0 {
            let fa = felt(a, prime);
            assert_eq!(fa.div(&fa).unwrap(), felt(1, prime));
        }
    }
}

#[test]
fn division_undoes_multiplication_in_a_large_field() {
    let a = wide(U256::from_dec_str("123456789012345678901234567890123456789").unwrap());
    let b = wide(secp_prime() - 12345);
    let product = a.mul(&b).unwrap();
    assert_eq!(product.div(&b).unwrap(), a);
    assert_eq!(b.div(&b).unwrap(), wide(1.into()));
}

#[test]
fn equality_compares_residues() {
    assert_eq!(felt(3, 19), felt(3, 19));
    assert_ne!(felt(3, 19), felt(4, 19));
    assert!(felt(0, 19).is_zero());
    assert!(!felt(1, 19).is_zero());
}

#[test]
fn display_of_large_values() {
    let element = wide(secp_prime() - 1);
    assert_eq!(
        element.to_string(),
        "Field Element: 115792089237316195423570985008687907853269984665640564039457584007908834671662 (115792089237316195423570985008687907853269984665640564039457584007908834671663)"
    );
    assert_eq!(felt(0, 7).to_string(), "Field Element: 0 (7)");
    assert_eq!(felt(10, 101).to_string(), "Field Element: 10 (101)");
}

#[test]
fn uint_from_u64_and_equality() {
    assert_eq!(Uint256::from_u64(0), Uint256([0, 0, 0, 0]));
    assert_eq!(Uint256::from_u64(u64::MAX), uint(U256::from(u64::MAX)));
    assert_ne!(Uint256([0, 1, 0, 0]), Uint256([0, 0, 1, 0]));
    assert_ne!(Uint256([0, 0, 0, 1]), Uint256([0, 0, 0, 0]));
}

#[test]
fn operators_agree_with_methods() {
    let a = felt(11, 19);
    let b = felt(17, 19);
    assert_eq!(a + b, a.add(&b));
    assert_eq!(a - b, a.sub(&b));
    assert_eq!(a * b, a.mul(&b));
    assert_eq!(a / b, a.div(&b));
    assert_eq!(a + felt(1, 23), Err(Error::CurveMismatch));
    assert_eq!(a / felt(0, 19), Err(Error::DivisionByZero));
}

#[test]
fn order_is_that_of_the_residues() {
    assert!(felt(3, 19) < felt(4, 19));
    assert!(felt(4, 19) > felt(3, 19));
    assert!(felt(4, 19) <= felt(4, 19));
    assert_eq!(
        felt(4, 19).partial_cmp(&felt(4, 19)),
        Some(std::cmp::Ordering::Equal)
    );
    assert_eq!(
        felt(0, 19).partial_cmp(&felt(18, 19)),
        Some(std::cmp::Ordering::Less)
    );
    assert_eq!(
        wide(secp_prime() - 1).partial_cmp(&wide(1.into())),
        Some(std::cmp::Ordering::Greater)
    );
}
