//! Elements of a prime field.
//!
//! A [`Felt`] is a residue together with the modulus of its field. Every
//! operation checks that its operands share a modulus and returns a new
//! element; nothing is ever changed in place.

pub mod congruence;
pub mod laws;
pub mod modulo;
pub mod ops;
pub mod order;
pub mod pow;
pub mod prime;

use crate::error::Error;
use crate::finite_fields::modulo::{add_mod, mul_mod, pow_mod, sub_mod};
use crate::finite_fields::pow::Pow;
use crate::uint::{decimal, u256_lt, u256_rem, u256_sub, u256_to_string, Uint256};
use vstd::arithmetic::div_mod::{lemma_mod_bound, lemma_mul_mod_noop_right};
use vstd::arithmetic::power::pow;
use vstd::prelude::*;
use vstd::std_specs::cmp::PartialEqSpecImpl;
use vstd::string::StringExecFns;

verus! {

/// What a [`Felt`] stands for: the residue `inner` in the integers modulo
/// `prime`.
pub struct FeltView {
    pub inner: nat,
    pub prime: nat,
}

impl FeltView {
    /// The residue is reduced: it lies below the modulus.
    pub open spec fn wf(self) -> bool {
        self.inner < self.prime
    }

    /// The element of the same field with residue `value mod prime`.
    pub open spec fn reduce(self, value: int) -> FeltView {
        FeltView { inner: (value % (self.prime as int)) as nat, prime: self.prime }
    }

    /// The sum `(a + b) mod p`.
    pub open spec fn add(self, rhs: FeltView) -> FeltView {
        self.reduce((self.inner + rhs.inner) as int)
    }

    /// The difference `(a - b) mod p`, which is `p - (b - a)` when `a < b`.
    pub open spec fn sub(self, rhs: FeltView) -> FeltView {
        self.reduce(self.inner - rhs.inner)
    }

    /// The product `(a * b) mod p`.
    pub open spec fn mul(self, rhs: FeltView) -> FeltView {
        self.reduce((self.inner * rhs.inner) as int)
    }

    /// The quotient `a * b^(p - 2) mod p`.
    pub open spec fn div(self, rhs: FeltView) -> FeltView {
        self.reduce(self.inner * pow(rhs.inner as int, (self.prime - 2) as nat))
    }

    /// The power `a^(e mod p) mod p`.
    pub open spec fn pow_unsigned(self, exponent: nat) -> FeltView {
        self.reduce(pow(self.inner as int, exponent % self.prime))
    }

    /// The power `a^e mod p` for a positive `e`, and `a^(p - 1 - |e|) mod p`
    /// for any other.
    pub open spec fn pow_signed(self, exponent: int) -> FeltView {
        if exponent > 0 {
            self.reduce(pow(self.inner as int, exponent as nat))
        } else {
            self.reduce(pow(self.inner as int, (self.prime - 1 + exponent) as nat))
        }
    }
}

/// An element of the field of integers modulo `prime`.
#[derive(Clone, Copy, Debug)]
pub struct Felt {
    inner: Uint256,
    prime: Uint256,
}

impl View for Felt {
    type V = FeltView;

    closed spec fn view(&self) -> FeltView {
        FeltView { inner: self.inner@, prime: self.prime@ }
    }
}

impl Felt {
    /// Every element that exists is reduced.
    #[verifier::type_invariant]
    pub open spec fn inv(self) -> bool {
        self@.wf()
    }

    /// The element with residue `inner` in the field of modulus `prime`.
    /// A residue that is not below the modulus is refused.
    pub fn new(inner: Uint256, prime: Uint256) -> (r: Result<Felt, Error>)
        ensures
            inner@ < prime@ ==> r is Ok && r->Ok_0@ == (FeltView { inner: inner@, prime: prime@ }),
            inner@ >= prime@ ==> r == Err::<Felt, Error>(Error::InvalidElement),
    {
        if u256_lt(&inner, &prime) {
            Ok(Felt { inner, prime })
        } else {
            Err(Error::InvalidElement)
        }
    }

    /// The residue.
    pub fn inner(&self) -> (r: Uint256)
        ensures
            r@ == self@.inner,
            self@.wf(),
    {
        proof {
            use_type_invariant(self);
        }
        self.inner
    }

    /// The modulus of the field.
    pub fn prime(&self) -> (r: Uint256)
        ensures
            r@ == self@.prime,
            self@.wf(),
    {
        proof {
            use_type_invariant(self);
        }
        self.prime
    }

    /// Whether this is the zero of its field.
    pub fn is_zero(&self) -> (r: bool)
        ensures
            r == (self@.inner == 0),
    {
        self.inner == Uint256::from_u64(0)
    }

    /// Whether `other` lies in the same field.
    pub fn same_field(&self, other: &Felt) -> (r: bool)
        ensures
            r == (self@.prime == other@.prime),
    {
        self.prime == other.prime
    }

    /// The sum of two elements of one field.
    pub fn add(&self, rhs: &Felt) -> (r: Result<Felt, Error>)
        ensures
            self@.prime == rhs@.prime ==> r is Ok && r->Ok_0@ == self@.add(rhs@),
            self@.prime != rhs@.prime ==> r == Err::<Felt, Error>(Error::CurveMismatch),
    {
        proof {
            use_type_invariant(self);
            use_type_invariant(rhs);
        }
        if !self.same_field(rhs) {
            return Err(Error::CurveMismatch);
        }
        let inner = add_mod(&self.inner, &rhs.inner, &self.prime);
        proof {
            lemma_mod_bound((self.inner@ + rhs.inner@) as int, self.prime@ as int);
        }
        Ok(Felt { inner, prime: self.prime })
    }

    /// The difference of two elements of one field.
    pub fn sub(&self, rhs: &Felt) -> (r: Result<Felt, Error>)
        ensures
            self@.prime == rhs@.prime ==> r is Ok && r->Ok_0@ == self@.sub(rhs@),
            self@.prime != rhs@.prime ==> r == Err::<Felt, Error>(Error::CurveMismatch),
    {
        proof {
            use_type_invariant(self);
            use_type_invariant(rhs);
        }
        if !self.same_field(rhs) {
            return Err(Error::CurveMismatch);
        }
        let inner = sub_mod(&self.inner, &rhs.inner, &self.prime);
        proof {
            lemma_mod_bound(self.inner@ - rhs.inner@, self.prime@ as int);
        }
        Ok(Felt { inner, prime: self.prime })
    }

    /// The product of two elements of one field.
    pub fn mul(&self, rhs: &Felt) -> (r: Result<Felt, Error>)
        ensures
            self@.prime == rhs@.prime ==> r is Ok && r->Ok_0@ == self@.mul(rhs@),
            self@.prime != rhs@.prime ==> r == Err::<Felt, Error>(Error::CurveMismatch),
    {
        proof {
            use_type_invariant(self);
            use_type_invariant(rhs);
        }
        if !self.same_field(rhs) {
            return Err(Error::CurveMismatch);
        }
        let inner = mul_mod(&self.inner, &rhs.inner, &self.prime);
        proof {
            lemma_mod_bound((self.inner@ * rhs.inner@) as int, self.prime@ as int);
        }
        Ok(Felt { inner, prime: self.prime })
    }

    /// The quotient of two elements of one field: the dividend times the
    /// `(p - 2)`-th power of the divisor, which in a field of prime order is
    /// its inverse. Zero has no inverse, so a zero divisor is refused rather
    /// than answered with the zero that the formula would give.
    pub fn div(&self, rhs: &Felt) -> (r: Result<Felt, Error>)
        ensures
            self@.prime == rhs@.prime && rhs@.inner != 0 ==> r is Ok && r->Ok_0@ == self@.div(
                rhs@,
            ),
            self@.prime == rhs@.prime && rhs@.inner == 0 ==> r == Err::<Felt, Error>(
                Error::DivisionByZero,
            ),
            self@.prime != rhs@.prime ==> r == Err::<Felt, Error>(Error::CurveMismatch),
    {
        proof {
            use_type_invariant(self);
            use_type_invariant(rhs);
        }
        if !self.same_field(rhs) {
            return Err(Error::CurveMismatch);
        }
        if rhs.is_zero() {
            return Err(Error::DivisionByZero);
        }
        let two = Uint256::from_u64(2);
        let exponent = u256_sub(&self.prime, &two);
        let inverse = pow_mod(&rhs.inner, &exponent, &self.prime);
        let inner = mul_mod(&self.inner, &inverse, &self.prime);
        proof {
            let p = self.prime@ as int;
            let power = pow(rhs.inner@ as int, exponent@);
            lemma_mul_mod_noop_right(self.inner@ as int, power, p);
            lemma_mod_bound(self.inner@ * power, p);
        }
        Ok(Felt { inner, prime: self.prime })
    }

    /// The text `Field Element: <inner> (<prime>)`, both numbers in decimal.
    pub fn to_string(&self) -> (r: String)
        ensures
            r@ == "Field Element: "@ + decimal(self@.inner) + " ("@ + decimal(self@.prime) + ")"@,
    {
        let inner = u256_to_string(&self.inner);
        let prime = u256_to_string(&self.prime);
        let mut text = String::from_str("Field Element: ");
        text.append(inner.as_str());
        text.append(" (");
        text.append(prime.as_str());
        text.append(")");
        text
    }
}

impl PartialEq for Felt {
    /// Two elements are equal when their residues are.
    fn eq(&self, other: &Self) -> (r: bool) {
        self.inner == other.inner
    }
}

impl PartialEqSpecImpl for Felt {
    open spec fn obeys_eq_spec() -> bool {
        true
    }

    open spec fn eq_spec(&self, other: &Self) -> bool {
        self@.inner == other@.inner
    }
}

impl Pow<u32> for Felt {
    open spec fn pow_requires(&self, exponent: u32) -> bool {
        true
    }

    open spec fn pow_ensures(&self, exponent: u32, result: Felt) -> bool {
        result@ == self@.pow_unsigned(exponent as nat)
    }

    /// `self` raised to `exponent`, the exponent taken modulo the prime
    /// first.
    fn pow(&self, exponent: u32) -> (result: Felt) {
        proof {
            use_type_invariant(self);
        }
        let wide = Uint256::from_u64(exponent as u64);
        let reduced = u256_rem(&wide, &self.prime);
        let inner = pow_mod(&self.inner, &reduced, &self.prime);
        proof {
            lemma_mod_bound(pow(self.inner@ as int, reduced@), self.prime@ as int);
        }
        Felt { inner, prime: self.prime }
    }
}

impl Pow<i64> for Felt {
    /// A negative exponent must not reach past `p - 1`.
    open spec fn pow_requires(&self, exponent: i64) -> bool {
        exponent <= 0 ==> -exponent <= self@.prime - 1
    }

    open spec fn pow_ensures(&self, exponent: i64, result: Felt) -> bool {
        result@ == self@.pow_signed(exponent as int)
    }

    /// `self` raised to `exponent`. For an exponent that is not positive the
    /// result is the power `p - 1 - |exponent|`, which for a nonzero base
    /// in a field of prime order is the inverse raised to `|exponent|`.
    fn pow(&self, exponent: i64) -> (result: Felt) {
        proof {
            use_type_invariant(self);
        }
        let power = if exponent > 0 {
            Uint256::from_u64(exponent as u64)
        } else {
            let magnitude: u64 = if exponent == i64::MIN {
                0x8000_0000_0000_0000u64
            } else {
                (-exponent) as u64
            };
            let one = Uint256::from_u64(1);
            let top = u256_sub(&self.prime, &one);
            u256_sub(&top, &Uint256::from_u64(magnitude))
        };
        let inner = pow_mod(&self.inner, &power, &self.prime);
        proof {
            lemma_mod_bound(pow(self.inner@ as int, power@), self.prime@ as int);
        }
        Felt { inner, prime: self.prime }
    }
}

} // verus!
