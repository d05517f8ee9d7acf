//! Fixed-width unsigned integers.
//!
//! A [`Uint256`] keeps its four 64-bit words in the open, least significant
//! first, so that specifications can speak of the number the words denote.
//! The arithmetic itself is done by `primitive_types`; every call into it
//! sits in one of the small functions at the end of this file, whose
//! contracts are taken on trust.

use vstd::arithmetic::power2::pow2;
use vstd::prelude::*;
use vstd::std_specs::cmp::PartialEqSpecImpl;

verus! {

/// 2^256, one more than the largest [`Uint256`].
pub open spec fn limit_256() -> nat {
    0x1_0000_0000_0000_0000_0000_0000_0000_0000_0000_0000_0000_0000_0000_0000_0000_0000nat
}

/// A 256-bit unsigned integer, as four little-endian 64-bit words.
#[derive(Clone, Copy, Debug)]
pub struct Uint256(pub [u64; 4]);

/// A 512-bit unsigned integer, as eight little-endian 64-bit words. It holds
/// the full product of two [`Uint256`] values before reduction.
#[derive(Clone, Copy, Debug)]
pub struct Uint512(pub [u64; 8]);

impl View for Uint256 {
    type V = nat;

    /// The number the four words denote.
    open spec fn view(&self) -> nat {
        (self.0[0] as nat) + (self.0[1] as nat) * 0x1_0000_0000_0000_0000nat + (self.0[2] as nat)
            * 0x1_0000_0000_0000_0000_0000_0000_0000_0000nat + (self.0[3] as nat)
            * 0x1_0000_0000_0000_0000_0000_0000_0000_0000_0000_0000_0000_0000nat
    }
}

impl View for Uint512 {
    type V = nat;

    /// The number the eight words denote.
    open spec fn view(&self) -> nat {
        (self.0[0] as nat) + (self.0[1] as nat) * 0x1_0000_0000_0000_0000nat + (self.0[2] as nat)
            * 0x1_0000_0000_0000_0000_0000_0000_0000_0000nat + (self.0[3] as nat)
            * 0x1_0000_0000_0000_0000_0000_0000_0000_0000_0000_0000_0000_0000nat + (
        self.0[4] as nat) * limit_256() + (self.0[5] as nat) * 0x1_0000_0000_0000_0000nat
            * limit_256() + (self.0[6] as nat) * 0x1_0000_0000_0000_0000_0000_0000_0000_0000nat
            * limit_256() + (self.0[7] as nat)
            * 0x1_0000_0000_0000_0000_0000_0000_0000_0000_0000_0000_0000_0000nat * limit_256()
    }
}

impl Uint256 {
    /// The integer `value`, widened to 256 bits.
    pub fn from_u64(value: u64) -> (r: Uint256)
        ensures
            r@ == value,
    {
        Uint256([value, 0, 0, 0])
    }

    /// Every value lies below 2^256.
    pub proof fn lemma_bounded(self)
        ensures
            self@ < limit_256(),
    {
    }

    /// Two values hold the same words exactly when they denote the same
    /// number.
    pub proof fn lemma_view_injective(self, other: Uint256)
        ensures
            (self@ == other@) <==> self == other,
    {
        if self@ == other@ {
            assert(self.0[0] == other.0[0]);
            assert(self.0[1] == other.0[1]);
            assert(self.0[2] == other.0[2]);
            assert(self.0[3] == other.0[3]);
            assert(self.0 =~= other.0);
        }
    }
}

impl PartialEq for Uint256 {
    fn eq(&self, other: &Self) -> (r: bool) {
        proof {
            self.lemma_view_injective(*other);
        }
        self.0[0] == other.0[0] && self.0[1] == other.0[1] && self.0[2] == other.0[2] && self.0[3]
            == other.0[3]
    }
}

impl Eq for Uint256 {

}

impl PartialEqSpecImpl for Uint256 {
    open spec fn obeys_eq_spec() -> bool {
        true
    }

    /// `==` compares the numbers.
    open spec fn eq_spec(&self, other: &Self) -> bool {
        self@ == other@
    }
}

/// The decimal digit for `d`, which is below ten.
pub open spec fn digit_char(d: nat) -> char {
    if d == 0 {
        '0'
    } else if d == 1 {
        '1'
    } else if d == 2 {
        '2'
    } else if d == 3 {
        '3'
    } else if d == 4 {
        '4'
    } else if d == 5 {
        '5'
    } else if d == 6 {
        '6'
    } else if d == 7 {
        '7'
    } else if d == 8 {
        '8'
    } else {
        '9'
    }
}

/// The decimal numeral of `n`: most significant digit first, no leading zero,
/// and `"0"` for zero.
pub open spec fn decimal(n: nat) -> Seq<char>
    decreases n,
{
    if n < 10 {
        seq![digit_char(n)]
    } else {
        decimal(n / 10).push(digit_char(n % 10))
    }
}

/// `U256`'s `<`: compares the two numbers.
#[verifier::external_body]
pub(crate) fn u256_lt(a: &Uint256, b: &Uint256) -> (r: bool)
    ensures
        r == (a@ < b@),
{
    primitive_types::U256(a.0) < primitive_types::U256(b.0)
}

/// `U256`'s `+`, which panics when the sum does not fit: the sum of the two
/// numbers, for operands whose sum stays below 2^256.
#[verifier::external_body]
pub(crate) fn u256_add(a: &Uint256, b: &Uint256) -> (r: Uint256)
    requires
        a@ + b@ < limit_256(),
    ensures
        r@ == a@ + b@,
{
    Uint256((primitive_types::U256(a.0) + primitive_types::U256(b.0)).0)
}

/// `U256`'s `-`, which panics below zero: the difference of the two numbers,
/// for a subtrahend no larger than the minuend.
#[verifier::external_body]
pub(crate) fn u256_sub(a: &Uint256, b: &Uint256) -> (r: Uint256)
    requires
        b@ <= a@,
    ensures
        r@ == a@ - b@,
{
    Uint256((primitive_types::U256(a.0) - primitive_types::U256(b.0)).0)
}

/// `U256`'s `%`, which panics on a zero divisor: the remainder of `a` divided
/// by a nonzero `m`.
#[verifier::external_body]
pub(crate) fn u256_rem(a: &Uint256, m: &Uint256) -> (r: Uint256)
    requires
        m@ > 0,
    ensures
        r@ == a@ % m@,
{
    Uint256((primitive_types::U256(a.0) % primitive_types::U256(m.0)).0)
}

/// `U256::full_mul`: the product of the two numbers in full width, which
/// cannot overflow.
#[verifier::external_body]
pub(crate) fn u256_full_mul(a: &Uint256, b: &Uint256) -> (r: Uint512)
    ensures
        r@ == a@ * b@,
{
    Uint512(primitive_types::U256(a.0).full_mul(primitive_types::U256(b.0)).0)
}

/// `U512`'s `%`, which panics on a zero divisor: the remainder of `a` divided
/// by a nonzero `m`.
#[verifier::external_body]
pub(crate) fn u512_rem(a: &Uint512, m: &Uint512) -> (r: Uint512)
    requires
        m@ > 0,
    ensures
        r@ == a@ % m@,
{
    Uint512((primitive_types::U512(a.0) % primitive_types::U512(m.0)).0)
}

/// `U512::from(U256)`: the same number in the wider type.
#[verifier::external_body]
pub(crate) fn u512_from_u256(a: &Uint256) -> (r: Uint512)
    ensures
        r@ == a@,
{
    Uint512(primitive_types::U512::from(primitive_types::U256(a.0)).0)
}

/// `U256::try_from(U512)`: the same number in the narrower type when it lies
/// below 2^256, and nothing when it does not.
#[verifier::external_body]
pub(crate) fn u256_try_from_u512(a: &Uint512) -> (r: Option<Uint256>)
    ensures
        a@ < limit_256() ==> r is Some && r->0@ == a@,
        a@ >= limit_256() ==> r is None,
{
    match primitive_types::U256::try_from(primitive_types::U512(a.0)) {
        Ok(narrow) => Some(Uint256(narrow.0)),
        Err(_) => None,
    }
}

/// `U256::bit`, which panics past the last bit: whether bit `index` of the
/// number is set, bit 0 being the least significant.
#[verifier::external_body]
pub(crate) fn u256_bit(a: &Uint256, index: usize) -> (r: bool)
    requires
        index < 256,
    ensures
        r == ((a@ / pow2(index as nat)) % 2 == 1),
{
    primitive_types::U256(a.0).bit(index)
}

/// `U256::bits`: the least number of bits that can hold the number, which is
/// zero for zero.
#[verifier::external_body]
pub(crate) fn u256_bits(a: &Uint256) -> (r: usize)
    ensures
        r <= 256,
        a@ < pow2(r as nat),
        r > 0 ==> pow2((r - 1) as nat) <= a@,
{
    primitive_types::U256(a.0).bits()
}

/// `U256`'s `Display`: the decimal numeral of the number.
#[verifier::external_body]
pub(crate) fn u256_to_string(a: &Uint256) -> (r: String)
    ensures
        r@ == decimal(a@),
{
    format!("{}", primitive_types::U256(a.0))
}

} // verus!
