//! Arithmetic modulo a 256-bit number.
//!
//! Sums are reduced by comparison, products go through the full 512-bit
//! product, and powers are built from products by binary exponentiation, so
//! that no intermediate value is ever truncated.

use crate::uint::{
    u256_add, u256_bit, u256_bits, u256_full_mul, u256_lt, u256_rem, u256_sub,
    u256_try_from_u512, u512_from_u256, u512_rem, Uint256,
};
use vstd::arithmetic::div_mod::{
    lemma_basic_div, lemma_div_denominator, lemma_fundamental_div_mod, lemma_mod_bound,
    lemma_mod_multiples_vanish, lemma_mul_mod_noop, lemma_mul_mod_noop_left, lemma_small_mod,
};
use vstd::arithmetic::power::{lemma_pow0, lemma_pow1, lemma_pow_adds, pow};
use vstd::arithmetic::power2::{lemma2_to64, lemma_pow2_pos, lemma_pow2_unfold, pow2};
use vstd::prelude::*;

verus! {

/// `(a + b) mod m` for `a` and `b` already below `m`.
pub(crate) fn add_mod(a: &Uint256, b: &Uint256, m: &Uint256) -> (r: Uint256)
    requires
        a@ < m@,
        b@ < m@,
    ensures
        r@ == (a@ + b@) % m@,
{
    proof {
        m.lemma_bounded();
    }
    let room = u256_sub(m, b);
    if u256_lt(a, &room) {
        proof {
            lemma_small_mod(a@ + b@, m@);
        }
        u256_add(a, b)
    } else {
        proof {
            lemma_mod_multiples_vanish(-1, (a@ + b@) as int, m@ as int);
            lemma_small_mod((a@ + b@ - m@) as nat, m@);
        }
        u256_sub(a, &room)
    }
}

/// `(a - b) mod m` for `a` and `b` already below `m`, without ever going
/// below zero on the way.
pub(crate) fn sub_mod(a: &Uint256, b: &Uint256, m: &Uint256) -> (r: Uint256)
    requires
        a@ < m@,
        b@ < m@,
    ensures
        r@ == (a@ - b@) % (m@ as int),
{
    if u256_lt(a, b) {
        proof {
            lemma_mod_multiples_vanish(1, a@ - b@, m@ as int);
            lemma_small_mod((a@ - b@ + m@) as nat, m@);
        }
        let gap = u256_sub(b, a);
        u256_sub(m, &gap)
    } else {
        proof {
            lemma_small_mod((a@ - b@) as nat, m@);
        }
        u256_sub(a, b)
    }
}

/// `(a * b) mod m`, through the full product.
pub(crate) fn mul_mod(a: &Uint256, b: &Uint256, m: &Uint256) -> (r: Uint256)
    requires
        m@ > 0,
    ensures
        r@ == (a@ * b@) % m@,
{
    let product = u256_full_mul(a, b);
    let modulus = u512_from_u256(m);
    let reduced = u512_rem(&product, &modulus);
    proof {
        m.lemma_bounded();
        lemma_mod_bound((a@ * b@) as int, m@ as int);
    }
    u256_try_from_u512(&reduced).unwrap()
}

/// Dropping one more low bit halves the quotient: the step that binary
/// exponentiation takes from bit `i + 1` down to bit `i`.
proof fn lemma_next_bit(x: nat, i: nat)
    ensures
        x / pow2(i) == 2 * (x / pow2(i + 1)) + (x / pow2(i)) % 2,
{
    lemma_pow2_pos(i);
    lemma_pow2_unfold(i + 1);
    lemma_div_denominator(x as int, pow2(i) as int, 2);
    lemma_fundamental_div_mod((x / pow2(i)) as int, 2);
}

/// Squaring a power, and multiplying once more by the base when `bit` is
/// set, keeps the residue in step with the doubled exponent.
proof fn lemma_pow_step(base: int, q: nat, bit: bool, m: int)
    requires
        m > 0,
    ensures
        ({
            let square = ((pow(base, q) % m) * (pow(base, q) % m)) % m;
            let next = if bit {
                (square * base) % m
            } else {
                square
            };
            next == pow(base, 2 * q + if bit { 1nat } else { 0nat }) % m
        }),
{
    let p = pow(base, q);
    lemma_mul_mod_noop(p, p, m);
    lemma_pow_adds(base, q, q);
    assert(pow(base, 2 * q) == p * p);
    if bit {
        lemma_pow_adds(base, 2 * q, 1);
        lemma_pow1(base);
        lemma_mul_mod_noop_left(p * p, base, m);
    }
}

/// `base^exp mod m`, by binary exponentiation from the top bit of `exp`
/// down.
pub(crate) fn pow_mod(base: &Uint256, exp: &Uint256, m: &Uint256) -> (r: Uint256)
    requires
        m@ > 0,
    ensures
        r@ == pow(base@ as int, exp@) % (m@ as int),
{
    let one = Uint256::from_u64(1);
    let mut acc = u256_rem(&one, m);
    let width = u256_bits(exp);
    let mut i = width;
    proof {
        lemma_pow2_pos(width as nat);
        lemma_basic_div(exp@ as int, pow2(width as nat) as int);
        lemma_pow0(base@ as int);
    }
    while i > 0
        invariant
            i <= width <= 256,
            m@ > 0,
            acc@ == pow(base@ as int, exp@ / pow2(i as nat)) % (m@ as int),
        decreases i,
    {
        i = i - 1;
        let ghost q = exp@ / pow2((i + 1) as nat);
        let square = mul_mod(&acc, &acc, m);
        let bit = u256_bit(exp, i);
        if bit {
            acc = mul_mod(&square, base, m);
        } else {
            acc = square;
        }
        proof {
            lemma_next_bit(exp@, i as nat);
            lemma_pow_step(base@ as int, q, bit, m@ as int);
        }
    }
    proof {
        lemma2_to64();
        assert(pow2(i as nat) == 1);
    }
    acc
}

} // verus!
