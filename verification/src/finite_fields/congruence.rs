//! Congruence modulo `m`, and how it gets along with sums, differences and
//! products.

use crate::finite_fields::prime::lemma_congruent_from_difference;
use vstd::arithmetic::div_mod::{
    lemma_add_mod_noop, lemma_fundamental_div_mod, lemma_mod_multiples_basic,
    lemma_mul_mod_noop_left, lemma_mul_mod_noop_right, lemma_small_mod, lemma_sub_mod_noop,
};
use vstd::prelude::*;

verus! {

/// `a` and `b` differ by a multiple of `m`.
pub open spec fn congruent(a: int, b: int, m: int) -> bool {
    (a - b) % m == 0
}

/// Congruence is reflexive.
pub proof fn lemma_congruent_reflexive(a: int, m: int)
    requires
        m > 0,
    ensures
        congruent(a, a, m),
{
    lemma_small_mod(0, m as nat);
}

/// Congruence is symmetric.
pub proof fn lemma_congruent_symmetric(a: int, b: int, m: int)
    requires
        m > 0,
        congruent(a, b, m),
    ensures
        congruent(b, a, m),
{
    lemma_sub_mod_noop(0, a - b, m);
    lemma_small_mod(0, m as nat);
}

/// Congruence is transitive.
pub proof fn lemma_congruent_transitive(a: int, b: int, c: int, m: int)
    requires
        m > 0,
        congruent(a, b, m),
        congruent(b, c, m),
    ensures
        congruent(a, c, m),
{
    lemma_add_mod_noop(a - b, b - c, m);
    lemma_small_mod(0, m as nat);
}

/// A remainder is congruent to what it is the remainder of.
pub proof fn lemma_congruent_mod(a: int, m: int)
    requires
        m > 0,
    ensures
        congruent(a % m, a, m),
        congruent(a, a % m, m),
{
    lemma_fundamental_div_mod(a, m);
    lemma_mod_multiples_basic(a / m, m);
    assert(a - a % m == (a / m) * m) by (nonlinear_arith)
        requires
            a == m * (a / m) + a % m,
    ;
    lemma_congruent_symmetric(a, a % m, m);
}

/// Two congruent numbers in the range of remainders are equal.
pub proof fn lemma_congruent_residues_equal(a: int, b: int, m: int)
    requires
        m > 0,
        0 <= a < m,
        0 <= b < m,
        congruent(a, b, m),
    ensures
        a == b,
{
    lemma_congruent_from_difference(a, b, m);
    lemma_small_mod(a as nat, m as nat);
    lemma_small_mod(b as nat, m as nat);
}

/// Sums of congruent numbers are congruent.
pub proof fn lemma_congruent_add(a: int, b: int, c: int, d: int, m: int)
    requires
        m > 0,
        congruent(a, b, m),
        congruent(c, d, m),
    ensures
        congruent(a + c, b + d, m),
{
    lemma_add_mod_noop(a - b, c - d, m);
    lemma_small_mod(0, m as nat);
}

/// Differences of congruent numbers are congruent.
pub proof fn lemma_congruent_sub(a: int, b: int, c: int, d: int, m: int)
    requires
        m > 0,
        congruent(a, b, m),
        congruent(c, d, m),
    ensures
        congruent(a - c, b - d, m),
{
    lemma_sub_mod_noop(a - b, c - d, m);
    lemma_small_mod(0, m as nat);
}

/// Products of congruent numbers are congruent.
pub proof fn lemma_congruent_mul(a: int, b: int, c: int, d: int, m: int)
    requires
        m > 0,
        congruent(a, b, m),
        congruent(c, d, m),
    ensures
        congruent(a * c, b * d, m),
{
    lemma_mul_mod_noop_left(a - b, c, m);
    lemma_mul_mod_noop_right(b, c - d, m);
    assert(0 * c == 0);
    assert(b * 0 == 0);
    lemma_small_mod(0, m as nat);
    lemma_add_mod_noop((a - b) * c, b * (c - d), m);
    assert(a * c - b * d == (a - b) * c + b * (c - d)) by (nonlinear_arith);
}

/// A multiple of something congruent to zero is congruent to zero.
pub proof fn lemma_congruent_zero_multiple(a: int, k: int, m: int)
    requires
        m > 0,
        congruent(a, 0, m),
    ensures
        congruent(k * a, 0, m),
        congruent(a * k, 0, m),
{
    lemma_mul_mod_noop_right(k, a, m);
    lemma_mul_mod_noop_left(a, k, m);
    assert(k * 0 == 0);
    assert(0 * k == 0);
    lemma_small_mod(0, m as nat);
}

} // verus!
