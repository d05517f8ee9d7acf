//! The laws of field arithmetic, stated over what field elements stand for.

use crate::finite_fields::congruence::{
    congruent, lemma_congruent_add, lemma_congruent_mod, lemma_congruent_mul, lemma_congruent_sub,
    lemma_congruent_transitive,
};
use crate::finite_fields::prime::{is_prime, lemma_fermat};
use crate::finite_fields::FeltView;
use vstd::arithmetic::div_mod::{
    lemma_add_mod_noop, lemma_mod_bound, lemma_mul_mod_noop, lemma_mul_mod_noop_left,
    lemma_mul_mod_noop_right, lemma_small_mod,
};
use vstd::arithmetic::power::{lemma_pow1, lemma_pow_adds, pow};
use vstd::prelude::*;

verus! {

/// The one of the field of `a`.
pub open spec fn one_of(a: FeltView) -> FeltView {
    FeltView { inner: 1, prime: a.prime }
}

/// Addition is commutative: `a + b = b + a`.
pub proof fn lemma_add_commutative(a: FeltView, b: FeltView)
    requires
        a.wf(),
        b.wf(),
        a.prime == b.prime,
    ensures
        a.add(b) == b.add(a),
{
}

/// Addition is associative: `(a + b) + c = a + (b + c)`.
pub proof fn lemma_add_associative(a: FeltView, b: FeltView, c: FeltView)
    requires
        a.wf(),
        b.wf(),
        c.wf(),
        a.prime == b.prime,
        b.prime == c.prime,
    ensures
        a.add(b).add(c) == a.add(b.add(c)),
{
    let p = a.prime as int;
    let (x, y, z) = (a.inner as int, b.inner as int, c.inner as int);
    lemma_add_mod_noop(x + y, z, p);
    lemma_add_mod_noop(x, y + z, p);
    lemma_small_mod(a.inner, a.prime);
    lemma_small_mod(c.inner, a.prime);
}

/// Multiplication is commutative: `a * b = b * a`.
pub proof fn lemma_mul_commutative(a: FeltView, b: FeltView)
    requires
        a.wf(),
        b.wf(),
        a.prime == b.prime,
    ensures
        a.mul(b) == b.mul(a),
{
    assert(a.inner * b.inner == b.inner * a.inner) by (nonlinear_arith);
}

/// Multiplication is associative: `(a * b) * c = a * (b * c)`.
pub proof fn lemma_mul_associative(a: FeltView, b: FeltView, c: FeltView)
    requires
        a.wf(),
        b.wf(),
        c.wf(),
        a.prime == b.prime,
        b.prime == c.prime,
    ensures
        a.mul(b).mul(c) == a.mul(b.mul(c)),
{
    let p = a.prime as int;
    let (x, y, z) = (a.inner as int, b.inner as int, c.inner as int);
    lemma_mul_mod_noop_left(x * y, z, p);
    lemma_mul_mod_noop_right(x, y * z, p);
    assert((x * y) * z == x * (y * z)) by (nonlinear_arith);
}

/// Multiplication distributes over addition: `a * (b + c) = a*b + a*c`.
pub proof fn lemma_mul_distributes(a: FeltView, b: FeltView, c: FeltView)
    requires
        a.wf(),
        b.wf(),
        c.wf(),
        a.prime == b.prime,
        b.prime == c.prime,
    ensures
        a.mul(b.add(c)) == a.mul(b).add(a.mul(c)),
{
    let p = a.prime as int;
    let (x, y, z) = (a.inner as int, b.inner as int, c.inner as int);
    lemma_mul_mod_noop_right(x, y + z, p);
    lemma_add_mod_noop(x * y, x * z, p);
    assert(x * (y + z) == x * y + x * z) by (nonlinear_arith);
}

/// In a field of prime order, a nonzero element divided by itself is one.
pub proof fn lemma_div_self(a: FeltView)
    requires
        a.wf(),
        is_prime(a.prime),
        a.inner != 0,
    ensures
        a.div(a) == one_of(a),
{
    let x = a.inner as int;
    let e = (a.prime - 2) as nat;
    lemma_small_mod(a.inner, a.prime);
    lemma_fermat(x, a.prime);
    lemma_pow_adds(x, 1, e);
    lemma_pow1(x);
}

/// In a field of prime order, division by a nonzero element undoes
/// multiplication by it: `(a / b) * b = a`.
pub proof fn lemma_div_then_mul(a: FeltView, b: FeltView)
    requires
        a.wf(),
        b.wf(),
        a.prime == b.prime,
        is_prime(a.prime),
        b.inner != 0,
    ensures
        a.div(b).mul(b) == a,
{
    let p = a.prime as int;
    let (x, y) = (a.inner as int, b.inner as int);
    let e = (a.prime - 2) as nat;
    let inverse = pow(y, e);
    lemma_small_mod(b.inner, a.prime);
    lemma_small_mod(a.inner, a.prime);
    lemma_fermat(y, a.prime);
    lemma_pow_adds(y, e, 1);
    lemma_pow1(y);
    assert((inverse * y) % p == 1) by {
        assert(pow(y, (e + 1) as nat) == inverse * y);
    }
    lemma_mul_mod_noop_left(x * inverse, y, p);
    assert((x * inverse) * y == x * (inverse * y)) by (nonlinear_arith);
    lemma_mul_mod_noop_right(x, inverse * y, p);
    assert(x * 1 == x);
}

/// Raising a nonzero element to the power `-1` gives what dividing one by it
/// gives.
pub proof fn lemma_pow_minus_one(a: FeltView)
    requires
        a.wf(),
        a.prime >= 2,
    ensures
        a.pow_signed(-1) == one_of(a).div(a),
{
    assert(1 * pow(a.inner as int, (a.prime - 2) as nat) == pow(
        a.inner as int,
        (a.prime - 2) as nat,
    ));
}

/// In a field of prime order, a nonzero element raised to `-e` is the
/// inverse of the element raised to `e`, for every `e` from one to `p - 1`.
pub proof fn lemma_pow_negative_inverts(a: FeltView, e: nat)
    requires
        a.wf(),
        is_prime(a.prime),
        a.inner != 0,
        1 <= e <= a.prime - 1,
    ensures
        a.pow_signed(-(e as int)).mul(a.pow_signed(e as int)) == one_of(a),
{
    let p = a.prime as int;
    let x = a.inner as int;
    let rest = (a.prime - 1 - e) as nat;
    lemma_small_mod(a.inner, a.prime);
    lemma_fermat(x, a.prime);
    lemma_pow_adds(x, rest, e);
    lemma_mul_mod_noop(pow(x, rest), pow(x, e), p);
}

/// The residue of a sum is congruent to the sum of whatever the residues of
/// the summands are congruent to.
pub proof fn lemma_add_congruent(a: FeltView, b: FeltView, x: int, y: int)
    requires
        a.prime > 0,
        a.prime == b.prime,
        congruent(a.inner as int, x, a.prime as int),
        congruent(b.inner as int, y, a.prime as int),
    ensures
        a.add(b).wf(),
        a.add(b).prime == a.prime,
        congruent(a.add(b).inner as int, x + y, a.prime as int),
{
    let p = a.prime as int;
    lemma_mod_bound((a.inner + b.inner) as int, p);
    lemma_congruent_mod((a.inner + b.inner) as int, p);
    lemma_congruent_add(a.inner as int, x, b.inner as int, y, p);
    lemma_congruent_transitive(a.add(b).inner as int, (a.inner + b.inner) as int, x + y, p);
}

/// The residue of a difference is congruent to the difference of whatever
/// the residues of the operands are congruent to.
pub proof fn lemma_sub_congruent(a: FeltView, b: FeltView, x: int, y: int)
    requires
        a.prime > 0,
        a.prime == b.prime,
        congruent(a.inner as int, x, a.prime as int),
        congruent(b.inner as int, y, a.prime as int),
    ensures
        a.sub(b).wf(),
        a.sub(b).prime == a.prime,
        congruent(a.sub(b).inner as int, x - y, a.prime as int),
{
    let p = a.prime as int;
    lemma_mod_bound(a.inner - b.inner, p);
    lemma_congruent_mod(a.inner - b.inner, p);
    lemma_congruent_sub(a.inner as int, x, b.inner as int, y, p);
    lemma_congruent_transitive(a.sub(b).inner as int, a.inner - b.inner, x - y, p);
}

/// The residue of a product is congruent to the product of whatever the
/// residues of the factors are congruent to.
pub proof fn lemma_mul_congruent(a: FeltView, b: FeltView, x: int, y: int)
    requires
        a.prime > 0,
        a.prime == b.prime,
        congruent(a.inner as int, x, a.prime as int),
        congruent(b.inner as int, y, a.prime as int),
    ensures
        a.mul(b).wf(),
        a.mul(b).prime == a.prime,
        congruent(a.mul(b).inner as int, x * y, a.prime as int),
{
    let p = a.prime as int;
    lemma_mod_bound((a.inner * b.inner) as int, p);
    lemma_congruent_mod((a.inner * b.inner) as int, p);
    lemma_congruent_mul(a.inner as int, x, b.inner as int, y, p);
    lemma_congruent_transitive(a.mul(b).inner as int, (a.inner * b.inner) as int, x * y, p);
}

} // verus!
