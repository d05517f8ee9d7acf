//! What makes the integers modulo a prime a field: a prime that divides a
//! product divides a factor, nonzero residues can be cancelled, and every
//! nonzero residue raised to the power `p - 1` is one.

use vstd::arithmetic::div_mod::{
    lemma_fundamental_div_mod, lemma_mod_bound, lemma_mod_multiples_basic,
    lemma_mod_multiples_vanish, lemma_mul_mod_noop_left, lemma_mul_mod_noop_right,
    lemma_small_mod, lemma_sub_mod_noop,
};
use vstd::arithmetic::mul::lemma_mul_is_distributive_sub;
use vstd::arithmetic::power::{lemma_pow0, lemma_pow1, lemma_pow_adds, pow};
use vstd::prelude::*;
use vstd::seq_lib::{commutative_foldl, lemma_fold_left_permutation, seq_to_set_is_finite};
use vstd::set_lib::{lemma_int_range, lemma_subset_equality, set_int_range};

verus! {

/// `p` is at least two and has no divisor strictly between one and itself.
pub open spec fn is_prime(p: nat) -> bool {
    &&& p >= 2
    &&& forall|d: nat| 1 < d < p ==> #[trigger] (p % d) != 0
}

/// A prime that divides `r * b`, for an `r` strictly between zero and the
/// prime, divides `b`.
proof fn lemma_euclid_small(r: nat, b: int, p: nat)
    requires
        is_prime(p),
        0 < r < p,
        (r * b) % (p as int) == 0,
    ensures
        b % (p as int) == 0,
    decreases r,
{
    let m = p as int;
    if r == 1 {
        assert(r * b == b);
    } else {
        let q = m / (r as int);
        let s = m % (r as int);
        assert(s != 0);
        lemma_fundamental_div_mod(m, r as int);
        lemma_mod_bound(m, r as int);
        // s * b = p * b - q * (r * b), and p divides both terms
        assert(s * b == m * b - q * (r * b)) by (nonlinear_arith)
            requires
                m == r * q + s,
        ;
        lemma_mod_multiples_basic(b, m);
        assert((m * b) % m == 0) by {
            assert(m * b == b * m) by (nonlinear_arith);
        }
        lemma_mul_mod_noop_right(q, r * b, m);
        assert((q * (r * b)) % m == 0) by {
            assert(q * 0 == 0);
            lemma_small_mod(0, p);
        }
        lemma_sub_mod_noop(m * b, q * (r * b), m);
        lemma_small_mod(0, p);
        assert((s * b) % m == 0);
        lemma_euclid_small(s as nat, b, p);
    }
}

/// Euclid's lemma: a prime that divides a product divides one of the factors.
pub proof fn lemma_prime_divides_factor(a: int, b: int, p: nat)
    requires
        is_prime(p),
        (a * b) % (p as int) == 0,
    ensures
        a % (p as int) == 0 || b % (p as int) == 0,
{
    let m = p as int;
    let r = a % m;
    lemma_mod_bound(a, m);
    if r != 0 {
        lemma_mul_mod_noop_left(a, b, m);
        lemma_euclid_small(r as nat, b, p);
    }
}

/// Modulo a prime, a factor that is not a multiple of the prime can be
/// cancelled from both sides of a congruence.
pub proof fn lemma_cancel(a: int, x: int, y: int, p: nat)
    requires
        is_prime(p),
        a % (p as int) != 0,
        (a * x) % (p as int) == (a * y) % (p as int),
    ensures
        x % (p as int) == y % (p as int),
{
    let m = p as int;
    lemma_sub_mod_noop(a * x, a * y, m);
    lemma_small_mod(0, p);
    lemma_mul_is_distributive_sub(a, x, y);
    assert((a * (x - y)) % m == 0);
    lemma_prime_divides_factor(a, x - y, p);
    lemma_congruent_from_difference(x, y, m);
}

/// Two integers whose difference is a multiple of `m` leave the same
/// remainder.
pub proof fn lemma_congruent_from_difference(x: int, y: int, m: int)
    requires
        m > 0,
        (x - y) % m == 0,
    ensures
        x % m == y % m,
{
    lemma_fundamental_div_mod(x - y, m);
    let k = (x - y) / m;
    assert(x == y + k * m) by (nonlinear_arith)
        requires
            x - y == m * k + 0,
    ;
    lemma_mod_multiples_vanish(k, y, m);
    assert(m * k + y == y + k * m) by (nonlinear_arith);
}

/// Multiplication, as the step of a fold.
spec fn times() -> spec_fn(int, int) -> int {
    |acc: int, x: int| acc * x
}

/// The product of the members of `s`.
spec fn product(s: Seq<int>) -> int {
    s.fold_left(1int, times())
}

/// The numbers `1, 2, ..., n`.
spec fn firsts(n: nat) -> Seq<int> {
    Seq::new(n, |i: int| i + 1)
}

/// The residues of `a, 2a, ..., n*a` modulo `p`.
spec fn multiples(a: int, p: nat, n: nat) -> Seq<int> {
    Seq::new(n, |i: int| (a * (i + 1)) % (p as int))
}

/// The product of one more member is the product so far times that member.
proof fn lemma_product_step(s: Seq<int>)
    requires
        s.len() > 0,
    ensures
        product(s) == product(s.drop_last()) * s.last(),
{
}

/// None of `1, ..., n` is a multiple of a prime above `n`, so neither is
/// their product.
proof fn lemma_firsts_product_coprime(p: nat, n: nat)
    requires
        is_prime(p),
        n < p,
    ensures
        product(firsts(n)) % (p as int) != 0,
    decreases n,
{
    let m = p as int;
    if n == 0 {
        assert(product(firsts(0)) == 1);
        lemma_small_mod(1, p);
    } else {
        let s = firsts(n);
        lemma_product_step(s);
        assert(s.drop_last() =~= firsts((n - 1) as nat));
        assert(s.last() == n);
        lemma_firsts_product_coprime(p, (n - 1) as nat);
        lemma_small_mod(n, p);
        if product(s) % m == 0 {
            lemma_prime_divides_factor(product(firsts((n - 1) as nat)), n as int, p);
        }
    }
}

/// The product of the residues of `a, 2a, ..., n*a` is congruent to
/// `a^n * n!`.
proof fn lemma_multiples_product(a: int, p: nat, n: nat)
    requires
        p > 0,
    ensures
        product(multiples(a, p, n)) % (p as int) == (pow(a, n) * product(firsts(n))) % (p as int),
    decreases n,
{
    let m = p as int;
    if n == 0 {
        lemma_pow0(a);
        assert(product(multiples(a, p, 0)) == 1);
        assert(product(firsts(0)) == 1);
    } else {
        let k = (n - 1) as nat;
        let s = multiples(a, p, n);
        let t = firsts(n);
        lemma_product_step(s);
        lemma_product_step(t);
        assert(s.drop_last() =~= multiples(a, p, k));
        assert(t.drop_last() =~= firsts(k));
        assert(s.last() == (a * n) % m);
        assert(t.last() == n);
        lemma_multiples_product(a, p, k);
        let ps = product(multiples(a, p, k));
        let pt = product(firsts(k));
        // product(s) = ps * ((a * n) mod p), congruent to (a^k * pt) * (a * n)
        lemma_mul_mod_noop_right(ps, a * n, m);
        lemma_mul_mod_noop_left(ps, a * n, m);
        lemma_mul_mod_noop_left(pow(a, k) * pt, a * n, m);
        lemma_pow_adds(a, k, 1);
        lemma_pow1(a);
        assert((pow(a, k) * pt) * (a * n) == (pow(a, k) * a) * (pt * n)) by (nonlinear_arith);
    }
}

/// For `a` not a multiple of the prime `p`, the residues of
/// `a, 2a, ..., (p-1)*a` are the numbers `1, ..., p-1` in some order.
proof fn lemma_multiples_permute(a: int, p: nat)
    requires
        is_prime(p),
        a % (p as int) != 0,
    ensures
        multiples(a, p, (p - 1) as nat).to_multiset() =~= firsts((p - 1) as nat).to_multiset(),
{
    let m = p as int;
    let n = (p - 1) as nat;
    let s = multiples(a, p, n);
    let t = firsts(n);
    assert forall|i: int, j: int| 0 <= i < s.len() && 0 <= j < s.len() && i != j implies s[i]
        != s[j] by {
        if s[i] == s[j] {
            lemma_cancel(a, i + 1, j + 1, p);
            lemma_small_mod((i + 1) as nat, p);
            lemma_small_mod((j + 1) as nat, p);
        }
    }
    assert(s.no_duplicates());
    assert(t.no_duplicates());
    s.unique_seq_to_set();
    t.unique_seq_to_set();
    assert(t.to_set() =~= set_int_range(1, m)) by {
        assert forall|v: int| set_int_range(1, m).contains(v) implies t.to_set().contains(v) by {
            assert(t[v - 1] == v);
        }
    }
    lemma_int_range(1, m);
    assert(s.to_set().subset_of(t.to_set())) by {
        assert forall|v: int| s.to_set().contains(v) implies t.to_set().contains(v) by {
            let i = choose|i: int| 0 <= i < s.len() && s[i] == v;
            lemma_mod_bound(a * (i + 1), m);
            if v == 0 {
                lemma_prime_divides_factor(a, i + 1, p);
                lemma_small_mod((i + 1) as nat, p);
            }
        }
    }
    seq_to_set_is_finite(s);
    seq_to_set_is_finite(t);
    lemma_subset_equality(s.to_set(), t.to_set());
    s.lemma_multiset_has_no_duplicates();
    t.lemma_multiset_has_no_duplicates();
    s.to_multiset_ensures();
    t.to_multiset_ensures();
    assert forall|v: int| s.to_multiset().count(v) == t.to_multiset().count(v) by {
        assert(s.contains(v) <==> s.to_set().contains(v));
        assert(t.contains(v) <==> t.to_set().contains(v));
    }
}

/// Fermat's little theorem: modulo a prime `p`, every integer that is not a
/// multiple of `p` has `(p - 1)`-th power one.
pub proof fn lemma_fermat(a: int, p: nat)
    requires
        is_prime(p),
        a % (p as int) != 0,
    ensures
        pow(a, (p - 1) as nat) % (p as int) == 1,
{
    let m = p as int;
    let n = (p - 1) as nat;
    let f = product(firsts(n));
    lemma_multiples_permute(a, p);
    assert(commutative_foldl(times())) by {
        assert forall|x: int, y: int, v: int| #[trigger]
            times()(times()(v, x), y) == times()(times()(v, y), x) by {
            assert((v * x) * y == (v * y) * x) by (nonlinear_arith);
        }
    }
    lemma_fold_left_permutation(multiples(a, p, n), firsts(n), times(), 1int);
    lemma_multiples_product(a, p, n);
    lemma_firsts_product_coprime(p, n);
    assert(pow(a, n) * f == f * pow(a, n)) by (nonlinear_arith);
    assert(f == f * 1);
    lemma_cancel(f, pow(a, n), 1, p);
    lemma_small_mod(1, p);
}

} // verus!
