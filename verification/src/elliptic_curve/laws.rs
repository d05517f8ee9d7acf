//! Laws of the group of points, stated over what points stand for.

use crate::elliptic_curve::closure::{
    lemma_add_closed, lemma_chord_slope_times_run, lemma_naive_mul_closed, lemma_third_congruent,
    third_x, third_y,
};
use crate::elliptic_curve::curve::CurveView;
use crate::elliptic_curve::point::{
    chord_slope, lemma_add_same_curve, lemma_naive_mul_stays_failed, third_point, PointView,
};
use crate::error::Error;
use crate::finite_fields::congruence::{
    congruent, lemma_congruent_add, lemma_congruent_residues_equal, lemma_congruent_sub,
    lemma_congruent_symmetric, lemma_congruent_transitive,
};
use crate::finite_fields::prime::{is_prime, lemma_prime_divides_factor};
use crate::finite_fields::FeltView;
use vstd::prelude::*;

verus! {

/// The sum of two outcomes: the sum of the two points where both exist, and
/// the first failure otherwise.
pub open spec fn add_results(a: Result<PointView, Error>, b: Result<PointView, Error>) -> Result<
    PointView,
    Error,
> {
    match a {
        Err(e) => Err(e),
        Ok(x) => match b {
            Err(e) => Err(e),
            Ok(y) => x.add(y),
        },
    }
}

/// The multiples of `p` add up as the scalars do: `i*p + j*p = (i + j)*p`,
/// the multiples taken by repeated addition.
pub open spec fn multiples_add_up(p: PointView) -> bool {
    forall|i: nat, j: nat| #[trigger]
        add_results(p.naive_mul(i), p.naive_mul(j)) == p.naive_mul(i + j)
}

/// Addition is associative where the third summand is `p` and the other two
/// are multiples of it: `(i*p + j*p) + p = i*p + (j*p + p)`.
pub open spec fn associative_on_multiples(p: PointView) -> bool {
    forall|i: nat, j: nat| #[trigger]
        add_results(add_results(p.naive_mul(i), p.naive_mul(j)), Ok(p)) == add_results(
            p.naive_mul(i),
            add_results(p.naive_mul(j), Ok(p)),
        )
}

/// `(p + q) + r`.
pub open spec fn sum_from_left(p: PointView, q: PointView, r: PointView) -> Result<
    PointView,
    Error,
> {
    add_results(p.add(q), Ok(r))
}

/// `p + (q + r)`.
pub open spec fn sum_from_right(p: PointView, q: PointView, r: PointView) -> Result<
    PointView,
    Error,
> {
    add_results(Ok(p), q.add(r))
}

/// Addition is associative on the points of `curve`:
/// `(p + q) + r = p + (q + r)`.
pub open spec fn associative(curve: CurveView) -> bool {
    forall|p: PointView, q: PointView, r: PointView|
        p.wf() && q.wf() && r.wf() && p.curve == curve && q.curve == curve && r.curve == curve
            ==> #[trigger] sum_from_left(p, q, r) == #[trigger] sum_from_right(p, q, r)
}

/// The point at infinity is neutral on either side.
pub proof fn lemma_identity_neutral(p: PointView)
    ensures
        p.curve.identity().add(p) == Ok::<PointView, Error>(p),
        p.add(p.curve.identity()) == Ok::<PointView, Error>(p),
{
    reveal(PointView::add);
}

/// A multiple by repeated addition that exists lies on the curve of the
/// point.
pub proof fn lemma_naive_mul_same_curve(p: PointView, k: nat)
    requires
        p.naive_mul(k) is Ok,
    ensures
        p.naive_mul(k)->Ok_0.curve == p.curve,
    decreases k,
{
    if k >= 2 {
        lemma_naive_mul_same_curve(p, (k - 1) as nat);
        lemma_add_same_curve(p.naive_mul((k - 1) as nat)->Ok_0, p);
    }
}

/// Each multiple is the one before it plus the point.
pub proof fn lemma_naive_mul_step(p: PointView, k: nat)
    ensures
        p.naive_mul(k + 1) == add_results(p.naive_mul(k), Ok(p)),
{
    if k == 0 {
        lemma_identity_neutral(p);
    }
}

/// Where addition is associative on the multiples of `p`, they add up as the
/// scalars do.
pub proof fn lemma_multiples_add_up(p: PointView)
    requires
        associative_on_multiples(p),
    ensures
        multiples_add_up(p),
{
    assert forall|i: nat, j: nat| #[trigger]
        add_results(p.naive_mul(i), p.naive_mul(j)) == p.naive_mul(i + j) by {
        lemma_sum_of_multiples(p, i, j);
    }
}

/// One instance of [`lemma_multiples_add_up`].
proof fn lemma_sum_of_multiples(p: PointView, i: nat, j: nat)
    requires
        associative_on_multiples(p),
    ensures
        add_results(p.naive_mul(i), p.naive_mul(j)) == p.naive_mul(i + j),
    decreases j,
{
    if j == 0 {
        if p.naive_mul(i) is Ok {
            lemma_naive_mul_same_curve(p, i);
            lemma_identity_neutral(p.naive_mul(i)->Ok_0);
        }
    } else {
        let k = (j - 1) as nat;
        lemma_naive_mul_step(p, k);
        lemma_naive_mul_step(p, i + k);
        lemma_sum_of_multiples(p, i, k);
        assert(add_results(add_results(p.naive_mul(i), p.naive_mul(k)), Ok(p)) == add_results(
            p.naive_mul(i),
            add_results(p.naive_mul(k), Ok(p)),
        ));
    }
}

/// What double-and-add returns when the running multiple is `c*p`, the sum
/// so far is `m*p` and the bits that are left spell `rest`: the multiple
/// `(m + c*rest)*p`.
proof fn lemma_double_and_add_is_naive(
    p: PointView,
    current: PointView,
    acc: PointView,
    c: nat,
    m: nat,
    rest: nat,
)
    requires
        multiples_add_up(p),
        c > 0,
        p.naive_mul(c) == Ok::<PointView, Error>(current),
        p.naive_mul(m) == Ok::<PointView, Error>(acc),
    ensures
        current.double_and_add(acc, rest) == p.naive_mul(m + c * rest),
    decreases rest,
{
    if rest == 0 {
        assert(c * rest == 0) by (nonlinear_arith)
            requires
                rest == 0,
        ;
    } else {
        let half = rest / 2;
        let bit: nat = rest % 2;
        assert(c * rest == c * bit + (2 * c) * half && c * bit <= c * rest && (half > 0 ==> 2 * c
            <= c * rest)) by (nonlinear_arith)
            requires
                rest == 2 * half + bit,
                bit <= 1,
        ;
        let sum = if bit == 1 {
            acc.add(current)
        } else {
            Ok(acc)
        };
        let reached = m + c * bit;
        assert(sum == p.naive_mul(reached)) by {
            if bit == 1 {
                assert(add_results(p.naive_mul(m), p.naive_mul(c)) == p.naive_mul(m + c));
                assert(c * bit == c) by (nonlinear_arith)
                    requires
                        bit == 1,
                ;
            } else {
                assert(c * bit == 0) by (nonlinear_arith)
                    requires
                        bit == 0,
                ;
            }
        }
        match sum {
            Err(e) => {
                lemma_naive_mul_stays_failed(p, reached, m + c * rest, e);
            },
            Ok(next) => {
                if half != 0 {
                    assert(add_results(p.naive_mul(c), p.naive_mul(c)) == p.naive_mul(c + c));
                    match current.add(current) {
                        Err(e) => {
                            lemma_naive_mul_stays_failed(p, 2 * c, m + c * rest, e);
                        },
                        Ok(doubled) => {
                            lemma_double_and_add_is_naive(p, doubled, next, 2 * c, reached, half);
                        },
                    }
                }
            },
        }
    }
}

/// Over a field of prime order, where addition is associative on the points
/// of a curve it is associative on the multiples of each of them.
pub proof fn lemma_associative_on_multiples(p: PointView)
    requires
        p.wf(),
        is_prime(p.curve.prime()),
        associative(p.curve),
    ensures
        associative_on_multiples(p),
{
    assert forall|i: nat, j: nat| #[trigger]
        add_results(add_results(p.naive_mul(i), p.naive_mul(j)), Ok(p)) == add_results(
            p.naive_mul(i),
            add_results(p.naive_mul(j), Ok(p)),
        ) by {
        lemma_naive_mul_closed(p, i);
        lemma_naive_mul_closed(p, j);
        let a = p.naive_mul(i)->Ok_0;
        let b = p.naive_mul(j)->Ok_0;
        assert(sum_from_left(a, b, p) == sum_from_right(a, b, p));
    }
}

/// Over a field of prime order, where addition is associative on the points
/// of a curve, multiplication by binary expansion gives what repeated
/// addition gives, for every point of the curve and every scalar.
pub proof fn lemma_binary_expansion_is_naive_on_associative_curve(p: PointView, k: nat)
    requires
        p.wf(),
        is_prime(p.curve.prime()),
        associative(p.curve),
    ensures
        p.binary_expansion_mul(k) == p.naive_mul(k),
{
    lemma_associative_on_multiples(p);
    lemma_multiples_add_up(p);
    lemma_binary_expansion_is_naive(p, k);
}

/// Where the multiples of a point add up as the scalars do, multiplication
/// by binary expansion gives what repeated addition gives, for every scalar.
pub proof fn lemma_binary_expansion_is_naive(p: PointView, k: nat)
    requires
        multiples_add_up(p),
    ensures
        p.binary_expansion_mul(k) == p.naive_mul(k),
{
    lemma_double_and_add_is_naive(p, p, p.curve.identity(), 1, 0, k);
    assert(0 + 1 * k == k);
}

/// The chord through two points has the same slope whichever end it is
/// drawn from.
proof fn lemma_chord_slope_symmetric(x1: FeltView, y1: FeltView, x2: FeltView, y2: FeltView)
    requires
        x1.wf(),
        y1.wf(),
        x2.wf(),
        y2.wf(),
        x1.prime == y1.prime,
        x1.prime == x2.prime,
        x1.prime == y2.prime,
        is_prime(x1.prime),
        x1 != x2,
    ensures
        chord_slope(x1, y1, x2, y2) == chord_slope(x2, y2, x1, y1),
{
    let p = x1.prime;
    let m = p as int;
    let (xi, yi, zi, wi) = (x1.inner as int, y1.inner as int, x2.inner as int, y2.inner as int);
    let s = chord_slope(x1, y1, x2, y2).inner as int;
    let t = chord_slope(x2, y2, x1, y1).inner as int;
    lemma_chord_slope_times_run(x1, y1, x2, y2);
    lemma_chord_slope_times_run(x2, y2, x1, y1);
    // s*(x2 - x1) and t*(x1 - x2) are congruent to opposite numbers
    lemma_congruent_add(s * (zi - xi), wi - yi, t * (xi - zi), yi - wi, m);
    assert(s * (zi - xi) + t * (xi - zi) == (zi - xi) * (s - t)) by (nonlinear_arith);
    lemma_prime_divides_factor(zi - xi, s - t, p);
    lemma_congruent_residues_equal(s, t, m);
}

/// Over a field of prime order addition is commutative: `p + q = q + p`.
pub proof fn lemma_add_commutative(p: PointView, q: PointView)
    requires
        p.wf(),
        q.wf(),
        is_prime(p.curve.prime()),
    ensures
        p.add(q) == q.add(p),
{
    reveal(PointView::add);
    if p.curve == q.curve {
        match (p.coords, q.coords) {
            (Some((x1, y1)), Some((x2, y2))) => {
                crate::finite_fields::laws::lemma_add_commutative(y1, y2);
                if x1 != x2 {
                    let m = p.curve.prime() as int;
                    let (xi, yi, zi, wi) = (
                        x1.inner as int,
                        y1.inner as int,
                        x2.inner as int,
                        y2.inner as int,
                    );
                    lemma_chord_slope_symmetric(x1, y1, x2, y2);
                    lemma_chord_slope_times_run(x1, y1, x2, y2);
                    let s = chord_slope(x1, y1, x2, y2);
                    let si = s.inner as int;
                    lemma_third_congruent(s, x1, y1, x2);
                    lemma_third_congruent(s, x2, y2, x1);
                    let (x3, y3) = third_point(s, x1, y1, x2);
                    let (x4, y4) = third_point(s, x2, y2, x1);
                    let u = third_x(si, xi, zi);
                    assert(third_x(si, zi, xi) == u);
                    // the abscissas are congruent to the same number
                    lemma_congruent_symmetric(x4.inner as int, u, m);
                    lemma_congruent_transitive(x3.inner as int, u, x4.inner as int, m);
                    lemma_congruent_residues_equal(x3.inner as int, x4.inner as int, m);
                    // the ordinates differ by s*(x2 - x1) - (y2 - y1)
                    let v = third_y(si, xi, yi, u);
                    let w = third_y(si, zi, wi, u);
                    assert(w - v == si * (zi - xi) - (wi - yi)) by (nonlinear_arith)
                        requires
                            v == si * (xi - u) - yi,
                            w == si * (zi - u) - wi,
                    ;
                    lemma_congruent_sub(y4.inner as int, w, y3.inner as int, v, m);
                    assert(congruent(w - v, 0, m));
                    lemma_congruent_transitive(y4.inner - y3.inner, w - v, 0, m);
                    lemma_congruent_residues_equal(y4.inner as int, y3.inner as int, m);
                }
            },
            _ => {},
        }
    }
}

/// Over a field of prime order the two ways of multiplying agree for the
/// scalars up to three on the strength of commutativity alone.
pub proof fn lemma_binary_expansion_is_naive_up_to_three(p: PointView, k: nat)
    requires
        p.wf(),
        is_prime(p.curve.prime()),
        k <= 3,
    ensures
        p.binary_expansion_mul(k) == p.naive_mul(k),
{
    let zero = p.curve.identity();
    lemma_identity_neutral(p);
    lemma_add_closed(p, p);
    let double = p.add(p)->Ok_0;
    lemma_identity_neutral(double);
    lemma_add_commutative(p, double);
    reveal_with_fuel(PointView::double_and_add, 3);
    reveal_with_fuel(PointView::naive_mul, 3);
    if k == 2 {
        assert(p.binary_expansion_mul(2) == double.double_and_add(zero, 1));
    } else if k == 3 {
        assert(p.binary_expansion_mul(3) == double.double_and_add(p, 1));
    }
}

} // verus!
