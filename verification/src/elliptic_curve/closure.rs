//! Over a field of prime order the group law never leaves the curve: the sum
//! of two points of a curve is again a point of it.

use crate::elliptic_curve::curve::CurveView;
use crate::elliptic_curve::point::{chord_slope, tangent_slope, third_point, PointView};
use crate::finite_fields::congruence::{
    congruent, lemma_congruent_add, lemma_congruent_mul, lemma_congruent_reflexive,
    lemma_congruent_residues_equal, lemma_congruent_sub, lemma_congruent_symmetric,
    lemma_congruent_transitive, lemma_congruent_zero_multiple,
};
use crate::finite_fields::laws::{
    lemma_add_congruent, lemma_div_then_mul, lemma_mul_congruent, lemma_sub_congruent,
};
use crate::finite_fields::prime::{is_prime, lemma_prime_divides_factor};
use crate::finite_fields::FeltView;
use vstd::arithmetic::div_mod::lemma_mod_bound;
use vstd::arithmetic::power::pow;
use vstd::prelude::*;

verus! {

/// The right-hand side of the curve equation over the integers:
/// `x^3 + a*x + b`.
pub open spec fn cubic(a: int, b: int, x: int) -> int {
    x * x * x + a * x + b
}

/// What the slope `s` of a line through `(x1, y1)` and a point of abscissa
/// `x2` must make vanish for the line to meet the curve there:
/// `2*s*y1 + s^2*(x2 - x1) - (x1^2 + x1*x2 + x2^2 + a)`.
pub open spec fn slope_defect(s: int, x1: int, y1: int, x2: int, a: int) -> int {
    2 * s * y1 + s * s * (x2 - x1) - (x1 * x1 + x1 * x2 + x2 * x2 + a)
}

/// The abscissa that the group law gives: `s^2 - x1 - x2`.
pub open spec fn third_x(s: int, x1: int, x2: int) -> int {
    s * s - x1 - x2
}

/// The ordinate that the group law gives: `s*(x1 - x3) - y1`.
pub open spec fn third_y(s: int, x1: int, y1: int, x3: int) -> int {
    s * (x1 - x3) - y1
}

/// How far the third point is from the curve, in terms of how far the first
/// is and of the slope's defect.
proof fn lemma_line_identity(s: int, x1: int, y1: int, x2: int, a: int, b: int)
    ensures
        ({
            let u = third_x(s, x1, x2);
            let v = third_y(s, x1, y1, u);
            v * v - cubic(a, b, u) == (y1 * y1 - cubic(a, b, x1)) + (u - x1) * slope_defect(
                s,
                x1,
                y1,
                x2,
                a,
            )
        }),
{
    let u = s * s - x1 - x2;
    let d = u - x1;
    let w = slope_defect(s, x1, y1, x2, a);
    // v = -(s*d + y1), so v^2 = y1^2 + 2*s*y1*d + s^2*d^2
    let v = s * (x1 - u) - y1;
    assert(v * v == y1 * y1 + d * (2 * s * y1 + s * s * d)) by (nonlinear_arith)
        requires
            v == s * (x1 - u) - y1,
            d == u - x1,
    ;
    // u^3 + a*u - x1^3 - a*x1 = d * (u^2 + u*x1 + x1^2 + a)
    assert(cubic(a, b, u) - cubic(a, b, x1) == d * (u * u + u * x1 + x1 * x1 + a))
        by (nonlinear_arith)
        requires
            d == u - x1,
            cubic(a, b, u) == u * u * u + a * u + b,
            cubic(a, b, x1) == x1 * x1 * x1 + a * x1 + b,
    ;
    // the two brackets differ by the defect, because u = s^2 - x1 - x2
    assert((2 * s * y1 + s * s * d) - (u * u + u * x1 + x1 * x1 + a) == w) by (nonlinear_arith)
        requires
            u == s * s - x1 - x2,
            d == u - x1,
            w == 2 * s * y1 + s * s * (x2 - x1) - (x1 * x1 + x1 * x2 + x2 * x2 + a),
    ;
    assert(d * (2 * s * y1 + s * s * d) - d * (u * u + u * x1 + x1 * x1 + a) == d * w)
        by (nonlinear_arith)
        requires
            (2 * s * y1 + s * s * d) - (u * u + u * x1 + x1 * x1 + a) == w,
    ;
}

/// A line whose slope has no defect modulo `m`, drawn through a point of the
/// curve, leads to a point of the curve.
proof fn lemma_third_on_curve(s: int, x1: int, y1: int, x2: int, a: int, b: int, m: int)
    requires
        m > 0,
        congruent(y1 * y1, cubic(a, b, x1), m),
        congruent(slope_defect(s, x1, y1, x2, a), 0, m),
    ensures
        ({
            let u = third_x(s, x1, x2);
            let v = third_y(s, x1, y1, u);
            congruent(v * v, cubic(a, b, u), m)
        }),
{
    let u = third_x(s, x1, x2);
    let v = third_y(s, x1, y1, u);
    let w = slope_defect(s, x1, y1, x2, a);
    lemma_line_identity(s, x1, y1, x2, a, b);
    lemma_congruent_zero_multiple(w, u - x1, m);
    lemma_congruent_add(y1 * y1 - cubic(a, b, x1), 0, (u - x1) * w, 0, m);
}

/// The slope of a chord has no defect: if `s*(x2 - x1)` is congruent to
/// `y2 - y1`, both ends lie on the curve, and the prime modulus does not
/// divide `x2 - x1`, then the defect of `s` is congruent to zero.
proof fn lemma_chord_defect(
    s: int,
    x1: int,
    y1: int,
    x2: int,
    y2: int,
    a: int,
    b: int,
    p: nat,
)
    requires
        is_prime(p),
        (x2 - x1) % (p as int) != 0,
        congruent(s * (x2 - x1), y2 - y1, p as int),
        congruent(y1 * y1, cubic(a, b, x1), p as int),
        congruent(y2 * y2, cubic(a, b, x2), p as int),
    ensures
        congruent(slope_defect(s, x1, y1, x2, a), 0, p as int),
{
    let m = p as int;
    let d = x2 - x1;
    let t = s * d;
    let e = y2 - y1;
    let w = slope_defect(s, x1, y1, x2, a);
    // 2*y1*t + t^2 is congruent to 2*y1*e + e^2 = y2^2 - y1^2
    lemma_congruent_reflexive(2 * y1, m);
    lemma_congruent_mul(2 * y1, 2 * y1, t, e, m);
    lemma_congruent_mul(t, e, t, e, m);
    lemma_congruent_add((2 * y1) * t, (2 * y1) * e, t * t, e * e, m);
    assert((2 * y1) * e + e * e == y2 * y2 - y1 * y1) by (nonlinear_arith)
        requires
            e == y2 - y1,
    ;
    // which is congruent to the difference of the two right-hand sides
    lemma_congruent_sub(y2 * y2, cubic(a, b, x2), y1 * y1, cubic(a, b, x1), m);
    lemma_congruent_transitive(
        (2 * y1) * t + t * t,
        y2 * y2 - y1 * y1,
        cubic(a, b, x2) - cubic(a, b, x1),
        m,
    );
    // and that difference is what d * w lacks
    assert(d * w == (2 * y1) * t + t * t - (cubic(a, b, x2) - cubic(a, b, x1))) by {
        lemma_chord_identity(s, x1, y1, x2, a, b);
    }
    lemma_prime_divides_factor(d, w, p);
}

/// `(x2 - x1)` times the defect, spelled out.
proof fn lemma_chord_identity(s: int, x1: int, y1: int, x2: int, a: int, b: int)
    ensures
        ({
            let d = x2 - x1;
            let t = s * d;
            d * slope_defect(s, x1, y1, x2, a) == (2 * y1) * t + t * t - (cubic(a, b, x2) - cubic(
                a,
                b,
                x1,
            ))
        }),
{
    let d = x2 - x1;
    let t = s * d;
    let q = x1 * x1 + x1 * x2 + x2 * x2 + a;
    assert(cubic(a, b, x2) - cubic(a, b, x1) == d * q) by (nonlinear_arith)
        requires
            d == x2 - x1,
            q == x1 * x1 + x1 * x2 + x2 * x2 + a,
            cubic(a, b, x2) == x2 * x2 * x2 + a * x2 + b,
            cubic(a, b, x1) == x1 * x1 * x1 + a * x1 + b,
    ;
    assert(d * (2 * s * y1 + s * s * d - q) == (2 * y1) * t + t * t - d * q) by (nonlinear_arith)
        requires
            t == s * d,
    ;
}

/// The right-hand side of the curve equation at an element whose residue
/// is congruent to `u` has a residue congruent to `u^3 + a*u + b`.
proof fn lemma_rhs_congruent(c: CurveView, x: FeltView, u: int)
    requires
        c.wf(),
        x.prime == c.prime(),
        congruent(x.inner as int, u, c.prime() as int),
    ensures
        c.rhs(x).wf(),
        c.rhs(x).prime == c.prime(),
        congruent(
            c.rhs(x).inner as int,
            cubic(c.a.inner as int, c.b.inner as int, u),
            c.prime() as int,
        ),
{
    let m = c.prime() as int;
    let (a, b) = (c.a.inner as int, c.b.inner as int);
    lemma_congruent_reflexive(a, m);
    lemma_congruent_reflexive(b, m);
    lemma_mul_congruent(x, x, u, u);
    lemma_mul_congruent(x.mul(x), x, u * u, u);
    lemma_mul_congruent(c.a, x, a, u);
    lemma_add_congruent(x.mul(x).mul(x), c.a.mul(x), u * u * u, a * u);
    lemma_add_congruent(x.mul(x).mul(x).add(c.a.mul(x)), c.b, u * u * u + a * u, b);
}

/// The coordinates of a point of the curve satisfy the equation as a
/// congruence between integers.
proof fn lemma_on_curve_congruent(c: CurveView, x: FeltView, y: FeltView)
    requires
        c.wf(),
        c.contains(x, y),
    ensures
        congruent(
            (y.inner as int) * (y.inner as int),
            cubic(c.a.inner as int, c.b.inner as int, x.inner as int),
            c.prime() as int,
        ),
{
    let m = c.prime() as int;
    lemma_congruent_reflexive(x.inner as int, m);
    lemma_congruent_reflexive(y.inner as int, m);
    lemma_rhs_congruent(c, x, x.inner as int);
    lemma_mul_congruent(y, y, y.inner as int, y.inner as int);
    lemma_congruent_symmetric(y.mul(y).inner as int, (y.inner as int) * (y.inner as int), m);
    lemma_congruent_transitive(
        (y.inner as int) * (y.inner as int),
        c.rhs(x).inner as int,
        cubic(c.a.inner as int, c.b.inner as int, x.inner as int),
        m,
    );
}

/// A pair of elements whose residues are congruent to integers that satisfy
/// the equation as a congruence lies on the curve.
proof fn lemma_contains_from_congruent(c: CurveView, x: FeltView, y: FeltView, u: int, v: int)
    requires
        c.wf(),
        x.wf(),
        y.wf(),
        x.prime == c.prime(),
        y.prime == c.prime(),
        congruent(x.inner as int, u, c.prime() as int),
        congruent(y.inner as int, v, c.prime() as int),
        congruent(v * v, cubic(c.a.inner as int, c.b.inner as int, u), c.prime() as int),
    ensures
        c.contains(x, y),
{
    let m = c.prime() as int;
    let f = cubic(c.a.inner as int, c.b.inner as int, u);
    lemma_rhs_congruent(c, x, u);
    lemma_mul_congruent(y, y, v, v);
    lemma_congruent_transitive(y.mul(y).inner as int, v * v, f, m);
    lemma_congruent_symmetric(c.rhs(x).inner as int, f, m);
    lemma_congruent_transitive(y.mul(y).inner as int, f, c.rhs(x).inner as int, m);
    lemma_congruent_residues_equal(y.mul(y).inner as int, c.rhs(x).inner as int, m);
}

/// The residues of the third point are congruent to what the formulas of the
/// group law give over the integers.
pub proof fn lemma_third_congruent(s: FeltView, x1: FeltView, y1: FeltView, x2: FeltView)
    requires
        s.wf(),
        x1.wf(),
        y1.wf(),
        x2.wf(),
        s.prime == x1.prime,
        s.prime == y1.prime,
        s.prime == x2.prime,
    ensures
        ({
            let (x3, y3) = third_point(s, x1, y1, x2);
            let u = third_x(s.inner as int, x1.inner as int, x2.inner as int);
            let v = third_y(s.inner as int, x1.inner as int, y1.inner as int, u);
            &&& x3.wf()
            &&& y3.wf()
            &&& x3.prime == s.prime
            &&& y3.prime == s.prime
            &&& congruent(x3.inner as int, u, s.prime as int)
            &&& congruent(y3.inner as int, v, s.prime as int)
        }),
{
    let m = s.prime as int;
    let (si, xi, yi, zi) = (s.inner as int, x1.inner as int, y1.inner as int, x2.inner as int);
    lemma_congruent_reflexive(si, m);
    lemma_congruent_reflexive(xi, m);
    lemma_congruent_reflexive(yi, m);
    lemma_congruent_reflexive(zi, m);
    lemma_mul_congruent(s, s, si, si);
    lemma_sub_congruent(s.mul(s), x1, si * si, xi);
    lemma_sub_congruent(s.mul(s).sub(x1), x2, si * si - xi, zi);
    let x3 = s.mul(s).sub(x1).sub(x2);
    let u = si * si - xi - zi;
    lemma_sub_congruent(x1, x3, xi, u);
    lemma_mul_congruent(s, x1.sub(x3), si, xi - u);
    lemma_sub_congruent(s.mul(x1.sub(x3)), y1, si * (xi - u), yi);
}

/// The slope of a chord times its run is congruent to its rise.
pub proof fn lemma_chord_slope_times_run(x1: FeltView, y1: FeltView, x2: FeltView, y2: FeltView)
    requires
        x1.wf(),
        y1.wf(),
        x2.wf(),
        y2.wf(),
        x1.prime == y1.prime,
        x1.prime == x2.prime,
        x1.prime == y2.prime,
        is_prime(x1.prime),
        x1 != x2,
    ensures
        chord_slope(x1, y1, x2, y2).wf(),
        chord_slope(x1, y1, x2, y2).prime == x1.prime,
        (x2.inner - x1.inner) % (x1.prime as int) != 0,
        congruent(
            chord_slope(x1, y1, x2, y2).inner * (x2.inner - x1.inner),
            y2.inner - y1.inner,
            x1.prime as int,
        ),
{
    let m = x1.prime as int;
    let (xi, yi, zi, wi) = (x1.inner as int, y1.inner as int, x2.inner as int, y2.inner as int);
    lemma_congruent_reflexive(xi, m);
    lemma_congruent_reflexive(yi, m);
    lemma_congruent_reflexive(zi, m);
    lemma_congruent_reflexive(wi, m);
    let run = x2.sub(x1);
    let rise = y2.sub(y1);
    lemma_sub_congruent(x2, x1, zi, xi);
    lemma_sub_congruent(y2, y1, wi, yi);
    assert((zi - xi) % m != 0) by {
        if (zi - xi) % m == 0 {
            lemma_congruent_residues_equal(zi, xi, m);
        }
    }
    let s = rise.div(run);
    lemma_mod_bound(rise.inner * pow(run.inner as int, (x1.prime - 2) as nat), m);
    lemma_div_then_mul(rise, run);
    let si = s.inner as int;
    lemma_congruent_reflexive(si, m);
    lemma_mul_congruent(s, run, si, zi - xi);
    lemma_congruent_symmetric(s.mul(run).inner as int, si * (zi - xi), m);
    lemma_congruent_transitive(si * (zi - xi), rise.inner as int, wi - yi, m);
}

/// Over a field of prime order, the chord through two points of a curve with
/// different abscissas leads to a point of the curve.
pub proof fn lemma_chord_closed(
    c: CurveView,
    x1: FeltView,
    y1: FeltView,
    x2: FeltView,
    y2: FeltView,
)
    requires
        c.wf(),
        is_prime(c.prime()),
        c.contains(x1, y1),
        c.contains(x2, y2),
        x1 != x2,
    ensures
        ({
            let (x3, y3) = third_point(chord_slope(x1, y1, x2, y2), x1, y1, x2);
            c.contains(x3, y3)
        }),
{
    let p = c.prime();
    let m = p as int;
    let (a, b) = (c.a.inner as int, c.b.inner as int);
    let (xi, yi, zi, wi) = (x1.inner as int, y1.inner as int, x2.inner as int, y2.inner as int);
    let s = chord_slope(x1, y1, x2, y2);
    let si = s.inner as int;
    lemma_chord_slope_times_run(x1, y1, x2, y2);
    lemma_on_curve_congruent(c, x1, y1);
    lemma_on_curve_congruent(c, x2, y2);
    lemma_chord_defect(si, xi, yi, zi, wi, a, b, p);
    lemma_third_on_curve(si, xi, yi, zi, a, b, m);
    lemma_third_congruent(s, x1, y1, x2);
    let (x3, y3) = third_point(s, x1, y1, x2);
    let u = third_x(si, xi, zi);
    lemma_contains_from_congruent(c, x3, y3, u, third_y(si, xi, yi, u));
}

/// Over a field of prime order, the tangent at a point of a curve whose
/// ordinate is not its own opposite leads to a point of the curve.
pub proof fn lemma_tangent_closed(c: CurveView, x1: FeltView, y1: FeltView)
    requires
        c.wf(),
        is_prime(c.prime()),
        c.contains(x1, y1),
        y1.add(y1).inner != 0,
    ensures
        ({
            let (x3, y3) = third_point(tangent_slope(c.a, x1, y1), x1, y1, x1);
            c.contains(x3, y3)
        }),
{
    let p = c.prime();
    let m = p as int;
    let (a, b) = (c.a.inner as int, c.b.inner as int);
    let (xi, yi) = (x1.inner as int, y1.inner as int);
    lemma_congruent_reflexive(xi, m);
    lemma_congruent_reflexive(yi, m);
    lemma_congruent_reflexive(a, m);
    let square = x1.mul(x1);
    lemma_mul_congruent(x1, x1, xi, xi);
    lemma_add_congruent(square, square, xi * xi, xi * xi);
    lemma_add_congruent(square.add(square), square, xi * xi + xi * xi, xi * xi);
    lemma_add_congruent(square.add(square).add(square), c.a, xi * xi + xi * xi + xi * xi, a);
    let rise = square.add(square).add(square).add(c.a);
    let run = y1.add(y1);
    lemma_add_congruent(y1, y1, yi, yi);
    let s = rise.div(run);
    lemma_mod_bound(rise.inner * pow(run.inner as int, (p - 2) as nat), m);
    lemma_div_then_mul(rise, run);
    let si = s.inner as int;
    lemma_congruent_reflexive(si, m);
    lemma_mul_congruent(s, run, si, yi + yi);
    lemma_congruent_symmetric(s.mul(run).inner as int, si * (yi + yi), m);
    lemma_congruent_transitive(
        si * (yi + yi),
        rise.inner as int,
        xi * xi + xi * xi + xi * xi + a,
        m,
    );
    // the defect of the slope is the difference of the two sides
    assert(slope_defect(si, xi, yi, xi, a) == si * (yi + yi) - (xi * xi + xi * xi + xi * xi + a))
        by (nonlinear_arith)
        requires
            slope_defect(si, xi, yi, xi, a) == 2 * si * yi + si * si * (xi - xi) - (xi * xi + xi
                * xi + xi * xi + a),
    ;
    lemma_on_curve_congruent(c, x1, y1);
    lemma_third_on_curve(si, xi, yi, xi, a, b, m);
    lemma_third_congruent(s, x1, y1, x1);
    let (x3, y3) = third_point(s, x1, y1, x1);
    let u = third_x(si, xi, xi);
    lemma_contains_from_congruent(c, x3, y3, u, third_y(si, xi, yi, u));
}

/// Over a field of prime order the group law is closed: two points of one
/// curve always have a sum, and it is a point of that curve.
pub proof fn lemma_add_closed(p: PointView, q: PointView)
    requires
        p.wf(),
        q.wf(),
        p.curve == q.curve,
        is_prime(p.curve.prime()),
    ensures
        p.add(q) is Ok,
        p.add(q)->Ok_0.wf(),
        p.add(q)->Ok_0.curve == p.curve,
{
    reveal(PointView::add);
    match (p.coords, q.coords) {
        (Some((x1, y1)), Some((x2, y2))) => {
            if x1 == x2 {
                if !(y1 != y2 || y1.add(y2).inner == 0) {
                    lemma_tangent_closed(p.curve, x1, y1);
                }
            } else {
                lemma_chord_closed(p.curve, x1, y1, x2, y2);
            }
        },
        _ => {},
    }
}

/// Over a field of prime order every multiple by repeated addition exists
/// and is a point of the curve.
pub proof fn lemma_naive_mul_closed(p: PointView, k: nat)
    requires
        p.wf(),
        is_prime(p.curve.prime()),
    ensures
        p.naive_mul(k) is Ok,
        p.naive_mul(k)->Ok_0.wf(),
        p.naive_mul(k)->Ok_0.curve == p.curve,
    decreases k,
{
    if k >= 2 {
        lemma_naive_mul_closed(p, (k - 1) as nat);
        lemma_add_closed(p.naive_mul((k - 1) as nat)->Ok_0, p);
    }
}

/// Over a field of prime order double-and-add always runs to its end, and
/// ends in a point of the curve.
pub proof fn lemma_double_and_add_closed(current: PointView, acc: PointView, k: nat)
    requires
        current.wf(),
        acc.wf(),
        current.curve == acc.curve,
        is_prime(current.curve.prime()),
    ensures
        current.double_and_add(acc, k) is Ok,
        current.double_and_add(acc, k)->Ok_0.wf(),
        current.double_and_add(acc, k)->Ok_0.curve == current.curve,
    decreases k,
{
    if k != 0 {
        lemma_add_closed(acc, current);
        lemma_add_closed(current, current);
        if k / 2 != 0 {
            let next = if k % 2 == 1 {
                acc.add(current)->Ok_0
            } else {
                acc
            };
            lemma_double_and_add_closed(current.add(current)->Ok_0, next, k / 2);
        }
    }
}

/// Over a field of prime order every multiple by binary expansion exists and
/// is a point of the curve.
pub proof fn lemma_binary_expansion_mul_closed(p: PointView, k: nat)
    requires
        p.wf(),
        is_prime(p.curve.prime()),
    ensures
        p.binary_expansion_mul(k) is Ok,
        p.binary_expansion_mul(k)->Ok_0.wf(),
        p.binary_expansion_mul(k)->Ok_0.curve == p.curve,
{
    lemma_double_and_add_closed(p, p.curve.identity(), k);
}

} // verus!
