//! What holds of the addition of points and of their multiples.
//!
//! The laws are stated of the mathematical values; `point_add` and
//! `point_mul` return the values that `Pt::plus` and `Pt::multiple` give.

use crate::curve::{chord_slope, double_and_add, tangent_slope, third_point, Pt};
use crate::field::Elem;
use crate::field_laws::{
    lemma_difference_zero, lemma_minus_twice, lemma_negation, lemma_over_is_quotient,
    lemma_quotient_unique, lemma_results_canonical, lemma_times_minus, lemma_times_neg,
};
use vstd::prelude::*;

verus! {

/// The point at infinity is neutral on both sides.
pub proof fn lemma_identity_neutral(p: Pt, a: Elem)
    ensures
        p.plus(Pt::Identity, a) == p,
        Pt::Identity.plus(p, a) == p,
{
}

/// A point and its mirror image at the x-axis add up to the identity.
pub proof fn lemma_opposite_points(x: Elem, y: Elem, a: Elem)
    ensures
        Pt::Affine(x, y).plus(Pt::Affine(x, Elem::zero().minus(y)), a) == Pt::Identity,
{
}

/// Which rule applies depends on the coordinates alone. Two points with
/// the same coordinates are one point added to itself and go by the
/// tangent, however each was made; the chord is taken only where the
/// abscissas differ.
pub proof fn lemma_tangent_or_chord(x1: Elem, y1: Elem, x2: Elem, y2: Elem, a: Elem)
    ensures
        x1 == x2 && y1 == y2 && !y1.is_zero() ==> Pt::Affine(x1, y1).plus(Pt::Affine(x2, y2), a)
            == third_point(tangent_slope(x1, y1, a), x1, y1, x1),
        x1 == x2 && y1 == y2 && y1.is_zero() ==> Pt::Affine(x1, y1).plus(Pt::Affine(x2, y2), a)
            == Pt::Identity,
        x1 == x2 && y1 != y2 ==> Pt::Affine(x1, y1).plus(Pt::Affine(x2, y2), a) == Pt::Identity,
        x1 != x2 ==> Pt::Affine(x1, y1).plus(Pt::Affine(x2, y2), a) == third_point(
            chord_slope(x1, y1, x2, y2),
            x1,
            y1,
            x2,
        ),
{
}

/// The chord through two points has one slope, whichever point comes
/// first.
pub proof fn lemma_chord_symmetric(x1: Elem, y1: Elem, x2: Elem, y2: Elem)
    requires
        x1.canonical(),
        y1.canonical(),
        x2.canonical(),
        y2.canonical(),
        x1 != x2,
    ensures
        chord_slope(x2, y2, x1, y1) == chord_slope(x1, y1, x2, y2),
{
    let rise = y2.minus(y1);
    let run = x2.minus(x1);
    let lambda = rise.over(run);
    lemma_difference_zero(x2, x1);
    lemma_difference_zero(x1, x2);
    lemma_results_canonical(rise, run);
    lemma_over_is_quotient(rise, run);
    lemma_negation(y2, y1);
    lemma_negation(x2, x1);
    lemma_times_neg(lambda, run);
    lemma_quotient_unique(lambda, y1.minus(y2), x1.minus(x2));
}

/// Where `c - a` is `y2 - y1`, `a - b - y1` is `c - b - y2`.
proof fn lemma_same_ordinate(a: Elem, b: Elem, c: Elem, y1: Elem, y2: Elem)
    requires
        c.minus(a) == y2.minus(y1),
    ensures
        a.minus(b).minus(y1) == c.minus(b).minus(y2),
{
    lemma_coefficient_shift(a.re, b.re, c.re, y1.re, y2.re);
    lemma_coefficient_shift(a.im, b.im, c.im, y1.im, y2.im);
}

/// The same for one coefficient, modulo 5.
proof fn lemma_coefficient_shift(a: int, b: int, c: int, y1: int, y2: int)
    requires
        (c - a) % 5 == (y2 - y1) % 5,
    ensures
        ((a - b) % 5 - y1) % 5 == ((c - b) % 5 - y2) % 5,
{
}

/// The addition of points with canonical coordinates is commutative.
pub proof fn lemma_plus_commutative(p: Pt, q: Pt, a: Elem)
    requires
        p.canonical(),
        q.canonical(),
    ensures
        p.plus(q, a) == q.plus(p, a),
{
    match (p, q) {
        (Pt::Affine(x1, y1), Pt::Affine(x2, y2)) => {
            if x1 != x2 {
                let lambda = chord_slope(x1, y1, x2, y2);
                lemma_chord_symmetric(x1, y1, x2, y2);
                let square = lambda.times(lambda);
                let x3 = square.minus(x1).minus(x2);
                lemma_minus_twice(square, x1, x2);
                // lambda·(x2 - x1) = y2 - y1, multiplied out
                lemma_difference_zero(x2, x1);
                lemma_results_canonical(y2.minus(y1), x2.minus(x1));
                lemma_over_is_quotient(y2.minus(y1), x2.minus(x1));
                lemma_times_minus(lambda, x2, x1);
                lemma_times_minus(lambda, x1, x3);
                lemma_times_minus(lambda, x2, x3);
                lemma_same_ordinate(
                    lambda.times(x1),
                    lambda.times(x3),
                    lambda.times(x2),
                    y1,
                    y2,
                );
            }
        },
        _ => {},
    }
}

/// The sum of two points is the identity or a point with canonical
/// coordinates.
pub proof fn lemma_sum_canonical(p: Pt, q: Pt, a: Elem)
    requires
        p.canonical(),
        q.canonical(),
    ensures
        p.plus(q, a).canonical(),
{
}

/// Double-and-add keeps the coordinates canonical.
pub proof fn lemma_double_and_add_canonical(k: nat, acc: Pt, base: Pt, a: Elem)
    requires
        acc.canonical(),
        base.canonical(),
    ensures
        double_and_add(k, acc, base, a).canonical(),
    decreases k,
{
    if k != 0 {
        let next = if k % 2 == 1 {
            acc.plus(base, a)
        } else {
            acc
        };
        lemma_sum_canonical(acc, base, a);
        lemma_sum_canonical(base, base, a);
        lemma_double_and_add_canonical(k / 2, next, base.plus(base, a), a);
    }
}

/// Every multiple of a point with canonical coordinates is the identity or
/// has canonical coordinates.
pub proof fn lemma_multiple_canonical(p: Pt, n: nat, a: Elem)
    requires
        p.canonical(),
    ensures
        p.multiple(n, a).canonical(),
{
    lemma_double_and_add_canonical(n, Pt::Identity, p, a);
}

/// Zero times a point is the identity, and one times a point is the point.
pub proof fn lemma_multiple_zero_and_one(p: Pt, a: Elem)
    ensures
        p.multiple(0, a) == Pt::Identity,
        p.multiple(1, a) == p,
{
    reveal_with_fuel(double_and_add, 2);
}

/// Twice a point is the point added to itself, and three times a point is
/// the point plus its double.
pub proof fn lemma_multiple_two_and_three(p: Pt, a: Elem)
    ensures
        p.multiple(2, a) == p.plus(p, a),
        p.multiple(3, a) == p.plus(p.plus(p, a), a),
{
    reveal_with_fuel(double_and_add, 3);
}

/// The sum `p + p + .. + p` of `n` copies of a point, added one by one.
pub open spec fn repeated_sum(n: nat, p: Pt, a: Elem) -> Pt
    decreases n,
{
    if n == 0 {
        Pt::Identity
    } else {
        repeated_sum((n - 1) as nat, p, a).plus(p, a)
    }
}

/// The sum of `i` copies and the sum of `j` copies of `p` add up to the
/// sum of `i + j` copies.
pub open spec fn adds_up(i: nat, j: nat, p: Pt, a: Elem) -> bool {
    repeated_sum(i, p, a).plus(repeated_sum(j, p, a), a) == repeated_sum(i + j, p, a)
}

/// Repeated sums of `p` add up, whatever their lengths. This holds where
/// `p` lies on an elliptic curve with linear coefficient `a`, whose points
/// form a group.
pub open spec fn sums_add_up(p: Pt, a: Elem) -> bool {
    forall|i: nat, j: nat| #[trigger] adds_up(i, j, p, a)
}

/// Where repeated sums add up, double-and-add started with the sums of `c`
/// and of `d` copies ends with the sum of `c + k·d` copies.
pub proof fn lemma_double_and_add_is_repeated_sum(k: nat, c: nat, d: nat, p: Pt, a: Elem)
    requires
        sums_add_up(p, a),
    ensures
        double_and_add(k, repeated_sum(c, p, a), repeated_sum(d, p, a), a) == repeated_sum(
            c + k * d,
            p,
            a,
        ),
    decreases k,
{
    if k == 0 {
        assert(k * d == 0) by (nonlinear_arith)
            requires
                k == 0,
        ;
    } else {
        let bit: nat = k % 2;
        let next = if bit == 1 {
            c + d
        } else {
            c
        };
        assert(adds_up(c, d, p, a));
        assert(adds_up(d, d, p, a));
        lemma_double_and_add_is_repeated_sum(k / 2, next, d + d, p, a);
        assert(next + (k / 2) * (d + d) == c + k * d) by (nonlinear_arith)
            requires
                k == 2 * (k / 2) + bit,
                next == if bit == 1 {
                    c + d
                } else {
                    c
                },
                bit == 0 || bit == 1,
        ;
    }
}

/// Where repeated sums add up, the multiple that double-and-add computes is
/// the sum of `n` copies of the point.
pub proof fn lemma_multiple_is_repeated_sum(p: Pt, n: nat, a: Elem)
    requires
        sums_add_up(p, a),
    ensures
        p.multiple(n, a) == repeated_sum(n, p, a),
{
    reveal_with_fuel(repeated_sum, 2);
    assert(repeated_sum(1, p, a) == p);
    lemma_double_and_add_is_repeated_sum(n, 0, 1, p, a);
    assert(n * 1 == n) by (nonlinear_arith);
}

} // verus!
