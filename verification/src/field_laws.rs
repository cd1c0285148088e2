//! What holds of the arithmetic of the field of 25 elements.
//!
//! The laws are stated of the mathematical values; every executable
//! operation returns the value that the model's operation of the same kind
//! gives, so they hold of the executable operations too.

use crate::field::{base_recip, is_mod_inverse, Elem};
use vstd::arithmetic::div_mod::{
    lemma_add_mod_noop, lemma_mul_mod_noop_left, lemma_mul_mod_noop_right, lemma_sub_mod_noop,
};
use vstd::prelude::*;
use vstd::set_lib::{lemma_int_range, lemma_map_size, set_int_range};

verus! {

/// Sums, differences, products, inverses and quotients are canonical,
/// whatever the operands are.
pub proof fn lemma_results_canonical(x: Elem, y: Elem)
    ensures
        x.plus(y).canonical(),
        x.minus(y).canonical(),
        x.times(y).canonical(),
        x.recip().canonical(),
        x.over(y).canonical(),
{
}

/// Zero is neutral for the addition, and `0 - x` is the opposite of `x`.
pub proof fn lemma_additive_identity_and_inverse(x: Elem)
    requires
        x.canonical(),
    ensures
        x.plus(Elem::zero()) == x,
        Elem::zero().plus(x) == x,
        x.plus(Elem::zero().minus(x)) == Elem::zero(),
{
}

/// The addition is commutative and associative.
pub proof fn lemma_plus_commutative_associative(x: Elem, y: Elem, z: Elem)
    ensures
        x.plus(y) == y.plus(x),
        x.plus(y).plus(z) == x.plus(y.plus(z)),
{
}

/// Opposites and differences of remainders modulo 5.
proof fn lemma_opposite_remainders(p: int, q: int)
    ensures
        (p + (-p) % 5) % 5 == 0,
        (p + (-q) % 5) % 5 == (p - q) % 5,
        (-((p - q) % 5)) % 5 == (q - p) % 5,
{
}

/// A difference of a remainder modulo 5.
proof fn lemma_difference_of_remainder(p: int, q: int)
    ensures
        ((p % 5) - q) % 5 == (p - q) % 5,
{
}

/// The opposite of `x` is `0 - x`; to subtract is to add the opposite; and
/// the opposite of a difference is the difference the other way round.
pub proof fn lemma_negation(x: Elem, y: Elem)
    ensures
        x.neg() == Elem::zero().minus(x),
        x.plus(x.neg()) == Elem::zero(),
        x.minus(y) == x.plus(y.neg()),
        x.minus(y).neg() == y.minus(x),
{
    lemma_opposite_remainders(x.re, y.re);
    lemma_opposite_remainders(x.im, y.im);
}

/// Two subtractions can be made in either order.
pub proof fn lemma_minus_twice(x: Elem, y: Elem, z: Elem)
    ensures
        x.minus(y).minus(z) == x.minus(z).minus(y),
{
    lemma_difference_of_remainder(x.re - y.re, z.re);
    lemma_difference_of_remainder(x.re - z.re, y.re);
    lemma_difference_of_remainder(x.im - y.im, z.im);
    lemma_difference_of_remainder(x.im - z.im, y.im);
}

/// The multiplication is commutative.
pub proof fn lemma_times_commutative(x: Elem, y: Elem)
    ensures
        x.times(y) == y.times(x),
{
    assert(x.re * y.re == y.re * x.re && x.im * y.im == y.im * x.im && x.re * y.im == y.im * x.re
        && x.im * y.re == y.re * x.im) by (nonlinear_arith);
}

/// A product does not change when the coefficients of a factor are reduced
/// modulo 5.
pub proof fn lemma_times_reduced(x: Elem, p: int, q: int)
    ensures
        x.times(Elem::new(p, q)) == Elem::new(x.re * p + 3 * (x.im * q), x.re * q + x.im * p),
{
    lemma_mul_mod_noop_right(x.re, p, 5);
    lemma_mul_mod_noop_right(x.im, q, 5);
    lemma_mul_mod_noop_right(x.re, q, 5);
    lemma_mul_mod_noop_right(x.im, p, 5);
}

/// One is neutral for the multiplication.
pub proof fn lemma_multiplicative_identity(x: Elem)
    requires
        x.canonical(),
    ensures
        x.times(Elem::one()) == x,
        Elem::one().times(x) == x,
{
    assert(x.re * 1 == x.re && x.im * 0 == 0 && x.re * 0 == 0 && x.im * 1 == x.im)
        by (nonlinear_arith);
    lemma_times_commutative(x, Elem::one());
}

/// A product of three factors, bracketed and ordered in the ways that the
/// proofs below meet.
proof fn lemma_three_factors(x: int, y: int, z: int)
    by (nonlinear_arith)
    ensures
        z * (x * y) == x * (y * z),
        z * (y * x) == x * (y * z),
        (x * y) * z == x * (y * z),
{
}

/// A factor multiplied into `u + 3v`, into `u + v`, into `u - v` and into
/// `-u`.
proof fn lemma_multiply_out(k: int, u: int, v: int)
    by (nonlinear_arith)
    ensures
        k * (u + 3 * v) == k * u + 3 * (k * v),
        k * (u + v) == k * u + k * v,
        k * (u - v) == k * u - k * v,
        k * (-u) == -(k * u),
{
}

/// The multiplication is associative.
pub proof fn lemma_times_associative(x: Elem, y: Elem, z: Elem)
    ensures
        x.times(y).times(z) == x.times(y.times(z)),
{
    let (a, b, c, d, e, f) = (x.re, x.im, y.re, y.im, z.re, z.im);
    let p = a * c + 3 * (b * d);
    let q = a * d + b * c;
    let r = c * e + 3 * (d * f);
    let s = c * f + d * e;
    lemma_times_commutative(Elem::new(p, q), z);
    lemma_times_reduced(z, p, q);
    lemma_times_reduced(x, r, s);
    // (e + f·t)(p + q·t), multiplied out
    lemma_multiply_out(e, a * c, b * d);
    lemma_multiply_out(f, a * d, b * c);
    lemma_multiply_out(e, a * d, b * c);
    lemma_multiply_out(f, a * c, b * d);
    // (a + b·t)(r + s·t), multiplied out
    lemma_multiply_out(a, c * e, d * f);
    lemma_multiply_out(b, c * f, d * e);
    lemma_multiply_out(a, c * f, d * e);
    lemma_multiply_out(b, c * e, d * f);
    // the same eight monomials on both sides
    lemma_three_factors(a, c, e);
    lemma_three_factors(b, d, e);
    lemma_three_factors(a, d, f);
    lemma_three_factors(b, c, f);
    lemma_three_factors(a, d, e);
    lemma_three_factors(b, c, e);
    lemma_three_factors(a, c, f);
    lemma_three_factors(b, d, f);
    assert(e * p + 3 * (f * q) == a * r + 3 * (b * s));
    assert(e * q + f * p == a * s + b * r);
}

/// The multiplication distributes over the addition.
pub proof fn lemma_times_distributive(x: Elem, y: Elem, z: Elem)
    ensures
        x.times(y.plus(z)) == x.times(y).plus(x.times(z)),
{
    let (a, b, c, d, e, f) = (x.re, x.im, y.re, y.im, z.re, z.im);
    lemma_times_reduced(x, c + e, d + f);
    lemma_multiply_out(a, c, e);
    lemma_multiply_out(b, d, f);
    lemma_multiply_out(a, d, f);
    lemma_multiply_out(b, c, e);
    lemma_add_mod_noop(a * c + 3 * (b * d), a * e + 3 * (b * f), 5);
    lemma_add_mod_noop(a * d + b * c, a * f + b * e, 5);
}

/// The multiplication distributes over the subtraction.
pub proof fn lemma_times_minus(x: Elem, y: Elem, z: Elem)
    ensures
        x.times(y.minus(z)) == x.times(y).minus(x.times(z)),
{
    let (a, b, c, d, e, f) = (x.re, x.im, y.re, y.im, z.re, z.im);
    lemma_times_reduced(x, c - e, d - f);
    lemma_multiply_out(a, c, e);
    lemma_multiply_out(b, d, f);
    lemma_multiply_out(a, d, f);
    lemma_multiply_out(b, c, e);
    lemma_sub_mod_noop(a * c + 3 * (b * d), a * e + 3 * (b * f), 5);
    lemma_sub_mod_noop(a * d + b * c, a * f + b * e, 5);
}

/// A product with the opposite of a factor is the opposite of the product.
pub proof fn lemma_times_neg(x: Elem, y: Elem)
    ensures
        x.times(y.neg()) == x.times(y).neg(),
{
    lemma_times_minus(x, Elem::zero(), y);
    lemma_negation(y, y);
    lemma_negation(x.times(y), y);
    assert(x.times(Elem::zero()) == Elem::zero()) by {
        assert(x.re * 0 == 0 && x.im * 0 == 0) by (nonlinear_arith);
    }
}

/// The norm of a canonical element is zero only for the zero element: 3 is
/// no square modulo 5.
pub proof fn lemma_norm_nonzero(x: Elem)
    requires
        x.canonical(),
        !x.is_zero(),
    ensures
        1 <= x.norm() < 5,
{
    let (a, b) = (x.re, x.im);
    assert((a * a - 3 * (b * b)) % 5 != 0) by (nonlinear_arith)
        requires
            0 <= a < 5,
            0 <= b < 5,
            a != 0 || b != 0,
    ;
}

/// Among the integers modulo 5, the cube of `n` is the one inverse of `n`.
pub proof fn lemma_base_recip(n: int, v: int)
    by (nonlinear_arith)
    requires
        1 <= n < 5,
    ensures
        is_mod_inverse(n, 5, base_recip(n)),
        is_mod_inverse(n, 5, v) ==> v == base_recip(n),
{
}

/// Every nonzero element times its inverse is one.
pub proof fn lemma_recip_is_inverse(x: Elem)
    requires
        x.canonical(),
        !x.is_zero(),
    ensures
        x.times(x.recip()) == Elem::one(),
        x.recip().times(x) == Elem::one(),
        x.over(x) == Elem::one(),
{
    let (a, b) = (x.re, x.im);
    let norm = a * a - 3 * (b * b);
    let v = base_recip(x.norm());
    lemma_norm_nonzero(x);
    lemma_base_recip(x.norm(), v);
    lemma_times_reduced(x, a * v, -(b * v));
    assert(a * (a * v) + 3 * (b * (-(b * v))) == norm * v && a * (-(b * v)) + b * (a * v) == 0)
        by (nonlinear_arith)
        requires
            norm == a * a - 3 * (b * b),
    ;
    lemma_mul_mod_noop_left(norm, v, 5);
    lemma_times_commutative(x, x.recip());
}

/// The quotient `x / y`, multiplied by `y`, gives `x` back.
pub proof fn lemma_over_is_quotient(x: Elem, y: Elem)
    requires
        x.canonical(),
        y.canonical(),
        !y.is_zero(),
    ensures
        x.over(y).times(y) == x,
{
    lemma_recip_is_inverse(y);
    lemma_times_associative(x, y.recip(), y);
    lemma_multiplicative_identity(x);
}

/// The quotient `z / w` is the only canonical element whose product with
/// `w` is `z`.
pub proof fn lemma_quotient_unique(q: Elem, z: Elem, w: Elem)
    requires
        q.canonical(),
        w.canonical(),
        !w.is_zero(),
        q.times(w) == z,
    ensures
        q == z.over(w),
{
    lemma_recip_is_inverse(w);
    lemma_times_associative(q, w, w.recip());
    lemma_multiplicative_identity(q);
}

/// The inverse is the only canonical element whose product with `x` is one.
pub proof fn lemma_recip_unique(x: Elem, y: Elem)
    requires
        x.canonical(),
        y.canonical(),
        x.times(y) == Elem::one(),
    ensures
        !x.is_zero(),
        y == x.recip(),
{
    assert(!x.is_zero()) by {
        if x.is_zero() {
            assert(x.re * y.re == 0 && x.im * y.im == 0) by (nonlinear_arith)
                requires
                    x.re == 0,
                    x.im == 0,
            ;
        }
    }
    let r = x.recip();
    lemma_recip_is_inverse(x);
    lemma_multiplicative_identity(y);
    lemma_multiplicative_identity(r);
    lemma_times_commutative(x, y);
    lemma_times_associative(y, x, r);
}

/// Two canonical elements differ exactly when their difference is not zero.
pub proof fn lemma_difference_zero(x: Elem, y: Elem)
    requires
        x.canonical(),
        y.canonical(),
    ensures
        x.minus(y).is_zero() <==> x == y,
{
}

/// Twice an element is zero only for the zero element.
pub proof fn lemma_twice_zero(x: Elem)
    ensures
        x.times(Elem::new(2, 0)).is_zero() <==> x.is_zero(),
{
    lemma_times_reduced(x, 2, 0);
    assert(x.re * 2 + 3 * (x.im * 0) == 2 * x.re && x.re * 0 + x.im * 2 == 2 * x.im)
        by (nonlinear_arith);
}

/// No two distinct canonical elements behave alike: adding zero, or
/// multiplying by one, or adding any third element tells them apart, and so
/// does multiplying by any element but zero.
pub proof fn lemma_distinct_elements_differ(x: Elem, y: Elem, z: Elem)
    requires
        x.canonical(),
        y.canonical(),
        x != y,
    ensures
        x.plus(Elem::zero()) != y.plus(Elem::zero()),
        x.times(Elem::one()) != y.times(Elem::one()),
        x.plus(z) != y.plus(z),
        !x.minus(y).is_zero(),
        z.canonical() && !z.is_zero() ==> x.times(z) != y.times(z),
{
    lemma_multiplicative_identity(x);
    lemma_multiplicative_identity(y);
    if z.canonical() && !z.is_zero() && x.times(z) == y.times(z) {
        let r = z.recip();
        lemma_recip_is_inverse(z);
        lemma_times_associative(x, z, r);
        lemma_times_associative(y, z, r);
    }
}

/// The canonical elements, as a set.
pub open spec fn elements() -> Set<Elem> {
    Set::new(|e: Elem| e.canonical())
}

/// The element that is counted as number `i`.
pub open spec fn element_at(i: int) -> Elem {
    Elem { re: i / 5, im: i % 5 }
}

/// The field has exactly 25 elements.
pub proof fn lemma_twenty_five_elements()
    ensures
        elements().finite(),
        elements().len() == 25,
{
    let indices = set_int_range(0, 25);
    let f = |i: int| element_at(i);
    lemma_int_range(0, 25);
    assert forall|e: Elem| elements().contains(e) implies #[trigger] indices.map(f).contains(e) by {
        let i = 5 * e.re + e.im;
        assert(indices.contains(i));
        assert(f(i) == e);
    }
    assert(indices.map(f) =~= elements());
    lemma_map_size(indices, elements(), f);
}

} // verus!
