//! Points of an elliptic curve `y^2 = x^3 + a·x + b` over the field of 25
//! elements, their addition and their multiples.
//!
//! No formula below reads the constant `b`, and none checks that a point
//! lies on a curve: the operations are defined, by the same formulas, on
//! every pair of coordinates.

use crate::curve_laws::lemma_multiple_zero_and_one;
use crate::field::{lemma_view_injective, Elem, F5x2};
use crate::field_laws::{lemma_difference_zero, lemma_twice_zero};
use vstd::prelude::*;

verus! {

/// The mathematical value of a point: the point at infinity, which is the
/// identity of the group, or a pair of coordinates.
pub enum Pt {
    Identity,
    Affine(Elem, Elem),
}

/// The slope `(3x^2 + a) / (2y)` of the tangent at `(x, y)`.
pub open spec fn tangent_slope(x: Elem, y: Elem, a: Elem) -> Elem {
    x.times(x).times(Elem::new(3, 0)).plus(a).over(y.times(Elem::new(2, 0)))
}

/// The slope `(y2 - y1) / (x2 - x1)` of the line through two points.
pub open spec fn chord_slope(x1: Elem, y1: Elem, x2: Elem, y2: Elem) -> Elem {
    y2.minus(y1).over(x2.minus(x1))
}

/// The third point of the curve on the line of slope `lambda` through
/// `(x1, y1)` and a point of abscissa `x2`, mirrored at the x-axis:
/// `x3 = lambda^2 - x1 - x2`, `y3 = lambda·(x1 - x3) - y1`.
pub open spec fn third_point(lambda: Elem, x1: Elem, y1: Elem, x2: Elem) -> Pt {
    let x3 = lambda.times(lambda).minus(x1).minus(x2);
    let y3 = lambda.times(x1.minus(x3)).minus(y1);
    Pt::Affine(x3, y3)
}

/// The state of double-and-add after the low bits of a scalar have been
/// consumed: `k` holds the bits that are left, `acc` the sum so far, `base`
/// the point doubled once for each bit consumed.
pub open spec fn double_and_add(k: nat, acc: Pt, base: Pt, a: Elem) -> Pt
    decreases k,
{
    if k == 0 {
        acc
    } else {
        let next = if k % 2 == 1 {
            acc.plus(base, a)
        } else {
            acc
        };
        double_and_add(k / 2, next, base.plus(base, a), a)
    }
}

impl Pt {
    /// The coordinates, if there are any, are canonical.
    pub open spec fn canonical(self) -> bool {
        match self {
            Pt::Identity => true,
            Pt::Affine(x, y) => x.canonical() && y.canonical(),
        }
    }

    /// The sum of two points on a curve with linear coefficient `a`.
    ///
    /// The identity is neutral; two points on one vertical line add up to
    /// the identity, and so does a point with `y = 0` added to itself, whose
    /// tangent is vertical. A point added to itself otherwise takes the
    /// tangent's slope, two points of different abscissa the chord's.
    pub open spec fn plus(self, other: Pt, a: Elem) -> Pt {
        match (self, other) {
            (Pt::Identity, _) => other,
            (_, Pt::Identity) => self,
            (Pt::Affine(x1, y1), Pt::Affine(x2, y2)) => {
                if x1 == x2 && y1 != y2 {
                    Pt::Identity
                } else if x1 == x2 {
                    if y1.is_zero() {
                        Pt::Identity
                    } else {
                        third_point(tangent_slope(x1, y1, a), x1, y1, x2)
                    }
                } else {
                    third_point(chord_slope(x1, y1, x2, y2), x1, y1, x2)
                }
            },
        }
    }

    /// The multiple `n·self` as double-and-add computes it: the bits of `n`
    /// are taken from the least significant up, the point is doubled once
    /// for each bit, and the doubled point is added to the sum, on the
    /// right, for each bit that is set.
    pub open spec fn multiple(self, n: nat, a: Elem) -> Pt {
        double_and_add(n, Pt::Identity, self, a)
    }
}

/// A point of the curve: the point at infinity or a pair of coordinates.
#[derive(Clone, Copy, Debug, PartialEq, Eq, Structural)]
pub enum Point {
    /// The point at infinity, the identity of the group.
    Identity,
    /// The point with the coordinates `(x, y)`.
    Affine(F5x2, F5x2),
}

impl View for Point {
    type V = Pt;

    open spec fn view(&self) -> Pt {
        match *self {
            Point::Identity => Pt::Identity,
            Point::Affine(x, y) => Pt::Affine(x@, y@),
        }
    }
}

impl Point {
    /// Builds a point from its coordinates: the affine point where both are
    /// given, the point at infinity where neither is.
    pub fn new(x: Option<F5x2>, y: Option<F5x2>) -> (p: Point)
        requires
            x is Some <==> y is Some,
        ensures
            p == (match (x, y) {
                (Some(x), Some(y)) => Point::Affine(x, y),
                _ => Point::Identity,
            }),
    {
        match (x, y) {
            (Some(x), Some(y)) => Point::Affine(x, y),
            _ => Point::Identity,
        }
    }

    /// Whether this is the point at infinity.
    pub fn is_infinity(&self) -> (r: bool)
        ensures
            r == (self@ is Identity),
            r == (*self == Point::Identity),
    {
        match self {
            Point::Identity => true,
            Point::Affine(_, _) => false,
        }
    }
}

/// Two stored points are the same exactly when their values are.
pub proof fn lemma_point_view_injective(p: Point, q: Point)
    ensures
        (p@ == q@) <==> (p == q),
{
    match (p, q) {
        (Point::Affine(x1, y1), Point::Affine(x2, y2)) => {
            lemma_view_injective(x1, x2);
            lemma_view_injective(y1, y2);
        },
        _ => {},
    }
}

/// Adds two points of the curve with linear coefficient `a`.
///
/// The point at infinity is neutral, and two points on one vertical line
/// add up to it. So does a point with `y = 0` added to itself: its tangent
/// is vertical, and the division that would give the slope has no result.
pub fn point_add(p: Point, q: Point, a: F5x2) -> (r: Point)
    ensures
        r@ == p@.plus(q@, a@),
        p == Point::Identity ==> r == q,
        q == Point::Identity ==> r == p,
{
    match (p, q) {
        (Point::Identity, _) => q,
        (_, Point::Identity) => p,
        (Point::Affine(x1, y1), Point::Affine(x2, y2)) => {
            proof {
                use_type_invariant(&x1);
                use_type_invariant(&x2);
                x1.lemma_wf_canonical();
                x2.lemma_wf_canonical();
                lemma_view_injective(x1, x2);
                lemma_view_injective(y1, y2);
                lemma_difference_zero(x2@, x1@);
                lemma_twice_zero(y1@);
            }
            if x1 == x2 && y1 != y2 {
                return Point::Identity;
            }
            let slope = if x1 == x2 && y1 == y2 {
                let numerator = x1.mul(x1).mul(F5x2::new(3, 0)).add(a);
                let denominator = y1.mul(F5x2::new(2, 0));
                numerator.div(denominator)
            } else {
                let numerator = y2.sub(y1);
                let denominator = x2.sub(x1);
                numerator.div(denominator)
            };
            match slope {
                Ok(lambda) => {
                    let x3 = lambda.mul(lambda).sub(x1).sub(x2);
                    let y3 = lambda.mul(x1.sub(x3)).sub(y1);
                    Point::Affine(x3, y3)
                },
                // Only the tangent can be vertical here: the abscissas of a
                // chord differ.
                Err(_) => Point::Identity,
            }
        },
    }
}

/// Multiplies a point by a scalar, by double-and-add.
pub fn point_mul(n: u8, p: Point, a: F5x2) -> (r: Point)
    ensures
        r@ == p@.multiple(n as nat, a@),
        n == 0 ==> r == Point::Identity,
        n == 1 ==> r == p,
{
    let mut result = Point::Identity;
    let mut base = p;
    let mut k: u8 = n;

    while k > 0
        invariant
            double_and_add(k as nat, result@, base@, a@) == p@.multiple(n as nat, a@),
        decreases k,
    {
        assert(k & 1 == k % 2 && k >> 1 == k / 2) by (bit_vector);
        if k & 1 == 1 {
            result = point_add(result, base, a);
        }
        base = point_add(base, base, a);
        k >>= 1;
    }
    proof {
        lemma_multiple_zero_and_one(p@, a@);
        lemma_point_view_injective(result, p);
    }

    result
}

} // verus!
