//! The field of 25 elements: its mathematical model and the executable type.
//!
//! `Elem` is the model: a pair of integers with the operations of the field
//! written as formulas. `F5x2` is what runs: two bytes that are always below
//! 5. Every operation of `F5x2` returns the element whose value the model's
//! operation gives.

use crate::field_laws::{
    lemma_base_recip, lemma_norm_nonzero, lemma_over_is_quotient, lemma_recip_is_inverse,
};
use vstd::prelude::*;

verus! {

/// The mathematical value `re + im·t` of a field element, where `t^2 = 3`.
///
/// A value is canonical when both coefficients lie in `[0, 5)`; every
/// operation below returns a canonical value.
pub struct Elem {
    pub re: int,
    pub im: int,
}

/// The inverse of `n` among the integers modulo 5, and 0 where `n` is a
/// multiple of 5. By Fermat's little theorem it is `n^3`.
pub open spec fn base_recip(n: int) -> int {
    (n * n * n) % 5
}

impl Elem {
    /// Both coefficients are reduced modulo 5.
    pub open spec fn canonical(self) -> bool {
        0 <= self.re < 5 && 0 <= self.im < 5
    }

    /// The element `a + b·t`, with both coefficients reduced modulo 5.
    pub open spec fn new(a: int, b: int) -> Elem {
        Elem { re: a % 5, im: b % 5 }
    }

    /// The neutral element of the addition.
    pub open spec fn zero() -> Elem {
        Elem { re: 0, im: 0 }
    }

    /// The neutral element of the multiplication.
    pub open spec fn one() -> Elem {
        Elem { re: 1, im: 0 }
    }

    /// Both coefficients are multiples of 5.
    pub open spec fn is_zero(self) -> bool {
        self.re % 5 == 0 && self.im % 5 == 0
    }

    /// The sum: coefficient by coefficient.
    pub open spec fn plus(self, other: Elem) -> Elem {
        Elem::new(self.re + other.re, self.im + other.im)
    }

    /// The difference: coefficient by coefficient.
    pub open spec fn minus(self, other: Elem) -> Elem {
        Elem::new(self.re - other.re, self.im - other.im)
    }

    /// The opposite element `-self`.
    pub open spec fn neg(self) -> Elem {
        Elem::new(-self.re, -self.im)
    }

    /// The product `(a + b·t)(c + d·t) = (ac + 3bd) + (ad + bc)·t`.
    pub open spec fn times(self, other: Elem) -> Elem {
        Elem::new(
            self.re * other.re + 3 * (self.im * other.im),
            self.re * other.im + self.im * other.re,
        )
    }

    /// The norm `a^2 - 3b^2`, an integer modulo 5.
    pub open spec fn norm(self) -> int {
        (self.re * self.re - 3 * (self.im * self.im)) % 5
    }

    /// The multiplicative inverse `(a - b·t) / norm`; the zero element is
    /// mapped to itself.
    pub open spec fn recip(self) -> Elem {
        let n = base_recip(self.norm());
        Elem::new(self.re * n, -(self.im * n))
    }

    /// The quotient `self · other^-1`.
    pub open spec fn over(self, other: Elem) -> Elem {
        self.times(other.recip())
    }

    /// How a canonical element is written: `0`, a constant `a`, a multiple
    /// `bt` of `t`, or the sum `a + bt`, with no term whose coefficient is 0.
    pub open spec fn text(self) -> Seq<char> {
        if self.im == 0 {
            digit(self.re)
        } else if self.re == 0 {
            digit(self.im) + seq!['t']
        } else {
            digit(self.re) + seq![' ', '+', ' '] + digit(self.im) + seq!['t']
        }
    }
}

/// The decimal digit that stands for a coefficient `d` in `[0, 5)`.
pub open spec fn digit(d: int) -> Seq<char> {
    if d == 0 {
        seq!['0']
    } else if d == 1 {
        seq!['1']
    } else if d == 2 {
        seq!['2']
    } else if d == 3 {
        seq!['3']
    } else {
        seq!['4']
    }
}

/// `v` is an inverse of `x` modulo `p` in the range `[1, p)`.
pub open spec fn is_mod_inverse(x: int, p: int, v: int) -> bool {
    1 <= v < p && (x * v) % p == 1
}

/// The reason an operation of the field has no result.
#[derive(Clone, Copy, Debug, PartialEq, Eq, Structural)]
pub enum FieldError {
    /// The zero element was to be inverted, or divided by.
    DivisionByZero,
}

/// An element of the field of 25 elements, stored by its two coefficients.
#[derive(Clone, Copy, Debug, PartialEq, Eq, Structural)]
pub struct F5x2 {
    a: u8,
    b: u8,
}

impl View for F5x2 {
    type V = Elem;

    closed spec fn view(&self) -> Elem {
        Elem { re: self.a as int, im: self.b as int }
    }
}

/// Two stored elements are the same exactly when their values are.
pub proof fn lemma_view_injective(x: F5x2, y: F5x2)
    ensures
        (x@ == y@) <==> (x == y),
{
}

/// Every canonical value is the value of a stored element.
pub proof fn lemma_view_surjective(e: Elem)
    requires
        e.canonical(),
    ensures
        exists|x: F5x2| x.wf() && x@ == e,
{
    let x = F5x2 { a: e.re as u8, b: e.im as u8 };
    assert(x.wf() && x@ == e);
}

/// A product of two coefficients fits in a byte with room to spare.
proof fn lemma_product_bound(x: int, y: int)
    by (nonlinear_arith)
    requires
        0 <= x < 5,
        0 <= y < 5,
    ensures
        0 <= x * y <= 16,
{
}

/// Sums and differences of remainders, reduced once more.
proof fn lemma_reduce_terms(p: int, q: int)
    ensures
        ((p % 5 + 3 * (q % 5)) % 5) % 5 == (p + 3 * q) % 5,
        ((p % 5) % 5) % 5 == p % 5,
        (p % 5 + 5 - (3 * q) % 5) % 5 == (p - 3 * q) % 5,
        (5 - p % 5) % 5 == (-p) % 5,
        ((q % 5) % 5) % 5 == q % 5,
{
}

/// Sums and differences of two coefficients, reduced twice.
proof fn lemma_reduce_twice(p: int, q: int)
    ensures
        ((p + q) % 5) % 5 == (p + q) % 5,
        ((p + 5 - q) % 5) % 5 == (p - q) % 5,
{
}

/// The product, coefficient by coefficient, in the steps in which `mul`
/// reduces it.
proof fn lemma_times_in_steps(x: Elem, y: Elem)
    requires
        x.canonical(),
        y.canonical(),
    ensures
        0 <= x.re * y.re <= 16,
        0 <= x.im * y.im <= 16,
        0 <= x.re * y.im <= 16,
        0 <= x.im * y.re <= 16,
        Elem::new(
            ((x.re * y.re) % 5 + 3 * ((x.im * y.im) % 5)) % 5,
            ((x.re * y.im + x.im * y.re) % 5) % 5,
        ) == x.times(y),
{
    lemma_product_bound(x.re, y.re);
    lemma_product_bound(x.im, y.im);
    lemma_product_bound(x.re, y.im);
    lemma_product_bound(x.im, y.re);
    lemma_reduce_terms(x.re * y.re, x.im * y.im);
    lemma_reduce_terms(x.re * y.im + x.im * y.re, 0);
}

/// The norm in the steps in which `inverse` reduces it.
proof fn lemma_norm_in_steps(x: Elem)
    requires
        x.canonical(),
    ensures
        0 <= x.re * x.re <= 16,
        0 <= x.im * x.im <= 16,
        ((x.re * x.re) % 5 + 5 - (3 * (x.im * x.im)) % 5) % 5 == x.norm(),
{
    lemma_product_bound(x.re, x.re);
    lemma_product_bound(x.im, x.im);
    lemma_reduce_terms(x.re * x.re, x.im * x.im);
}

/// The inverse, coefficient by coefficient, from what the search for the
/// inverse of the norm returned.
proof fn lemma_recip_in_steps(x: Elem, v: int)
    requires
        x.canonical(),
        !x.is_zero(),
        is_mod_inverse(x.norm(), 5, v) || (v == 1 && forall|w: int|
            !#[trigger] is_mod_inverse(x.norm(), 5, w)),
    ensures
        1 <= v < 5,
        0 <= x.re * v <= 16,
        0 <= x.im * v <= 16,
        Elem::new((x.re * v) % 5, 5 - (x.im * v) % 5) == x.recip(),
{
    lemma_norm_nonzero(x);
    lemma_base_recip(x.norm(), v);
    lemma_product_bound(x.re, v);
    lemma_product_bound(x.im, v);
    lemma_reduce_terms(x.im * v, x.re * v);
}

/// The digit of a coefficient, as a string.
fn digit_str(d: u8) -> (s: &'static str)
    requires
        d < 5,
    ensures
        s@ == digit(d as int),
{
    proof {
        reveal_strlit("0");
        reveal_strlit("1");
        reveal_strlit("2");
        reveal_strlit("3");
        reveal_strlit("4");
    }
    let s = if d == 0 {
        "0"
    } else if d == 1 {
        "1"
    } else if d == 2 {
        "2"
    } else if d == 3 {
        "3"
    } else {
        "4"
    };
    proof {
        assert(s@ =~= digit(d as int));
    }
    s
}

impl F5x2 {
    /// The invariant of the type: both stored coefficients are below 5.
    #[verifier::type_invariant]
    pub closed spec fn wf(self) -> bool {
        self.a < 5 && self.b < 5
    }

    /// The value of a well-formed element is canonical.
    pub proof fn lemma_wf_canonical(self)
        requires
            self.wf(),
        ensures
            self@.canonical(),
    {
    }

    /// Builds `a + b·t` from any two bytes, reducing each modulo 5.
    pub fn new(a: u8, b: u8) -> (r: F5x2)
        ensures
            r@ == Elem::new(a as int, b as int),
            r@.canonical(),
    {
        F5x2 { a: a % 5, b: b % 5 }
    }

    /// The coefficient of 1.
    pub fn a(&self) -> (r: u8)
        ensures
            r == self@.re,
            self@.canonical(),
    {
        proof {
            use_type_invariant(self);
        }
        self.a
    }

    /// The coefficient of `t`.
    pub fn b(&self) -> (r: u8)
        ensures
            r == self@.im,
            self@.canonical(),
    {
        proof {
            use_type_invariant(self);
        }
        self.b
    }

    /// The sum of two elements.
    pub fn add(self, other: F5x2) -> (r: F5x2)
        ensures
            r@ == self@.plus(other@),
            r@.canonical(),
    {
        proof {
            use_type_invariant(&self);
            use_type_invariant(&other);
            lemma_reduce_twice(self.a as int, other.a as int);
            lemma_reduce_twice(self.b as int, other.b as int);
        }
        F5x2::new((self.a + other.a) % 5, (self.b + other.b) % 5)
    }

    /// The difference of two elements. The modulus is added before the
    /// subtraction, so that no intermediate value is negative.
    pub fn sub(self, other: F5x2) -> (r: F5x2)
        ensures
            r@ == self@.minus(other@),
            r@.canonical(),
    {
        proof {
            use_type_invariant(&self);
            use_type_invariant(&other);
            lemma_reduce_twice(self.a as int, other.a as int);
            lemma_reduce_twice(self.b as int, other.b as int);
        }
        F5x2::new((self.a + 5 - other.a) % 5, (self.b + 5 - other.b) % 5)
    }

    /// The product of two elements, by the rule `t^2 = 3`.
    pub fn mul(self, other: F5x2) -> (r: F5x2)
        ensures
            r@ == self@.times(other@),
            r@.canonical(),
    {
        let a: u8 = self.a;
        let b: u8 = self.b;
        let c: u8 = other.a;
        let d: u8 = other.b;
        proof {
            use_type_invariant(&self);
            use_type_invariant(&other);
            lemma_times_in_steps(self@, other@);
        }
        let ac: u8 = (a * c) % 5;
        let bd: u8 = (b * d) % 5;
        let ad_bc: u8 = (a * d + b * c) % 5;

        let new_a: u8 = (ac + 3 * bd) % 5;
        let new_b: u8 = ad_bc % 5;

        F5x2::new(new_a, new_b)
    }

    /// The quotient `self / other`, or `DivisionByZero` where `other` is the
    /// zero element.
    pub fn div(self, other: F5x2) -> (r: Result<F5x2, FieldError>)
        ensures
            (match r {
                Ok(q) => !other@.is_zero() && q@ == self@.over(other@) && q@.canonical()
                    && q@.times(other@) == self@,
                Err(e) => other@.is_zero() && e == FieldError::DivisionByZero,
            }),
    {
        proof {
            use_type_invariant(&self);
            use_type_invariant(&other);
            if !other@.is_zero() {
                lemma_over_is_quotient(self@, other@);
            }
        }
        match other.inverse() {
            Ok(inv) => Ok(self.mul(inv)),
            Err(e) => Err(e),
        }
    }

    /// The multiplicative inverse, or `DivisionByZero` for the zero element.
    ///
    /// The inverse of `a + b·t` is `(a - b·t) / (a^2 - 3b^2)`; the norm in the
    /// denominator is an integer modulo 5 and is inverted by search.
    pub fn inverse(self) -> (r: Result<F5x2, FieldError>)
        ensures
            (match r {
                Ok(v) => !self@.is_zero() && v@ == self@.recip() && v@.canonical()
                    && self@.times(v@) == Elem::one(),
                Err(e) => self@.is_zero() && e == FieldError::DivisionByZero,
            }),
    {
        let a: u8 = self.a;
        let b: u8 = self.b;
        proof {
            use_type_invariant(&self);
        }
        if a == 0 && b == 0 {
            return Err(FieldError::DivisionByZero);
        }
        proof {
            lemma_norm_in_steps(self@);
        }
        let a2: u8 = (a * a) % 5;
        let b2: u8 = (3 * (b * b)) % 5;
        let denominator: u8 = (a2 + 5 - b2) % 5;
        let inv_denominator: u8 = Self::mod_inverse(denominator, 5);
        proof {
            lemma_recip_in_steps(self@, inv_denominator as int);
            lemma_recip_is_inverse(self@);
        }
        let new_a: u8 = (a * inv_denominator) % 5;
        let new_b: u8 = 5 - (b * inv_denominator) % 5;

        Ok(F5x2::new(new_a, new_b))
    }

    /// The element in writing: `0`, `a`, `bt` or `a + bt`.
    pub fn to_string(&self) -> (s: String)
        ensures
            s@ == self@.text(),
    {
        proof {
            use_type_invariant(self);
            reveal_strlit(" + ");
            reveal_strlit("t");
        }
        let mut s = String::new();
        if self.a != 0 || self.b == 0 {
            s.append(digit_str(self.a));
        }
        if self.a != 0 && self.b != 0 {
            s.append(" + ");
        }
        if self.b != 0 {
            s.append(digit_str(self.b));
            s.append("t");
        }
        proof {
            assert(s@ =~= self@.text());
        }
        s
    }

    /// The inverse of `x` modulo `p`, found by trying `1, 2, .., p - 1` in
    /// turn: the least `v` in `[1, p)` with `x·v ≡ 1 (mod p)`, and 1 where
    /// there is none.
    pub fn mod_inverse(x: u8, p: u8) -> (r: u8)
        ensures
            is_mod_inverse(x as int, p as int, r as int) || (r == 1 && forall|v: int|
                !#[trigger] is_mod_inverse(x as int, p as int, v)),
            forall|v: int| 1 <= v < r ==> !#[trigger] is_mod_inverse(x as int, p as int, v),
    {
        let mut i: u8 = 1;
        while i < p
            invariant
                1 <= i,
                forall|v: int| 1 <= v < i ==> !#[trigger] is_mod_inverse(x as int, p as int, v),
            decreases p - i,
        {
            assert(x * i <= 255 * 255) by (nonlinear_arith)
                requires
                    x <= 255,
                    i <= 255,
            ;
            if (x as u16 * i as u16) % (p as u16) == 1 {
                return i;
            }
            i = i + 1;
        }
        1
    }
}

} // verus!
