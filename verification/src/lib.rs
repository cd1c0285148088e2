//! Arithmetic in the field of 25 elements and the group law of elliptic
//! curves over it.
//!
//! The field is `F5[t] / (t^2 - 3)`: every element is `a + b·t` with `a` and
//! `b` integers modulo 5. Curves are given in short Weierstrass form
//! `y^2 = x^3 + a·x + b`; only the coefficient `a` enters the formulas.
//!
//! `field` and `curve` hold the types, their mathematical models and the
//! operations; `field_laws` and `curve_laws` hold what is proved of the
//! models beyond the contracts of the operations.

pub mod curve;
pub mod curve_laws;
pub mod field;
pub mod field_laws;

pub use curve::{point_add, point_mul, Point};
pub use field::{F5x2, FieldError};
