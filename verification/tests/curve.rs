use f25_curve::{point_add, point_mul, F5x2, Point};

fn fe(a: u8, b: u8) -> F5x2 {
    F5x2::new(a, b)
}

fn pt(x: (u8, u8), y: (u8, u8)) -> Point {
    Point::new(Some(fe(x.0, x.1)), Some(fe(y.0, y.1)))
}

fn all_elements() -> Vec<F5x2> {
    let mut v = Vec::new();
    for a in 0..5u8 {
        for b in 0..5u8 {
            v.push(fe(a, b));
        }
    }
    v
}

/// The affine points of `y^2 = x^3 + a·x + b`.
fn curve_points(a: F5x2, b: F5x2) -> Vec<Point> {
    let mut v = Vec::new();
    for x in all_elements() {
        for y in all_elements() {
            if y.mul(y) == x.mul(x).mul(x).add(a.mul(x)).add(b) {
                v.push(Point::new(Some(x), Some(y)));
            }
        }
    }
    v
}

#[test]
fn new_builds_identity_and_affine_points() {
    assert_eq!(Point::new(None, None), Point::Identity);
    assert_eq!(Point::new(Some(fe(1, 2)), Some(fe(4, 4))), Point::Affine(fe(1, 2), fe(4, 4)));
}

#[test]
fn is_infinity_tells_the_identity() {
    assert!(Point::new(None, None).is_infinity());
    assert!(Point::Identity.is_infinity());
    assert!(!pt((1, 2), (4, 4)).is_infinity());
    assert!(!pt((0, 0), (0, 0)).is_infinity());
}

#[test]
fn identity_is_neutral() {
    let id = Point::new(None, None);
    for a in [fe(1, 0), fe(0, 0), fe(3, 4)] {
        assert_eq!(point_add(id, id, a), id);
        for x in all_elements() {
            for y in all_elements() {
                let p = Point::new(Some(x), Some(y));
                assert_eq!(point_add(p, id, a), p);
                assert_eq!(point_add(id, p, a), p);
            }
        }
    }
}

#[test]
fn point_plus_its_mirror_image_is_identity() {
    let zero = fe(0, 0);
    let a = fe(1, 0);
    for x in all_elements() {
        for y in all_elements() {
            let p = Point::new(Some(x), Some(y));
            let q = Point::new(Some(x), Some(zero.sub(y)));
            assert_eq!(point_add(p, q, a), Point::Identity);
        }
    }
}

#[test]
fn same_abscissa_different_ordinate_is_identity() {
    let a = fe(2, 1);
    assert_eq!(point_add(pt((1, 2), (4, 4)), pt((1, 2), (3, 0)), a), Point::Identity);
    assert_eq!(point_add(pt((0, 0), (0, 1)), pt((0, 0), (0, 0)), a), Point::Identity);
}

#[test]
fn doubling_takes_the_tangent() {
    let a = fe(1, 0);
    // slope (3x^2 + a) / (2y) at x = 1 + 2t, y = 4 + 4t
    assert_eq!(point_add(pt((1, 2), (4, 4)), pt((1, 2), (4, 4)), a), pt((1, 2), (1, 1)));
    assert_eq!(point_add(pt((0, 1), (2, 1)), pt((0, 1), (2, 1)), a), pt((0, 3), (3, 4)));
}

#[test]
fn doubling_goes_by_the_coordinates() {
    let a = fe(1, 0);
    let p = pt((0, 1), (2, 1));
    let copy = Point::Affine(fe(5, 6), fe(7, 11));
    assert_eq!(copy, p);
    assert_eq!(point_add(p, copy, a), point_add(p, p, a));
    assert_eq!(point_add(copy, p, a), pt((0, 3), (3, 4)));
}

#[test]
fn doubling_a_point_with_zero_ordinate_is_identity() {
    let a = fe(1, 0);
    for p in [pt((3, 2), (0, 0)), pt((3, 3), (0, 0)), pt((4, 0), (0, 0)), pt((2, 3), (0, 0))] {
        assert_eq!(point_add(p, p, a), Point::Identity);
    }
}

#[test]
fn distinct_points_take_the_chord() {
    let a = fe(1, 0);
    assert_eq!(point_add(pt((0, 1), (2, 1)), pt((0, 2), (2, 4)), a), pt((4, 2), (1, 1)));
    assert_eq!(point_add(pt((0, 2), (2, 4)), pt((0, 3), (3, 4)), a), pt((2, 0), (0, 2)));
    assert_eq!(point_add(pt((0, 1), (2, 1)), pt((0, 3), (3, 4)), a), pt((4, 4), (3, 3)));
}

#[test]
fn addition_is_commutative_for_all_points() {
    let mut points = vec![Point::Identity];
    for x in all_elements() {
        for y in all_elements() {
            points.push(Point::Affine(x, y));
        }
    }
    for a in [fe(1, 0), fe(0, 0), fe(2, 3)] {
        for p in &points {
            for q in &points {
                assert_eq!(point_add(*p, *q, a), point_add(*q, *p, a));
            }
        }
    }
}

#[test]
fn point_mul_by_zero_is_identity() {
    for a in [fe(1, 0), fe(2, 3)] {
        assert_eq!(point_mul(0, Point::Identity, a), Point::Identity);
        for x in all_elements() {
            for y in all_elements() {
                assert_eq!(point_mul(0, Point::new(Some(x), Some(y)), a), Point::Identity);
            }
        }
    }
}

#[test]
fn point_mul_by_one_is_the_point() {
    for a in [fe(1, 0), fe(2, 3)] {
        assert_eq!(point_mul(1, Point::Identity, a), Point::Identity);
        for x in all_elements() {
            for y in all_elements() {
                let p = Point::new(Some(x), Some(y));
                assert_eq!(point_mul(1, p, a), p);
            }
        }
    }
}

#[test]
fn point_mul_of_identity_is_identity() {
    let a = fe(1, 0);
    for n in 0..=255u8 {
        assert_eq!(point_mul(n, Point::Identity, a), Point::Identity);
    }
}

#[test]
fn three_times_a_point_of_order_three() {
    let a = fe(1, 0);
    let p = pt((1, 2), (4, 4));
    assert_eq!(point_mul(2, p, a), pt((1, 2), (1, 1)));
    assert_eq!(point_mul(3, p, a), Point::Identity);
    assert_eq!(point_mul(4, p, a), p);
}

#[test]
fn multiples_of_a_point_of_order_sixteen() {
    let a = fe(1, 0);
    let g = pt((0, 1), (2, 1));
    let expected = [
        Point::Identity,
        pt((0, 1), (2, 1)),
        pt((0, 3), (3, 4)),
        pt((4, 4), (3, 3)),
        pt((2, 0), (0, 3)),
        pt((4, 2), (4, 4)),
        pt((0, 2), (3, 1)),
        pt((2, 2), (2, 0)),
        pt((4, 0), (0, 0)),
        pt((2, 2), (3, 0)),
        pt((0, 2), (2, 4)),
        pt((4, 2), (1, 1)),
    ];
    for (n, e) in expected.iter().enumerate() {
        assert_eq!(point_mul(n as u8, g, a), *e);
    }
    assert_eq!(point_mul(16, g, a), Point::Identity);
    assert_eq!(point_mul(31, g, a), pt((0, 1), (3, 4)));
    assert_eq!(point_mul(128, g, a), Point::Identity);
    assert_eq!(point_mul(200, g, a), pt((4, 0), (0, 0)));
    assert_eq!(point_mul(255, g, a), pt((0, 1), (3, 4)));
}

#[test]
fn point_mul_agrees_with_repeated_addition_on_a_curve() {
    let a = fe(1, 0);
    for b in [fe(2, 0), fe(1, 1)] {
        for p in curve_points(a, b) {
            let mut sum = Point::Identity;
            for n in 0..=40u8 {
                assert_eq!(point_mul(n, p, a), sum);
                sum = point_add(sum, p, a);
            }
        }
    }
}

#[test]
fn addition_is_associative_for_a_triple() {
    let a = fe(1, 0);
    let p = pt((0, 1), (2, 1));
    let q = pt((0, 2), (2, 4));
    let r = pt((0, 3), (3, 4));
    let left = point_add(point_add(p, q, a), r, a);
    let right = point_add(p, point_add(q, r, a), a);
    assert_eq!(left, pt((4, 4), (2, 2)));
    assert_eq!(left, right);
}

#[test]
fn addition_is_associative_on_a_curve() {
    let a = fe(1, 0);
    let mut group = curve_points(a, fe(2, 0));
    assert_eq!(group.len(), 31);
    group.push(Point::Identity);
    for p in &group {
        for q in &group {
            assert_eq!(point_add(*p, *q, a), point_add(*q, *p, a));
            for r in &group {
                assert_eq!(
                    point_add(point_add(*p, *q, a), *r, a),
                    point_add(*p, point_add(*q, *r, a), a)
                );
            }
        }
    }
}

#[test]
fn sums_stay_on_the_curve() {
    let a = fe(1, 0);
    let b = fe(1, 1);
    let group = curve_points(a, b);
    assert_eq!(group.len(), 26);
    for p in &group {
        for q in &group {
            let s = point_add(*p, *q, a);
            assert!(s == Point::Identity || group.contains(&s));
        }
    }
}
