//! Tests for the exact scalars, the geometry primitives, and the colors.

use ammann_beenker::geom::{point_at_angle_and_distance, rotate_point_about_center, Point};
use ammann_beenker::num::Qr;
use ammann_beenker::tile::{gradient_color, Shape, Tile, TileColor};

fn pt(x: i64, y: i64) -> Point {
    Point { x: Qr::from_int(x), y: Qr::from_int(y) }
}

#[test]
fn scalar_value_equality() {
    // (2 + 0*sqrt(2)) / 2 == 1
    assert!(Qr::new(2, 0, 1).eq_val(&Qr::from_int(1)));
    // (0 + 2*sqrt(2)) / 2 == sqrt(2)
    assert!(Qr::new(0, 2, 1).eq_val(&Qr::new(0, 1, 0)));
    assert!(!Qr::from_int(1).eq_val(&Qr::from_int(2)));
    // 1 and sqrt(2) differ even though the coefficient sums agree.
    assert!(!Qr::from_int(1).eq_val(&Qr::new(0, 1, 0)));
    assert!(Qr::new(0, 0, 5).is_zero_val());
    assert!(!Qr::new(1, 0, 5).is_zero_val());
}

#[test]
fn scalar_sqrt2_arithmetic() {
    let two = Qr::from_int(2);
    // 2 / sqrt(2) == sqrt(2)
    assert!(two.div_sqrt2().eq_val(&Qr::new(0, 1, 0)));
    // sqrt(2) * sqrt(2) == 2
    assert!(Qr::new(0, 1, 0).mul_sqrt2().eq_val(&two));
    // half of 3 is (3, 0, 1)
    assert!(Qr::from_int(3).half().eq_val(&Qr::new(3, 0, 1)));
}

#[test]
fn point_at_cardinal_and_diagonal_angles() {
    // From (1, 1), angle 180 degrees (4 eighths), distance 2: (-1, 1).
    let p = point_at_angle_and_distance(&pt(1, 1), 4, &Qr::from_int(2));
    assert!(p.x.eq_val(&Qr::from_int(-1)));
    assert!(p.y.eq_val(&Qr::from_int(1)));
    // From the origin, angle 45 degrees, distance 2: (sqrt(2), sqrt(2)).
    let q = point_at_angle_and_distance(&pt(0, 0), 1, &Qr::from_int(2));
    assert!(q.x.eq_val(&Qr::new(0, 1, 0)));
    assert!(q.y.eq_val(&Qr::new(0, 1, 0)));
    // A negative angle wraps: -2 eighths is 270 degrees.
    let r = point_at_angle_and_distance(&pt(0, 0), -2, &Qr::from_int(3));
    assert!(r.x.eq_val(&Qr::from_int(0)));
    assert!(r.y.eq_val(&Qr::from_int(-3)));
}

#[test]
fn rotate_about_center() {
    // (1, 0) about the origin by 90 degrees: (0, 1).
    let r = rotate_point_about_center(&pt(1, 0), &pt(0, 0), 2);
    assert!(r.x.eq_val(&Qr::from_int(0)));
    assert!(r.y.eq_val(&Qr::from_int(1)));
    // (2, 0) about the origin by 45 degrees: (sqrt(2), sqrt(2)).
    let d = rotate_point_about_center(&pt(2, 0), &pt(0, 0), 1);
    assert!(d.x.eq_val(&Qr::new(0, 1, 0)));
    assert!(d.y.eq_val(&Qr::new(0, 1, 0)));
    // Rotating about a different center translates accordingly:
    // (2, 1) about (1, 1) by 180 degrees is (0, 1).
    let t = rotate_point_about_center(&pt(2, 1), &pt(1, 1), 4);
    assert!(t.x.eq_val(&Qr::from_int(0)));
    assert!(t.y.eq_val(&Qr::from_int(1)));
}

#[test]
fn vertices_of_rhombus() {
    // A Rhombus of size 1 at the origin, angle 0, has vertices at 0, 45,
    // 90 and 135 degrees, each at radius 1.
    let t = Tile::new(Shape::Rhombus, pt(0, 0), Qr::from_int(1), 0);
    let v = t.vertices();
    assert_eq!(v.len(), 4);
    let h = Qr::new(0, 1, 1); // sqrt(2) / 2
    let nh = Qr::new(0, -1, 1);
    assert!(v[0].x.eq_val(&Qr::from_int(1)) && v[0].y.eq_val(&Qr::from_int(0)));
    assert!(v[1].x.eq_val(&h) && v[1].y.eq_val(&h));
    assert!(v[2].x.eq_val(&Qr::from_int(0)) && v[2].y.eq_val(&Qr::from_int(1)));
    assert!(v[3].x.eq_val(&nh) && v[3].y.eq_val(&h));
}

#[test]
fn vertices_of_square() {
    // A Square of size 2 at the origin, angle 0, has vertices at 0, 90,
    // 180 and 270 degrees, each at radius 2/sqrt(2) == sqrt(2).
    let t = Tile::new(Shape::Square, pt(0, 0), Qr::from_int(2), 0);
    let v = t.vertices();
    assert_eq!(v.len(), 4);
    let s = Qr::new(0, 1, 0);
    let ns = Qr::new(0, -1, 0);
    let z = Qr::from_int(0);
    assert!(v[0].x.eq_val(&s) && v[0].y.eq_val(&z));
    assert!(v[1].x.eq_val(&z) && v[1].y.eq_val(&s));
    assert!(v[2].x.eq_val(&ns) && v[2].y.eq_val(&z));
    assert!(v[3].x.eq_val(&z) && v[3].y.eq_val(&ns));
}

#[test]
fn gradient_at_image_center_has_hue_zero() {
    let c = gradient_color(&pt(0, 0), &pt(0, 0), &Qr::from_int(400));
    assert!(c.hue_is_zero());
    // Also away from the origin, as long as the centers coincide.
    let c2 = gradient_color(&pt(7, -3), &pt(7, -3), &Qr::from_int(100));
    assert!(c2.hue_is_zero());
}

#[test]
fn gradient_squared_distance() {
    // Distance from (3, 4) to the origin is 5, so the squared distance
    // underlying the hue is 25.
    let c = gradient_color(&pt(3, 4), &pt(0, 0), &Qr::from_int(17));
    match c {
        TileColor::Hsl { dist_sq, img_size } => {
            assert!(dist_sq.eq_val(&Qr::from_int(25)));
            assert!(img_size.eq_val(&Qr::from_int(17)));
            assert!(!c.hue_is_zero());
        }
        TileColor::Unset => panic!("gradient_color must assign a color"),
    }
}
