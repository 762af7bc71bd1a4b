//! Scenario tests for the substitution rule and the recursive expander.

use ammann_beenker::geom::Point;
use ammann_beenker::num::Qr;
use ammann_beenker::tile::{Shape, Tile, TileColor};
use ammann_beenker::expand::{expand_fits_check, subdivide_recursively};

fn origin() -> Point {
    Point { x: Qr::from_int(0), y: Qr::from_int(0) }
}

fn assert_point_eq(p: &Point, x: Qr, y: Qr) {
    assert!(p.x.eq_val(&x), "x was ({}, {}, {})", p.x.a, p.x.b, p.x.e);
    assert!(p.y.eq_val(&y), "y was ({}, {}, {})", p.y.a, p.y.b, p.y.e);
}

#[test]
fn rhombus_scenario_depth1() {
    // Seed Rhombus at (0, 0), size 100, angle 0; image center (0, 0), image
    // size 400.  One step yields two Rhombus children at distance 50 along
    // angles 0 and 180 degrees with size 100/sqrt(2) and angles 45 and 225
    // degrees, plus one Square at distance 50 along 45 degrees with size 50
    // and angle 0.
    let seed = Tile::new(Shape::Rhombus, origin(), Qr::from_int(100), 0);
    let img_center = origin();
    let img_size = Qr::from_int(400);
    let children = seed.subdivide(&img_center, &img_size);
    assert_eq!(children.len(), 3);

    assert_eq!(children[0].shape, Shape::Rhombus);
    assert_point_eq(&children[0].center, Qr::from_int(50), Qr::from_int(0));
    // 100 / sqrt(2) == 50 * sqrt(2)
    assert!(children[0].size.eq_val(&Qr::new(0, 50, 0)));
    assert_eq!(children[0].angle, 1);

    assert_eq!(children[1].shape, Shape::Rhombus);
    assert_point_eq(&children[1].center, Qr::from_int(-50), Qr::from_int(0));
    assert!(children[1].size.eq_val(&Qr::new(0, 50, 0)));
    assert_eq!(children[1].angle, 5);

    assert_eq!(children[2].shape, Shape::Square);
    // distance 50 along 45 degrees: both coordinates are 25 * sqrt(2)
    assert_point_eq(&children[2].center, Qr::new(0, 25, 0), Qr::new(0, 25, 0));
    assert!(children[2].size.eq_val(&Qr::from_int(50)));
    assert_eq!(children[2].angle, 0);

    // The first child sits at distance 50 from the image center, so its
    // color's squared distance is 2500, with the image size carried along.
    match children[0].color {
        TileColor::Hsl { dist_sq, img_size: isz } => {
            assert!(dist_sq.eq_val(&Qr::from_int(2500)));
            assert!(isz.eq_val(&Qr::from_int(400)));
        }
        TileColor::Unset => panic!("child color must be assigned"),
    }
    match children[2].color {
        TileColor::Hsl { dist_sq, .. } => {
            assert!(dist_sq.eq_val(&Qr::from_int(2500)));
        }
        TileColor::Unset => panic!("child color must be assigned"),
    }
}

#[test]
fn square_scenario_depth1() {
    // Seed Square at (0, 0), size 10, angle 0: four Rhombus children at
    // distance 10/sqrt(2) along angles 0/90/180/270, each of size
    // 10*sqrt(2) and turned by the same angle.
    let seed = Tile::new(Shape::Square, origin(), Qr::from_int(10), 0);
    let img_center = origin();
    let img_size = Qr::from_int(40);
    let children = seed.subdivide(&img_center, &img_size);
    assert_eq!(children.len(), 4);
    let d = Qr::new(0, 5, 0); // 10 / sqrt(2) == 5 * sqrt(2)
    let z = Qr::from_int(0);
    let nd = Qr::new(0, -5, 0);
    let expected_centers = [(d, z), (z, d), (nd, z), (z, nd)];
    for k in 0..4 {
        assert_eq!(children[k].shape, Shape::Rhombus);
        assert_eq!(children[k].angle, 2 * k as i64);
        let (ex, ey) = expected_centers[k];
        assert_point_eq(&children[k].center, ex, ey);
        assert!(children[k].size.eq_val(&Qr::new(0, 10, 0)));
    }
}

#[test]
fn expand_depth_zero_is_identity() {
    let seed = Tile::new(Shape::Rhombus, origin(), Qr::from_int(7), 3);
    let img_center = origin();
    let img_size = Qr::from_int(100);
    let out = subdivide_recursively(seed, 0, &img_center, &img_size);
    assert_eq!(out.len(), 1);
    assert_eq!(out[0], seed);
}

#[test]
fn expand_depth_one_matches_subdivide() {
    let seed = Tile::new(Shape::Square, origin(), Qr::from_int(10), 0);
    let img_center = origin();
    let img_size = Qr::from_int(40);
    let expanded = subdivide_recursively(seed, 1, &img_center, &img_size);
    let children = seed.subdivide(&img_center, &img_size);
    assert_eq!(expanded, children);
}

#[test]
fn expand_growth_is_sum_over_children() {
    // The depth-2 expansion concatenates the depth-1 expansions of the
    // depth-1 children: for a Rhombus, 3 + 3 + 4 tiles.
    let seed = Tile::new(Shape::Rhombus, origin(), Qr::from_int(100), 0);
    let img_center = origin();
    let img_size = Qr::from_int(400);
    let children = seed.subdivide(&img_center, &img_size);
    let expanded = subdivide_recursively(seed, 2, &img_center, &img_size);
    let mut concat = Vec::new();
    let mut total = 0;
    for child in children {
        let sub = subdivide_recursively(child, 1, &img_center, &img_size);
        total += sub.len();
        concat.extend(sub);
    }
    assert_eq!(total, 10);
    assert_eq!(expanded.len(), total);
    assert_eq!(expanded, concat);
}

#[test]
fn subdivide_is_deterministic() {
    let seed = Tile::new(Shape::Rhombus, origin(), Qr::from_int(64), 2);
    let img_center = Point { x: Qr::from_int(3), y: Qr::from_int(-2) };
    let img_size = Qr::from_int(256);
    let first = seed.subdivide(&img_center, &img_size);
    let second = seed.subdivide(&img_center, &img_size);
    assert_eq!(first, second);
    let v1 = seed.vertices();
    let v2 = seed.vertices();
    assert_eq!(v1, v2);
}

#[test]
fn expand_fits_guard() {
    let img_center = origin();
    let img_size = Qr::from_int(400);
    let small = Tile::new(Shape::Rhombus, origin(), Qr::from_int(100), 0);
    assert!(expand_fits_check(&small, 5, &img_center, &img_size));
    // A coefficient beyond 2^24 leaves the supported range for a step.
    let huge = Tile::new(Shape::Rhombus, origin(), Qr::new(1 << 30, 0, 0), 0);
    assert!(!expand_fits_check(&huge, 1, &img_center, &img_size));
    assert!(expand_fits_check(&huge, 0, &img_center, &img_size));
}

#[test]
fn zero_size_collapses_to_a_point() {
    // A size-zero tile degenerates to a single point: every child sits at
    // the parent's center with size zero; this is permitted, not an error.
    let seed = Tile::new(Shape::Rhombus, origin(), Qr::from_int(0), 0);
    let img_center = origin();
    let img_size = Qr::from_int(400);
    let children = seed.subdivide(&img_center, &img_size);
    assert_eq!(children.len(), 3);
    for child in &children {
        assert_point_eq(&child.center, Qr::from_int(0), Qr::from_int(0));
        assert!(child.size.is_zero_val());
        assert!(child.color.hue_is_zero());
    }
}

#[test]
fn color_depends_on_position_alone() {
    // Two tiles of different shape and size whose substitution children
    // land on the same center get the same color there: the color is keyed
    // purely on position.
    let img_center = origin();
    let img_size = Qr::from_int(400);
    // A Square of size 25*sqrt(2) puts its first child at distance
    // 25*sqrt(2)/sqrt(2) == 25 along angle 0, that is at (25, 0).
    let square = Tile::new(Shape::Square, origin(), Qr::new(0, 25, 0), 0);
    let square_children = square.subdivide(&img_center, &img_size);
    assert_point_eq(&square_children[0].center, Qr::from_int(25), Qr::from_int(0));
    // A Rhombus of size 50 puts its first child at the same point.
    let rhombus = Tile::new(Shape::Rhombus, origin(), Qr::from_int(50), 0);
    let rhombus_children = rhombus.subdivide(&img_center, &img_size);
    assert_point_eq(&rhombus_children[0].center, Qr::from_int(25), Qr::from_int(0));
    match (square_children[0].color, rhombus_children[0].color) {
        (
            TileColor::Hsl { dist_sq: d1, img_size: s1 },
            TileColor::Hsl { dist_sq: d2, img_size: s2 },
        ) => {
            assert!(d1.eq_val(&d2));
            assert!(s1.eq_val(&s2));
            assert!(d1.eq_val(&Qr::from_int(625)));
        }
        _ => panic!("children colors must be assigned"),
    }
}

#[test]
fn seed_tile_has_no_color() {
    let seed = Tile::new(Shape::Square, origin(), Qr::from_int(10), 1);
    assert_eq!(seed.color, TileColor::Unset);
    let poly = seed.to_polygon();
    assert_eq!(poly.fill, TileColor::Unset);
    assert_eq!(poly.points.len(), 4);
}

#[test]
fn new_tile_aligns_exponents() {
    let center = Point { x: Qr::new(1, 0, 0), y: Qr::new(3, 1, 2) };
    let size = Qr::new(1, 0, 1);
    let t = Tile::new(Shape::Rhombus, center, size, 0);
    assert_eq!(t.center.x.e, 2);
    assert_eq!(t.center.y.e, 2);
    assert_eq!(t.size.e, 2);
    assert!(t.center.x.eq_val(&Qr::new(1, 0, 0)));
    assert!(t.center.y.eq_val(&Qr::new(3, 1, 2)));
    assert!(t.size.eq_val(&Qr::new(1, 0, 1)));
}
