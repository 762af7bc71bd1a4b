//! The two prototiles and the Ammann-Beenker substitution rule.
//!
//! A tile is a shape tag, an exact center, an exact size, an orientation in
//! eighths of a turn, and a color.  Seed tiles carry no color; every tile
//! produced by the substitution rule is created fully formed, with a color
//! keyed on the distance from its center to the image center.  The hue of
//! that color is `360 * dist / (img_size / 2)` degrees; the library keeps
//! the exact squared distance and the image size, which determine the hue,
//! and leaves the square root and the decimal formatting to the caller.

use vstd::prelude::*;

verus! {

use vstd::arithmetic::power2::pow2;
use vstd::arithmetic::power2::lemma_pow2_adds;
use vstd::arithmetic::power2::lemma_pow2_strictly_increases;
use vstd::math::abs;
use vstd::math::max;
use crate::num::Qr;
use crate::num::QrV;
use crate::num::q_at;
use crate::num::q_add;
use crate::num::q_sub;
use crate::num::q_mul;
use crate::num::q_half;
use crate::num::q_div_sqrt2;
use crate::num::q_mul_sqrt2;
use crate::num::q_is_zero;
use crate::num::q_within;
use crate::num::pow2_i128;
use crate::num::lemma_pow2_facts;
use crate::num::lemma_pow2_le;
use crate::num::lemma_add_bounds;
use crate::num::lemma_at_bounds;
use crate::num::lemma_abs_mul_bound;
use crate::num::lemma_q_at_preserves_value;
use crate::num::lemma_zero_value;
use crate::num::q_equiv;
use crate::geom::Point;
use crate::geom::PointV;
use crate::geom::point_wf;
use crate::geom::point_equiv;
use crate::geom::q_cos_dir;
use crate::geom::q_sin_dir;
use crate::geom::spec_point_at;
use crate::geom::spec_dist_sq;
use crate::geom::point_at_angle_and_distance;
use crate::geom::lemma_dir_bounds;

/// The two prototile shapes of the Ammann-Beenker substitution grammar.
#[derive(Clone, Copy, PartialEq, Eq, Structural, Debug)]
pub enum Shape {
    Rhombus,
    Square,
}

/// A tile's fill color.  Seed tiles are `Unset`; subdivision assigns every
/// child a color determined by the exact squared distance from the child's
/// center to the image center, together with the image size.
#[derive(Clone, Copy, PartialEq, Eq, Structural, Debug)]
pub enum TileColor {
    Unset,
    Hsl { dist_sq: Qr, img_size: Qr },
}

/// The mathematical model of an assigned color.
pub ghost struct ColorInfoV {
    pub dist_sq: QrV,
    pub img_size: QrV,
}

impl View for TileColor {
    type V = Option<ColorInfoV>;

    open spec fn view(&self) -> Option<ColorInfoV> {
        match *self {
            TileColor::Unset => None,
            TileColor::Hsl { dist_sq, img_size } => Some(
                ColorInfoV { dist_sq: dist_sq@, img_size: img_size@ },
            ),
        }
    }
}

/// A tile of the tiling.
#[derive(Clone, Copy, PartialEq, Eq, Structural, Debug)]
pub struct Tile {
    pub shape: Shape,
    pub center: Point,
    pub size: Qr,
    pub angle: i64,
    pub color: TileColor,
}

/// The mathematical model of a tile.
pub ghost struct TileV {
    pub shape: Shape,
    pub center: PointV,
    pub size: QrV,
    pub angle: int,
    pub color: Option<ColorInfoV>,
}

impl View for Tile {
    type V = TileV;

    open spec fn view(&self) -> TileV {
        TileV {
            shape: self.shape,
            center: self.center@,
            size: self.size@,
            angle: self.angle as int,
            color: self.color@,
        }
    }
}

/// The models of a sequence of tiles.
pub open spec fn tile_views(s: Seq<Tile>) -> Seq<TileV> {
    s.map_values(|t: Tile| t@)
}

/// The models of a sequence of points.
pub open spec fn point_views(s: Seq<Point>) -> Seq<PointV> {
    s.map_values(|p: Point| p@)
}

/// A tile keeps its center coordinates and its size at one common
/// denominator exponent.
pub open spec fn tile_wf(t: TileV) -> bool {
    point_wf(t.center) && t.center.x.e == t.size.e
}

/// The inputs on which one subdivision step is performed: the tile is
/// well formed and small enough that the exact arithmetic of the step stays
/// within the machine integers, and likewise for the image center.
pub open spec fn subdivide_req(t: TileV, img_center: PointV) -> bool {
    &&& tile_wf(t)
    &&& t.size.e <= 28
    &&& q_within(t.center.x, pow2(24) as int)
    &&& q_within(t.center.y, pow2(24) as int)
    &&& q_within(t.size, pow2(24) as int)
    &&& -(pow2(61) as int) <= t.angle <= pow2(61) as int
    &&& point_wf(img_center)
    &&& img_center.x.e <= 30
    &&& q_within(img_center.x, pow2(27) as int)
    &&& q_within(img_center.y, pow2(27) as int)
}

/// The color assigned to a tile centered at `center`: hue
/// `360 * dist / (img_size / 2)` degrees where `dist` is the distance from
/// `center` to `img_center`, saturation and lightness fixed at 50%.  The
/// result records the exact squared distance and the image size, which
/// together determine the hue.
pub fn gradient_color(center: &Point, img_center: &Point, img_size: &Qr) -> (r: TileColor)
    requires
        point_wf(center@),
        point_wf(img_center@),
        center@.x.e <= 30,
        img_center@.x.e <= 30,
        q_within(center@.x, pow2(27) as int),
        q_within(center@.y, pow2(27) as int),
        q_within(img_center@.x, pow2(27) as int),
        q_within(img_center@.y, pow2(27) as int),
    ensures
        r@ == Some(
            ColorInfoV { dist_sq: spec_dist_sq(center@, img_center@), img_size: img_size@ },
        ),
{
    proof {
        lemma_pow2_facts();
        lemma_add_bounds(center@.x, img_center@.x, 27, 27, 30, 30, 58);
        lemma_add_bounds(center@.y, img_center@.y, 27, 27, 30, 30, 58);
        lemma_pow2_le(58, 60);
    }
    let dx = center.x.minus(&img_center.x);
    let dy = center.y.minus(&img_center.y);
    proof {
        lemma_abs_mul_bound(dx@.a, dx@.a, pow2(58) as int);
        lemma_abs_mul_bound(dx@.b, dx@.b, pow2(58) as int);
        lemma_abs_mul_bound(dx@.a, dx@.b, pow2(58) as int);
        lemma_abs_mul_bound(dx@.b, dx@.a, pow2(58) as int);
        lemma_abs_mul_bound(dy@.a, dy@.a, pow2(58) as int);
        lemma_abs_mul_bound(dy@.b, dy@.b, pow2(58) as int);
        lemma_abs_mul_bound(dy@.a, dy@.b, pow2(58) as int);
        lemma_abs_mul_bound(dy@.b, dy@.a, pow2(58) as int);
        lemma_pow2_adds(58, 58);
        lemma_pow2_adds(116, 1);
        lemma_pow2_adds(116, 2);
    }
    let sx = dx.times(&dx);
    let sy = dy.times(&dy);
    proof {
        assert(abs(sx@.a) <= pow2(118));
        assert(abs(sx@.b) <= pow2(118));
        assert(abs(sy@.a) <= pow2(118));
        assert(abs(sy@.b) <= pow2(118));
        lemma_add_bounds(sx@, sy@, 118, 118, 0, 0, 120);
    }
    let dist_sq = sx.plus(&sy);
    TileColor::Hsl { dist_sq, img_size: *img_size }
}

/// When a tile sits exactly at the image center, its assigned color has hue
/// zero: the squared distance underlying the hue is the value zero.
pub proof fn lemma_gradient_hue_zero(center: PointV, img_center: PointV)
    requires
        point_equiv(center, img_center),
    ensures
        q_is_zero(spec_dist_sq(center, img_center)),
        q_equiv(spec_dist_sq(center, img_center), QrV { a: 0, b: 0, e: 0 }),
{
    let dx = q_sub(center.x, img_center.x);
    let dy = q_sub(center.y, img_center.y);
    assert(dx.a == 0 && dx.b == 0);
    assert(dy.a == 0 && dy.b == 0);
    let m1 = q_mul(dx, dx);
    let m2 = q_mul(dy, dy);
    assert(m1.a == 0 && m1.b == 0);
    assert(m2.a == 0 && m2.b == 0);
    let ds = q_add(m1, m2);
    let ee = max(m1.e as int, m2.e as int) as nat;
    assert(q_at(m1, ee).a == 0 && q_at(m1, ee).b == 0) by {
        vstd::arithmetic::power2::lemma_pow2_pos((ee - m1.e) as nat);
    }
    assert(q_at(m2, ee).a == 0 && q_at(m2, ee).b == 0) by {
        vstd::arithmetic::power2::lemma_pow2_pos((ee - m2.e) as nat);
    }
    assert(ds.a == 0 && ds.b == 0);
    assert(q_is_zero(spec_dist_sq(center, img_center)));
    lemma_zero_value(spec_dist_sq(center, img_center));
}

/// One child of a substitution step: a tile of shape `shape` whose center
/// lies at angle `k` and distance `d` from `base`, rewritten at the common
/// exponent `e2`, with size `sz` (also rewritten at `e2`), orientation
/// `ang`, and the gradient color of its center.
pub open spec fn spec_make_child(
    shape: Shape,
    base: PointV,
    k: int,
    d: QrV,
    ang: int,
    sz: QrV,
    e2: nat,
    img_center: PointV,
    img_size: QrV,
) -> TileV {
    let craw = spec_point_at(base, k, d);
    let c = PointV { x: q_at(craw.x, e2), y: q_at(craw.y, e2) };
    TileV {
        shape,
        center: c,
        size: q_at(sz, e2),
        angle: ang,
        color: Some(ColorInfoV { dist_sq: spec_dist_sq(c, img_center), img_size }),
    }
}

/// Builds one child tile of a substitution step.
fn make_child(
    shape: Shape,
    base: &Point,
    k: i64,
    d: &Qr,
    ang: i64,
    sz: &Qr,
    e2: u32,
    img_center: &Point,
    img_size: &Qr,
) -> (t: Tile)
    requires
        point_wf(base@),
        k != i64::MIN,
        base@.x.e <= 28,
        q_within(base@.x, pow2(24) as int),
        q_within(base@.y, pow2(24) as int),
        d@.e == base@.x.e + 1,
        q_within(d@, pow2(25) as int),
        sz@.e <= e2 as nat <= sz@.e + 2,
        q_within(sz@, pow2(25) as int),
        e2 as nat == base@.x.e + 2,
        point_wf(img_center@),
        img_center@.x.e <= 30,
        q_within(img_center@.x, pow2(27) as int),
        q_within(img_center@.y, pow2(27) as int),
    ensures
        t@ == spec_make_child(
            shape,
            base@,
            k as int,
            d@,
            ang as int,
            sz@,
            e2 as nat,
            img_center@,
            img_size@,
        ),
        tile_wf(t@),
{
    proof {
        lemma_pow2_facts();
        lemma_pow2_strictly_increases(25, 60);
        lemma_pow2_le(24, 60);
        lemma_pow2_le(25, 60);
    }
    let craw = point_at_angle_and_distance(base, k, d);
    proof {
        lemma_dir_bounds(d@, k as int, pow2(25) as int);
        lemma_pow2_adds(25, 1);
        let co = q_cos_dir(d@, k as int);
        if co.e == d@.e {
            lemma_add_bounds(base@.x, co, 24, 25, 1, 0, 26);
            lemma_add_bounds(base@.y, q_sin_dir(d@, k as int), 24, 25, 1, 0, 26);
            lemma_at_bounds(craw@.x, e2 as nat, 26, 1);
            lemma_at_bounds(craw@.y, e2 as nat, 26, 1);
        } else {
            lemma_add_bounds(base@.x, co, 24, 26, 2, 0, 27);
            lemma_add_bounds(base@.y, q_sin_dir(d@, k as int), 24, 26, 2, 0, 27);
            lemma_at_bounds(craw@.x, e2 as nat, 27, 0);
            lemma_at_bounds(craw@.y, e2 as nat, 27, 0);
        }
        lemma_at_bounds(sz@, e2 as nat, 25, 2);
    }
    let cn = Point { x: craw.x.at_exp(e2), y: craw.y.at_exp(e2) };
    let size = sz.at_exp(e2);
    let color = gradient_color(&cn, img_center, img_size);
    Tile { shape, center: cn, size, angle: ang, color }
}

/// The Ammann-Beenker substitution rule.  A Rhombus of size `s` yields, in
/// order, two Rhombus children of size `s / sqrt(2)` at distance `s / 2`
/// along its angle and the opposite angle (turned by 45 and 225 degrees),
/// and one Square child of size `s / 2` at distance `s / 2` along the angle
/// plus 45 degrees, keeping the angle.  A Square of size `s` yields four
/// Rhombus children of size `s * sqrt(2)` at distance `s / sqrt(2)` along
/// the angle plus 0, 90, 180 and 270 degrees, each turned by the same
/// amount.
pub open spec fn spec_subdivide(t: TileV, img_center: PointV, img_size: QrV) -> Seq<TileV> {
    let e2 = (t.size.e + 2) as nat;
    if t.shape == Shape::Rhombus {
        seq![
            spec_make_child(
                Shape::Rhombus, t.center, t.angle, q_half(t.size), t.angle + 1,
                q_div_sqrt2(t.size), e2, img_center, img_size,
            ),
            spec_make_child(
                Shape::Rhombus, t.center, t.angle + 4, q_half(t.size), t.angle + 5,
                q_div_sqrt2(t.size), e2, img_center, img_size,
            ),
            spec_make_child(
                Shape::Square, t.center, t.angle + 1, q_half(t.size), t.angle,
                q_half(t.size), e2, img_center, img_size,
            ),
        ]
    } else {
        seq![
            spec_make_child(
                Shape::Rhombus, t.center, t.angle, q_div_sqrt2(t.size), t.angle,
                q_mul_sqrt2(t.size), e2, img_center, img_size,
            ),
            spec_make_child(
                Shape::Rhombus, t.center, t.angle + 2, q_div_sqrt2(t.size), t.angle + 2,
                q_mul_sqrt2(t.size), e2, img_center, img_size,
            ),
            spec_make_child(
                Shape::Rhombus, t.center, t.angle + 4, q_div_sqrt2(t.size), t.angle + 4,
                q_mul_sqrt2(t.size), e2, img_center, img_size,
            ),
            spec_make_child(
                Shape::Rhombus, t.center, t.angle + 6, q_div_sqrt2(t.size), t.angle + 6,
                q_mul_sqrt2(t.size), e2, img_center, img_size,
            ),
        ]
    }
}

/// The polygon boundary of a tile, as four vertices in rotational order
/// (not closed).  A Rhombus has its vertices at angles `angle + {0, 45, 90,
/// 135}` degrees, each at radius `size`; a Square at angles `angle + {0,
/// 90, 180, 270}` degrees, each at radius `size / sqrt(2)`.
pub open spec fn spec_vertices(t: TileV) -> Seq<PointV> {
    if t.shape == Shape::Rhombus {
        seq![
            spec_point_at(t.center, t.angle, t.size),
            spec_point_at(t.center, t.angle + 1, t.size),
            spec_point_at(t.center, t.angle + 2, t.size),
            spec_point_at(t.center, t.angle + 3, t.size),
        ]
    } else {
        seq![
            spec_point_at(t.center, t.angle, q_div_sqrt2(t.size)),
            spec_point_at(t.center, t.angle + 2, q_div_sqrt2(t.size)),
            spec_point_at(t.center, t.angle + 4, q_div_sqrt2(t.size)),
            spec_point_at(t.center, t.angle + 6, q_div_sqrt2(t.size)),
        ]
    }
}

/// The inputs on which the vertex computation is performed: the tile is
/// well formed and small enough for the exact arithmetic.
pub open spec fn vertices_req(t: TileV) -> bool {
    &&& tile_wf(t)
    &&& t.size.e <= 58
    &&& q_within(t.center.x, pow2(57) as int)
    &&& q_within(t.center.y, pow2(57) as int)
    &&& q_within(t.size, pow2(57) as int)
    &&& -(pow2(61) as int) <= t.angle <= pow2(61) as int
}

/// The spec of one new tile built from loose parts: all scalar fields are
/// rewritten at their common (largest) exponent, and the color is unset.
pub open spec fn spec_new_tile(shape: Shape, center: PointV, size: QrV, ang: int) -> TileV {
    let e = max(max(center.x.e as int, center.y.e as int), size.e as int) as nat;
    TileV {
        shape,
        center: PointV { x: q_at(center.x, e), y: q_at(center.y, e) },
        size: q_at(size, e),
        angle: ang,
        color: None,
    }
}

impl Tile {
    /// A fresh (seed) tile with no color assigned.  The coordinates and the
    /// size are rewritten at one common exponent.
    pub fn new(shape: Shape, center: Point, size: Qr, angle: i64) -> (t: Tile)
        requires
            q_within(center@.x, pow2(60) as int),
            q_within(center@.y, pow2(60) as int),
            q_within(size@, pow2(60) as int),
            center@.x.e <= 60,
            center@.y.e <= 60,
            size@.e <= 60,
        ensures
            t@ == spec_new_tile(shape, center@, size@, angle as int),
            tile_wf(t@),
            q_equiv(t@.center.x, center@.x),
            q_equiv(t@.center.y, center@.y),
            q_equiv(t@.size, size@),
    {
        let e1: u32 = if center.x.e >= center.y.e { center.x.e } else { center.y.e };
        let e: u32 = if e1 >= size.e { e1 } else { size.e };
        proof {
            lemma_at_bounds(center@.x, e as nat, 60, 60);
            lemma_at_bounds(center@.y, e as nat, 60, 60);
            lemma_at_bounds(size@, e as nat, 60, 60);
            lemma_q_at_preserves_value(center@.x, e as nat);
            lemma_q_at_preserves_value(center@.y, e as nat);
            lemma_q_at_preserves_value(size@, e as nat);
        }
        Tile {
            shape,
            center: Point { x: center.x.at_exp(e), y: center.y.at_exp(e) },
            size: size.at_exp(e),
            angle,
            color: TileColor::Unset,
        }
    }

    /// The four polygon vertices of the tile, in rotational order.
    pub fn vertices(&self) -> (r: Vec<Point>)
        requires
            vertices_req(self@),
        ensures
            point_views(r@) == spec_vertices(self@),
            r@.len() == 4,
    {
        proof {
            lemma_pow2_facts();
            lemma_pow2_le(57, 60);
            lemma_pow2_adds(57, 1);
            lemma_pow2_le(58, 60);
            lemma_pow2_strictly_increases(57, 126);
            lemma_pow2_strictly_increases(57, 125);
        }
        let r: Vec<Point> = match self.shape {
            Shape::Rhombus => {
                let p0 = point_at_angle_and_distance(&self.center, self.angle, &self.size);
                let p1 = point_at_angle_and_distance(&self.center, self.angle + 1, &self.size);
                let p2 = point_at_angle_and_distance(&self.center, self.angle + 2, &self.size);
                let p3 = point_at_angle_and_distance(&self.center, self.angle + 3, &self.size);
                vec![p0, p1, p2, p3]
            },
            Shape::Square => {
                let radius = self.size.div_sqrt2();
                let p0 = point_at_angle_and_distance(&self.center, self.angle, &radius);
                let p1 = point_at_angle_and_distance(&self.center, self.angle + 2, &radius);
                let p2 = point_at_angle_and_distance(&self.center, self.angle + 4, &radius);
                let p3 = point_at_angle_and_distance(&self.center, self.angle + 6, &radius);
                vec![p0, p1, p2, p3]
            },
        };
        proof {
            assert(point_views(r@) =~= spec_vertices(self@));
        }
        r
    }

    /// One substitution step: the ordered children that replace this tile.
    pub fn subdivide(&self, img_center: &Point, img_size: &Qr) -> (r: Vec<Tile>)
        requires
            subdivide_req(self@, img_center@),
        ensures
            tile_views(r@) == spec_subdivide(self@, img_center@, img_size@),
            self@.shape == Shape::Rhombus ==> r@.len() == 3,
            self@.shape == Shape::Square ==> r@.len() == 4,
    {
        match self.shape {
            Shape::Rhombus => self.subdivide_rhombus(img_center, img_size),
            Shape::Square => self.subdivide_square(img_center, img_size),
        }
    }

    /// The Rhombus arm of the substitution step.
    #[verifier::rlimit(100)]
    #[verifier::spinoff_prover]
    fn subdivide_rhombus(&self, img_center: &Point, img_size: &Qr) -> (r: Vec<Tile>)
        requires
            subdivide_req(self@, img_center@),
            self@.shape == Shape::Rhombus,
        ensures
            tile_views(r@) == spec_subdivide(self@, img_center@, img_size@),
            r@.len() == 3,
    {
        proof {
            lemma_pow2_facts();
            lemma_pow2_strictly_increases(24, 126);
            lemma_pow2_strictly_increases(24, 125);
            lemma_pow2_le(24, 25);
            lemma_pow2_adds(24, 1);
        }
        let e2: u32 = self.size.e + 2;
        let hs = self.size.half();
        let ns = self.size.div_sqrt2();
        let t0 = make_child(
            Shape::Rhombus, &self.center, self.angle, &hs, self.angle + 1, &ns, e2,
            img_center, img_size,
        );
        let t1 = make_child(
            Shape::Rhombus, &self.center, self.angle + 4, &hs, self.angle + 5, &ns, e2,
            img_center, img_size,
        );
        let t2 = make_child(
            Shape::Square, &self.center, self.angle + 1, &hs, self.angle, &hs, e2,
            img_center, img_size,
        );
        let r = vec![t0, t1, t2];
        proof {
            let s = spec_subdivide(self@, img_center@, img_size@);
            assert(tile_views(r@).len() == 3);
            assert(tile_views(r@)[0] == s[0]);
            assert(tile_views(r@)[1] == s[1]);
            assert(tile_views(r@)[2] == s[2]);
            assert(tile_views(r@) =~= s);
        }
        r
    }

    /// The Square arm of the substitution step.
    #[verifier::rlimit(100)]
    #[verifier::spinoff_prover]
    fn subdivide_square(&self, img_center: &Point, img_size: &Qr) -> (r: Vec<Tile>)
        requires
            subdivide_req(self@, img_center@),
            self@.shape == Shape::Square,
        ensures
            tile_views(r@) == spec_subdivide(self@, img_center@, img_size@),
            r@.len() == 4,
    {
        proof {
            lemma_pow2_facts();
            lemma_pow2_strictly_increases(24, 126);
            lemma_pow2_strictly_increases(24, 125);
            lemma_pow2_le(24, 25);
            lemma_pow2_adds(24, 1);
        }
        let e2: u32 = self.size.e + 2;
        let dist = self.size.div_sqrt2();
        let ns = self.size.mul_sqrt2();
        let t0 = make_child(
            Shape::Rhombus, &self.center, self.angle, &dist, self.angle, &ns, e2,
            img_center, img_size,
        );
        let t1 = make_child(
            Shape::Rhombus, &self.center, self.angle + 2, &dist, self.angle + 2, &ns,
            e2, img_center, img_size,
        );
        let t2 = make_child(
            Shape::Rhombus, &self.center, self.angle + 4, &dist, self.angle + 4, &ns,
            e2, img_center, img_size,
        );
        let t3 = make_child(
            Shape::Rhombus, &self.center, self.angle + 6, &dist, self.angle + 6, &ns,
            e2, img_center, img_size,
        );
        let r = vec![t0, t1, t2, t3];
        proof {
            let s = spec_subdivide(self@, img_center@, img_size@);
            assert(tile_views(r@).len() == 4);
            assert(tile_views(r@)[0] == s[0]);
            assert(tile_views(r@)[1] == s[1]);
            assert(tile_views(r@)[2] == s[2]);
            assert(tile_views(r@)[3] == s[3]);
            assert(tile_views(r@) =~= s);
        }
        r
    }
}

/// One substitution step on a Rhombus yields exactly three tiles, two
/// Rhombus children followed by one Square; on a Square, exactly four
/// Rhombus children.
pub proof fn lemma_subdivide_arity(t: TileV, img_center: PointV, img_size: QrV)
    ensures
        t.shape == Shape::Rhombus ==> {
            let s = spec_subdivide(t, img_center, img_size);
            &&& s.len() == 3
            &&& s[0].shape == Shape::Rhombus
            &&& s[1].shape == Shape::Rhombus
            &&& s[2].shape == Shape::Square
        },
        t.shape == Shape::Square ==> {
            let s = spec_subdivide(t, img_center, img_size);
            &&& s.len() == 4
            &&& forall|i: int| 0 <= i < 4 ==> s[i].shape == Shape::Rhombus
        },
{
}

/// A drawable polygon: the four boundary vertices of a tile together with
/// its fill color.  The stroke is fixed (black, one unit wide) and is added
/// by the renderer.
pub struct Polygon {
    pub points: Vec<Point>,
    pub fill: TileColor,
}

impl Tile {
    /// The drawable polygon of a (terminal) tile: its vertex cycle paired
    /// with its stored fill color.
    pub fn to_polygon(&self) -> (r: Polygon)
        requires
            vertices_req(self@),
        ensures
            point_views(r.points@) == spec_vertices(self@),
            r.points@.len() == 4,
            r.fill@ == self@.color,
    {
        Polygon { points: self.vertices(), fill: self.color }
    }
}

impl TileColor {
    /// Whether this is an assigned color of hue exactly zero.
    pub fn hue_is_zero(&self) -> (r: bool)
        ensures
            r == (self@ matches Some(ci) && q_is_zero(ci.dist_sq)),
    {
        match self {
            TileColor::Unset => false,
            TileColor::Hsl { dist_sq, .. } => dist_sq.is_zero_val(),
        }
    }
}

/// Decides `subdivide_req` at run time, so that unverified callers can
/// guard a call to `subdivide`.
pub fn subdivide_req_check(t: &Tile, img_center: &Point) -> (r: bool)
    ensures
        r == subdivide_req(t@, img_center@),
{
    proof {
        lemma_pow2_facts();
    }
    let m24: i128 = pow2_i128(24);
    let m27: i128 = pow2_i128(27);
    let amax: i64 = 0x2000000000000000;
    (t.center.x.e == t.center.y.e) && (t.center.x.e == t.size.e) && (t.size.e <= 28)
        && qr_within_check(&t.center.x, m24) && qr_within_check(&t.center.y, m24)
        && qr_within_check(&t.size, m24) && (-amax <= t.angle) && (t.angle <= amax)
        && (img_center.x.e == img_center.y.e) && (img_center.x.e <= 30)
        && qr_within_check(&img_center.x, m27) && qr_within_check(&img_center.y, m27)
}

/// Decides `vertices_req` at run time, so that unverified callers can
/// guard a call to `vertices` or `to_polygon`.
pub fn vertices_req_check(t: &Tile) -> (r: bool)
    ensures
        r == vertices_req(t@),
{
    proof {
        lemma_pow2_facts();
    }
    let m57: i128 = pow2_i128(57);
    let amax: i64 = 0x2000000000000000;
    (t.center.x.e == t.center.y.e) && (t.center.x.e == t.size.e) && (t.size.e <= 58)
        && qr_within_check(&t.center.x, m57) && qr_within_check(&t.center.y, m57)
        && qr_within_check(&t.size, m57) && (-amax <= t.angle) && (t.angle <= amax)
}

/// Decides `q_within` at run time.
fn qr_within_check(q: &Qr, m: i128) -> (r: bool)
    requires
        m >= 0,
    ensures
        r == q_within(q@, m as int),
{
    -m <= q.a && q.a <= m && -m <= q.b && q.b <= m
}

} // verus!
