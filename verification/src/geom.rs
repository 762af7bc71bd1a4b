//! Exact 2D points and the geometry primitives of the tiling.
//!
//! Orientations are integer counts of 45-degree turns (eighths of a full
//! turn), so the cosine and sine of every angle the tiling uses are one of
//! `0`, `1`, `-1`, `sqrt(2)/2` or `-sqrt(2)/2`, and moving a point along
//! such a direction stays inside the exact scalars of [`crate::num`].

use vstd::prelude::*;

verus! {

use vstd::arithmetic::power2::pow2;
use vstd::arithmetic::power2::lemma_pow2_adds;
use vstd::arithmetic::power2::lemma2_to64;
use vstd::arithmetic::div_mod::lemma_fundamental_div_mod;
use vstd::arithmetic::div_mod::lemma_fundamental_div_mod_converse;
use vstd::math::abs;
use vstd::math::max;
use crate::num::Qr;
use crate::num::QrV;
use crate::num::q_at;
use crate::num::q_add;
use crate::num::q_sub;
use crate::num::q_neg;
use crate::num::q_div_sqrt2;
use crate::num::q_mul;
use crate::num::q_within;
use crate::num::add_ok;
use crate::num::lemma_pow2_facts;
use crate::num::lemma_pow2_le;
use crate::num::lemma_add_bounds;

/// An exact point of the plane.
#[derive(Clone, Copy, PartialEq, Eq, Structural, Debug)]
pub struct Point {
    pub x: Qr,
    pub y: Qr,
}

/// The mathematical model of a point.
pub ghost struct PointV {
    pub x: QrV,
    pub y: QrV,
}

impl View for Point {
    type V = PointV;

    open spec fn view(&self) -> PointV {
        PointV { x: self.x@, y: self.y@ }
    }
}

/// Both coordinates of a point are kept at the same denominator exponent.
pub open spec fn point_wf(p: PointV) -> bool {
    p.x.e == p.y.e
}

/// Both point coordinates equal the given values.
pub open spec fn point_equiv(p: PointV, q: PointV) -> bool {
    crate::num::q_equiv(p.x, q.x) && crate::num::q_equiv(p.y, q.y)
}

/// `d` scaled by the cosine of `k` eighths of a turn (`k * 45` degrees).
pub open spec fn q_cos_dir(d: QrV, k: int) -> QrV {
    let m = k % 8;
    if m == 0 {
        d
    } else if m == 1 {
        q_div_sqrt2(d)
    } else if m == 2 {
        QrV { a: 0, b: 0, e: d.e }
    } else if m == 3 {
        q_neg(q_div_sqrt2(d))
    } else if m == 4 {
        q_neg(d)
    } else if m == 5 {
        q_neg(q_div_sqrt2(d))
    } else if m == 6 {
        QrV { a: 0, b: 0, e: d.e }
    } else {
        q_div_sqrt2(d)
    }
}

/// `d` scaled by the sine of `k` eighths of a turn.
pub open spec fn q_sin_dir(d: QrV, k: int) -> QrV {
    let m = k % 8;
    if m == 0 {
        QrV { a: 0, b: 0, e: d.e }
    } else if m == 1 {
        q_div_sqrt2(d)
    } else if m == 2 {
        d
    } else if m == 3 {
        q_div_sqrt2(d)
    } else if m == 4 {
        QrV { a: 0, b: 0, e: d.e }
    } else if m == 5 {
        q_neg(q_div_sqrt2(d))
    } else if m == 6 {
        q_neg(d)
    } else {
        q_neg(q_div_sqrt2(d))
    }
}

/// The point at angle `k` eighths of a turn and distance `d` from `origin`:
/// `origin + d * (cos, sin)`.
pub open spec fn spec_point_at(origin: PointV, k: int, d: QrV) -> PointV {
    PointV { x: q_add(origin.x, q_cos_dir(d, k)), y: q_add(origin.y, q_sin_dir(d, k)) }
}

/// `p` rotated counter-clockwise about `c` by `k` eighths of a turn.
pub open spec fn spec_rotate(p: PointV, c: PointV, k: int) -> PointV {
    let tx = q_sub(p.x, c.x);
    let ty = q_sub(p.y, c.y);
    PointV {
        x: q_add(c.x, q_sub(q_cos_dir(tx, k), q_sin_dir(ty, k))),
        y: q_add(c.y, q_add(q_sin_dir(tx, k), q_cos_dir(ty, k))),
    }
}

/// The squared Euclidean distance between two points.
pub open spec fn spec_dist_sq(p: PointV, q: PointV) -> QrV {
    q_add(
        q_mul(q_sub(p.x, q.x), q_sub(p.x, q.x)),
        q_mul(q_sub(p.y, q.y), q_sub(p.y, q.y)),
    )
}

/// The direction factors share one exponent (the cosine and sine of one
/// angle are either both among `0, 1, -1` or both `sqrt(2)/2` in magnitude),
/// it exceeds the exponent of `d` by at most one, and the coefficients grow
/// by at most a factor of two.
pub proof fn lemma_dir_bounds(d: QrV, k: int, m: int)
    requires
        q_within(d, m),
        0 <= m,
    ensures
        q_cos_dir(d, k).e == q_sin_dir(d, k).e,
        d.e <= q_cos_dir(d, k).e <= d.e + 1,
        q_cos_dir(d, k).e == d.e ==> q_within(q_cos_dir(d, k), m) && q_within(q_sin_dir(d, k), m),
        q_within(q_cos_dir(d, k), 2 * m),
        q_within(q_sin_dir(d, k), 2 * m),
{
    let r = k % 8;
    assert(0 <= r < 8);
}

/// The residue of an angle, in eighths of a turn, as a value in `0..8`.
fn eighths_rem(angle: i64) -> (m: u8)
    requires
        angle != i64::MIN,
    ensures
        m as int == (angle as int) % 8,
        m < 8,
{
    if angle >= 0 {
        let u: u64 = angle as u64;
        let m: u64 = u % 8;
        m as u8
    } else {
        let p: u64 = (-angle) as u64;
        let r: u64 = p % 8;
        proof {
            lemma_fundamental_div_mod(p as int, 8);
            let q = (p as int) / 8;
            if r == 0 {
                lemma_fundamental_div_mod_converse(angle as int, 8, -q, 0);
            } else {
                lemma_fundamental_div_mod_converse(angle as int, 8, -q - 1, 8 - (r as int));
            }
        }
        if r == 0 {
            0u8
        } else {
            (8 - r) as u8
        }
    }
}

/// `d` scaled by the cosine of `m` eighths of a turn, for a residue `m`.
fn dir_cos(d: &Qr, m: u8) -> (r: Qr)
    requires
        m < 8,
        d@.e <= 125,
        abs(d@.a) < pow2(125),
        abs(d@.b) < pow2(125),
    ensures
        r@ == q_cos_dir(d@, m as int),
{
    proof {
        lemma_pow2_facts();
        lemma_pow2_le(125, 126);
        lemma_pow2_adds(125, 1);
        lemma2_to64();
    }
    match m {
        0 => *d,
        1 => d.div_sqrt2(),
        2 => Qr::zero_at(d.e),
        3 => d.div_sqrt2().negate(),
        4 => d.negate(),
        5 => d.div_sqrt2().negate(),
        6 => Qr::zero_at(d.e),
        _ => d.div_sqrt2(),
    }
}

/// `d` scaled by the sine of `m` eighths of a turn, for a residue `m`.
fn dir_sin(d: &Qr, m: u8) -> (r: Qr)
    requires
        m < 8,
        d@.e <= 125,
        abs(d@.a) < pow2(125),
        abs(d@.b) < pow2(125),
    ensures
        r@ == q_sin_dir(d@, m as int),
{
    proof {
        lemma_pow2_facts();
        lemma_pow2_le(125, 126);
        lemma_pow2_adds(125, 1);
        lemma2_to64();
    }
    match m {
        0 => Qr::zero_at(d.e),
        1 => d.div_sqrt2(),
        2 => *d,
        3 => d.div_sqrt2(),
        4 => Qr::zero_at(d.e),
        5 => d.div_sqrt2().negate(),
        6 => d.negate(),
        _ => d.div_sqrt2().negate(),
    }
}

/// The point at the given angle (in eighths of a turn) and exact distance
/// from `origin`.
pub fn point_at_angle_and_distance(origin: &Point, angle: i64, distance: &Qr) -> (r: Point)
    requires
        point_wf(origin@),
        angle != i64::MIN,
        q_within(origin@.x, pow2(60) as int),
        q_within(origin@.y, pow2(60) as int),
        q_within(distance@, pow2(60) as int),
        origin@.x.e <= 124,
        distance@.e <= 124,
        origin@.x.e <= distance@.e + 59,
        distance@.e <= origin@.x.e + 59,
    ensures
        r@ == spec_point_at(origin@, angle as int, distance@),
        point_wf(r@),
{
    let m = eighths_rem(angle);
    proof {
        lemma_pow2_facts();
        vstd::arithmetic::power2::lemma_pow2_strictly_increases(60, 125);
    }
    let c = dir_cos(distance, m);
    let s = dir_sin(distance, m);
    proof {
        lemma_dir_bounds(distance@, angle as int, pow2(60) as int);
        lemma_pow2_adds(60, 1);
        lemma_add_bounds(origin@.x, c@, 60, 61, 60, 59, 122);
        lemma_add_bounds(origin@.y, s@, 60, 61, 60, 59, 122);
    }
    Point { x: origin.x.plus(&c), y: origin.y.plus(&s) }
}

/// `point` rotated counter-clockwise about `center` by the given angle, in
/// eighths of a turn.
#[verifier::rlimit(100)]
#[verifier::spinoff_prover]
pub fn rotate_point_about_center(point: &Point, center: &Point, angle: i64) -> (r: Point)
    requires
        point_wf(point@),
        point_wf(center@),
        angle != i64::MIN,
        q_within(point@.x, pow2(57) as int),
        q_within(point@.y, pow2(57) as int),
        q_within(center@.x, pow2(57) as int),
        q_within(center@.y, pow2(57) as int),
        point@.x.e <= 58,
        center@.x.e <= 58,
    ensures
        r@ == spec_rotate(point@, center@, angle as int),
        point_wf(r@),
{
    let m = eighths_rem(angle);
    proof {
        assert((m as int) % 8 == (angle as int) % 8);
        lemma_pow2_facts();
        lemma_add_bounds(point@.x, center@.x, 57, 57, 58, 58, 116);
        lemma_add_bounds(point@.y, center@.y, 57, 57, 58, 58, 116);
    }
    let tx = point.x.minus(&center.x);
    let ty = point.y.minus(&center.y);
    proof {
        vstd::arithmetic::power2::lemma_pow2_strictly_increases(116, 125);
        lemma_dir_bounds(tx@, angle as int, pow2(116) as int);
        lemma_dir_bounds(ty@, angle as int, pow2(116) as int);
        lemma_pow2_adds(116, 1);
    }
    let ctx = dir_cos(&tx, m);
    let sty = dir_sin(&ty, m);
    let stx = dir_sin(&tx, m);
    let cty = dir_cos(&ty, m);
    proof {
        lemma_add_bounds(ctx@, sty@, 117, 117, 0, 0, 118);
        lemma_add_bounds(stx@, cty@, 117, 117, 0, 0, 118);
    }
    let rx = ctx.minus(&sty);
    let ry = stx.plus(&cty);
    proof {
        lemma_add_bounds(center@.x, rx@, 57, 118, 60, 0, 121);
        lemma_add_bounds(center@.y, ry@, 57, 118, 60, 0, 121);
    }
    Point { x: center.x.plus(&rx), y: center.y.plus(&ry) }
}

} // verus!
