//! Exact scalars of the form `(a + b*sqrt(2)) / 2^e`.
//!
//! The Ammann-Beenker substitution rule only ever adds points, halves
//! lengths, and scales lengths by `sqrt(2)` or `1/sqrt(2)`, so starting from
//! integer data every quantity it produces stays in this set.  Because
//! `sqrt(2)` is irrational, two values `(a1 + b1*sqrt(2)) / 2^e1` and
//! `(a2 + b2*sqrt(2)) / 2^e2` are equal exactly when their coefficient pairs
//! agree after scaling both to the larger exponent; equality of values is
//! therefore decided by integer arithmetic alone.

use vstd::prelude::*;

verus! {

use vstd::arithmetic::power2::pow2;
use vstd::arithmetic::power2::lemma_pow2_adds;
use vstd::arithmetic::power2::lemma_pow2_pos;
use vstd::arithmetic::power2::lemma_pow2_strictly_increases;
use vstd::arithmetic::power2::lemma2_to64;
use vstd::arithmetic::power2::lemma2_to64_rest;
use vstd::math::abs;
use vstd::math::max;

/// An exact scalar: the value `(a + b*sqrt(2)) / 2^e`.
#[derive(Clone, Copy, PartialEq, Eq, Structural, Debug)]
pub struct Qr {
    pub a: i128,
    pub b: i128,
    pub e: u32,
}

/// The mathematical model of a scalar: the same triple over unbounded
/// integers.
pub ghost struct QrV {
    pub a: int,
    pub b: int,
    pub e: nat,
}

impl View for Qr {
    type V = QrV;

    open spec fn view(&self) -> QrV {
        QrV { a: self.a as int, b: self.b as int, e: self.e as nat }
    }
}

/// The same value rewritten at the (larger) exponent `e`: both coefficients
/// are scaled by `2^(e - x.e)`, which leaves the value unchanged.
pub open spec fn q_at(x: QrV, e: nat) -> QrV {
    if e < x.e {
        x
    } else {
        QrV {
            a: x.a * pow2((e - x.e) as nat),
            b: x.b * pow2((e - x.e) as nat),
            e,
        }
    }
}

/// Value equality: compare the coefficients after scaling both operands to
/// the common (larger) exponent.  Since `sqrt(2)` is irrational, this holds
/// exactly when the two triples denote the same real number.
pub open spec fn q_equiv(x: QrV, y: QrV) -> bool {
    let e = max(x.e as int, y.e as int) as nat;
    q_at(x, e).a == q_at(y, e).a && q_at(x, e).b == q_at(y, e).b
}

/// The representation of zero; a triple denotes zero exactly when both
/// coefficients are zero.
pub open spec fn q_is_zero(x: QrV) -> bool {
    x.a == 0 && x.b == 0
}

/// The sum, at the common (larger) exponent.
pub open spec fn q_add(x: QrV, y: QrV) -> QrV {
    let e = max(x.e as int, y.e as int) as nat;
    QrV { a: q_at(x, e).a + q_at(y, e).a, b: q_at(x, e).b + q_at(y, e).b, e }
}

/// The difference, at the common (larger) exponent.
pub open spec fn q_sub(x: QrV, y: QrV) -> QrV {
    let e = max(x.e as int, y.e as int) as nat;
    QrV { a: q_at(x, e).a - q_at(y, e).a, b: q_at(x, e).b - q_at(y, e).b, e }
}

/// The negation.
pub open spec fn q_neg(x: QrV) -> QrV {
    QrV { a: -x.a, b: -x.b, e: x.e }
}

/// Half the value: the denominator exponent grows by one.
pub open spec fn q_half(x: QrV) -> QrV {
    QrV { a: x.a, b: x.b, e: (x.e + 1) as nat }
}

/// The value divided by `sqrt(2)`: `(a + b*sqrt(2)) / sqrt(2) ==
/// (2*b + a*sqrt(2)) / 2`.
pub open spec fn q_div_sqrt2(x: QrV) -> QrV {
    QrV { a: 2 * x.b, b: x.a, e: (x.e + 1) as nat }
}

/// The value multiplied by `sqrt(2)`: `(a + b*sqrt(2)) * sqrt(2) ==
/// 2*b + a*sqrt(2)`.
pub open spec fn q_mul_sqrt2(x: QrV) -> QrV {
    QrV { a: 2 * x.b, b: x.a, e: x.e }
}

/// The product: `(a1 + b1*s)(a2 + b2*s) == a1*a2 + 2*b1*b2 + (a1*b2 +
/// b1*a2)*s` for `s == sqrt(2)`.
pub open spec fn q_mul(x: QrV, y: QrV) -> QrV {
    QrV {
        a: x.a * y.a + 2 * (x.b * y.b),
        b: x.a * y.b + x.b * y.a,
        e: (x.e + y.e) as nat,
    }
}

/// Both coefficients are at most `m` in magnitude.
pub open spec fn q_within(x: QrV, m: int) -> bool {
    abs(x.a) <= m && abs(x.b) <= m
}

/// Rescaling to exponent `e` stays within the machine integers.
pub open spec fn at_ok(x: QrV, e: nat) -> bool {
    &&& x.e <= e <= 126
    &&& abs(x.a) * pow2((e - x.e) as nat) < pow2(126)
    &&& abs(x.b) * pow2((e - x.e) as nat) < pow2(126)
}

/// The sum or difference at the common exponent stays within the machine
/// integers.
pub open spec fn add_ok(x: QrV, y: QrV) -> bool {
    let e = max(x.e as int, y.e as int) as nat;
    &&& e <= 126
    &&& abs(x.a) * pow2((e - x.e) as nat) + abs(y.a) * pow2((e - y.e) as nat) < pow2(126)
    &&& abs(x.b) * pow2((e - x.e) as nat) + abs(y.b) * pow2((e - y.e) as nat) < pow2(126)
}

/// The product stays within the machine integers.
pub open spec fn mul_ok(x: QrV, y: QrV) -> bool {
    &&& x.e + y.e <= 126
    &&& q_within(x, pow2(60) as int)
    &&& q_within(y, pow2(60) as int)
}

/// Concrete values of the powers of two that the bounds in this crate use,
/// and their relation to the `i128` range.
pub proof fn lemma_pow2_facts()
    ensures
        pow2(0) == 1,
        pow2(1) == 2,
        pow2(2) == 4,
        pow2(24) == 0x1000000,
        pow2(25) == 0x2000000,
        pow2(26) == 0x4000000,
        pow2(27) == 0x8000000,
        pow2(30) == 0x40000000,
        pow2(57) == 0x200000000000000,
        pow2(61) == 0x2000000000000000,
        pow2(126) == 0x40000000000000000000000000000000,
        pow2(126) < i128::MAX as int,
        -(pow2(126) as int) > i128::MIN as int,
{
    lemma2_to64();
    lemma2_to64_rest();
    lemma_pow2_adds(63, 63);
    assert(pow2(63) == 0x8000000000000000);
}

/// For nonnegative `m`, multiplying by `m` maps the band `[-bx, bx]` into
/// `[-bx*m, bx*m]`.
pub proof fn lemma_mul_band(x: int, bx: int, m: int)
    by (nonlinear_arith)
    requires
        -bx <= x <= bx,
        0 <= m,
    ensures
        -(bx * m) <= x * m <= bx * m,
{
}

/// Bounds on the factors bound the product.
pub proof fn lemma_mul_le(a: int, b: int, c: int, d: int)
    by (nonlinear_arith)
    requires
        0 <= a <= b,
        0 <= c <= d,
    ensures
        a * c <= b * d,
{
}

/// Multiplying by a power of two scales the magnitude exactly.
pub proof fn lemma_mul_pow2_abs(x: int, s: nat)
    ensures
        abs(x * pow2(s)) == abs(x) * pow2(s),
        -(abs(x) * pow2(s) as int) <= x * pow2(s) <= abs(x) * pow2(s),
{
    lemma_pow2_pos(s);
    lemma_mul_band(x, abs(x) as int, pow2(s) as int);
    if x >= 0 {
        assert(x * pow2(s) >= 0) by (nonlinear_arith)
            requires x >= 0, pow2(s) >= 0,
        {}
        assert(x * pow2(s) == abs(x) * pow2(s));
    } else {
        assert(x * pow2(s) == -((-x) * pow2(s))) by (nonlinear_arith) {}
        assert((-x) * pow2(s) >= 0) by (nonlinear_arith)
            requires -x >= 0, pow2(s) >= 0,
        {}
        assert(abs(x * pow2(s)) == (-x) * pow2(s));
        assert(abs(x) * pow2(s) == (-x) * pow2(s));
    }
}

/// `2^k` as a machine integer.
pub(crate) fn pow2_i128(k: u32) -> (r: i128)
    requires
        k <= 126,
    ensures
        r == pow2(k as nat),
        r >= 1,
{
    proof {
        lemma_pow2_facts();
    }
    let mut r: i128 = 1;
    let mut i: u32 = 0;
    while i < k
        invariant
            i <= k,
            k <= 126,
            r == pow2(i as nat),
            1 <= r,
            pow2(126) < i128::MAX as int,
        decreases k - i,
    {
        proof {
            lemma_pow2_adds(i as nat, 1);
            lemma2_to64();
            if (i + 1) < 126 {
                lemma_pow2_strictly_increases((i + 1) as nat, 126);
            }
        }
        r = r * 2;
        i = i + 1;
    }
    r
}

impl Qr {
    /// The scalar `a + b*sqrt(2)` scaled by `1 / 2^e`.
    pub fn new(a: i128, b: i128, e: u32) -> (r: Qr)
        ensures
            r@ == (QrV { a: a as int, b: b as int, e: e as nat }),
    {
        Qr { a, b, e }
    }

    /// The integer `n` as an exact scalar.
    pub fn from_int(n: i64) -> (r: Qr)
        ensures
            r@ == (QrV { a: n as int, b: 0, e: 0 }),
    {
        Qr { a: n as i128, b: 0, e: 0 }
    }

    /// The representation of zero at exponent `e`.
    pub fn zero_at(e: u32) -> (r: Qr)
        ensures
            r@ == (QrV { a: 0, b: 0, e: e as nat }),
    {
        Qr { a: 0, b: 0, e }
    }

    /// The same value rewritten at the larger exponent `e`.
    pub fn at_exp(&self, e: u32) -> (r: Qr)
        requires
            at_ok(self@, e as nat),
        ensures
            r@ == q_at(self@, e as nat),
    {
        let shift: u32 = e - self.e;
        let m: i128 = pow2_i128(shift);
        proof {
            lemma_pow2_facts();
            lemma_mul_pow2_abs(self.a as int, shift as nat);
            lemma_mul_pow2_abs(self.b as int, shift as nat);
        }
        Qr { a: self.a * m, b: self.b * m, e }
    }

    /// The sum of the two values, at their common (larger) exponent.
    pub fn plus(&self, other: &Qr) -> (r: Qr)
        requires
            add_ok(self@, other@),
        ensures
            r@ == q_add(self@, other@),
    {
        let e: u32 = if self.e >= other.e { self.e } else { other.e };
        let sx: u32 = e - self.e;
        let sy: u32 = e - other.e;
        let mx: i128 = pow2_i128(sx);
        let my: i128 = pow2_i128(sy);
        proof {
            lemma_pow2_facts();
            lemma_pow2_pos(sx as nat);
            lemma_pow2_pos(sy as nat);
            lemma_mul_pow2_abs(self.a as int, sx as nat);
            lemma_mul_pow2_abs(self.b as int, sx as nat);
            lemma_mul_pow2_abs(other.a as int, sy as nat);
            lemma_mul_pow2_abs(other.b as int, sy as nat);
        }
        Qr { a: self.a * mx + other.a * my, b: self.b * mx + other.b * my, e }
    }

    /// The difference of the two values, at their common (larger) exponent.
    pub fn minus(&self, other: &Qr) -> (r: Qr)
        requires
            add_ok(self@, other@),
        ensures
            r@ == q_sub(self@, other@),
    {
        let e: u32 = if self.e >= other.e { self.e } else { other.e };
        let sx: u32 = e - self.e;
        let sy: u32 = e - other.e;
        let mx: i128 = pow2_i128(sx);
        let my: i128 = pow2_i128(sy);
        proof {
            lemma_pow2_facts();
            lemma_pow2_pos(sx as nat);
            lemma_pow2_pos(sy as nat);
            lemma_mul_pow2_abs(self.a as int, sx as nat);
            lemma_mul_pow2_abs(self.b as int, sx as nat);
            lemma_mul_pow2_abs(other.a as int, sy as nat);
            lemma_mul_pow2_abs(other.b as int, sy as nat);
        }
        Qr { a: self.a * mx - other.a * my, b: self.b * mx - other.b * my, e }
    }

    /// The negated value.
    pub fn negate(&self) -> (r: Qr)
        requires
            abs(self@.a) < pow2(126),
            abs(self@.b) < pow2(126),
        ensures
            r@ == q_neg(self@),
    {
        proof {
            lemma_pow2_facts();
        }
        Qr { a: -self.a, b: -self.b, e: self.e }
    }

    /// Half the value.
    pub fn half(&self) -> (r: Qr)
        requires
            self@.e <= 125,
        ensures
            r@ == q_half(self@),
    {
        Qr { a: self.a, b: self.b, e: self.e + 1 }
    }

    /// The value divided by `sqrt(2)`.
    pub fn div_sqrt2(&self) -> (r: Qr)
        requires
            self@.e <= 125,
            abs(self@.a) < pow2(126),
            abs(self@.b) < pow2(125),
        ensures
            r@ == q_div_sqrt2(self@),
    {
        proof {
            lemma_pow2_facts();
            lemma_pow2_adds(125, 1);
        }
        Qr { a: 2 * self.b, b: self.a, e: self.e + 1 }
    }

    /// The value multiplied by `sqrt(2)`.
    pub fn mul_sqrt2(&self) -> (r: Qr)
        requires
            abs(self@.a) < pow2(126),
            abs(self@.b) < pow2(125),
        ensures
            r@ == q_mul_sqrt2(self@),
    {
        proof {
            lemma_pow2_facts();
            lemma_pow2_adds(125, 1);
        }
        Qr { a: 2 * self.b, b: self.a, e: self.e }
    }

    /// The product of the two values.
    pub fn times(&self, other: &Qr) -> (r: Qr)
        requires
            mul_ok(self@, other@),
        ensures
            r@ == q_mul(self@, other@),
    {
        proof {
            lemma_pow2_facts();
            lemma_pow2_adds(60, 60);
            lemma_pow2_adds(120, 1);
            lemma_pow2_adds(120, 2);
            lemma_pow2_strictly_increases(122, 126);
            lemma_abs_mul_bound(self.a as int, other.a as int, pow2(60) as int);
            lemma_abs_mul_bound(self.b as int, other.b as int, pow2(60) as int);
            lemma_abs_mul_bound(self.a as int, other.b as int, pow2(60) as int);
            lemma_abs_mul_bound(self.b as int, other.a as int, pow2(60) as int);
            lemma_pow2_strictly_increases(121, 126);
        }
        Qr {
            a: self.a * other.a + 2 * (self.b * other.b),
            b: self.a * other.b + self.b * other.a,
            e: self.e + other.e,
        }
    }

    /// Whether the two triples denote the same value.
    pub fn eq_val(&self, other: &Qr) -> (r: bool)
        requires
            add_ok(self@, other@),
        ensures
            r == q_equiv(self@, other@),
    {
        let e: u32 = if self.e >= other.e { self.e } else { other.e };
        let sx: u32 = e - self.e;
        let sy: u32 = e - other.e;
        let mx: i128 = pow2_i128(sx);
        let my: i128 = pow2_i128(sy);
        proof {
            lemma_pow2_facts();
            lemma_pow2_pos(sx as nat);
            lemma_pow2_pos(sy as nat);
            lemma_mul_pow2_abs(self.a as int, sx as nat);
            lemma_mul_pow2_abs(self.b as int, sx as nat);
            lemma_mul_pow2_abs(other.a as int, sy as nat);
            lemma_mul_pow2_abs(other.b as int, sy as nat);
        }
        self.a * mx == other.a * my && self.b * mx == other.b * my
    }

    /// Whether the value is zero.  A triple denotes zero exactly when both
    /// coefficients are zero, because `sqrt(2)` is irrational.
    pub fn is_zero_val(&self) -> (r: bool)
        ensures
            r == q_is_zero(self@),
    {
        self.a == 0 && self.b == 0
    }
}

/// Rewriting a scalar at a larger exponent leaves its value unchanged.
pub proof fn lemma_q_at_preserves_value(x: QrV, e: nat)
    requires
        x.e <= e,
    ensures
        q_equiv(q_at(x, e), x),
{
    lemma2_to64();
    let y = q_at(x, e);
    assert(y.e == e);
    let ee = max(y.e as int, x.e as int) as nat;
    assert(ee == e);
    assert(q_at(y, ee).a == y.a * pow2(0));
    assert(q_at(y, ee).b == y.b * pow2(0));
    assert(y.a * pow2(0) == y.a);
    assert(y.b * pow2(0) == y.b);
    assert(q_at(x, ee) == y);
}

/// A triple denotes the value zero exactly when both coefficients are
/// zero: `a + b*sqrt(2)` vanishes only for `a == b == 0`, since `sqrt(2)`
/// is irrational.
pub proof fn lemma_zero_value(x: QrV)
    ensures
        q_is_zero(x) <==> q_equiv(x, QrV { a: 0, b: 0, e: 0 }),
{
    lemma2_to64();
    let z = QrV { a: 0, b: 0, e: 0 };
    let ee = max(x.e as int, z.e as int) as nat;
    assert(ee == x.e);
    assert(q_at(x, ee).a == x.a * pow2(0));
    assert(q_at(x, ee).b == x.b * pow2(0));
    assert(x.a * pow2(0) == x.a);
    assert(x.b * pow2(0) == x.b);
    assert(q_at(z, ee).a == 0 * pow2(x.e));
    assert(q_at(z, ee).b == 0 * pow2(x.e));
    assert(0 * pow2(x.e) == 0);
}

/// Powers of two are monotone.
pub proof fn lemma_pow2_le(e1: nat, e2: nat)
    requires
        e1 <= e2,
    ensures
        pow2(e1) <= pow2(e2),
{
    if e1 < e2 {
        lemma_pow2_strictly_increases(e1, e2);
    }
}

/// Discharges the machine-range side conditions of a sum or difference from
/// power-of-two bounds on the coefficients (`2^kx`, `2^ky`) and on the
/// exponent shifts (`sx`, `sy`), and bounds the result by `2^k`.
pub proof fn lemma_add_bounds(x: QrV, y: QrV, kx: nat, ky: nat, sx: nat, sy: nat, k: nat)
    requires
        q_within(x, pow2(kx) as int),
        q_within(y, pow2(ky) as int),
        max(x.e as int, y.e as int) <= 126,
        max(x.e as int, y.e as int) - x.e <= sx,
        max(x.e as int, y.e as int) - y.e <= sy,
        kx + sx < k,
        ky + sy < k,
        k <= 125,
    ensures
        add_ok(x, y),
        q_within(q_add(x, y), pow2(k) as int),
        q_within(q_sub(x, y), pow2(k) as int),
{
    let e = max(x.e as int, y.e as int) as nat;
    let dx = (e - x.e) as nat;
    let dy = (e - y.e) as nat;
    lemma_pow2_le(dx, sx);
    lemma_pow2_le(dy, sy);
    lemma_pow2_pos(dx);
    lemma_pow2_pos(dy);
    lemma_mul_le(abs(x.a) as int, pow2(kx) as int, pow2(dx) as int, pow2(sx) as int);
    lemma_mul_le(abs(x.b) as int, pow2(kx) as int, pow2(dx) as int, pow2(sx) as int);
    lemma_mul_le(abs(y.a) as int, pow2(ky) as int, pow2(dy) as int, pow2(sy) as int);
    lemma_mul_le(abs(y.b) as int, pow2(ky) as int, pow2(dy) as int, pow2(sy) as int);
    lemma_pow2_adds(kx, sx);
    lemma_pow2_adds(ky, sy);
    lemma_pow2_le(kx + sx, (k - 1) as nat);
    lemma_pow2_le(ky + sy, (k - 1) as nat);
    lemma_pow2_adds((k - 1) as nat, 1);
    lemma2_to64();
    lemma_pow2_le(k, 125);
    lemma_pow2_strictly_increases(125, 126);
    lemma_mul_pow2_abs(x.a, dx);
    lemma_mul_pow2_abs(x.b, dx);
    lemma_mul_pow2_abs(y.a, dy);
    lemma_mul_pow2_abs(y.b, dy);
}

/// Discharges the machine-range side condition of a rescaling from a
/// power-of-two bound `2^kx` on the coefficients and `s` on the shift.
pub proof fn lemma_at_bounds(x: QrV, e: nat, kx: nat, s: nat)
    requires
        q_within(x, pow2(kx) as int),
        x.e <= e <= 126,
        e - x.e <= s,
        kx + s <= 125,
    ensures
        at_ok(x, e),
        q_within(q_at(x, e), pow2(kx + s) as int),
{
    let d = (e - x.e) as nat;
    lemma_pow2_le(d, s);
    lemma_pow2_pos(d);
    lemma_mul_le(abs(x.a) as int, pow2(kx) as int, pow2(d) as int, pow2(s) as int);
    lemma_mul_le(abs(x.b) as int, pow2(kx) as int, pow2(d) as int, pow2(s) as int);
    lemma_pow2_adds(kx, s);
    lemma_pow2_le(kx + s, 125);
    lemma_pow2_strictly_increases(125, 126);
    lemma_mul_pow2_abs(x.a, d);
    lemma_mul_pow2_abs(x.b, d);
}

/// Bounds on both factors bound the magnitude of the product.
pub proof fn lemma_abs_mul_bound(x: int, y: int, m: int)
    by (nonlinear_arith)
    requires
        abs(x) <= m,
        abs(y) <= m,
    ensures
        -(m * m) <= x * y <= m * m,
{
}

} // verus!
