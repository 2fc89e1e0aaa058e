//! Three-component fixed-point vectors, used both as points and as colours.

use vstd::prelude::*;
use crate::fixed::{FP_ONE, FP_BOUND, tdiv, spec_fmul, spec_fdiv, is_sqrt, sqrt_floor,
    lemma_tdiv_abs, lemma_tdiv_neg, lemma_tdiv_mono, lemma_mul_abs, lemma_sqrt_floor_pos, fmul,
    fdiv, isqrt};
use crate::rng::Sampler;

verus! {

/// A vector of three fixed-point components.
#[derive(Clone, Copy, PartialEq, Eq, Structural, Debug)]
pub struct Vec3 {
    pub x: i64,
    pub y: i64,
    pub z: i64,
}

/// A vector read as a location in space.
pub type Point3 = Vec3;

/// A vector read as an RGB colour.
pub type Colour = Vec3;

/// Every component lies within magnitude `m`.
pub open spec fn bounded(v: Vec3, m: int) -> bool {
    &&& -m <= v.x <= m
    &&& -m <= v.y <= m
    &&& -m <= v.z <= m
}

/// The raw (unscaled) inner product of the components.
pub open spec fn sdot(a: Vec3, b: Vec3) -> int {
    a.x * b.x + a.y * b.y + a.z * b.z
}

/// The fixed-point inner product: the raw product rescaled once.
pub open spec fn spec_dot(a: Vec3, b: Vec3) -> int {
    tdiv(sdot(a, b), FP_ONE as int)
}

/// Raw first component of the cross product.
pub open spec fn cross_raw_x(a: Vec3, b: Vec3) -> int {
    a.y * b.z - a.z * b.y
}

/// Raw second component of the cross product.
pub open spec fn cross_raw_y(a: Vec3, b: Vec3) -> int {
    a.z * b.x - a.x * b.z
}

/// Raw third component of the cross product.
pub open spec fn cross_raw_z(a: Vec3, b: Vec3) -> int {
    a.x * b.y - a.y * b.x
}

/// The fixed-point squared length.
pub open spec fn spec_length_squared(v: Vec3) -> int {
    spec_dot(v, v)
}

/// The fixed-point length: the integer square root of the squared length
/// brought back to the fixed-point scale.
pub open spec fn spec_length(v: Vec3) -> int {
    sqrt_floor(spec_length_squared(v) * FP_ONE)
}

/// The vector rescaled to (approximately) unit length, as a function.
pub open spec fn spec_unit(v: Vec3) -> Vec3 {
    Vec3 {
        x: spec_fdiv(v.x as int, spec_length(v)) as i64,
        y: spec_fdiv(v.y as int, spec_length(v)) as i64,
        z: spec_fdiv(v.z as int, spec_length(v)) as i64,
    }
}

/// A direction of squared length at least two lattice steps has a length
/// well away from zero, and its unit form stays within twice the unit scale.
pub proof fn lemma_unit_bounded(v: Vec3)
    requires
        bounded(v, FP_BOUND as int),
        spec_length_squared(v) >= 2,
    ensures
        257 <= spec_length(v),
        is_sqrt(spec_length_squared(v) * FP_ONE, spec_length(v)),
        bounded(spec_unit(v), 2 * FP_ONE as int),
        spec_unit(v).x == spec_fdiv(v.x as int, spec_length(v)),
        spec_unit(v).y == spec_fdiv(v.y as int, spec_length(v)),
        spec_unit(v).z == spec_fdiv(v.z as int, spec_length(v)),
{
    let sd = sdot(v, v);
    let ls = spec_length_squared(v);
    let n = ls * FP_ONE;
    let len = spec_length(v);
    lemma_sdot_self_nonneg(v);
    lemma_sqrt_floor_pos(n);
    assert(len >= 257) by (nonlinear_arith)
        requires
            len >= 0 && n < (len + 1) * (len + 1) && n >= 131072,
    ;
    vstd::arithmetic::div_mod::lemma_fundamental_div_mod(sd, FP_ONE as int);
    vstd::arithmetic::div_mod::lemma_mod_division_less_than_divisor(sd, FP_ONE as int);
    assert(sd < n + FP_ONE);
    assert(-(len + 257) <= v.x <= len + 257 && -(len + 257) <= v.y <= len + 257 && -(len + 257)
        <= v.z <= len + 257) by (nonlinear_arith)
        requires
            v.x * v.x <= sd && v.y * v.y <= sd && v.z * v.z <= sd && sd < (len + 1) * (len + 1)
                + 65536 && len >= 257,
    ;
    vstd::arithmetic::div_mod::lemma_div_by_multiple(2 * FP_ONE as int, len);
    lemma_tdiv_neg(2 * FP_ONE * len, len);
    lemma_tdiv_mono(v.x * FP_ONE, 2 * FP_ONE * len, len);
    lemma_tdiv_mono(-(2 * FP_ONE * len), v.x * FP_ONE, len);
    lemma_tdiv_mono(v.y * FP_ONE, 2 * FP_ONE * len, len);
    lemma_tdiv_mono(-(2 * FP_ONE * len), v.y * FP_ONE, len);
    lemma_tdiv_mono(v.z * FP_ONE, 2 * FP_ONE * len, len);
    lemma_tdiv_mono(-(2 * FP_ONE * len), v.z * FP_ONE, len);
}

/// Normalization lands within a few lattice steps of unit length: for any
/// direction of length at least half a unit, the squared length of its unit
/// form differs from one by at most sixteen parts in sixty-five thousand.
pub proof fn lemma_unit_length(v: Vec3)
    requires
        bounded(v, FP_BOUND as int),
        spec_length(v) >= 32768,
    ensures
        FP_ONE - 13 <= spec_length_squared(spec_unit(v)) <= FP_ONE + 16,
        FP_ONE - 7 <= spec_length(spec_unit(v)) <= FP_ONE + 8,
{
    let l = spec_length(v);
    let sd = sdot(v, v);
    let ls = spec_length_squared(v);
    let n = ls * 65536;
    lemma_sdot_self_nonneg(v);
    vstd::arithmetic::div_mod::lemma_div_pos_is_pos(sd, 65536);
    crate::fixed::lemma_sqrt_floor_props(n);
    assert(l * l >= 32768 * l && 32768 * l >= 32768 * 32768 && (l + 1) * (l + 1) == l * l + 2 * l
        + 1) by (nonlinear_arith)
        requires
            l >= 32768,
    ;
    assert(ls >= 2);
    lemma_unit_bounded(v);
    let u = spec_unit(v);
    vstd::arithmetic::div_mod::lemma_fundamental_div_mod(sd, 65536);
    vstd::arithmetic::div_mod::lemma_mod_division_less_than_divisor(sd, 65536);
    assert(n <= sd < n + 65536);
    assert(-(l + 1) <= v.x <= l + 1 && -(l + 1) <= v.y <= l + 1 && -(l + 1) <= v.z <= l + 1)
        by (nonlinear_arith)
        requires
            v.x * v.x <= sd && v.y * v.y <= sd && v.z * v.z <= sd && sd < l * l + 2 * l + 1
                + 65536 && l >= 32768,
    ;
    crate::fixed::lemma_scaled_div_err(v.x as int, l);
    crate::fixed::lemma_scaled_div_err(v.y as int, l);
    crate::fixed::lemma_scaled_div_err(v.z as int, l);
    let qx = u.x as int * u.x;
    let qy = u.y as int * u.y;
    let qz = u.z as int * u.z;
    assert(l * l * qx <= 65536 * 65536 * (v.x * v.x) + 2 * 65536 * (l * l) + 2 * 65536 * l + l * l
        && l * l * qx >= 65536 * 65536 * (v.x * v.x) - 2 * 65536 * (l * l) - 2 * 65536 * l - l
        * l) by (nonlinear_arith)
        requires
            qx == u.x as int * u.x && -l < u.x * l - v.x * 65536 <= l && -(l + 1) <= v.x <= l + 1
                && l >= 1,
    ;
    assert(l * l * qy <= 65536 * 65536 * (v.y * v.y) + 2 * 65536 * (l * l) + 2 * 65536 * l + l * l
        && l * l * qy >= 65536 * 65536 * (v.y * v.y) - 2 * 65536 * (l * l) - 2 * 65536 * l - l
        * l) by (nonlinear_arith)
        requires
            qy == u.y as int * u.y && -l < u.y * l - v.y * 65536 <= l && -(l + 1) <= v.y <= l + 1
                && l >= 1,
    ;
    assert(l * l * qz <= 65536 * 65536 * (v.z * v.z) + 2 * 65536 * (l * l) + 2 * 65536 * l + l * l
        && l * l * qz >= 65536 * 65536 * (v.z * v.z) - 2 * 65536 * (l * l) - 2 * 65536 * l - l
        * l) by (nonlinear_arith)
        requires
            qz == u.z as int * u.z && -l < u.z * l - v.z * 65536 <= l && -(l + 1) <= v.z <= l + 1
                && l >= 1,
    ;
    assert(l * l * (qx + qy + qz) == l * l * qx + l * l * qy + l * l * qz) by (nonlinear_arith);
    assert(sdot(u, u) == qx + qy + qz);
    assert(l * l * sdot(u, u) == l * l * qx + l * l * qy + l * l * qz);
    assert(sd == v.x * v.x + v.y * v.y + v.z * v.z);
    assert(l * l * sdot(u, u) <= 65536 * 65536 * sd + 6 * 65536 * (l * l) + 6 * 65536 * l + 3 * (l
        * l)) by (nonlinear_arith)
        requires
            l * l * sdot(u, u) == l * l * qx + l * l * qy + l * l * qz,
            sd == v.x * v.x + v.y * v.y + v.z * v.z,
            l * l * qx <= 65536 * 65536 * (v.x * v.x) + 2 * 65536 * (l * l) + 2 * 65536 * l + l
                * l,
            l * l * qy <= 65536 * 65536 * (v.y * v.y) + 2 * 65536 * (l * l) + 2 * 65536 * l + l
                * l,
            l * l * qz <= 65536 * 65536 * (v.z * v.z) + 2 * 65536 * (l * l) + 2 * 65536 * l + l
                * l,
    ;
    assert(l * l * sdot(u, u) >= 65536 * 65536 * sd - 6 * 65536 * (l * l) - 6 * 65536 * l - 3 * (l
        * l)) by (nonlinear_arith)
        requires
            l * l * sdot(u, u) == l * l * qx + l * l * qy + l * l * qz,
            sd == v.x * v.x + v.y * v.y + v.z * v.z,
            l * l * qx >= 65536 * 65536 * (v.x * v.x) - 2 * 65536 * (l * l) - 2 * 65536 * l - l
                * l,
            l * l * qy >= 65536 * 65536 * (v.y * v.y) - 2 * 65536 * (l * l) - 2 * 65536 * l - l
                * l,
            l * l * qz >= 65536 * 65536 * (v.z * v.z) - 2 * 65536 * (l * l) - 2 * 65536 * l - l
                * l,
    ;
    assert(65536 * 65536 * sd >= 65536 * 65536 * (l * l));
    assert(65536 * 65536 * sd <= 65536 * 65536 * (l * l) + 65536 * 65536 * (2 * l) + 65536 * 65536
        * 65536);
    assert(65536 * 65536 * (2 * l) + 65536 * 65536 * 65536 + 6 * 65536 * l <= 10 * 65536 * (l * l)
        && 6 * 65536 * l <= 6 * 65536 * (l * l)) by (nonlinear_arith)
        requires
            l >= 32768,
    ;
    assert(l * l * sdot(u, u) <= (65536int * 65536 + 16 * 65536 + 3) * (l * l) && l * l * sdot(
        u,
        u,
    ) >= (65536int * 65536 - 12 * 65536 - 3) * (l * l)) by (nonlinear_arith)
        requires
            l * l * sdot(u, u) <= 65536 * 65536 * sd + 6 * 65536 * (l * l) + 6 * 65536 * l + 3 * (
            l * l),
            l * l * sdot(u, u) >= 65536 * 65536 * sd - 6 * 65536 * (l * l) - 6 * 65536 * l - 3 * (
            l * l),
            65536 * 65536 * sd >= 65536 * 65536 * (l * l),
            65536 * 65536 * sd <= 65536 * 65536 * (l * l) + 65536 * 65536 * (2 * l) + 65536 * 65536
                * 65536,
            65536 * 65536 * (2 * l) + 65536 * 65536 * 65536 + 6 * 65536 * l <= 10 * 65536 * (l
                * l),
            6 * 65536 * l <= 6 * 65536 * (l * l),
    ;
    assert(65536int * 65536 - 12 * 65536 - 3 <= sdot(u, u) <= 65536int * 65536 + 16 * 65536 + 3)
        by (nonlinear_arith)
        requires
            l * l * (65536int * 65536 - 12 * 65536 - 3) <= l * l * sdot(u, u),
            l * l * sdot(u, u) <= l * l * (65536int * 65536 + 16 * 65536 + 3),
            l * l >= 1,
    ;
    crate::fixed::lemma_tdiv_mono(65536int * 65536 - 12 * 65536 - 3, sdot(u, u), 65536);
    crate::fixed::lemma_tdiv_mono(sdot(u, u), 65536int * 65536 + 16 * 65536 + 3, 65536);
    let lsu = spec_length_squared(u);
    let lu = spec_length(u);
    crate::fixed::lemma_sqrt_floor_props(lsu * 65536);
    assert(65536int - 7 <= lu && lu <= 65536int + 8) by (nonlinear_arith)
        requires
            lu >= 0 && lu * lu <= lsu * 65536 && lsu * 65536 < (lu + 1) * (lu + 1) && 65536int
                * 65536 - 13 * 65536 <= lsu * 65536 <= 65536int * 65536 + 16 * 65536,
    ;
}

/// The cross product of a vector with either of its factors is orthogonal to
/// both: the raw inner products vanish identically.
pub proof fn lemma_cross_orthogonal(a: Vec3, b: Vec3)
    ensures
        a.x * cross_raw_x(a, b) + a.y * cross_raw_y(a, b) + a.z * cross_raw_z(a, b) == 0,
        b.x * cross_raw_x(a, b) + b.y * cross_raw_y(a, b) + b.z * cross_raw_z(a, b) == 0,
{
    let (ax, ay, az) = (a.x as int, a.y as int, a.z as int);
    let (bx, by, bz) = (b.x as int, b.y as int, b.z as int);
    assert(ax * (ay * bz - az * by) + ay * (az * bx - ax * bz) + az * (ax * by - ay * bx)
        == 0) by (nonlinear_arith);
    assert(bx * (ay * bz - az * by) + by * (az * bx - ax * bz) + bz * (ax * by - ay * bx)
        == 0) by (nonlinear_arith);
}

/// A raw inner product of a vector with itself is a sum of squares.
pub proof fn lemma_sdot_self_nonneg(v: Vec3)
    by (nonlinear_arith)
    ensures
        sdot(v, v) >= 0,
        v.x * v.x <= sdot(v, v),
        v.y * v.y <= sdot(v, v),
        v.z * v.z <= sdot(v, v),
{
}

impl Vec3 {
    pub fn new(x: i64, y: i64, z: i64) -> (r: Vec3)
        ensures
            r == (Vec3 { x, y, z }),
    {
        Vec3 { x, y, z }
    }

    pub fn x(&self) -> (r: i64)
        ensures
            r == self.x,
    {
        self.x
    }

    pub fn y(&self) -> (r: i64)
        ensures
            r == self.y,
    {
        self.y
    }

    pub fn z(&self) -> (r: i64)
        ensures
            r == self.z,
    {
        self.z
    }

    /// Componentwise sum.
    pub fn add(&self, rhs: &Vec3) -> (r: Vec3)
        requires
            i64::MIN <= self.x + rhs.x <= i64::MAX,
            i64::MIN <= self.y + rhs.y <= i64::MAX,
            i64::MIN <= self.z + rhs.z <= i64::MAX,
        ensures
            r.x == self.x + rhs.x,
            r.y == self.y + rhs.y,
            r.z == self.z + rhs.z,
    {
        Vec3 { x: self.x + rhs.x, y: self.y + rhs.y, z: self.z + rhs.z }
    }

    /// Componentwise difference.
    pub fn sub(&self, rhs: &Vec3) -> (r: Vec3)
        requires
            i64::MIN <= self.x - rhs.x <= i64::MAX,
            i64::MIN <= self.y - rhs.y <= i64::MAX,
            i64::MIN <= self.z - rhs.z <= i64::MAX,
        ensures
            r.x == self.x - rhs.x,
            r.y == self.y - rhs.y,
            r.z == self.z - rhs.z,
    {
        Vec3 { x: self.x - rhs.x, y: self.y - rhs.y, z: self.z - rhs.z }
    }

    /// Componentwise negation.
    pub fn neg(&self) -> (r: Vec3)
        requires
            self.x > i64::MIN,
            self.y > i64::MIN,
            self.z > i64::MIN,
        ensures
            r.x == -self.x,
            r.y == -self.y,
            r.z == -self.z,
    {
        Vec3 { x: -self.x, y: -self.y, z: -self.z }
    }

    /// Multiplication by a fixed-point scalar.
    pub fn scale(&self, s: i64) -> (r: Vec3)
        requires
            -0x4000_0000_0000_0000_0000 <= self.x * s <= 0x4000_0000_0000_0000_0000,
            -0x4000_0000_0000_0000_0000 <= self.y * s <= 0x4000_0000_0000_0000_0000,
            -0x4000_0000_0000_0000_0000 <= self.z * s <= 0x4000_0000_0000_0000_0000,
        ensures
            r.x == spec_fmul(self.x as int, s as int),
            r.y == spec_fmul(self.y as int, s as int),
            r.z == spec_fmul(self.z as int, s as int),
    {
        Vec3 { x: fmul(self.x, s), y: fmul(self.y, s), z: fmul(self.z, s) }
    }

    /// Division by a nonzero fixed-point scalar.
    pub fn div_scalar(&self, s: i64) -> (r: Vec3)
        requires
            s != 0,
            bounded(*self, 0x4000_0000_0000),
        ensures
            r.x == spec_fdiv(self.x as int, s as int),
            r.y == spec_fdiv(self.y as int, s as int),
            r.z == spec_fdiv(self.z as int, s as int),
    {
        Vec3 { x: fdiv(self.x, s), y: fdiv(self.y, s), z: fdiv(self.z, s) }
    }

    /// Fixed-point inner product.
    pub fn dot(&self, rhs: Vec3) -> (r: i64)
        requires
            bounded(*self, 0x4000_0000),
            bounded(rhs, 0x4000_0000),
        ensures
            r == spec_dot(*self, rhs),
            -0x3000_0000_0000 <= r <= 0x3000_0000_0000,
    {
        proof {
            lemma_mul_abs(self.x as int, rhs.x as int, 0x4000_0000, 0x4000_0000);
            lemma_mul_abs(self.y as int, rhs.y as int, 0x4000_0000, 0x4000_0000);
            lemma_mul_abs(self.z as int, rhs.z as int, 0x4000_0000, 0x4000_0000);
            lemma_tdiv_abs(sdot(*self, rhs), FP_ONE as int, 0x3000_0000_0000_0000);
        }
        let p: i128 = (self.x as i128) * (rhs.x as i128) + (self.y as i128) * (rhs.y as i128)
            + (self.z as i128) * (rhs.z as i128);
        (p / 65536) as i64
    }

    /// Fixed-point cross product.
    pub fn cross(&self, rhs: Vec3) -> (r: Vec3)
        requires
            bounded(*self, 0x4000_0000),
            bounded(rhs, 0x4000_0000),
        ensures
            r.x == tdiv(cross_raw_x(*self, rhs), FP_ONE as int),
            r.y == tdiv(cross_raw_y(*self, rhs), FP_ONE as int),
            r.z == tdiv(cross_raw_z(*self, rhs), FP_ONE as int),
    {
        proof {
            lemma_mul_abs(self.y as int, rhs.z as int, 0x4000_0000, 0x4000_0000);
            lemma_mul_abs(self.z as int, rhs.y as int, 0x4000_0000, 0x4000_0000);
            lemma_mul_abs(self.z as int, rhs.x as int, 0x4000_0000, 0x4000_0000);
            lemma_mul_abs(self.x as int, rhs.z as int, 0x4000_0000, 0x4000_0000);
            lemma_mul_abs(self.x as int, rhs.y as int, 0x4000_0000, 0x4000_0000);
            lemma_mul_abs(self.y as int, rhs.x as int, 0x4000_0000, 0x4000_0000);
            lemma_tdiv_abs(cross_raw_x(*self, rhs), FP_ONE as int, 0x2000_0000_0000_0000);
            lemma_tdiv_abs(cross_raw_y(*self, rhs), FP_ONE as int, 0x2000_0000_0000_0000);
            lemma_tdiv_abs(cross_raw_z(*self, rhs), FP_ONE as int, 0x2000_0000_0000_0000);
        }
        let cx: i128 = (self.y as i128) * (rhs.z as i128) - (self.z as i128) * (rhs.y as i128);
        let cy: i128 = (self.z as i128) * (rhs.x as i128) - (self.x as i128) * (rhs.z as i128);
        let cz: i128 = (self.x as i128) * (rhs.y as i128) - (self.y as i128) * (rhs.x as i128);
        Vec3 { x: (cx / 65536) as i64, y: (cy / 65536) as i64, z: (cz / 65536) as i64 }
    }

    /// Fixed-point squared length; never negative.
    pub fn length_squared(&self) -> (r: i64)
        requires
            bounded(*self, 0x4000_0000),
        ensures
            r == spec_length_squared(*self),
            0 <= r <= 0x3000_0000_0000,
    {
        proof {
            lemma_sdot_self_nonneg(*self);
            lemma_mul_abs(self.x as int, self.x as int, 0x4000_0000, 0x4000_0000);
            lemma_mul_abs(self.y as int, self.y as int, 0x4000_0000, 0x4000_0000);
            lemma_mul_abs(self.z as int, self.z as int, 0x4000_0000, 0x4000_0000);
            lemma_tdiv_abs(sdot(*self, *self), FP_ONE as int, 0x3000_0000_0000_0000);
        }
        self.dot(*self)
    }

    /// Fixed-point length; never negative.
    pub fn length(&self) -> (r: i64)
        requires
            bounded(*self, 0x4000_0000),
        ensures
            r == spec_length(*self),
            0 <= r <= 0x8000_0000,
            is_sqrt(spec_length_squared(*self) * FP_ONE, r as int),
    {
        let ls = self.length_squared();
        proof {
            lemma_mul_abs(ls as int, FP_ONE as int, 0x3000_0000_0000, FP_ONE as int);
        }
        let n: u128 = (ls as u128) * 65536;
        let r = isqrt(n);
        proof {
            assert(r as int <= 0x8000_0000) by (nonlinear_arith)
                requires
                    is_sqrt(n as int, r as int) && n as int <= 0x3000_0000_0000 * 0x10000,
            ;
        }
        r as i64
    }

    /// A vector with each component drawn uniformly from `[0, 1)`.
    pub fn random(rng: &mut Sampler) -> (r: Vec3)
        ensures
            0 <= r.x < FP_ONE,
            0 <= r.y < FP_ONE,
            0 <= r.z < FP_ONE,
    {
        Vec3 { x: rng.sample_range(0, FP_ONE), y: rng.sample_range(0, FP_ONE), z: rng.sample_range(
            0,
            FP_ONE,
        ) }
    }

    /// A vector with each component drawn uniformly from `[min, max)`.
    pub fn random_in_range(rng: &mut Sampler, min: i64, max: i64) -> (r: Vec3)
        requires
            min < max,
        ensures
            min <= r.x < max,
            min <= r.y < max,
            min <= r.z < max,
    {
        Vec3 { x: rng.sample_range(min, max), y: rng.sample_range(min, max), z: rng.sample_range(
            min,
            max,
        ) }
    }

    /// Rejection-sample a point of the open unit ball: draw from the cube
    /// `[-1, 1)^3` until the squared length falls below one. The number of
    /// draws is capped so the function provably terminates; each draw
    /// succeeds with probability about one half, so the fallback (the
    /// centre, which lies in the ball) is never seen in practice.
    pub fn random_in_unit_sphere(rng: &mut Sampler) -> (r: Vec3)
        ensures
            bounded(r, FP_ONE as int),
            spec_length_squared(r) < FP_ONE,
    {
        let mut attempts: u32 = 0;
        while attempts < 64
            decreases 64 - attempts,
        {
            let p = Vec3::random_in_range(rng, -FP_ONE, FP_ONE);
            if p.length_squared() < FP_ONE {
                return p;
            }
            attempts = attempts + 1;
        }
        Vec3::new(0, 0, 0)
    }

    /// A direction of (approximately) unit length, drawn by normalizing a
    /// sample of the unit ball that is long enough to normalize stably. The
    /// number of draws is capped so the function provably terminates; the
    /// fallback is a fixed unit axis. Every outcome has squared length
    /// within a few lattice steps of one.
    pub fn random_unit_vector(rng: &mut Sampler) -> (r: Vec3)
        ensures
            bounded(r, 2 * FP_ONE as int),
            FP_ONE - 13 <= spec_length_squared(r) <= FP_ONE + 16,
    {
        let mut attempts: u32 = 0;
        while attempts < 64
            decreases 64 - attempts,
        {
            let p = Vec3::random_in_range(rng, -FP_ONE, FP_ONE);
            let ls = p.length_squared();
            if 16384 <= ls && ls < FP_ONE {
                proof {
                    lemma_unit_bounded(p);
                    assert(spec_length(p) >= 32768) by (nonlinear_arith)
                        requires
                            spec_length(p) >= 0 && spec_length_squared(p) * FP_ONE < (spec_length(
                                p,
                            ) + 1) * (spec_length(p) + 1) && spec_length_squared(p) * FP_ONE
                                >= 16384 * 65536,
                    ;
                    lemma_unit_length(p);
                }
                let u = p.unit();
                proof {
                    assert(u == spec_unit(p));
                }
                return u;
            }
            attempts = attempts + 1;
        }
        proof {
            vstd::arithmetic::div_mod::lemma_div_by_multiple(FP_ONE as int, FP_ONE as int);
        }
        Vec3::new(0, 0, FP_ONE)
    }

    /// A sample of the unit ball turned, if need be, to the hemisphere above
    /// the normal `self`: whenever its inner product with the normal is
    /// negative the sample is negated, so the result never points into the
    /// surface.
    pub fn random_in_hemisphere(&self, rng: &mut Sampler) -> (r: Vec3)
        requires
            bounded(*self, 0x4000_0000),
        ensures
            bounded(r, FP_ONE as int),
            spec_length_squared(r) < FP_ONE,
            spec_dot(r, *self) >= 0,
    {
        let p = Vec3::random_in_unit_sphere(rng);
        if p.dot(*self) > 0 {
            p
        } else {
            let q = p.neg();
            proof {
                assert(sdot(q, *self) == -sdot(p, *self) && sdot(q, q) == sdot(p, p))
                    by (nonlinear_arith)
                    requires
                        q.x == -p.x && q.y == -p.y && q.z == -p.z,
                ;
                lemma_tdiv_neg(sdot(p, *self), FP_ONE as int);
            }
            q
        }
    }

    /// The vector rescaled to (approximately) unit length. The length must
    /// be positive: a zero direction has no unit form.
    pub fn unit(&self) -> (r: Vec3)
        requires
            bounded(*self, 0x4000_0000),
            spec_length(*self) > 0,
        ensures
            r.x == spec_fdiv(self.x as int, spec_length(*self)),
            r.y == spec_fdiv(self.y as int, spec_length(*self)),
            r.z == spec_fdiv(self.z as int, spec_length(*self)),
    {
        let len = self.length();
        self.div_scalar(len)
    }
}

} // verus!
