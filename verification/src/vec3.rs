//! Three-component fixed-point vectors.
//!
//! Components are tick counts (see `fx`).  Dot product, squared magnitude
//! and normalization mirror the spec functions `spec_dot`, `spec_mag2` and
//! `spec_norm` exactly, and `lemma_norm_unit` proves that normalization
//! always lands within `UNIT_TOL` of unit length.

use vstd::prelude::*;
use crate::fx::{
    SCALE, UNIT_TOL, COORD_MAX, DOT_MAX, tdiv, abs1, fmul, fsqrt, sqrt_val,
    lemma_tdiv_facts, lemma_mul_abs_bound, lemma_square_mono, lemma_sqrt_is, fx_mul, fx_sqrt,
    tdiv_i128,
};

verus! {

/// A vector of three fixed-point coordinates.
#[derive(Clone, Copy, PartialEq, Eq, Structural, Debug)]
pub struct Vec3 {
    pub x: i64,
    pub y: i64,
    pub z: i64,
}

/// Every component has magnitude at most `c`.
pub open spec fn bounded(v: Vec3, c: int) -> bool {
    abs1(v.x as int) <= c && abs1(v.y as int) <= c && abs1(v.z as int) <= c
}

/// Component-wise difference of two vectors.
pub open spec fn spec_sub(a: Vec3, b: Vec3) -> Vec3 {
    Vec3 { x: (a.x - b.x) as i64, y: (a.y - b.y) as i64, z: (a.z - b.z) as i64 }
}

/// Dot product of two vectors of ticks, in ticks.
pub open spec fn spec_dot(a: Vec3, b: Vec3) -> int {
    tdiv(a.x * b.x + a.y * b.y + a.z * b.z, SCALE as int)
}

/// Squared magnitude of a vector of ticks, in ticks.
pub open spec fn spec_mag2(v: Vec3) -> int {
    spec_dot(v, v)
}

/// The vector's squared magnitude is one, within `UNIT_TOL` ticks.
pub open spec fn is_unit(v: Vec3) -> bool {
    abs1(spec_mag2(v) - SCALE) <= UNIT_TOL as int
}

/// The floor square root, in ticks, of the squared magnitude of `v`.
pub open spec fn spec_mag(v: Vec3) -> int {
    fsqrt(spec_mag2(v))
}

/// Component `c` of the normalization of a vector with magnitude `m`:
/// the quotient `c / m`, in ticks.
pub open spec fn norm_c(c: int, m: int) -> int {
    tdiv(c * SCALE, m)
}

/// The normalization of `v`, component-wise.
pub open spec fn spec_norm(v: Vec3) -> Vec3 {
    Vec3 {
        x: norm_c(v.x as int, spec_mag(v)) as i64,
        y: norm_c(v.y as int, spec_mag(v)) as i64,
        z: norm_c(v.z as int, spec_mag(v)) as i64,
    }
}

impl Vec3 {
    /// Builds the vector with the given tick components.
    pub fn new(x: i64, y: i64, z: i64) -> (r: Vec3)
        ensures
            r == (Vec3 { x, y, z }),
    {
        Vec3 { x, y, z }
    }

    /// Component-wise difference.
    pub fn sub(self, o: Vec3) -> (r: Vec3)
        requires
            bounded(self, COORD_MAX as int),
            bounded(o, COORD_MAX as int),
        ensures
            r.x == self.x - o.x,
            r.y == self.y - o.y,
            r.z == self.z - o.z,
            r == spec_sub(self, o),
            bounded(r, 2 * COORD_MAX as int),
    {
        Vec3 { x: self.x - o.x, y: self.y - o.y, z: self.z - o.z }
    }

    /// Component-wise sum, of a position and a displacement.
    pub fn add(self, o: Vec3) -> (r: Vec3)
        requires
            bounded(self, COORD_MAX as int),
            bounded(o, 2 * DOT_MAX as int),
        ensures
            r.x == self.x + o.x,
            r.y == self.y + o.y,
            r.z == self.z + o.z,
    {
        Vec3 { x: self.x + o.x, y: self.y + o.y, z: self.z + o.z }
    }

    /// The vector scaled by the tick factor `t`, component-wise.
    pub fn scale(self, t: i64) -> (r: Vec3)
        requires
            bounded(self, 2 * SCALE as int),
            abs1(t as int) <= DOT_MAX as int,
        ensures
            r.x as int == fmul(t as int, self.x as int),
            r.y as int == fmul(t as int, self.y as int),
            r.z as int == fmul(t as int, self.z as int),
            bounded(r, 2 * DOT_MAX as int),
    {
        proof {
            lemma_fmul_abs(t as int, self.x as int, DOT_MAX as int, 2 * SCALE as int);
            lemma_fmul_abs(t as int, self.y as int, DOT_MAX as int, 2 * SCALE as int);
            lemma_fmul_abs(t as int, self.z as int, DOT_MAX as int, 2 * SCALE as int);
        }
        Vec3 { x: fx_mul(t, self.x), y: fx_mul(t, self.y), z: fx_mul(t, self.z) }
    }

    /// Dot product, in ticks.
    pub fn dot(self, o: Vec3) -> (r: i64)
        requires
            bounded(self, DOT_MAX as int),
            bounded(o, DOT_MAX as int),
        ensures
            r as int == spec_dot(self, o),
    {
        proof {
            lemma_dot_abs(self, o, DOT_MAX as int, DOT_MAX as int);
            lemma_mul_abs_bound(self.x as int, o.x as int, DOT_MAX as int, DOT_MAX as int);
            lemma_mul_abs_bound(self.y as int, o.y as int, DOT_MAX as int, DOT_MAX as int);
            lemma_mul_abs_bound(self.z as int, o.z as int, DOT_MAX as int, DOT_MAX as int);
        }
        let p: i128 = (self.x as i128) * (o.x as i128) + (self.y as i128) * (o.y as i128)
            + (self.z as i128) * (o.z as i128);
        let q: i128 = tdiv_i128(p, SCALE as i128);
        q as i64
    }

    /// The vector scaled to magnitude one, component-wise: each component is
    /// divided by the floor square root of the squared magnitude, in ticks.
    pub fn normalize(self) -> (r: Vec3)
        requires
            bounded(self, COORD_MAX as int),
            spec_mag2(self) >= SCALE as int / 100,
        ensures
            r == spec_norm(self),
            r.x as int == norm_c(self.x as int, spec_mag(self)),
            r.y as int == norm_c(self.y as int, spec_mag(self)),
            r.z as int == norm_c(self.z as int, spec_mag(self)),
            bounded(r, 1_000_000_000_000int),
            is_unit(r),
    {
        proof {
            lemma_norm_unit(self);
        }
        let m2: i64 = self.magnitude2();
        let m: i64 = fx_sqrt(m2);
        proof {
            if m < 100_000_000 {
                lemma_square_mono((m + 1) as int, 100_000_000int);
            }
        }
        let rx: i64 = norm_div(self.x, m);
        let ry: i64 = norm_div(self.y, m);
        let rz: i64 = norm_div(self.z, m);
        Vec3 { x: rx, y: ry, z: rz }
    }

    /// Component-wise approximate equality: every component differs by at
    /// most `tol` ticks.
    pub fn approx_eq(self, o: Vec3, tol: i64) -> (r: bool)
        requires
            bounded(self, COORD_MAX as int),
            bounded(o, COORD_MAX as int),
            tol >= 0,
        ensures
            r == (abs1(self.x - o.x) <= tol && abs1(self.y - o.y) <= tol && abs1(
                self.z - o.z,
            ) <= tol),
    {
        let dx: i64 = self.x - o.x;
        let dy: i64 = self.y - o.y;
        let dz: i64 = self.z - o.z;
        -tol <= dx && dx <= tol && -tol <= dy && dy <= tol && -tol <= dz && dz <= tol
    }

    /// Squared magnitude, in ticks.
    pub fn magnitude2(self) -> (r: i64)
        requires
            bounded(self, DOT_MAX as int),
        ensures
            r as int == spec_mag2(self),
            r >= 0,
    {
        proof {
            lemma_mag2_nonneg(self);
        }
        self.dot(self)
    }
}

/// Truncated division against a positive divisor keeps squares within one
/// step: with `q * m <= t < (q + 1) * m`, the square `q^2 m^2` sits in
/// `[t^2 - 2 t m, t^2]`.
proof fn lemma_trunc_sq(q: int, m: int, t: int)
    requires
        m >= 1,
        q >= 0,
        t >= 0,
        q * m <= t,
        t < (q + 1) * m,
    ensures
        (q * q) * (m * m) <= t * t,
        (q * q) * (m * m) >= t * t - 2 * t * m,
{
    let p = q * m;
    assert((q + 1) * m == p + m) by (nonlinear_arith)
        requires
            p == q * m,
    ;
    assert(p + m > t);
    assert(p * p <= t * t) by (nonlinear_arith)
        requires
            0 <= p <= t,
    ;
    assert((q * q) * (m * m) == p * p) by (nonlinear_arith)
        requires
            p == q * m,
    ;
    if t >= m {
        assert(p >= t - m);
        assert(p * p >= (t - m) * (t - m)) by (nonlinear_arith)
            requires
                0 <= t - m <= p,
        ;
        assert((t - m) * (t - m) >= t * t - 2 * t * m) by (nonlinear_arith);
    } else {
        assert(t * t - 2 * t * m <= 0) by (nonlinear_arith)
            requires
                0 <= t < m,
        ;
        assert(p * p >= 0) by (nonlinear_arith);
    }
}

/// The normalization of any admissible vector has unit length within
/// tolerance: the squared magnitude of `spec_norm(v)` is within `UNIT_TOL`
/// ticks of one.
pub proof fn lemma_norm_unit(v: Vec3)
    requires
        bounded(v, COORD_MAX as int),
        spec_mag2(v) >= SCALE as int / 100,
    ensures
        is_unit(spec_norm(v)),
{
    let xi = v.x as int;
    let yi = v.y as int;
    let zi = v.z as int;
    let q = xi * xi + yi * yi + zi * zi;
    lemma_mul_abs_bound(xi, xi, COORD_MAX as int, COORD_MAX as int);
    lemma_mul_abs_bound(yi, yi, COORD_MAX as int, COORD_MAX as int);
    lemma_mul_abs_bound(zi, zi, COORD_MAX as int, COORD_MAX as int);
    assert(xi * xi >= 0 && yi * yi >= 0 && zi * zi >= 0) by (nonlinear_arith);
    let n2 = spec_mag2(v);
    lemma_tdiv_facts(q, SCALE as int);
    assert(n2 == tdiv(q, SCALE as int));
    lemma_sqrt_is(n2 * SCALE as int);
    let m = spec_mag(v);
    assert(m == sqrt_val(n2 * (SCALE as int)));
    assert(m * m <= n2 * (SCALE as int) && n2 * (SCALE as int) < (m + 1) * (m + 1));
    if m + 1 <= 100_000_000int {
        lemma_square_mono(m + 1, 100_000_000int);
    }
    assert(m >= 100_000_000int);
    // q sits between m^2 and (m + 1)^2 + SCALE.
    assert(q >= m * m);
    assert(q < (m + 1) * (m + 1) + SCALE);
    let ax = lemma_norm_comp(xi, q, m);
    let ay = lemma_norm_comp(yi, q, m);
    let az = lemma_norm_comp(zi, q, m);
    let ux = abs1(norm_c(xi, m));
    let uy = abs1(norm_c(yi, m));
    let uz = abs1(norm_c(zi, m));
    let u = spec_norm(v);
    assert(u.x as int == norm_c(xi, m) && u.y as int == norm_c(yi, m) && u.z as int == norm_c(
        zi,
        m,
    ));
    let us = (u.x as int) * (u.x as int) + (u.y as int) * (u.y as int) + (u.z as int) * (
    u.z as int);
    assert(ux == u.x as int || ux == -(u.x as int));
    assert(uy == u.y as int || uy == -(u.y as int));
    assert(uz == u.z as int || uz == -(u.z as int));
    assert(us == ux * ux + uy * uy + uz * uz) by (nonlinear_arith)
        requires
            ux == u.x as int || ux == -(u.x as int),
            uy == u.y as int || uy == -(u.y as int),
            uz == u.z as int || uz == -(u.z as int),
            us == (u.x as int) * (u.x as int) + (u.y as int) * (u.y as int) + (u.z as int) * (
            u.z as int),
    ;
    assert(us >= 0) by (nonlinear_arith)
        requires
            us == ux * ux + uy * uy + uz * uz,
            ux >= 0,
            uy >= 0,
            uz >= 0,
    ;
    // Sum the per-component square bounds.
    assert(us * (m * m) == (ux * ux) * (m * m) + (uy * uy) * (m * m) + (uz * uz) * (m * m))
        by (nonlinear_arith)
        requires
            us == ux * ux + uy * uy + uz * uz,
    ;
    assert((ax * ax) * 1_000_000_000_000_000_000int + (ay * ay) * 1_000_000_000_000_000_000int + (
    az * az) * 1_000_000_000_000_000_000int == q * 1_000_000_000_000_000_000int)
        by (nonlinear_arith)
        requires
            ax * ax == xi * xi,
            ay * ay == yi * yi,
            az * az == zi * zi,
            q == xi * xi + yi * yi + zi * zi,
    ;
    // Upper bound: us <= SCALE^2 + 130 * SCALE.
    assert(q * 1_000_000_000int <= (1_000_000_130int) * (m * m)) by (nonlinear_arith)
        requires
            q < (m + 1) * (m + 1) + 1_000_000_000int,
            m >= 100_000_000int,
    ;
    assert(us * (m * m) <= (1_000_000_130_000_000_000int) * (m * m)) by (nonlinear_arith)
        requires
            us * (m * m) <= q * 1_000_000_000_000_000_000int,
            q * 1_000_000_000int <= (1_000_000_130int) * (m * m),
    ;
    assert(us <= 1_000_000_130_000_000_000int) by (nonlinear_arith)
        requires
            us * (m * m) <= (1_000_000_130_000_000_000int) * (m * m),
            m >= 1,
    ;
    // Lower bound: us >= SCALE^2 - 7 * SCALE.
    assert(us * (m * m) >= q * 1_000_000_000_000_000_000int - 2_000_000_000int * m * (ax + ay
        + az)) by (nonlinear_arith)
        requires
            us * (m * m) == (ux * ux) * (m * m) + (uy * uy) * (m * m) + (uz * uz) * (m * m),
            (ux * ux) * (m * m) >= (ax * 1_000_000_000int) * (ax * 1_000_000_000int) - 2 * (ax
                * 1_000_000_000int) * m,
            (uy * uy) * (m * m) >= (ay * 1_000_000_000int) * (ay * 1_000_000_000int) - 2 * (ay
                * 1_000_000_000int) * m,
            (uz * uz) * (m * m) >= (az * 1_000_000_000int) * (az * 1_000_000_000int) - 2 * (az
                * 1_000_000_000int) * m,
            ax * ax == xi * xi,
            ay * ay == yi * yi,
            az * az == zi * zi,
            q == xi * xi + yi * yi + zi * zi,
    ;
    assert(us * (m * m) >= (999_999_993_000_000_000int) * (m * m)) by (nonlinear_arith)
        requires
            us * (m * m) >= q * 1_000_000_000_000_000_000int - 2_000_000_000int * m * (ax + ay
                + az),
            q >= m * m,
            ax <= m + 5,
            ay <= m + 5,
            az <= m + 5,
            ax >= 0,
            ay >= 0,
            az >= 0,
            m >= 100_000_000int,
    ;
    assert(us >= 999_999_993_000_000_000int) by (nonlinear_arith)
        requires
            us * (m * m) >= (999_999_993_000_000_000int) * (m * m),
            us * (m * m) <= (1_000_000_130_000_000_000int) * (m * m),
            m >= 1,
            us >= 0,
    ;
    // Divide back by SCALE: the squared magnitude is within tolerance.
    lemma_tdiv_facts(us, SCALE as int);
    assert(spec_mag2(u) == tdiv(us, SCALE as int));
    assert(abs1(spec_mag2(u) - SCALE) <= UNIT_TOL as int);
}

/// Per-component facts of a normalization: component magnitude at most
/// `m + 5`, and the square of the quotient within one division step.
/// Returns the component's absolute value.
proof fn lemma_norm_comp(c: int, q: int, m: int)
    -> (a: int)
    requires
        c * c <= q,
        q >= m * m,
        q < (m + 1) * (m + 1) + 1_000_000_000int,
        m >= 100_000_000int,
        abs1(c) <= COORD_MAX as int,
    ensures
        a == abs1(c),
        0 <= a <= m + 5,
        a * a == c * c,
        abs1(norm_c(c, m)) >= 0,
        abs1(norm_c(c, m)) <= 1_000_000_000_000int,
        abs1(norm_c(c, m)) * m <= a * 1_000_000_000int,
        a * 1_000_000_000int < (abs1(norm_c(c, m)) + 1) * m,
        (abs1(norm_c(c, m)) * abs1(norm_c(c, m))) * (m * m) <= (a * 1_000_000_000int) * (a
            * 1_000_000_000int),
        (abs1(norm_c(c, m)) * abs1(norm_c(c, m))) * (m * m) >= (a * 1_000_000_000int) * (a
            * 1_000_000_000int) - 2 * (a * 1_000_000_000int) * m,
        (a * 1_000_000_000int) * (a * 1_000_000_000int) == (c * c)
            * 1_000_000_000_000_000_000int,
{
    let a = abs1(c);
    assert(a == c || a == -c);
    if a >= m + 6 {
        lemma_square_mono(m + 6, a);
        assert(a * a == c * c) by (nonlinear_arith)
            requires
                a == c || a == -c,
        ;
        assert((m + 6) * (m + 6) >= (m + 1) * (m + 1) + 1_000_000_000int) by (nonlinear_arith)
            requires
                m >= 100_000_000int,
        ;
        assert(false);
    }
    lemma_tdiv_facts(c * 1_000_000_000int, m);
    assert(norm_c(c, m) == tdiv(c * 1_000_000_000int, m));
    assert(abs1(c * 1_000_000_000int) == a * 1_000_000_000int);
    lemma_trunc_sq(abs1(norm_c(c, m)), m, a * 1_000_000_000int);
    lemma_quotient_small(abs1(norm_c(c, m)), m, a * 1_000_000_000int);
    assert((a * 1_000_000_000int) * (a * 1_000_000_000int) == (c * c)
        * 1_000_000_000_000_000_000int) by (nonlinear_arith)
        requires
            a == c || a == -c,
    ;
    assert(a * a == c * c) by (nonlinear_arith)
        requires
            a == c || a == -c,
    ;
    a
}

/// One component of a normalization: `c * SCALE / m`, truncated.
fn norm_div(c: i64, m: i64) -> (r: i64)
    requires
        abs1(c as int) <= COORD_MAX as int,
        m >= 100_000_000,
    ensures
        r as int == norm_c(c as int, m as int),
        abs1(r as int) <= 1_000_000_000_000int,
{
    let ci: i128 = (c as i128) * (SCALE as i128);
    proof {
        assert(ci as int == c as int * 1_000_000_000int);
        assert(-100_000_000_000_000_000_000int <= ci as int <= 100_000_000_000_000_000_000int);
    }
    let q: i128 = tdiv_i128(ci, m as i128);
    proof {
        lemma_quotient_small(abs1(q as int), m as int, abs1(ci as int));
    }
    q as i64
}

/// A quotient bounded through its divisor: `q * m <= c` with a large `m`
/// and a bounded `c` keeps `q` small.
proof fn lemma_quotient_small(q: int, m: int, c: int)
    by (nonlinear_arith)
    requires
        q >= 0,
        q * m <= c,
        m >= 100_000_000,
        c <= 100_000_000_000_000_000_000int,
    ensures
        q <= 1_000_000_000_000int,
{
}

/// `fmul` of bounded factors is bounded: `|fmul(a, b)| * SCALE <= ca * cb`.
pub proof fn lemma_fmul_abs(a: int, b: int, ca: int, cb: int)
    requires
        abs1(a) <= ca,
        abs1(b) <= cb,
    ensures
        abs1(fmul(a, b)) * SCALE <= ca * cb,
{
    lemma_mul_abs_bound(a, b, ca, cb);
    lemma_tdiv_facts(a * b, SCALE as int);
}

/// A dot product of bounded vectors is bounded:
/// `|spec_dot(a, b)| * SCALE <= 3 * ca * cb`.
pub proof fn lemma_dot_abs(a: Vec3, b: Vec3, ca: int, cb: int)
    requires
        bounded(a, ca),
        bounded(b, cb),
    ensures
        abs1(spec_dot(a, b)) * SCALE <= 3 * (ca * cb),
{
    lemma_mul_abs_bound(a.x as int, b.x as int, ca, cb);
    lemma_mul_abs_bound(a.y as int, b.y as int, ca, cb);
    lemma_mul_abs_bound(a.z as int, b.z as int, ca, cb);
    lemma_tdiv_facts(a.x * b.x + a.y * b.y + a.z * b.z, SCALE as int);
}

/// A squared magnitude is never negative.
pub proof fn lemma_mag2_nonneg(v: Vec3)
    ensures
        spec_mag2(v) >= 0,
{
    assert(v.x * v.x + v.y * v.y + v.z * v.z >= 0) by (nonlinear_arith);
    lemma_tdiv_facts(v.x * v.x + v.y * v.y + v.z * v.z, SCALE as int);
}

} // verus!
