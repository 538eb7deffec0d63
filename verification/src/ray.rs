//! Rays: a start point on the image plane and a unit direction.

use vstd::prelude::*;
use crate::fx::{SCALE, COORD_MAX, abs1, tdiv, lemma_tdiv_facts, lemma_square_mono};
use crate::vec3::{Vec3, bounded, spec_mag2, is_unit};

verus! {

/// A ray in space.  `origin` is the point the ray is measured from (the
/// image-plane point under the camera, not the pinhole) and `direction` is a
/// unit vector.
#[derive(Clone, Copy, PartialEq, Eq, Structural, Debug)]
pub struct Ray {
    pub origin: Vec3,
    pub direction: Vec3,
}

impl Ray {
    /// The ray is usable by the intersection math: the start point is in
    /// coordinate range and the direction has unit length.
    pub open spec fn wf(self) -> bool {
        bounded(self.origin, COORD_MAX as int) && is_unit(self.direction)
            && bounded(self.direction, 2 * SCALE as int)
    }

    /// Builds a ray.  The direction must already be normalized: handing
    /// over a direction of non-unit length is a programming error, not a
    /// recoverable condition, so the contract keeps such callers out.
    pub fn new(origin: Vec3, direction: Vec3) -> (r: Ray)
        requires
            bounded(origin, COORD_MAX as int),
            is_unit(direction),
        ensures
            r.origin == origin,
            r.direction == direction,
            r.wf(),
    {
        proof {
            lemma_unit_bounded(direction);
        }
        Ray { origin, direction }
    }

    /// Returns the unit direction.
    pub fn direction(&self) -> (r: Vec3)
        ensures
            r == self.direction,
    {
        self.direction
    }

    /// Returns the start point.
    pub fn origin(&self) -> (r: Vec3)
        ensures
            r == self.origin,
    {
        self.origin
    }

    /// Approximate equality of two rays: origins and directions agree
    /// component-wise within `tol` ticks.
    pub fn approx_eq(&self, other: &Ray, tol: i64) -> (r: bool)
        requires
            bounded(self.origin, COORD_MAX as int),
            bounded(other.origin, COORD_MAX as int),
            bounded(self.direction, COORD_MAX as int),
            bounded(other.direction, COORD_MAX as int),
            tol >= 0,
        ensures
            r == (abs1(self.origin.x - other.origin.x) <= tol && abs1(
                self.origin.y - other.origin.y,
            ) <= tol && abs1(self.origin.z - other.origin.z) <= tol && abs1(
                self.direction.x - other.direction.x,
            ) <= tol && abs1(self.direction.y - other.direction.y) <= tol && abs1(
                self.direction.z - other.direction.z,
            ) <= tol),
    {
        self.origin.approx_eq(other.origin, tol) && self.direction.approx_eq(
            other.direction,
            tol,
        )
    }
}

/// A vector of unit length has components of magnitude at most `2 * SCALE`.
pub proof fn lemma_unit_bounded(v: Vec3)
    requires
        is_unit(v),
    ensures
        bounded(v, 2 * SCALE as int),
{
    let qx = (v.x as int) * (v.x as int);
    let qy = (v.y as int) * (v.y as int);
    let qz = (v.z as int) * (v.z as int);
    let q = qx + qy + qz;
    assert(qx >= 0 && qy >= 0 && qz >= 0) by (nonlinear_arith)
        requires
            qx == (v.x as int) * (v.x as int),
            qy == (v.y as int) * (v.y as int),
            qz == (v.z as int) * (v.z as int),
    ;
    lemma_tdiv_facts(q, SCALE as int);
    assert(spec_mag2(v) == tdiv(q, SCALE as int));
    assert(q < 1_000_001_001_000_000_000int);
    lemma_square_within(v.x as int, q);
    lemma_square_within(v.y as int, q);
    lemma_square_within(v.z as int, q);
}

/// A number whose square is below `(2 * SCALE)^2` has magnitude below
/// `2 * SCALE`.
proof fn lemma_square_within(c: int, q: int)
    requires
        c * c <= q,
        q < 1_000_001_001_000_000_000int,
    ensures
        abs1(c) <= 2_000_000_000int,
{
    if abs1(c) > 2_000_000_000int {
        lemma_square_mono(2_000_000_001int, abs1(c));
        assert(abs1(c) * abs1(c) == c * c) by (nonlinear_arith);
    }
}

} // verus!
