//! The sphere primitive and its ray-intersection math.
//!
//! With a unit ray direction the quadratic `|O + tD - C|^2 = r^2` has
//! leading coefficient one: `b = 2 * D . (O - C)`, `c = |O - C|^2 - r^2`,
//! `discriminant = b^2 - 4c`.  A negative discriminant means no hit; the
//! nearer nonnegative root is selected, and a sphere entirely behind the
//! ray (both roots negative) reports no hit.

use vstd::prelude::*;
use crate::fx::{
    SCALE, COORD_MAX, tdiv, fmul, fsqrt, lemma_tdiv_facts, lemma_square_mono, lemma_sqrt_is,
    fx_mul, fx_sqrt, half_i64,
};
use crate::vec3::{
    Vec3, bounded, spec_sub, spec_dot, spec_mag2, lemma_dot_abs, lemma_fmul_abs,
    lemma_mag2_nonneg,
};
use crate::ray::Ray;
use crate::geom::{Geometry, GeometryIntersection, RayIntersection};

verus! {

/// A sphere: a center point and a radius, in ticks.
#[derive(Clone, Copy, PartialEq, Eq, Structural, Debug)]
pub struct Sphere {
    pub origin: Vec3,
    pub radius: i64,
}

/// The vector from the sphere's center to the ray's start point.
pub open spec fn hit_oc(s: Sphere, ray: Ray) -> Vec3 {
    spec_sub(ray.origin, s.origin)
}

/// The linear coefficient of the intersection quadratic, in ticks.
pub open spec fn hit_b(s: Sphere, ray: Ray) -> int {
    2 * spec_dot(ray.direction, hit_oc(s, ray))
}

/// The constant coefficient of the intersection quadratic, in ticks.
pub open spec fn hit_c(s: Sphere, ray: Ray) -> int {
    spec_mag2(hit_oc(s, ray)) - fmul(s.radius as int, s.radius as int)
}

/// The discriminant `b^2 - 4c` of the intersection quadratic, in ticks.
pub open spec fn hit_disc(s: Sphere, ray: Ray) -> int {
    fmul(hit_b(s, ray), hit_b(s, ray)) - 4 * hit_c(s, ray)
}

/// The selected ray parameter: the smaller root where it is nonnegative,
/// else the larger root.
pub open spec fn hit_time(s: Sphere, ray: Ray) -> int {
    let sq = fsqrt(hit_disc(s, ray));
    let tlo = tdiv(-hit_b(s, ray) - sq, 2);
    if tlo >= 0 {
        tlo
    } else {
        tdiv(-hit_b(s, ray) + sq, 2)
    }
}

/// The ray hits the sphere: real roots exist and the selected one is not
/// behind the ray's start.
pub open spec fn hit_found(s: Sphere, ray: Ray) -> bool {
    hit_disc(s, ray) >= 0 && hit_time(s, ray) >= 0
}

/// The hit point `O + t * D`, component-wise in ticks.
pub open spec fn hit_point(s: Sphere, ray: Ray) -> Vec3 {
    Vec3 {
        x: (ray.origin.x + fmul(hit_time(s, ray), ray.direction.x as int)) as i64,
        y: (ray.origin.y + fmul(hit_time(s, ray), ray.direction.y as int)) as i64,
        z: (ray.origin.z + fmul(hit_time(s, ray), ray.direction.z as int)) as i64,
    }
}

/// The full intersection result for a sphere and a ray.
pub open spec fn sphere_hit(s: Sphere, ray: Ray) -> Option<GeometryIntersection> {
    if hit_found(s, ray) {
        Some(
            GeometryIntersection {
                time: hit_time(s, ray) as i64,
                intersection: hit_point(s, ray),
            },
        )
    } else {
        None
    }
}

/// A negative discriminant reports no intersection: the quadratic has no
/// real root, so the ray misses the sphere entirely.
pub proof fn lemma_miss_on_negative_discriminant(s: Sphere, ray: Ray)
    requires
        hit_disc(s, ray) < 0,
    ensures
        sphere_hit(s, ray) is None,
{
}

/// A reported hit lies on the ray: each component of the hit point is
/// `origin + time * direction`, computed in ticks, and the reported time is
/// the selected root.
pub proof fn lemma_hit_point_on_ray(s: Sphere, ray: Ray)
    requires
        s.wf(),
        ray.wf(),
    ensures
        sphere_hit(s, ray) matches Some(g) ==> {
            &&& g.time as int == hit_time(s, ray)
            &&& g.intersection.x as int == ray.origin.x + fmul(
                g.time as int,
                ray.direction.x as int,
            )
            &&& g.intersection.y as int == ray.origin.y + fmul(
                g.time as int,
                ray.direction.y as int,
            )
            &&& g.intersection.z as int == ray.origin.z + fmul(
                g.time as int,
                ray.direction.z as int,
            )
        },
{
    if hit_found(s, ray) {
        let oc = hit_oc(s, ray);
        assert(bounded(oc, 2 * COORD_MAX as int));
        lemma_dot_abs(ray.direction, oc, 2 * SCALE as int, 2 * COORD_MAX as int);
        lemma_dot_abs(oc, oc, 2 * COORD_MAX as int, 2 * COORD_MAX as int);
        lemma_fmul_abs(s.radius as int, s.radius as int, COORD_MAX as int, COORD_MAX as int);
        lemma_mag2_nonneg(oc);
        let b = hit_b(s, ray);
        lemma_fmul_abs(b, b, 2_400_000_000_000int, 2_400_000_000_000int);
        let disc = hit_disc(s, ray);
        lemma_sqrt_is(disc * SCALE as int);
        let sq = fsqrt(disc);
        if sq > 2_600_000_000_000int {
            lemma_square_mono(2_600_000_000_000int, sq);
        }
        lemma_tdiv_facts(-b - sq, 2);
        lemma_tdiv_facts(-b + sq, 2);
        let t = hit_time(s, ray);
        lemma_fmul_abs(t, ray.direction.x as int, 2_600_000_000_000int, 2 * SCALE as int);
        lemma_fmul_abs(t, ray.direction.y as int, 2_600_000_000_000int, 2 * SCALE as int);
        lemma_fmul_abs(t, ray.direction.z as int, 2_600_000_000_000int, 2 * SCALE as int);
    }
}

impl Sphere {
    /// Center and radius are within the range the intersection math admits.
    pub open spec fn wf(self) -> bool {
        bounded(self.origin, COORD_MAX as int) && 0 <= self.radius <= COORD_MAX
    }

    /// Builds a sphere from its center and radius.
    pub fn new(origin: Vec3, radius: i64) -> (r: Sphere)
        ensures
            r.origin == origin,
            r.radius == radius,
    {
        Sphere { origin, radius }
    }

    /// Returns the radius, in ticks.
    pub fn radius(&self) -> (r: i64)
        ensures
            r == self.radius,
    {
        self.radius
    }
}

impl Geometry for Sphere {
    open spec fn spec_origin(&self) -> Vec3 {
        self.origin
    }

    fn origin(&self) -> (r: Vec3) {
        self.origin
    }
}

impl RayIntersection for Sphere {
    open spec fn hit_wf(&self) -> bool {
        self.wf()
    }

    open spec fn spec_hit(&self, ray: Ray) -> Option<GeometryIntersection> {
        sphere_hit(*self, ray)
    }

    fn ray_intersection(&self, ray: &Ray) -> (r: Option<GeometryIntersection>) {
        let oc: Vec3 = ray.origin().sub(self.origin);
        let dotv: i64 = ray.direction().dot(oc);
        proof {
            lemma_dot_abs(ray.direction, oc, 2 * SCALE as int, 2 * COORD_MAX as int);
        }
        let b: i64 = 2 * dotv;
        proof {
            lemma_dot_abs(oc, oc, 2 * COORD_MAX as int, 2 * COORD_MAX as int);
            lemma_fmul_abs(self.radius as int, self.radius as int, COORD_MAX as int,
                COORD_MAX as int);
            lemma_mag2_nonneg(oc);
        }
        let c: i64 = oc.magnitude2() - fx_mul(self.radius, self.radius);
        proof {
            lemma_fmul_abs(b as int, b as int, 2_400_000_000_000int, 2_400_000_000_000int);
        }
        let disc: i64 = fx_mul(b, b) - 4 * c;
        if disc < 0 {
            None
        } else {
            let sq: i64 = fx_sqrt(disc);
            proof {
                if sq > 2_600_000_000_000int {
                    lemma_square_mono(2_600_000_000_000int, sq as int);
                }
            }
            let tlo: i64 = half_i64(-b - sq);
            let t: i64 = if tlo >= 0 {
                tlo
            } else {
                half_i64(-b + sq)
            };
            if t < 0 {
                None
            } else {
                let pos: Vec3 = ray.origin().add(ray.direction().scale(t));
                Some(GeometryIntersection { time: t, intersection: pos })
            }
        }
    }
}

} // verus!
