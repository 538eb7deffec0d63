//! The geometry capability: what a primitive must offer so that the scene
//! can traverse it.

use vstd::prelude::*;
use crate::vec3::Vec3;
use crate::ray::Ray;

verus! {

/// A reported ray-primitive hit: the ray parameter of the first valid hit
/// and the corresponding point, in ticks.
#[derive(Clone, Copy, PartialEq, Eq, Structural, Debug)]
pub struct GeometryIntersection {
    pub time: i64,
    pub intersection: Vec3,
}

/// A primitive with a reference point.
pub trait Geometry {
    /// The primitive's reference point, as the specification sees it.
    spec fn spec_origin(&self) -> Vec3;

    /// Returns the primitive's reference point.
    fn origin(&self) -> (r: Vec3)
        ensures
            r == self.spec_origin(),
    ;
}

/// A primitive that can be tested against a ray.
pub trait RayIntersection {
    /// The primitive's values are within the range the intersection math
    /// admits.
    spec fn hit_wf(&self) -> bool;

    /// The hit the primitive reports for `ray`, if any, as the
    /// specification sees it.
    spec fn spec_hit(&self, ray: Ray) -> Option<GeometryIntersection>;

    /// Returns the nearest valid forward intersection, or `None` if the ray
    /// misses the primitive.
    fn ray_intersection(&self, ray: &Ray) -> (r: Option<GeometryIntersection>)
        requires
            self.hit_wf(),
            ray.wf(),
        ensures
            r == self.spec_hit(*ray),
    ;
}

} // verus!
