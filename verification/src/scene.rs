//! The scene: an insertion-ordered collection of spheres, traversed whole.

use vstd::prelude::*;
use crate::vec3::Vec3;
use crate::ray::Ray;
use crate::sphere::{Sphere, sphere_hit};
use crate::geom::RayIntersection;

verus! {

/// An ordered collection of spheres.  Traversal reports every hit, in
/// insertion order: no depth sort, no early exit, no occlusion resolution.
pub struct Scene {
    geom: Vec<Sphere>,
}

impl View for Scene {
    type V = Seq<Sphere>;

    closed spec fn view(&self) -> Seq<Sphere> {
        self.geom@
    }
}

/// The hits the spheres of `objs` report for `ray`, in the order of `objs`:
/// one `(hit point, sphere)` record per sphere whose intersection is a hit.
pub open spec fn hits_of(objs: Seq<Sphere>, ray: Ray) -> Seq<(Vec3, Sphere)>
    decreases objs.len(),
{
    if objs.len() == 0 {
        Seq::empty()
    } else {
        let prev = hits_of(objs.drop_last(), ray);
        match sphere_hit(objs.last(), ray) {
            Some(g) => prev.push((g.intersection, objs.last())),
            None => prev,
        }
    }
}

/// Traversal order is insertion order: the hits for a scene with one more
/// sphere are the hits of the earlier spheres, with the new sphere's record,
/// if it reports one, at the end.
pub proof fn lemma_hits_in_insertion_order(objs: Seq<Sphere>, s: Sphere, ray: Ray)
    ensures
        sphere_hit(s, ray) matches Some(g) ==> hits_of(objs.push(s), ray) == hits_of(
            objs,
            ray,
        ).push((g.intersection, s)),
        sphere_hit(s, ray) is None ==> hits_of(objs.push(s), ray) == hits_of(objs, ray),
{
    assert(objs.push(s).drop_last() =~= objs);
    assert(objs.push(s).last() == s);
}

impl Scene {
    /// Every sphere of the scene is within range of the intersection math.
    pub open spec fn wf(self) -> bool {
        forall|i: int| 0 <= i < self@.len() ==> (#[trigger] self@[i]).wf()
    }

    /// Builds an empty scene.
    pub fn new() -> (r: Scene)
        ensures
            r@ == Seq::<Sphere>::empty(),
    {
        Scene { geom: Vec::new() }
    }

    /// Appends a sphere; it is traversed after every sphere already added.
    pub fn add_sphere(&mut self, sphere: Sphere)
        ensures
            final(self)@ == old(self)@.push(sphere),
    {
        self.geom.push(sphere);
    }

    /// Tests `ray` against every sphere in insertion order and collects a
    /// `(hit point, sphere)` record for each reported hit.
    pub fn intersections(&self, ray: &Ray) -> (r: Vec<(Vec3, Sphere)>)
        requires
            self.wf(),
            ray.wf(),
        ensures
            r@ == hits_of(self@, *ray),
    {
        let mut out: Vec<(Vec3, Sphere)> = Vec::new();
        let n: usize = self.geom.len();
        let mut i: usize = 0;
        while i < n
            invariant
                i <= n,
                n == self@.len(),
                self.wf(),
                ray.wf(),
                out@ == hits_of(self@.take(i as int), *ray),
            decreases n - i,
    {
            let obj: &Sphere = &self.geom[i];
            let res = obj.ray_intersection(ray);
            match res {
                Some(g) => out.push((g.intersection, *obj)),
                None => {},
            }
            proof {
                assert(self@.take(i as int + 1).drop_last() =~= self@.take(i as int));
                assert(self@.take(i as int + 1).last() == self@[i as int]);
            }
            i = i + 1;
        }
        proof {
            assert(self@.take(n as int) =~= self@);
        }
        out
    }
}

} // verus!
