//! The renderer: drives the camera over every pixel and writes the buffer.

use vstd::prelude::*;
use vstd::pervasive::VecAdditionalExecFns;
use vstd::arithmetic::div_mod::lemma_fundamental_div_mod_converse;
use crate::camera::Camera;
use crate::scene::{Scene, hits_of};
use crate::sphere::Sphere;

verus! {

/// The pixel value written where a ray hits a primitive.
pub const FOREGROUND: u8 = 255;

/// The pixel value left where a ray hits nothing.
pub const BACKGROUND: u8 = 0;

/// The ray of pixel `(x, y)` hits at least one primitive of `objs`.
pub open spec fn pixel_hit(cam: Camera, objs: Seq<Sphere>, x: int, y: int) -> bool {
    hits_of(objs, cam.spec_ray(x, y)).len() > 0
}

/// The byte a finished buffer holds for pixel `(x, y)`.
pub open spec fn pixel_value(cam: Camera, objs: Seq<Sphere>, x: int, y: int) -> u8 {
    if pixel_hit(cam, objs, x, y) {
        FOREGROUND
    } else {
        BACKGROUND
    }
}

/// Renders scenes through one camera.
pub struct Renderer {
    pub camera: Camera,
}

impl Renderer {
    /// Builds a renderer around a camera.
    pub fn new(camera: Camera) -> (r: Renderer)
        ensures
            r.camera == camera,
    {
        Renderer { camera }
    }

    /// Casts one ray per pixel, row-major, and writes a flat single-channel
    /// buffer: index `x + y * px_wide` holds 255 where the pixel's ray hits
    /// any primitive and 0 where it hits none.
    pub fn render_scene(&self, scene: &Scene) -> (r: Vec<u8>)
        requires
            self.camera.wf(),
            scene.wf(),
            self.camera.screen.px_wide * self.camera.screen.px_high <= usize::MAX,
        ensures
            r@.len() == self.camera.screen.px_wide * self.camera.screen.px_high,
            forall|i: int|
                0 <= i < r@.len() ==> r@[i] == pixel_value(
                    self.camera,
                    scene@,
                    i % (self.camera.screen.px_wide as int),
                    i / (self.camera.screen.px_wide as int),
                ),
            forall|i: int| 0 <= i < r@.len() ==> r@[i] == 0 || r@[i] == 255,
    {
        let width: usize = self.camera.screen.px_wide;
        let height: usize = self.camera.screen.px_high;
        proof {
            assert(width * height <= usize::MAX) by (nonlinear_arith)
                requires
                    width == self.camera.screen.px_wide,
                    height == self.camera.screen.px_high,
                    self.camera.screen.px_wide * self.camera.screen.px_high <= usize::MAX,
            ;
        }
        let total: usize = width * height;
        let mut out: Vec<u8> = Vec::new();
        let mut k: usize = 0;
        while k < total
            invariant
                k <= total,
                out@.len() == k,
                forall|i: int| 0 <= i < k ==> out@[i] == 0,
            decreases total - k,
        {
            out.push(BACKGROUND);
            k = k + 1;
        }
        let mut y: usize = 0;
        while y < height
            invariant
                y <= height,
                width == self.camera.screen.px_wide,
                height == self.camera.screen.px_high,
                total == width * height,
                out@.len() == total,
                self.camera.wf(),
                scene.wf(),
                y * width <= total,
                forall|i: int|
                    0 <= i < y * width ==> out@[i] == pixel_value(
                        self.camera,
                        scene@,
                        i % (width as int),
                        i / (width as int),
                    ),
                forall|i: int| y * width <= i < total ==> out@[i] == 0,
            decreases height - y,
        {
            proof {
                assert((y + 1) * width <= total && y * width + width == (y + 1) * width)
                    by (nonlinear_arith)
                    requires
                        y < height,
                        total == width * height,
                ;
            }
            let mut x: usize = 0;
            while x < width
                invariant
                    x <= width,
                    y < height,
                    width == self.camera.screen.px_wide,
                    height == self.camera.screen.px_high,
                    total == width * height,
                    out@.len() == total,
                    self.camera.wf(),
                    scene.wf(),
                    y * width + width <= total,
                    forall|i: int|
                        0 <= i < y * width + x ==> out@[i] == pixel_value(
                            self.camera,
                            scene@,
                            i % (width as int),
                            i / (width as int),
                        ),
                    forall|i: int| y * width + x <= i < total ==> out@[i] == 0,
                decreases width - x,
            {
                let idx: usize = x + y * width;
                proof {
                    lemma_fundamental_div_mod_converse(
                        idx as int,
                        width as int,
                        y as int,
                        x as int,
                    );
                }
                let ray = self.camera.ray_from_px(x, y);
                let hits = scene.intersections(&ray);
                if hits.len() > 0 {
                    out.set(idx, FOREGROUND);
                }
                x = x + 1;
            }
            y = y + 1;
        }
        proof {
            assert(y * width == total) by (nonlinear_arith)
                requires
                    y == height,
                    total == width * height,
            ;
        }
        out
    }
}

} // verus!
