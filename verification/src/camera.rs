//! The pinhole camera: maps a pixel-grid coordinate to a ray.
//!
//! The pinhole sits at `(0, 0, -ray_source_dist)`; pixel `(x, y)` projects
//! to the image-plane point `target = (offset_x * dx, offset_y * dy, 0)`,
//! and the ray runs from `target` along `normalize(target - pinhole)`.  The
//! ray's stored `origin` is `target`, the image-plane point, not the
//! pinhole: scene hits are measured from the plane.

use vstd::prelude::*;
use crate::fx::{
    SCALE, HALF_SCALE, COORD_MAX, tdiv, fmul, lemma_tdiv_facts, lemma_tdiv_mono_nonneg,
    lemma_square_mono, fx_mul, div_pos,
};
use crate::vec3::{Vec3, bounded, spec_mag2, spec_norm, is_unit};
use crate::ray::Ray;

verus! {

/// The pixel grid of the output image.
#[derive(Clone, Copy, PartialEq, Eq, Structural, Debug)]
pub struct CameraScreen {
    pub px_wide: usize,
    pub px_high: usize,
}

/// A pinhole camera: a pixel grid, the physical size of the image plane in
/// ticks, and the distance from the plane to the pinhole in ticks.
#[derive(Clone, Copy, PartialEq, Eq, Structural, Debug)]
pub struct Camera {
    pub screen: CameraScreen,
    pub physical_width: i64,
    pub physical_height: i64,
    pub ray_source_dist: i64,
}

impl CameraScreen {
    /// Builds a screen from its pixel counts.
    pub fn new(px_wide: usize, px_high: usize) -> (r: CameraScreen)
        ensures
            r.px_wide == px_wide,
            r.px_high == px_high,
    {
        CameraScreen { px_wide, px_high }
    }
}

impl Camera {
    /// The configuration is within range: nonempty grid of at most a
    /// million pixels a side, positive physical size, pinhole distance at
    /// least a tenth of a unit (below that the fixed-point normalization
    /// loses the unit-length tolerance).
    pub open spec fn wf(self) -> bool {
        1 <= self.screen.px_wide <= 1_000_000 && 1 <= self.screen.px_high <= 1_000_000 && 0
            < self.physical_width <= COORD_MAX && 0 < self.physical_height <= COORD_MAX
            && 100_000_000 <= self.ray_source_dist <= COORD_MAX
    }

    /// Pixel pitch along x: physical width over pixel count, in ticks.
    pub open spec fn spec_dx(self) -> int {
        tdiv(self.physical_width as int, self.screen.px_wide as int)
    }

    /// Pixel pitch along y: physical height over pixel count, in ticks.
    pub open spec fn spec_dy(self) -> int {
        tdiv(self.physical_height as int, self.screen.px_high as int)
    }

    /// Image-plane x coordinate of pixel column `x`, in ticks:
    /// `(x - px_wide / 2) * dx`.
    pub open spec fn spec_target_x(self, x: int) -> int {
        fmul(x * SCALE - (self.screen.px_wide as int) * HALF_SCALE, self.spec_dx())
    }

    /// Image-plane y coordinate of pixel row `y`, in ticks.
    pub open spec fn spec_target_y(self, y: int) -> int {
        fmul(y * SCALE - (self.screen.px_high as int) * HALF_SCALE, self.spec_dy())
    }

    /// The un-normalized ray direction `target - pinhole`.
    pub open spec fn spec_dir_raw(self, x: int, y: int) -> Vec3 {
        Vec3 {
            x: self.spec_target_x(x) as i64,
            y: self.spec_target_y(y) as i64,
            z: self.ray_source_dist,
        }
    }

    /// The ray produced for pixel `(x, y)`: origin is the image-plane
    /// point, direction the normalized `target - pinhole`.
    pub open spec fn spec_ray(self, x: int, y: int) -> Ray {
        let target = Vec3 {
            x: self.spec_target_x(x) as i64,
            y: self.spec_target_y(y) as i64,
            z: 0,
        };
        Ray { origin: target, direction: spec_norm(self.spec_dir_raw(x, y)) }
    }

    /// Builds a camera from a screen, the physical plane size in ticks, and
    /// the pinhole distance in ticks.
    pub fn new(screen: CameraScreen, physical_size: (i64, i64), ray_dist: i64) -> (r: Camera)
        requires
            1 <= screen.px_wide <= 1_000_000,
            1 <= screen.px_high <= 1_000_000,
            0 < physical_size.0 <= COORD_MAX,
            0 < physical_size.1 <= COORD_MAX,
            100_000_000 <= ray_dist <= COORD_MAX,
        ensures
            r.screen == screen,
            r.physical_width == physical_size.0,
            r.physical_height == physical_size.1,
            r.ray_source_dist == ray_dist,
            r.wf(),
    {
        Camera {
            screen,
            physical_width: physical_size.0,
            physical_height: physical_size.1,
            ray_source_dist: ray_dist,
        }
    }

    /// Returns the pixel grid.
    pub fn screen(&self) -> (r: &CameraScreen)
        ensures
            *r == self.screen,
    {
        &self.screen
    }

    /// Returns the physical plane size, in ticks.
    pub fn physical_dimensions(&self) -> (r: (i64, i64))
        ensures
            r.0 == self.physical_width,
            r.1 == self.physical_height,
    {
        (self.physical_width, self.physical_height)
    }

    /// Maps pixel `(pix_x, pix_y)` to its ray.  The produced direction has
    /// unit length, and the ray's origin is the image-plane point.
    pub fn ray_from_px(&self, pix_x: usize, pix_y: usize) -> (r: Ray)
        requires
            self.wf(),
            pix_x < self.screen.px_wide,
            pix_y < self.screen.px_high,
        ensures
            r == self.spec_ray(pix_x as int, pix_y as int),
            r.wf(),
            is_unit(r.direction),
            r.direction == spec_norm(self.spec_dir_raw(pix_x as int, pix_y as int)),
            r.origin.x as int == self.spec_target_x(pix_x as int),
            r.origin.y as int == self.spec_target_y(pix_y as int),
            r.origin.z == 0,
    {
        let w: i64 = self.screen.px_wide as i64;
        let h: i64 = self.screen.px_high as i64;
        let offx: i64 = (pix_x as i64) * SCALE - w * HALF_SCALE;
        let offy: i64 = (pix_y as i64) * SCALE - h * HALF_SCALE;
        let dx: i64 = div_pos(self.physical_width, w);
        let dy: i64 = div_pos(self.physical_height, h);
        proof {
            lemma_tdiv_facts(self.physical_width as int, w as int);
            lemma_tdiv_facts(self.physical_height as int, h as int);
            lemma_off_times_pitch(offx as int, dx as int, w as int, self.physical_width as int);
            lemma_off_times_pitch(offy as int, dy as int, h as int, self.physical_height as int);
            lemma_tdiv_facts(offx as int * dx, SCALE as int);
            lemma_tdiv_facts(offy as int * dy, SCALE as int);
        }
        let tx: i64 = fx_mul(offx, dx);
        let ty: i64 = fx_mul(offy, dy);
        let dirv: Vec3 = Vec3::new(tx, ty, self.ray_source_dist);
        proof {
            lemma_dir_mag(dirv);
        }
        let n: Vec3 = dirv.normalize();
        let target: Vec3 = Vec3::new(tx, ty, 0);
        Ray::new(target, n)
    }
}

/// The image-plane coordinate is bounded by half the physical size: the
/// offset is at most `w * HALF_SCALE` ticks and the pitch at most
/// `pw / w`, so their product stays within `HALF_SCALE * pw`.
proof fn lemma_off_times_pitch(off: int, d: int, w: int, pw: int)
    by (nonlinear_arith)
    requires
        1 <= w,
        -(w * 500_000_000) <= off <= w * 500_000_000,
        0 <= d,
        d * w <= pw,
        pw <= 100_000_000_000,
    ensures
        -50_000_000_000_000_000_000int <= off * d <= 50_000_000_000_000_000_000int,
{
    assert(off * d <= (w * 500_000_000) * d);
    assert((w * 500_000_000) * d == 500_000_000 * (d * w));
}

/// A direction vector whose z component is at least `0.1` has squared
/// magnitude at least `SCALE / 100` ticks.
proof fn lemma_dir_mag(v: Vec3)
    requires
        100_000_000 <= v.z,
        bounded(v, COORD_MAX as int),
    ensures
        spec_mag2(v) >= SCALE as int / 100,
{
    let q = (v.x as int) * (v.x as int) + (v.y as int) * (v.y as int) + (v.z as int) * (
    v.z as int);
    assert((v.x as int) * (v.x as int) >= 0 && (v.y as int) * (v.y as int) >= 0)
        by (nonlinear_arith);
    lemma_square_mono(100_000_000int, v.z as int);
    lemma_tdiv_mono_nonneg(10_000_000_000_000_000int, q, SCALE as int);
    assert(tdiv(10_000_000_000_000_000int, SCALE as int) == 10_000_000int);
}

} // verus!
