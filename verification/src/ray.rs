//! Rays and the primary-ray camera projection.

use vstd::prelude::*;
use crate::fixed::{
    fadd, fsub, fmul, fdiv, SCALE, clamp_one, sin_approx, cos_arg,
    fp_add, fp_sub, fp_mul, fp_div, fp_from_int, fp_sin, fp_cos,
};
use crate::vec3::{Vec3, Vec3i, normalize_s};

verus! {

/// Fixed-point value of pi/180: one degree in radians.
pub const DEG_FP: i64 = 1143;

/// Half of one whole unit.
pub const HALF_FP: i64 = 32768;

/// Mathematical image of a ray.
#[verifier::ext_equal]
pub ghost struct Rayi {
    pub origin: Vec3i,
    pub direction: Vec3i,
}

#[derive(Clone, Copy, Debug, PartialEq, Eq, Structural)]
pub struct Ray {
    pub origin: Vec3,
    pub direction: Vec3,
}

impl View for Ray {
    type V = Rayi;

    open spec fn view(&self) -> Rayi {
        Rayi { origin: self.origin@, direction: self.direction@ }
    }
}

impl Ray {
    pub open spec fn wf(self) -> bool {
        self.origin.wf() && self.direction.wf()
    }
}

/// Tangent of half the field of view, the camera's sensor scaling factor.
pub open spec fn fov_adjustment_s(fov_deg: int) -> int {
    let half_rad = fmul(fmul(fov_deg * SCALE as int, DEG_FP as int), HALF_FP as int);
    fdiv(
        clamp_one(sin_approx(half_rad)),
        clamp_one(sin_approx(cos_arg(half_rad))),
    )
}

/// Horizontal sensor coordinate of a pixel column.
pub open spec fn sensor_x_s(x: int, width: int, height: int, fov_deg: int) -> int {
    let fx = fdiv(fadd(x * SCALE as int, HALF_FP as int), width * SCALE as int);
    let centered = fsub(fadd(fx, fx), SCALE as int);
    fmul(fmul(centered, fdiv(width * SCALE as int, height * SCALE as int)), fov_adjustment_s(fov_deg))
}

/// Vertical sensor coordinate of a pixel row.
pub open spec fn sensor_y_s(y: int, height: int, fov_deg: int) -> int {
    let fy = fdiv(fadd(y * SCALE as int, HALF_FP as int), height * SCALE as int);
    fmul(fsub(SCALE as int, fadd(fy, fy)), fov_adjustment_s(fov_deg))
}

/// The primary ray of a pixel: camera at the origin, direction through the
/// sensor plane at `z = -1`, normalized.
pub open spec fn prime_direction_s(x: int, y: int, width: int, height: int, fov_deg: int) -> Vec3i {
    normalize_s(
        Vec3i {
            x: sensor_x_s(x, width, height, fov_deg),
            y: sensor_y_s(y, height, fov_deg),
            z: -(SCALE as int),
        },
    )
}

/// Build the primary ray cast through pixel `(x, y)`.
pub fn create_prime(x: u32, y: u32, width: u32, height: u32, fov_deg: i64) -> (r: Ray)
    requires
        0 < width <= 16384,
        0 < height <= 16384,
        x < width,
        y < height,
        0 < fov_deg <= 180,
    ensures
        r.wf(),
        r@.origin == (Vec3i { x: 0, y: 0, z: 0 }),
        r@.direction == prime_direction_s(x as int, y as int, width as int, height as int, fov_deg as int),
{
    let fov_fp: i64 = fp_from_int(fov_deg);
    let half_rad: i64 = fp_mul(fp_mul(fov_fp, DEG_FP), HALF_FP);
    proof {
        let t1 = fmul(fov_deg as int * SCALE as int, DEG_FP as int);
        crate::fixed::lemma_fmul_nonneg(fov_deg as int * SCALE as int, DEG_FP as int);
        crate::fixed::lemma_fmul_abs_div(
            fov_deg as int * SCALE as int,
            DEG_FP as int,
            180 * SCALE as int,
            DEG_FP as int,
        );
        crate::fixed::lemma_fmul_nonneg(t1, HALF_FP as int);
        crate::fixed::lemma_fmul_abs_div(t1, HALF_FP as int, 205741, HALF_FP as int);
    }
    let sin_h: i64 = fp_sin(half_rad);
    let cos_h: i64 = fp_cos(half_rad);
    let fov_adjustment: i64 = fp_div(sin_h, cos_h);

    let wf_: i64 = fp_from_int(width as i64);
    let hf_: i64 = fp_from_int(height as i64);
    let aspect: i64 = fp_div(wf_, hf_);

    let fx: i64 = fp_div(fp_add(fp_from_int(x as i64), HALF_FP), wf_);
    let cx: i64 = fp_sub(fp_add(fx, fx), SCALE);
    let sensor_x: i64 = fp_mul(fp_mul(cx, aspect), fov_adjustment);

    let fy: i64 = fp_div(fp_add(fp_from_int(y as i64), HALF_FP), hf_);
    let sensor_y: i64 = fp_mul(fp_sub(SCALE, fp_add(fy, fy)), fov_adjustment);

    let direction: Vec3 = Vec3::new(sensor_x, sensor_y, -SCALE).normalize();
    Ray { origin: Vec3::zero(), direction }
}

} // verus!
