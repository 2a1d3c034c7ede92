//! Hemisphere importance sampling around a surface normal.

use vstd::prelude::*;
use rand::Rng;
use crate::fixed::{
    fits, fadd, fsub, fmul, fdiv, fsqrt, max0, clamp_one, sin_approx, cos_arg, SCALE, TWO_PI_FP,
    fp_add, fp_sub, fp_mul, fp_div, fp_sqrt, fp_sin, fp_cos,
    lemma_fmul_le_left, abs_i,
};
use crate::vec3::{Vec3, Vec3i, dot_s, cross_s, normalize_s};

verus! {

/// How far the squared length of a "unit" vector may stray from one unit.
pub const UNIT_TOL: i64 = 1311;

/// A vector of unit length, within the sampling tolerance.
pub open spec fn unit_approx(v: Vec3i) -> bool {
    abs_i(dot_s(v, v) - SCALE as int) <= UNIT_TOL as int
}

/// Relies on rand::thread_rng and rand::Rng::gen: one uniform 64-bit draw
/// from the thread-local generator. Nothing is promised of the value.
#[verifier::external_body]
fn random_u64() -> u64 {
    rand::thread_rng().gen()
}

/// One uniform fixed-point sample in `[0, 1)`.
pub fn random_unit() -> (r: i64)
    ensures
        0 <= r < SCALE,
{
    let raw: u64 = random_u64();
    (raw % 65536u64) as i64
}

/// The numerically stable tangent choice: branch on the normal's larger
/// horizontal component, then normalize.
pub open spec fn tangent_s(n: Vec3i) -> Vec3i {
    if abs_i(n.x) > abs_i(n.y) {
        normalize_s(Vec3i { x: n.z, y: 0, z: -n.x })
    } else {
        normalize_s(Vec3i { x: 0, y: -n.z, z: n.y })
    }
}

pub open spec fn bitangent_s(n: Vec3i) -> Vec3i {
    cross_s(n, tangent_s(n))
}

/// The hemisphere direction drawn from two unit samples, in the local frame:
/// elevation from `r1`, azimuth from `r2`.
pub open spec fn hemi_local_s(r1: int, r2: int) -> Vec3i {
    let az = fmul(TWO_PI_FP as int, r2);
    let se = fsqrt(max0(fsub(SCALE as int, fmul(r1, r1))));
    Vec3i {
        x: fmul(se, clamp_one(sin_approx(cos_arg(az)))),
        y: r1,
        z: fmul(se, clamp_one(sin_approx(az))),
    }
}

/// A local-frame direction carried into world space by the orthonormal-ish
/// frame (tangent, bitangent, normal).
pub open spec fn to_world_s(n: Vec3i, h: Vec3i) -> Vec3i {
    let t = tangent_s(n);
    let b = bitangent_s(n);
    Vec3i {
        x: fadd(fadd(fmul(h.x, b.x), fmul(h.y, n.x)), fmul(h.z, t.x)),
        y: fadd(fadd(fmul(h.x, b.y), fmul(h.y, n.y)), fmul(h.z, t.y)),
        z: fadd(fadd(fmul(h.x, b.z), fmul(h.y, n.z)), fmul(h.z, t.z)),
    }
}

/// The scatter direction proposed from two unit samples, before the
/// degeneracy guard: the world-space hemisphere draw, normalized.
pub open spec fn scatter_candidate_s(n: Vec3i, r1: int, r2: int) -> Vec3i {
    normalize_s(to_world_s(n, hemi_local_s(r1, r2)))
}

/// The degeneracy guard: the candidate faces the normal's side and its
/// squared length stays within the unit tolerance.
pub open spec fn scatter_ok(n: Vec3i, r1: int, r2: int) -> bool {
    let cand = scatter_candidate_s(n, r1, r2);
    dot_s(cand, n) > 0 && abs_i(dot_s(cand, cand) - SCALE as int) <= UNIT_TOL as int
}

/// The direction actually returned for two given unit samples: the candidate
/// when it passes the guard, the normal itself otherwise.
pub open spec fn scatter_dir_s(n: Vec3i, r1: int, r2: int) -> Vec3i {
    if scatter_ok(n, r1, r2) {
        scatter_candidate_s(n, r1, r2)
    } else {
        n
    }
}

/// The importance weight paired with that direction: the reciprocal of its
/// cosine against the normal.
pub open spec fn scatter_weight_s(n: Vec3i, r1: int, r2: int) -> int {
    fdiv(SCALE as int, dot_s(scatter_dir_s(n, r1, r2), n))
}

/// Build a local orthonormal-ish frame around a normal.
pub fn create_coordinate_system(normal: &Vec3) -> (r: (Vec3, Vec3))
    requires
        normal.wf(),
    ensures
        r.0@ == tangent_s(normal@),
        r.1@ == bitangent_s(normal@),
        r.0.wf(),
        r.1.wf(),
{
    let ax: i64 = if normal.x < 0 {
        -normal.x
    } else {
        normal.x
    };
    let ay: i64 = if normal.y < 0 {
        -normal.y
    } else {
        normal.y
    };
    let n_t: Vec3 = if ax > ay {
        Vec3::new(normal.z, 0, -normal.x).normalize()
    } else {
        Vec3::new(0, -normal.z, normal.y).normalize()
    };
    let n_b: Vec3 = normal.cross(n_t);
    (n_t, n_b)
}

/// Draw a scatter direction over the hemisphere aligned with `normal`,
/// together with its importance weight, the reciprocal of the cosine to the
/// normal. The result is the deterministic image of the two uniform draws:
/// the normalized hemisphere candidate when it passes the degeneracy guard,
/// and the normal itself exactly when the candidate fails it (wrong side, or
/// length off by more than the tolerance), so the returned direction is
/// always unit-length within tolerance and never faces away from the surface.
pub fn create_scatter_direction(normal: &Vec3) -> (ret: (Vec3, i64))
    requires
        normal.wf(),
    ensures
        ret.0.wf(),
        unit_approx(normal@) ==> unit_approx(ret.0@),
        0 <= dot_s(ret.0@, normal@),
        ret.1 as int == fdiv(SCALE as int, dot_s(ret.0@, normal@)),
        fits(ret.1 as int),
        exists|r1: int, r2: int|
            0 <= r1 < SCALE as int && 0 <= r2 < SCALE as int && ret.0@ == scatter_dir_s(
                normal@,
                r1,
                r2,
            ) && ret.1 as int == scatter_weight_s(normal@, r1, r2),
{
    let r1: i64 = random_unit();
    let r2: i64 = random_unit();
    let y: i64 = r1;
    proof {
        lemma_fmul_le_left(TWO_PI_FP as int, r2 as int);
    }
    let azimuth: i64 = fp_mul(TWO_PI_FP, r2);
    let rad: i64 = fp_sub(SCALE, fp_mul(y, y));
    let radc: i64 = if rad < 0 {
        0
    } else {
        rad
    };
    let sin_elev: i64 = fp_sqrt(radc);
    let cos_az: i64 = fp_cos(azimuth);
    let sin_az: i64 = fp_sin(azimuth);
    let hx: i64 = fp_mul(sin_elev, cos_az);
    let hz: i64 = fp_mul(sin_elev, sin_az);

    let frame: (Vec3, Vec3) = create_coordinate_system(normal);
    let n_t: Vec3 = frame.0;
    let n_b: Vec3 = frame.1;

    let sx: i64 = fp_add(fp_add(fp_mul(hx, n_b.x), fp_mul(y, normal.x)), fp_mul(hz, n_t.x));
    let sy: i64 = fp_add(fp_add(fp_mul(hx, n_b.y), fp_mul(y, normal.y)), fp_mul(hz, n_t.y));
    let sz: i64 = fp_add(fp_add(fp_mul(hx, n_b.z), fp_mul(y, normal.z)), fp_mul(hz, n_t.z));
    let cand: Vec3 = Vec3::new(sx, sy, sz).normalize();

    let c0: i64 = cand.dot(*normal);
    let n2: i64 = cand.norm_sq();
    let dev: i64 = n2 - SCALE;
    let ok: bool = c0 > 0 && dev <= UNIT_TOL && dev >= -UNIT_TOL;
    let d: Vec3 = if ok {
        cand
    } else {
        *normal
    };
    let c: i64 = if ok {
        c0
    } else {
        normal.norm_sq()
    };
    let weight: i64 = fp_div(SCALE, c);
    proof {
        assert(cand@ == scatter_candidate_s(normal@, r1 as int, r2 as int));
        assert(ok == scatter_ok(normal@, r1 as int, r2 as int));
        assert(0 <= (r1 as int) && (r1 as int) < SCALE as int && 0 <= (r2 as int) && (r2 as int)
            < SCALE as int && d@ == scatter_dir_s(normal@, r1 as int, r2 as int)
            && weight as int == scatter_weight_s(normal@, r1 as int, r2 as int));
    }
    (d, weight)
}

} // verus!
