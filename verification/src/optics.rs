//! Mirror reflection, Fresnel reflectance and dielectric refraction.

use vstd::prelude::*;
use crate::fixed::{
    fits, fadd, fsub, fmul, fdiv, fsqrt, max0, SCALE, FP_MAX,
    fp_add, fp_sub, fp_mul, fp_div, fp_sqrt,
    lemma_fmul_nonneg, lemma_fmul_self_nonneg, lemma_fmul_unit_bound, lemma_fdiv_abs_le_one,
    lemma_fmul_le_left, abs_i,
};
use crate::vec3::{Vec3, Vec3i, dot_s, sub_s, scale_s, add_s, neg_s};
use crate::ray::{Ray, Rayi};
use vstd::arithmetic::div_mod::lemma_fundamental_div_mod;
use vstd::arithmetic::div_mod::lemma_div_is_ordered;
use vstd::arithmetic::div_mod::lemma_div_multiples_vanish;

verus! {

/// Mirror image of a direction about a normal, in fixed-point arithmetic.
pub open spec fn reflect_s(i: Vec3i, n: Vec3i) -> Vec3i {
    sub_s(i, scale_s(n, fadd(dot_s(i, n), dot_s(i, n))))
}

/// Exact (unsaturated) dot product over vector images.
pub open spec fn dot_exact(a: Vec3i, b: Vec3i) -> int {
    a.x * b.x + a.y * b.y + a.z * b.z
}

/// Exact mirror reflection with no rescaling: the result carries an extra
/// factor of `SCALE^2` so that no truncation occurs.
pub open spec fn reflect_exact(i: Vec3i, n: Vec3i) -> Vec3i {
    let s2 = (SCALE as int) * (SCALE as int);
    let d = dot_exact(i, n);
    Vec3i {
        x: i.x * s2 - 2 * n.x * d,
        y: i.y * s2 - 2 * n.y * d,
        z: i.z * s2 - 2 * n.z * d,
    }
}

proof fn lemma_reflect_dot_flips(
    ix: int, iy: int, iz: int, nx: int, ny: int, nz: int, s2: int, d: int, rx: int, ry: int,
    rz: int,
)
    requires
        nx * nx + ny * ny + nz * nz == s2,
        d == ix * nx + iy * ny + iz * nz,
        rx == ix * s2 - 2 * nx * d,
        ry == iy * s2 - 2 * ny * d,
        rz == iz * s2 - 2 * nz * d,
    ensures
        rx * nx + ry * ny + rz * nz == -(s2 * d),
{
    assert(rx * nx == ix * nx * s2 - 2 * (nx * nx) * d) by (nonlinear_arith)
        requires
            rx == ix * s2 - 2 * nx * d,
    ;
    assert(ry * ny == iy * ny * s2 - 2 * (ny * ny) * d) by (nonlinear_arith)
        requires
            ry == iy * s2 - 2 * ny * d,
    ;
    assert(rz * nz == iz * nz * s2 - 2 * (nz * nz) * d) by (nonlinear_arith)
        requires
            rz == iz * s2 - 2 * nz * d,
    ;
    assert(ix * nx * s2 + iy * ny * s2 + iz * nz * s2 == d * s2) by (nonlinear_arith)
        requires
            d == ix * nx + iy * ny + iz * nz,
    ;
    assert(2 * (nx * nx) * d + 2 * (ny * ny) * d + 2 * (nz * nz) * d == 2 * s2 * d)
        by (nonlinear_arith)
        requires
            nx * nx + ny * ny + nz * nz == s2,
    ;
    assert(d * s2 - 2 * s2 * d == -(s2 * d)) by (nonlinear_arith);
}

/// Reflecting twice about the same exactly-unit normal gives back the
/// incident direction (scaled by the bookkeeping factor `SCALE^4`).
pub proof fn lemma_reflect_involution(i: Vec3i, n: Vec3i)
    requires
        dot_exact(n, n) == (SCALE as int) * (SCALE as int),
    ensures
        reflect_exact(reflect_exact(i, n), n) == (Vec3i {
            x: i.x * ((SCALE as int) * (SCALE as int)) * ((SCALE as int) * (SCALE as int)),
            y: i.y * ((SCALE as int) * (SCALE as int)) * ((SCALE as int) * (SCALE as int)),
            z: i.z * ((SCALE as int) * (SCALE as int)) * ((SCALE as int) * (SCALE as int)),
        }),
{
    let s2 = (SCALE as int) * (SCALE as int);
    let ix = i.x;
    let iy = i.y;
    let iz = i.z;
    let nx = n.x;
    let ny = n.y;
    let nz = n.z;
    let d = ix * nx + iy * ny + iz * nz;
    let rx = ix * s2 - 2 * nx * d;
    let ry = iy * s2 - 2 * ny * d;
    let rz = iz * s2 - 2 * nz * d;
    lemma_reflect_dot_flips(ix, iy, iz, nx, ny, nz, s2, d, rx, ry, rz);
    let d2 = rx * nx + ry * ny + rz * nz;
    assert(rx * s2 - 2 * nx * d2 == ix * s2 * s2) by (nonlinear_arith)
        requires
            d2 == -(s2 * d),
            rx == ix * s2 - 2 * nx * d,
    ;
    assert(ry * s2 - 2 * ny * d2 == iy * s2 * s2) by (nonlinear_arith)
        requires
            d2 == -(s2 * d),
            ry == iy * s2 - 2 * ny * d,
    ;
    assert(rz * s2 - 2 * nz * d2 == iz * s2 * s2) by (nonlinear_arith)
        requires
            d2 == -(s2 * d),
            rz == iz * s2 - 2 * nz * d,
    ;
    assert(dot_exact(i, n) == d);
    assert(reflect_exact(i, n) == (Vec3i { x: rx, y: ry, z: rz }));
    assert(dot_exact(reflect_exact(i, n), n) == d2);
}

/// New direction after a mirror bounce: `incident - normal * (2 * incident . normal)`.
pub fn make_reflection(incident: Vec3, normal: Vec3) -> (r: Vec3)
    requires
        incident.wf(),
        normal.wf(),
    ensures
        r@ == reflect_s(incident@, normal@),
        r.wf(),
{
    let d: i64 = incident.dot(normal);
    let two_d: i64 = fp_add(d, d);
    incident.sub(normal.scale(two_d))
}

/// Sine of the transmitted angle, per Snell's law, with the radicand clamped.
pub open spec fn fresnel_sin_t(i: Vec3i, n: Vec3i, index: int) -> int {
    let d = dot_s(i, n);
    let eta_i = if d > 0 { index } else { SCALE as int };
    let eta_t = if d > 0 { SCALE as int } else { index };
    fmul(fdiv(eta_i, eta_t), fsqrt(max0(fsub(SCALE as int, fmul(d, d)))))
}

/// Total internal reflection: the transmitted sine leaves the unit range.
pub open spec fn fresnel_tir(i: Vec3i, n: Vec3i, index: int) -> bool {
    fresnel_sin_t(i, n, index) > SCALE as int
}

/// Unpolarized Fresnel reflectance, the average of the two polarizations,
/// over the incident cosine (the magnitude of the incident-normal dot) and
/// the transmitted cosine from Snell's law, with degenerate (grazing)
/// denominators clamped to full reflection.
pub open spec fn fresnel_s(i: Vec3i, n: Vec3i, index: int) -> int {
    let d = dot_s(i, n);
    let eta_i = if d > 0 { index } else { SCALE as int };
    let eta_t = if d > 0 { SCALE as int } else { index };
    let sin_t = fresnel_sin_t(i, n, index);
    if sin_t > SCALE as int {
        SCALE as int
    } else {
        let cos_t = fsqrt(max0(fsub(SCALE as int, fmul(sin_t, sin_t))));
        let cos_i = abs_i(d);
        let rs_den = fadd(fmul(eta_t, cos_i), fmul(eta_i, cos_t));
        let rp_den = fadd(fmul(eta_i, cos_i), fmul(eta_t, cos_t));
        let r_s = if rs_den == 0 {
            SCALE as int
        } else {
            fdiv(fsub(fmul(eta_t, cos_i), fmul(eta_i, cos_t)), rs_den)
        };
        let r_p = if rp_den == 0 {
            SCALE as int
        } else {
            fdiv(fsub(fmul(eta_i, cos_i), fmul(eta_t, cos_t)), rp_den)
        };
        fdiv(fadd(fmul(r_s, r_s), fmul(r_p, r_p)), 2 * SCALE as int)
    }
}

/// Fraction of light reflected at a dielectric interface. Always lies in
/// `[0, 1]`, and equals exactly one whole unit at or beyond total internal
/// reflection.
#[verifier::rlimit(50)]
pub fn fresnel(incident: Vec3, normal: Vec3, index: i64) -> (kr: i64)
    requires
        incident.wf(),
        normal.wf(),
        0 < index,
        fits(index as int),
    ensures
        kr as int == fresnel_s(incident@, normal@, index as int),
        0 <= kr <= SCALE,
        fresnel_tir(incident@, normal@, index as int) ==> kr == SCALE,
{
    let d: i64 = incident.dot(normal);
    let eta_i: i64 = if d > 0 { index } else { SCALE };
    let eta_t: i64 = if d > 0 { SCALE } else { index };

    let rad0: i64 = fp_sub(SCALE, fp_mul(d, d));
    let rad: i64 = if rad0 < 0 { 0 } else { rad0 };
    let sin_t: i64 = fp_mul(fp_div(eta_i, eta_t), fp_sqrt(rad));
    if sin_t > SCALE {
        SCALE
    } else {
        let rad1: i64 = fp_sub(SCALE, fp_mul(sin_t, sin_t));
        let rad1c: i64 = if rad1 < 0 { 0 } else { rad1 };
        let cos_t: i64 = fp_sqrt(rad1c);
        let cos_i: i64 = if d < 0 { -d } else { d };

        let a_s: i64 = fp_mul(eta_t, cos_i);
        let b_s: i64 = fp_mul(eta_i, cos_t);
        proof {
            lemma_fmul_nonneg(eta_t as int, cos_i as int);
            lemma_fmul_nonneg(eta_i as int, cos_t as int);
        }
        let rs_den: i64 = fp_add(a_s, b_s);
        let r_s: i64 = if rs_den == 0 {
            SCALE
        } else {
            proof {
                lemma_fdiv_abs_le_one(fsub(a_s as int, b_s as int), rs_den as int);
            }
            fp_div(fp_sub(a_s, b_s), rs_den)
        };

        let a_p: i64 = fp_mul(eta_i, cos_i);
        let b_p: i64 = fp_mul(eta_t, cos_t);
        proof {
            lemma_fmul_nonneg(eta_i as int, cos_i as int);
            lemma_fmul_nonneg(eta_t as int, cos_t as int);
        }
        let rp_den: i64 = fp_add(a_p, b_p);
        let r_p: i64 = if rp_den == 0 {
            SCALE
        } else {
            proof {
                lemma_fdiv_abs_le_one(fsub(a_p as int, b_p as int), rp_den as int);
            }
            fp_div(fp_sub(a_p, b_p), rp_den)
        };

        proof {
            lemma_fmul_self_nonneg(r_s as int);
            lemma_fmul_self_nonneg(r_p as int);
            lemma_fmul_unit_bound(r_s as int, r_s as int);
            lemma_fmul_unit_bound(r_p as int, r_p as int);
        }
        let sum: i64 = fp_add(fp_mul(r_s, r_s), fp_mul(r_p, r_p));
        proof {
            lemma_fdiv_abs_le_one(sum as int, 2 * SCALE as int);
        }
        fp_div(sum, 2 * SCALE)
    }
}

/// The refraction radicand: negative exactly under total internal reflection.
pub open spec fn transmission_k(i: Vec3i, n: Vec3i, index: int) -> int {
    let d0 = dot_s(i, n);
    let d = if d0 < 0 { -d0 } else { d0 };
    let eta_i = if d0 < 0 { SCALE as int } else { index };
    let eta_t = if d0 < 0 { index } else { SCALE as int };
    let eta = fdiv(eta_i, eta_t);
    fsub(SCALE as int, fmul(fmul(eta, eta), fsub(SCALE as int, fmul(d, d))))
}

/// The normal on the side the transmitted ray leaves from.
pub open spec fn transmission_normal(i: Vec3i, n: Vec3i) -> Vec3i {
    if dot_s(i, n) < 0 { n } else { neg_s(n) }
}

/// Geometry of the transmitted ray, per Snell's law.
pub open spec fn transmission_dir_s(i: Vec3i, n: Vec3i, index: int) -> Vec3i {
    let d0 = dot_s(i, n);
    let d = if d0 < 0 { -d0 } else { d0 };
    let eta_i = if d0 < 0 { SCALE as int } else { index };
    let eta_t = if d0 < 0 { index } else { SCALE as int };
    let eta = fdiv(eta_i, eta_t);
    let rn = transmission_normal(i, n);
    sub_s(
        scale_s(add_s(i, scale_s(rn, d)), eta),
        scale_s(rn, fsqrt(max0(transmission_k(i, n, index)))),
    )
}

/// Origin of the transmitted ray: the hit point, pushed a small bias through
/// the surface.
pub open spec fn transmission_origin_s(hit: Vec3i, i: Vec3i, n: Vec3i, bias: int) -> Vec3i {
    add_s(hit, scale_s(transmission_normal(i, n), -bias))
}

/// Build the transmitted (refracted) sub-ray at a dielectric hit, or nothing
/// under total internal reflection.
pub fn create_transmission(normal: Vec3, incident: Vec3, hit: Vec3, bias: i64, index: i64) -> (r:
    Option<Ray>)
    requires
        normal.wf(),
        incident.wf(),
        hit.wf(),
        fits(bias as int),
        0 < index,
        fits(index as int),
    ensures
        r is Some <==> transmission_k(incident@, normal@, index as int) >= 0,
        r is Some ==> (r->Some_0)@.direction == transmission_dir_s(incident@, normal@, index as int),
        r is Some ==> (r->Some_0)@.origin == transmission_origin_s(hit@, incident@, normal@, bias as int),
        r is Some ==> (r->Some_0).wf(),
{
    let d0: i64 = incident.dot(normal);
    let ref_n: Vec3 = if d0 < 0 { normal } else { normal.neg() };
    let d: i64 = if d0 < 0 { -d0 } else { d0 };
    let eta_i: i64 = if d0 < 0 { SCALE } else { index };
    let eta_t: i64 = if d0 < 0 { index } else { SCALE };
    let eta: i64 = fp_div(eta_i, eta_t);
    let k: i64 = fp_sub(SCALE, fp_mul(fp_mul(eta, eta), fp_sub(SCALE, fp_mul(d, d))));
    if k < 0 {
        None
    } else {
        let origin: Vec3 = hit.add(ref_n.scale(-bias));
        let direction: Vec3 = incident.add(ref_n.scale(d)).scale(eta).sub(
            ref_n.scale(fp_sqrt(k)),
        );
        Some(Ray { origin, direction })
    }
}


/// Energy decay at a diffuse bounce: a surface-color channel within one unit,
/// attenuated by the scatter cosine, a reflected power within one unit, and
/// the importance weight (the reciprocal of that same cosine), never exceeds
/// the incoming channel value. The cosine-weight product cancels under truncation,
/// so the diffuse mask update cannot amplify any channel.
pub proof fn lemma_diffuse_energy_decay(c: int, cos: int, pow: int)
    requires
        0 <= c <= SCALE as int,
        0 <= cos,
        fits(cos),
        0 <= pow <= SCALE as int,
    ensures
        0 <= fmul(fmul(fmul(c, cos), pow), fdiv(SCALE as int, cos)) <= c,
{
    let s = SCALE as int;
    let t1 = fmul(c, cos);
    let w = fdiv(s, cos);
    if cos == 0 {
        assert(c * 0 == 0);
        lemma_div_multiples_vanish(0, s);
        assert(s * 0 == 0);
        assert(t1 == 0);
        assert(0 * pow == 0);
        assert(fmul(t1, pow) == 0);
        assert(0 * w == 0);
        assert(fmul(fmul(t1, pow), w) == 0);
    } else {
        // t1 is the exact floor of c*cos/s, unclamped.
        assert(0 <= c * cos && c * cos <= s * (FP_MAX as int)) by (nonlinear_arith)
            requires
                0 <= c <= s,
                0 <= cos <= FP_MAX as int,
                s == SCALE as int,
        ;
        lemma_div_is_ordered(c * cos, s * (FP_MAX as int), s);
        lemma_div_multiples_vanish(FP_MAX as int, s);
        let a = (c * cos) / s;
        assert(t1 == a);
        // w is the exact floor of s*s/cos, unclamped.
        assert(0 <= s * s && s * s <= cos * (FP_MAX as int)) by (nonlinear_arith)
            requires
                1 <= cos,
                s == SCALE as int,
                FP_MAX as int == 1099511627776,
        ;
        lemma_div_is_ordered(s * s, cos * (FP_MAX as int), cos);
        lemma_div_multiples_vanish(FP_MAX as int, cos);
        let b = (s * s) / cos;
        assert(w == b);
        // The two floors multiply out below c * s.
        lemma_fundamental_div_mod(c * cos, s);
        lemma_fundamental_div_mod(s * s, cos);
        assert(a * s <= c * cos) by (nonlinear_arith)
            requires
                c * cos == s * a + (c * cos) % s,
                0 <= (c * cos) % s,
        ;
        assert(b * cos <= s * s) by (nonlinear_arith)
            requires
                s * s == cos * b + (s * s) % cos,
                0 <= (s * s) % cos,
        ;
        assert(a * b <= c * s) by (nonlinear_arith)
            requires
                a * s <= c * cos,
                b * cos <= s * s,
                0 <= a,
                0 <= b,
                0 <= c,
                1 <= cos,
                0 < s,
        ;
        let t2 = fmul(t1, pow);
        lemma_fmul_le_left(t1, pow);
        assert(0 <= t2 * b <= a * b) by (nonlinear_arith)
            requires
                0 <= t2 <= a,
                0 <= b,
        ;
        lemma_div_is_ordered(t2 * b, c * s, s);
        lemma_div_multiples_vanish(c, s);
        assert((s * c) / s == c);
        assert(s * c == c * s) by (nonlinear_arith);
        lemma_fmul_nonneg(t2, b);
    }
}

} // verus!
