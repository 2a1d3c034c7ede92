//! Three-component vectors over fixed-point scalars.

use vstd::prelude::*;
use crate::fixed::{
    fits, fadd, fsub, fmul, fdiv, fsqrt, SCALE, fp_add, fp_sub, fp_mul, fp_div, fp_neg, fp_sqrt,
    lemma_fmul_self_nonneg,
};

verus! {

/// Mathematical image of a vector: three unbounded integers at fixed-point scale.
#[verifier::ext_equal]
pub ghost struct Vec3i {
    pub x: int,
    pub y: int,
    pub z: int,
}

#[derive(Clone, Copy, Debug, PartialEq, Eq, Structural)]
pub struct Vec3 {
    pub x: i64,
    pub y: i64,
    pub z: i64,
}

impl View for Vec3 {
    type V = Vec3i;

    open spec fn view(&self) -> Vec3i {
        Vec3i { x: self.x as int, y: self.y as int, z: self.z as int }
    }
}

pub open spec fn vec_fits(v: Vec3i) -> bool {
    fits(v.x) && fits(v.y) && fits(v.z)
}

pub open spec fn add_s(a: Vec3i, b: Vec3i) -> Vec3i {
    Vec3i { x: fadd(a.x, b.x), y: fadd(a.y, b.y), z: fadd(a.z, b.z) }
}

pub open spec fn sub_s(a: Vec3i, b: Vec3i) -> Vec3i {
    Vec3i { x: fsub(a.x, b.x), y: fsub(a.y, b.y), z: fsub(a.z, b.z) }
}

pub open spec fn neg_s(a: Vec3i) -> Vec3i {
    Vec3i { x: -a.x, y: -a.y, z: -a.z }
}

pub open spec fn scale_s(a: Vec3i, s: int) -> Vec3i {
    Vec3i { x: fmul(a.x, s), y: fmul(a.y, s), z: fmul(a.z, s) }
}

pub open spec fn dot_s(a: Vec3i, b: Vec3i) -> int {
    fadd(fadd(fmul(a.x, b.x), fmul(a.y, b.y)), fmul(a.z, b.z))
}

pub open spec fn cross_s(a: Vec3i, b: Vec3i) -> Vec3i {
    Vec3i {
        x: fsub(fmul(a.y, b.z), fmul(a.z, b.y)),
        y: fsub(fmul(a.z, b.x), fmul(a.x, b.z)),
        z: fsub(fmul(a.x, b.y), fmul(a.y, b.x)),
    }
}

/// The normalized image: each component divided by the vector's length,
/// with the zero vector left in place.
pub open spec fn normalize_s(a: Vec3i) -> Vec3i {
    let len = fsqrt(dot_s(a, a));
    if len == 0 {
        a
    } else {
        Vec3i { x: fdiv(a.x, len), y: fdiv(a.y, len), z: fdiv(a.z, len) }
    }
}

impl Vec3 {
    pub open spec fn wf(self) -> bool {
        vec_fits(self@)
    }

    pub fn new(x: i64, y: i64, z: i64) -> (r: Vec3)
        requires
            fits(x as int),
            fits(y as int),
            fits(z as int),
        ensures
            r@ == (Vec3i { x: x as int, y: y as int, z: z as int }),
            r.wf(),
    {
        Vec3 { x, y, z }
    }

    pub fn zero() -> (r: Vec3)
        ensures
            r@ == (Vec3i { x: 0, y: 0, z: 0 }),
            r.wf(),
    {
        Vec3 { x: 0, y: 0, z: 0 }
    }

    pub fn add(self, o: Vec3) -> (r: Vec3)
        requires
            self.wf(),
            o.wf(),
        ensures
            r@ == add_s(self@, o@),
            r.wf(),
    {
        Vec3 { x: fp_add(self.x, o.x), y: fp_add(self.y, o.y), z: fp_add(self.z, o.z) }
    }

    pub fn sub(self, o: Vec3) -> (r: Vec3)
        requires
            self.wf(),
            o.wf(),
        ensures
            r@ == sub_s(self@, o@),
            r.wf(),
    {
        Vec3 { x: fp_sub(self.x, o.x), y: fp_sub(self.y, o.y), z: fp_sub(self.z, o.z) }
    }

    pub fn neg(self) -> (r: Vec3)
        requires
            self.wf(),
        ensures
            r@ == neg_s(self@),
            r.wf(),
    {
        Vec3 { x: fp_neg(self.x), y: fp_neg(self.y), z: fp_neg(self.z) }
    }

    pub fn scale(self, s: i64) -> (r: Vec3)
        requires
            self.wf(),
            fits(s as int),
        ensures
            r@ == scale_s(self@, s as int),
            r.wf(),
    {
        Vec3 { x: fp_mul(self.x, s), y: fp_mul(self.y, s), z: fp_mul(self.z, s) }
    }

    pub fn dot(self, o: Vec3) -> (r: i64)
        requires
            self.wf(),
            o.wf(),
        ensures
            r as int == dot_s(self@, o@),
            fits(r as int),
    {
        fp_add(fp_add(fp_mul(self.x, o.x), fp_mul(self.y, o.y)), fp_mul(self.z, o.z))
    }

    pub fn cross(self, o: Vec3) -> (r: Vec3)
        requires
            self.wf(),
            o.wf(),
        ensures
            r@ == cross_s(self@, o@),
            r.wf(),
    {
        Vec3 {
            x: fp_sub(fp_mul(self.y, o.z), fp_mul(self.z, o.y)),
            y: fp_sub(fp_mul(self.z, o.x), fp_mul(self.x, o.z)),
            z: fp_sub(fp_mul(self.x, o.y), fp_mul(self.y, o.x)),
        }
    }

    /// The squared length is never negative.
    pub fn norm_sq(self) -> (r: i64)
        requires
            self.wf(),
        ensures
            r as int == dot_s(self@, self@),
            0 <= r,
            fits(r as int),
    {
        proof {
            lemma_fmul_self_nonneg(self@.x);
            lemma_fmul_self_nonneg(self@.y);
            lemma_fmul_self_nonneg(self@.z);
        }
        self.dot(self)
    }

    pub fn normalize(self) -> (r: Vec3)
        requires
            self.wf(),
        ensures
            r@ == normalize_s(self@),
            r.wf(),
    {
        let n2: i64 = self.norm_sq();
        let len: i64 = fp_sqrt(n2);
        if len == 0 {
            self
        } else {
            Vec3 {
                x: fp_div(self.x, len),
                y: fp_div(self.y, len),
                z: fp_div(self.z, len),
            }
        }
    }
}

} // verus!
