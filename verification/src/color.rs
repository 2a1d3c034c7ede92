//! RGB radiance values over fixed-point scalars.

use vstd::prelude::*;
use crate::fixed::{
    fits, fadd, fmul, SCALE, fp_add, fp_mul, lemma_fmul_nonneg, lemma_fmul_le_left,
};
use vstd::arithmetic::div_mod::lemma_div_is_ordered;
use vstd::arithmetic::div_mod::lemma_div_multiples_vanish;

verus! {

/// Mathematical image of a color: three unbounded channel values.
#[verifier::ext_equal]
pub ghost struct Colori {
    pub r: int,
    pub g: int,
    pub b: int,
}

#[derive(Clone, Copy, Debug, PartialEq, Eq, Structural)]
pub struct Color {
    pub r: i64,
    pub g: i64,
    pub b: i64,
}

impl View for Color {
    type V = Colori;

    open spec fn view(&self) -> Colori {
        Colori { r: self.r as int, g: self.g as int, b: self.b as int }
    }
}

pub open spec fn color_fits(c: Colori) -> bool {
    fits(c.r) && fits(c.g) && fits(c.b)
}

pub open spec fn black_s() -> Colori {
    Colori { r: 0, g: 0, b: 0 }
}

pub open spec fn white_s() -> Colori {
    Colori { r: SCALE as int, g: SCALE as int, b: SCALE as int }
}

pub open spec fn cadd_s(a: Colori, b: Colori) -> Colori {
    Colori { r: fadd(a.r, b.r), g: fadd(a.g, b.g), b: fadd(a.b, b.b) }
}

/// Channel-wise filtering: each channel attenuates the matching channel.
pub open spec fn cmul_s(a: Colori, b: Colori) -> Colori {
    Colori { r: fmul(a.r, b.r), g: fmul(a.g, b.g), b: fmul(a.b, b.b) }
}

pub open spec fn cscale_s(a: Colori, s: int) -> Colori {
    Colori { r: fmul(a.r, s), g: fmul(a.g, s), b: fmul(a.b, s) }
}

/// Every channel lies in `[0, 1]` (one display unit).
pub open spec fn color_in_unit(c: Colori) -> bool {
    0 <= c.r <= SCALE as int && 0 <= c.g <= SCALE as int && 0 <= c.b <= SCALE as int
}

pub open spec fn color_nonneg(c: Colori) -> bool {
    0 <= c.r && 0 <= c.g && 0 <= c.b
}

pub open spec fn clamp_chan(v: int) -> int {
    if v < 0 {
        0
    } else if v > SCALE as int {
        SCALE as int
    } else {
        v
    }
}

pub open spec fn clamp_s(c: Colori) -> Colori {
    Colori { r: clamp_chan(c.r), g: clamp_chan(c.g), b: clamp_chan(c.b) }
}

/// A channel in `[0, 1]` mapped onto the 8-bit display range.
pub open spec fn to_byte_s(v: int) -> int {
    (v * 255) / (SCALE as int)
}

impl Color {
    pub open spec fn wf(self) -> bool {
        color_fits(self@)
    }

    pub fn new(r: i64, g: i64, b: i64) -> (c: Color)
        requires
            fits(r as int),
            fits(g as int),
            fits(b as int),
        ensures
            c@ == (Colori { r: r as int, g: g as int, b: b as int }),
            c.wf(),
    {
        Color { r, g, b }
    }

    pub fn black() -> (c: Color)
        ensures
            c@ == black_s(),
            c.wf(),
    {
        Color { r: 0, g: 0, b: 0 }
    }

    pub fn white() -> (c: Color)
        ensures
            c@ == white_s(),
            c.wf(),
    {
        Color { r: SCALE, g: SCALE, b: SCALE }
    }

    pub fn add(self, o: Color) -> (c: Color)
        requires
            self.wf(),
            o.wf(),
        ensures
            c@ == cadd_s(self@, o@),
            c.wf(),
    {
        Color { r: fp_add(self.r, o.r), g: fp_add(self.g, o.g), b: fp_add(self.b, o.b) }
    }

    pub fn mul(self, o: Color) -> (c: Color)
        requires
            self.wf(),
            o.wf(),
        ensures
            c@ == cmul_s(self@, o@),
            c.wf(),
    {
        Color { r: fp_mul(self.r, o.r), g: fp_mul(self.g, o.g), b: fp_mul(self.b, o.b) }
    }

    pub fn scale(self, s: i64) -> (c: Color)
        requires
            self.wf(),
            fits(s as int),
        ensures
            c@ == cscale_s(self@, s as int),
            c.wf(),
    {
        Color { r: fp_mul(self.r, s), g: fp_mul(self.g, s), b: fp_mul(self.b, s) }
    }

    pub fn clamp(self) -> (c: Color)
        requires
            self.wf(),
        ensures
            c@ == clamp_s(self@),
            color_in_unit(c@),
            c.wf(),
    {
        let r: i64 = if self.r < 0 {
            0
        } else if self.r > SCALE {
            SCALE
        } else {
            self.r
        };
        let g: i64 = if self.g < 0 {
            0
        } else if self.g > SCALE {
            SCALE
        } else {
            self.g
        };
        let b: i64 = if self.b < 0 {
            0
        } else if self.b > SCALE {
            SCALE
        } else {
            self.b
        };
        Color { r, g, b }
    }

    /// Display conversion of a clamped color; alpha is always opaque.
    pub fn to_rgba8(self) -> (bytes: [u8; 4])
        requires
            color_in_unit(self@),
        ensures
            bytes[0] as int == to_byte_s(self@.r),
            bytes[1] as int == to_byte_s(self@.g),
            bytes[2] as int == to_byte_s(self@.b),
            bytes[3] == 255u8,
    {
        let r8: u8 = chan_to_byte(self.r);
        let g8: u8 = chan_to_byte(self.g);
        let b8: u8 = chan_to_byte(self.b);
        [r8, g8, b8, 255u8]
    }
}

/// One clamped channel mapped onto `0..=255`.
pub fn chan_to_byte(v: i64) -> (b: u8)
    requires
        0 <= v <= SCALE,
    ensures
        b as int == to_byte_s(v as int),
{
    let w: u64 = (v as u64) * 255;
    let q: u64 = w / (SCALE as u64);
    proof {
        assert(v as int * 255 <= SCALE as int * 255);
        lemma_div_is_ordered(v as int * 255, SCALE as int * 255, SCALE as int);
        assert(SCALE as int * 255 == (SCALE as int) * 255int);
        lemma_div_multiples_vanish(255int, SCALE as int);
        assert((SCALE as int) * 255int == (SCALE as int) * 255int);
    }
    q as u8
}


pub proof fn lemma_cadd_nonneg(a: Colori, b: Colori)
    requires
        color_nonneg(a),
        color_nonneg(b),
    ensures
        color_nonneg(cadd_s(a, b)),
{
}

pub proof fn lemma_cmul_nonneg(a: Colori, b: Colori)
    requires
        color_nonneg(a),
        color_nonneg(b),
    ensures
        color_nonneg(cmul_s(a, b)),
{
    lemma_fmul_nonneg(a.r, b.r);
    lemma_fmul_nonneg(a.g, b.g);
    lemma_fmul_nonneg(a.b, b.b);
}

pub proof fn lemma_cscale_nonneg(a: Colori, s: int)
    requires
        color_nonneg(a),
        0 <= s,
    ensures
        color_nonneg(cscale_s(a, s)),
{
    lemma_fmul_nonneg(a.r, s);
    lemma_fmul_nonneg(a.g, s);
    lemma_fmul_nonneg(a.b, s);
}

/// An attenuation mask scaled by a factor of at most one whole unit never
/// grows: each channel decays multiplicatively.
pub proof fn lemma_mask_decay(mask: Colori, f: int)
    requires
        color_nonneg(mask),
        0 <= f <= SCALE as int,
    ensures
        color_nonneg(cscale_s(mask, f)),
        cscale_s(mask, f).r <= mask.r,
        cscale_s(mask, f).g <= mask.g,
        cscale_s(mask, f).b <= mask.b,
{
    lemma_fmul_le_left(mask.r, f);
    lemma_fmul_le_left(mask.g, f);
    lemma_fmul_le_left(mask.b, f);
}

/// Filtering a mask through a color whose channels lie within one unit never
/// grows any channel.
pub proof fn lemma_mask_filter_decay(mask: Colori, filter: Colori)
    requires
        color_nonneg(mask),
        color_in_unit(filter),
    ensures
        color_nonneg(cmul_s(mask, filter)),
        cmul_s(mask, filter).r <= mask.r,
        cmul_s(mask, filter).g <= mask.g,
        cmul_s(mask, filter).b <= mask.b,
{
    lemma_fmul_le_left(mask.r, filter.r);
    lemma_fmul_le_left(mask.g, filter.g);
    lemma_fmul_le_left(mask.b, filter.b);
}

} // verus!
