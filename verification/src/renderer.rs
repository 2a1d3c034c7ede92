//! The renderer driver: per-pixel sample averaging and the row-major pixel
//! buffer.

use vstd::prelude::*;
use crate::fixed::{
    fits, SCALE, fp_div, fp_from_int, lemma_fdiv_nonneg,
};
use vstd::arithmetic::div_mod::lemma_div_multiples_vanish;
use crate::color::{
    Color, Colori, black_s, color_nonneg, to_byte_s, clamp_chan, cadd_s, cscale_s,
    lemma_cadd_nonneg, lemma_cscale_nonneg,
};
use crate::fixed::fdiv;
use crate::scene::{Scene, scene_wf, scene_no_emissive};
use crate::integrator::{
    RenderConfig, config_wf, get_color, ROUND_COUNT, draws_valid, sample_radiance_s,
};

verus! {

/// The per-sample normalization factor: one over samples times the round
/// multiplier.
pub open spec fn pixel_factor_s(samples: int) -> int {
    fdiv(SCALE as int, (samples * (ROUND_COUNT as int)) * (SCALE as int))
}

/// A radiance value the integrator can return for this pixel: the bounce
/// loop folded over some sequence of valid scatter draws.
pub open spec fn sample_of_pixel(s: Scene, cfg: RenderConfig, x: int, y: int, c: Colori) -> bool {
    exists|draws: Seq<(int, int)>|
        #[trigger] draws_valid(draws) && c == sample_radiance_s(s, cfg, x, y, draws)
}

/// The scaled running sum of the samples, in accumulation order.
pub open spec fn avg_fold(samples: Seq<Colori>, factor: int) -> Colori
    decreases samples.len(),
{
    if samples.len() == 0 {
        black_s()
    } else {
        cadd_s(avg_fold(samples.drop_last(), factor), cscale_s(samples.last(), factor))
    }
}

/// What a rendered pixel must be: the clamp-and-convert of the scaled sum of
/// one integrator sample per configured round, with an opaque alpha.
pub open spec fn pixel_valid(
    s: Scene, cfg: RenderConfig, x: int, y: int, b0: int, b1: int, b2: int, b3: int,
) -> bool {
    exists|samples: Seq<Colori>|
        {
            let a = avg_fold(samples, pixel_factor_s(cfg.samples as int));
            &&& #[trigger] samples.len() == cfg.samples as int
            &&& (forall|k: int|
                0 <= k < samples.len() ==> sample_of_pixel(s, cfg, x, y, #[trigger] samples[k]))
            &&& b0 == to_byte_s(clamp_chan(a.r))
            &&& b1 == to_byte_s(clamp_chan(a.g))
            &&& b2 == to_byte_s(clamp_chan(a.b))
            &&& b3 == 255
        }
}

/// Average many integrator samples of one pixel into a display pixel.
///
/// Every sample is scaled by the normalization factor and accumulated; the
/// result is clamped channel-wise to the display range and converted to
/// 8-bit RGBA with an opaque alpha. A scene without emissive elements yields
/// exactly black.
pub fn render_pixel(scene: &Scene, cfg: &RenderConfig, x: u32, y: u32) -> (px: [u8; 4])
    requires
        scene_wf(*scene),
        config_wf(*cfg),
        x < scene.width,
        y < scene.height,
    ensures
        px[3] == 255,
        scene_no_emissive(*scene) ==> px[0] == 0 && px[1] == 0 && px[2] == 0,
        pixel_valid(
            *scene,
            *cfg,
            x as int,
            y as int,
            px[0] as int,
            px[1] as int,
            px[2] as int,
            px[3] as int,
        ),
{
    proof {
        assert((cfg.samples as int) * (ROUND_COUNT as int) <= 8388608 && 1 <= (cfg.samples as int)
            * (ROUND_COUNT as int)) by (nonlinear_arith)
            requires
                1 <= (cfg.samples as int) <= 65536,
                ROUND_COUNT as int == 128,
        ;
    }
    let denom: i64 = (cfg.samples as i64) * (ROUND_COUNT as i64);
    let factor: i64 = fp_div(SCALE, fp_from_int(denom));
    proof {
        lemma_fdiv_nonneg(SCALE as int, denom as int * SCALE as int);
    }

    let mut ray_num: u32 = 0;
    let mut color_acc: Color = Color::black();
    let ghost mut samples_g: Seq<Colori> = Seq::empty();
    proof {
        assert(factor as int == pixel_factor_s(cfg.samples as int));
    }
    while ray_num < cfg.samples
        invariant
            scene_wf(*scene),
            config_wf(*cfg),
            x < scene.width,
            y < scene.height,
            0 <= factor,
            fits(factor as int),
            factor as int == pixel_factor_s(cfg.samples as int),
            color_acc.wf(),
            color_nonneg(color_acc@),
            scene_no_emissive(*scene) ==> color_acc@ == black_s(),
            ray_num <= cfg.samples,
            samples_g.len() == ray_num as int,
            forall|k: int|
                0 <= k < samples_g.len() ==> sample_of_pixel(
                    *scene,
                    *cfg,
                    x as int,
                    y as int,
                    #[trigger] samples_g[k],
                ),
            color_acc@ == avg_fold(samples_g, factor as int),
        decreases cfg.samples as int - ray_num as int,
    {
        let sample: Color = get_color(scene, cfg, x, y);
        proof {
            lemma_cscale_nonneg(sample@, factor as int);
            lemma_cadd_nonneg(color_acc@, crate::color::cscale_s(sample@, factor as int));
            if scene_no_emissive(*scene) {
                lemma_div_multiples_vanish(0, SCALE as int);
                assert((SCALE as int) * 0 == 0);
                assert(0 * (factor as int) == 0);
            }
            assert(sample_of_pixel(*scene, *cfg, x as int, y as int, sample@));
            let old_samples = samples_g;
            samples_g = old_samples.push(sample@);
            assert(samples_g.drop_last() =~= old_samples);
            assert(samples_g.last() == sample@);
        }
        color_acc = color_acc.add(sample.scale(factor));
        ray_num += 1;
    }

    let clamped: Color = color_acc.clamp();
    proof {
        if scene_no_emissive(*scene) {
            lemma_div_multiples_vanish(0, SCALE as int);
            assert((SCALE as int) * 0 == 0);
            assert(0 * 255 == 0);
            assert(to_byte_s(0) == 0);
        }
    }
    let px: [u8; 4] = clamped.to_rgba8();
    proof {
        let a = avg_fold(samples_g, pixel_factor_s(cfg.samples as int));
        assert(px[0] as int == to_byte_s(clamp_chan(a.r)) && px[1] as int == to_byte_s(
            clamp_chan(a.g),
        ) && px[2] as int == to_byte_s(clamp_chan(a.b)) && px[3] as int == 255);
        assert(samples_g.len() == cfg.samples as int);
    }
    px
}

/// Render the whole frame sequentially into a row-major RGBA byte buffer.
///
/// The mapping from pixel coordinate to buffer offset is fixed: pixel
/// `(x, y)` occupies the four bytes starting at `4 * (y * width + x)`,
/// regardless of evaluation order. Every alpha byte is opaque, and a scene
/// without emissive elements renders fully black.
pub fn render(scene: &Scene, cfg: &RenderConfig) -> (buf: Vec<u8>)
    requires
        scene_wf(*scene),
        config_wf(*cfg),
    ensures
        buf@.len() == 4 * ((scene.width as int) * (scene.height as int)),
        forall|p: int|
            0 <= p < (scene.width as int) * (scene.height as int) ==> #[trigger] buf@[4 * p + 3] == 255,
        scene_no_emissive(*scene) ==> forall|p: int|
            0 <= p < (scene.width as int) * (scene.height as int) ==> #[trigger] buf@[4 * p] == 0 && buf@[4
                * p + 1] == 0 && buf@[4 * p + 2] == 0,
        forall|a: int, b: int|
            0 <= a < scene.width as int && 0 <= b < scene.height as int ==> pixel_valid(
                *scene,
                *cfg,
                a,
                b,
                #[trigger] buf@[4 * (b * (scene.width as int) + a)] as int,
                buf@[4 * (b * (scene.width as int) + a) + 1] as int,
                buf@[4 * (b * (scene.width as int) + a) + 2] as int,
                buf@[4 * (b * (scene.width as int) + a) + 3] as int,
            ),
{
    let w: u32 = scene.width;
    let h: u32 = scene.height;
    let mut buf: Vec<u8> = Vec::new();
    let mut y: u32 = 0;
    while y < h
        invariant
            scene_wf(*scene),
            config_wf(*cfg),
            w == scene.width,
            h == scene.height,
            y <= h,
            buf@.len() == 4 * ((w as int) * (y as int)),
            forall|p: int| 0 <= p < (w as int) * (y as int) ==> #[trigger] buf@[4 * p + 3] == 255,
            scene_no_emissive(*scene) ==> forall|p: int|
                0 <= p < (w as int) * (y as int) ==> #[trigger] buf@[4 * p] == 0 && buf@[4 * p + 1] == 0
                    && buf@[4 * p + 2] == 0,
            forall|a: int, b: int|
                0 <= a < w as int && 0 <= b < y as int ==> pixel_valid(
                    *scene,
                    *cfg,
                    a,
                    b,
                    #[trigger] buf@[4 * (b * (w as int) + a)] as int,
                    buf@[4 * (b * (w as int) + a) + 1] as int,
                    buf@[4 * (b * (w as int) + a) + 2] as int,
                    buf@[4 * (b * (w as int) + a) + 3] as int,
                ),
        decreases h as int - y as int,
    {
        let mut x: u32 = 0;
        while x < w
            invariant
                scene_wf(*scene),
                config_wf(*cfg),
                w == scene.width,
                h == scene.height,
                y < h,
                x <= w,
                buf@.len() == 4 * ((w as int) * (y as int) + (x as int)),
                forall|p: int|
                    0 <= p < (w as int) * (y as int) + (x as int) ==> #[trigger] buf@[4 * p + 3] == 255,
                scene_no_emissive(*scene) ==> forall|p: int|
                    0 <= p < (w as int) * (y as int) + (x as int) ==> #[trigger] buf@[4 * p] == 0 && buf@[4
                        * p + 1] == 0 && buf@[4 * p + 2] == 0,
                forall|a: int, b: int|
                    ((0 <= b < y as int && 0 <= a < w as int) || (b == y as int && 0 <= a
                        < x as int)) ==> pixel_valid(
                        *scene,
                        *cfg,
                        a,
                        b,
                        #[trigger] buf@[4 * (b * (w as int) + a)] as int,
                        buf@[4 * (b * (w as int) + a) + 1] as int,
                        buf@[4 * (b * (w as int) + a) + 2] as int,
                        buf@[4 * (b * (w as int) + a) + 3] as int,
                    ),
            decreases w as int - x as int,
        {
            let px: [u8; 4] = render_pixel(scene, cfg, x, y);
            let ghost pre = buf@;
            buf.push(px[0]);
            buf.push(px[1]);
            buf.push(px[2]);
            buf.push(px[3]);
            proof {
                assert(buf@.len() == pre.len() + 4);
                assert(forall|i: int| 0 <= i < pre.len() ==> buf@[i] == pre[i]);
                assert(buf@[pre.len() as int] == px[0]);
                assert(buf@[pre.len() as int + 1] == px[1]);
                assert(buf@[pre.len() as int + 2] == px[2]);
                assert(buf@[pre.len() as int + 3] == px[3]);
                assert forall|a: int, b: int|
                    ((0 <= b < y as int && 0 <= a < w as int) || (b == y as int && 0 <= a
                        < x as int + 1)) implies pixel_valid(
                    *scene,
                    *cfg,
                    a,
                    b,
                    #[trigger] buf@[4 * (b * (w as int) + a)] as int,
                    buf@[4 * (b * (w as int) + a) + 1] as int,
                    buf@[4 * (b * (w as int) + a) + 2] as int,
                    buf@[4 * (b * (w as int) + a) + 3] as int,
                ) by {
                    if b == y as int && a == x as int {
                        assert((y as int) * (w as int) == (w as int) * (y as int))
                            by (nonlinear_arith);
                        assert(4 * (b * (w as int) + a) == pre.len());
                    } else {
                        if b < y as int {
                            assert(b * (w as int) + a < (y as int) * (w as int))
                                by (nonlinear_arith)
                                requires
                                    0 <= b,
                                    b < y as int,
                                    0 <= a,
                                    a < w as int,
                            ;
                        }
                        assert((y as int) * (w as int) == (w as int) * (y as int))
                            by (nonlinear_arith);
                        assert(4 * (b * (w as int) + a) + 3 < pre.len());
                        assert(buf@[4 * (b * (w as int) + a)] == pre[4 * (b * (w as int) + a)]);
                        assert(buf@[4 * (b * (w as int) + a) + 1] == pre[4 * (b * (w as int) + a)
                            + 1]);
                        assert(buf@[4 * (b * (w as int) + a) + 2] == pre[4 * (b * (w as int) + a)
                            + 2]);
                        assert(buf@[4 * (b * (w as int) + a) + 3] == pre[4 * (b * (w as int) + a)
                            + 3]);
                    }
                }
                if scene_no_emissive(*scene) {
                    let l = (w as int) * (y as int) + (x as int);
                    assert forall|p: int| 0 <= p < l + 1 implies #[trigger] buf@[4 * p] == 0
                        && buf@[4 * p + 1] == 0 && buf@[4 * p + 2] == 0 by {
                        if p < l {
                            assert(pre.len() == 4 * l);
                            assert(0 <= 4 * p && 4 * p + 3 < pre.len());
                            assert(pre[4 * p] == 0);
                            assert(pre[4 * p + 1] == 0);
                            assert(pre[4 * p + 2] == 0);
                            assert(buf@[4 * p] == pre[4 * p]);
                            assert(buf@[4 * p + 1] == pre[4 * p + 1]);
                            assert(buf@[4 * p + 2] == pre[4 * p + 2]);
                        } else {
                            assert(4 * p == pre.len());
                        }
                    }
                }
            }
            x += 1;
        }
        proof {
            assert((w as int) * (y as int) + (w as int) == (w as int) * (y as int + 1))
                by (nonlinear_arith);
        }
        y += 1;
    }
    buf
}

} // verus!
