//! The path integrator: the per-pixel-sample bounce loop over a bounded set
//! of active sub-paths.

use vstd::prelude::*;
use crate::fixed::{
    fits, fsub, fmul, SCALE, PI_FP, fp_mul, fp_sub,
    lemma_fmul_nonneg, lemma_fdiv_nonneg, lemma_fmul_comm, lemma_fmul_le_left,
    lemma_fmul_unit_bound,
};
use crate::vec3::{Vec3, Vec3i, dot_s, add_s, scale_s};
use crate::color::{
    Color, Colori, black_s, white_s, color_nonneg, color_in_unit, cadd_s, cmul_s, cscale_s,
    lemma_cadd_nonneg, lemma_cmul_nonneg, lemma_cscale_nonneg, lemma_mask_decay,
    lemma_mask_filter_decay,
};
use crate::ray::{Ray, Rayi, create_prime, prime_direction_s};
use crate::scene::{
    Scene, Element, Material, scene_wf, scene_no_emissive, scene_diffuse_bounded,
    max_intensity, elem_wf, elem_material, lemma_max_intensity_nonneg,
    lemma_max_intensity_covers, trace_s, surface_normal_s, texture_coords_s,
    coloration_color_s,
};
use crate::sampling::{create_scatter_direction, scatter_dir_s, scatter_weight_s};
use crate::optics::{
    make_reflection, fresnel, create_transmission, lemma_diffuse_energy_decay, reflect_s,
    fresnel_s, transmission_k, transmission_origin_s, transmission_dir_s,
};

verus! {

/// Offset along the surface normal that keeps a bounced ray from
/// re-intersecting the surface it just left.
pub const FLOATING_POINT_BACKOFF: i64 = 655;

/// Samples traced per pixel.
pub const RAY_COUNT: u32 = 128;

/// Bounce rounds per sample.
pub const BOUNCE_CAP: u32 = 8;

/// Secondary accumulation-pass multiplier folded into the per-sample average.
pub const ROUND_COUNT: u32 = 128;

/// Cap on concurrently active sub-paths within one pixel sample.
pub const NUM_RAYS: usize = 16;

/// The integrator's tunable bounds.
pub struct RenderConfig {
    pub samples: u32,
    pub bounce_cap: u32,
    pub max_subpaths: usize,
    pub bias: i64,
}

pub open spec fn config_wf(c: RenderConfig) -> bool {
    &&& 1 <= c.samples <= 65536
    &&& 1 <= c.max_subpaths
    &&& 0 <= c.bias
    &&& fits(c.bias as int)
}

impl RenderConfig {
    /// The stock configuration used by the renderer driver.
    pub fn stock() -> (c: RenderConfig)
        ensures
            config_wf(c),
            c.samples == RAY_COUNT,
            c.bounce_cap == BOUNCE_CAP,
            c.max_subpaths == NUM_RAYS,
            c.bias == FLOATING_POINT_BACKOFF,
    {
        RenderConfig {
            samples: RAY_COUNT,
            bounce_cap: BOUNCE_CAP,
            max_subpaths: NUM_RAYS,
            bias: FLOATING_POINT_BACKOFF,
        }
    }
}

/// The per-sample radiance ceiling: every bounce round can contribute at
/// most one maximal emissive hit per active sub-path.
pub open spec fn radiance_bound(cfg: RenderConfig, s: Scene) -> int {
    ((cfg.bounce_cap as int) * (cfg.max_subpaths as int)) * max_intensity(s.entities@)
}


/// Mathematical image of the integrator's full state: accumulated radiance
/// and the active sub-path set.
#[verifier::ext_equal]
pub ghost struct PathState {
    pub acc: Colori,
    pub rays: Seq<Rayi>,
    pub masks: Seq<Colori>,
}

pub open spec fn rays_view(s: Seq<Ray>) -> Seq<Rayi> {
    s.map_values(|r: Ray| r@)
}

pub open spec fn masks_view(s: Seq<Color>) -> Seq<Colori> {
    s.map_values(|c: Color| c@)
}

/// Every entry is a pair of uniform fixed-point samples in `[0, 1)`.
pub open spec fn draws_valid(d: Seq<(int, int)>) -> bool {
    forall|k: int|
        0 <= k < d.len() ==> 0 <= (#[trigger] d[k]).0 < SCALE as int && 0 <= d[k].1
            < SCALE as int
}

/// One bounce of the sub-path at index `i`: trace it, dispatch on the hit
/// material, consume one scatter draw from the front of `draws` at diffuse
/// and emissive hits, and return the new state with the remaining draws.
/// A miss zeroes the mask; a dielectric hit splits while the set is under
/// `cap` and refracted geometry exists, and continues mirror-reflected with
/// its mask scaled by the Fresnel reflectance.
#[verifier::opaque]
pub open spec fn step_path(
    ents: Seq<Element>, bias: int, cap: int, st: PathState, i: int, draws: Seq<(int, int)>,
) -> (PathState, Seq<(int, int)>)
    recommends
        0 <= i < st.rays.len(),
        st.rays.len() == st.masks.len(),
{
    let ray = st.rays[i];
    let mask = st.masks[i];
    match trace_s(ents, ray) {
        Option::None => (
            PathState {
                acc: st.acc,
                rays: st.rays.update(i, ray),
                masks: st.masks.update(i, black_s()),
            },
            draws,
        ),
        Option::Some(hit) => {
            let e = ents[hit.1];
            let hp = add_s(ray.origin, scale_s(ray.direction, hit.0));
            let n = surface_normal_s(e, hp);
            let new_origin = add_s(hp, scale_s(n, bias));
            match elem_material(e) {
                Material::Diffuse { albedo, color } => {
                    let dir = scatter_dir_s(n, draws[0].0, draws[0].1);
                    let w = scatter_weight_s(n, draws[0].0, draws[0].1);
                    let cos = dot_s(dir, n);
                    let pow = fmul(albedo as int, PI_FP as int);
                    let uv = texture_coords_s(e, hp);
                    let sc = coloration_color_s(color, uv.0, uv.1);
                    let reflected = cscale_s(cscale_s(cscale_s(sc, cos), pow), w);
                    (
                        PathState {
                            acc: st.acc,
                            rays: st.rays.update(i, Rayi { origin: new_origin, direction: dir }),
                            masks: st.masks.update(i, cmul_s(mask, reflected)),
                        },
                        draws.drop_first(),
                    )
                },
                Material::Emissive { intensity, emission } => {
                    let dir = scatter_dir_s(n, draws[0].0, draws[0].1);
                    (
                        PathState {
                            acc: cadd_s(st.acc, cscale_s(cmul_s(emission@, mask), intensity as int)),
                            rays: st.rays.update(i, Rayi { origin: new_origin, direction: dir }),
                            masks: st.masks.update(i, mask),
                        },
                        draws.drop_first(),
                    )
                },
                Material::Reflective => (
                    PathState {
                        acc: st.acc,
                        rays: st.rays.update(
                            i,
                            Rayi { origin: new_origin, direction: reflect_s(ray.direction, n) },
                        ),
                        masks: st.masks.update(i, mask),
                    },
                    draws,
                ),
                Material::Refractive { index } => {
                    let kr = fresnel_s(ray.direction, n, index as int);
                    let spawning = kr < SCALE as int && st.rays.len() < cap && transmission_k(
                        ray.direction,
                        n,
                        index as int,
                    ) >= 0;
                    let rays1 = if spawning {
                        st.rays.push(
                            Rayi {
                                origin: transmission_origin_s(hp, ray.direction, n, bias),
                                direction: transmission_dir_s(ray.direction, n, index as int),
                            },
                        )
                    } else {
                        st.rays
                    };
                    let masks1 = if spawning {
                        st.masks.push(cscale_s(mask, fsub(SCALE as int, kr)))
                    } else {
                        st.masks
                    };
                    (
                        PathState {
                            acc: st.acc,
                            rays: rays1.update(
                                i,
                                Rayi { origin: new_origin, direction: reflect_s(ray.direction, n) },
                            ),
                            masks: masks1.update(i, cscale_s(mask, kr)),
                        },
                        draws,
                    )
                },
            }
        },
    }
}

/// Process sub-path indices `hi-1` down to `lo`: one bounce round walks the
/// active set in reverse index order.
pub open spec fn run_span(
    ents: Seq<Element>, bias: int, cap: int, st: PathState, hi: int, lo: int,
    draws: Seq<(int, int)>,
) -> (PathState, Seq<(int, int)>)
    decreases hi - lo,
{
    if hi <= lo {
        (st, draws)
    } else {
        let sd = step_path(ents, bias, cap, st, hi - 1, draws);
        run_span(ents, bias, cap, sd.0, hi - 1, lo, sd.1)
    }
}

/// Run `b` bounce rounds; each round walks the sub-paths that were active
/// when it began (later appends wait for the next round).
pub open spec fn run_rounds(
    ents: Seq<Element>, bias: int, cap: int, st: PathState, b: int, draws: Seq<(int, int)>,
) -> (PathState, Seq<(int, int)>)
    decreases b,
{
    if b <= 0 {
        (st, draws)
    } else {
        let sd = run_span(ents, bias, cap, st, st.rays.len() as int, 0, draws);
        run_rounds(ents, bias, cap, sd.0, b - 1, sd.1)
    }
}

/// The radiance of one pixel sample as a function of the scatter draws: the
/// bounce loop folded over the scene from the primary ray under a white mask.
pub open spec fn sample_radiance_s(
    s: Scene, cfg: RenderConfig, x: int, y: int, draws: Seq<(int, int)>,
) -> Colori {
    let st0 = PathState {
        acc: black_s(),
        rays: seq![
            Rayi {
                origin: Vec3i { x: 0, y: 0, z: 0 },
                direction: prime_direction_s(x, y, s.width as int, s.height as int, s.fov as int),
            },
        ],
        masks: seq![white_s()],
    };
    run_rounds(s.entities@, cfg.bias as int, cfg.max_subpaths as int, st0, cfg.bounce_cap as int, draws).0.acc
}

/// Peeling a round's walk from the bottom: the span down to `lo` is the span
/// down to `lo + 1` followed by the step at `lo`.
proof fn lemma_span_snoc(
    ents: Seq<Element>, bias: int, cap: int, st: PathState, hi: int, lo: int,
    draws: Seq<(int, int)>,
)
    requires
        lo < hi,
    ensures
        run_span(ents, bias, cap, st, hi, lo, draws) == ({
            let sd = run_span(ents, bias, cap, st, hi, lo + 1, draws);
            step_path(ents, bias, cap, sd.0, lo, sd.1)
        }),
    decreases hi - lo,
{
    if hi - 1 == lo {
        let sd = step_path(ents, bias, cap, st, lo, draws);
        assert(run_span(ents, bias, cap, st, hi, lo + 1, draws) == (st, draws));
        assert(run_span(ents, bias, cap, sd.0, lo, lo, sd.1) == (sd.0, sd.1));
    } else {
        let sd = step_path(ents, bias, cap, st, hi - 1, draws);
        lemma_span_snoc(ents, bias, cap, sd.0, hi - 1, lo, sd.1);
        assert(run_span(ents, bias, cap, st, hi, lo, draws) == run_span(
            ents,
            bias,
            cap,
            sd.0,
            hi - 1,
            lo,
            sd.1,
        ));
        assert(run_span(ents, bias, cap, st, hi, lo + 1, draws) == run_span(
            ents,
            bias,
            cap,
            sd.0,
            hi - 1,
            lo + 1,
            sd.1,
        ));
    }
}

/// Peeling the last round: `b + 1` rounds are `b` rounds followed by one
/// full span over the then-active set.
proof fn lemma_rounds_snoc(
    ents: Seq<Element>, bias: int, cap: int, st: PathState, b: int, draws: Seq<(int, int)>,
)
    requires
        0 <= b,
    ensures
        run_rounds(ents, bias, cap, st, b + 1, draws) == ({
            let sd = run_rounds(ents, bias, cap, st, b, draws);
            run_span(ents, bias, cap, sd.0, sd.0.rays.len() as int, 0, sd.1)
        }),
    decreases b,
{
    let sd0 = run_span(ents, bias, cap, st, st.rays.len() as int, 0, draws);
    if b == 0 {
        assert(run_rounds(ents, bias, cap, st, 1, draws) == run_rounds(
            ents,
            bias,
            cap,
            sd0.0,
            0,
            sd0.1,
        ));
        assert(run_rounds(ents, bias, cap, st, 0, draws) == (st, draws));
    } else {
        lemma_rounds_snoc(ents, bias, cap, sd0.0, b - 1, sd0.1);
        assert(run_rounds(ents, bias, cap, st, b + 1, draws) == run_rounds(
            ents,
            bias,
            cap,
            sd0.0,
            b,
            sd0.1,
        ));
        assert(run_rounds(ents, bias, cap, st, b, draws) == run_rounds(
            ents,
            bias,
            cap,
            sd0.0,
            b - 1,
            sd0.1,
        ));
    }
}

proof fn lemma_rays_view_update(s: Seq<Ray>, i: int, v: Ray)
    requires
        0 <= i < s.len(),
    ensures
        rays_view(s.update(i, v)) == rays_view(s).update(i, v@),
{
    assert(rays_view(s.update(i, v)) =~= rays_view(s).update(i, v@));
}

proof fn lemma_rays_view_push(s: Seq<Ray>, v: Ray)
    ensures
        rays_view(s.push(v)) == rays_view(s).push(v@),
{
    assert(rays_view(s.push(v)) =~= rays_view(s).push(v@));
}

proof fn lemma_masks_view_update(s: Seq<Color>, i: int, v: Color)
    requires
        0 <= i < s.len(),
    ensures
        masks_view(s.update(i, v)) == masks_view(s).update(i, v@),
{
    assert(masks_view(s.update(i, v)) =~= masks_view(s).update(i, v@));
}

proof fn lemma_masks_view_push(s: Seq<Color>, v: Color)
    ensures
        masks_view(s.push(v)) == masks_view(s).push(v@),
{
    assert(masks_view(s.push(v)) =~= masks_view(s).push(v@));
}

proof fn lemma_bound_grow(acc: int, add: int, x: int, imax: int)
    by (nonlinear_arith)
    requires
        acc <= x * imax,
        0 <= add <= imax,
        0 <= imax,
    ensures
        acc + add <= (x + 1) * imax,
{
}

proof fn lemma_bound_mono(x: int, y: int, imax: int)
    by (nonlinear_arith)
    requires
        x <= y,
        0 <= imax,
    ensures
        x * imax <= y * imax,
{
}

/// One Monte Carlo sample of the radiance reaching the camera through pixel
/// `(x, y)`.
///
/// The active sub-path set starts with the primary ray under a full-white
/// mask; each bounce round walks the set in reverse index order (so sub-paths
/// spawned this round are not revisited), traces each ray, and dispatches on
/// the hit material. Dielectric splitting appends a transmitted sub-path only
/// while the set is below the configured cap. A sub-path that escapes the
/// scene has its mask zeroed.
///
/// The returned radiance is exactly the bounce-loop fold `sample_radiance_s`
/// applied to the sequence of uniform draws the sampler consumed, so every
/// deterministic consequence of the dispatch (the escape-to-black rule, the
/// mirror and dielectric updates, the capped split, the emissive
/// accumulation) is pinned by the contract. It is also non-negative and
/// bounded in every channel, exactly black whenever the scene holds no
/// emissive element, and in the energy-conserving regime (every diffuse
/// reflected power within one unit) it never exceeds the per-sample radiance
/// ceiling: attenuation masks can only decay, so each sub-path bounce
/// contributes at most the strongest emitter once.
#[verifier::rlimit(100)]
pub fn get_color(scene: &Scene, cfg: &RenderConfig, x: u32, y: u32) -> (acc: Color)
    requires
        scene_wf(*scene),
        config_wf(*cfg),
        x < scene.width,
        y < scene.height,
    ensures
        acc.wf(),
        color_nonneg(acc@),
        scene_no_emissive(*scene) ==> acc@ == black_s(),
        scene_diffuse_bounded(*scene) ==> acc@.r <= radiance_bound(*cfg, *scene) && acc@.g
            <= radiance_bound(*cfg, *scene) && acc@.b <= radiance_bound(*cfg, *scene),
        exists|draws: Seq<(int, int)>|
            #[trigger] draws_valid(draws) && acc@ == sample_radiance_s(
                *scene,
                *cfg,
                x as int,
                y as int,
                draws,
            ),
{
    let ghost ents = scene.entities@;
    let ghost bias_g = cfg.bias as int;
    let ghost cap_g = cfg.max_subpaths as int;
    let ghost imax = max_intensity(scene.entities@);
    proof {
        lemma_max_intensity_nonneg(scene.entities@);
    }
    let mut color_acc: Color = Color::black();
    let mut rays: Vec<Ray> = Vec::new();
    let mut masks: Vec<Color> = Vec::new();
    rays.push(create_prime(x, y, scene.width, scene.height, scene.fov));
    masks.push(Color::white());

    let ghost st0 = PathState {
        acc: black_s(),
        rays: seq![
            Rayi {
                origin: Vec3i { x: 0, y: 0, z: 0 },
                direction: prime_direction_s(
                    x as int,
                    y as int,
                    scene.width as int,
                    scene.height as int,
                    scene.fov as int,
                ),
            },
        ],
        masks: seq![white_s()],
    };
    let ghost mut used: Seq<(int, int)> = Seq::empty();
    proof {
        assert(rays_view(rays@) =~= st0.rays);
        assert(masks_view(masks@) =~= st0.masks);
        assert forall|rest: Seq<(int, int)>|
            #[trigger] run_rounds(ents, bias_g, cap_g, st0, 0, used + rest) == (
            PathState { acc: color_acc@, rays: rays_view(rays@), masks: masks_view(masks@) },
            rest,
        ) by {
            assert(used + rest =~= rest);
        }
    }

    let mut bounce_i: u32 = 0;
    while bounce_i < cfg.bounce_cap
        invariant
            scene_wf(*scene),
            config_wf(*cfg),
            ents == scene.entities@,
            bias_g == cfg.bias as int,
            cap_g == cfg.max_subpaths as int,
            imax == max_intensity(scene.entities@),
            0 <= imax,
            bounce_i <= cfg.bounce_cap,
            rays@.len() == masks@.len(),
            1 <= rays@.len() <= cfg.max_subpaths,
            forall|k: int| 0 <= k < rays@.len() ==> (#[trigger] rays@[k]).wf(),
            forall|k: int|
                0 <= k < masks@.len() ==> (#[trigger] masks@[k]).wf() && color_nonneg(
                    masks@[k]@,
                ),
            scene_diffuse_bounded(*scene) ==> forall|k: int|
                0 <= k < masks@.len() ==> color_in_unit((#[trigger] masks@[k])@),
            color_acc.wf(),
            color_nonneg(color_acc@),
            scene_no_emissive(*scene) ==> color_acc@ == black_s(),
            scene_diffuse_bounded(*scene) ==> color_acc@.r <= ((bounce_i as int)
                * (cfg.max_subpaths as int)) * imax && color_acc@.g <= ((bounce_i as int)
                * (cfg.max_subpaths as int)) * imax && color_acc@.b <= ((bounce_i as int)
                * (cfg.max_subpaths as int)) * imax,
            draws_valid(used),
            forall|rest: Seq<(int, int)>|
                #[trigger] run_rounds(ents, bias_g, cap_g, st0, bounce_i as int, used + rest)
                    == (
                PathState {
                    acc: color_acc@,
                    rays: rays_view(rays@),
                    masks: masks_view(masks@),
                },
                rest,
            ),
        decreases cfg.bounce_cap as int - bounce_i as int,
    {
        let mut ray_i: usize = rays.len();
        let ghost start_len = rays@.len();
        let ghost used_entry = used;
        let ghost entry_state = PathState {
            acc: color_acc@,
            rays: rays_view(rays@),
            masks: masks_view(masks@),
        };
        let ghost mut delta: Seq<(int, int)> = Seq::empty();
        proof {
            assert(entry_state.rays.len() == start_len as int);
            assert forall|rest: Seq<(int, int)>|
                #[trigger] run_span(
                    ents,
                    bias_g,
                    cap_g,
                    entry_state,
                    start_len as int,
                    ray_i as int,
                    delta + rest,
                ) == (
                PathState {
                    acc: color_acc@,
                    rays: rays_view(rays@),
                    masks: masks_view(masks@),
                },
                rest,
            ) by {
                assert(delta + rest =~= rest);
            }
        }
        while ray_i > 0
            invariant
                scene_wf(*scene),
                config_wf(*cfg),
                ents == scene.entities@,
                bias_g == cfg.bias as int,
                cap_g == cfg.max_subpaths as int,
                imax == max_intensity(scene.entities@),
                0 <= imax,
                bounce_i < cfg.bounce_cap,
                rays@.len() == masks@.len(),
                ray_i <= start_len,
                start_len <= rays@.len(),
                1 <= rays@.len() <= cfg.max_subpaths,
                forall|k: int| 0 <= k < rays@.len() ==> (#[trigger] rays@[k]).wf(),
                forall|k: int|
                    0 <= k < masks@.len() ==> (#[trigger] masks@[k]).wf() && color_nonneg(
                        masks@[k]@,
                    ),
                scene_diffuse_bounded(*scene) ==> forall|k: int|
                    0 <= k < masks@.len() ==> color_in_unit((#[trigger] masks@[k])@),
                color_acc.wf(),
                color_nonneg(color_acc@),
                scene_no_emissive(*scene) ==> color_acc@ == black_s(),
                scene_diffuse_bounded(*scene) ==> color_acc@.r <= (((bounce_i as int)
                    * (cfg.max_subpaths as int)) + (start_len - ray_i)) * imax && color_acc@.g
                    <= (((bounce_i as int) * (cfg.max_subpaths as int)) + (start_len - ray_i))
                    * imax && color_acc@.b <= (((bounce_i as int) * (cfg.max_subpaths as int))
                    + (start_len - ray_i)) * imax,
                draws_valid(used),
                draws_valid(delta),
                used == used_entry + delta,
                entry_state.rays.len() == start_len as int,
                forall|rest: Seq<(int, int)>|
                    #[trigger] run_rounds(
                        ents,
                        bias_g,
                        cap_g,
                        st0,
                        bounce_i as int,
                        used_entry + rest,
                    ) == (entry_state, rest),
                forall|rest: Seq<(int, int)>|
                    #[trigger] run_span(
                        ents,
                        bias_g,
                        cap_g,
                        entry_state,
                        start_len as int,
                        ray_i as int,
                        delta + rest,
                    ) == (
                    PathState {
                        acc: color_acc@,
                        rays: rays_view(rays@),
                        masks: masks_view(masks@),
                    },
                    rest,
                ),
            decreases ray_i,
        {
            ray_i -= 1;
            let ghost gi = ray_i as int;
            let ghost delta_old = delta;
            let ghost cur0 = PathState {
                acc: color_acc@,
                rays: rays_view(rays@),
                masks: masks_view(masks@),
            };
            let ghost mut consumed: Seq<(int, int)> = Seq::empty();
            let ghost mut step_state = cur0;
            let ghost x_head = ((bounce_i as int) * (cfg.max_subpaths as int)) + (start_len
                - ray_i - 1);
            proof {
                assert(0 <= (bounce_i as int) * (cfg.max_subpaths as int)) by (nonlinear_arith)
                    requires
                        0 <= bounce_i as int,
                        0 <= cfg.max_subpaths as int,
                ;
                lemma_bound_mono(x_head, x_head + 1, imax);
            }
            let mut ray: Ray = rays[ray_i];
            let mut color_mask: Color = masks[ray_i];
            let ghost ray0 = ray@;
            let ghost mask0 = color_mask@;
            proof {
                assert(cur0.rays[gi] == ray0);
                assert(cur0.masks[gi] == mask0);
            }

            match scene.trace(&ray) {
                Some(intersection) => {
                    let ghost dist = intersection.distance as int;
                    let ghost idx = intersection.index as int;
                    let hit_point: Vec3 = ray.origin.add(
                        ray.direction.scale(intersection.distance),
                    );
                    let elem: &Element = &scene.entities[intersection.index];
                    proof {
                        assert(elem_wf(scene.entities@[intersection.index as int]));
                    }
                    let surface_normal: Vec3 = elem.surface_normal(&hit_point);
                    let ghost hp = hit_point@;
                    let ghost sn = surface_normal@;
                    ray.origin = hit_point.add(surface_normal.scale(cfg.bias));
                    let ghost new_origin = ray@.origin;

                    match elem.material() {
                        Material::Diffuse { albedo, color } => {
                            let uv: (i64, i64) = elem.texture_coords(&hit_point);
                            let sc: (Vec3, i64) = create_scatter_direction(&surface_normal);
                            let ghost pair = choose|a: int, b: int|
                                0 <= a < SCALE as int && 0 <= b < SCALE as int && sc.0@
                                    == scatter_dir_s(sn, a, b) && sc.1 as int
                                    == scatter_weight_s(sn, a, b);
                            let direction: Vec3 = sc.0;
                            let weight: i64 = sc.1;
                            ray.direction = direction;

                            let cosine_angle: i64 = direction.dot(surface_normal);
                            let reflected_power: i64 = fp_mul(*albedo, PI_FP);
                            let surface_color: Color = color.color(uv.0, uv.1);
                            proof {
                                lemma_fmul_nonneg(*albedo as int, PI_FP as int);
                                lemma_fdiv_nonneg(
                                    SCALE as int,
                                    dot_s(direction@, surface_normal@),
                                );
                                lemma_cscale_nonneg(surface_color@, cosine_angle as int);
                                lemma_cscale_nonneg(
                                    cscale_s(surface_color@, cosine_angle as int),
                                    reflected_power as int,
                                );
                                lemma_cscale_nonneg(
                                    cscale_s(
                                        cscale_s(surface_color@, cosine_angle as int),
                                        reflected_power as int,
                                    ),
                                    weight as int,
                                );
                            }
                            let reflected_color: Color = surface_color.scale(cosine_angle).scale(
                                reflected_power,
                            ).scale(weight);
                            proof {
                                lemma_cmul_nonneg(color_mask@, reflected_color@);
                                if scene_diffuse_bounded(*scene) {
                                    assert(match elem_material(
                                        scene.entities@[intersection.index as int],
                                    ) {
                                        Material::Diffuse { albedo, .. } => fmul(
                                            albedo as int,
                                            PI_FP as int,
                                        ) <= SCALE as int,
                                        _ => true,
                                    });
                                    lemma_diffuse_energy_decay(
                                        surface_color@.r,
                                        cosine_angle as int,
                                        reflected_power as int,
                                    );
                                    lemma_diffuse_energy_decay(
                                        surface_color@.g,
                                        cosine_angle as int,
                                        reflected_power as int,
                                    );
                                    lemma_diffuse_energy_decay(
                                        surface_color@.b,
                                        cosine_angle as int,
                                        reflected_power as int,
                                    );
                                    assert(color_in_unit(reflected_color@));
                                    lemma_mask_filter_decay(color_mask@, reflected_color@);
                                }
                            }
                            color_mask = color_mask.mul(reflected_color);
                            proof {
                                consumed = seq![pair];
                                step_state = PathState {
                                    acc: color_acc@,
                                    rays: cur0.rays.update(gi, ray@),
                                    masks: cur0.masks.update(gi, color_mask@),
                                };
                                assert forall|rest: Seq<(int, int)>|
                                    #[trigger] step_path(
                                        ents,
                                        bias_g,
                                        cap_g,
                                        cur0,
                                        gi,
                                        consumed + rest,
                                    ) == (step_state, rest) by {
                                    reveal(crate::integrator::step_path);
                                    assert((consumed + rest)[0] == pair);
                                    assert((consumed + rest).drop_first() =~= rest);
                                    assert(trace_s(ents, ray0) == Some((dist, idx)));
                                    assert(ray@ =~= Rayi {
                                        origin: new_origin,
                                        direction: scatter_dir_s(sn, pair.0, pair.1),
                                    });
                                }
                            }
                        },
                        Material::Emissive { intensity, emission } => {
                            let sc: (Vec3, i64) = create_scatter_direction(&surface_normal);
                            let ghost pair = choose|a: int, b: int|
                                0 <= a < SCALE as int && 0 <= b < SCALE as int && sc.0@
                                    == scatter_dir_s(sn, a, b) && sc.1 as int
                                    == scatter_weight_s(sn, a, b);
                            ray.direction = sc.0;
                            proof {
                                lemma_cmul_nonneg(emission@, color_mask@);
                                lemma_cscale_nonneg(
                                    cmul_s(emission@, color_mask@),
                                    *intensity as int,
                                );
                                lemma_cadd_nonneg(
                                    color_acc@,
                                    cscale_s(cmul_s(emission@, color_mask@), *intensity as int),
                                );
                                if scene_no_emissive(*scene) {
                                    assert(!(elem_material(
                                        scene.entities@[intersection.index as int],
                                    ) is Emissive));
                                }
                                if scene_diffuse_bounded(*scene) {
                                    lemma_max_intensity_covers(
                                        scene.entities@,
                                        intersection.index as int,
                                    );
                                    let e = emission@;
                                    let m = color_mask@;
                                    lemma_fmul_unit_bound(e.r, m.r);
                                    lemma_fmul_unit_bound(e.g, m.g);
                                    lemma_fmul_unit_bound(e.b, m.b);
                                    let f = cmul_s(e, m);
                                    lemma_fmul_comm(f.r, *intensity as int);
                                    lemma_fmul_comm(f.g, *intensity as int);
                                    lemma_fmul_comm(f.b, *intensity as int);
                                    lemma_fmul_le_left(*intensity as int, f.r);
                                    lemma_fmul_le_left(*intensity as int, f.g);
                                    lemma_fmul_le_left(*intensity as int, f.b);
                                    let emitted = cscale_s(f, *intensity as int);
                                    lemma_bound_grow(color_acc@.r, emitted.r, x_head, imax);
                                    lemma_bound_grow(color_acc@.g, emitted.g, x_head, imax);
                                    lemma_bound_grow(color_acc@.b, emitted.b, x_head, imax);
                                }
                            }
                            color_acc = color_acc.add(emission.mul(color_mask).scale(*intensity));
                            proof {
                                consumed = seq![pair];
                                step_state = PathState {
                                    acc: color_acc@,
                                    rays: cur0.rays.update(gi, ray@),
                                    masks: cur0.masks.update(gi, color_mask@),
                                };
                                assert forall|rest: Seq<(int, int)>|
                                    #[trigger] step_path(
                                        ents,
                                        bias_g,
                                        cap_g,
                                        cur0,
                                        gi,
                                        consumed + rest,
                                    ) == (step_state, rest) by {
                                    reveal(crate::integrator::step_path);
                                    assert((consumed + rest)[0] == pair);
                                    assert((consumed + rest).drop_first() =~= rest);
                                    assert(trace_s(ents, ray0) == Some((dist, idx)));
                                    assert(ray@ =~= Rayi {
                                        origin: new_origin,
                                        direction: scatter_dir_s(sn, pair.0, pair.1),
                                    });
                                }
                            }
                        },
                        Material::Reflective => {
                            ray.direction = make_reflection(ray.direction, surface_normal);
                            proof {
                                step_state = PathState {
                                    acc: color_acc@,
                                    rays: cur0.rays.update(gi, ray@),
                                    masks: cur0.masks.update(gi, color_mask@),
                                };
                                assert forall|rest: Seq<(int, int)>|
                                    #[trigger] step_path(
                                        ents,
                                        bias_g,
                                        cap_g,
                                        cur0,
                                        gi,
                                        consumed + rest,
                                    ) == (step_state, rest) by {
                                    reveal(crate::integrator::step_path);
                                    assert(consumed + rest =~= rest);
                                    assert(trace_s(ents, ray0) == Some((dist, idx)));
                                    assert(ray@ =~= Rayi {
                                        origin: new_origin,
                                        direction: reflect_s(ray0.direction, sn),
                                    });
                                }
                            }
                        },
                        Material::Refractive { index } => {
                            let kr: i64 = fresnel(ray.direction, surface_normal, *index);
                            let ghost spawning = fresnel_s(ray0.direction, sn, *index as int)
                                < SCALE as int && cur0.rays.len() < cap_g && transmission_k(
                                ray0.direction,
                                sn,
                                *index as int,
                            ) >= 0;
                            if kr < SCALE {
                                if rays.len() < cfg.max_subpaths {
                                    // A transmitted-angle radicand that goes negative under
                                    // truncation means no refracted geometry exists; the
                                    // transmitted contribution is dropped, as it is when
                                    // the sub-path budget is exhausted.
                                    match create_transmission(
                                        surface_normal,
                                        ray.direction,
                                        hit_point,
                                        cfg.bias,
                                        *index,
                                    ) {
                                        Some(transmission) => {
                                            let spawned_mask: Color = color_mask.scale(
                                                fp_sub(SCALE, kr),
                                            );
                                            proof {
                                                lemma_mask_decay(
                                                    color_mask@,
                                                    fsub(SCALE as int, kr as int),
                                                );
                                                lemma_rays_view_push(rays@, transmission);
                                                lemma_masks_view_push(masks@, spawned_mask);
                                            }
                                            rays.push(transmission);
                                            masks.push(spawned_mask);
                                            proof {
                                                assert(spawning);
                                                assert(rays_view(rays@) == cur0.rays.push(
                                                    Rayi {
                                                        origin: transmission_origin_s(
                                                            hp,
                                                            ray0.direction,
                                                            sn,
                                                            bias_g,
                                                        ),
                                                        direction: transmission_dir_s(
                                                            ray0.direction,
                                                            sn,
                                                            *index as int,
                                                        ),
                                                    },
                                                ));
                                            }
                                        },
                                        None => {
                                            proof {
                                                assert(!spawning);
                                            }
                                        },
                                    }
                                } else {
                                    proof {
                                        assert(!spawning);
                                    }
                                }
                            } else {
                                proof {
                                    assert(!spawning);
                                }
                            }
                            ray.direction = make_reflection(ray.direction, surface_normal);
                            proof {
                                lemma_mask_decay(color_mask@, kr as int);
                            }
                            color_mask = color_mask.scale(kr);
                            proof {
                                step_state = PathState {
                                    acc: color_acc@,
                                    rays: rays_view(rays@).update(gi, ray@),
                                    masks: masks_view(masks@).update(gi, color_mask@),
                                };
                                assert forall|rest: Seq<(int, int)>|
                                    #[trigger] step_path(
                                        ents,
                                        bias_g,
                                        cap_g,
                                        cur0,
                                        gi,
                                        consumed + rest,
                                    ) == (step_state, rest) by {
                                    reveal(crate::integrator::step_path);
                                    assert(consumed + rest =~= rest);
                                    assert(trace_s(ents, ray0) == Some((dist, idx)));
                                    assert(ray@ =~= Rayi {
                                        origin: new_origin,
                                        direction: reflect_s(ray0.direction, sn),
                                    });
                                }
                            }
                        },
                    }
                },
                None => {
                    color_mask = Color::black();
                    proof {
                        step_state = PathState {
                            acc: color_acc@,
                            rays: cur0.rays.update(gi, ray@),
                            masks: cur0.masks.update(gi, color_mask@),
                        };
                        assert forall|rest: Seq<(int, int)>|
                            #[trigger] step_path(ents, bias_g, cap_g, cur0, gi, consumed + rest)
                                == (step_state, rest) by {
                            reveal(crate::integrator::step_path);
                            assert(consumed + rest =~= rest);
                            assert(trace_s(ents, ray0) is None);
                            assert(color_mask@ =~= black_s());
                        }
                    }
                },
            }

            let ghost pre_r = rays@;
            let ghost pre_m = masks@;
            rays[ray_i] = ray;
            masks[ray_i] = color_mask;
            proof {
                lemma_rays_view_update(pre_r, gi, ray);
                lemma_masks_view_update(pre_m, gi, color_mask);
                assert(rays_view(rays@) == step_state.rays);
                assert(masks_view(masks@) == step_state.masks);
                delta = delta_old + consumed;
                used = used_entry + delta;
                assert(used == (used_entry + delta_old) + consumed);
                assert((used_entry + delta_old) + consumed =~= used_entry + (delta_old
                    + consumed));
                assert forall|rest: Seq<(int, int)>|
                    #[trigger] run_span(
                        ents,
                        bias_g,
                        cap_g,
                        entry_state,
                        start_len as int,
                        ray_i as int,
                        delta + rest,
                    ) == (step_state, rest) by {
                    let dmr = consumed + rest;
                    assert(delta + rest =~= delta_old + dmr);
                    assert(run_span(
                        ents,
                        bias_g,
                        cap_g,
                        entry_state,
                        start_len as int,
                        gi + 1,
                        delta_old + dmr,
                    ) == (cur0, dmr));
                    lemma_span_snoc(
                        ents,
                        bias_g,
                        cap_g,
                        entry_state,
                        start_len as int,
                        gi,
                        delta_old + dmr,
                    );
                    assert(step_path(ents, bias_g, cap_g, cur0, gi, dmr) == (step_state, rest));
                }
            }
        }
        proof {
            if scene_diffuse_bounded(*scene) {
                let cap = cfg.max_subpaths as int;
                lemma_bound_mono(
                    ((bounce_i as int) * cap) + start_len,
                    ((bounce_i as int) * cap) + cap,
                    imax,
                );
                assert(((bounce_i as int) * cap) + cap == ((bounce_i as int) + 1) * cap)
                    by (nonlinear_arith);
            }
            assert forall|rest: Seq<(int, int)>|
                #[trigger] run_rounds(
                    ents,
                    bias_g,
                    cap_g,
                    st0,
                    (bounce_i + 1) as int,
                    used + rest,
                ) == (
                PathState {
                    acc: color_acc@,
                    rays: rays_view(rays@),
                    masks: masks_view(masks@),
                },
                rest,
            ) by {
                lemma_rounds_snoc(ents, bias_g, cap_g, st0, bounce_i as int, used + rest);
                assert(used + rest =~= used_entry + (delta + rest));
                assert(run_rounds(ents, bias_g, cap_g, st0, bounce_i as int, used_entry + (delta
                    + rest)) == (entry_state, delta + rest));
                assert(run_span(
                    ents,
                    bias_g,
                    cap_g,
                    entry_state,
                    start_len as int,
                    0,
                    delta + rest,
                ) == (
                    PathState {
                        acc: color_acc@,
                        rays: rays_view(rays@),
                        masks: masks_view(masks@),
                    },
                    rest,
                ));
            }
        }
        bounce_i += 1;
    }
    proof {
        assert(used + Seq::<(int, int)>::empty() =~= used);
        assert(run_rounds(ents, bias_g, cap_g, st0, cfg.bounce_cap as int, used) == (
            PathState { acc: color_acc@, rays: rays_view(rays@), masks: masks_view(masks@) },
            Seq::<(int, int)>::empty(),
        ));
        assert(color_acc@ == sample_radiance_s(*scene, *cfg, x as int, y as int, used));
    }
    color_acc
}

} // verus!
