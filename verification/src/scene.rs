//! Scene data: materials, colorations, shaped elements and ray tracing
//! against the nearest element.

use vstd::prelude::*;
use crate::fixed::{
    fits, fadd, fsub, fmul, fdiv, fsqrt, max0, SCALE, PI_FP,
    fp_add, fp_sub, fp_mul, fp_div, fp_sqrt,
};
use vstd::arithmetic::div_mod::lemma_div_is_ordered;
use vstd::arithmetic::div_mod::lemma_div_multiples_vanish_fancy;
use crate::vec3::{Vec3, Vec3i, dot_s, sub_s, cross_s, neg_s, normalize_s};
use crate::color::{Color, Colori, color_in_unit};
use crate::ray::{Ray, Rayi};

verus! {

/// An owned raster of colors sampled by surface coordinates.
#[derive(Clone)]
pub struct TextureData {
    pub width: usize,
    pub height: usize,
    pub pixels: Vec<Color>,
}

pub open spec fn texture_wf(t: TextureData) -> bool {
    &&& 1 <= t.width <= 65536
    &&& 1 <= t.height <= 65536
    &&& t.pixels@.len() == t.width * t.height
    &&& forall|k: int|
        0 <= k < t.pixels@.len() ==> (#[trigger] t.pixels@[k]).wf() && color_in_unit(
            t.pixels@[k]@,
        )
}

/// A surface coordinate wrapped into `[0, bound)` whole pixels of fixed-point
/// width.
pub open spec fn wrap_coord(c: int, bound: int) -> int
    recommends
        bound > 0,
{
    let ws = bound * SCALE as int;
    if c >= 0 {
        c % ws
    } else if (-c) % ws == 0 {
        0
    } else {
        ws - ((-c) % ws)
    }
}

pub open spec fn texel_index(t: TextureData, u: int, v: int) -> int {
    let px = wrap_coord(u, t.width as int) / (SCALE as int);
    let py = wrap_coord(v, t.height as int) / (SCALE as int);
    py * t.width + px
}

/// Either one solid color or a texture lookup capability.
#[derive(Clone)]
pub enum Coloration {
    Solid(Color),
    Texture(TextureData),
}

pub open spec fn coloration_wf(c: Coloration) -> bool {
    match c {
        Coloration::Solid(col) => col.wf() && color_in_unit(col@),
        Coloration::Texture(t) => texture_wf(t),
    }
}

pub open spec fn coloration_color_s(c: Coloration, u: int, v: int) -> Colori {
    match c {
        Coloration::Solid(col) => col@,
        Coloration::Texture(t) => t.pixels@[texel_index(t, u, v)]@,
    }
}

/// Wrap a fixed-point surface coordinate onto a pixel column or row.
fn wrap_to_pixel(c: i64, bound: usize) -> (p: usize)
    requires
        1 <= bound <= 65536,
        fits(c as int),
    ensures
        p as int == wrap_coord(c as int, bound as int) / (SCALE as int),
        p < bound,
{
    proof {
        assert(SCALE as int <= (bound as int) * (SCALE as int) <= 4294967296int)
            by (nonlinear_arith)
            requires
                1 <= (bound as int) <= 65536,
                SCALE as int == 65536,
        ;
    }
    let ws: u64 = (bound as u64) * (SCALE as u64);
    let m: u64 = if c >= 0 {
        (c as u64) % ws
    } else {
        let mm: u64 = ((-c) as u64) % ws;
        if mm == 0 {
            0
        } else {
            ws - mm
        }
    };
    let p: u64 = m / (SCALE as u64);
    proof {
        assert(m as int <= ws as int - 1);
        lemma_div_is_ordered(m as int, ws as int - 1, SCALE as int);
        lemma_div_multiples_vanish_fancy(bound as int - 1, SCALE as int - 1, SCALE as int);
        assert(ws as int - 1 == (SCALE as int) * (bound as int - 1) + (SCALE as int - 1));
    }
    p as usize
}

impl Coloration {
    /// Resolve the surface color at a 2D coordinate: the solid color, or the
    /// wrapped texel of the texture.
    pub fn color(&self, u: i64, v: i64) -> (c: Color)
        requires
            coloration_wf(*self),
            fits(u as int),
            fits(v as int),
        ensures
            c@ == coloration_color_s(*self, u as int, v as int),
            c.wf(),
            color_in_unit(c@),
    {
        match self {
            Coloration::Solid(col) => *col,
            Coloration::Texture(t) => {
                let px: usize = wrap_to_pixel(u, t.width);
                let py: usize = wrap_to_pixel(v, t.height);
                let n: usize = t.pixels.len();
                proof {
                    assert((py as int) * (t.width as int) + (px as int) < (t.width as int)
                        * (t.height as int) && 0 <= (py as int) * (t.width as int))
                        by (nonlinear_arith)
                        requires
                            (px as int) < t.width as int,
                            (py as int) < t.height as int,
                            0 <= px as int,
                            0 <= py as int,
                            1 <= t.width as int,
                            1 <= t.height as int,
                    ;
                    assert((py as int) * (t.width as int) + (px as int) < n as int);
                }
                let idx: usize = py * t.width + px;
                t.pixels[idx]
            },
        }
    }
}

/// How a surface scatters light.
#[derive(Clone)]
pub enum Material {
    Diffuse { albedo: i64, color: Coloration },
    Emissive { intensity: i64, emission: Color },
    Reflective,
    Refractive { index: i64 },
}

pub open spec fn material_wf(m: Material) -> bool {
    match m {
        Material::Diffuse { albedo, color } => 0 <= albedo <= SCALE && coloration_wf(color),
        Material::Emissive { intensity, emission } => 0 <= intensity && fits(intensity as int)
            && emission.wf() && color_in_unit(emission@),
        Material::Reflective => true,
        Material::Refractive { index } => 0 < index && fits(index as int),
    }
}

/// A shaped scene element carrying its material.
#[derive(Clone)]
pub enum Element {
    Plane { origin: Vec3, normal: Vec3, material: Material },
    Sphere { center: Vec3, radius: i64, material: Material },
}

pub open spec fn elem_material(e: Element) -> Material {
    match e {
        Element::Plane { material, .. } => material,
        Element::Sphere { material, .. } => material,
    }
}

pub open spec fn elem_wf(e: Element) -> bool {
    match e {
        Element::Plane { origin, normal, material } => origin.wf() && normal.wf() && material_wf(
            material,
        ),
        Element::Sphere { center, radius, material } => center.wf() && 0 < radius && fits(
            radius as int,
        ) && material_wf(material),
    }
}

/// The nearest non-negative hit distance of a ray against one element, if
/// any.
pub open spec fn elem_distance_s(e: Element, r: Rayi) -> Option<int> {
    match e {
        Element::Plane { origin, normal, .. } => {
            let denom = dot_s(normal@, r.direction);
            if denom > 0 {
                let dist = fdiv(dot_s(sub_s(origin@, r.origin), normal@), denom);
                if dist >= 0 {
                    Some(dist)
                } else {
                    None
                }
            } else {
                None
            }
        },
        Element::Sphere { center, radius, .. } => {
            let l = sub_s(center@, r.origin);
            let adj = dot_s(l, r.direction);
            let d2 = fsub(dot_s(l, l), fmul(adj, adj));
            let r2 = fmul(radius as int, radius as int);
            if d2 > r2 {
                None
            } else {
                let thc = fsqrt(max0(fsub(r2, d2)));
                let t0 = fsub(adj, thc);
                let t1 = fadd(adj, thc);
                if t0 < 0 && t1 < 0 {
                    None
                } else if t0 < 0 {
                    Some(t1)
                } else if t1 < 0 {
                    Some(t0)
                } else if t0 < t1 {
                    Some(t0)
                } else {
                    Some(t1)
                }
            }
        },
    }
}

pub open spec fn surface_normal_s(e: Element, hit: Vec3i) -> Vec3i {
    match e {
        Element::Plane { normal, .. } => neg_s(normal@),
        Element::Sphere { center, .. } => normalize_s(sub_s(hit, center@)),
    }
}

/// Planar coordinates: the hit offset projected on two frame axes built from
/// the normal. Spherical coordinates: the hit offset against the radius.
pub open spec fn texture_coords_s(e: Element, hit: Vec3i) -> (int, int) {
    match e {
        Element::Plane { origin, normal, .. } => {
            let zaxis = Vec3i { x: 0, y: 0, z: SCALE as int };
            let yaxis = Vec3i { x: 0, y: SCALE as int, z: 0 };
            let xa0 = cross_s(normal@, zaxis);
            let xaxis = if dot_s(xa0, xa0) == 0 {
                cross_s(normal@, yaxis)
            } else {
                xa0
            };
            let ya = cross_s(normal@, xaxis);
            let hv = sub_s(hit, origin@);
            (dot_s(hv, xaxis), dot_s(hv, ya))
        },
        Element::Sphere { center, radius, .. } => {
            let hv = sub_s(hit, center@);
            (fdiv(hv.x, radius as int), fdiv(hv.z, radius as int))
        },
    }
}

impl Element {
    pub fn material(&self) -> (m: &Material)
        ensures
            *m == elem_material(*self),
    {
        match self {
            Element::Plane { material, .. } => material,
            Element::Sphere { material, .. } => material,
        }
    }

    pub fn intersect(&self, ray: &Ray) -> (res: Option<i64>)
        requires
            elem_wf(*self),
            ray.wf(),
        ensures
            res is Some <==> elem_distance_s(*self, ray@) is Some,
            res is Some ==> res->0 as int == elem_distance_s(*self, ray@)->Some_0,
            res is Some ==> 0 <= res->0 && fits(res->0 as int),
    {
        match self {
            Element::Plane { origin, normal, .. } => {
                let denom: i64 = normal.dot(ray.direction);
                if denom > 0 {
                    let v: Vec3 = origin.sub(ray.origin);
                    let distance: i64 = fp_div(v.dot(*normal), denom);
                    if distance >= 0 {
                        Some(distance)
                    } else {
                        None
                    }
                } else {
                    None
                }
            },
            Element::Sphere { center, radius, .. } => {
                let l: Vec3 = center.sub(ray.origin);
                let adj: i64 = l.dot(ray.direction);
                let d2: i64 = fp_sub(l.dot(l), fp_mul(adj, adj));
                let r2: i64 = fp_mul(*radius, *radius);
                if d2 > r2 {
                    None
                } else {
                    let thc: i64 = fp_sqrt(fp_sub(r2, d2));
                    let t0: i64 = fp_sub(adj, thc);
                    let t1: i64 = fp_add(adj, thc);
                    if t0 < 0 && t1 < 0 {
                        None
                    } else if t0 < 0 {
                        Some(t1)
                    } else if t1 < 0 {
                        Some(t0)
                    } else if t0 < t1 {
                        Some(t0)
                    } else {
                        Some(t1)
                    }
                }
            },
        }
    }

    pub fn surface_normal(&self, hit: &Vec3) -> (n: Vec3)
        requires
            elem_wf(*self),
            hit.wf(),
        ensures
            n@ == surface_normal_s(*self, hit@),
            n.wf(),
    {
        match self {
            Element::Plane { normal, .. } => normal.neg(),
            Element::Sphere { center, .. } => hit.sub(*center).normalize(),
        }
    }

    pub fn texture_coords(&self, hit: &Vec3) -> (uv: (i64, i64))
        requires
            elem_wf(*self),
            hit.wf(),
        ensures
            uv.0 as int == texture_coords_s(*self, hit@).0,
            uv.1 as int == texture_coords_s(*self, hit@).1,
            fits(uv.0 as int),
            fits(uv.1 as int),
    {
        match self {
            Element::Plane { origin, normal, .. } => {
                let zaxis: Vec3 = Vec3::new(0, 0, SCALE);
                let yaxis: Vec3 = Vec3::new(0, SCALE, 0);
                let xa0: Vec3 = normal.cross(zaxis);
                let xaxis: Vec3 = if xa0.norm_sq() == 0 {
                    normal.cross(yaxis)
                } else {
                    xa0
                };
                let ya: Vec3 = normal.cross(xaxis);
                let hv: Vec3 = hit.sub(*origin);
                (hv.dot(xaxis), hv.dot(ya))
            },
            Element::Sphere { center, radius, .. } => {
                let hv: Vec3 = hit.sub(*center);
                (fp_div(hv.x, *radius), fp_div(hv.z, *radius))
            },
        }
    }
}

/// The nearest hit over the first `n` elements, scanned in order: earlier
/// elements win ties, and a strictly smaller distance replaces the champion.
pub open spec fn trace_upto(s: Seq<Element>, r: Rayi, n: int) -> Option<(int, int)>
    decreases n,
{
    if n <= 0 {
        None
    } else {
        let prev = trace_upto(s, r, n - 1);
        let cur = elem_distance_s(s[n - 1], r);
        match (prev, cur) {
            (Option::None, Option::None) => None,
            (Option::None, Option::Some(d)) => Some((d, n - 1)),
            (Option::Some(p), Option::None) => Some(p),
            (Option::Some(p), Option::Some(d)) => if d < p.0 {
                Some((d, n - 1))
            } else {
                Some(p)
            },
        }
    }
}

/// The nearest hit of a ray over the whole scene: distance and element index.
pub open spec fn trace_s(s: Seq<Element>, r: Rayi) -> Option<(int, int)> {
    trace_upto(s, r, s.len() as int)
}

/// The result of tracing a ray: nearest hit distance and the hit element.
pub struct Intersection {
    pub distance: i64,
    pub index: usize,
}

/// A static scene: camera parameters and the shaped elements.
pub struct Scene {
    pub width: u32,
    pub height: u32,
    pub fov: i64,
    pub entities: Vec<Element>,
}

pub open spec fn scene_wf(s: Scene) -> bool {
    &&& 0 < s.width <= 16384
    &&& 0 < s.height <= 16384
    &&& 0 < s.fov <= 180
    &&& forall|j: int| 0 <= j < s.entities@.len() ==> elem_wf(#[trigger] s.entities@[j])
}

/// No element of the scene emits light.
pub open spec fn scene_no_emissive(s: Scene) -> bool {
    forall|j: int|
        0 <= j < s.entities@.len() ==> !((#[trigger] elem_material(s.entities@[j]))
            is Emissive)
}

impl Scene {
    /// Trace a ray against every element and return the nearest non-negative
    /// hit, if any element is hit at all.
    pub fn trace(&self, ray: &Ray) -> (res: Option<Intersection>)
        requires
            scene_wf(*self),
            ray.wf(),
        ensures
            match res {
                None => {
                    &&& trace_s(self.entities@, ray@) is None
                    &&& forall|k: int|
                        0 <= k < self.entities@.len() ==> (#[trigger] elem_distance_s(
                            self.entities@[k],
                            ray@,
                        )) is None
                },
                Some(hit) => {
                    &&& trace_s(self.entities@, ray@) == Some(
                        (hit.distance as int, hit.index as int),
                    )
                    &&& (hit.index as int) < self.entities@.len()
                    &&& elem_distance_s(self.entities@[hit.index as int], ray@) == Some(
                        hit.distance as int,
                    )
                    &&& 0 <= hit.distance
                    &&& fits(hit.distance as int)
                    &&& forall|k: int|
                        0 <= k < self.entities@.len() ==> ((#[trigger] elem_distance_s(
                            self.entities@[k],
                            ray@,
                        )) is Some ==> hit.distance as int <= elem_distance_s(
                            self.entities@[k],
                            ray@,
                        )->Some_0)
                },
            },
    {
        let mut best: Option<Intersection> = None;
        let mut j: usize = 0;
        while j < self.entities.len()
            invariant
                j <= self.entities@.len(),
                scene_wf(*self),
                ray.wf(),
                match best {
                    None => {
                        &&& trace_upto(self.entities@, ray@, j as int) is None
                        &&& forall|k: int|
                            0 <= k < j ==> (#[trigger] elem_distance_s(
                                self.entities@[k],
                                ray@,
                            )) is None
                    },
                    Some(b) => {
                        &&& trace_upto(self.entities@, ray@, j as int) == Some(
                            (b.distance as int, b.index as int),
                        )
                        &&& (b.index as int) < j
                        &&& elem_distance_s(self.entities@[b.index as int], ray@) == Some(
                            b.distance as int,
                        )
                        &&& 0 <= b.distance
                        &&& fits(b.distance as int)
                        &&& forall|k: int|
                            0 <= k < j ==> ((#[trigger] elem_distance_s(
                                self.entities@[k],
                                ray@,
                            )) is Some ==> b.distance as int <= elem_distance_s(
                                self.entities@[k],
                                ray@,
                            )->Some_0)
                    },
                },
            decreases self.entities@.len() - j,
        {
            let e: &Element = &self.entities[j];
            match e.intersect(ray) {
                Some(d) => {
                    match &best {
                        None => {
                            best = Some(Intersection { distance: d, index: j });
                        },
                        Some(b) => {
                            if d < b.distance {
                                best = Some(Intersection { distance: d, index: j });
                            }
                        },
                    }
                },
                None => {},
            }
            j += 1;
        }
        best
    }
}


/// Every diffuse element's reflected power (albedo times pi) stays within
/// one unit: the physically meaningful energy-conserving regime.
pub open spec fn scene_diffuse_bounded(s: Scene) -> bool {
    forall|j: int|
        0 <= j < s.entities@.len() ==> match #[trigger] elem_material(s.entities@[j]) {
            Material::Diffuse { albedo, .. } => fmul(albedo as int, PI_FP as int) <= SCALE as int,
            _ => true,
        }
}

/// The largest emissive intensity in the scene, zero if none emits.
pub open spec fn max_intensity(s: Seq<Element>) -> int
    decreases s.len(),
{
    if s.len() == 0 {
        0
    } else {
        let head = match elem_material(s[0]) {
            Material::Emissive { intensity, .. } => intensity as int,
            _ => 0,
        };
        let rest = max_intensity(s.drop_first());
        if head >= rest {
            head
        } else {
            rest
        }
    }
}

pub proof fn lemma_max_intensity_nonneg(s: Seq<Element>)
    requires
        forall|j: int| 0 <= j < s.len() ==> elem_wf(#[trigger] s[j]),
    ensures
        0 <= max_intensity(s),
    decreases s.len(),
{
    if s.len() > 0 {
        assert(elem_wf(s[0]));
        assert forall|j: int| 0 <= j < s.drop_first().len() implies elem_wf(
            #[trigger] s.drop_first()[j],
        ) by {
            assert(s.drop_first()[j] == s[j + 1]);
        }
        lemma_max_intensity_nonneg(s.drop_first());
    }
}

/// The intensity of any emissive element is covered by the scene maximum.
pub proof fn lemma_max_intensity_covers(s: Seq<Element>, j: int)
    requires
        0 <= j < s.len(),
    ensures
        match elem_material(s[j]) {
            Material::Emissive { intensity, .. } => intensity as int <= max_intensity(s),
            _ => true,
        },
    decreases s.len(),
{
    if j > 0 {
        lemma_max_intensity_covers(s.drop_first(), j - 1);
        assert(s.drop_first()[j - 1] == s[j]);
    }
}

} // verus!
