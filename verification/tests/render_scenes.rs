use pathtrace::color::Color;
use pathtrace::fixed::SCALE;
use pathtrace::integrator::{get_color, RenderConfig};
use pathtrace::ray::create_prime;
use pathtrace::renderer::{render, render_pixel};
use pathtrace::scene::{Coloration, Element, Material, Scene, TextureData};
use pathtrace::vec3::Vec3;

fn small_config(samples: u32, bounce_cap: u32, max_subpaths: usize) -> RenderConfig {
    RenderConfig { samples, bounce_cap, max_subpaths, bias: 655 }
}

fn diffuse_white(albedo: i64) -> Material {
    Material::Diffuse { albedo, color: Coloration::Solid(Color::white()) }
}

/// A floor plane below the camera, facing up.
fn floor(material: Material) -> Element {
    Element::Plane {
        origin: Vec3::new(0, -3 * SCALE, -5 * SCALE),
        normal: Vec3::new(0, -SCALE, 0),
        material,
    }
}

/// A wall straight ahead of the camera, facing it.
fn back_wall(material: Material) -> Element {
    Element::Plane {
        origin: Vec3::new(0, 0, -5 * SCALE),
        normal: Vec3::new(0, 0, -SCALE),
        material,
    }
}

#[test]
fn no_emissive_scene_renders_black() {
    let scene = Scene {
        width: 4,
        height: 4,
        fov: 90,
        entities: vec![
            floor(diffuse_white(11796)),
            back_wall(diffuse_white(11796)),
            Element::Sphere {
                center: Vec3::new(0, 0, -5 * SCALE),
                radius: SCALE,
                material: Material::Reflective,
            },
        ],
    };
    let cfg = small_config(8, 8, 16);
    let buf = render(&scene, &cfg);
    assert_eq!(buf.len(), 4 * 4 * 4);
    for p in 0..16 {
        assert_eq!(&buf[4 * p..4 * p + 4], &[0, 0, 0, 255]);
    }
}

#[test]
fn directly_visible_emitter_has_exact_expected_value() {
    // One emissive wall fills the view; with one bounce round the sample value
    // is deterministic: intensity 64 scaled by 1/(samples * rounds), summed
    // over 128 samples, gives one half unit, displayed as byte 127.
    let scene = Scene {
        width: 2,
        height: 2,
        fov: 90,
        entities: vec![back_wall(Material::Emissive {
            intensity: 64 * SCALE,
            emission: Color::white(),
        })],
    };
    let cfg = small_config(128, 1, 16);
    let px = render_pixel(&scene, &cfg, 0, 0);
    assert_eq!(px, [127, 127, 127, 255]);
}

#[test]
fn emissive_plane_with_diffuse_sphere_is_grayscale_and_finite() {
    // Every material in this scene has equal channels, so the estimate is an
    // exact gray regardless of which random paths were drawn.
    let scene = Scene {
        width: 2,
        height: 2,
        fov: 90,
        entities: vec![
            Element::Plane {
                origin: Vec3::new(0, 5 * SCALE, 5 * SCALE),
                normal: Vec3::new(0, SCALE, 0),
                material: Material::Emissive {
                    intensity: 100 * SCALE,
                    emission: Color::white(),
                },
            },
            Element::Sphere {
                center: Vec3::new(0, 0, -5 * SCALE),
                radius: 2 * SCALE,
                material: diffuse_white(11796),
            },
        ],
    };
    let cfg = small_config(64, 3, 16);
    let px = render_pixel(&scene, &cfg, 1, 1);
    assert_eq!(px[3], 255);
    assert_eq!(px[0], px[1]);
    assert_eq!(px[1], px[2]);
}

#[test]
fn exhausted_subpath_budget_still_renders() {
    // With the sub-path cap at one, the first dielectric hit cannot spawn a
    // transmitted ray; only the reflected branch continues.
    let scene = Scene {
        width: 2,
        height: 2,
        fov: 90,
        entities: vec![
            back_wall(Material::Emissive { intensity: 8 * SCALE, emission: Color::white() }),
            Element::Sphere {
                center: Vec3::new(0, 0, -3 * SCALE),
                radius: 2 * SCALE,
                material: Material::Refractive { index: 32768 },
            },
        ],
    };
    let cfg = small_config(8, 4, 1);
    let buf = render(&scene, &cfg);
    assert_eq!(buf.len(), 16);
    for p in 0..4 {
        assert_eq!(buf[4 * p + 3], 255);
    }
}

#[test]
fn enclosed_diffuse_box_stays_bounded() {
    let walls: Vec<Element> = vec![
        Element::Plane {
            origin: Vec3::new(0, -3 * SCALE, 0),
            normal: Vec3::new(0, -SCALE, 0),
            material: diffuse_white(11796),
        },
        Element::Plane {
            origin: Vec3::new(0, 5 * SCALE, 0),
            normal: Vec3::new(0, SCALE, 0),
            material: Material::Emissive { intensity: 32 * SCALE, emission: Color::white() },
        },
        Element::Plane {
            origin: Vec3::new(5 * SCALE, 0, 0),
            normal: Vec3::new(SCALE, 0, 0),
            material: diffuse_white(11796),
        },
        Element::Plane {
            origin: Vec3::new(-5 * SCALE, 0, 0),
            normal: Vec3::new(-SCALE, 0, 0),
            material: diffuse_white(11796),
        },
        Element::Plane {
            origin: Vec3::new(0, 0, -10 * SCALE),
            normal: Vec3::new(0, 0, -SCALE),
            material: diffuse_white(11796),
        },
        Element::Plane {
            origin: Vec3::new(0, 0, 10 * SCALE),
            normal: Vec3::new(0, 0, SCALE),
            material: diffuse_white(11796),
        },
    ];
    let scene = Scene { width: 2, height: 2, fov: 90, entities: walls };
    let cfg = small_config(16, 8, 16);
    let first = render_pixel(&scene, &cfg, 0, 0);
    let second = render_pixel(&scene, &cfg, 0, 0);
    assert_eq!(first[3], 255);
    assert_eq!(second[3], 255);
}

#[test]
fn zero_radiance_sample_from_empty_scene() {
    let scene = Scene { width: 2, height: 2, fov: 90, entities: vec![] };
    let cfg = small_config(1, 8, 16);
    let c = get_color(&scene, &cfg, 0, 0);
    assert_eq!(c, Color::black());
}

#[test]
fn primary_rays_leave_the_camera_forward() {
    let r = create_prime(1, 1, 4, 4, 90);
    assert_eq!(r.origin, Vec3::new(0, 0, 0));
    assert!(r.direction.z < 0);
    let n2 = r.direction.norm_sq();
    assert!((n2 - SCALE).abs() < 2000, "norm_sq {n2}");
}

#[test]
fn sphere_trace_hits_at_the_near_surface() {
    let scene = Scene {
        width: 2,
        height: 2,
        fov: 90,
        entities: vec![Element::Sphere {
            center: Vec3::new(0, 0, -5 * SCALE),
            radius: SCALE,
            material: Material::Reflective,
        }],
    };
    let ray = pathtrace::ray::Ray {
        origin: Vec3::new(0, 0, 0),
        direction: Vec3::new(0, 0, -SCALE),
    };
    let hit = scene.trace(&ray).unwrap();
    assert_eq!(hit.index, 0);
    assert_eq!(hit.distance, 4 * SCALE);
}

#[test]
fn texture_lookup_wraps_in_both_directions() {
    let tex = TextureData {
        width: 2,
        height: 2,
        pixels: vec![Color::white(), Color::black(), Color::black(), Color::white()],
    };
    let coloration = Coloration::Texture(tex);
    assert_eq!(coloration.color(0, 0), Color::white());
    assert_eq!(coloration.color(SCALE, 0), Color::black());
    assert_eq!(coloration.color(0, SCALE), Color::black());
    assert_eq!(coloration.color(SCALE, SCALE), Color::white());
    // One full period to the left lands on the same column.
    assert_eq!(coloration.color(-SCALE, 0), Color::black());
    assert_eq!(coloration.color(2 * SCALE, 0), Color::white());
}

#[test]
fn radiance_stays_under_the_per_sample_ceiling() {
    // Energy-conserving diffuse walls (albedo * pi below one) around one
    // emitter of intensity 32: a sample can never accumulate more than
    // bounce_cap * max_subpaths * 32 whole units per channel.
    let scene = Scene {
        width: 2,
        height: 2,
        fov: 90,
        entities: vec![
            floor(diffuse_white(11796)),
            back_wall(diffuse_white(11796)),
            Element::Plane {
                origin: Vec3::new(0, 5 * SCALE, 0),
                normal: Vec3::new(0, SCALE, 0),
                material: Material::Emissive { intensity: 32 * SCALE, emission: Color::white() },
            },
        ],
    };
    let cfg = small_config(4, 8, 16);
    let ceiling: i64 = 8 * 16 * 32 * SCALE;
    for _ in 0..8 {
        let c = get_color(&scene, &cfg, 0, 0);
        assert!(0 <= c.r && c.r <= ceiling);
        assert!(0 <= c.g && c.g <= ceiling);
        assert!(0 <= c.b && c.b <= ceiling);
    }
}
