use pathtrace::fixed::SCALE;
use pathtrace::vec3::Vec3;
use pathtrace::optics::{create_transmission, fresnel, make_reflection};
use pathtrace::sampling::{create_scatter_direction, UNIT_TOL};

#[test]
fn straight_down_reflects_straight_up() {
    let incident = Vec3::new(0, -SCALE, 0);
    let normal = Vec3::new(0, SCALE, 0);
    let r = make_reflection(incident, normal);
    assert_eq!(r, Vec3::new(0, SCALE, 0));
}

#[test]
fn double_reflection_returns_the_incident_direction() {
    let incident = Vec3::new(3000, -5000, 70);
    let normal = Vec3::new(0, SCALE, 0);
    let once = make_reflection(incident, normal);
    let twice = make_reflection(once, normal);
    assert_eq!(twice, incident);
}

#[test]
fn double_reflection_about_x_axis_normal() {
    let incident = Vec3::new(-4096, 123, -777);
    let normal = Vec3::new(SCALE, 0, 0);
    let twice = make_reflection(make_reflection(incident, normal), normal);
    assert_eq!(twice, incident);
}

#[test]
fn fresnel_normal_incidence_glass() {
    // Head-on into an index-1.5 dielectric: reflectance (0.5/2.5)^2 = 0.04.
    let incident = Vec3::new(0, -SCALE, 0);
    let normal = Vec3::new(0, SCALE, 0);
    let kr = fresnel(incident, normal, 98304);
    assert_eq!(kr, 2621);
}

#[test]
fn fresnel_total_internal_reflection_is_exactly_one() {
    // Grazing incidence leaving a dense medium: the transmitted sine exceeds
    // one, so reflectance is exactly one whole unit.
    let incident = Vec3::new(SCALE, 0, 0);
    let normal = Vec3::new(0, SCALE, 0);
    let kr = fresnel(incident, normal, 16384);
    assert_eq!(kr, SCALE);
}

#[test]
fn fresnel_grows_away_from_normal_incidence() {
    // At 45 degrees into an index-1.5 dielectric the unpolarized reflectance
    // is about 0.0503, strictly above the 0.04 of head-on incidence: the
    // incident cosine comes from the incident-normal dot, so reflectance
    // depends on the angle below total internal reflection.
    let normal = Vec3::new(0, SCALE, 0);
    let head_on = fresnel(Vec3::new(0, -SCALE, 0), normal, 98304);
    let oblique = fresnel(Vec3::new(46341, -46341, 0), normal, 98304);
    assert_eq!(head_on, 2621);
    assert!(oblique > head_on, "oblique {oblique}");
    assert!(3000 < oblique && oblique < 3600, "oblique {oblique}");
}

#[test]
fn fresnel_stays_in_unit_interval() {
    let normal = Vec3::new(0, SCALE, 0);
    let dirs = [
        Vec3::new(0, -SCALE, 0),
        Vec3::new(46341, -46341, 0),
        Vec3::new(65000, -8000, 1000),
        Vec3::new(-30000, -50000, 20000),
        Vec3::new(SCALE, 0, 0),
    ];
    let indices = [16384i64, 32768, 65536, 98304, 163840, 262144];
    for d in dirs {
        for ix in indices {
            let kr = fresnel(d, normal, ix);
            assert!(0 <= kr && kr <= SCALE, "kr {kr} out of range");
        }
    }
}

#[test]
fn transmission_is_refused_under_total_internal_reflection() {
    let normal = Vec3::new(0, SCALE, 0);
    let incident = Vec3::new(SCALE, 0, 0);
    let hit = Vec3::new(0, 0, 0);
    // Index four: the transmitted radicand is negative at grazing incidence.
    let t = create_transmission(normal, incident, hit, 655, 262144);
    assert!(t.is_none());
}

#[test]
fn transmission_exists_at_normal_incidence() {
    let normal = Vec3::new(0, SCALE, 0);
    let incident = Vec3::new(0, -SCALE, 0);
    let hit = Vec3::new(0, 0, 0);
    let t = create_transmission(normal, incident, hit, 655, 98304);
    assert!(t.is_some());
    let ray = t.unwrap();
    // The transmitted ray continues downward, biased through the surface.
    assert!(ray.direction.y < 0);
    assert!(ray.origin.y < 0);
}

#[test]
fn scatter_directions_stay_unit_length_in_the_upper_hemisphere() {
    let normal = Vec3::new(0, SCALE, 0);
    for _ in 0..200 {
        let (d, w) = create_scatter_direction(&normal);
        let n2 = d.norm_sq();
        assert!((n2 - SCALE).abs() <= UNIT_TOL, "norm_sq {n2}");
        assert!(d.dot(normal) >= 0);
        assert!(w >= 0);
    }
}

#[test]
fn scatter_weight_counteracts_the_cosine() {
    let normal = Vec3::new(0, SCALE, 0);
    for _ in 0..50 {
        let (d, w) = create_scatter_direction(&normal);
        let c = d.dot(normal);
        if c > 0 {
            // weight == 1 / cosine, so the product is one unit up to truncation.
            let prod = pathtrace::fixed::fp_mul(c, w);
            assert!(prod <= SCALE && prod >= SCALE - SCALE / 8, "prod {prod}");
        }
    }
}
