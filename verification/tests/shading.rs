use pathtracer::bsdf::{
    reflect, f_schlick, fresnel_f0, roughness_to_alpha2, g_smith_joint, ggx_weight,
    normalize_fx, sample_refraction, importance_sample_diffuse, importance_sample_ggx,
};
use pathtracer::rng::Rng;
use pathtracer::vector::Vector3;

fn v(x: i64, y: i64, z: i64) -> Vector3 {
    Vector3 { x, y, z }
}

const ONE: i64 = 65536;

#[test]
fn rng_is_deterministic() {
    let mut a = Rng::new(42);
    let mut b = Rng::new(42);
    for _ in 0..16 {
        assert_eq!(a.next_u64(), b.next_u64());
    }
    let mut c = Rng::new(43);
    assert_ne!(Rng::new(42).next_u64(), c.next_u64());
}

#[test]
fn rng_unit_stays_in_range() {
    let mut r = Rng::new(5);
    for _ in 0..1000 {
        let u = r.next_unit();
        assert!(0 <= u && u < ONE);
    }
}

#[test]
fn normalize_gives_near_unit_length() {
    let n = normalize_fx(&v(30000, 40000, 0));
    // (3,4,0)/5 scaled: 0.6 and 0.8.
    assert_eq!(n, v(39321, 52428, 0));
}

#[test]
fn reflect_mirrors_about_the_normal() {
    // Incoming (0,-1,1)-ish against the +y normal flips the y component;
    // the result is scaled by |n|^2.
    let d = v(0, -ONE, ONE);
    let n = v(0, ONE, 0);
    let r = reflect(&d, &n);
    // Scaled by |n|^2 = 2^32: the y component flips, z is kept.
    assert_eq!(r.x, 0);
    assert_eq!(r.y, 281474976710656);
    assert_eq!(r.z, 281474976710656);
}

#[test]
fn schlick_endpoints() {
    let f0 = 2621;
    // Head-on incidence reflects exactly F0.
    assert_eq!(f_schlick(ONE, f0), f0);
    // Grazing incidence reflects everything.
    assert_eq!(f_schlick(0, f0), ONE);
}

#[test]
fn fresnel_f0_of_glass() {
    // ior = 1.5: ((0.5)/(2.5))^2 = 0.04, in floored fixed point.
    let f0 = fresnel_f0(98304);
    assert_eq!(f0, 2621);
}

#[test]
fn roughness_mapping_endpoints() {
    assert_eq!(roughness_to_alpha2(0), 0);
    assert_eq!(roughness_to_alpha2(ONE), ONE);
}

#[test]
fn smith_term_bright_at_normal_incidence() {
    // Smooth surface seen and lit head-on: no shadowing.
    let g = g_smith_joint(ONE, ONE, 0);
    assert_eq!(g, 16384);
    let g_rough = g_smith_joint(ONE, ONE, ONE);
    assert!(g_rough <= g);
}

#[test]
fn ggx_weight_zero_factors() {
    assert_eq!(ggx_weight(0, ONE, ONE, ONE, ONE), 0);
    assert_eq!(ggx_weight(ONE, ONE, 0, ONE, ONE), 0);
}

#[test]
fn refraction_head_on_selector_threshold() {
    // Head-on against glass: the Fresnel term is exactly F0 = 2621, so the
    // stochastic branch reflects exactly when the selector is below it.
    let d = v(0, 0, ONE);
    let n = v(0, 0, -ONE);
    let (_, reflected_low) = sample_refraction(2620, &d, &n, 98304);
    assert!(reflected_low);
    let (dir, reflected_high) = sample_refraction(2621, &d, &n, 98304);
    assert!(!reflected_high);
    // The transmitted ray keeps going forward.
    assert!(dir.z > 0);
}

#[test]
fn refraction_branch_frequency_matches_fresnel() {
    // Over many uniform selectors the reflect frequency converges to the
    // analytic reflectance F0 = 0.04 (head-on incidence).
    let d = v(0, 0, ONE);
    let n = v(0, 0, -ONE);
    let mut rng = Rng::new(777);
    let trials = 20000u32;
    let mut reflected = 0u32;
    for _ in 0..trials {
        let selector = rng.next_unit();
        let (_, was_reflected) = sample_refraction(selector, &d, &n, 98304);
        if was_reflected {
            reflected += 1;
        }
    }
    let freq = reflected as f64 / trials as f64;
    let analytic = 2621.0 / 65536.0;
    assert!((freq - analytic).abs() < 0.01, "frequency {} vs analytic {}", freq, analytic);
}

#[test]
fn total_internal_reflection_forces_reflect() {
    // Exiting glass at 45 degrees: eta^2 sin^2 = 2.25 * 0.5 > 1, so every
    // selector reflects.
    let d = v(46341, 0, 46341);
    let n = v(0, 0, ONE);
    let (_, reflected) = sample_refraction(65535, &d, &n, 98304);
    assert!(reflected);
}

#[test]
fn diffuse_sampling_mean_cosine() {
    // Cosine-weighted hemisphere sampling has mean cosine 2/3 against the
    // normal; check the Monte Carlo average within a loose tolerance.
    let n = v(0, 0, ONE);
    let mut rng = Rng::new(2024);
    let samples = 20000usize;
    let mut sum = 0.0f64;
    let mut used = 0usize;
    for _ in 0..samples {
        let dir = importance_sample_diffuse(&mut rng, &n);
        let len = ((dir.x as f64).powi(2) + (dir.y as f64).powi(2) + (dir.z as f64).powi(2)).sqrt();
        if len > 0.0 {
            sum += dir.z as f64 / len;
            used += 1;
        }
    }
    let mean = sum / used as f64;
    assert!((mean - 2.0 / 3.0).abs() < 0.02, "mean cosine {}", mean);
}

#[test]
fn diffuse_samples_stay_in_upper_hemisphere() {
    let n = v(0, 0, ONE);
    let mut rng = Rng::new(31);
    for _ in 0..2000 {
        let dir = importance_sample_diffuse(&mut rng, &n);
        // The construction adds a nonnegative multiple of the normal to two
        // tangent components; allow the rounding slack of the fixed frame.
        assert!(dir.z >= -256, "sample dipped below the surface: {:?}", dir);
    }
}

#[test]
fn samplers_are_deterministic_in_the_stream_state() {
    // The samplers are exact functions of (stream state, normal): equal
    // seeds give equal samples, and the stream advances identically.
    let n = v(17, -65536, 300);
    let mut a = Rng::new(9001);
    let mut b = Rng::new(9001);
    let da = importance_sample_diffuse(&mut a, &n);
    let db = importance_sample_diffuse(&mut b, &n);
    assert_eq!(da, db);
    assert_eq!(a.state, b.state);
    let ga = importance_sample_ggx(&mut a, &n, 3277);
    let gb = importance_sample_ggx(&mut b, &n, 3277);
    assert_eq!(ga, gb);
    assert_eq!(a.state, b.state);
    // A different state moves the diffuse sample.
    let mut c = Rng::new(9002);
    let dc = importance_sample_diffuse(&mut c, &n);
    assert_ne!(da, dc);
}
