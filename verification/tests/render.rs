use pathtracer::color::{color_to_bytes, bytes_to_color, color_mul, color_add, color_to_rgb, COL_LIM};
use pathtracer::material::{Material, SurfaceType};
use pathtracer::renderer::{
    trace_path, calc_pixel, PathTracingRenderer, DebugRenderer, DebugRenderMode,
};
use pathtracer::rng::Rng;
use pathtracer::scene::{Scene, SceneElement, Sphere};
use pathtracer::slab::Ray;
use pathtracer::vector::Vector3;

fn v(x: i64, y: i64, z: i64) -> Vector3 {
    Vector3 { x, y, z }
}

const ONE: i64 = 65536;

fn diffuse(albedo: Vector3, emission: Vector3) -> Material {
    Material {
        surface: SurfaceType::Diffuse,
        albedo,
        emission,
        roughness: 3277,
    }
}

/// A unit-ish white sphere at the origin under a broad emissive sphere,
/// with no environment emission.
fn lit_sphere_scene() -> Scene {
    Scene {
        elements: vec![
            SceneElement::Sphere(Sphere {
                center: v(0, 0, 0),
                radius: 30000,
                material: diffuse(v(ONE, ONE, ONE), v(0, 0, 0)),
            }),
            SceneElement::Sphere(Sphere {
                center: v(0, 60000, 0),
                radius: 25000,
                material: diffuse(v(0, 0, 0), v(20 * ONE, 20 * ONE, 20 * ONE)),
            }),
        ],
        env_emission: v(0, 0, 0),
    }
}

#[test]
fn color_channel_quantization() {
    assert_eq!(color_to_bytes(&v(0, 32768, ONE)), (0, 127, 255));
    // Values outside the unit interval clamp.
    assert_eq!(color_to_bytes(&v(-100, 2 * ONE, ONE / 2)), (0, 255, 127));
    let c = bytes_to_color(255, 0, 127);
    assert_eq!(c.x, ONE);
    assert_eq!(c.y, 0);
    assert_eq!(c.z, 127 * ONE / 255);
}

#[test]
fn color_to_rgb_quantizes_like_color_to_bytes() {
    let px = color_to_rgb(v(0, 32768, ONE));
    assert_eq!(px.0, [0u8, 127u8, 255u8]);
}

#[test]
fn color_algebra_saturates() {
    let big = v(COL_LIM, COL_LIM, COL_LIM);
    let sum = color_add(&big, &big);
    assert_eq!(sum, big);
    let prod = color_mul(&big, &big);
    assert_eq!(prod, big);
    let half = v(32768, 32768, 32768);
    assert_eq!(color_mul(&half, &half), v(16384, 16384, 16384));
}

#[test]
fn background_pixels_are_exactly_zero() {
    let scene = lit_sphere_scene();
    // A ray pointing away from all geometry.
    let ray = Ray { origin: v(0, 0, -120000), direction: v(0, -30000, -65536) };
    let mut rng = Rng::new(1);
    let radiance = trace_path(&scene, &ray, &mut rng, 8);
    assert_eq!(radiance, v(0, 0, 0));
}

#[test]
fn emissive_sphere_is_seen_directly() {
    let scene = lit_sphere_scene();
    let ray = Ray { origin: v(0, 0, -120000), direction: v(0, 33000, 65536) };
    let mut rng = Rng::new(1);
    let radiance = trace_path(&scene, &ray, &mut rng, 8);
    assert!(radiance.x > 0 && radiance.y > 0 && radiance.z > 0);
}

#[test]
fn lit_hemisphere_scenario() {
    // A small raster: rays that miss everything are exactly black, and a
    // pixel on the sphere's lit top picks up light from the source above.
    let scene = lit_sphere_scene();
    let origin = v(0, 0, -120000);

    let mut background = Vec::new();
    background.push(Ray { origin, direction: v(-65536, -65536, 65536) });
    let bg = calc_pixel(&scene, &background, 9, 8);
    assert_eq!(bg, v(0, 0, 0));

    // Many samples through one pixel looking at the top of the sphere.
    let mut top_pixel = Vec::new();
    for _ in 0..64 {
        top_pixel.push(Ray { origin, direction: v(0, 14000, 65536) });
    }
    let lit = calc_pixel(&scene, &top_pixel, 12345, 8);
    assert!(
        lit.x > 0 && lit.y > 0 && lit.z > 0,
        "top of the lit sphere stayed dark: {:?}",
        lit
    );

    // A full low-resolution raster does not panic and keeps the corner dark.
    let mut dark_corners = true;
    for yi in 0..16i64 {
        for xi in 0..16i64 {
            let dir = v((xi - 8) * 8192, (yi - 8) * 8192, 65536);
            let rays = vec![Ray { origin, direction: dir }; 4];
            let c = calc_pixel(&scene, &rays, (yi * 16 + xi) as u64, 8);
            if (xi == 0 && yi == 0) && c != v(0, 0, 0) {
                dark_corners = false;
            }
        }
    }
    assert!(dark_corners);
}

#[test]
fn progress_decisions_follow_the_clock() {
    let mut renderer = PathTracingRenderer::new(16, 1_000);
    // Within budget and interval: keep rendering.
    let act = renderer.report_progress(0, 16, 1_500, 10_000, 2_000);
    assert!(!act.save_snapshot && !act.abort && !act.finished);
    assert_eq!(renderer.report_image_counter, 0);
    // Interval passed: snapshot, still within budget.
    let act = renderer.report_progress(1, 16, 3_200, 10_000, 2_000);
    assert!(act.save_snapshot && !act.abort && !act.finished);
    assert_eq!(renderer.report_image_counter, 1);
    assert_eq!(renderer.last_report_image_ms, 3_200);
    // Last row reached.
    let act = renderer.report_progress(15, 16, 4_000, 10_000, 2_000);
    assert!(act.finished);
}

#[test]
fn time_budget_cuts_the_render_short() {
    // Simulated driver loop: one clock tick per row, a budget of three
    // ticks. The run must stop before all rows are done, right after a
    // snapshot-and-abort decision.
    let height = 16u32;
    let mut renderer = PathTracingRenderer::new(16, 0);
    let mut rows_done = 0u32;
    let mut aborted = false;
    let mut snapshots = 0u32;
    for y in 0..height {
        rows_done += 1;
        let now = (y as u64 + 1) * 1_000;
        let act = renderer.report_progress(y, height, now, 3_000, 1_000);
        if act.save_snapshot {
            snapshots += 1;
        }
        if act.abort {
            aborted = true;
            break;
        }
    }
    assert!(aborted);
    assert!(rows_done < height);
    assert_eq!(rows_done, 3);
    assert!(snapshots > 0);
}

#[test]
fn debug_depth_modes() {
    let scene = lit_sphere_scene();
    let ray = Ray { origin: v(0, 0, -120000), direction: v(0, 0, 65536) };
    let depth = DebugRenderer { mode: DebugRenderMode::Depth };
    let c = depth.calc_pixel(&scene, &ray, 90000);
    // The sphere surface is 90000 units away at t ~ 1.37; depth = t/(2f).
    assert!(c.x > 0 && c.x == c.y && c.y == c.z);
    let normal_mode = DebugRenderer { mode: DebugRenderMode::Normal };
    let n = normal_mode.calc_pixel(&scene, &ray, 90000);
    // Front of the sphere faces the camera.
    assert!(n.z < 0);
    let miss = Ray { origin: v(0, 0, -120000), direction: v(0, -65536, -65536) };
    let m = normal_mode.calc_pixel(&scene, &miss, 90000);
    assert_eq!(m, v(0, 0, 0));
}

#[test]
fn rough_surfaces_render_without_surprises() {
    // Exercise the GGX and rough-dielectric scattering arms: finite,
    // nonnegative radiance on a mixed scene.
    let scene = Scene {
        elements: vec![
            SceneElement::Sphere(Sphere {
                center: v(-40000, 0, 0),
                radius: 30000,
                material: Material {
                    surface: SurfaceType::GGX { f0: 52429 },
                    albedo: v(ONE, 42598, 42598),
                    emission: v(0, 0, 0),
                    roughness: 6554,
                },
            }),
            SceneElement::Sphere(Sphere {
                center: v(40000, 0, 0),
                radius: 30000,
                material: Material {
                    surface: SurfaceType::GGXRefraction { refractive_index: 98304, f0: 52429 },
                    albedo: v(62259, 62259, ONE),
                    emission: v(0, 0, 0),
                    roughness: 6554,
                },
            }),
            SceneElement::Sphere(Sphere {
                center: v(0, 70000, 0),
                radius: 25000,
                material: diffuse(v(0, 0, 0), v(10 * ONE, 10 * ONE, 10 * ONE)),
            }),
            SceneElement::Sphere(Sphere {
                center: v(0, 0, 0),
                radius: 20000,
                material: Material {
                    surface: SurfaceType::Specular,
                    albedo: v(62259, 62259, 62259),
                    emission: v(0, 0, 0),
                    roughness: 0,
                },
            }),
        ],
        env_emission: v(655, 655, 655),
    };
    let origin = v(0, 0, -120000);
    let mut rng = Rng::new(5);
    for k in 0..40i64 {
        let dir = v((k % 8 - 4) * 12000, (k / 8 - 2) * 12000, 65536);
        let radiance = trace_path(&scene, &Ray { origin, direction: dir }, &mut rng, 8);
        assert!(radiance.x >= 0 && radiance.y >= 0 && radiance.z >= 0);
        assert!(radiance.x <= COL_LIM && radiance.y <= COL_LIM && radiance.z <= COL_LIM);
    }
}
