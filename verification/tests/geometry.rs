use pathtracer::fx::{isqrt, fx_mul, saturate, frac_lt, floor_div_i128};
use pathtracer::vector::Vector3;
use pathtracer::slab::{Ray, intersect_aabb};
use pathtracer::scene::{Intersection, Sphere, Plane, Scene, SceneElement};
use pathtracer::material::{Material, SurfaceType};
use pathtracer::triangle::intersect_polygon;

fn v(x: i64, y: i64, z: i64) -> Vector3 {
    Vector3 { x, y, z }
}

fn diffuse_white() -> Material {
    Material {
        surface: SurfaceType::Diffuse,
        albedo: v(65536, 65536, 65536),
        emission: v(0, 0, 0),
        roughness: 0,
    }
}

#[test]
fn isqrt_exact_values() {
    assert_eq!(isqrt(0), 0);
    assert_eq!(isqrt(15), 3);
    assert_eq!(isqrt(16), 4);
    assert_eq!(isqrt(1_000_000_000_000), 1_000_000);
}

#[test]
fn fixed_point_scalars() {
    assert_eq!(fx_mul(65536, 65536), 65536);
    assert_eq!(fx_mul(32768, 32768), 16384);
    assert_eq!(saturate(-5), 0);
    assert_eq!(saturate(99999), 65536);
    assert_eq!(saturate(123), 123);
    assert!(frac_lt(1, 2, 2, 3));
    assert!(!frac_lt(2, 3, 1, 2));
    assert_eq!(floor_div_i128(-7, 2), -4);
    assert_eq!(floor_div_i128(7, 2), 3);
}

#[test]
fn slab_hit_box_in_front() {
    let lb = v(-1000, -1000, -1000);
    let rt = v(1000, 1000, 1000);
    let ray = Ray { origin: v(0, 0, -5000), direction: v(0, 0, 1000) };
    assert!(intersect_aabb(&lb, &rt, &ray));
}

#[test]
fn slab_miss_separating_axis() {
    let lb = v(-1000, -1000, -1000);
    let rt = v(1000, 1000, 1000);
    // The ray runs parallel to the x slab and starts outside it.
    let ray = Ray { origin: v(2000, 0, -5000), direction: v(0, 0, 1000) };
    assert!(!intersect_aabb(&lb, &rt, &ray));
}

#[test]
fn slab_axis_aligned_rays() {
    let lb = v(-1000, -1000, -1000);
    let rt = v(1000, 1000, 1000);
    // Axis-aligned with two zero components, box ahead: hit.
    let ahead = Ray { origin: v(0, 0, -5000), direction: v(0, 0, 1) };
    assert!(intersect_aabb(&lb, &rt, &ahead));
    // Box behind the origin: no hit.
    let behind = Ray { origin: v(0, 0, 5000), direction: v(0, 0, 1) };
    assert!(!intersect_aabb(&lb, &rt, &behind));
    // Origin strictly inside: part of the box lies behind, so the slab
    // criterion (entry parameter nonnegative) reports no hit.
    let inside = Ray { origin: v(0, 0, 0), direction: v(0, 0, 1) };
    assert!(!intersect_aabb(&lb, &rt, &inside));
}

#[test]
fn triangle_hit_distance_exact() {
    let v0 = v(-1000, -1000, 0);
    let v1 = v(3000, -1000, 0);
    let v2 = v(-1000, 3000, 0);
    let ray = Ray { origin: v(100, 100, -1000), direction: v(0, 0, 100) };
    let mut rec = Intersection::new();
    let hit = intersect_polygon(&v0, &v1, &v2, &ray, &mut rec);
    assert!(hit);
    assert!(rec.hit);
    // The hit parameter is exactly 10 (= 1000 / 100) as a fraction.
    assert_eq!(rec.t_num * 1, 10 * rec.t_den);
    assert_eq!(rec.position, v(100, 100, 0));
}

#[test]
fn triangle_behind_origin_misses() {
    let v0 = v(-1000, -1000, 0);
    let v1 = v(3000, -1000, 0);
    let v2 = v(-1000, 3000, 0);
    let ray = Ray { origin: v(100, 100, 1000), direction: v(0, 0, 100) };
    let mut rec = Intersection::new();
    assert!(!intersect_polygon(&v0, &v1, &v2, &ray, &mut rec));
    assert!(!rec.hit);
}

#[test]
fn triangle_only_closer_hit_updates() {
    let near0 = v(-1000, -1000, 0);
    let near1 = v(3000, -1000, 0);
    let near2 = v(-1000, 3000, 0);
    let far0 = v(-1000, -1000, 500);
    let far1 = v(3000, -1000, 500);
    let far2 = v(-1000, 3000, 500);
    let ray = Ray { origin: v(100, 100, -1000), direction: v(0, 0, 100) };
    let mut rec = Intersection::new();
    assert!(intersect_polygon(&near0, &near1, &near2, &ray, &mut rec));
    let near_t = (rec.t_num, rec.t_den);
    // The farther triangle does not replace a strictly closer record.
    assert!(!intersect_polygon(&far0, &far1, &far2, &ray, &mut rec));
    assert_eq!((rec.t_num, rec.t_den), near_t);
}

#[test]
fn sphere_hit_exact_near_root() {
    let sphere = Sphere { center: v(0, 0, 0), radius: 1000, material: diffuse_white() };
    let ray = Ray { origin: v(0, 0, -5000), direction: v(0, 0, 1000) };
    let mut rec = Intersection::new();
    sphere.intersect(&ray, &mut rec);
    assert!(rec.hit);
    // aa = 10^6, bb = -5*10^6, disc = 10^12, so t = 4 exactly.
    assert_eq!(rec.t_num, 4_000_000);
    assert_eq!(rec.t_den, 1_000_000);
    assert_eq!(rec.position, v(0, 0, -1000));
    assert_eq!(rec.normal, v(0, 0, -1000));
}

#[test]
fn sphere_from_inside_misses_near_root() {
    let sphere = Sphere { center: v(0, 0, 0), radius: 1000, material: diffuse_white() };
    let ray = Ray { origin: v(0, 0, 0), direction: v(0, 0, 1000) };
    let mut rec = Intersection::new();
    sphere.intersect(&ray, &mut rec);
    // The near root is behind the origin; the record stays empty.
    assert!(!rec.hit);
}

#[test]
fn plane_hit_exact() {
    let plane = Plane { center: v(0, 0, 0), normal: v(0, 1000, 0), material: diffuse_white() };
    let ray = Ray { origin: v(0, 500, 0), direction: v(0, -100, 0) };
    let mut rec = Intersection::new();
    plane.intersect(&ray, &mut rec);
    assert!(rec.hit);
    // t = 5 exactly.
    assert_eq!(rec.t_num * 1, 5 * rec.t_den);
    assert_eq!(rec.normal, v(0, 1000, 0));
}

#[test]
fn scene_scan_keeps_nearest() {
    let near = Sphere { center: v(0, 0, 0), radius: 500, material: diffuse_white() };
    let mut far_mat = diffuse_white();
    far_mat.emission = v(100, 200, 300);
    let far = Sphere { center: v(0, 0, 4000), radius: 500, material: far_mat };
    let scene = Scene {
        elements: vec![
            SceneElement::Sphere(far),
            SceneElement::Sphere(near),
        ],
        env_emission: v(0, 0, 0),
    };
    let ray = Ray { origin: v(0, 0, -5000), direction: v(0, 0, 1000) };
    let rec = scene.intersect(&ray);
    assert!(rec.hit);
    // The nearer sphere's surface is at z = -500, hence t = 4.5.
    assert_eq!(rec.t_num * 10, 45 * rec.t_den);
    assert_eq!(rec.material.emission, v(0, 0, 0));
}

#[test]
fn scene_miss_carries_env_emission() {
    let scene = Scene {
        elements: vec![],
        env_emission: v(11, 22, 33),
    };
    let ray = Ray { origin: v(0, 0, 0), direction: v(0, 0, 1000) };
    let rec = scene.intersect(&ray);
    assert!(!rec.hit);
    assert_eq!(rec.material.emission, v(11, 22, 33));
}
