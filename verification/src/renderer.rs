//! The path-tracing integrator and the render driver's bookkeeping.
//!
//! Each light path alternates a scene query with a scattering step until
//! the ray escapes or the bounce cap is reached; emitted light is weighted
//! by the running throughput. The driver-side logic here is pure: wall
//! clock readings and image writes stay with the caller, which feeds the
//! elapsed times in and acts on the returned decisions.

use vstd::prelude::*;
use crate::bsdf::{
    reflect, reflect_spec, sample_refraction, refraction_sample_spec, normalize_fx,
    normalize_spec, importance_sample_diffuse, diffuse_sample_spec, importance_sample_ggx,
    ggx_sample_spec, roughness_to_alpha2, alpha2_spec, f_schlick, f_schlick_spec,
    g_smith_joint, g_smith_joint_spec, ggx_weight, ggx_weight_spec, sat_unit, disk_point,
    half_unit_spec, shrink_spec,
};
use crate::fx::fx_mul_spec;
use crate::rng::{rng_next_state, rng_output};
use crate::color::{Color, color_wf, color_add, color_mul, color_scale_down, color_mul_spec, COL_LIM};
use crate::fx::{fx_mul, saturate, floor_div_i128, FX_ONE};
use crate::material::SurfaceType;
use crate::rng::Rng;
use crate::scene::{Scene, scene_wf, scene_front, scene_hit_spec};
use crate::slab::Ray;
use crate::slab::ray_wf;
use crate::vector::{Vector3, vec_bounded, dot_spec, DMAX, OMAX};

verus! {

/// Clamp a direction to the ray grid; a nonzero input stays nonzero.
fn clamp_to_ray_dir(v: &Vector3) -> (r: Vector3)
    ensures
        vec_bounded(r, DMAX as int),
        r.x == 0 ==> v.x == 0,
        r.y == 0 ==> v.y == 0,
        r.z == 0 ==> v.z == 0,
{
    Vector3 {
        x: if v.x < -DMAX { -DMAX } else if v.x > DMAX { DMAX } else { v.x },
        y: if v.y < -DMAX { -DMAX } else if v.y > DMAX { DMAX } else { v.y },
        z: if v.z < -DMAX { -DMAX } else if v.z > DMAX { DMAX } else { v.z },
    }
}

/// The full-strength throughput at the start of a path.
fn color_one() -> (r: Color)
    ensures
        r == (Vector3 { x: 65536i64, y: 65536i64, z: 65536i64 }),
        color_wf(r),
{
    Vector3 { x: FX_ONE, y: FX_ONE, z: FX_ONE }
}

/// Filtering light through a full-strength throughput changes nothing.
proof fn lemma_mul_one(e: Color)
    requires
        color_wf(e),
    ensures
        color_mul_spec(Vector3 { x: 65536i64, y: 65536i64, z: 65536i64 }, e) == e,
{
    assert(65536int * e.x == e.x * 65536) by (nonlinear_arith);
    assert(65536int * e.y == e.y * 65536) by (nonlinear_arith);
    assert(65536int * e.z == e.z * 65536) by (nonlinear_arith);
    vstd::arithmetic::div_mod::lemma_div_by_multiple(e.x as int, 65536);
    vstd::arithmetic::div_mod::lemma_div_by_multiple(e.y as int, 65536);
    vstd::arithmetic::div_mod::lemma_div_by_multiple(e.z as int, 65536);
}

/// Build the next bounce ray at the hit point, nudged off the surface
/// along the (unit-scale) normal; reports whether the point still lies on
/// the ray grid.
fn next_ray_origin(position: &Vector3, unit_normal: &Vector3) -> (r: (Vector3, bool))
    requires
        vec_bounded(*position, 0x2000_0000_0000),
        vec_bounded(*unit_normal, 8 * FX_ONE as int),
    ensures
        r.1 ==> vec_bounded(r.0, OMAX as int),
{
    let ox = position.x + floor_div_i128(unit_normal.x as i128, 16) as i64;
    let oy = position.y + floor_div_i128(unit_normal.y as i128, 16) as i64;
    let oz = position.z + floor_div_i128(unit_normal.z as i128, 16) as i64;
    let inside = -OMAX <= ox && ox <= OMAX
        && -OMAX <= oy && oy <= OMAX
        && -OMAX <= oz && oz <= OMAX;
    (Vector3 { x: ox, y: oy, z: oz }, inside)
}

/// The microfacet bounce direction of the rough-reflection arm: the view
/// direction reflected about the sampled half vector.
pub open spec fn ggx_next_spec(state: u64, raw_normal: Vector3, roughness: i64, unit_d: Vector3)
    -> Vector3 {
    reflect_spec(unit_d, ggx_sample_spec(state, raw_normal, alpha2_spec(roughness as int) as i64))
}

/// The rough-reflection arm's reflectance for one bounce: zero when the
/// sampled direction fell below the hemisphere (the preserved darkening
/// bias), else the albedo weighted by the Fresnel-masked importance
/// weight `f * g * (v.h) / max(h.n * v.n, eps)` over the saturated dots.
pub open spec fn ggx_albedo_spec(
    state: u64, raw_normal: Vector3, roughness: i64, f0: i64,
    albedo0: Color, unit_d: Vector3, unit_n: Vector3,
) -> Color {
    let half = ggx_sample_spec(state, raw_normal, alpha2_spec(roughness as int) as i64);
    let next = reflect_spec(unit_d, half);
    if dot_spec(unit_n, next) <= 0 {
        Vector3 { x: 0i64, y: 0i64, z: 0i64 }
    } else {
        let view = Vector3 {
            x: (-unit_d.x) as i64, y: (-unit_d.y) as i64, z: (-unit_d.z) as i64,
        };
        let shrunk = shrink_spec(next);
        let unit_next = if shrunk.x == 0 && shrunk.y == 0 && shrunk.z == 0 {
            unit_n
        } else {
            normalize_spec(shrunk)
        };
        let hu = half_unit_spec(half, unit_n);
        let vn = sat_unit(dot_spec(view, unit_n) / (FX_ONE as int));
        let ln = sat_unit(dot_spec(unit_next, unit_n) / (FX_ONE as int));
        let vh = sat_unit(dot_spec(view, hu) / (FX_ONE as int));
        let hn = sat_unit(dot_spec(hu, unit_n) / (FX_ONE as int));
        let alpha = fx_mul_spec(roughness as int, roughness as int);
        let g = g_smith_joint_spec(ln, vn, alpha);
        let f = f_schlick_spec(vh, sat_unit(f0 as int));
        let w = ggx_weight_spec(f, g, vh, hn, vn);
        Vector3 {
            x: fx_mul_spec(sat_unit(albedo0.x as int), w) as i64,
            y: fx_mul_spec(sat_unit(albedo0.y as int), w) as i64,
            z: fx_mul_spec(sat_unit(albedo0.z as int), w) as i64,
        }
    }
}

/// The rough-dielectric arm's direction: the dielectric sample taken with
/// the GGX half vector in place of the shading normal, using the draw that
/// follows the half-vector sampling as the Fresnel selector.
pub open spec fn ggx_refraction_dir_spec(
    state: u64, raw_normal: Vector3, roughness: i64, ior: i64, unit_d: Vector3,
) -> Vector3 {
    let half = ggx_sample_spec(state, raw_normal, alpha2_spec(roughness as int) as i64);
    let after_half = disk_point(rng_next_state(state), 64).2;
    let sel = (rng_output(after_half) >> 48) as i64;
    refraction_sample_spec(sel, unit_d, half, ior).0
}

/// One scattering event: from the surface type, the unit-scale incoming
/// direction and shading normal, and the raw surface normal, produce the
/// (unnormalized) outgoing direction and the reflectance that multiplies
/// the path throughput for this bounce, drawing from the stream what the
/// surface type calls for. Each arm's outcome is pinned to its sampling
/// rule; the mirror arm is deterministic.
pub fn scatter(
    surface: SurfaceType,
    albedo0: &Color,
    roughness: i64,
    raw_normal: &Vector3,
    unit_d: &Vector3,
    unit_n: &Vector3,
    rng: &mut Rng,
) -> (r: (Vector3, Color))
    requires
        color_wf(*albedo0),
        0 <= roughness <= FX_ONE,
        vec_bounded(*raw_normal, 0x80_0000_0000_0000),
        !(raw_normal.x == 0 && raw_normal.y == 0 && raw_normal.z == 0),
        vec_bounded(*unit_d, 8 * FX_ONE as int),
        vec_bounded(*unit_n, 8 * FX_ONE as int),
        match surface {
            SurfaceType::Refraction { refractive_index } =>
                FX_ONE / 2 <= refractive_index <= 8 * FX_ONE,
            SurfaceType::GGXRefraction { refractive_index, f0 } =>
                FX_ONE / 2 <= refractive_index <= 8 * FX_ONE,
            _ => true,
        },
    ensures
        vec_bounded(r.0, 0x4000_0000_0000_0000),
        color_wf(r.1),
        match surface {
            SurfaceType::Diffuse =>
                r.0 == diffuse_sample_spec(old(rng).state, *raw_normal) && r.1 == *albedo0,
            SurfaceType::Specular =>
                r.0 == reflect_spec(*unit_d, *unit_n) && r.1 == *albedo0,
            SurfaceType::Refraction { refractive_index } => {
                &&& r.0 == refraction_sample_spec(
                    (rng_output(old(rng).state) >> 48) as i64,
                    *unit_d, *unit_n, refractive_index).0
                &&& r.1 == *albedo0
            },
            SurfaceType::GGX { f0 } => {
                &&& r.0 == ggx_next_spec(old(rng).state, *raw_normal, roughness, *unit_d)
                &&& r.1 == ggx_albedo_spec(old(rng).state, *raw_normal, roughness, f0,
                        *albedo0, *unit_d, *unit_n)
            },
            SurfaceType::GGXRefraction { refractive_index, f0 } => {
                &&& r.0 == ggx_refraction_dir_spec(old(rng).state, *raw_normal, roughness,
                        refractive_index, *unit_d)
                &&& r.1 == *albedo0
            },
        },
{
    match surface {
        SurfaceType::Diffuse => (importance_sample_diffuse(rng, raw_normal), *albedo0),
        SurfaceType::Specular => (reflect(unit_d, unit_n), *albedo0),
        SurfaceType::Refraction { refractive_index } => {
            let selector = rng.next_unit();
            let (dir, _reflected) = sample_refraction(selector, unit_d, unit_n, refractive_index);
            (dir, *albedo0)
        },
        SurfaceType::GGX { f0 } => scatter_ggx(f0, albedo0, roughness, raw_normal, unit_d, unit_n, rng),
        SurfaceType::GGXRefraction { refractive_index, f0: _ } =>
            scatter_ggx_refraction(refractive_index, albedo0, roughness, raw_normal, unit_d, rng),
    }
}

/// The rough-reflection scattering event, pinned to `ggx_next_spec` and
/// `ggx_albedo_spec`.
#[verifier::rlimit(60)]
fn scatter_ggx(
    f0: i64,
    albedo0: &Color,
    roughness: i64,
    raw_normal: &Vector3,
    unit_d: &Vector3,
    unit_n: &Vector3,
    rng: &mut Rng,
) -> (r: (Vector3, Color))
    requires
        color_wf(*albedo0),
        0 <= roughness <= FX_ONE,
        vec_bounded(*raw_normal, 0x80_0000_0000_0000),
        !(raw_normal.x == 0 && raw_normal.y == 0 && raw_normal.z == 0),
        vec_bounded(*unit_d, 8 * FX_ONE as int),
        vec_bounded(*unit_n, 8 * FX_ONE as int),
    ensures
        vec_bounded(r.0, 0x4000_0000_0000_0000),
        color_wf(r.1),
        r.0 == ggx_next_spec(old(rng).state, *raw_normal, roughness, *unit_d),
        r.1 == ggx_albedo_spec(old(rng).state, *raw_normal, roughness, f0,
            *albedo0, *unit_d, *unit_n),
{
    let alpha2 = roughness_to_alpha2(roughness);
    let half = importance_sample_ggx(rng, raw_normal, alpha2);
    let next = reflect(unit_d, &half);
    proof {
        crate::fx::lemma_mul_bounds(unit_n.x as int, next.x as int,
            524288, 0x4000_0000_0000_0000);
        crate::fx::lemma_mul_bounds(unit_n.y as int, next.y as int,
            524288, 0x4000_0000_0000_0000);
        crate::fx::lemma_mul_bounds(unit_n.z as int, next.z as int,
            524288, 0x4000_0000_0000_0000);
    }
    let up: i128 = (unit_n.x as i128) * (next.x as i128)
        + (unit_n.y as i128) * (next.y as i128)
        + (unit_n.z as i128) * (next.z as i128);
    if up <= 0 {
        // Sample fell below the hemisphere: zero the surface's
        // reflectance for this bounce (accepted darkening bias).
        (next, Vector3 { x: 0, y: 0, z: 0 })
    } else {
        let view = unit_d.neg();
        let shrunk = shrink_for_norm(&next);
        let unit_next = if shrunk.x == 0 && shrunk.y == 0 && shrunk.z == 0 {
            *unit_n
        } else {
            normalize_fx(&shrunk)
        };
        let vn = saturate(dot_fx(&view, unit_n));
        let ln = saturate(dot_fx(&unit_next, unit_n));
        let vh = saturate(dot_fx(&view, &half_unit(&half, unit_n)));
        let hn = saturate(dot_fx(&half_unit(&half, unit_n), unit_n));
        proof {
            crate::bsdf::lemma_unit_mul(roughness as int, roughness as int);
        }
        let alpha = fx_mul(roughness, roughness);
        let g = g_smith_joint(ln, vn, alpha);
        let fx0 = saturate(f0);
        let f = f_schlick(vh, fx0);
        let w = ggx_weight(f, g, vh, hn, vn);
        proof {
            crate::bsdf::lemma_unit_mul(sat_unit(albedo0.x as int), w as int);
            crate::bsdf::lemma_unit_mul(sat_unit(albedo0.y as int), w as int);
            crate::bsdf::lemma_unit_mul(sat_unit(albedo0.z as int), w as int);
        }
        let weighted = Vector3 {
            x: fx_mul(saturate(albedo0.x), w),
            y: fx_mul(saturate(albedo0.y), w),
            z: fx_mul(saturate(albedo0.z), w),
        };
        (next, weighted)
    }
}

/// The rough-dielectric scattering event, pinned to
/// `ggx_refraction_dir_spec`.
fn scatter_ggx_refraction(
    refractive_index: i64,
    albedo0: &Color,
    roughness: i64,
    raw_normal: &Vector3,
    unit_d: &Vector3,
    rng: &mut Rng,
) -> (r: (Vector3, Color))
    requires
        color_wf(*albedo0),
        0 <= roughness <= FX_ONE,
        vec_bounded(*raw_normal, 0x80_0000_0000_0000),
        !(raw_normal.x == 0 && raw_normal.y == 0 && raw_normal.z == 0),
        vec_bounded(*unit_d, 8 * FX_ONE as int),
        FX_ONE / 2 <= refractive_index <= 8 * FX_ONE,
    ensures
        vec_bounded(r.0, 0x4000_0000_0000_0000),
        color_wf(r.1),
        r.0 == ggx_refraction_dir_spec(old(rng).state, *raw_normal, roughness,
            refractive_index, *unit_d),
        r.1 == *albedo0,
{
    let alpha2 = roughness_to_alpha2(roughness);
    let half = importance_sample_ggx(rng, raw_normal, alpha2);
    let selector = rng.next_unit();
    let (dir, _reflected) = sample_refraction(selector, unit_d, &half, refractive_index);
    (dir, *albedo0)
}

/// Trace one light path: intersect, add the throughput-weighted emission,
/// scatter by the surface type, and continue until the ray escapes the
/// scene (or the bounded stage) or the bounce cap is reached. A path whose
/// very first ray misses everything carries exactly the scene's
/// environment emission.
pub fn trace_path(scene: &Scene, ray0: &Ray, rng: &mut Rng, bounce_limit: u32) -> (radiance: Color)
    requires
        scene_wf(*scene),
        ray_wf(*ray0),
        bounce_limit >= 1,
    ensures
        color_wf(radiance),
        scene_front(scene.elements@, *ray0) && !scene_hit_spec(*scene, *ray0).hit ==>
            radiance == scene.env_emission,
        scene_front(scene.elements@, *ray0) && scene_hit_spec(*scene, *ray0).hit ==> {
            let e = scene_hit_spec(*scene, *ray0).material.emission;
            radiance.x >= e.x && radiance.y >= e.y && radiance.z >= e.z
        },
{
    let mut ray = *ray0;
    let mut accumulation = Vector3 { x: 0i64, y: 0i64, z: 0i64 };
    let mut reflection = color_one();
    let ghost first_ray = *ray0;

    let mut bounce: u32 = 0;
    let mut first = true;
    while bounce < bounce_limit
        invariant
            first_ray == *ray0,
            scene_wf(*scene),
            ray_wf(ray),
            color_wf(accumulation),
            color_wf(reflection),
            first ==> bounce == 0 && ray == first_ray
                && accumulation == (Vector3 { x: 0i64, y: 0i64, z: 0i64 })
                && reflection == (Vector3 { x: 65536i64, y: 65536i64, z: 65536i64 }),
            bounce <= bounce_limit,
            !first ==> !(scene_front(scene.elements@, first_ray)
                && !scene_hit_spec(*scene, first_ray).hit),
            !first && scene_front(scene.elements@, first_ray)
                && scene_hit_spec(*scene, first_ray).hit ==> {
                let e = scene_hit_spec(*scene, first_ray).material.emission;
                accumulation.x >= e.x && accumulation.y >= e.y && accumulation.z >= e.z
            },
        decreases bounce_limit - bounce,
    {
        let intersection = scene.intersect(&ray);
        if !intersection.hit {
            // Escaped: the record carries the environment emission.
            let contribution = color_mul(&reflection, &intersection.material.emission);
            proof {
                if first {
                    lemma_mul_one(intersection.material.emission);
                }
            }
            return color_add(&accumulation, &contribution);
        }
        proof {
            if first && scene_front(scene.elements@, first_ray) {
                assert(scene_hit_spec(*scene, first_ray).hit);
                assert(intersection == scene_hit_spec(*scene, first_ray));
                lemma_mul_one(intersection.material.emission);
            }
        }
        first = false;

        // Emitted light, weighted by the throughput so far.
        accumulation = color_add(&accumulation, &color_mul(&reflection, &intersection.material.emission));

        // Scatter. A degenerate normal or a hit point off the bounded
        // stage ends the path.
        if intersection.normal.x == 0 && intersection.normal.y == 0 && intersection.normal.z == 0 {
            return accumulation;
        }
        let unit_n = normalize_fx(&intersection.normal);
        let (origin, origin_ok) = next_ray_origin(&intersection.position, &unit_n);
        if !origin_ok {
            return accumulation;
        }
        let unit_d = normalize_fx(&ray.direction);

        let (next_dir, albedo) = scatter(
            intersection.material.surface,
            &intersection.material.albedo,
            intersection.material.roughness,
            &intersection.normal,
            &unit_d,
            &unit_n,
            rng,
        );

        reflection = color_mul(&reflection, &albedo);
        let dir = clamp_to_ray_dir(&next_dir);
        if dir.x == 0 && dir.y == 0 && dir.z == 0 {
            return accumulation;
        }
        ray = Ray { origin, direction: dir };
        bounce += 1;
    }
    accumulation
}

/// Unit-scale dot product of two roughly unit directions, in fixed point.
fn dot_fx(a: &Vector3, b: &Vector3) -> (r: i64)
    requires
        vec_bounded(*a, 8 * FX_ONE as int),
        vec_bounded(*b, 8 * FX_ONE as int),
    ensures
        r == dot_spec(*a, *b) / (FX_ONE as int),
{
    proof {
        crate::fx::lemma_mul_bounds(a.x as int, b.x as int, 524288, 524288);
        crate::fx::lemma_mul_bounds(a.y as int, b.y as int, 524288, 524288);
        crate::fx::lemma_mul_bounds(a.z as int, b.z as int, 524288, 524288);
    }
    let p: i128 = (a.x as i128) * (b.x as i128)
        + (a.y as i128) * (b.y as i128)
        + (a.z as i128) * (b.z as i128);
    floor_div_i128(p, FX_ONE as i128) as i64
}

/// Clamp a long intermediate direction into the normalizer's input range;
/// a nonzero component never collapses to zero.
fn shrink_for_norm(v: &Vector3) -> (r: Vector3)
    ensures
        vec_bounded(r, 0x80_0000_0000_0000),
        r == shrink_spec(*v),
        r.x == 0 ==> v.x == 0,
        r.y == 0 ==> v.y == 0,
        r.z == 0 ==> v.z == 0,
{
    let lim: i64 = 0x80_0000_0000_0000;
    Vector3 {
        x: if v.x < -lim { -lim } else if v.x > lim { lim } else { v.x },
        y: if v.y < -lim { -lim } else if v.y > lim { lim } else { v.y },
        z: if v.z < -lim { -lim } else if v.z > lim { lim } else { v.z },
    }
}

/// A half vector on the unit scale; a degenerate one falls back to the
/// shading normal.
fn half_unit(half: &Vector3, unit_n: &Vector3) -> (r: Vector3)
    requires
        vec_bounded(*half, 8 * FX_ONE as int),
        vec_bounded(*unit_n, 8 * FX_ONE as int),
    ensures
        vec_bounded(r, 8 * FX_ONE as int),
        r == half_unit_spec(*half, *unit_n),
{
    if half.x == 0 && half.y == 0 && half.z == 0 {
        *unit_n
    } else {
        normalize_fx(half)
    }
}

/// Saturating sum of `n` copies of the channel value `e`: what the sample
/// accumulator holds after `n` equal contributions.
pub open spec fn sat_repeat(e: int, n: int) -> int {
    if n * e > COL_LIM as int { COL_LIM as int } else { n * e }
}

/// Radiance of one pixel sample position: the average of `sampling`
/// independent paths, all started from the given camera rays (one per
/// sample). When every ray escapes the scene, the result is exactly the
/// floor-average of the accumulated environment emission; in particular a
/// pixel whose rays all escape an emission-free scene is exactly black.
pub fn calc_pixel(scene: &Scene, rays: &Vec<Ray>, seed: u64, bounce_limit: u32) -> (c: Color)
    requires
        scene_wf(*scene),
        forall |i: int| 0 <= i < rays@.len() ==> ray_wf(#[trigger] rays@[i]),
        bounce_limit >= 1,
        rays@.len() < 0x1_0000_0000,
    ensures
        color_wf(c),
        (rays@.len() > 0
            && (forall |i: int| 0 <= i < rays@.len() ==>
                scene_front(scene.elements@, #[trigger] rays@[i])
                    && !scene_hit_spec(*scene, rays@[i]).hit))
            ==> {
                let n = rays@.len() as int;
                &&& c.x == sat_repeat(scene.env_emission.x as int, n) / n
                &&& c.y == sat_repeat(scene.env_emission.y as int, n) / n
                &&& c.z == sat_repeat(scene.env_emission.z as int, n) / n
            },
        (rays@.len() > 0
            && scene.env_emission == (Vector3 { x: 0i64, y: 0i64, z: 0i64 })
            && (forall |i: int| 0 <= i < rays@.len() ==>
                scene_front(scene.elements@, #[trigger] rays@[i])
                    && !scene_hit_spec(*scene, rays@[i]).hit))
            ==> c == (Vector3 { x: 0i64, y: 0i64, z: 0i64 }),
{
    let mut rng = Rng::new(seed);
    let mut acc = Vector3 { x: 0i64, y: 0i64, z: 0i64 };
    let n = rays.len();
    if n == 0 {
        return acc;
    }
    let mut i: usize = 0;
    while i < n
        invariant
            n == rays@.len(),
            0 <= i <= n,
            scene_wf(*scene),
            bounce_limit >= 1,
            forall |k: int| 0 <= k < rays@.len() ==> ray_wf(#[trigger] rays@[k]),
            color_wf(acc),
            (forall |k: int| 0 <= k < rays@.len() ==>
                scene_front(scene.elements@, #[trigger] rays@[k])
                    && !scene_hit_spec(*scene, rays@[k]).hit)
                ==> {
                    &&& acc.x == sat_repeat(scene.env_emission.x as int, i as int)
                    &&& acc.y == sat_repeat(scene.env_emission.y as int, i as int)
                    &&& acc.z == sat_repeat(scene.env_emission.z as int, i as int)
                },
        decreases n - i,
    {
        let sample = trace_path(scene, &rays[i], &mut rng, bounce_limit);
        acc = color_add(&acc, &sample);
        proof {
            if forall |k: int| 0 <= k < rays@.len() ==>
                scene_front(scene.elements@, #[trigger] rays@[k])
                    && !scene_hit_spec(*scene, rays@[k]).hit {
                let ex = scene.env_emission.x as int;
                let ey = scene.env_emission.y as int;
                let ez = scene.env_emission.z as int;
                assert((i as int + 1) * ex == i as int * ex + ex) by (nonlinear_arith);
                assert((i as int + 1) * ey == i as int * ey + ey) by (nonlinear_arith);
                assert((i as int + 1) * ez == i as int * ez + ez) by (nonlinear_arith);
                crate::fx::lemma_square_nonneg_pair(i as int, ex);
                crate::fx::lemma_square_nonneg_pair(i as int, ey);
                crate::fx::lemma_square_nonneg_pair(i as int, ez);
            }
        }
        i += 1;
    }
    let averaged = color_scale_down(&acc, n as u32);
    proof {
        vstd::arithmetic::div_mod::lemma_div_of0(n as int);
    }
    averaged
}

/// What the driver does after one row of pixels is finished.
#[derive(Clone, Copy, PartialEq, Eq, Structural, Debug)]
pub struct ProgressAction {
    /// Persist an intermediate snapshot (the periodic interval passed).
    pub save_snapshot: bool,
    /// The wall-clock budget is spent: persist and stop rendering.
    pub abort: bool,
    /// The last row is done: persist the final image.
    pub finished: bool,
}

/// The time budget is spent at `now`.
pub open spec fn budget_exceeded(begin_ms: u64, time_limit_ms: u64, now_ms: u64) -> bool {
    now_ms - begin_ms >= time_limit_ms
}

/// Once the budget is spent it stays spent: the driver's abort decision is
/// monotone in time, so a render that overruns stops at the first row
/// boundary that observes it.
pub proof fn lemma_budget_monotone(begin_ms: u64, time_limit_ms: u64, t1: u64, t2: u64)
    requires
        begin_ms <= t1 <= t2,
        budget_exceeded(begin_ms, time_limit_ms, t1),
    ensures
        budget_exceeded(begin_ms, time_limit_ms, t2),
{
}

pub struct PathTracingRenderer {
    pub sampling: u32,
    pub begin_ms: u64,
    pub last_report_image_ms: u64,
    pub report_image_counter: u32,
}

impl PathTracingRenderer {
    /// A renderer that averages `sampling` paths per sub-pixel sample,
    /// started at the given wall-clock time.
    pub fn new(sampling: u32, now_ms: u64) -> (r: PathTracingRenderer)
        ensures
            r.sampling == sampling,
            r.begin_ms == now_ms,
            r.last_report_image_ms == now_ms,
            r.report_image_counter == 0,
    {
        PathTracingRenderer {
            sampling,
            begin_ms: now_ms,
            last_report_image_ms: now_ms,
            report_image_counter: 0,
        }
    }

    /// Decide, at a row boundary, whether to snapshot the image, abort on
    /// the spent time budget, or finish: the driver's only cancellation
    /// point, exactly at row granularity.
    pub fn report_progress(
        &mut self,
        y: u32,
        height: u32,
        now_ms: u64,
        time_limit_ms: u64,
        report_interval_ms: u64,
    ) -> (act: ProgressAction)
        requires
            old(self).begin_ms <= now_ms,
            old(self).last_report_image_ms <= now_ms,
            old(self).report_image_counter < 0xFFFF_FFFF,
            y < height,
        ensures
            act.save_snapshot == (now_ms - old(self).last_report_image_ms >= report_interval_ms),
            act.abort == budget_exceeded(old(self).begin_ms, time_limit_ms, now_ms),
            act.finished == (y + 1 == height),
            final(self).sampling == old(self).sampling,
            final(self).begin_ms == old(self).begin_ms,
            act.save_snapshot ==> final(self).last_report_image_ms == now_ms
                && final(self).report_image_counter == old(self).report_image_counter + 1,
            !act.save_snapshot ==> *final(self) == *old(self),
    {
        let interval_passed = now_ms - self.last_report_image_ms >= report_interval_ms;
        if interval_passed {
            self.last_report_image_ms = now_ms;
            self.report_image_counter = self.report_image_counter + 1;
        }
        let over_budget = now_ms - self.begin_ms >= time_limit_ms;
        ProgressAction {
            save_snapshot: interval_passed,
            abort: over_budget,
            finished: y + 1 == height,
        }
    }
}

pub enum DebugRenderMode {
    Color,
    Normal,
    Depth,
    DepthFromFocus,
}

pub struct DebugRenderer {
    pub mode: DebugRenderMode,
}

impl DebugRenderer {
    /// One diagnostic pixel: the nearest hit rendered as flat shading with
    /// a single shadow ray, as the raw normal, or as a depth value.
    pub fn calc_pixel(&self, scene: &Scene, ray: &Ray, focus_distance: i64) -> (c: Color)
        requires
            scene_wf(*scene),
            ray_wf(*ray),
            0 < focus_distance <= FX_ONE * 1024,
        ensures
            self.mode is Normal && scene_front(scene.elements@, *ray) ==>
                c == scene_hit_spec(*scene, *ray).normal,
            self.mode is Depth && scene_front(scene.elements@, *ray) ==> {
                let h = scene_hit_spec(*scene, *ray);
                if h.hit {
                    let v = depth_of((h.t_num as int * FX_ONE as int) / (h.t_den as int),
                        focus_distance as int) as i64;
                    c == (Vector3 { x: v, y: v, z: v })
                } else {
                    c == (Vector3 { x: 0i64, y: 0i64, z: 0i64 })
                }
            },
            self.mode is DepthFromFocus && scene_front(scene.elements@, *ray) ==> {
                let h = scene_hit_spec(*scene, *ray);
                if h.hit {
                    let v = focus_gap_of((h.t_num as int * FX_ONE as int) / (h.t_den as int),
                        focus_distance as int) as i64;
                    c == (Vector3 { x: v, y: v, z: v })
                } else {
                    c == (Vector3 { x: 0i64, y: 0i64, z: 0i64 })
                }
            },
            self.mode is Color && scene_front(scene.elements@, *ray)
                && !scene_hit_spec(*scene, *ray).hit ==>
                c == scene_hit_spec(*scene, *ray).material.emission,
    {
        let intersection = scene.intersect(ray);
        match self.mode {
            DebugRenderMode::Normal => intersection.normal,
            DebugRenderMode::Depth => {
                if !intersection.hit {
                    return Vector3 { x: 0, y: 0, z: 0 };
                }
                proof {
                    crate::fx::lemma_mul_bounds(
                        intersection.t_num as int, 65536, 72057594037927936, 65536);
                    vstd::arithmetic::div_mod::lemma_div_is_ordered(
                        0, intersection.t_num as int * 65536, intersection.t_den as int);
                    vstd::arithmetic::div_mod::lemma_div_is_ordered_by_denominator(
                        intersection.t_num as int * 65536, 1, intersection.t_den as int);
                }
                let t_fx = floor_div_i128(
                    intersection.t_num * (FX_ONE as i128), intersection.t_den);
                let v = half_depth(t_fx, focus_distance);
                Vector3 { x: v, y: v, z: v }
            },
            DebugRenderMode::DepthFromFocus => {
                if !intersection.hit {
                    return Vector3 { x: 0, y: 0, z: 0 };
                }
                proof {
                    crate::fx::lemma_mul_bounds(
                        intersection.t_num as int, 65536, 72057594037927936, 65536);
                    vstd::arithmetic::div_mod::lemma_div_is_ordered(
                        0, intersection.t_num as int * 65536, intersection.t_den as int);
                    vstd::arithmetic::div_mod::lemma_div_is_ordered_by_denominator(
                        intersection.t_num as int * 65536, 1, intersection.t_den as int);
                }
                let t_fx = floor_div_i128(
                    intersection.t_num * (FX_ONE as i128), intersection.t_den);
                let diff = if t_fx >= focus_distance as i128 {
                    t_fx - focus_distance as i128
                } else {
                    focus_distance as i128 - t_fx
                };
                let v = if diff > COL_LIM as i128 { COL_LIM } else { diff as i64 };
                Vector3 { x: v, y: v, z: v }
            },
            DebugRenderMode::Color => {
                if !intersection.hit {
                    return intersection.material.emission;
                }
                if intersection.normal.x == 0 && intersection.normal.y == 0
                    && intersection.normal.z == 0 {
                    return intersection.material.emission;
                }
                let unit_n = normalize_fx(&intersection.normal);
                let light = normalize_fx(&Vector3 { x: FX_ONE, y: 2 * FX_ONE, z: FX_ONE });
                let diffuse = saturate(dot_fx(&unit_n, &light));
                let (origin, origin_ok) = next_ray_origin(&intersection.position, &unit_n);
                let light_dir = clamp_to_ray_dir(&light);
                let mut shadow: i64 = FX_ONE;
                if origin_ok && !(light_dir.x == 0 && light_dir.y == 0 && light_dir.z == 0) {
                    let shadow_ray = Ray { origin, direction: light_dir };
                    let blocked = scene.intersect(&shadow_ray);
                    if blocked.hit {
                        shadow = 32768;
                    }
                }
                proof {
                    crate::bsdf::lemma_unit_mul(diffuse as int, shadow as int);
                }
                let shade = fx_mul(diffuse, shadow);
                proof {
                    crate::bsdf::lemma_unit_mul(
                        if intersection.material.albedo.x < 0 { 0int }
                        else if intersection.material.albedo.x > 65536 { 65536int }
                        else { intersection.material.albedo.x as int },
                        shade as int);
                    crate::bsdf::lemma_unit_mul(
                        if intersection.material.albedo.y < 0 { 0int }
                        else if intersection.material.albedo.y > 65536 { 65536int }
                        else { intersection.material.albedo.y as int },
                        shade as int);
                    crate::bsdf::lemma_unit_mul(
                        if intersection.material.albedo.z < 0 { 0int }
                        else if intersection.material.albedo.z > 65536 { 65536int }
                        else { intersection.material.albedo.z as int },
                        shade as int);
                }
                let lit = Vector3 {
                    x: fx_mul(saturate(intersection.material.albedo.x), shade),
                    y: fx_mul(saturate(intersection.material.albedo.y), shade),
                    z: fx_mul(saturate(intersection.material.albedo.z), shade),
                };
                color_add(&intersection.material.emission, &lit)
            },
        }
    }
}

/// Depth response `t / (2 focus)` of a fixed-point hit parameter, clamped
/// to the color range.
pub open spec fn depth_of(t_fx: int, f: int) -> int {
    if t_fx <= 0 {
        0int
    } else {
        let q = (t_fx * FX_ONE as int) / (2 * f);
        if q > COL_LIM as int { COL_LIM as int } else { q }
    }
}

/// Distance from the focus plane `|t - f|` of a fixed-point hit parameter,
/// clamped to the color range.
pub open spec fn focus_gap_of(t_fx: int, f: int) -> int {
    let diff = if t_fx >= f { t_fx - f } else { f - t_fx };
    if diff > COL_LIM as int { COL_LIM as int } else { diff }
}

/// Depth response `t / (2 focus)` in fixed point, clamped to the color
/// range.
fn half_depth(t_fx: i128, focus_distance: i64) -> (r: i64)
    requires
        0 < focus_distance <= FX_ONE * 1024,
        -4722366482869645213696i128 < t_fx < 4722366482869645213696i128,
    ensures
        0 <= r <= COL_LIM,
        r == depth_of(t_fx as int, focus_distance as int),
{
    if t_fx <= 0 {
        return 0;
    }
    let v = floor_div_i128(t_fx * (FX_ONE as i128), 2 * (focus_distance as i128));
    proof {
        vstd::arithmetic::div_mod::lemma_div_is_ordered(
            0, t_fx as int * 65536, 2 * focus_distance as int);
    }
    if v > COL_LIM as i128 {
        COL_LIM
    } else {
        v as i64
    }
}

} // verus!
