//! Ray-triangle intersection.
//!
//! The solver works on the scaled linear system of the classic
//! Moeller-Trumbore formulation: all quantities are exact integers, the hit
//! parameter is the rational `tn / dn` with `dn = |det|`, and a triangle
//! updates the running record exactly when it is hit strictly in front of
//! the origin and strictly closer than the record.

use vstd::prelude::*;
use crate::fx::{floor_div_i128, frac_lt, lemma_i128_product_bound};
use crate::scene::{Intersection, isect_wf, improves};
use crate::slab::{Ray, ray_wf, ray_in_box_at};
use crate::vector::{Vector3, vec_bounded, lemma_mul_le_mono, VMAX};

verus! {

/// The raw Moeller-Trumbore quantities of one ray-triangle pair: the
/// determinant of the linear system and the scaled solution components
/// (`u = un/det`, `v = vn/det`, `t = tn/det`).
pub struct TriQ {
    pub det: int,
    pub un: int,
    pub vn: int,
    pub tn: int,
}

pub open spec fn tri_q(v0: Vector3, v1: Vector3, v2: Vector3, r: Ray) -> TriQ {
    let e1x = v1.x - v0.x;
    let e1y = v1.y - v0.y;
    let e1z = v1.z - v0.z;
    let e2x = v2.x - v0.x;
    let e2y = v2.y - v0.y;
    let e2z = v2.z - v0.z;
    let dx = r.direction.x as int;
    let dy = r.direction.y as int;
    let dz = r.direction.z as int;
    let tx = r.origin.x - v0.x;
    let ty = r.origin.y - v0.y;
    let tz = r.origin.z - v0.z;
    let px = dy * e2z - dz * e2y;
    let py = dz * e2x - dx * e2z;
    let pz = dx * e2y - dy * e2x;
    let qx = ty * e1z - tz * e1y;
    let qy = tz * e1x - tx * e1z;
    let qz = tx * e1y - ty * e1x;
    TriQ {
        det: e1x * px + e1y * py + e1z * pz,
        un: tx * px + ty * py + tz * pz,
        vn: dx * qx + dy * qy + dz * qz,
        tn: e2x * qx + e2y * qy + e2z * qz,
    }
}

/// `|det|`: the positive denominator of the normalized solution.
pub open spec fn tri_den(v0: Vector3, v1: Vector3, v2: Vector3, r: Ray) -> int {
    let q = tri_q(v0, v1, v2, r);
    if q.det >= 0 { q.det } else { -q.det }
}

/// Barycentric numerator `u`, carried to the positive denominator.
pub open spec fn tri_un(v0: Vector3, v1: Vector3, v2: Vector3, r: Ray) -> int {
    let q = tri_q(v0, v1, v2, r);
    if q.det >= 0 { q.un } else { -q.un }
}

/// Barycentric numerator `v`, carried to the positive denominator.
pub open spec fn tri_vn(v0: Vector3, v1: Vector3, v2: Vector3, r: Ray) -> int {
    let q = tri_q(v0, v1, v2, r);
    if q.det >= 0 { q.vn } else { -q.vn }
}

/// Hit-parameter numerator, carried to the positive denominator.
pub open spec fn tri_tn(v0: Vector3, v1: Vector3, v2: Vector3, r: Ray) -> int {
    let q = tri_q(v0, v1, v2, r);
    if q.det >= 0 { q.tn } else { -q.tn }
}

/// The ray pierces the triangle strictly in front of its origin: the system
/// is nondegenerate, the barycentric coordinates lie in the triangle, and
/// the hit parameter is positive.
pub open spec fn tri_hit(v0: Vector3, v1: Vector3, v2: Vector3, r: Ray) -> bool {
    let den = tri_den(v0, v1, v2, r);
    let un = tri_un(v0, v1, v2, r);
    let vn = tri_vn(v0, v1, v2, r);
    let tn = tri_tn(v0, v1, v2, r);
    &&& tri_q(v0, v1, v2, r).det != 0
    &&& un >= 0
    &&& vn >= 0
    &&& un + vn <= den
    &&& tn > 0
}

/// Geometric (unnormalized) triangle normal: the cross product of the two
/// edge vectors out of `v0`.
pub open spec fn tri_normal(v0: Vector3, v1: Vector3, v2: Vector3) -> Vector3 {
    let e1x = v1.x - v0.x;
    let e1y = v1.y - v0.y;
    let e1z = v1.z - v0.z;
    let e2x = v2.x - v0.x;
    let e2y = v2.y - v0.y;
    let e2z = v2.z - v0.z;
    Vector3 {
        x: (e1y * e2z - e1z * e2y) as i64,
        y: (e1z * e2x - e1x * e2z) as i64,
        z: (e1x * e2y - e1y * e2x) as i64,
    }
}

/// Half the position range: hit-point offsets are clamped to it.
pub const POS_CLAMP: i64 = 0x1000_0000_0000;

/// Clamp one hit-point offset to the representable position range.
pub open spec fn clamp_pos(v: int) -> int {
    if v < -(POS_CLAMP as int) { -(POS_CLAMP as int) }
    else if v > POS_CLAMP as int { POS_CLAMP as int }
    else { v }
}

/// The hit point `origin + (tn/td) * direction`, each coordinate rounded
/// down to the grid and clamped to the representable range.
pub open spec fn hit_position(r: Ray, tn: int, td: int) -> Vector3 {
    Vector3 {
        x: (r.origin.x + clamp_pos((tn * r.direction.x) / td)) as i64,
        y: (r.origin.y + clamp_pos((tn * r.direction.y) / td)) as i64,
        z: (r.origin.z + clamp_pos((tn * r.direction.z) / td)) as i64,
    }
}

/// What one triangle does to the running record: replace it exactly when
/// the triangle is hit strictly closer; the surface material is left for
/// the owning mesh to fill in.
pub open spec fn tri_update(v0: Vector3, v1: Vector3, v2: Vector3, r: Ray, rec: Intersection)
    -> Intersection {
    let den = tri_den(v0, v1, v2, r);
    let tn = tri_tn(v0, v1, v2, r);
    if tri_hit(v0, v1, v2, r) && improves(rec, tn, den) {
        Intersection {
            hit: true,
            t_num: tn as i128,
            t_den: den as i128,
            position: hit_position(r, tn, den),
            normal: tri_normal(v0, v1, v2),
            material: rec.material,
        }
    } else {
        rec
    }
}

/// Exact product of two `i64` values, widened to `i128`.
fn prod(a: i64, b: i64) -> (r: i128)
    ensures
        r == a as int * b as int,
{
    proof {
        lemma_i128_product_bound(a as int, b as int, 9223372036854775809);
    }
    (a as i128) * (b as i128)
}

/// Standard triangle-intersection routine: update `intersection` in place
/// whenever this triangle is hit strictly closer than the current record.
pub fn intersect_polygon(
    v0: &Vector3,
    v1: &Vector3,
    v2: &Vector3,
    ray: &Ray,
    intersection: &mut Intersection,
) -> (hit: bool)
    requires
        vec_bounded(*v0, VMAX as int),
        vec_bounded(*v1, VMAX as int),
        vec_bounded(*v2, VMAX as int),
        ray_wf(*ray),
        isect_wf(*old(intersection)),
    ensures
        *final(intersection) == tri_update(*v0, *v1, *v2, *ray, *old(intersection)),
        hit == (tri_hit(*v0, *v1, *v2, *ray)
            && improves(*old(intersection), tri_tn(*v0, *v1, *v2, *ray), tri_den(*v0, *v1, *v2, *ray))),
        isect_wf(*final(intersection)),
        final(intersection).material == old(intersection).material,
        hit ==> final(intersection).hit
            && improves(*old(intersection),
                final(intersection).t_num as int, final(intersection).t_den as int),
{
    let e1x = v1.x - v0.x;
    let e1y = v1.y - v0.y;
    let e1z = v1.z - v0.z;
    let e2x = v2.x - v0.x;
    let e2y = v2.y - v0.y;
    let e2z = v2.z - v0.z;
    let dx = ray.direction.x;
    let dy = ray.direction.y;
    let dz = ray.direction.z;
    let tx = ray.origin.x - v0.x;
    let ty = ray.origin.y - v0.y;
    let tz = ray.origin.z - v0.z;

    proof {
        crate::fx::lemma_mul_bounds(dy as int, e2z as int, 65536, 131072);
        crate::fx::lemma_mul_bounds(dz as int, e2y as int, 65536, 131072);
        crate::fx::lemma_mul_bounds(dz as int, e2x as int, 65536, 131072);
        crate::fx::lemma_mul_bounds(dx as int, e2z as int, 65536, 131072);
        crate::fx::lemma_mul_bounds(dx as int, e2y as int, 65536, 131072);
        crate::fx::lemma_mul_bounds(dy as int, e2x as int, 65536, 131072);
        crate::fx::lemma_mul_bounds(ty as int, e1z as int, 196608, 131072);
        crate::fx::lemma_mul_bounds(tz as int, e1y as int, 196608, 131072);
        crate::fx::lemma_mul_bounds(tz as int, e1x as int, 196608, 131072);
        crate::fx::lemma_mul_bounds(tx as int, e1z as int, 196608, 131072);
        crate::fx::lemma_mul_bounds(tx as int, e1y as int, 196608, 131072);
        crate::fx::lemma_mul_bounds(ty as int, e1x as int, 196608, 131072);
    }
    let px = prod(dy, e2z) - prod(dz, e2y);
    let py = prod(dz, e2x) - prod(dx, e2z);
    let pz = prod(dx, e2y) - prod(dy, e2x);
    let qx = prod(ty, e1z) - prod(tz, e1y);
    let qy = prod(tz, e1x) - prod(tx, e1z);
    let qz = prod(tx, e1y) - prod(ty, e1x);

    let det = mul_small(e1x, px) + mul_small(e1y, py) + mul_small(e1z, pz);
    let un_raw = mul_small(tx, px) + mul_small(ty, py) + mul_small(tz, pz);
    let vn_raw = mul_small(dx, qx) + mul_small(dy, qy) + mul_small(dz, qz);
    let tn_raw = mul_small(e2x, qx) + mul_small(e2y, qy) + mul_small(e2z, qz);

    if det == 0 {
        return false;
    }

    let (dn, un, vn, tn) = if det > 0 {
        (det, un_raw, vn_raw, tn_raw)
    } else {
        (-det, -un_raw, -vn_raw, -tn_raw)
    };

    if !(un >= 0 && vn >= 0 && un + vn <= dn && tn > 0) {
        return false;
    }

    if !(!intersection.hit || frac_lt(tn, dn, intersection.t_num, intersection.t_den)) {
        return false;
    }

    // Hit point: origin + (tn/dn) * direction, rounded to the grid.
    proof {
        crate::fx::lemma_mul_bounds(tn as int, dx as int, 40532396646334464, 65536);
        crate::fx::lemma_mul_bounds(tn as int, dy as int, 40532396646334464, 65536);
        crate::fx::lemma_mul_bounds(tn as int, dz as int, 40532396646334464, 65536);
        lemma_i128_product_bound(e1y as int, e2z as int, 262144);
        lemma_i128_product_bound(e1z as int, e2y as int, 262144);
        lemma_i128_product_bound(e1z as int, e2x as int, 262144);
        lemma_i128_product_bound(e1x as int, e2z as int, 262144);
        lemma_i128_product_bound(e1x as int, e2y as int, 262144);
        lemma_i128_product_bound(e1y as int, e2x as int, 262144);
    }
    let ox = ray.origin.x + clamp_offset(floor_div_i128(tn * (dx as i128), dn)) as i64;
    let oy = ray.origin.y + clamp_offset(floor_div_i128(tn * (dy as i128), dn)) as i64;
    let oz = ray.origin.z + clamp_offset(floor_div_i128(tn * (dz as i128), dn)) as i64;

    let nx = prod(e1y, e2z) - prod(e1z, e2y);
    let ny = prod(e1z, e2x) - prod(e1x, e2z);
    let nz = prod(e1x, e2y) - prod(e1y, e2x);

    *intersection = Intersection {
        hit: true,
        t_num: tn,
        t_den: dn,
        position: Vector3 { x: ox, y: oy, z: oz },
        normal: Vector3 { x: nx as i64, y: ny as i64, z: nz as i64 },
        material: intersection.material,
    };
    true
}

/// Exact product of a small `i64` by an `i128` cross-product component.
fn mul_small(a: i64, b: i128) -> (r: i128)
    requires
        -262144 <= a <= 262144,
        -51539607552 <= b <= 51539607552,
    ensures
        r == a as int * b as int,
        -13510798882111488 <= r <= 13510798882111488,
{
    proof {
        crate::fx::lemma_mul_bounds(a as int, b as int, 262144, 51539607552);
    }
    (a as i128) * b
}

/// Clamp a hit-point offset, mirroring `clamp_pos`.
pub fn clamp_offset(v: i128) -> (r: i128)
    ensures
        r == clamp_pos(v as int),
        -(POS_CLAMP as int) <= r <= POS_CLAMP as int,
{
    let lim: i128 = POS_CLAMP as i128;
    if v < -lim {
        -lim
    } else if v > lim {
        lim
    } else {
        v
    }
}

/// Permutations of a three-factor product.
proof fn lemma_mul3(a: int, b: int, c: int) by (nonlinear_arith)
    ensures
        a * (b * c) == b * (c * a),
        a * (b * c) == c * (a * b),
        a * (b * c) == b * (a * c),
        a * (b * c) == c * (b * a),
{
}

/// Distribute a factor over a three-term sum.
proof fn lemma_distr3(k: int, x: int, y: int, z: int) by (nonlinear_arith)
    ensures
        k * (x + y + z) == k * x + k * y + k * z,
{
}

/// Distribute a factor over a difference.
proof fn lemma_distr_sub(k: int, x: int, y: int) by (nonlinear_arith)
    ensures
        k * (x - y) == k * x - k * y,
{
}

/// The `x` component of the vector triple-product expansion
/// `a x (b x c) == b (a . c) - c (a . b)`.
proof fn lemma_triple_x(
    ax: int, ay: int, az: int,
    bx: int, by: int, bz: int,
    cx: int, cy: int, cz: int,
)
    ensures
        ({
            let wy = bz * cx - bx * cz;
            let wz = bx * cy - by * cx;
            ay * wz - az * wy
                == bx * (cx * ax + cy * ay + cz * az) - cx * (bx * ax + by * ay + bz * az)
        }),
{
    lemma_distr_sub(ay, bx * cy, by * cx);
    lemma_distr_sub(az, bz * cx, bx * cz);
    lemma_distr3(bx, cx * ax, cy * ay, cz * az);
    lemma_distr3(cx, bx * ax, by * ay, bz * az);
    lemma_mul3(ay, bx, cy);
    lemma_mul3(ay, by, cx);
    lemma_mul3(az, bz, cx);
    lemma_mul3(az, bx, cz);
    lemma_mul3(bx, cx, ax);
}

/// The `y` component of the vector triple-product expansion.
proof fn lemma_triple_y(
    ax: int, ay: int, az: int,
    bx: int, by: int, bz: int,
    cx: int, cy: int, cz: int,
)
    ensures
        ({
            let wx = by * cz - bz * cy;
            let wz = bx * cy - by * cx;
            az * wx - ax * wz
                == by * (cx * ax + cy * ay + cz * az) - cy * (bx * ax + by * ay + bz * az)
        }),
{
    lemma_distr_sub(az, by * cz, bz * cy);
    lemma_distr_sub(ax, bx * cy, by * cx);
    lemma_distr3(by, cx * ax, cy * ay, cz * az);
    lemma_distr3(cy, bx * ax, by * ay, bz * az);
    lemma_mul3(az, by, cz);
    lemma_mul3(az, bz, cy);
    lemma_mul3(ax, bx, cy);
    lemma_mul3(ax, by, cx);
    lemma_mul3(by, cy, ay);
}

/// The `z` component of the vector triple-product expansion.
proof fn lemma_triple_z(
    ax: int, ay: int, az: int,
    bx: int, by: int, bz: int,
    cx: int, cy: int, cz: int,
)
    ensures
        ({
            let wx = by * cz - bz * cy;
            let wy = bz * cx - bx * cz;
            ax * wy - ay * wx
                == bz * (cx * ax + cy * ay + cz * az) - cz * (bx * ax + by * ay + bz * az)
        }),
{
    lemma_distr_sub(ax, bz * cx, bx * cz);
    lemma_distr_sub(ay, by * cz, bz * cy);
    lemma_distr3(bz, cx * ax, cy * ay, cz * az);
    lemma_distr3(cz, bx * ax, by * ay, bz * az);
    lemma_mul3(ax, bz, cx);
    lemma_mul3(ax, bx, cz);
    lemma_mul3(ay, by, cz);
    lemma_mul3(ay, bz, cy);
    lemma_mul3(bz, cz, az);
}

/// Products commute.
proof fn mul_comm(a: int, b: int) by (nonlinear_arith)
    ensures
        a * b == b * a,
{
}

/// Negation moves through a product.
proof fn mul_neg(a: int, b: int) by (nonlinear_arith)
    ensures
        (-a) * b == -(a * b),
{
}

/// Cramer's rule for the scaled ray-triangle system, one coordinate:
/// the solution components reassemble the right-hand side `dn * t`.
proof fn lemma_cramer_axis(
    e1x: int, e1y: int, e1z: int,
    e2x: int, e2y: int, e2z: int,
    dx: int, dy: int, dz: int,
    tx: int, ty: int, tz: int,
    px: int, py: int, pz: int,
    qx: int, qy: int, qz: int,
    det: int, un: int, vn: int, tn: int,
)
    requires
        px == dy * e2z - dz * e2y,
        py == dz * e2x - dx * e2z,
        pz == dx * e2y - dy * e2x,
        qx == ty * e1z - tz * e1y,
        qy == tz * e1x - tx * e1z,
        qz == tx * e1y - ty * e1x,
        det == e1x * px + e1y * py + e1z * pz,
        un == tx * px + ty * py + tz * pz,
        vn == dx * qx + dy * qy + dz * qz,
        tn == e2x * qx + e2y * qy + e2z * qz,
    ensures
        un * e1x + vn * e2x - tn * dx == det * tx,
        un * e1y + vn * e2y - tn * dy == det * ty,
        un * e1z + vn * e2z - tn * dz == det * tz,
{
    // a = p, b = t, c = e1: w = t x e1 = q.
    lemma_triple_x(px, py, pz, tx, ty, tz, e1x, e1y, e1z);
    lemma_triple_y(px, py, pz, tx, ty, tz, e1x, e1y, e1z);
    lemma_triple_z(px, py, pz, tx, ty, tz, e1x, e1y, e1z);
    // a = q, b = d, c = e2: w = d x e2 = p.
    lemma_triple_x(qx, qy, qz, dx, dy, dz, e2x, e2y, e2z);
    lemma_triple_y(qx, qy, qz, dx, dy, dz, e2x, e2y, e2z);
    lemma_triple_z(qx, qy, qz, dx, dy, dz, e2x, e2y, e2z);
    // The two expansions are opposite components of the same cross product.
    mul_comm(py, qz);
    mul_comm(pz, qy);
    mul_comm(pz, qx);
    mul_comm(px, qz);
    mul_comm(px, qy);
    mul_comm(py, qx);
    // Align the product orders of the conclusion.
    mul_comm(e1x, un);
    mul_comm(e1y, un);
    mul_comm(e1z, un);
    mul_comm(e2x, vn);
    mul_comm(e2y, vn);
    mul_comm(e2z, vn);
    mul_comm(dx, tn);
    mul_comm(dy, tn);
    mul_comm(dz, tn);
    mul_comm(tx, det);
    mul_comm(ty, det);
    mul_comm(tz, det);
}

/// A convex combination of three slab-bounded coordinates stays inside the
/// slab, in scaled form: the hit coordinate `o * dn + tn * d` of a
/// barycentric point of the triangle lies between `lb * dn` and `rt * dn`.
proof fn lemma_axis_contain(
    lb: int, rt: int,
    v0: int, v1: int, v2: int,
    o: int, d: int,
    un: int, vn: int, tn: int, dn: int,
)
    requires
        dn > 0,
        un >= 0,
        vn >= 0,
        un + vn <= dn,
        un * (v1 - v0) + vn * (v2 - v0) - tn * d == dn * (o - v0),
        lb <= v0 <= rt,
        lb <= v1 <= rt,
        lb <= v2 <= rt,
    ensures
        lb * dn <= o * dn + tn * d,
        o * dn + tn * d <= rt * dn,
{
    let w = dn - un - vn;
    assert(un * (v1 - v0) == un * v1 - un * v0) by (nonlinear_arith);
    assert(vn * (v2 - v0) == vn * v2 - vn * v0) by (nonlinear_arith);
    assert(dn * (o - v0) == dn * o - dn * v0) by (nonlinear_arith);
    assert(w * v0 == dn * v0 - un * v0 - vn * v0) by (nonlinear_arith)
        requires w == dn - un - vn;
    mul_comm(o, dn);
    assert(o * dn + tn * d == w * v0 + un * v1 + vn * v2);
    assert(lb * dn == lb * w + lb * un + lb * vn) by (nonlinear_arith)
        requires w == dn - un - vn;
    assert(rt * dn == rt * w + rt * un + rt * vn) by (nonlinear_arith)
        requires w == dn - un - vn;
    lemma_mul_le_mono(lb, v0, w);
    lemma_mul_le_mono(lb, v1, un);
    lemma_mul_le_mono(lb, v2, vn);
    lemma_mul_le_mono(v0, rt, w);
    lemma_mul_le_mono(v1, rt, un);
    lemma_mul_le_mono(v2, rt, vn);
    mul_comm(v0, w);
    mul_comm(v1, un);
    mul_comm(v2, vn);
    mul_comm(lb, w);
    mul_comm(lb, un);
    mul_comm(lb, vn);
    mul_comm(rt, w);
    mul_comm(rt, un);
    mul_comm(rt, vn);
    mul_comm(w, v0);
    mul_comm(un, v1);
    mul_comm(vn, v2);
}

/// The vertex `v` lies between the box corners, componentwise.
pub open spec fn vec_between(lb: Vector3, rt: Vector3, v: Vector3) -> bool {
    &&& lb.x <= v.x <= rt.x
    &&& lb.y <= v.y <= rt.y
    &&& lb.z <= v.z <= rt.z
}

/// A triangle whose vertices all lie inside a box can only be hit where
/// the ray passes through the box: the hit parameter is a box point.
pub proof fn lemma_tri_hit_in_box(
    lb: Vector3, rt: Vector3,
    v0: Vector3, v1: Vector3, v2: Vector3,
    r: Ray,
)
    requires
        tri_hit(v0, v1, v2, r),
        vec_between(lb, rt, v0),
        vec_between(lb, rt, v1),
        vec_between(lb, rt, v2),
    ensures
        ray_in_box_at(lb, rt, r, tri_tn(v0, v1, v2, r), tri_den(v0, v1, v2, r)),
{
    let e1x = v1.x - v0.x;
    let e1y = v1.y - v0.y;
    let e1z = v1.z - v0.z;
    let e2x = v2.x - v0.x;
    let e2y = v2.y - v0.y;
    let e2z = v2.z - v0.z;
    let dx = r.direction.x as int;
    let dy = r.direction.y as int;
    let dz = r.direction.z as int;
    let tx = r.origin.x - v0.x;
    let ty = r.origin.y - v0.y;
    let tz = r.origin.z - v0.z;
    let px = dy * e2z - dz * e2y;
    let py = dz * e2x - dx * e2z;
    let pz = dx * e2y - dy * e2x;
    let qx = ty * e1z - tz * e1y;
    let qy = tz * e1x - tx * e1z;
    let qz = tx * e1y - ty * e1x;
    let tq = tri_q(v0, v1, v2, r);
    lemma_cramer_axis(
        e1x, e1y, e1z, e2x, e2y, e2z, dx, dy, dz, tx, ty, tz,
        px, py, pz, qx, qy, qz, tq.det, tq.un, tq.vn, tq.tn);
    let dn = tri_den(v0, v1, v2, r);
    let un = tri_un(v0, v1, v2, r);
    let vn = tri_vn(v0, v1, v2, r);
    let tn = tri_tn(v0, v1, v2, r);
    if tq.det >= 0 {
        lemma_axis_contain(lb.x as int, rt.x as int, v0.x as int, v1.x as int, v2.x as int,
            r.origin.x as int, dx, un, vn, tn, dn);
        lemma_axis_contain(lb.y as int, rt.y as int, v0.y as int, v1.y as int, v2.y as int,
            r.origin.y as int, dy, un, vn, tn, dn);
        lemma_axis_contain(lb.z as int, rt.z as int, v0.z as int, v1.z as int, v2.z as int,
            r.origin.z as int, dz, un, vn, tn, dn);
    } else {
        mul_neg(tq.un, e1x);
        mul_neg(tq.un, e1y);
        mul_neg(tq.un, e1z);
        mul_neg(tq.vn, e2x);
        mul_neg(tq.vn, e2y);
        mul_neg(tq.vn, e2z);
        mul_neg(tq.tn, dx);
        mul_neg(tq.tn, dy);
        mul_neg(tq.tn, dz);
        mul_neg(tq.det, tx);
        mul_neg(tq.det, ty);
        mul_neg(tq.det, tz);
        assert(un * e1x + vn * e2x - tn * dx == dn * tx);
        assert(un * e1y + vn * e2y - tn * dy == dn * ty);
        assert(un * e1z + vn * e2z - tn * dz == dn * tz);
        lemma_axis_contain(lb.x as int, rt.x as int, v0.x as int, v1.x as int, v2.x as int,
            r.origin.x as int, dx, un, vn, tn, dn);
        lemma_axis_contain(lb.y as int, rt.y as int, v0.y as int, v1.y as int, v2.y as int,
            r.origin.y as int, dy, un, vn, tn, dn);
        lemma_axis_contain(lb.z as int, rt.z as int, v0.z as int, v1.z as int, v2.z as int,
            r.origin.z as int, dz, un, vn, tn, dn);
    }
}

} // verus!
