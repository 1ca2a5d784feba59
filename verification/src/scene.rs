//! Scene primitives and the nearest-hit accumulator record.

use vstd::prelude::*;
use crate::bvh::{BvhNode, node_wf, faces_seq, scan_faces, box_front, all_face_indexes, isect_le,
    hit_from_face};
use crate::slab::slab_hit;
use crate::color::{Color, color_wf};
use crate::fx::{floor_div_i128, frac_lt, isqrt, lemma_mul_bounds};
use crate::material::{Material, material_wf};
use crate::mesh::{Mesh, mesh_wf};
use crate::slab::ray_wf;
use crate::triangle::hit_position;
use crate::vector::{Vector3, vec_bounded, dot_spec, VMAX};

pub use crate::slab::Ray;

verus! {

/// Upper bound (exclusive) on the numerator and denominator of a recorded
/// hit distance.
pub const T_LIM: i128 = 72057594037927936;

/// Bound on recorded hit positions (hit points are clamped to this range).
pub const POS_LIM: i64 = 0x2000_0000_0000;

/// Bound on recorded surface normals (unnormalized direction vectors).
pub const NRM_LIM: i64 = 0x2_0000_0000_0000;

/// Running nearest-hit record. The hit distance along the ray is the exact
/// rational `t_num / t_den`; a record with `hit == false` stands for an
/// infinite distance.
#[derive(Clone, Copy, PartialEq, Eq, Structural, Debug)]
pub struct Intersection {
    pub hit: bool,
    pub t_num: i128,
    pub t_den: i128,
    pub position: Vector3,
    pub normal: Vector3,
    pub material: Material,
}

/// Bounds every intersection routine preserves.
pub open spec fn isect_wf(i: Intersection) -> bool {
    &&& i.hit ==> {
        &&& 0 < i.t_num < T_LIM
        &&& 0 < i.t_den < T_LIM
        &&& vec_bounded(i.position, POS_LIM as int)
        &&& vec_bounded(i.normal, NRM_LIM as int)
    }
    &&& material_wf(i.material)
}

/// A candidate hit at distance `tn / td` beats the record: the record is
/// still empty, or the candidate is strictly closer.
pub open spec fn improves(rec: Intersection, tn: int, td: int) -> bool {
    !rec.hit || tn * rec.t_den < rec.t_num * td
}

impl Intersection {
    /// The value `Intersection::new` returns.
    pub open spec fn new_spec() -> Intersection {
        Intersection {
            hit: false,
            t_num: 1i128,
            t_den: 1i128,
            position: Vector3 { x: 0i64, y: 0i64, z: 0i64 },
            normal: Vector3 { x: 0i64, y: 0i64, z: 0i64 },
            material: Material::new_spec(),
        }
    }

    /// A fresh record: no hit, infinite distance.
    pub fn new() -> (r: Intersection)
        ensures
            r == Intersection::new_spec(),
            isect_wf(r),
    {
        Intersection {
            hit: false,
            t_num: 1,
            t_den: 1,
            position: Vector3 { x: 0, y: 0, z: 0 },
            normal: Vector3 { x: 0, y: 0, z: 0 },
            material: Material::new(),
        }
    }
}

/// `r` is the integer square root of `n`.
pub open spec fn is_sqrt_floor(n: int, r: int) -> bool {
    0 <= r && r * r <= n && n < (r + 1) * (r + 1)
}

/// The integer square root of a nonnegative `n`.
pub open spec fn sqrt_floor(n: int) -> int {
    choose |r: int| is_sqrt_floor(n, r)
}

/// The integer square root is unique.
pub proof fn lemma_sqrt_floor_unique(n: int, a: int, b: int) by (nonlinear_arith)
    requires
        is_sqrt_floor(n, a),
        is_sqrt_floor(n, b),
    ensures
        a == b,
{
}

/// A square root below a squared bound is below the bound.
pub proof fn lemma_sqrt_floor_bound(r: int, n: int, b: int) by (nonlinear_arith)
    requires
        0 <= r,
        r * r <= n,
        n < b * b,
        0 < b,
    ensures
        r < b,
{
}

/// A witness of `is_sqrt_floor` is the integer square root.
pub proof fn lemma_sqrt_floor_agrees(n: int, s: int)
    requires
        is_sqrt_floor(n, s),
    ensures
        sqrt_floor(n) == s,
{
    assert(is_sqrt_floor(n, sqrt_floor(n))) by {
        assert(exists |r: int| is_sqrt_floor(n, r));
    }
    lemma_sqrt_floor_unique(n, s, sqrt_floor(n));
}

/// A nonzero integer has a positive square.
pub proof fn lemma_square_pos_pub(x: int) by (nonlinear_arith)
    ensures
        x * x >= 0,
        x != 0 ==> x * x >= 1,
{
}

pub struct Sphere {
    pub center: Vector3,
    pub radius: i64,
    pub material: Material,
}

pub open spec fn sphere_wf(s: Sphere) -> bool {
    &&& vec_bounded(s.center, VMAX as int)
    &&& 0 < s.radius <= VMAX
    &&& material_wf(s.material)
}

/// The quadratic data of a ray-sphere pair: with `oc = origin - center`,
/// `aa = d.d`, `bb = oc.d`, `cc = oc.oc - radius^2`, the ray meets the
/// sphere where `aa*t^2 + 2*bb*t + cc == 0`.
pub open spec fn sphere_disc(s: Sphere, r: Ray) -> int {
    let ocx = r.origin.x - s.center.x;
    let ocy = r.origin.y - s.center.y;
    let ocz = r.origin.z - s.center.z;
    let aa = dot_spec(r.direction, r.direction);
    let bb = ocx * r.direction.x + ocy * r.direction.y + ocz * r.direction.z;
    let cc = ocx * ocx + ocy * ocy + ocz * ocz - s.radius * s.radius;
    bb * bb - aa * cc
}

/// Numerator of the near-root hit parameter, over denominator `d . d`:
/// `-bb - floor(sqrt(disc))`.
pub open spec fn sphere_t_num(s: Sphere, r: Ray) -> int {
    let ocx = r.origin.x - s.center.x;
    let ocy = r.origin.y - s.center.y;
    let ocz = r.origin.z - s.center.z;
    let bb = ocx * r.direction.x + ocy * r.direction.y + ocz * r.direction.z;
    -bb - sqrt_floor(sphere_disc(s, r))
}

pub open spec fn sphere_t_den(s: Sphere, r: Ray) -> int {
    dot_spec(r.direction, r.direction)
}

/// What the sphere does to the record: a strictly positive near root of
/// the quadratic, strictly closer than the record, replaces it.
pub open spec fn sphere_update(s: Sphere, r: Ray, rec: Intersection) -> Intersection {
    let tn = sphere_t_num(s, r);
    let td = sphere_t_den(s, r);
    if sphere_disc(s, r) > 0 && tn > 0 && improves(rec, tn, td) {
        let pos = hit_position(r, tn, td);
        Intersection {
            hit: true,
            t_num: tn as i128,
            t_den: td as i128,
            position: pos,
            normal: Vector3 {
                x: (pos.x - s.center.x) as i64,
                y: (pos.y - s.center.y) as i64,
                z: (pos.z - s.center.z) as i64,
            },
            material: s.material,
        }
    } else {
        rec
    }
}

impl Sphere {
    /// Quadratic ray-sphere test: update the record in place when the
    /// sphere is hit strictly closer.
    pub fn intersect(&self, ray: &Ray, intersection: &mut Intersection)
        requires
            sphere_wf(*self),
            ray_wf(*ray),
            isect_wf(*old(intersection)),
        ensures
            *final(intersection) == sphere_update(*self, *ray, *old(intersection)),
            isect_wf(*final(intersection)),
            isect_le(*final(intersection), *old(intersection)),
    {
        let ocx = ray.origin.x - self.center.x;
        let ocy = ray.origin.y - self.center.y;
        let ocz = ray.origin.z - self.center.z;
        let dx = ray.direction.x;
        let dy = ray.direction.y;
        let dz = ray.direction.z;
        proof {
            lemma_mul_bounds(dx as int, dx as int, 65536, 65536);
            lemma_mul_bounds(dy as int, dy as int, 65536, 65536);
            lemma_mul_bounds(dz as int, dz as int, 65536, 65536);
            lemma_mul_bounds(ocx as int, dx as int, 196608, 65536);
            lemma_mul_bounds(ocy as int, dy as int, 196608, 65536);
            lemma_mul_bounds(ocz as int, dz as int, 196608, 65536);
            lemma_mul_bounds(ocx as int, ocx as int, 196608, 196608);
            lemma_mul_bounds(ocy as int, ocy as int, 196608, 196608);
            lemma_mul_bounds(ocz as int, ocz as int, 196608, 196608);
            lemma_mul_bounds(self.radius as int, self.radius as int, 65536, 65536);
            lemma_square_pos_pub(dx as int);
            lemma_square_pos_pub(dy as int);
            lemma_square_pos_pub(dz as int);
        }
        let aa: i64 = dx * dx + dy * dy + dz * dz;
        let bb: i64 = ocx * dx + ocy * dy + ocz * dz;
        let cc: i64 = ocx * ocx + ocy * ocy + ocz * ocz - self.radius * self.radius;
        proof {
            lemma_mul_bounds(bb as int, bb as int, 38654705664, 38654705664);
            lemma_mul_bounds(aa as int, cc as int, 12884901888, 120259084288);
        }
        let disc: i128 = (bb as i128) * (bb as i128) - (aa as i128) * (cc as i128);
        if disc <= 0 {
            return;
        }
        proof {
            assert((1u128 << 120) == 1329227995784915872903807060280344576) by (bit_vector);
        }
        let s = isqrt(disc as u128);
        proof {
            assert(is_sqrt_floor(disc as int, s as int));
            lemma_sqrt_floor_bound(s as int, disc as int, 68719476736);
            lemma_sqrt_floor_unique(disc as int, s as int, sqrt_floor(disc as int));
        }
        let tn: i128 = -(bb as i128) - (s as i128);
        let td: i128 = aa as i128;
        if !(tn > 0) {
            return;
        }
        if !(!intersection.hit || frac_lt(tn, td, intersection.t_num, intersection.t_den)) {
            return;
        }
        proof {
            lemma_mul_bounds(tn as int, dx as int, 107374182400, 65536);
            lemma_mul_bounds(tn as int, dy as int, 107374182400, 65536);
            lemma_mul_bounds(tn as int, dz as int, 107374182400, 65536);
        }
        let px = ray.origin.x + crate::triangle::clamp_offset(floor_div_i128(tn * (dx as i128), td)) as i64;
        let py = ray.origin.y + crate::triangle::clamp_offset(floor_div_i128(tn * (dy as i128), td)) as i64;
        let pz = ray.origin.z + crate::triangle::clamp_offset(floor_div_i128(tn * (dz as i128), td)) as i64;
        *intersection = Intersection {
            hit: true,
            t_num: tn,
            t_den: td,
            position: Vector3 { x: px, y: py, z: pz },
            normal: Vector3 {
                x: px - self.center.x,
                y: py - self.center.y,
                z: pz - self.center.z,
            },
            material: self.material,
        };
    }
}

pub struct Plane {
    pub center: Vector3,
    pub normal: Vector3,
    pub material: Material,
}

pub open spec fn plane_wf(p: Plane) -> bool {
    &&& vec_bounded(p.center, VMAX as int)
    &&& vec_bounded(p.normal, VMAX as int)
    &&& material_wf(p.material)
}

/// Hit parameter of a ray against the plane through `center` with the
/// given normal, as the fraction `plane_t_num / plane_t_den` after sign
/// normalization; a zero denominator means the ray runs parallel.
pub open spec fn plane_t_den_raw(p: Plane, r: Ray) -> int {
    dot_spec(r.direction, p.normal)
}

pub open spec fn plane_t_num_raw(p: Plane, r: Ray) -> int {
    -(dot_spec(r.origin, p.normal) - dot_spec(p.center, p.normal))
}

pub open spec fn plane_t_num(p: Plane, r: Ray) -> int {
    if plane_t_den_raw(p, r) >= 0 { plane_t_num_raw(p, r) } else { -plane_t_num_raw(p, r) }
}

pub open spec fn plane_t_den(p: Plane, r: Ray) -> int {
    if plane_t_den_raw(p, r) >= 0 { plane_t_den_raw(p, r) } else { -plane_t_den_raw(p, r) }
}

/// What the plane does to the record: a strictly positive hit parameter,
/// strictly closer than the record, replaces it.
pub open spec fn plane_update(p: Plane, r: Ray, rec: Intersection) -> Intersection {
    let tn = plane_t_num(p, r);
    let td = plane_t_den(p, r);
    if plane_t_den_raw(p, r) != 0 && tn > 0 && improves(rec, tn, td) {
        Intersection {
            hit: true,
            t_num: tn as i128,
            t_den: td as i128,
            position: hit_position(r, tn, td),
            normal: p.normal,
            material: p.material,
        }
    } else {
        rec
    }
}

impl Plane {
    /// Ray-plane test: update the record in place when the plane is hit
    /// strictly closer.
    pub fn intersect(&self, ray: &Ray, intersection: &mut Intersection)
        requires
            plane_wf(*self),
            ray_wf(*ray),
            isect_wf(*old(intersection)),
        ensures
            *final(intersection) == plane_update(*self, *ray, *old(intersection)),
            isect_wf(*final(intersection)),
            isect_le(*final(intersection), *old(intersection)),
    {
        proof {
            lemma_mul_bounds(ray.direction.x as int, self.normal.x as int, 65536, 65536);
            lemma_mul_bounds(ray.direction.y as int, self.normal.y as int, 65536, 65536);
            lemma_mul_bounds(ray.direction.z as int, self.normal.z as int, 65536, 65536);
            lemma_mul_bounds(ray.origin.x as int, self.normal.x as int, 196608, 65536);
            lemma_mul_bounds(ray.origin.y as int, self.normal.y as int, 196608, 65536);
            lemma_mul_bounds(ray.origin.z as int, self.normal.z as int, 196608, 65536);
            lemma_mul_bounds(self.center.x as int, self.normal.x as int, 65536, 65536);
            lemma_mul_bounds(self.center.y as int, self.normal.y as int, 65536, 65536);
            lemma_mul_bounds(self.center.z as int, self.normal.z as int, 65536, 65536);
        }
        let vraw: i64 = ray.direction.x * self.normal.x
            + ray.direction.y * self.normal.y
            + ray.direction.z * self.normal.z;
        let on: i64 = ray.origin.x * self.normal.x
            + ray.origin.y * self.normal.y
            + ray.origin.z * self.normal.z;
        let cn: i64 = self.center.x * self.normal.x
            + self.center.y * self.normal.y
            + self.center.z * self.normal.z;
        if vraw == 0 {
            return;
        }
        let nraw: i64 = -(on - cn);
        let (tn64, td64) = if vraw >= 0 { (nraw, vraw) } else { (-nraw, -vraw) };
        let tn = tn64 as i128;
        let td = td64 as i128;
        if !(tn > 0) {
            return;
        }
        if !(!intersection.hit || frac_lt(tn, td, intersection.t_num, intersection.t_den)) {
            return;
        }
        proof {
            lemma_mul_bounds(tn as int, ray.direction.x as int, 825753550848, 65536);
            lemma_mul_bounds(tn as int, ray.direction.y as int, 825753550848, 65536);
            lemma_mul_bounds(tn as int, ray.direction.z as int, 825753550848, 65536);
        }
        let px = ray.origin.x + crate::triangle::clamp_offset(floor_div_i128(tn * (ray.direction.x as i128), td)) as i64;
        let py = ray.origin.y + crate::triangle::clamp_offset(floor_div_i128(tn * (ray.direction.y as i128), td)) as i64;
        let pz = ray.origin.z + crate::triangle::clamp_offset(floor_div_i128(tn * (ray.direction.z as i128), td)) as i64;
        *intersection = Intersection {
            hit: true,
            t_num: tn,
            t_den: td,
            position: Vector3 { x: px, y: py, z: pz },
            normal: self.normal,
            material: self.material,
        };
    }
}

/// A triangle mesh with its acceleration structure and surface material.
pub struct BvhMesh {
    pub mesh: Mesh,
    pub material: Material,
    pub bvh: BvhNode,
}

pub open spec fn bvh_mesh_wf(bm: BvhMesh) -> bool {
    &&& mesh_wf(bm.mesh)
    &&& bm.mesh.faces@.len() >= 1
    &&& material_wf(bm.material)
    &&& node_wf(bm.bvh, bm.mesh)
    &&& faces_seq(bm.bvh).to_multiset() == all_face_indexes(bm.mesh).to_multiset()
}

/// What the mesh does to the record: the scan of all faces under its tree,
/// with the mesh's material filled in when any face improved the record.
pub open spec fn bvh_mesh_update(bm: BvhMesh, r: Ray, rec: Intersection) -> Intersection {
    let scanned = scan_faces(bm.mesh, faces_seq(bm.bvh), r, rec);
    if scanned != rec {
        Intersection {
            hit: scanned.hit,
            t_num: scanned.t_num,
            t_den: scanned.t_den,
            position: scanned.position,
            normal: scanned.normal,
            material: bm.material,
        }
    } else {
        rec
    }
}

impl BvhMesh {
    /// Build the acceleration structure for a mesh once, eagerly. A mesh
    /// element exists to hold at least one face; the empty mesh is
    /// excluded because its tree would have no box on the grid.
    pub fn from_mesh(mesh: Mesh, material: Material) -> (bm: BvhMesh)
        requires
            mesh_wf(mesh),
            mesh.faces@.len() >= 1,
            material_wf(material),
        ensures
            bvh_mesh_wf(bm),
            bm.mesh == mesh,
            bm.material == material,
    {
        let bvh = BvhNode::from_mesh(&mesh);
        BvhMesh { mesh, material, bvh }
    }

    /// Nearest-hit query through the tree; the mesh's material is filled
    /// in whenever some face improved the record.
    pub fn intersect(&self, ray: &Ray, intersection: &mut Intersection) -> (hit: bool)
        requires
            bvh_mesh_wf(*self),
            ray_wf(*ray),
            isect_wf(*old(intersection)),
        ensures
            isect_wf(*final(intersection)),
            isect_le(*final(intersection), *old(intersection)),
            hit == (*final(intersection) != *old(intersection)),
            !slab_hit(self.bvh.left_bottom, self.bvh.right_top, *ray) ==>
                !hit && *final(intersection) == *old(intersection),
            hit ==> hit_from_face(self.mesh, faces_seq(self.bvh), *ray, *final(intersection))
                && final(intersection).material == self.material,
            box_front(self.bvh.left_bottom, self.bvh.right_top, *ray) ==>
                *final(intersection) == bvh_mesh_update(*self, *ray, *old(intersection)),
    {
        let hit = self.bvh.intersect(&self.mesh, ray, intersection);
        if hit {
            let ghost before = *intersection;
            intersection.material = self.material;
            proof {
                lemma_hit_from_face_material(
                    self.mesh, faces_seq(self.bvh), *ray, before, *intersection);
            }
        }
        hit
    }
}

/// The genuine-hit witness does not mention the material field, so
/// overwriting it keeps the witness.
proof fn lemma_hit_from_face_material(
    m: Mesh, faces: Seq<usize>, r: Ray, before: Intersection, after: Intersection)
    requires
        hit_from_face(m, faces, r, before),
        after.hit == before.hit,
        after.t_num == before.t_num,
        after.t_den == before.t_den,
        after.position == before.position,
        after.normal == before.normal,
    ensures
        hit_from_face(m, faces, r, after),
{
    let k = choose |k: int| 0 <= k < faces.len() && {
        let f = m.faces@[#[trigger] faces[k] as int];
        let a = m.vertexes@[f.v0 as int];
        let b = m.vertexes@[f.v1 as int];
        let c = m.vertexes@[f.v2 as int];
        &&& crate::triangle::tri_hit(a, b, c, r)
        &&& before.hit
        &&& before.t_num as int == crate::triangle::tri_tn(a, b, c, r)
        &&& before.t_den as int == crate::triangle::tri_den(a, b, c, r)
        &&& before.position == hit_position(r,
                crate::triangle::tri_tn(a, b, c, r), crate::triangle::tri_den(a, b, c, r))
        &&& before.normal == crate::triangle::tri_normal(a, b, c)
    };
    assert(0 <= k < faces.len());
}

/// One intersectable element of the scene: a closed set of variants
/// dispatched by a single intersect operation.
pub enum SceneElement {
    Sphere(Sphere),
    Plane(Plane),
    Mesh(BvhMesh),
}

pub open spec fn element_wf(e: SceneElement) -> bool {
    match e {
        SceneElement::Sphere(s) => sphere_wf(s),
        SceneElement::Plane(p) => plane_wf(p),
        SceneElement::Mesh(bm) => bvh_mesh_wf(bm),
    }
}

/// What one element does to the running record.
pub open spec fn element_update(e: SceneElement, r: Ray, rec: Intersection) -> Intersection {
    match e {
        SceneElement::Sphere(s) => sphere_update(s, r, rec),
        SceneElement::Plane(p) => plane_update(p, r, rec),
        SceneElement::Mesh(bm) => bvh_mesh_update(bm, r, rec),
    }
}

/// Fold the elements over the record, in scene order.
pub open spec fn scan_elements(es: Seq<SceneElement>, r: Ray, rec: Intersection) -> Intersection
    decreases es.len(),
{
    if es.len() == 0 {
        rec
    } else {
        scan_elements(es.skip(1), r, element_update(es[0], r, rec))
    }
}

/// No mesh element's root box reaches behind the ray origin. Traversal is
/// exact for such rays.
pub open spec fn scene_front(es: Seq<SceneElement>, r: Ray) -> bool {
    forall |i: int| 0 <= i < es.len() ==> match #[trigger] es[i] {
        SceneElement::Mesh(bm) => box_front(bm.bvh.left_bottom, bm.bvh.right_top, r),
        _ => true,
    }
}

/// An ordered collection of intersectable elements and the emission that a
/// ray escaping the scene picks up.
pub struct Scene {
    pub elements: Vec<SceneElement>,
    pub env_emission: Color,
}

pub open spec fn scene_wf(s: Scene) -> bool {
    &&& forall |i: int| 0 <= i < s.elements@.len() ==> element_wf(#[trigger] s.elements@[i])
    &&& color_wf(s.env_emission)
}

/// The record a whole-scene query returns on a miss: a fresh record
/// carrying the scene's environment emission.
pub open spec fn scene_miss_spec(s: Scene) -> Intersection {
    Intersection {
        hit: false,
        t_num: 1i128,
        t_den: 1i128,
        position: Vector3 { x: 0i64, y: 0i64, z: 0i64 },
        normal: Vector3 { x: 0i64, y: 0i64, z: 0i64 },
        material: Material {
            surface: crate::material::SurfaceType::Diffuse,
            albedo: Vector3 { x: 0i64, y: 0i64, z: 0i64 },
            emission: s.env_emission,
            roughness: 0i64,
        },
    }
}

/// The record a whole-scene query returns: the fold of all elements over a
/// fresh record, with the environment emission filled in on a miss.
pub open spec fn scene_hit_spec(s: Scene, r: Ray) -> Intersection {
    let rec = scan_elements(s.elements@, r, Intersection::new_spec());
    if !rec.hit {
        Intersection {
            hit: rec.hit,
            t_num: rec.t_num,
            t_den: rec.t_den,
            position: rec.position,
            normal: rec.normal,
            material: Material {
                surface: rec.material.surface,
                albedo: rec.material.albedo,
                emission: s.env_emission,
                roughness: rec.material.roughness,
            },
        }
    } else {
        rec
    }
}

impl Scene {
    /// Nearest hit of the ray against every element: a fresh record is
    /// threaded through a linear scan, and only a strictly closer hit ever
    /// overwrites it. On a miss the record carries the environment
    /// emission.
    pub fn intersect(&self, ray: &Ray) -> (result: Intersection)
        requires
            scene_wf(*self),
            ray_wf(*ray),
        ensures
            isect_wf(result),
            scene_front(self.elements@, *ray) ==> result == scene_hit_spec(*self, *ray),
            !result.hit ==> result == scene_miss_spec(*self),
            !result.hit ==> result.material.emission == self.env_emission,
    {
        let mut intersection = Intersection::new();
        let n = self.elements.len();
        let mut j: usize = 0;
        proof {
            assert(self.elements@.skip(0) =~= self.elements@);
        }
        while j < n
            invariant
                n == self.elements@.len(),
                0 <= j <= n,
                scene_wf(*self),
                ray_wf(*ray),
                isect_wf(intersection),
                isect_le(intersection, Intersection::new_spec()),
                scene_front(self.elements@, *ray) ==>
                    scan_elements(self.elements@.skip(j as int), *ray, intersection)
                        == scan_elements(self.elements@, *ray, Intersection::new_spec()),
                !intersection.hit ==> intersection == Intersection::new_spec(),
            decreases n - j,
        {
            let ghost pre = intersection;
            let element = &self.elements[j];
            match element {
                SceneElement::Sphere(s) => s.intersect(ray, &mut intersection),
                SceneElement::Plane(p) => p.intersect(ray, &mut intersection),
                SceneElement::Mesh(bm) => {
                    bm.intersect(ray, &mut intersection);
                },
            }
            proof {
                assert(self.elements@.skip(j as int)[0] == self.elements@[j as int]);
                assert(self.elements@.skip(j as int).skip(1)
                    =~= self.elements@.skip(j as int + 1));
                assert(isect_le(intersection, pre)) by {
                    match self.elements@[j as int] {
                        SceneElement::Sphere(s) => {},
                        SceneElement::Plane(p) => {},
                        SceneElement::Mesh(bm) => {},
                    }
                }
                lemma_isect_le_scene(intersection, pre, Intersection::new_spec());
            }
            j += 1;
        }
        proof {
            assert(self.elements@.skip(n as int) =~= Seq::<SceneElement>::empty());
        }
        if !intersection.hit {
            intersection.material.emission = self.env_emission;
        }
        intersection
    }
}

/// `isect_le` composes across the elements of a scan.
proof fn lemma_isect_le_scene(c: Intersection, b: Intersection, a: Intersection)
    requires
        isect_wf(a),
        isect_wf(b),
        isect_wf(c),
        isect_le(c, b),
        isect_le(b, a),
    ensures
        isect_le(c, a),
{
    if c != b && b != a {
        if a.hit {
            crate::fx::lemma_frac_lt_trans(
                c.t_num as int, c.t_den as int,
                b.t_num as int, b.t_den as int,
                a.t_num as int, a.t_den as int,
            );
        }
    }
}

} // verus!
