//! Bounding-volume hierarchy: build and traversal.
//!
//! The tree is strictly binary: a node either owns a set of face indices
//! (a leaf) or exactly two children. Every node's box contains its
//! children's boxes and, at leaves, every vertex of every owned face; the
//! well-formedness predicate `node_wf` is that invariant. Traversal prunes
//! a subtree only when the slab test misses its box; whenever no part of
//! the node's box lies behind the ray origin, the traversal result equals
//! the straight scan of all faces under the node.

use vstd::prelude::*;
use crate::fx::lemma_frac_lt_trans;
use crate::mesh::{Mesh, mesh_wf};
use crate::scene::{Intersection, isect_wf, improves, T_LIM, POS_LIM, NRM_LIM};
use crate::slab::{Ray, ray_wf, ray_in_box_at, slab_hit, intersect_aabb};
use crate::triangle::{
    tri_update, tri_hit, tri_tn, tri_den, tri_normal, intersect_polygon, vec_between,
    lemma_tri_hit_in_box, hit_position,
};
use crate::vector::{Vector3, vec_bounded, lemma_mul_le_mono, VMAX};

verus! {

pub struct BvhNode {
    pub left_bottom: Vector3,
    pub right_top: Vector3,
    // both children or none: none means leaf
    pub children: Option<Box<(BvhNode, BvhNode)>>,
    // nonempty only at leaf nodes
    pub face_indexes: Vec<usize>,
}

/// The three vertices of face `f` lie inside the box `[lb, rt]`.
pub open spec fn face_in_box(m: Mesh, f: usize, lb: Vector3, rt: Vector3) -> bool {
    &&& f < m.faces@.len()
    &&& vec_between(lb, rt, m.vertexes@[m.faces@[f as int].v0 as int])
    &&& vec_between(lb, rt, m.vertexes@[m.faces@[f as int].v1 as int])
    &&& vec_between(lb, rt, m.vertexes@[m.faces@[f as int].v2 as int])
}

/// The box `[ilb, irt]` lies inside the box `[olb, ort]`.
pub open spec fn box_within(ilb: Vector3, irt: Vector3, olb: Vector3, ort: Vector3) -> bool {
    &&& olb.x <= ilb.x && irt.x <= ort.x
    &&& olb.y <= ilb.y && irt.y <= ort.y
    &&& olb.z <= ilb.z && irt.z <= ort.z
}

/// The tight bounding box of a face set: the componentwise minimum and
/// maximum over every vertex of every referenced face, folded from the
/// empty-box identity.
pub open spec fn tight_box(m: Mesh, faces: Seq<usize>) -> (Vector3, Vector3)
    decreases faces.len(),
{
    if faces.len() == 0 {
        (
            Vector3 { x: i64::MAX, y: i64::MAX, z: i64::MAX },
            Vector3 { x: i64::MIN, y: i64::MIN, z: i64::MIN },
        )
    } else {
        let prev = tight_box(m, faces.drop_last());
        let f = m.faces@[faces.last() as int];
        let v0 = m.vertexes@[f.v0 as int];
        let v1 = m.vertexes@[f.v1 as int];
        let v2 = m.vertexes@[f.v2 as int];
        (
            prev.0.min_components_spec(v0).min_components_spec(v1).min_components_spec(v2),
            prev.1.max_components_spec(v0).max_components_spec(v1).max_components_spec(v2),
        )
    }
}

/// The splitting axis of a box: the one of greatest extent, ties broken
/// toward x, then y, then z.
pub open spec fn split_axis(lb: Vector3, rt: Vector3) -> u8 {
    let lx = rt.x - lb.x;
    let ly = rt.y - lb.y;
    let lz = rt.z - lb.z;
    if lx >= ly && lx >= lz {
        0u8
    } else if ly >= lz {
        1u8
    } else {
        2u8
    }
}

/// Structural invariant of the tree: bounded ordered boxes, every node's
/// box tight (a leaf's box is exactly the fold over its faces, an interior
/// node's box exactly the union of its children's), faces inside leaf
/// boxes, children's boxes inside their parent's box.
pub open spec fn node_wf(n: BvhNode, m: Mesh) -> bool
    decreases n,
{
    &&& vec_bounded(n.left_bottom, VMAX as int)
    &&& vec_bounded(n.right_top, VMAX as int)
    &&& match n.children {
        Option::Some(c) => {
            &&& n.face_indexes@.len() == 0
            &&& node_wf(c.0, m)
            &&& node_wf(c.1, m)
            &&& box_within(c.0.left_bottom, c.0.right_top, n.left_bottom, n.right_top)
            &&& box_within(c.1.left_bottom, c.1.right_top, n.left_bottom, n.right_top)
            &&& n.left_bottom == c.0.left_bottom.min_components_spec(c.1.left_bottom)
            &&& n.right_top == c.0.right_top.max_components_spec(c.1.right_top)
        },
        Option::None => {
            &&& forall |i: int| 0 <= i < n.face_indexes@.len() ==>
                face_in_box(m, #[trigger] n.face_indexes@[i], n.left_bottom, n.right_top)
            &&& (n.left_bottom, n.right_top) == tight_box(m, n.face_indexes@)
        },
    }
}

/// All face indices under the node, leaves left to right.
pub open spec fn faces_seq(n: BvhNode) -> Seq<usize>
    decreases n,
{
    match n.children {
        Option::Some(c) => faces_seq(c.0) + faces_seq(c.1),
        Option::None => n.face_indexes@,
    }
}

/// Fold one triangle test per face over the record, front to back of the
/// sequence: the reference semantics of every intersection routine over a
/// face set.
pub open spec fn scan_faces(m: Mesh, faces: Seq<usize>, r: Ray, rec: Intersection) -> Intersection
    decreases faces.len(),
{
    if faces.len() == 0 {
        rec
    } else {
        let f = m.faces@[faces[0] as int];
        let rec2 = tri_update(
            m.vertexes@[f.v0 as int],
            m.vertexes@[f.v1 as int],
            m.vertexes@[f.v2 as int],
            r,
            rec,
        );
        scan_faces(m, faces.skip(1), r, rec2)
    }
}

/// No part of the box lies behind the ray origin. Under this condition a
/// slab-test miss really means that the ray never reaches the box.
pub open spec fn box_front(lb: Vector3, rt: Vector3, r: Ray) -> bool {
    forall |p: int, q: int| p < 0 ==> !#[trigger] ray_in_box_at(lb, rt, r, p, q)
}

/// The record `b` is the record `a` after zero or more strict improvements.
pub open spec fn isect_le(b: Intersection, a: Intersection) -> bool {
    b == a || (b.hit && improves(a, b.t_num as int, b.t_den as int))
}

/// The record carries a genuine hit of one of the given faces: its
/// distance fraction, position and normal are that triangle's.
pub open spec fn hit_from_face(m: Mesh, faces: Seq<usize>, r: Ray, rec: Intersection) -> bool {
    exists |k: int| 0 <= k < faces.len() && {
        let f = m.faces@[#[trigger] faces[k] as int];
        let a = m.vertexes@[f.v0 as int];
        let b = m.vertexes@[f.v1 as int];
        let c = m.vertexes@[f.v2 as int];
        &&& tri_hit(a, b, c, r)
        &&& rec.hit
        &&& rec.t_num as int == tri_tn(a, b, c, r)
        &&& rec.t_den as int == tri_den(a, b, c, r)
        &&& rec.position == hit_position(r, tri_tn(a, b, c, r), tri_den(a, b, c, r))
        &&& rec.normal == tri_normal(a, b, c)
    }
}

/// A witness among the right half of a concatenation is a witness in the
/// whole.
proof fn lemma_hit_from_concat_right(
    m: Mesh, s1: Seq<usize>, s2: Seq<usize>, r: Ray, rec: Intersection)
    requires
        hit_from_face(m, s2, r, rec),
    ensures
        hit_from_face(m, s1 + s2, r, rec),
{
    let k = choose |k: int| 0 <= k < s2.len() && {
        let f = m.faces@[#[trigger] s2[k] as int];
        let a = m.vertexes@[f.v0 as int];
        let b = m.vertexes@[f.v1 as int];
        let c = m.vertexes@[f.v2 as int];
        &&& tri_hit(a, b, c, r)
        &&& rec.hit
        &&& rec.t_num as int == tri_tn(a, b, c, r)
        &&& rec.t_den as int == tri_den(a, b, c, r)
        &&& rec.position == hit_position(r, tri_tn(a, b, c, r), tri_den(a, b, c, r))
        &&& rec.normal == tri_normal(a, b, c)
    };
    assert((s1 + s2)[s1.len() + k] == s2[k]);
}

/// A witness among the left half of a concatenation is a witness in the
/// whole.
proof fn lemma_hit_from_concat_left(
    m: Mesh, s1: Seq<usize>, s2: Seq<usize>, r: Ray, rec: Intersection)
    requires
        hit_from_face(m, s1, r, rec),
    ensures
        hit_from_face(m, s1 + s2, r, rec),
{
    let k = choose |k: int| 0 <= k < s1.len() && {
        let f = m.faces@[#[trigger] s1[k] as int];
        let a = m.vertexes@[f.v0 as int];
        let b = m.vertexes@[f.v1 as int];
        let c = m.vertexes@[f.v2 as int];
        &&& tri_hit(a, b, c, r)
        &&& rec.hit
        &&& rec.t_num as int == tri_tn(a, b, c, r)
        &&& rec.t_den as int == tri_den(a, b, c, r)
        &&& rec.position == hit_position(r, tri_tn(a, b, c, r), tri_den(a, b, c, r))
        &&& rec.normal == tri_normal(a, b, c)
    };
    assert((s1 + s2)[k] == s1[k]);
}

/// A fraction does not strictly improve on itself.
proof fn lemma_frac_lt_irrefl(n: int, d: int)
    ensures
        !(n * d < n * d),
{
}

/// `isect_le` composes, and a strict improvement cannot circle back.
proof fn lemma_isect_le_trans(c: Intersection, b: Intersection, a: Intersection)
    requires
        a.hit ==> 0 < a.t_den,
        b.hit ==> 0 < b.t_den,
        c.hit ==> 0 < c.t_den,
        isect_le(c, b),
        isect_le(b, a),
    ensures
        isect_le(c, a),
        c != a || (c == b && b == a),
{
    if c == b || b == a {
        if c != a && c != b {
            lemma_frac_lt_irrefl(c.t_num as int, c.t_den as int);
        }
    } else {
        assert(b.hit && improves(a, b.t_num as int, b.t_den as int));
        assert(c.hit && improves(b, c.t_num as int, c.t_den as int));
        if a.hit {
            lemma_frac_lt_trans(
                c.t_num as int, c.t_den as int,
                b.t_num as int, b.t_den as int,
                a.t_num as int, a.t_den as int,
            );
        }
        if c == a {
            lemma_frac_lt_irrefl(c.t_num as int, c.t_den as int);
        }
    }
}

/// An inner box in front of the origin stays in front when the outer box is.
proof fn lemma_front_within(
    ilb: Vector3, irt: Vector3,
    olb: Vector3, ort: Vector3,
    r: Ray,
)
    requires
        box_within(ilb, irt, olb, ort),
        box_front(olb, ort, r),
    ensures
        box_front(ilb, irt, r),
{
    assert forall |p: int, q: int| p < 0 implies !#[trigger] ray_in_box_at(ilb, irt, r, p, q) by {
        if ray_in_box_at(ilb, irt, r, p, q) {
            lemma_mul_le_mono(olb.x as int, ilb.x as int, q);
            lemma_mul_le_mono(olb.y as int, ilb.y as int, q);
            lemma_mul_le_mono(olb.z as int, ilb.z as int, q);
            lemma_mul_le_mono(irt.x as int, ort.x as int, q);
            lemma_mul_le_mono(irt.y as int, ort.y as int, q);
            lemma_mul_le_mono(irt.z as int, ort.z as int, q);
            assert(ray_in_box_at(olb, ort, r, p, q));
        }
    }
}

/// Every face under a well-formed node lies inside the node's box.
proof fn lemma_faces_in_node_box(n: BvhNode, m: Mesh, i: int)
    requires
        node_wf(n, m),
        0 <= i < faces_seq(n).len(),
    ensures
        face_in_box(m, faces_seq(n)[i], n.left_bottom, n.right_top),
    decreases n,
{
    match n.children {
        Option::Some(c) => {
            let left = faces_seq(c.0);
            if i < left.len() {
                lemma_faces_in_node_box(c.0, m, i);
            } else {
                lemma_faces_in_node_box(c.1, m, i - left.len());
            }
        },
        Option::None => {},
    }
}

/// When no triangle of the set is hit, the scan leaves the record alone.
proof fn lemma_scan_no_hit(m: Mesh, faces: Seq<usize>, r: Ray, rec: Intersection)
    requires
        forall |i: int| 0 <= i < faces.len() ==> {
            let f = m.faces@[#[trigger] faces[i] as int];
            !tri_hit(
                m.vertexes@[f.v0 as int],
                m.vertexes@[f.v1 as int],
                m.vertexes@[f.v2 as int],
                r,
            )
        },
    ensures
        scan_faces(m, faces, r, rec) == rec,
    decreases faces.len(),
{
    if faces.len() > 0 {
        lemma_scan_no_hit(m, faces.skip(1), r, rec);
    }
}

/// Scanning a concatenation scans the two halves in order.
proof fn lemma_scan_concat(m: Mesh, s1: Seq<usize>, s2: Seq<usize>, r: Ray, rec: Intersection)
    ensures
        scan_faces(m, s1 + s2, r, rec) == scan_faces(m, s2, r, scan_faces(m, s1, r, rec)),
    decreases s1.len(),
{
    if s1.len() == 0 {
        assert(s1 + s2 =~= s2);
    } else {
        let f = m.faces@[(s1 + s2)[0] as int];
        let rec2 = tri_update(
            m.vertexes@[f.v0 as int],
            m.vertexes@[f.v1 as int],
            m.vertexes@[f.v2 as int],
            r,
            rec,
        );
        assert((s1 + s2).skip(1) =~= s1.skip(1) + s2);
        lemma_scan_concat(m, s1.skip(1), s2, r, rec2);
    }
}

impl BvhNode {
    /// Recursive nearest-hit query against the subtree. A subtree is pruned
    /// exactly when the slab test misses its box; whenever the node's box
    /// has no part behind the ray origin, the outcome equals the straight
    /// scan of every face under the node.
    pub fn intersect(&self, mesh: &Mesh, ray: &Ray, intersection: &mut Intersection) -> (hit: bool)
        requires
            node_wf(*self, *mesh),
            mesh_wf(*mesh),
            ray_wf(*ray),
            isect_wf(*old(intersection)),
        ensures
            isect_wf(*final(intersection)),
            final(intersection).material == old(intersection).material,
            isect_le(*final(intersection), *old(intersection)),
            hit == (*final(intersection) != *old(intersection)),
            !slab_hit(self.left_bottom, self.right_top, *ray) ==>
                !hit && *final(intersection) == *old(intersection),
            hit ==> hit_from_face(*mesh, faces_seq(*self), *ray, *final(intersection)),
            box_front(self.left_bottom, self.right_top, *ray) ==>
                *final(intersection) == scan_faces(*mesh, faces_seq(*self), *ray, *old(intersection)),
        decreases *self,
    {
        if !intersect_aabb(&self.left_bottom, &self.right_top, ray) {
            proof {
                if box_front(self.left_bottom, self.right_top, *ray) {
                    // The slab test failed and nothing of the box is behind:
                    // the ray never reaches the box, hence no face is hit.
                    assert forall |i: int| 0 <= i < faces_seq(*self).len() implies {
                        let f = mesh.faces@[#[trigger] faces_seq(*self)[i] as int];
                        !tri_hit(
                            mesh.vertexes@[f.v0 as int],
                            mesh.vertexes@[f.v1 as int],
                            mesh.vertexes@[f.v2 as int],
                            *ray,
                        )
                    } by {
                        lemma_faces_in_node_box(*self, *mesh, i);
                        let f = mesh.faces@[faces_seq(*self)[i] as int];
                        let v0 = mesh.vertexes@[f.v0 as int];
                        let v1 = mesh.vertexes@[f.v1 as int];
                        let v2 = mesh.vertexes@[f.v2 as int];
                        if tri_hit(v0, v1, v2, *ray) {
                            lemma_tri_hit_in_box(
                                self.left_bottom, self.right_top, v0, v1, v2, *ray);
                            assert(ray_in_box_at(
                                self.left_bottom, self.right_top, *ray,
                                tri_tn(v0, v1, v2, *ray), tri_den(v0, v1, v2, *ray)));
                        }
                    }
                    lemma_scan_no_hit(*mesh, faces_seq(*self), *ray, *old(intersection));
                }
            }
            return false;
        }

        let mut any_hit = false;
        match &self.children {
            Option::None => {
                // Leaf: test every owned triangle against the ray.
                let ghost rec0 = *intersection;
                let n = self.face_indexes.len();
                let mut j: usize = 0;
                proof {
                    assert(self.face_indexes@.skip(0) =~= self.face_indexes@);
                }
                while j < n
                    invariant
                        n == self.face_indexes@.len(),
                        0 <= j <= n,
                        mesh_wf(*mesh),
                        ray_wf(*ray),
                        node_wf(*self, *mesh),
                        self.children is None,
                        isect_wf(*intersection),
                        isect_wf(rec0),
                        intersection.material == rec0.material,
                        isect_le(*intersection, rec0),
                        any_hit == (*intersection != rec0),
                        any_hit ==> hit_from_face(*mesh, self.face_indexes@, *ray, *intersection),
                        scan_faces(*mesh, self.face_indexes@.skip(j as int), *ray, *intersection)
                            == scan_faces(*mesh, self.face_indexes@, *ray, rec0),
                    decreases n - j,
                {
                    let f = self.face_indexes[j];
                    proof {
                        assert(face_in_box(*mesh, self.face_indexes@[j as int],
                            self.left_bottom, self.right_top));
                    }
                    let face = &mesh.faces[f];
                    let ghost pre = *intersection;
                    let updated = intersect_polygon(
                        &mesh.vertexes[face.v0],
                        &mesh.vertexes[face.v1],
                        &mesh.vertexes[face.v2],
                        ray,
                        intersection,
                    );
                    proof {
                        assert(self.face_indexes@.skip(j as int)[0] == self.face_indexes@[j as int]);
                        assert(self.face_indexes@.skip(j as int).skip(1)
                            =~= self.face_indexes@.skip(j as int + 1));
                        lemma_isect_le_trans(*intersection, pre, rec0);
                        if updated {
                            assert(*intersection != pre);
                            // The update wrote exactly this triangle's hit.
                            lemma_tri_bounds(
                                mesh.vertexes@[mesh.faces@[self.face_indexes@[j as int] as int].v0 as int],
                                mesh.vertexes@[mesh.faces@[self.face_indexes@[j as int] as int].v1 as int],
                                mesh.vertexes@[mesh.faces@[self.face_indexes@[j as int] as int].v2 as int],
                                *ray);
                            assert(0 <= j < self.face_indexes@.len() && {
                                let f = mesh.faces@[self.face_indexes@[j as int] as int];
                                let a = mesh.vertexes@[f.v0 as int];
                                let b = mesh.vertexes@[f.v1 as int];
                                let c = mesh.vertexes@[f.v2 as int];
                                &&& tri_hit(a, b, c, *ray)
                                &&& intersection.hit
                                &&& intersection.t_num as int == tri_tn(a, b, c, *ray)
                                &&& intersection.t_den as int == tri_den(a, b, c, *ray)
                                &&& intersection.position
                                    == hit_position(*ray, tri_tn(a, b, c, *ray), tri_den(a, b, c, *ray))
                                &&& intersection.normal == tri_normal(a, b, c)
                            });
                        }
                    }
                    if updated {
                        any_hit = true;
                    }
                    j += 1;
                }
                proof {
                    assert(self.face_indexes@.skip(n as int) =~= Seq::<usize>::empty());
                }
            },
            Option::Some(c) => {
                // Interior: both children are visited; the shared record is
                // the only pruning signal.
                let ghost rec0 = *intersection;
                let hit_left = c.0.intersect(mesh, ray, intersection);
                let ghost mid = *intersection;
                let hit_right = c.1.intersect(mesh, ray, intersection);
                any_hit = hit_left || hit_right;
                proof {
                    lemma_isect_le_trans(*intersection, mid, rec0);
                    if hit_right {
                        lemma_hit_from_concat_right(
                            *mesh, faces_seq(c.0), faces_seq(c.1), *ray, *intersection);
                    } else if hit_left {
                        lemma_hit_from_concat_left(
                            *mesh, faces_seq(c.0), faces_seq(c.1), *ray, *intersection);
                    }
                    if box_front(self.left_bottom, self.right_top, *ray) {
                        lemma_front_within(
                            c.0.left_bottom, c.0.right_top,
                            self.left_bottom, self.right_top, *ray);
                        lemma_front_within(
                            c.1.left_bottom, c.1.right_top,
                            self.left_bottom, self.right_top, *ray);
                        lemma_scan_concat(
                            *mesh, faces_seq(c.0), faces_seq(c.1), *ray, rec0);
                    }
                }
            },
        }
        any_hit
    }
}

/// Sort key of a face along one axis: the sum of its three vertex
/// coordinates on that axis, a cheap proxy for the centroid.
pub open spec fn face_key(m: Mesh, f: usize, axis: u8) -> int {
    let face = m.faces@[f as int];
    let a = m.vertexes@[face.v0 as int];
    let b = m.vertexes@[face.v1 as int];
    let c = m.vertexes@[face.v2 as int];
    if axis == 0 {
        a.x + b.x + c.x
    } else if axis == 1 {
        a.y + b.y + c.y
    } else {
        a.z + b.z + c.z
    }
}

/// Compute `face_key` on the live mesh.
fn face_axis_sum(mesh: &Mesh, f: usize, axis: u8) -> (r: i64)
    requires
        mesh_wf(*mesh),
        f < mesh.faces@.len(),
    ensures
        r as int == face_key(*mesh, f, axis),
{
    let face = &mesh.faces[f];
    let a = &mesh.vertexes[face.v0];
    let b = &mesh.vertexes[face.v1];
    let c = &mesh.vertexes[face.v2];
    if axis == 0 {
        a.x + b.x + c.x
    } else if axis == 1 {
        a.y + b.y + c.y
    } else {
        a.z + b.z + c.z
    }
}

/// Swapping two positions permutes a sequence.
proof fn lemma_swap_multiset<A>(s: Seq<A>, a: int, b: int)
    requires
        0 <= a < s.len(),
        0 <= b < s.len(),
        a != b,
    ensures
        s.update(a, s[b]).update(b, s[a]).to_multiset() == s.to_multiset(),
{
    broadcast use vstd::seq_lib::group_to_multiset_ensures;
    let s1 = s.update(a, s[b]);
    let s2 = s1.update(b, s[a]);
    assert(s1.to_multiset() =~= s.to_multiset().remove(s[a]).insert(s[b]));
    assert(s1[b] == s[b]);
    assert(s2.to_multiset() =~= s1.to_multiset().remove(s[b]).insert(s[a]));
    assert(s.to_multiset().contains(s[a]));
    assert(s2.to_multiset() =~= s.to_multiset());
}

/// Insertion sort of a face-index set by `face_key` along the given axis:
/// reorders the indices and nothing else.
fn sort_by_axis_sum(mesh: &Mesh, v: &mut Vec<usize>, axis: u8)
    requires
        mesh_wf(*mesh),
        forall |k: int| 0 <= k < old(v)@.len() ==> #[trigger] old(v)@[k] < mesh.faces@.len(),
    ensures
        final(v)@.to_multiset() == old(v)@.to_multiset(),
        final(v)@.len() == old(v)@.len(),
        forall |k: int| 0 <= k < final(v)@.len() ==> #[trigger] final(v)@[k] < mesh.faces@.len(),
        forall |a: int, b: int| 0 <= a <= b < final(v)@.len() ==>
            face_key(*mesh, #[trigger] final(v)@[a], axis)
                <= face_key(*mesh, #[trigger] final(v)@[b], axis),
{
    let n = v.len();
    if n == 0 {
        return;
    }
    let mut i: usize = 1;
    while i < n
        invariant
            mesh_wf(*mesh),
            n == v@.len(),
            1 <= i <= n,
            v@.to_multiset() == old(v)@.to_multiset(),
            v@.len() == old(v)@.len(),
            forall |k: int| 0 <= k < v@.len() ==> #[trigger] v@[k] < mesh.faces@.len(),
            forall |a: int, b: int| 0 <= a <= b < i ==>
                face_key(*mesh, #[trigger] v@[a], axis) <= face_key(*mesh, #[trigger] v@[b], axis),
        decreases n - i,
    {
        let mut j: usize = i;
        while j > 0 && face_axis_sum(mesh, v[j - 1], axis) > face_axis_sum(mesh, v[j], axis)
            invariant
                mesh_wf(*mesh),
                n == v@.len(),
                0 <= j <= i < n,
                v@.to_multiset() == old(v)@.to_multiset(),
                v@.len() == old(v)@.len(),
                forall |k: int| 0 <= k < v@.len() ==> #[trigger] v@[k] < mesh.faces@.len(),
                forall |a: int, b: int| 0 <= a <= b <= i && a != j && b != j ==>
                    face_key(*mesh, #[trigger] v@[a], axis)
                        <= face_key(*mesh, #[trigger] v@[b], axis),
                forall |b: int| j < b <= i ==>
                    face_key(*mesh, v@[j as int], axis)
                        <= face_key(*mesh, #[trigger] v@[b], axis),
            decreases j,
        {
            let ghost pre = v@;
            let x = v[j - 1];
            let y = v[j];
            v.set(j - 1, y);
            v.set(j, x);
            proof {
                assert(v@ =~= pre.update(j - 1, pre[j as int]).update(j as int, pre[j - 1]));
                lemma_swap_multiset(pre, j - 1, j as int);
            }
            j -= 1;
        }
        i += 1;
    }
}

/// Copy out the halves `[0, mid)` and `[mid, len)` of the index set.
fn split_at_mid(v: &Vec<usize>, mid: usize) -> (r: (Vec<usize>, Vec<usize>))
    requires
        mid <= v@.len(),
    ensures
        r.0@ == v@.take(mid as int),
        r.1@ == v@.skip(mid as int),
{
    let mut left: Vec<usize> = Vec::new();
    let mut right: Vec<usize> = Vec::new();
    let mut k: usize = 0;
    while k < mid
        invariant
            0 <= k <= mid <= v@.len(),
            left@ == v@.take(k as int),
        decreases mid - k,
    {
        left.push(v[k]);
        proof {
            assert(v@.take(k + 1) =~= v@.take(k as int).push(v@[k as int]));
        }
        k += 1;
    }
    let n = v.len();
    let mut k2: usize = mid;
    while k2 < n
        invariant
            mid <= k2 <= n,
            n == v@.len(),
            right@ == v@.subrange(mid as int, k2 as int),
        decreases n - k2,
    {
        right.push(v[k2]);
        proof {
            assert(v@.subrange(mid as int, k2 + 1)
                =~= v@.subrange(mid as int, k2 as int).push(v@[k2 as int]));
        }
        k2 += 1;
    }
    proof {
        assert(v@.subrange(mid as int, n as int) =~= v@.skip(mid as int));
    }
    (left, right)
}

impl BvhNode {
    /// A node with an empty box (the identity of box union) and no
    /// children or faces.
    pub fn empty() -> (n: BvhNode)
        ensures
            n.left_bottom.x == i64::MAX && n.left_bottom.y == i64::MAX && n.left_bottom.z == i64::MAX,
            n.right_top.x == i64::MIN && n.right_top.y == i64::MIN && n.right_top.z == i64::MIN,
            n.children is None,
            n.face_indexes@.len() == 0,
    {
        BvhNode {
            left_bottom: Vector3 { x: i64::MAX, y: i64::MAX, z: i64::MAX },
            right_top: Vector3 { x: i64::MIN, y: i64::MIN, z: i64::MIN },
            children: Option::None,
            face_indexes: Vec::new(),
        }
    }

    /// Grow this node's box to the minimum and maximum of every vertex of
    /// the given faces.
    pub fn set_aabb(&mut self, mesh: &Mesh, face_indexes: &Vec<usize>)
        requires
            mesh_wf(*mesh),
            forall |k: int| 0 <= k < face_indexes@.len() ==>
                #[trigger] face_indexes@[k] < mesh.faces@.len(),
            old(self).left_bottom.x == i64::MAX
                && old(self).left_bottom.y == i64::MAX && old(self).left_bottom.z == i64::MAX,
            old(self).right_top.x == i64::MIN
                && old(self).right_top.y == i64::MIN && old(self).right_top.z == i64::MIN,
        ensures
            final(self).children == old(self).children,
            final(self).face_indexes == old(self).face_indexes,
            (final(self).left_bottom, final(self).right_top)
                == tight_box(*mesh, face_indexes@),
            forall |k: int| 0 <= k < face_indexes@.len() ==>
                face_in_box(*mesh, #[trigger] face_indexes@[k],
                    final(self).left_bottom, final(self).right_top),
            face_indexes@.len() > 0 ==> {
                &&& vec_bounded(final(self).left_bottom, VMAX as int)
                &&& vec_bounded(final(self).right_top, VMAX as int)
            },
    {
        let n = face_indexes.len();
        let mut k: usize = 0;
        proof {
            assert(face_indexes@.take(0) =~= Seq::<usize>::empty());
        }
        while k < n
            invariant
                (self.left_bottom, self.right_top)
                    == tight_box(*mesh, face_indexes@.take(k as int)),
                mesh_wf(*mesh),
                n == face_indexes@.len(),
                0 <= k <= n,
                forall |t: int| 0 <= t < face_indexes@.len() ==>
                    #[trigger] face_indexes@[t] < mesh.faces@.len(),
                self.children == old(self).children,
                self.face_indexes == old(self).face_indexes,
                forall |t: int| 0 <= t < k ==>
                    face_in_box(*mesh, #[trigger] face_indexes@[t],
                        self.left_bottom, self.right_top),
                k == 0 ==> self.left_bottom.x == i64::MAX
                    && self.left_bottom.y == i64::MAX && self.left_bottom.z == i64::MAX
                    && self.right_top.x == i64::MIN
                    && self.right_top.y == i64::MIN && self.right_top.z == i64::MIN,
                k > 0 ==> vec_bounded(self.left_bottom, VMAX as int)
                    && vec_bounded(self.right_top, VMAX as int),
            decreases n - k,
        {
            let face = &mesh.faces[face_indexes[k]];
            let v0 = &mesh.vertexes[face.v0];
            let v1 = &mesh.vertexes[face.v1];
            let v2 = &mesh.vertexes[face.v2];
            proof {
                assert(vec_bounded(*v0, VMAX as int));
                assert(vec_bounded(*v1, VMAX as int));
                assert(vec_bounded(*v2, VMAX as int));
            }
            let lb = self
                .left_bottom
                .min_components(v0)
                .min_components(v1)
                .min_components(v2);
            let rt = self
                .right_top
                .max_components(v0)
                .max_components(v1)
                .max_components(v2);
            proof {
                assert(vec_bounded(lb, VMAX as int));
                assert(vec_bounded(rt, VMAX as int));
            }
            proof {
                assert(face_indexes@.take(k + 1).drop_last() =~= face_indexes@.take(k as int));
                assert(face_indexes@.take(k + 1).last() == face_indexes@[k as int]);
            }
            self.left_bottom = lb;
            self.right_top = rt;
            k += 1;
        }
        proof {
            assert(face_indexes@.take(n as int) =~= face_indexes@);
        }
    }

    /// Recursively partition the given face-index set into a tree: sets of
    /// at most two faces become leaves (kept in their given order); larger
    /// sets are sorted by vertex-coordinate sum along the widest axis of
    /// their tight box (ties toward x, then y, then z) and split into the
    /// two halves at the midpoint. The empty set is excluded: a node with
    /// no faces has no box on the coordinate grid.
    pub fn from_face_indexes(mesh: &Mesh, face_indexes: Vec<usize>) -> (n: BvhNode)
        requires
            mesh_wf(*mesh),
            face_indexes@.len() >= 1,
            forall |k: int| 0 <= k < face_indexes@.len() ==>
                #[trigger] face_indexes@[k] < mesh.faces@.len(),
        ensures
            node_wf(n, *mesh),
            faces_seq(n).to_multiset() == face_indexes@.to_multiset(),
            faces_seq(n).len() == face_indexes@.len(),
            (n.children is None) <==> face_indexes@.len() <= 2,
            face_indexes@.len() <= 2 ==> n.face_indexes@ == face_indexes@,
            face_indexes@.len() > 2 ==> (match n.children {
                Option::Some(c) => {
                    let ax = split_axis(
                        tight_box(*mesh, face_indexes@).0, tight_box(*mesh, face_indexes@).1);
                    &&& faces_seq(c.0).len() == face_indexes@.len() / 2
                    &&& faces_seq(c.1).len()
                        == face_indexes@.len() - face_indexes@.len() / 2
                    &&& forall |i: int, j: int|
                        0 <= i < faces_seq(c.0).len() && 0 <= j < faces_seq(c.1).len() ==>
                            face_key(*mesh, #[trigger] faces_seq(c.0)[i], ax)
                                <= face_key(*mesh, #[trigger] faces_seq(c.1)[j], ax)
                },
                Option::None => false,
            }),
        decreases face_indexes@.len(),
    {
        let mut node = BvhNode::empty();
        node.set_aabb(mesh, &face_indexes);

        let len = face_indexes.len();
        if len > 2 {
            // Interior node: split the sorted set at its midpoint.
            let lx = node.right_top.x - node.left_bottom.x;
            let ly = node.right_top.y - node.left_bottom.y;
            let lz = node.right_top.z - node.left_bottom.z;
            let axis: u8 = if lx >= ly && lx >= lz {
                0
            } else if ly >= lz {
                1
            } else {
                2
            };
            let mut sorted = face_indexes;
            sort_by_axis_sum(mesh, &mut sorted, axis);
            let mid = len / 2;
            let (left_half, right_half) = split_at_mid(&sorted, mid);
            let ghost sorted_view = sorted@;
            let left_child = BvhNode::from_face_indexes(mesh, left_half);
            let right_child = BvhNode::from_face_indexes(mesh, right_half);
            let lb = left_child.left_bottom.min_components(&right_child.left_bottom);
            let rt = left_child.right_top.max_components(&right_child.right_top);
            let result = BvhNode {
                left_bottom: lb,
                right_top: rt,
                children: Option::Some(Box::new((left_child, right_child))),
                face_indexes: Vec::new(),
            };
            proof {
                broadcast use vstd::seq_lib::group_to_multiset_ensures;
                assert(sorted_view.take(mid as int) + sorted_view.skip(mid as int) =~= sorted_view);
                vstd::seq_lib::lemma_multiset_commutative(
                    sorted_view.take(mid as int), sorted_view.skip(mid as int));
                vstd::seq_lib::lemma_multiset_commutative(
                    faces_seq(left_child), faces_seq(right_child));
                assert(faces_seq(result) == faces_seq(left_child) + faces_seq(right_child));
                assert(faces_seq(result).to_multiset()
                    == faces_seq(left_child).to_multiset().add(faces_seq(right_child).to_multiset()));
                assert(sorted_view.to_multiset()
                    == sorted_view.take(mid as int).to_multiset()
                        .add(sorted_view.skip(mid as int).to_multiset()));
                assert(faces_seq(result).to_multiset() == sorted_view.to_multiset());
                // The sorted split leaves every left-child key at or below
                // every right-child key along the chosen axis.
                assert forall |i: int, j: int|
                    0 <= i < faces_seq(left_child).len() && 0 <= j < faces_seq(right_child).len()
                    implies face_key(*mesh, #[trigger] faces_seq(left_child)[i], axis)
                        <= face_key(*mesh, #[trigger] faces_seq(right_child)[j], axis) by {
                    let x = faces_seq(left_child)[i];
                    let y = faces_seq(right_child)[j];
                    assert(faces_seq(left_child).contains(x));
                    assert(faces_seq(left_child).to_multiset().count(x) > 0);
                    assert(sorted_view.take(mid as int).contains(x));
                    let k = choose |k: int| 0 <= k < sorted_view.take(mid as int).len()
                        && sorted_view.take(mid as int)[k] == x;
                    assert(sorted_view[k] == x);
                    assert(faces_seq(right_child).contains(y));
                    assert(faces_seq(right_child).to_multiset().count(y) > 0);
                    assert(sorted_view.skip(mid as int).contains(y));
                    let l = choose |l: int| 0 <= l < sorted_view.skip(mid as int).len()
                        && sorted_view.skip(mid as int)[l] == y;
                    assert(sorted_view[mid + l] == y);
                }
            }
            result
        } else {
            // Leaf node: keep the face set.
            node.face_indexes = face_indexes;
            node
        }
    }

    /// Build the hierarchy over every face of the mesh. An empty mesh is
    /// excluded: its root would have no box on the coordinate grid.
    pub fn from_mesh(mesh: &Mesh) -> (n: BvhNode)
        requires
            mesh_wf(*mesh),
            mesh.faces@.len() >= 1,
        ensures
            node_wf(n, *mesh),
            faces_seq(n).to_multiset() == all_face_indexes(*mesh).to_multiset(),
            faces_seq(n).len() == mesh.faces@.len(),
            (n.children is None) <==> mesh.faces@.len() <= 2,
    {
        let count = mesh.faces.len();
        let mut face_indexes: Vec<usize> = Vec::new();
        let mut k: usize = 0;
        while k < count
            invariant
                0 <= k <= count,
                count == mesh.faces@.len(),
                face_indexes@.len() == k,
                forall |t: int| 0 <= t < k ==> #[trigger] face_indexes@[t] == t as usize,
            decreases count - k,
        {
            face_indexes.push(k);
            k += 1;
        }
        proof {
            assert(face_indexes@ =~= all_face_indexes(*mesh));
        }
        BvhNode::from_face_indexes(mesh, face_indexes)
    }
}

/// The index of every face of the mesh, in order.
pub open spec fn all_face_indexes(m: Mesh) -> Seq<usize> {
    Seq::new(m.faces@.len(), |i: int| i as usize)
}

/// Box invariant of the hierarchy: every node's box contains every vertex
/// of every face under it, and an interior node's box contains both
/// children's boxes.
pub proof fn lemma_bvh_box_invariant(n: BvhNode, m: Mesh, i: int)
    requires
        node_wf(n, m),
        0 <= i < faces_seq(n).len(),
    ensures
        face_in_box(m, faces_seq(n)[i], n.left_bottom, n.right_top),
        match n.children {
            Option::Some(c) => {
                &&& box_within(c.0.left_bottom, c.0.right_top, n.left_bottom, n.right_top)
                &&& box_within(c.1.left_bottom, c.1.right_top, n.left_bottom, n.right_top)
            },
            Option::None => true,
        },
{
    lemma_faces_in_node_box(n, m, i);
}

/// Brute-force reference query: intersect the ray against every face of
/// the mesh in order, no pruning.
pub fn intersect_mesh_linear(mesh: &Mesh, ray: &Ray, intersection: &mut Intersection) -> (hit: bool)
    requires
        mesh_wf(*mesh),
        ray_wf(*ray),
        isect_wf(*old(intersection)),
    ensures
        isect_wf(*final(intersection)),
        final(intersection).material == old(intersection).material,
        isect_le(*final(intersection), *old(intersection)),
        hit == (*final(intersection) != *old(intersection)),
        *final(intersection) == scan_faces(*mesh, all_face_indexes(*mesh), *ray, *old(intersection)),
{
    let ghost rec0 = *intersection;
    let ghost all = all_face_indexes(*mesh);
    let n = mesh.faces.len();
    let mut j: usize = 0;
    let mut any_hit = false;
    proof {
        assert(all.skip(0) =~= all);
    }
    while j < n
        invariant
            n == mesh.faces@.len(),
            all == all_face_indexes(*mesh),
            0 <= j <= n,
            mesh_wf(*mesh),
            ray_wf(*ray),
            isect_wf(*intersection),
            isect_wf(rec0),
            intersection.material == rec0.material,
            isect_le(*intersection, rec0),
            any_hit == (*intersection != rec0),
            scan_faces(*mesh, all.skip(j as int), *ray, *intersection)
                == scan_faces(*mesh, all, *ray, rec0),
        decreases n - j,
    {
        let face = &mesh.faces[j];
        let ghost pre = *intersection;
        let updated = intersect_polygon(
            &mesh.vertexes[face.v0],
            &mesh.vertexes[face.v1],
            &mesh.vertexes[face.v2],
            ray,
            intersection,
        );
        proof {
            assert(all.skip(j as int)[0] == all[j as int]);
            assert(all.skip(j as int).skip(1) =~= all.skip(j as int + 1));
            lemma_isect_le_trans(*intersection, pre, rec0);
            if updated {
                assert(*intersection != pre);
            }
        }
        if updated {
            any_hit = true;
        }
        j += 1;
    }
    proof {
        assert(all.skip(n as int) =~= Seq::<usize>::empty());
    }
    any_hit
}

/// Spec-level bounds of the triangle solution on the coordinate grid: the
/// normalized denominator and hit numerator stay below the record limit.
proof fn lemma_tri_bounds(v0: Vector3, v1: Vector3, v2: Vector3, r: Ray)
    requires
        vec_bounded(v0, VMAX as int),
        vec_bounded(v1, VMAX as int),
        vec_bounded(v2, VMAX as int),
        ray_wf(r),
    ensures
        0 <= tri_den(v0, v1, v2, r) < T_LIM as int,
        -(T_LIM as int) < tri_tn(v0, v1, v2, r) < T_LIM as int,
        crate::triangle::tri_q(v0, v1, v2, r).det != 0 ==> tri_den(v0, v1, v2, r) > 0,
{
    let e1x = v1.x - v0.x;
    let e1y = v1.y - v0.y;
    let e1z = v1.z - v0.z;
    let e2x = v2.x - v0.x;
    let e2y = v2.y - v0.y;
    let e2z = v2.z - v0.z;
    let dx = r.direction.x as int;
    let dy = r.direction.y as int;
    let dz = r.direction.z as int;
    let tx = r.origin.x - v0.x;
    let ty = r.origin.y - v0.y;
    let tz = r.origin.z - v0.z;
    crate::fx::lemma_mul_bounds(dy, e2z, 65536, 131072);
    crate::fx::lemma_mul_bounds(dz, e2y, 65536, 131072);
    crate::fx::lemma_mul_bounds(dz, e2x, 65536, 131072);
    crate::fx::lemma_mul_bounds(dx, e2z, 65536, 131072);
    crate::fx::lemma_mul_bounds(dx, e2y, 65536, 131072);
    crate::fx::lemma_mul_bounds(dy, e2x, 65536, 131072);
    crate::fx::lemma_mul_bounds(ty, e1z, 196608, 131072);
    crate::fx::lemma_mul_bounds(tz, e1y, 196608, 131072);
    crate::fx::lemma_mul_bounds(tz, e1x, 196608, 131072);
    crate::fx::lemma_mul_bounds(tx, e1z, 196608, 131072);
    crate::fx::lemma_mul_bounds(tx, e1y, 196608, 131072);
    crate::fx::lemma_mul_bounds(ty, e1x, 196608, 131072);
    let px = dy * e2z - dz * e2y;
    let py = dz * e2x - dx * e2z;
    let pz = dx * e2y - dy * e2x;
    let qx = ty * e1z - tz * e1y;
    let qy = tz * e1x - tx * e1z;
    let qz = tx * e1y - ty * e1x;
    crate::fx::lemma_mul_bounds(e1x, px, 131072, 17179869184);
    crate::fx::lemma_mul_bounds(e1y, py, 131072, 17179869184);
    crate::fx::lemma_mul_bounds(e1z, pz, 131072, 17179869184);
    crate::fx::lemma_mul_bounds(e2x, qx, 131072, 51539607552);
    crate::fx::lemma_mul_bounds(e2y, qy, 131072, 51539607552);
    crate::fx::lemma_mul_bounds(e2z, qz, 131072, 51539607552);
}

/// What a scan promises about its outcome: it only ever improves the
/// record, it beats (or ties) every triangle of the set that the ray hits,
/// and any change came from one of those triangles exactly.
proof fn lemma_scan_props(m: Mesh, faces: Seq<usize>, r: Ray, rec: Intersection)
    requires
        mesh_wf(m),
        ray_wf(r),
        isect_wf(rec),
        forall |i: int| 0 <= i < faces.len() ==> #[trigger] faces[i] < m.faces@.len(),
    ensures
        ({
            let out = scan_faces(m, faces, r, rec);
            &&& isect_le(out, rec)
            &&& out.hit ==> 0 < out.t_num < T_LIM && 0 < out.t_den < T_LIM
            &&& out.material == rec.material
            &&& forall |i: int| 0 <= i < faces.len() ==> {
                let f = m.faces@[#[trigger] faces[i] as int];
                let a = m.vertexes@[f.v0 as int];
                let b = m.vertexes@[f.v1 as int];
                let c = m.vertexes@[f.v2 as int];
                tri_hit(a, b, c, r) ==> out.hit
                    && out.t_num as int * tri_den(a, b, c, r)
                        <= tri_tn(a, b, c, r) * (out.t_den as int)
            }
            &&& out != rec ==> exists |i: int| 0 <= i < faces.len() && {
                let f = m.faces@[#[trigger] faces[i] as int];
                let a = m.vertexes@[f.v0 as int];
                let b = m.vertexes@[f.v1 as int];
                let c = m.vertexes@[f.v2 as int];
                &&& tri_hit(a, b, c, r)
                &&& out.t_num as int == tri_tn(a, b, c, r)
                &&& out.t_den as int == tri_den(a, b, c, r)
            }
        }),
    decreases faces.len(),
{
    if faces.len() > 0 {
        let f = m.faces@[faces[0] as int];
        let a = m.vertexes@[f.v0 as int];
        let b = m.vertexes@[f.v1 as int];
        let c = m.vertexes@[f.v2 as int];
        let rec2 = tri_update(a, b, c, r, rec);
        lemma_tri_bounds(a, b, c, r);
        assert(isect_wf(rec2)) by {
            if rec2 != rec {
                assert(vec_bounded(hit_position(r, tri_tn(a, b, c, r), tri_den(a, b, c, r)),
                    POS_LIM as int));
                lemma_tri_normal_bounded(a, b, c);
            }
        }
        assert forall |i: int| 0 <= i < faces.skip(1).len()
            implies #[trigger] faces.skip(1)[i] < m.faces@.len() by {
            assert(faces.skip(1)[i] == faces[i + 1]);
        }
        lemma_scan_props(m, faces.skip(1), r, rec2);
        let out = scan_faces(m, faces, r, rec);
        assert(out == scan_faces(m, faces.skip(1), r, rec2));
        lemma_isect_le_trans(out, rec2, rec);
        assert forall |i: int| 0 <= i < faces.len() implies {
            let fi = m.faces@[#[trigger] faces[i] as int];
            let ai = m.vertexes@[fi.v0 as int];
            let bi = m.vertexes@[fi.v1 as int];
            let ci = m.vertexes@[fi.v2 as int];
            tri_hit(ai, bi, ci, r) ==> out.hit
                && out.t_num as int * tri_den(ai, bi, ci, r)
                    <= tri_tn(ai, bi, ci, r) * (out.t_den as int)
        } by {
            let fi = m.faces@[faces[i] as int];
            let ai = m.vertexes@[fi.v0 as int];
            let bi = m.vertexes@[fi.v1 as int];
            let ci = m.vertexes@[fi.v2 as int];
            if tri_hit(ai, bi, ci, r) {
                lemma_tri_bounds(ai, bi, ci, r);
                if i == 0 {
                    // The first face either improved the record or the
                    // record already beat it; afterwards the scan only
                    // improves further.
                    if improves(rec, tri_tn(ai, bi, ci, r), tri_den(ai, bi, ci, r)) {
                        assert(rec2.t_num as int == tri_tn(ai, bi, ci, r));
                        assert(rec2.t_den as int == tri_den(ai, bi, ci, r));
                        lemma_le_from_isect_le(out, rec2,
                            tri_tn(ai, bi, ci, r), tri_den(ai, bi, ci, r));
                    } else {
                        assert(rec.hit);
                        assert(rec2 == rec);
                        lemma_le_from_isect_le(out, rec2,
                            tri_tn(ai, bi, ci, r), tri_den(ai, bi, ci, r));
                    }
                } else {
                    assert(faces.skip(1)[i - 1] == faces[i]);
                }
            }
        }
        if out != rec {
            if out == rec2 {
                assert(rec2 != rec);
                assert(tri_hit(a, b, c, r));
                assert(faces[0] == faces[0]);
            } else {
                let wit = choose |i: int| 0 <= i < faces.skip(1).len() && {
                    let fi = m.faces@[#[trigger] faces.skip(1)[i] as int];
                    let ai = m.vertexes@[fi.v0 as int];
                    let bi = m.vertexes@[fi.v1 as int];
                    let ci = m.vertexes@[fi.v2 as int];
                    &&& tri_hit(ai, bi, ci, r)
                    &&& out.t_num as int == tri_tn(ai, bi, ci, r)
                    &&& out.t_den as int == tri_den(ai, bi, ci, r)
                };
                assert(faces.skip(1)[wit] == faces[wit + 1]);
            }
        }
    }
}

/// The record at least ties a candidate that the last improvement already
/// at least tied: chains `isect_le` with one cross-multiplied bound.
proof fn lemma_le_from_isect_le(out: Intersection, mid: Intersection, tn: int, td: int)
    requires
        isect_le(out, mid),
        mid.hit,
        0 < mid.t_den,
        0 < td,
        out.hit ==> 0 < out.t_den,
        mid.t_num as int * td <= tn * (mid.t_den as int),
    ensures
        out.hit,
        out.t_num as int * td <= tn * (out.t_den as int),
{
    if out != mid {
        assert(out.hit && improves(mid, out.t_num as int, out.t_den as int));
        lemma_frac_le_lt_trans(
            out.t_num as int, out.t_den as int,
            mid.t_num as int, mid.t_den as int,
            tn, td,
        );
    }
}

/// A strict improvement below a bound stays below the bound.
proof fn lemma_frac_le_lt_trans(an: int, ad: int, bn: int, bd: int, cn: int, cd: int)
    by (nonlinear_arith)
    requires
        ad > 0,
        bd > 0,
        cd > 0,
        an * bd < bn * ad,
        bn * cd <= cn * bd,
    ensures
        an * cd <= cn * ad,
{
}

/// The triangle normal of grid vertices is bounded.
proof fn lemma_tri_normal_bounded(v0: Vector3, v1: Vector3, v2: Vector3)
    requires
        vec_bounded(v0, VMAX as int),
        vec_bounded(v1, VMAX as int),
        vec_bounded(v2, VMAX as int),
    ensures
        vec_bounded(crate::triangle::tri_normal(v0, v1, v2), NRM_LIM as int),
{
    let e1x = v1.x - v0.x;
    let e1y = v1.y - v0.y;
    let e1z = v1.z - v0.z;
    let e2x = v2.x - v0.x;
    let e2y = v2.y - v0.y;
    let e2z = v2.z - v0.z;
    crate::fx::lemma_mul_bounds(e1y, e2z, 131072, 131072);
    crate::fx::lemma_mul_bounds(e1z, e2y, 131072, 131072);
    crate::fx::lemma_mul_bounds(e1z, e2x, 131072, 131072);
    crate::fx::lemma_mul_bounds(e1x, e2z, 131072, 131072);
    crate::fx::lemma_mul_bounds(e1x, e2y, 131072, 131072);
    crate::fx::lemma_mul_bounds(e1y, e2x, 131072, 131072);
}

/// Traversal equivalence: scanning the same set of faces in any two
/// orders ends with the same hit flag and the same hit distance (as an
/// exact fraction). Together with the traversal's own contract, the
/// nearest hit that the hierarchy reports equals the nearest hit of the
/// brute-force scan over every face of the mesh.
pub proof fn lemma_scan_permutation(
    m: Mesh, faces1: Seq<usize>, faces2: Seq<usize>, r: Ray, rec: Intersection)
    requires
        mesh_wf(m),
        ray_wf(r),
        isect_wf(rec),
        forall |i: int| 0 <= i < faces1.len() ==> #[trigger] faces1[i] < m.faces@.len(),
        faces1.to_multiset() == faces2.to_multiset(),
    ensures
        ({
            let out1 = scan_faces(m, faces1, r, rec);
            let out2 = scan_faces(m, faces2, r, rec);
            &&& out1.hit == out2.hit
            &&& out1.hit ==> out1.t_num as int * (out2.t_den as int)
                    == out2.t_num as int * (out1.t_den as int)
        }),
{
    broadcast use vstd::seq_lib::group_to_multiset_ensures;
    assert forall |i: int| 0 <= i < faces2.len() implies #[trigger] faces2[i] < m.faces@.len() by {
        assert(faces2.to_multiset().count(faces2[i]) > 0);
        assert(faces1.contains(faces2[i]));
        let k = choose |k: int| 0 <= k < faces1.len() && faces1[k] == faces2[i];
        assert(faces1[k] < m.faces@.len());
    }
    lemma_scan_props(m, faces1, r, rec);
    lemma_scan_props(m, faces2, r, rec);
    let out1 = scan_faces(m, faces1, r, rec);
    let out2 = scan_faces(m, faces2, r, rec);
    if out1 == rec && out2 == rec {
    } else if out1 == rec {
        // A changed scan is strictly closer than the unchanged record,
        // yet the record ties or beats the change's witness: impossible.
        lemma_scan_cross_bound(m, faces1, faces2, r, rec);
        assert(out2.hit && improves(rec, out2.t_num as int, out2.t_den as int));
        assert(false);
    } else if out2 == rec {
        lemma_scan_cross_bound(m, faces2, faces1, r, rec);
        assert(out1.hit && improves(rec, out1.t_num as int, out1.t_den as int));
        assert(false);
    } else {
        lemma_scan_cross_bound(m, faces1, faces2, r, rec);
        lemma_scan_cross_bound(m, faces2, faces1, r, rec);
    }
}

/// When the second scan changed the record, the first scan's outcome is at
/// least as close as the second's witness distance, hence as the second's.
proof fn lemma_scan_cross_bound(
    m: Mesh, faces1: Seq<usize>, faces2: Seq<usize>, r: Ray, rec: Intersection)
    requires
        mesh_wf(m),
        ray_wf(r),
        isect_wf(rec),
        forall |i: int| 0 <= i < faces1.len() ==> #[trigger] faces1[i] < m.faces@.len(),
        forall |i: int| 0 <= i < faces2.len() ==> #[trigger] faces2[i] < m.faces@.len(),
        faces1.to_multiset() == faces2.to_multiset(),
        scan_faces(m, faces2, r, rec) != rec,
    ensures
        ({
            let out1 = scan_faces(m, faces1, r, rec);
            let out2 = scan_faces(m, faces2, r, rec);
            &&& out1.hit
            &&& out2.hit
            &&& out1.t_num as int * (out2.t_den as int)
                <= out2.t_num as int * (out1.t_den as int)
        }),
{
    broadcast use vstd::seq_lib::group_to_multiset_ensures;
    lemma_scan_props(m, faces1, r, rec);
    lemma_scan_props(m, faces2, r, rec);
    let out1 = scan_faces(m, faces1, r, rec);
    let out2 = scan_faces(m, faces2, r, rec);
    let j = choose |i: int| 0 <= i < faces2.len() && {
        let fi = m.faces@[#[trigger] faces2[i] as int];
        let ai = m.vertexes@[fi.v0 as int];
        let bi = m.vertexes@[fi.v1 as int];
        let ci = m.vertexes@[fi.v2 as int];
        &&& tri_hit(ai, bi, ci, r)
        &&& out2.t_num as int == tri_tn(ai, bi, ci, r)
        &&& out2.t_den as int == tri_den(ai, bi, ci, r)
    };
    // The witness face also occurs in the first arrangement.
    assert(faces2.to_multiset().count(faces2[j]) > 0);
    assert(faces1.contains(faces2[j]));
    let k = choose |k: int| 0 <= k < faces1.len() && faces1[k] == faces2[j];
    assert(faces1[k] == faces2[j]);
}

/// Traversal equivalence, assembled: over a well-built tree the scan of
/// the tree's faces agrees with the brute-force scan of every face of the
/// mesh, in hit flag and exact hit distance. `BvhNode::intersect` computes
/// the former whenever the node's box lies ahead of the ray origin, and
/// `intersect_mesh_linear` computes the latter always.
pub proof fn lemma_traversal_equals_bruteforce(tree: BvhNode, m: Mesh, r: Ray, rec: Intersection)
    requires
        mesh_wf(m),
        ray_wf(r),
        isect_wf(rec),
        node_wf(tree, m),
        faces_seq(tree).to_multiset() == all_face_indexes(m).to_multiset(),
    ensures
        ({
            let fast = scan_faces(m, faces_seq(tree), r, rec);
            let slow = scan_faces(m, all_face_indexes(m), r, rec);
            &&& fast.hit == slow.hit
            &&& fast.hit ==> fast.t_num as int * (slow.t_den as int)
                    == slow.t_num as int * (fast.t_den as int)
        }),
{
    assert forall |i: int| 0 <= i < faces_seq(tree).len()
        implies #[trigger] faces_seq(tree)[i] < m.faces@.len() by {
        lemma_faces_in_node_box(tree, m, i);
    }
    lemma_scan_permutation(m, faces_seq(tree), all_face_indexes(m), r, rec);
}

} // verus!
