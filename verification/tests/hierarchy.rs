use pathtracer::bvh::{BvhNode, intersect_mesh_linear};
use pathtracer::material::{Material, SurfaceType};
use pathtracer::scene::{BvhMesh, Scene, SceneElement};
use pathtracer::mesh::{Face, Mesh};
use pathtracer::rng::Rng;
use pathtracer::scene::Intersection;
use pathtracer::slab::Ray;
use pathtracer::vector::Vector3;

fn v(x: i64, y: i64, z: i64) -> Vector3 {
    Vector3 { x, y, z }
}

/// A deterministic cloud of triangles inside the coordinate grid.
fn random_mesh(seed: u64, faces: usize) -> Mesh {
    let mut rng = Rng::new(seed);
    let mut vertexes = Vec::new();
    let mut face_list = Vec::new();
    for _ in 0..faces {
        let base = vertexes.len();
        let cx = (rng.next_u64() % 4000) as i64 - 2000;
        let cy = (rng.next_u64() % 4000) as i64 - 2000;
        let cz = (rng.next_u64() % 4000) as i64 - 2000;
        for _ in 0..3 {
            let dx = (rng.next_u64() % 1600) as i64 - 800;
            let dy = (rng.next_u64() % 1600) as i64 - 800;
            let dz = (rng.next_u64() % 1600) as i64 - 800;
            vertexes.push(v(cx + dx, cy + dy, cz + dz));
        }
        face_list.push(Face { v0: base, v1: base + 1, v2: base + 2 });
    }
    Mesh { vertexes, faces: face_list }
}

/// Collect every face index stored under the node, leaves left to right.
fn collect_faces(node: &BvhNode, out: &mut Vec<usize>) {
    match &node.children {
        Some(c) => {
            collect_faces(&c.0, out);
            collect_faces(&c.1, out);
        }
        None => {
            for f in &node.face_indexes {
                out.push(*f);
            }
        }
    }
}

/// Check the box invariant on the live tree: children inside the parent,
/// leaf faces inside their leaf's box, and strictly two-or-zero children.
fn check_box_invariant(node: &BvhNode, mesh: &Mesh) {
    match &node.children {
        Some(c) => {
            assert!(node.face_indexes.is_empty());
            for child in [&c.0, &c.1] {
                assert!(node.left_bottom.x <= child.left_bottom.x);
                assert!(node.left_bottom.y <= child.left_bottom.y);
                assert!(node.left_bottom.z <= child.left_bottom.z);
                assert!(child.right_top.x <= node.right_top.x);
                assert!(child.right_top.y <= node.right_top.y);
                assert!(child.right_top.z <= node.right_top.z);
                check_box_invariant(child, mesh);
            }
        }
        None => {
            for f in &node.face_indexes {
                let face = &mesh.faces[*f];
                for vi in [face.v0, face.v1, face.v2] {
                    let p = &mesh.vertexes[vi];
                    assert!(node.left_bottom.x <= p.x && p.x <= node.right_top.x);
                    assert!(node.left_bottom.y <= p.y && p.y <= node.right_top.y);
                    assert!(node.left_bottom.z <= p.z && p.z <= node.right_top.z);
                }
            }
        }
    }
}

#[test]
fn build_keeps_every_face_once() {
    let mesh = random_mesh(7, 33);
    let tree = BvhNode::from_mesh(&mesh);
    let mut seen = Vec::new();
    collect_faces(&tree, &mut seen);
    seen.sort();
    let expected: Vec<usize> = (0..33).collect();
    assert_eq!(seen, expected);
}

#[test]
fn build_box_invariant_holds() {
    let mesh = random_mesh(11, 40);
    let tree = BvhNode::from_mesh(&mesh);
    check_box_invariant(&tree, &mesh);
}

#[test]
fn single_face_mesh_is_a_leaf() {
    let mesh = Mesh {
        vertexes: vec![v(0, 0, 0), v(1000, 0, 0), v(0, 1000, 0)],
        faces: vec![Face { v0: 0, v1: 1, v2: 2 }],
    };
    let tree = BvhNode::from_mesh(&mesh);
    assert!(tree.children.is_none());
    assert_eq!(tree.face_indexes, vec![0]);
    assert_eq!(tree.left_bottom, v(0, 0, 0));
    assert_eq!(tree.right_top, v(1000, 1000, 0));
}

#[test]
fn traversal_matches_brute_force() {
    let mesh = random_mesh(23, 60);
    let tree = BvhNode::from_mesh(&mesh);
    let mut rng = Rng::new(99);
    let mut hits = 0usize;
    for _ in 0..200 {
        let ox = (rng.next_u64() % 8000) as i64 - 4000;
        let oy = (rng.next_u64() % 8000) as i64 - 4000;
        // Aim each ray at a point inside the triangle cloud.
        let tx = (rng.next_u64() % 4000) as i64 - 2000;
        let ty = (rng.next_u64() % 4000) as i64 - 2000;
        let ray = Ray {
            origin: v(ox, oy, -30000),
            direction: v((tx - ox) / 8, (ty - oy) / 8, 3750),
        };

        let mut fast = Intersection::new();
        let fast_hit = tree.intersect(&mesh, &ray, &mut fast);
        let mut slow = Intersection::new();
        let slow_hit = intersect_mesh_linear(&mesh, &ray, &mut slow);

        assert_eq!(fast_hit, slow_hit);
        assert_eq!(fast.hit, slow.hit);
        if fast.hit {
            // Equal distances as exact fractions.
            assert_eq!(fast.t_num * slow.t_den, slow.t_num * fast.t_den);
            assert_eq!(fast.position, slow.position);
            hits += 1;
        }
    }
    // The ray battery must actually exercise hits.
    assert!(hits > 5, "only {} rays hit", hits);
}

#[test]
fn set_aabb_folds_the_face_bounds() {
    let mesh = Mesh {
        vertexes: vec![v(-500, 10, 3), v(700, -20, 40), v(0, 900, -60)],
        faces: vec![Face { v0: 0, v1: 1, v2: 2 }],
    };
    let mut node = BvhNode::empty();
    let indexes = vec![0usize];
    node.set_aabb(&mesh, &indexes);
    assert_eq!(node.left_bottom, v(-500, -20, -60));
    assert_eq!(node.right_top, v(700, 900, 40));
}

#[test]
fn from_face_indexes_partitions_the_set() {
    let mesh = random_mesh(3, 9);
    let indexes: Vec<usize> = (0..9).collect();
    let tree = BvhNode::from_face_indexes(&mesh, indexes);
    assert!(tree.children.is_some());
    let mut seen = Vec::new();
    collect_faces(&tree, &mut seen);
    seen.sort();
    assert_eq!(seen, (0..9).collect::<Vec<usize>>());
}

#[test]
fn mesh_element_reports_its_material() {
    // A single triangle square in front of the camera, wrapped in the
    // accelerated mesh element.
    let mesh = Mesh {
        vertexes: vec![v(-2000, -2000, 0), v(6000, -2000, 0), v(-2000, 6000, 0)],
        faces: vec![Face { v0: 0, v1: 1, v2: 2 }],
    };
    let material = Material {
        surface: SurfaceType::Diffuse,
        albedo: v(65536, 0, 0),
        emission: v(0, 12345, 0),
        roughness: 0,
    };
    let scene = Scene {
        elements: vec![SceneElement::Mesh(BvhMesh::from_mesh(mesh, material))],
        env_emission: v(0, 0, 0),
    };
    let ray = Ray { origin: v(100, 100, -5000), direction: v(0, 0, 1000) };
    let rec = scene.intersect(&ray);
    assert!(rec.hit);
    assert_eq!(rec.t_num * 1, 5 * rec.t_den);
    assert_eq!(rec.material.emission, v(0, 12345, 0));

    let miss = Ray { origin: v(100, 100, -5000), direction: v(0, 0, -1000) };
    assert!(!scene.intersect(&miss).hit);
}
