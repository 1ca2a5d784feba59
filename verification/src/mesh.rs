//! Triangle mesh storage: a vertex table and per-face index triples.

use vstd::prelude::*;
use crate::vector::{Vector3, vec_bounded, VMAX};

verus! {

#[derive(Clone, Copy, PartialEq, Eq, Structural, Debug)]
pub struct Face {
    pub v0: usize,
    pub v1: usize,
    pub v2: usize,
}

pub struct Mesh {
    pub vertexes: Vec<Vector3>,
    pub faces: Vec<Face>,
}

/// Every face references existing vertexes and every vertex is on the
/// bounded coordinate grid.
pub open spec fn mesh_wf(m: Mesh) -> bool {
    &&& forall |i: int| 0 <= i < m.faces@.len() ==> {
        &&& (#[trigger] m.faces@[i]).v0 < m.vertexes@.len()
        &&& m.faces@[i].v1 < m.vertexes@.len()
        &&& m.faces@[i].v2 < m.vertexes@.len()
    }
    &&& forall |i: int| 0 <= i < m.vertexes@.len() ==>
        vec_bounded(#[trigger] m.vertexes@[i], VMAX as int)
}

} // verus!
