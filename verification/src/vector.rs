//! Three-component integer vectors.
//!
//! Geometry is carried on an integer grid: a coordinate `x` stands for the
//! real number `x / FX_ONE` world units. Keeping coordinates integral makes
//! every geometric predicate in this crate exact.

use vstd::prelude::*;

verus! {

/// Bound on vertex and bounding-box coordinates: the stage spans one
/// world unit in every direction from the origin, at `FX_ONE` grid steps
/// per unit. Scenes are staged into this span by uniform scaling; the
/// bound is what keeps every intermediate product of the intersection
/// arithmetic inside `i64` and `i128`.
pub const VMAX: i64 = 65536;

/// Bound on ray origin coordinates (hit points may step slightly outside
/// the vertex range before the next bounce).
pub const OMAX: i64 = 131072;

/// Bound on ray direction components.
pub const DMAX: i64 = 65536;

#[derive(Clone, Copy, PartialEq, Eq, Structural, Debug)]
pub struct Vector3 {
    pub x: i64,
    pub y: i64,
    pub z: i64,
}

/// Every component has magnitude at most `b`.
pub open spec fn vec_bounded(v: Vector3, b: int) -> bool {
    &&& -b <= v.x as int <= b
    &&& -b <= v.y as int <= b
    &&& -b <= v.z as int <= b
}

/// Mathematical dot product of two vectors.
pub open spec fn dot_spec(a: Vector3, b: Vector3) -> int {
    a.x as int * b.x as int + a.y as int * b.y as int + a.z as int * b.z as int
}

/// Mathematical cross product, one component per spec function.
pub open spec fn cross_x_spec(a: Vector3, b: Vector3) -> int {
    a.y as int * b.z as int - a.z as int * b.y as int
}

pub open spec fn cross_y_spec(a: Vector3, b: Vector3) -> int {
    a.z as int * b.x as int - a.x as int * b.z as int
}

pub open spec fn cross_z_spec(a: Vector3, b: Vector3) -> int {
    a.x as int * b.y as int - a.y as int * b.x as int
}

impl Vector3 {
    pub fn new(x: i64, y: i64, z: i64) -> (r: Vector3)
        ensures
            r == (Vector3 { x, y, z }),
    {
        Vector3 { x, y, z }
    }

    pub fn zero() -> (r: Vector3)
        ensures
            r == (Vector3 { x: 0i64, y: 0i64, z: 0i64 }),
    {
        Vector3 { x: 0, y: 0, z: 0 }
    }

    pub fn add(&self, o: &Vector3) -> (r: Vector3)
        requires
            vec_bounded(*self, 0x1000_0000_0000),
            vec_bounded(*o, 0x1000_0000_0000),
        ensures
            r.x as int == self.x as int + o.x as int,
            r.y as int == self.y as int + o.y as int,
            r.z as int == self.z as int + o.z as int,
    {
        Vector3 { x: self.x + o.x, y: self.y + o.y, z: self.z + o.z }
    }

    pub fn sub(&self, o: &Vector3) -> (r: Vector3)
        requires
            vec_bounded(*self, 0x1000_0000_0000),
            vec_bounded(*o, 0x1000_0000_0000),
        ensures
            r.x as int == self.x as int - o.x as int,
            r.y as int == self.y as int - o.y as int,
            r.z as int == self.z as int - o.z as int,
    {
        Vector3 { x: self.x - o.x, y: self.y - o.y, z: self.z - o.z }
    }

    pub fn neg(&self) -> (r: Vector3)
        requires
            vec_bounded(*self, 0x1000_0000_0000),
        ensures
            r.x as int == -(self.x as int),
            r.y as int == -(self.y as int),
            r.z as int == -(self.z as int),
    {
        Vector3 { x: -self.x, y: -self.y, z: -self.z }
    }

    /// Dot product; the bound keeps each product inside `i64`.
    pub fn dot(&self, o: &Vector3) -> (r: i64)
        requires
            vec_bounded(*self, 0x4000_0000),
            vec_bounded(*o, 0x4000_0000),
        ensures
            r as int == dot_spec(*self, *o),
    {
        proof {
            lemma_abs_product_bound(self.x as int, o.x as int, 0x4000_0000);
            lemma_abs_product_bound(self.y as int, o.y as int, 0x4000_0000);
            lemma_abs_product_bound(self.z as int, o.z as int, 0x4000_0000);
        }
        self.x * o.x + self.y * o.y + self.z * o.z
    }

    /// Cross product; the bound keeps each product inside `i64`.
    pub fn cross(&self, o: &Vector3) -> (r: Vector3)
        requires
            vec_bounded(*self, 0x4000_0000),
            vec_bounded(*o, 0x4000_0000),
        ensures
            r.x as int == cross_x_spec(*self, *o),
            r.y as int == cross_y_spec(*self, *o),
            r.z as int == cross_z_spec(*self, *o),
            vec_bounded(r, (2 * 0x4000_0000 * 0x4000_0000) as int),
    {
        proof {
            lemma_abs_product_bound(self.x as int, o.x as int, 0x4000_0000);
            lemma_abs_product_bound(self.y as int, o.y as int, 0x4000_0000);
            lemma_abs_product_bound(self.z as int, o.z as int, 0x4000_0000);
            lemma_abs_product_bound(self.x as int, o.y as int, 0x4000_0000);
            lemma_abs_product_bound(self.y as int, o.x as int, 0x4000_0000);
            lemma_abs_product_bound(self.x as int, o.z as int, 0x4000_0000);
            lemma_abs_product_bound(self.z as int, o.x as int, 0x4000_0000);
            lemma_abs_product_bound(self.y as int, o.z as int, 0x4000_0000);
            lemma_abs_product_bound(self.z as int, o.y as int, 0x4000_0000);
        }
        Vector3 {
            x: self.y * o.z - self.z * o.y,
            y: self.z * o.x - self.x * o.z,
            z: self.x * o.y - self.y * o.x,
        }
    }

    /// Componentwise minimum of two vectors.
    pub open spec fn min_components_spec(self, o: Vector3) -> Vector3 {
        Vector3 {
            x: if self.x <= o.x { self.x } else { o.x },
            y: if self.y <= o.y { self.y } else { o.y },
            z: if self.z <= o.z { self.z } else { o.z },
        }
    }

    /// Componentwise maximum of two vectors.
    pub open spec fn max_components_spec(self, o: Vector3) -> Vector3 {
        Vector3 {
            x: if self.x >= o.x { self.x } else { o.x },
            y: if self.y >= o.y { self.y } else { o.y },
            z: if self.z >= o.z { self.z } else { o.z },
        }
    }

    /// Componentwise minimum.
    pub fn min_components(&self, o: &Vector3) -> (r: Vector3)
        ensures
            r == self.min_components_spec(*o),
    {
        Vector3 {
            x: if self.x <= o.x { self.x } else { o.x },
            y: if self.y <= o.y { self.y } else { o.y },
            z: if self.z <= o.z { self.z } else { o.z },
        }
    }

    /// Componentwise maximum.
    pub fn max_components(&self, o: &Vector3) -> (r: Vector3)
        ensures
            r == self.max_components_spec(*o),
    {
        Vector3 {
            x: if self.x >= o.x { self.x } else { o.x },
            y: if self.y >= o.y { self.y } else { o.y },
            z: if self.z >= o.z { self.z } else { o.z },
        }
    }
}

/// `|a| <= b` and `|c| <= b` bound `|a * c|` by `b * b`.
pub proof fn lemma_abs_product_bound(a: int, c: int, b: int) by (nonlinear_arith)
    requires
        -b <= a <= b,
        -b <= c <= b,
        0 <= b,
    ensures
        -(b * b) <= a * c <= b * b,
{
}

/// Multiplying both sides of `a <= b` by a nonnegative `q` keeps the order.
pub proof fn lemma_mul_le_mono(a: int, b: int, q: int) by (nonlinear_arith)
    requires
        a <= b,
        0 <= q,
    ensures
        a * q <= b * q,
{
}

} // verus!
