//! Surface materials.

use vstd::prelude::*;
use crate::color::{Color, color_wf};
use crate::vector::Vector3;
use crate::fx::FX_ONE;

verus! {

/// How a surface scatters light. Scalar parameters are fixed-point
/// (`FX_ONE` is 1.0); `refractive_index` is the ratio of the inner to the
/// outer index.
#[derive(Clone, Copy, PartialEq, Eq, Structural, Debug)]
pub enum SurfaceType {
    Diffuse,
    Specular,
    Refraction { refractive_index: i64 },
    GGX { f0: i64 },
    GGXRefraction { refractive_index: i64, f0: i64 },
}

#[derive(Clone, Copy, PartialEq, Eq, Structural, Debug)]
pub struct Material {
    pub surface: SurfaceType,
    pub albedo: Color,
    pub emission: Color,
    pub roughness: i64,
}

/// Materials the shading arithmetic accepts.
pub open spec fn material_wf(m: Material) -> bool {
    &&& color_wf(m.albedo)
    &&& color_wf(m.emission)
    &&& 0 <= m.roughness <= FX_ONE
    &&& match m.surface {
        SurfaceType::Refraction { refractive_index } => FX_ONE / 2 <= refractive_index <= 8 * FX_ONE,
        SurfaceType::GGX { f0 } => 0 <= f0 <= FX_ONE,
        SurfaceType::GGXRefraction { refractive_index, f0 } => {
            &&& FX_ONE / 2 <= refractive_index <= 8 * FX_ONE
            &&& 0 <= f0 <= FX_ONE
        },
        _ => true,
    }
}

impl Material {
    /// The value `Material::new` returns.
    pub open spec fn new_spec() -> Material {
        Material {
            surface: SurfaceType::Diffuse,
            albedo: Vector3 { x: 0i64, y: 0i64, z: 0i64 },
            emission: Vector3 { x: 0i64, y: 0i64, z: 0i64 },
            roughness: 0i64,
        }
    }

    /// The inert default: a black diffuse surface with no emission.
    pub fn new() -> (m: Material)
        ensures
            m == Material::new_spec(),
            material_wf(m),
    {
        Material {
            surface: SurfaceType::Diffuse,
            albedo: Vector3 { x: 0, y: 0, z: 0 },
            emission: Vector3 { x: 0, y: 0, z: 0 },
            roughness: 0,
        }
    }
}

} // verus!
