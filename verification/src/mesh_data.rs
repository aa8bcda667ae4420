//! The slice of mesh data the rest of the library reads: object names,
//! triangle index lists, and per-vertex attribute positions.  Vector
//! components are IEEE 754 bit patterns held in plain integer tuples.

use vstd::prelude::*;

verus! {

/// Per-vertex attribute values of one attribute, by component count.
/// Each component is an IEEE 754 single-precision bit pattern.
pub enum VectorData {
    Vector2(Vec<(u32, u32)>),
    Vector3(Vec<(u32, u32, u32)>),
    Vector4(Vec<(u32, u32, u32, u32)>),
}

/// A named vertex attribute and its values.
pub struct AttributeData {
    pub name: String,
    pub data: VectorData,
}

/// The weight of one bone on one vertex; the weight is a bit pattern.
pub struct VertexWeight {
    pub vertex_index: u32,
    pub vertex_weight: u32,
}

/// The influence of one bone on a mesh object.
pub struct BoneInfluence {
    pub bone_name: String,
    pub vertex_weights: Vec<VertexWeight>,
}

/// One renderable object of a mesh file, reduced to the fields this
/// library reads.
pub struct MeshObjectData {
    pub name: String,
    pub sub_index: u64,
    pub parent_bone_name: String,
    pub sort_bias: i32,
    pub disable_depth_write: bool,
    pub disable_depth_test: bool,
    pub vertex_indices: Vec<u32>,
    pub positions: Vec<AttributeData>,
    pub normals: Vec<AttributeData>,
    pub binormals: Vec<AttributeData>,
    pub tangents: Vec<AttributeData>,
    pub texture_coordinates: Vec<AttributeData>,
    pub color_sets: Vec<AttributeData>,
    pub bone_influences: Vec<BoneInfluence>,
}

} // verus!
