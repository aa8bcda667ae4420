//! The mesh-extension record: per-group bounding data and names, one entry
//! per mesh object, and per-entry draw flags, all behind absolute 64-bit
//! pointers.

use vstd::prelude::*;

use crate::strings::{Ptr64, SsbhString};
use crate::vectors::{Vector3, Vector4};

verus! {

/// The packed per-entry flags: whether the object is drawn and whether it
/// casts a shadow.
#[derive(PartialEq, Eq, Structural, Clone, Copy, Debug)]
pub struct EntryFlag {
    pub draw_model: bool,
    pub cast_shadow: bool,
}

impl EntryFlag {
    /// The flag with every bit clear.
    pub fn new() -> (r: Self)
        ensures
            r == (EntryFlag { draw_model: false, cast_shadow: false }),
    {
        EntryFlag { draw_model: false, cast_shadow: false }
    }

    /// This flag with `draw_model` replaced.
    pub fn with_draw_model(self, v: bool) -> (r: Self)
        ensures
            r == (EntryFlag { draw_model: v, ..self }),
    {
        EntryFlag { draw_model: v, ..self }
    }

    /// This flag with `cast_shadow` replaced.
    pub fn with_cast_shadow(self, v: bool) -> (r: Self)
        ensures
            r == (EntryFlag { cast_shadow: v, ..self }),
    {
        EntryFlag { cast_shadow: v, ..self }
    }

    /// Whether the object is drawn.
    pub fn draw_model(&self) -> (r: bool)
        ensures
            r == self.draw_model,
    {
        self.draw_model
    }

    /// Whether the object casts a shadow.
    pub fn cast_shadow(&self) -> (r: bool)
        ensures
            r == self.cast_shadow,
    {
        self.cast_shadow
    }
}

/// The flag list, one entry per mesh entry.
pub struct EntryFlags(pub Vec<EntryFlag>);

/// One mesh entry: the group it belongs to and an unknown vector.
pub struct MeshEntry {
    pub mesh_object_group_index: u32,
    pub unk1: Vector3,
}

/// One mesh object group: bounding sphere and its full and stripped names.
pub struct MeshObjectGroup {
    pub bounding_sphere: Vector4,
    pub mesh_object_full_name: Ptr64<SsbhString>,
    pub mesh_object_name: Ptr64<SsbhString>,
}

/// The whole-file bounding data.
pub struct AllData {
    pub bounding_sphere: Vector4,
    pub name: Ptr64<SsbhString>,
}

/// The mesh-extension record.
pub struct MeshEx {
    pub file_length: u64,
    pub entry_count: u32,
    pub mesh_object_group_count: u32,
    pub all_data: Ptr64<AllData>,
    pub mesh_object_groups: Ptr64<Vec<MeshObjectGroup>>,
    pub entries: Ptr64<Vec<MeshEntry>>,
    pub entry_flags: Ptr64<EntryFlags>,
    pub unk1: u32,
}

} // verus!
