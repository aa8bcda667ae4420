//! The model-manifest record: which mesh objects use which materials, and
//! the file names of the other assets a model is built from.  This is the
//! on-disk shape, with embedded strings and arrays; see [`crate::modl_data`]
//! for the friendly form.

use vstd::prelude::*;

use crate::strings::{RelPtr64, SsbhArray, SsbhString, SsbhString8};

verus! {

/// Associates one mesh object (by name and sub-index) with a material label.
pub struct ModlEntry {
    pub mesh_object_name: SsbhString,
    pub mesh_object_sub_index: u64,
    pub material_label: SsbhString,
}

/// The model manifest.  The supported file version is 1.7.
pub struct Modl {
    pub major_version: u16,
    pub minor_version: u16,
    /// The name of the model, such as "model".
    pub model_name: SsbhString,
    /// The associated skeleton file, such as "model.nusktb".
    pub skeleton_file_name: SsbhString,
    /// The associated material files; usually a single "model.numatb".
    pub material_file_names: SsbhArray<SsbhString>,
    /// The optional associated animation file, such as "model.nuanmb".
    pub animation_file_name: RelPtr64<SsbhString>,
    /// The associated mesh file, such as "model.numshb".
    pub mesh_file_name: SsbhString8,
    /// The material assignments for the mesh objects of the mesh file.
    pub entries: SsbhArray<ModlEntry>,
}

impl Modl {
    /// The version pair stored in the record.
    pub fn major_minor_version(&self) -> (r: (u16, u16))
        ensures
            r.0 == self.major_version,
            r.1 == self.minor_version,
    {
        (self.major_version, self.minor_version)
    }
}

} // verus!
