//! The friendly form of the model manifest, with plain strings and vectors,
//! and the conversions between it and the on-disk shape in [`crate::modl`].

use vstd::prelude::*;

use crate::modl::{Modl, ModlEntry};
use crate::strings::{RelPtr64, SsbhArray, SsbhString, SsbhString8};

verus! {

/// The data associated with a model-manifest file.  The supported version is 1.7.
pub struct ModlData {
    pub major_version: u16,
    pub minor_version: u16,
    pub model_name: String,
    pub skeleton_file_name: String,
    pub material_file_names: Vec<String>,
    pub animation_file_name: Option<String>,
    pub mesh_file_name: String,
    pub entries: Vec<ModlEntryData>,
}

/// The friendly form of one [`ModlEntry`].
pub struct ModlEntryData {
    pub mesh_object_name: String,
    pub mesh_object_sub_index: u64,
    pub material_label: String,
}

/// Whether the friendly entry carries the same content as the record.
pub open spec fn entry_matches(d: ModlEntryData, e: ModlEntry) -> bool {
    &&& d.mesh_object_name@ == e.mesh_object_name@
    &&& d.mesh_object_sub_index == e.mesh_object_sub_index
    &&& d.material_label@ == e.material_label@
}

/// Whether the friendly manifest carries the same content as the record.
pub open spec fn modl_matches(d: ModlData, m: Modl) -> bool {
    &&& d.major_version == m.major_version
    &&& d.minor_version == m.minor_version
    &&& d.model_name@ == m.model_name@
    &&& d.skeleton_file_name@ == m.skeleton_file_name@
    &&& d.material_file_names@.len() == m.material_file_names.elements@.len()
    &&& (forall|i: int|
        0 <= i < d.material_file_names@.len() ==> d.material_file_names@[i]@
            == m.material_file_names.elements@[i]@)
    &&& match d.animation_file_name {
        Some(name) => m.animation_file_name.value matches Some(s) && name@ == s@,
        None => m.animation_file_name.value is None,
    }
    &&& d.mesh_file_name@ == m.mesh_file_name@
    &&& d.entries@.len() == m.entries.elements@.len()
    &&& (forall|i: int|
        0 <= i < d.entries@.len() ==> entry_matches(d.entries@[i], m.entries.elements@[i]))
}

impl ModlEntryData {
    /// The friendly form of a record entry.
    pub fn from(e: &ModlEntry) -> (r: Self)
        ensures
            entry_matches(r, *e),
    {
        ModlEntryData {
            mesh_object_name: e.mesh_object_name.to_string_lossy(),
            mesh_object_sub_index: e.mesh_object_sub_index,
            material_label: e.material_label.to_string_lossy(),
        }
    }
}

impl ModlEntry {
    /// The record form of a friendly entry.
    pub fn from(d: &ModlEntryData) -> (r: Self)
        ensures
            entry_matches(*d, r),
    {
        ModlEntry {
            mesh_object_name: SsbhString::new(d.mesh_object_name.as_str()),
            mesh_object_sub_index: d.mesh_object_sub_index,
            material_label: SsbhString::new(d.material_label.as_str()),
        }
    }
}

impl ModlData {
    /// The friendly form of a manifest record.
    pub fn from(m: &Modl) -> (r: Self)
        ensures
            modl_matches(r, *m),
    {
        let mut material_file_names: Vec<String> = Vec::new();
        for i in 0..m.material_file_names.elements.len()
            invariant
                material_file_names@.len() == i,
                forall|j: int|
                    0 <= j < i ==> material_file_names@[j]@
                        == m.material_file_names.elements@[j]@,
        {
            material_file_names.push(m.material_file_names.elements[i].to_string_lossy());
        }
        let mut entries: Vec<ModlEntryData> = Vec::new();
        for i in 0..m.entries.elements.len()
            invariant
                entries@.len() == i,
                forall|j: int| 0 <= j < i ==> entry_matches(entries@[j], m.entries.elements@[j]),
        {
            entries.push(ModlEntryData::from(&m.entries.elements[i]));
        }
        ModlData {
            major_version: m.major_version,
            minor_version: m.minor_version,
            model_name: m.model_name.to_string_lossy(),
            skeleton_file_name: m.skeleton_file_name.to_string_lossy(),
            material_file_names,
            animation_file_name: match m.animation_file_name.as_ref() {
                Some(s) => Some(s.to_string_lossy()),
                None => None,
            },
            mesh_file_name: m.mesh_file_name.to_string_lossy(),
            entries,
        }
    }
}

impl Modl {
    /// The record form of a friendly manifest.
    pub fn from(d: &ModlData) -> (r: Self)
        ensures
            modl_matches(*d, r),
    {
        let mut material_file_names: Vec<SsbhString> = Vec::new();
        for i in 0..d.material_file_names.len()
            invariant
                material_file_names@.len() == i,
                forall|j: int|
                    0 <= j < i ==> material_file_names@[j]@ == d.material_file_names@[j]@,
        {
            material_file_names.push(SsbhString::new(d.material_file_names[i].as_str()));
        }
        let mut entries: Vec<ModlEntry> = Vec::new();
        for i in 0..d.entries.len()
            invariant
                entries@.len() == i,
                forall|j: int| 0 <= j < i ==> entry_matches(d.entries@[j], entries@[j]),
        {
            entries.push(ModlEntry::from(&d.entries[i]));
        }
        Modl {
            major_version: d.major_version,
            minor_version: d.minor_version,
            model_name: SsbhString::new(d.model_name.as_str()),
            skeleton_file_name: SsbhString::new(d.skeleton_file_name.as_str()),
            material_file_names: SsbhArray::new(material_file_names),
            animation_file_name: match &d.animation_file_name {
                Some(name) => RelPtr64::new(SsbhString::new(name.as_str())),
                None => RelPtr64::null(),
            },
            mesh_file_name: SsbhString8::new(d.mesh_file_name.as_str()),
            entries: SsbhArray::new(entries),
        }
    }
}

} // verus!
