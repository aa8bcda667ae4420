use ssbh_data::modl::{Modl, ModlEntry};
use ssbh_data::modl_data::{ModlData, ModlEntryData};
use ssbh_data::strings::{RelPtr64, SsbhArray, SsbhString, SsbhString8};

#[test]
fn create_modl() {
    let data = ModlData {
        major_version: 1,
        minor_version: 2,
        model_name: "a".into(),
        skeleton_file_name: "b".into(),
        material_file_names: vec!["f1".into(), "f2".into()],
        animation_file_name: Some("c".into()),
        mesh_file_name: "d".into(),
        entries: vec![ModlEntryData {
            mesh_object_name: "a".into(),
            mesh_object_sub_index: 2,
            material_label: "b".into(),
        }],
    };

    let ssbh: Modl = Modl::from(&data);
    assert_eq!("a", ssbh.model_name.to_str().unwrap());
    assert_eq!("b", ssbh.skeleton_file_name.to_str().unwrap());
    assert_eq!("f1", ssbh.material_file_names.elements[0].to_str().unwrap());
    assert_eq!("f2", ssbh.material_file_names.elements[1].to_str().unwrap());
    let s = match ssbh.animation_file_name.as_ref() {
        Some(s) => s,
        None => panic!(),
    };
    assert_eq!("c", s.to_str().unwrap());
    assert_eq!("d", ssbh.mesh_file_name.to_str().unwrap());
    assert_eq!("a", ssbh.entries.elements[0].mesh_object_name.to_str().unwrap());
    assert_eq!(2, ssbh.entries.elements[0].mesh_object_sub_index);
    assert_eq!("b", ssbh.entries.elements[0].material_label.to_str().unwrap());
}

#[test]
fn create_modl_data() {
    let ssbh = Modl {
        major_version: 1,
        minor_version: 7,
        model_name: SsbhString::new("a"),
        skeleton_file_name: SsbhString::new("b"),
        material_file_names: SsbhArray::new(vec![SsbhString::new("f1"), SsbhString::new("f2")]),
        animation_file_name: RelPtr64::new(SsbhString::new("c")),
        mesh_file_name: SsbhString8::new("d"),
        entries: SsbhArray::new(vec![ModlEntry {
            mesh_object_name: SsbhString::new("a"),
            mesh_object_sub_index: 2,
            material_label: SsbhString::new("b"),
        }]),
    };

    let data: ModlData = ModlData::from(&ssbh);
    assert_eq!(1, data.major_version);
    assert_eq!(7, data.minor_version);
    assert_eq!("a", data.model_name);
    assert_eq!(vec!["f1", "f2"], data.material_file_names);
    assert_eq!("c", data.animation_file_name.unwrap());
    assert_eq!("a", data.entries[0].mesh_object_name);
    assert_eq!(2, data.entries[0].mesh_object_sub_index);
    assert_eq!("b", data.entries[0].material_label);
}

#[test]
fn create_modl_entry_data() {
    let ssbh = ModlEntry {
        mesh_object_name: SsbhString::new("a"),
        mesh_object_sub_index: 2,
        material_label: SsbhString::new("b"),
    };

    let data: ModlEntryData = ModlEntryData::from(&ssbh);
    assert_eq!("a", data.mesh_object_name);
    assert_eq!(2, data.mesh_object_sub_index);
    assert_eq!("b", data.material_label);
}

#[test]
fn create_modl_entry() {
    let data = ModlEntryData {
        mesh_object_name: "a".into(),
        mesh_object_sub_index: 2,
        material_label: "b".into(),
    };

    let ssbh: ModlEntry = ModlEntry::from(&data);
    assert_eq!("a", ssbh.mesh_object_name.to_str().unwrap());
    assert_eq!(2, ssbh.mesh_object_sub_index);
    assert_eq!("b", ssbh.material_label.to_str().unwrap());
}
