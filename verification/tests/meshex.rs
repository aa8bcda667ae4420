use ssbh_data::mesh_data::{AttributeData, MeshObjectData, VectorData};
use ssbh_data::meshex::{AllData, EntryFlag, MeshEntry, MeshEx, MeshObjectGroup};
use ssbh_data::meshex_data::{strip_mesh_name_tags, EntryFlags, MeshExData, MeshObjectGroupData};
use ssbh_data::strings::{Ptr64, SsbhString};
use ssbh_data::vectors::{Vector3, Vector4};

fn mesh_object(name: &str) -> MeshObjectData {
    MeshObjectData {
        name: name.to_string(),
        sub_index: 0,
        parent_bone_name: String::new(),
        sort_bias: 0,
        disable_depth_write: false,
        disable_depth_test: false,
        vertex_indices: Vec::new(),
        positions: vec![AttributeData {
            name: String::new(),
            data: VectorData::Vector3(vec![(0, 0, 0); 3]),
        }],
        normals: Vec::new(),
        binormals: Vec::new(),
        tangents: Vec::new(),
        texture_coordinates: Vec::new(),
        color_sets: Vec::new(),
        bone_influences: Vec::new(),
    }
}

fn group_eq(a: &MeshObjectGroupData, b: &MeshObjectGroupData) -> bool {
    a.bounding_sphere == b.bounding_sphere
        && a.mesh_object_full_name == b.mesh_object_full_name
        && a.mesh_object_name == b.mesh_object_name
        && a.entry_flags == b.entry_flags
}

#[test]
fn convert_meshex_data() {
    let meshex = MeshEx {
        file_length: 0,
        entry_count: 2,
        mesh_object_group_count: 2,
        all_data: Ptr64::new(AllData {
            bounding_sphere: Vector4::zero(),
            name: Ptr64::new(SsbhString::new("All")),
        }),
        mesh_object_groups: Ptr64::new(vec![
            MeshObjectGroup {
                bounding_sphere: Vector4::zero(),
                mesh_object_full_name: Ptr64::new(SsbhString::new("a_VIS")),
                mesh_object_name: Ptr64::new(SsbhString::new("a")),
            },
            MeshObjectGroup {
                bounding_sphere: Vector4::zero(),
                mesh_object_full_name: Ptr64::new(SsbhString::new("b_VIS")),
                mesh_object_name: Ptr64::new(SsbhString::new("b")),
            },
        ]),
        entries: Ptr64::new(vec![
            MeshEntry { mesh_object_group_index: 0, unk1: Vector3::new(0, 1.0f32.to_bits(), 0) },
            MeshEntry { mesh_object_group_index: 0, unk1: Vector3::new(0, 1.0f32.to_bits(), 0) },
            MeshEntry { mesh_object_group_index: 1, unk1: Vector3::new(0, 1.0f32.to_bits(), 0) },
        ]),
        entry_flags: Ptr64::new(ssbh_data::meshex::EntryFlags(vec![
            EntryFlag::new().with_draw_model(false).with_cast_shadow(true),
            EntryFlag::new().with_draw_model(true).with_cast_shadow(false),
            EntryFlag::new().with_draw_model(true).with_cast_shadow(true),
        ])),
        unk1: 0,
    };

    let data = MeshExData {
        mesh_object_groups: vec![
            MeshObjectGroupData {
                bounding_sphere: Vector4::zero(),
                mesh_object_full_name: "a_VIS".to_string(),
                mesh_object_name: "a".to_string(),
                entry_flags: vec![
                    EntryFlags { draw_model: false, cast_shadow: true },
                    EntryFlags { draw_model: true, cast_shadow: false },
                ],
            },
            MeshObjectGroupData {
                bounding_sphere: Vector4::zero(),
                mesh_object_full_name: "b_VIS".to_string(),
                mesh_object_name: "b".to_string(),
                entry_flags: vec![EntryFlags { draw_model: true, cast_shadow: true }],
            },
        ],
    };

    let converted = MeshExData::from(&meshex);
    assert_eq!(data.mesh_object_groups.len(), converted.mesh_object_groups.len());
    for (a, b) in data.mesh_object_groups.iter().zip(converted.mesh_object_groups.iter()) {
        assert!(group_eq(a, b));
    }

    let new_meshex = MeshEx::from(&data);
    assert_eq!(3, new_meshex.entry_count);
    assert_eq!(2, new_meshex.mesh_object_group_count);
    assert_eq!(
        "All",
        new_meshex.all_data.as_ref().unwrap().name.as_ref().unwrap().to_string_lossy()
    );

    let group = &new_meshex.mesh_object_groups.as_ref().unwrap()[0];
    assert_eq!("a", group.mesh_object_name.as_ref().unwrap().to_string_lossy());
    assert_eq!("a_VIS", group.mesh_object_full_name.as_ref().unwrap().to_string_lossy());

    let group = &new_meshex.mesh_object_groups.as_ref().unwrap()[1];
    assert_eq!("b", group.mesh_object_name.as_ref().unwrap().to_string_lossy());
    assert_eq!("b_VIS", group.mesh_object_full_name.as_ref().unwrap().to_string_lossy());

    assert_eq!(0, new_meshex.entries.as_ref().unwrap()[0].mesh_object_group_index);
    assert_eq!(
        Vector3::new(0, 1.0f32.to_bits(), 0),
        new_meshex.entries.as_ref().unwrap()[0].unk1
    );

    assert_eq!(0, new_meshex.entries.as_ref().unwrap()[1].mesh_object_group_index);
    assert_eq!(
        Vector3::new(0, 1.0f32.to_bits(), 0),
        new_meshex.entries.as_ref().unwrap()[1].unk1
    );

    assert_eq!(1, new_meshex.entries.as_ref().unwrap()[2].mesh_object_group_index);
    assert_eq!(
        Vector3::new(0, 1.0f32.to_bits(), 0),
        new_meshex.entries.as_ref().unwrap()[2].unk1
    );

    assert_eq!(
        EntryFlag::new().with_draw_model(false).with_cast_shadow(true),
        new_meshex.entry_flags.as_ref().unwrap().0[0]
    );
    assert_eq!(
        EntryFlag::new().with_draw_model(true).with_cast_shadow(false),
        new_meshex.entry_flags.as_ref().unwrap().0[1]
    );
    assert_eq!(
        EntryFlag::new().with_draw_model(true).with_cast_shadow(true),
        new_meshex.entry_flags.as_ref().unwrap().0[2]
    );
}

#[test]
fn meshex_data_from_mesh_objects() {
    let data = MeshExData {
        mesh_object_groups: vec![
            MeshObjectGroupData {
                bounding_sphere: Vector4::zero(),
                mesh_object_full_name: "a_VIS".to_string(),
                mesh_object_name: "a".to_string(),
                entry_flags: vec![
                    EntryFlags { draw_model: true, cast_shadow: true },
                    EntryFlags { draw_model: true, cast_shadow: true },
                ],
            },
            MeshObjectGroupData {
                bounding_sphere: Vector4::zero(),
                mesh_object_full_name: "b_VIS".to_string(),
                mesh_object_name: "b".to_string(),
                entry_flags: vec![EntryFlags { draw_model: true, cast_shadow: true }],
            },
        ],
    };

    let converted = MeshExData::from_mesh_objects(&[
        mesh_object("a_VIS"),
        mesh_object("a_VIS"),
        mesh_object("b_VIS"),
    ]);
    assert_eq!(data.mesh_object_groups.len(), converted.mesh_object_groups.len());
    for (a, b) in data.mesh_object_groups.iter().zip(converted.mesh_object_groups.iter()) {
        assert!(group_eq(a, b));
    }
}

#[test]
fn strip_meshex_names() {
    // Generated from a dump of mesh extension file entries.
    // Each test case is a unique removed tag found by comparing the name and full name.
    assert_eq!("sampleRing", strip_mesh_name_tags("sampleRingShape"));
    assert_eq!(
        "CityWorldFlag01_pCylinderShape1",
        strip_mesh_name_tags("CityWorldFlag01_pCylinderShape1")
    );
    assert_eq!("Face_patternA", strip_mesh_name_tags("Face_patternA_VIS_O_OBJShape"));
    assert_eq!("FaceBaseM", strip_mesh_name_tags("FaceBaseM_O_OBJ_NSCShape"));
    assert_eq!("guile_base", strip_mesh_name_tags("guile_base_VIS_OBJShape"));
    assert_eq!("gel", strip_mesh_name_tags("gel_O_OBJ_O_SORTEACHNODEShape"));
    assert_eq!("FilmM3", strip_mesh_name_tags("FilmM3_O_OBJShape"));
    assert_eq!("BodyM_Red", strip_mesh_name_tags("BodyM_Red_VIS_O_OBJ_NSCShape"));
    assert_eq!("OrbM", strip_mesh_name_tags("OrbM_VIS_O_OBJ_O_OBJ_NSCShape"));
    assert_eq!("SheriffM", strip_mesh_name_tags("SheriffM_O_OBJ_NSC1Shape"));
    assert_eq!("face_default", strip_mesh_name_tags("face_default_O_V_VISShape"));
    assert_eq!("a", strip_mesh_name_tags("a_O_OBJ_O_SORTEACHNODEShape"));
    assert_eq!("shotM", strip_mesh_name_tags("shotM_VIS_O_OBJ1Shape"));
    assert_eq!(
        "peach_flame_RT",
        strip_mesh_name_tags("peach_flame_RT_O_OBJ_O_HIR_O_SORTBIAS800_Shape")
    );
    assert_eq!("ref", strip_mesh_name_tags("ref_O_OBJ_O_HIR_O_SORTBIAS900_Shape"));
    assert_eq!(
        "peach_00_hair2",
        strip_mesh_name_tags("peach_00_hair2_O_OBJ_O_HIR_O_SORTBIAS1000_Shape")
    );
    assert_eq!(
        "peach_00_skirt3",
        strip_mesh_name_tags("peach_00_skirt3_O_OBJ_O_HIR_O_SORTBIAS1100_Shape")
    );
    assert_eq!(
        "peach_00_main2",
        strip_mesh_name_tags("peach_00_main2_O_OBJ_O_HIR_O_SORTBIAS1200_Shape")
    );
    assert_eq!(
        "peach_00_shose",
        strip_mesh_name_tags("peach_00_shose_O_OBJ_O_HIR_O_SORTBIAS1300_Shape")
    );
    assert_eq!(
        "peach_00_skirt",
        strip_mesh_name_tags("peach_00_skirt_O_OBJ_O_HIR_O_SORTBIAS1400_Shape")
    );
    assert_eq!(
        "peach_00_hand",
        strip_mesh_name_tags("peach_00_hand_O_OBJ_O_HIR_O_SORTBIAS1500_Shape")
    );
    assert_eq!(
        "peach_01L_hair03",
        strip_mesh_name_tags("peach_01L_hair03_O_OBJ_O_HIR_O_SORTBIAS1600_Shape")
    );
    assert_eq!(
        "peach_00_hair4",
        strip_mesh_name_tags("peach_00_hair4_O_OBJ_O_HIR_O_SORTBIAS1800_Shape")
    );
    assert_eq!(
        "peach_01R_ring_R",
        strip_mesh_name_tags("peach_01R_ring_R_O_OBJ_O_HIR_O_SORTBIAS1700_Shape")
    );
    assert_eq!("eye1", strip_mesh_name_tags("eye1_O_OBJ_O_HIRShape"));
    assert_eq!("renz", strip_mesh_name_tags("renz_O_OBJ_NSC_O_SORTBIASm10_Shape"));
    assert_eq!(
        "Bayonetta_FaceN",
        strip_mesh_name_tags("Bayonetta_FaceN_VIS_O_OBJ_O_NOSORT_FAR_O_SORTEACHNODEShape")
    );
    assert_eq!("armA", strip_mesh_name_tags("armA_VIS_O_OBJ_O_SORTEACHNODEShape"));
    assert_eq!("brave_Eye_Ouch", strip_mesh_name_tags("brave_Eye_Ouch_VIS_O_OBJShape_t_t"));
    assert_eq!("brave_Mouth_Bound", strip_mesh_name_tags("brave_Mouth_Bound_VIS_O_OBJShape1"));
    assert_eq!("falsh", strip_mesh_name_tags("falsh_O_OBJ_O_NOSORT_FARShape"));
    assert_eq!(
        "Cloud_Openblink",
        strip_mesh_name_tags("Cloud_Openblink_VIS_O_OBJ_O_NOSORT_FARShape")
    );
    assert_eq!(
        "L_ARMura",
        strip_mesh_name_tags("L_ARMura_O_OBJ_O_SORTBIASm1__O_SORTEACHNODEShape")
    );
    assert_eq!(
        "L_ARMomote",
        strip_mesh_name_tags("L_ARMomote_O_OBJ_O_SORTBIAS1__O_SORTEACHNODEShape")
    );
    assert_eq!(
        "diddy_Mouth_Capture",
        strip_mesh_name_tags("diddy_Mouth_Capture_VIS_O_OBJ_SORTEACHNODEShape")
    );
    assert_eq!(
        "Head_normalLF_Shadow",
        strip_mesh_name_tags("Head_normalLF_Shadow_VIS_O_OBJ_O_SORTBIAS5__O_SORTEACHNODEShape")
    );
    assert_eq!("donkey_Rarm", strip_mesh_name_tags("donkey_Rarm_O_OBJ_O_SORTEACHNODEShape1"));
    assert_eq!("bird", strip_mesh_name_tags("bird_VIS_O_OBJ_O_OBJ_O_NOSORT_NEARShape"));
    assert_eq!("gun_A_board", strip_mesh_name_tags("gun_A_board_VIS_O_OBJShapeShape"));
    assert_eq!("LightM", strip_mesh_name_tags("LightM_O_OBJ_2Shape"));
    assert_eq!(
        "LhandMove",
        strip_mesh_name_tags("LhandMove_VIS_O_OBJ_O_NOSORT_AS_OPAQUEShape")
    );
    assert_eq!("renz", strip_mesh_name_tags("renz_O_OBJ_NSC_O_SORTBIASm10_Shape1"));
    assert_eq!(
        "pasted__polySurface287",
        strip_mesh_name_tags("pasted__polySurface287_O_OBJ1Shape")
    );
    assert_eq!(
        "szerosuits_heir_Tail",
        strip_mesh_name_tags("szerosuits_heir_Tail_O_OBJ__O_SORTEACHNODEShape")
    );
    assert_eq!("pPlane1", strip_mesh_name_tags("pPlane1_O_OBJ_NSC_O_SORTEACHNODEShape"));
    assert_eq!(
        "hairmid_rev",
        strip_mesh_name_tags("hairmid_rev_O_OBJ_O_SORTEACHNODEShape_rev")
    );
}
