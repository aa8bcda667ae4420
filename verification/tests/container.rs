use ssbh_data::buffers::{parse_v3, parse_v4};
use ssbh_data::ssbh_write::SsbhWrite;
use ssbh_data::vectors::{Matrix3x3, Matrix4x4, Vector3, Vector4};

fn hex(s: &str) -> Vec<u8> {
    let chars: Vec<u8> = s.bytes().filter(|b| !b.is_ascii_whitespace()).collect();
    chars
        .chunks(2)
        .map(|p| {
            let hi = (p[0] as char).to_digit(16).unwrap() as u8;
            let lo = (p[1] as char).to_digit(16).unwrap() as u8;
            hi * 16 + lo
        })
        .collect()
}

#[test]
fn write_vec_empty() {
    let mut writer = Vec::new();
    let mut data_ptr = 0;

    let value = Vec::<u8>::new();
    value.ssbh_write(&mut writer, &mut data_ptr);

    assert!(writer.is_empty());
    assert_eq!(0, data_ptr);
    assert_eq!(0, value.size_in_bytes());
}

#[test]
fn write_vec() {
    let mut writer = Vec::new();
    let mut data_ptr = 0;

    let value = vec![1u8, 2u8];
    value.ssbh_write(&mut writer, &mut data_ptr);

    assert_eq!(value, writer);
    assert_eq!(2, data_ptr);
    assert_eq!(2, value.size_in_bytes());
}

#[test]
fn write_unit() {
    let mut writer = Vec::new();
    let mut data_ptr = 0;

    let value = ();
    value.ssbh_write(&mut writer, &mut data_ptr);

    assert!(writer.is_empty());
    assert_eq!(0, data_ptr);
    assert_eq!(0, value.size_in_bytes());
    assert_eq!(1, <() as SsbhWrite>::alignment_in_bytes());
}

#[test]
fn write_option_some() {
    let mut writer = Vec::new();
    let mut data_ptr = 0;

    let value = Some(1u8);
    value.ssbh_write(&mut writer, &mut data_ptr);

    assert_eq!(vec![1u8], writer);
    assert_eq!(1, data_ptr);
    assert_eq!(1, value.size_in_bytes());
}

#[test]
fn write_option_none() {
    let mut writer = Vec::new();
    let mut data_ptr = 0;

    let value = Option::<u8>::None;
    value.ssbh_write(&mut writer, &mut data_ptr);

    assert!(writer.is_empty());
    assert_eq!(0, data_ptr);
    assert_eq!(0, value.size_in_bytes());
}

#[test]
fn write_integers_little_endian() {
    let mut writer = Vec::new();
    let mut data_ptr = 0;
    0x0403_0201u32.ssbh_write(&mut writer, &mut data_ptr);
    0x0605u16.ssbh_write(&mut writer, &mut data_ptr);
    0x0e0d_0c0b_0a09_0807u64.ssbh_write(&mut writer, &mut data_ptr);
    assert_eq!(
        writer,
        vec![1u8, 2, 3, 4, 5, 6, 7, 8, 9, 0x0a, 0x0b, 0x0c, 0x0d, 0x0e]
    );
}

#[test]
fn read_vector3() {
    let data = hex("0000803F 000000C0 0000003F");
    let value = parse_v3(&data, 0);
    assert_eq!(1.0f32, f32::from_bits(value.x));
    assert_eq!(-2.0f32, f32::from_bits(value.y));
    assert_eq!(0.5f32, f32::from_bits(value.z));
}

#[test]
fn read_vector4() {
    let data = hex("0000803F 000000C0 0000003F 0000803F");
    let value = parse_v4(&data, 0);
    assert_eq!(1.0f32, f32::from_bits(value.x));
    assert_eq!(-2.0f32, f32::from_bits(value.y));
    assert_eq!(0.5f32, f32::from_bits(value.z));
    assert_eq!(1.0f32, f32::from_bits(value.w));
}

#[test]
fn read_color4f() {
    let data = hex("0000803E 0000003F 0000003E 0000803F");
    let value = parse_v4(&data, 0);
    assert_eq!(0.25f32, f32::from_bits(value.x));
    assert_eq!(0.5f32, f32::from_bits(value.y));
    assert_eq!(0.125f32, f32::from_bits(value.z));
    assert_eq!(1.0f32, f32::from_bits(value.w));
}

#[test]
fn read_matrix4x4_identity() {
    let m = Matrix4x4::identity();
    assert_eq!(
        Vector4::new(1.0f32.to_bits(), 0, 0, 0),
        m.col1
    );
    assert_eq!(Vector4::new(0, 1.0f32.to_bits(), 0, 0), m.col2);
    assert_eq!(Vector4::new(0, 0, 1.0f32.to_bits(), 0), m.col3);
    assert_eq!(Vector4::new(0, 0, 0, 1.0f32.to_bits()), m.col4);
}

#[test]
fn read_matrix3x3_identity() {
    let m = Matrix3x3::identity();
    assert_eq!(Vector3::new(1.0f32.to_bits(), 0, 0), m.col1);
    assert_eq!(Vector3::new(0, 1.0f32.to_bits(), 0), m.col2);
    assert_eq!(Vector3::new(0, 0, 1.0f32.to_bits()), m.col3);
}
