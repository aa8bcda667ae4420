use ssbh_data::buffers::{
    read_track_values, write_compressed_booleans, write_compressed_float,
    write_compressed_transform, write_compressed_uv_transform, write_compressed_vector4,
    float_default_and_compression, transform_default_and_compression,
    uv_transform_default_and_compression, vector4_default_and_compression, CompressedTrack,
    CompressionType, Error, QuantizedTransform, QuantizedUvTransform, QuantizedVector3,
    QuantizedVector4, TrackData, TrackFlags, TrackTypeV2, TrackValues,
};
use ssbh_data::compression::{CompressionFlags, Transform, UncompressedTransform, UvTransform};
use ssbh_data::vectors::{Vector3, Vector4};

fn hex(s: &str) -> Vec<u8> {
    let chars: Vec<u8> = s.bytes().filter(|b| !b.is_ascii_whitespace()).collect();
    assert!(chars.len() % 2 == 0);
    chars
        .chunks(2)
        .map(|p| {
            let hi = (p[0] as char).to_digit(16).unwrap() as u8;
            let lo = (p[1] as char).to_digit(16).unwrap() as u8;
            hi * 16 + lo
        })
        .collect()
}

fn read(data: &[u8], kind: TrackTypeV2, ct: CompressionType, count: usize) -> (TrackData, bool) {
    read_track_values(data, TrackFlags { track_type: kind, compression_type: ct }, count).unwrap()
}

/// The quantization step of the canonical writer, on plain floats.
fn compress_f32(value: f32, min: f32, max: f32, bit_count: u64) -> u32 {
    let scale = (1u64 << bit_count) - 1;
    (((value - min) / (max - min)) * scale as f32) as u32
}

/// The dequantization step of the reader, on plain floats.
fn decompress_f32(q: u32, min: f32, max: f32, bit_count: u64) -> f32 {
    let scale = (1u64 << bit_count) - 1;
    let t = q as f64 / scale as f64;
    (min as f64 + (max as f64 - min as f64) * t) as f32
}

fn quantize(v: f32, min: f32, max: f32) -> Option<u32> {
    if min == max {
        None
    } else {
        Some(compress_f32(v, min, max, 24))
    }
}

#[test]
fn read_constant_vector4_single_frame() {
    // EyeL, CustomVector30
    let data = hex("cdcccc3e 0000c03f 0000803f 0000803f");
    let (values, compensate_scale) = read(&data, TrackTypeV2::Vector4, CompressionType::Constant, 1);

    assert_eq!(false, compensate_scale);

    match values {
        TrackData::Uncompressed(TrackValues::Vector4(values)) => {
            assert_eq!(
                values,
                vec![Vector4::new(
                    0.4f32.to_bits(),
                    1.5f32.to_bits(),
                    1.0f32.to_bits(),
                    1.0f32.to_bits()
                )]
            );
        }
        _ => panic!(),
    }
}

#[test]
fn write_constant_vector4_single_frame() {
    let values = TrackValues::Vector4(vec![Vector4::new(
        0.4f32.to_bits(),
        1.5f32.to_bits(),
        1.0f32.to_bits(),
        1.0f32.to_bits(),
    )]);
    assert_eq!(values.write_uncompressed(false), hex("cdcccc3e 0000c03f 0000803f 0000803f"));
}

#[test]
fn read_constant_texture_single_frame() {
    // EyeL, nfTexture1[0]
    let data = hex("0000803f 0000803f 00000000 00000000 00000000");
    let (values, compensate_scale) =
        read(&data, TrackTypeV2::UvTransform, CompressionType::Constant, 1);

    assert_eq!(false, compensate_scale);

    match values {
        TrackData::Uncompressed(TrackValues::UvTransform(values)) => {
            assert_eq!(
                values,
                vec![UvTransform {
                    scale_u: 1.0f32.to_bits(),
                    scale_v: 1.0f32.to_bits(),
                    rotation: 0,
                    translate_u: 0,
                    translate_v: 0,
                }]
            );
        }
        _ => panic!(),
    }
}

#[test]
fn write_constant_texture_single_frame() {
    let values = TrackValues::UvTransform(vec![UvTransform {
        scale_u: 1.0f32.to_bits(),
        scale_v: 1.0f32.to_bits(),
        rotation: 0,
        translate_u: 0,
        translate_v: 0,
    }]);
    assert_eq!(
        values.write_uncompressed(false),
        hex("0000803f 0000803f 00000000 00000000 00000000")
    );
}

#[test]
fn read_constant_pattern_index_single_frame() {
    let data = hex("01000000");
    let (values, compensate_scale) =
        read(&data, TrackTypeV2::PatternIndex, CompressionType::Constant, 1);

    assert_eq!(false, compensate_scale);
    match values {
        TrackData::Uncompressed(TrackValues::PatternIndex(values)) => {
            assert_eq!(values, vec![1]);
        }
        _ => panic!(),
    }
}

#[test]
fn write_constant_pattern_index_single_frame() {
    let values = TrackValues::PatternIndex(vec![1]);
    assert_eq!(values.write_uncompressed(false), hex("01000000"));
}

#[test]
fn read_constant_float_single_frame() {
    let data = hex("cdcccc3e");
    let (values, compensate_scale) = read(&data, TrackTypeV2::Float, CompressionType::Constant, 1);

    assert_eq!(false, compensate_scale);
    match values {
        TrackData::Uncompressed(TrackValues::Float(values)) => {
            assert_eq!(values, vec![0.4f32.to_bits()]);
        }
        _ => panic!(),
    }
}

#[test]
fn write_constant_float_single_frame() {
    let values = TrackValues::Float(vec![0.4f32.to_bits()]);
    assert_eq!(values.write_uncompressed(false), hex("cdcccc3e"));
}

#[test]
fn read_compressed_float_all_equal() {
    // A high frame count with zero bits per entry decodes to a single
    // default-valued frame instead of allocating per frame.
    let data = hex(
        "04000000 20000000 24000000 FFFFFFFF
         cdcccc3e cdcccc3e 10000000 00000000
         cdcccc3e",
    );
    let (values, compensate_scale) =
        read(&data, TrackTypeV2::Float, CompressionType::Compressed, 0xFFFFFFFF);

    assert_eq!(false, compensate_scale);
    match values {
        TrackData::Compressed(CompressedTrack::Float { compression, default, frames }) => {
            assert_eq!(compression.min, 0.4f32.to_bits());
            assert_eq!(compression.max, 0.4f32.to_bits());
            assert_eq!(default, 0.4f32.to_bits());
            assert_eq!(frames, vec![None]);
        }
        _ => panic!(),
    }
}

#[test]
fn read_compressed_float_multiple_frames() {
    // CustomFloat2
    let data = hex(
        "04000000 20000200 24000000 05000000
         00000000 00004040 02000000 00000000
         00000000
         e403",
    );
    let (values, compensate_scale) =
        read(&data, TrackTypeV2::Float, CompressionType::Compressed, 5);

    assert_eq!(false, compensate_scale);
    match values {
        TrackData::Compressed(CompressedTrack::Float { compression, default: _, frames }) => {
            assert_eq!(frames, vec![Some(0), Some(1), Some(2), Some(3), Some(3)]);
            let min = f32::from_bits(compression.min);
            let max = f32::from_bits(compression.max);
            let decoded: Vec<f32> = frames
                .iter()
                .map(|q| decompress_f32(q.unwrap(), min, max, compression.bit_count))
                .collect();
            assert_eq!(decoded, vec![0.0, 1.0, 2.0, 3.0, 3.0]);
        }
        _ => panic!(),
    }
}

#[test]
fn write_compressed_floats_multiple_frame() {
    // Test that the min/max and bit counts are used properly.
    let values = vec![0.5f32, 2.0];
    let bits: Vec<u32> = values.iter().map(|v| v.to_bits()).collect();
    let (default, compression) = float_default_and_compression(&bits);
    let frames: Vec<Option<u32>> = values.iter().map(|v| quantize(*v, 0.5, 2.0)).collect();
    let out = write_compressed_float(compression, default, &frames);

    assert_eq!(
        out,
        hex(
            "04000000 20001800 24000000 02000000
             0000003F 00000040 18000000 00000000
             0000003F
             000000 FFFFFF"
        )
    );

    let (decoded, _) = read(&out, TrackTypeV2::Float, CompressionType::Compressed, 2);
    match decoded {
        TrackData::Compressed(CompressedTrack::Float { frames: decoded_frames, .. }) => {
            assert_eq!(decoded_frames, frames);
        }
        _ => panic!(),
    }
}

#[test]
fn read_constant_boolean_single_frame_true() {
    let data = hex("01");
    let (values, compensate_scale) =
        read(&data, TrackTypeV2::Boolean, CompressionType::Constant, 1);
    assert_eq!(false, compensate_scale);
    match values {
        TrackData::Uncompressed(TrackValues::Boolean(values)) => assert_eq!(values, vec![true]),
        _ => panic!(),
    }
}

#[test]
fn write_constant_boolean_single_frame_true() {
    let values = TrackValues::Boolean(vec![true]);
    assert_eq!(values.write_uncompressed(false), hex("01"));
}

#[test]
fn read_constant_boolean_single_frame_false() {
    let data = hex("00");
    let (values, compensate_scale) =
        read(&data, TrackTypeV2::Boolean, CompressionType::Constant, 1);
    assert_eq!(false, compensate_scale);
    match values {
        TrackData::Uncompressed(TrackValues::Boolean(values)) => assert_eq!(values, vec![false]),
        _ => panic!(),
    }
}

#[test]
fn read_compressed_boolean_multiple_frames() {
    // magic, Visibility
    let data = hex(
        "04000000 20000100 21000000 03000000
         00000000 00000000 00000000 00000000
         0006",
    );
    let (values, compensate_scale) =
        read(&data, TrackTypeV2::Boolean, CompressionType::Compressed, 3);
    assert_eq!(false, compensate_scale);
    match values {
        TrackData::Compressed(CompressedTrack::Boolean { values }) => {
            assert_eq!(values, vec![false, true, true]);
        }
        _ => panic!(),
    }
}

#[test]
fn write_compressed_boolean_single_frame() {
    // Test writing a single bit.
    let out = write_compressed_booleans(&vec![true]);
    assert_eq!(
        out,
        hex(
            "04000000 20000100 21000000 01000000
             00000000 00000000 00000000 00000000
             0001"
        )
    );
    let (decoded, _) = read(&out, TrackTypeV2::Boolean, CompressionType::Compressed, 1);
    match decoded {
        TrackData::Compressed(CompressedTrack::Boolean { values }) => {
            assert_eq!(values, vec![true]);
        }
        _ => panic!(),
    }
}

#[test]
fn write_compressed_boolean_three_frames() {
    // magic, Visibility
    let out = write_compressed_booleans(&vec![false, true, true]);
    assert_eq!(
        out,
        hex(
            "04000000 20000100 21000000 03000000
             00000000 00000000 00000000 00000000
             0006"
        )
    );
    let (decoded, _) = read(&out, TrackTypeV2::Boolean, CompressionType::Compressed, 3);
    match decoded {
        TrackData::Compressed(CompressedTrack::Boolean { values }) => {
            assert_eq!(values, vec![false, true, true]);
        }
        _ => panic!(),
    }
}

#[test]
fn write_compressed_boolean_multiple_frames() {
    // MarioFaceN, Visibility, shortened from 96 to 11 frames.
    let out = write_compressed_booleans(&vec![true; 11]);
    assert_eq!(
        out,
        hex(
            "04000000 20000100 21000000 0B000000
             00000000 00000000 00000000 00000000
             00FF07"
        )
    );
    let (decoded, _) = read(&out, TrackTypeV2::Boolean, CompressionType::Compressed, 11);
    match decoded {
        TrackData::Compressed(CompressedTrack::Boolean { values }) => {
            assert_eq!(values, vec![true; 11]);
        }
        _ => panic!(),
    }
}

#[test]
fn read_compressed_pattern_index_multiple_frames() {
    // DiffuseUVTransform.PatternIndex, shortened from 650 to 8 frames.
    let data = hex(
        "04000000 20000100 24000000 8a020000
         01000000 02000000 01000000 00000000
         01000000
         fe",
    );
    let (values, compensate_scale) =
        read(&data, TrackTypeV2::PatternIndex, CompressionType::Compressed, 8);
    assert_eq!(false, compensate_scale);
    match values {
        TrackData::Compressed(CompressedTrack::PatternIndex { values, .. }) => {
            assert_eq!(values, vec![1, 2, 2, 2, 2, 2, 2, 2]);
        }
        _ => panic!(),
    }
}

#[test]
fn read_compressed_pattern_index_zero_bit_count() {
    // The header's data pointer lies far outside the 50-byte blob, which
    // the codec reports as a malformed header rather than decoding an
    // empty bitstream.
    let data = hex(
        "00000000 22000000 00000004 00000000
         00000000 00000000 00000000 00000000
         00000004 00000000
         000000000080000010000000000000ffffff",
    );
    let result = read_track_values(
        &data,
        TrackFlags {
            track_type: TrackTypeV2::PatternIndex,
            compression_type: CompressionType::Compressed,
        },
        8,
    );
    assert!(matches!(result, Err(Error::MalformedCompressionHeader)));
}

#[test]
fn write_compressed_vector4_multiple_frames() {
    let values = vec![
        Vector4::new(
            (-1.0f32).to_bits(),
            (-2.0f32).to_bits(),
            (-3.0f32).to_bits(),
            (-4.0f32).to_bits(),
        ),
        Vector4::new(1.0f32.to_bits(), 2.0f32.to_bits(), 3.0f32.to_bits(), 4.0f32.to_bits()),
    ];
    let (default, compression) = vector4_default_and_compression(&values);
    let frames: Vec<QuantizedVector4> = vec![
        QuantizedVector4 {
            x: quantize(-1.0, -1.0, 1.0),
            y: quantize(-2.0, -2.0, 2.0),
            z: quantize(-3.0, -3.0, 3.0),
            w: quantize(-4.0, -4.0, 4.0),
        },
        QuantizedVector4 {
            x: quantize(1.0, -1.0, 1.0),
            y: quantize(2.0, -2.0, 2.0),
            z: quantize(3.0, -3.0, 3.0),
            w: quantize(4.0, -4.0, 4.0),
        },
    ];
    let out = write_compressed_vector4(compression, default, &frames);
    assert_eq!(
        out,
        hex(
            "04000000 50006000 60000000 02000000
             000080BF 0000803F 18000000 00000000
             000000C0 00000040 18000000 00000000
             000040C0 00004040 18000000 00000000
             000080C0 00008040 18000000 00000000
             000080BF 000000C0 000040C0 000080C0
             000000 000000 000000 000000 FFFFFF FFFFFF FFFFFF FFFFFF"
        )
    );
    let (decoded, _) = read(&out, TrackTypeV2::Vector4, CompressionType::Compressed, 2);
    match decoded {
        TrackData::Compressed(CompressedTrack::Vector4 { frames: decoded_frames, .. }) => {
            assert_eq!(decoded_frames, frames);
        }
        _ => panic!(),
    }
}

#[test]
fn write_compressed_vector4_multiple_frames_defaults() {
    // Components with a degenerate range store no bits and use the default.
    let values = vec![
        Vector4::new(
            1.0f32.to_bits(),
            2.0f32.to_bits(),
            3.0f32.to_bits(),
            (-4.0f32).to_bits(),
        ),
        Vector4::new(1.0f32.to_bits(), 2.0f32.to_bits(), 3.0f32.to_bits(), 4.0f32.to_bits()),
    ];
    let (default, compression) = vector4_default_and_compression(&values);
    let frames: Vec<QuantizedVector4> = vec![
        QuantizedVector4 { x: None, y: None, z: None, w: quantize(-4.0, -4.0, 4.0) },
        QuantizedVector4 { x: None, y: None, z: None, w: quantize(4.0, -4.0, 4.0) },
    ];
    let out = write_compressed_vector4(compression, default, &frames);
    assert_eq!(
        out,
        hex(
            "04000000 50001800 60000000 02000000
             0000803F 0000803F 00000000 00000000
             00000040 00000040 00000000 00000000
             00004040 00004040 00000000 00000000
             000080C0 00008040 18000000 00000000
             0000803F 00000040 00004040 000080C0
             000000 FFFFFF"
        )
    );
}

#[test]
fn read_compressed_vector4_multiple_frames() {
    // EyeL, CustomVector31
    let data = hex(
        "04000000 50000300 60000000 08000000
         0000803f 0000803f 00000000 00000000
         0000803f 0000803f 00000000 00000000
         3108ac3d bc74133e 03000000 00000000
         00000000 00000000 00000000 00000000
         0000803f 0000803f 3108ac3d 00000000
         88c6fa",
    );
    let (values, compensate_scale) =
        read(&data, TrackTypeV2::Vector4, CompressionType::Compressed, 8);
    assert_eq!(false, compensate_scale);
    match values {
        TrackData::Compressed(CompressedTrack::Vector4 { compression, default, frames }) => {
            assert_eq!(8, frames.len());
            // x and y have degenerate ranges, z holds three bits per frame,
            // and w's zero bit count falls back to the default.
            let min = f32::from_bits(compression.z.min);
            let max = f32::from_bits(compression.z.max);
            let decoded: Vec<f32> = frames
                .iter()
                .map(|f| decompress_f32(f.z.unwrap(), min, max, compression.z.bit_count))
                .collect();
            assert_eq!(
                decoded,
                vec![
                    0.084, 0.09257143, 0.10114285, 0.109714285, 0.11828571, 0.12685713,
                    0.13542856, 0.144
                ]
            );
            assert_eq!(default.w, 0);
            for f in &frames {
                assert_eq!(f.x, None);
                assert_eq!(f.y, None);
                assert_eq!(f.w, None);
            }
        }
        _ => panic!(),
    }
}

fn quantized_uv(
    v: &UvTransform,
    c: &ssbh_data::compression::UvTransformCompression,
    uniform: bool,
) -> QuantizedUvTransform {
    let q = |bits: u32, comp: &ssbh_data::compression::F32Compression| {
        if comp.bit_count == 0 || comp.min == comp.max {
            None
        } else {
            Some(compress_f32(
                f32::from_bits(bits),
                f32::from_bits(comp.min),
                f32::from_bits(comp.max),
                comp.bit_count,
            ))
        }
    };
    QuantizedUvTransform {
        scale_u: q(v.scale_u, &c.scale_u),
        scale_v: if uniform { None } else { q(v.scale_v, &c.scale_v) },
        rotation: q(v.rotation, &c.rotation),
        translate_u: q(v.translate_u, &c.translate_u),
        translate_v: q(v.translate_v, &c.translate_v),
    }
}

#[test]
fn write_compressed_uv_transform_multiple_frames() {
    let values = vec![
        UvTransform {
            scale_u: (-1.0f32).to_bits(),
            scale_v: (-2.0f32).to_bits(),
            rotation: (-3.0f32).to_bits(),
            translate_u: (-4.0f32).to_bits(),
            translate_v: (-5.0f32).to_bits(),
        },
        UvTransform {
            scale_u: 1.0f32.to_bits(),
            scale_v: 2.0f32.to_bits(),
            rotation: 3.0f32.to_bits(),
            translate_u: 4.0f32.to_bits(),
            translate_v: 5.0f32.to_bits(),
        },
    ];
    let track = TrackValues::UvTransform(values.clone());
    let flags = CompressionFlags::from_track(&track);
    let (default, compression) = uv_transform_default_and_compression(&values);
    let frames: Vec<QuantizedUvTransform> =
        values.iter().map(|v| quantized_uv(v, &compression, false)).collect();
    let out = write_compressed_uv_transform(flags, compression, default, &frames);
    assert_eq!(
        out,
        hex(
            "04000c00 60007800 74000000 02000000
             000080BF 0000803F 18000000 00000000
             000000C0 00000040 18000000 00000000
             000040C0 00004040 18000000 00000000
             000080C0 00008040 18000000 00000000
             0000A0C0 0000A040 18000000 00000000
             000080BF 000000C0 000040C0 000080C0 0000A0C0
             000000 000000 000000 000000 000000
             FFFFFF FFFFFF FFFFFF FFFFFF FFFFFF"
        )
    );
    let (decoded, _) = read(&out, TrackTypeV2::UvTransform, CompressionType::Compressed, 2);
    match decoded {
        TrackData::Compressed(CompressedTrack::UvTransform { frames: decoded_frames, .. }) => {
            assert_eq!(decoded_frames, frames);
        }
        _ => panic!(),
    }
}

#[test]
fn write_compressed_uv_transform_multiple_frames_uniform_scale() {
    let values = vec![
        UvTransform {
            scale_u: (-1.0f32).to_bits(),
            scale_v: (-1.0f32).to_bits(),
            rotation: (-3.0f32).to_bits(),
            translate_u: (-4.0f32).to_bits(),
            translate_v: (-5.0f32).to_bits(),
        },
        UvTransform {
            scale_u: 2.0f32.to_bits(),
            scale_v: 2.0f32.to_bits(),
            rotation: 3.0f32.to_bits(),
            translate_u: 4.0f32.to_bits(),
            translate_v: 5.0f32.to_bits(),
        },
    ];
    let track = TrackValues::UvTransform(values.clone());
    let flags = CompressionFlags::from_track(&track);
    assert!(flags.uniform_scale);
    let (default, compression) = uv_transform_default_and_compression(&values);
    let frames: Vec<QuantizedUvTransform> =
        values.iter().map(|v| quantized_uv(v, &compression, true)).collect();
    let out = write_compressed_uv_transform(flags, compression, default, &frames);
    assert_eq!(
        out,
        hex(
            "04000e00 60006000 74000000 02000000
             000080BF 00000040 18000000 00000000
             000080BF 00000040 18000000 00000000
             000040C0 00004040 18000000 00000000
             000080C0 00008040 18000000 00000000
             0000A0C0 0000A040 18000000 00000000
             000080BF 000080BF 000040C0 000080C0 0000A0C0
             000000 000000 000000 000000
             FFFFFF FFFFFF FFFFFF FFFFFF"
        )
    );
    let (decoded, _) = read(&out, TrackTypeV2::UvTransform, CompressionType::Compressed, 2);
    match decoded {
        TrackData::Compressed(CompressedTrack::UvTransform {
            flags: decoded_flags,
            frames: decoded_frames,
            ..
        }) => {
            assert!(decoded_flags.uniform_scale);
            assert_eq!(decoded_frames, frames);
        }
        _ => panic!(),
    }
}

#[test]
fn read_compressed_uv_transform_multiple_frames() {
    // _sfx_GrdGreensGrassAM1, nfTexture0[0]
    let data = hex(
        "04000900 60002600 74000000 14000000
         2a8e633e 34a13d3f 0a000000 00000000
         cdcc4c3e 7a8c623f 0a000000 00000000
         00000000 00000000 10000000 00000000
         ec51b8be bc7413bd 09000000 00000000
         a24536be e17a943e 09000000 00000000
         34a13d3f 7a8c623f 00000000 bc7413bd a24536be
         ffffff1f 80b4931a cfc12071 8de500e6 535555",
    );
    let (values, compensate_scale) =
        read(&data, TrackTypeV2::UvTransform, CompressionType::Compressed, 4);
    assert_eq!(false, compensate_scale);
    match values {
        TrackData::Compressed(CompressedTrack::UvTransform { compression, frames, .. }) => {
            assert_eq!(4, frames.len());
            let dq = |q: Option<u32>, c: &ssbh_data::compression::F32Compression| {
                decompress_f32(
                    q.unwrap(),
                    f32::from_bits(c.min),
                    f32::from_bits(c.max),
                    c.bit_count,
                )
            };
            // First frame decodes to the range maxima; rotation falls back
            // to the default since its range is degenerate.
            assert_eq!(0.740741, dq(frames[0].scale_u, &compression.scale_u));
            assert_eq!(0.884956, dq(frames[0].scale_v, &compression.scale_v));
            assert_eq!(-0.036, dq(frames[0].translate_u, &compression.translate_u));
            assert_eq!(-0.178, dq(frames[0].translate_v, &compression.translate_v));
            assert_eq!(None, frames[0].rotation);
            // A middle frame.
            assert_eq!(0.5881758, dq(frames[1].scale_u, &compression.scale_u));
            assert_eq!(0.64123756, dq(frames[1].scale_v, &compression.scale_v));
            assert_eq!(-0.0721409, dq(frames[1].translate_u, &compression.translate_u));
            assert_eq!(-0.12579648, dq(frames[1].translate_v, &compression.translate_v));
        }
        _ => panic!(),
    }
}

fn quantized_transform(
    v: &UncompressedTransform,
    c: &ssbh_data::compression::TransformCompression,
    flags: CompressionFlags,
) -> QuantizedTransform {
    let q = |bits: u32, comp: &ssbh_data::compression::F32Compression| {
        if comp.bit_count == 0 || comp.min == comp.max {
            None
        } else {
            Some(compress_f32(
                f32::from_bits(bits),
                f32::from_bits(comp.min),
                f32::from_bits(comp.max),
                comp.bit_count,
            ))
        }
    };
    QuantizedTransform {
        scale: if flags.uniform_scale {
            QuantizedVector3 { x: q(v.scale.x, &c.scale.x), y: None, z: None }
        } else {
            QuantizedVector3 {
                x: q(v.scale.x, &c.scale.x),
                y: q(v.scale.y, &c.scale.y),
                z: q(v.scale.z, &c.scale.z),
            }
        },
        rotation: QuantizedVector3 {
            x: q(v.rotation.x, &c.rotation.x),
            y: q(v.rotation.y, &c.rotation.y),
            z: q(v.rotation.z, &c.rotation.z),
        },
        translation: QuantizedVector3 {
            x: q(v.translation.x, &c.translation.x),
            y: q(v.translation.y, &c.translation.y),
            z: q(v.translation.z, &c.translation.z),
        },
        flip_w: Some(f32::from_bits(v.rotation.w).is_sign_negative()),
    }
}

#[test]
fn write_compressed_transform_multiple_frames() {
    let values = vec![
        Transform {
            translation: Vector3::new(
                (-1.0f32).to_bits(),
                (-2.0f32).to_bits(),
                (-3.0f32).to_bits(),
            ),
            rotation: Vector4::new(
                (-4.0f32).to_bits(),
                (-5.0f32).to_bits(),
                (-6.0f32).to_bits(),
                0.0f32.to_bits(),
            ),
            scale: Vector3::new(
                (-8.0f32).to_bits(),
                (-9.0f32).to_bits(),
                (-10.0f32).to_bits(),
            ),
        },
        Transform {
            translation: Vector3::new(1.0f32.to_bits(), 2.0f32.to_bits(), 3.0f32.to_bits()),
            rotation: Vector4::new(
                4.0f32.to_bits(),
                5.0f32.to_bits(),
                6.0f32.to_bits(),
                0.0f32.to_bits(),
            ),
            scale: Vector3::new(8.0f32.to_bits(), 9.0f32.to_bits(), 10.0f32.to_bits()),
        },
    ];
    let track = TrackValues::Transform(values.clone());
    let flags = CompressionFlags::from_track(&track);
    assert!(!flags.uniform_scale);
    let uncompressed: Vec<UncompressedTransform> =
        values.iter().map(|t| UncompressedTransform::from_transform(t, false)).collect();
    let (default, compression) = transform_default_and_compression(&uncompressed, false);
    let frames: Vec<QuantizedTransform> = uncompressed
        .iter()
        .map(|t| quantized_transform(t, &compression, flags))
        .collect();
    let out = write_compressed_transform(flags, compression, default, &frames);
    assert_eq!(
        out,
        hex(
            "04000c00 a000d900 cc000000 02000000
             000000C1 00000041 18000000 00000000
             000010C1 00001041 18000000 00000000
             000020C1 00002041 18000000 00000000
             000080C0 00008040 18000000 00000000
             0000A0C0 0000A040 18000000 00000000
             0000C0C0 0000C040 18000000 00000000
             000080BF 0000803F 18000000 00000000
             000000C0 00000040 18000000 00000000
             000040C0 00004040 18000000 00000000
             000000C1 000010C1 000020C1
             000080C0 0000A0C0 0000C0C0 00000000
             000080BF 000000C0 000040C0
             00000000
             000000 000000 000000 000000 000000 000000 000000 000000 000000
             FEFFFF FFFFFF FFFFFF FFFFFF FFFFFF FFFFFF FFFFFF FFFFFF FFFFFF 01"
        )
    );
    let (decoded, compensate_scale) =
        read(&out, TrackTypeV2::Transform, CompressionType::Compressed, 2);
    assert_eq!(false, compensate_scale);
    match decoded {
        TrackData::Compressed(CompressedTrack::Transform { frames: decoded_frames, .. }) => {
            assert_eq!(decoded_frames, frames);
        }
        _ => panic!(),
    }
}

#[test]
fn write_compressed_transform_multiple_frames_uniform_scale() {
    let values = vec![
        Transform {
            translation: Vector3::new(
                (-1.0f32).to_bits(),
                (-2.0f32).to_bits(),
                (-3.0f32).to_bits(),
            ),
            rotation: Vector4::new(
                (-4.0f32).to_bits(),
                (-5.0f32).to_bits(),
                (-6.0f32).to_bits(),
                0.0f32.to_bits(),
            ),
            scale: Vector3::new(
                (-8.0f32).to_bits(),
                (-8.0f32).to_bits(),
                (-8.0f32).to_bits(),
            ),
        },
        Transform {
            translation: Vector3::new(1.0f32.to_bits(), 2.0f32.to_bits(), 3.0f32.to_bits()),
            rotation: Vector4::new(
                4.0f32.to_bits(),
                5.0f32.to_bits(),
                6.0f32.to_bits(),
                0.0f32.to_bits(),
            ),
            scale: Vector3::new(9.0f32.to_bits(), 9.0f32.to_bits(), 9.0f32.to_bits()),
        },
    ];
    let track = TrackValues::Transform(values.clone());
    let flags = CompressionFlags::from_track(&track);
    assert!(flags.uniform_scale);
    let uncompressed: Vec<UncompressedTransform> =
        values.iter().map(|t| UncompressedTransform::from_transform(t, false)).collect();
    let (default, compression) = transform_default_and_compression(&uncompressed, false);
    let frames: Vec<QuantizedTransform> = uncompressed
        .iter()
        .map(|t| quantized_transform(t, &compression, flags))
        .collect();
    let out = write_compressed_transform(flags, compression, default, &frames);
    assert_eq!(
        out,
        hex(
            "04000e00 a000a900 cc000000 02000000
             000000C1 00001041 18000000 00000000
             000000C1 00001041 18000000 00000000
             000000C1 00001041 18000000 00000000
             000080C0 00008040 18000000 00000000
             0000A0C0 0000A040 18000000 00000000
             0000C0C0 0000C040 18000000 00000000
             000080BF 0000803F 18000000 00000000
             000000C0 00000040 18000000 00000000
             000040C0 00004040 18000000 00000000
             000000C1 000000C1 000000C1
             000080C0 0000A0C0 0000C0C0 00000000
             000080BF 000000C0 000040C0
             00000000
             000000 000000 000000 000000 000000 000000 000000
             FEFFFF FFFFFF FFFFFF FFFFFF FFFFFF FFFFFF FFFFFF 01"
        )
    );
}

#[test]
fn read_compressed_transform_multiple_frames_const_uniform_scale_null_default() {
    // ArmL, Transform, with the default pointer set to zero.
    let data = hex(
        "04000600 00002b00 cc000000 02000000
         0000803f 0000803f 10000000 00000000
         0000803f 0000803f 10000000 00000000
         0000803f 0000803f 10000000 00000000
         00000000 b9bc433d 0d000000 00000000
         e27186bd 00000000 0d000000 00000000
         00000000 ada2273f 10000000 00000000
         16a41d40 16a41d40 10000000 00000000
         00000000 00000000 10000000 00000000
         00000000 00000000 10000000 00000000
         0000803f 0000803f 0000803f
         00000000 00000000 00000000 0000803f
         16a41d40 00000000 00000000
         00000000
         00e0ff03 00f8ff00 e0ff1f",
    );
    let result = read_track_values(
        &data,
        TrackFlags {
            track_type: TrackTypeV2::Transform,
            compression_type: CompressionType::Compressed,
        },
        2,
    );
    assert!(matches!(result, Err(Error::MalformedCompressionHeader)));
}

#[test]
fn read_compressed_transform_multiple_frames_const_uniform_scale() {
    // ArmL, Transform
    let data = hex(
        "04000600 a0002b00 cc000000 02000000
         0000803f 0000803f 10000000 00000000
         0000803f 0000803f 10000000 00000000
         0000803f 0000803f 10000000 00000000
         00000000 b9bc433d 0d000000 00000000
         e27186bd 00000000 0d000000 00000000
         00000000 ada2273f 10000000 00000000
         16a41d40 16a41d40 10000000 00000000
         00000000 00000000 10000000 00000000
         00000000 00000000 10000000 00000000
         0000803f 0000803f 0000803f
         00000000 00000000 00000000 0000803f
         16a41d40 00000000 00000000
         00000000
         00e0ff03 00f8ff00 e0ff1f",
    );
    let (values, compensate_scale) =
        read(&data, TrackTypeV2::Transform, CompressionType::Compressed, 2);
    assert_eq!(false, compensate_scale);
    match values {
        TrackData::Compressed(CompressedTrack::Transform { compression, default, frames, .. }) => {
            assert_eq!(2, frames.len());
            // Scale and translation ranges are degenerate, so every frame
            // takes the default: uniform scale one, translation (2.46314, 0, 0).
            assert_eq!(default.scale, Vector3::new(0x3f800000, 0x3f800000, 0x3f800000));
            assert_eq!(f32::from_bits(default.translation.x), 2.46314);
            // The first frame's rotation decodes to the identity quaternion.
            let dq = |q: Option<u32>, c: &ssbh_data::compression::F32Compression| {
                decompress_f32(
                    q.unwrap(),
                    f32::from_bits(c.min),
                    f32::from_bits(c.max),
                    c.bit_count,
                )
            };
            let x = dq(frames[0].rotation.x, &compression.rotation.x);
            let y = dq(frames[0].rotation.y, &compression.rotation.y);
            let z = dq(frames[0].rotation.z, &compression.rotation.z);
            assert_eq!(0.0, x);
            assert_eq!(0.0, y);
            assert_eq!(0.0, z);
            // The sign bit reconstructs w = +sqrt(1 - x^2 - y^2 - z^2) = 1.
            assert_eq!(Some(false), frames[0].flip_w);
            let w2 = 1.0 - (x * x + y * y + z * z);
            let w = if w2.is_sign_negative() { 0.0 } else { w2.sqrt() };
            assert_eq!(1.0, w);
        }
        _ => panic!(),
    }
}

#[test]
fn read_compressed_transform_multiple_frames_uniform_scale() {
    // K_wingL3, Transform
    let data = hex(
        "04000300 A0000900 CC000000 09000000
         0000003F 0000803F 09000000 00000000
         0000003F 0000803F 10000000 00000000
         0000003F 0000803F 10000000 00000000
         1D13533D 1D13533D 10000000 00000000
         03BA8ABD 03BA8ABD 10000000 00000000
         16139BBE 16139BBE 10000000 00000000
         CDCCEC3F CDCCEC3F 10000000 00000000
         00000000 00000000 10000000 00000000
         00000000 00000000 10000000 00000000
         0000803F 0000803F 0000803F
         1D13533D 03BA8ABD 16139BBE 1500733F
         CDCCEC3F 00000000 00000000
         00000000
         FFFFFF37 0F7A2600 003301",
    );
    let (values, compensate_scale) =
        read(&data, TrackTypeV2::Transform, CompressionType::Compressed, 9);
    assert_eq!(false, compensate_scale);
    match values {
        TrackData::Compressed(CompressedTrack::Transform {
            flags,
            compression,
            default,
            frames,
        }) => {
            assert!(flags.uniform_scale);
            assert!(!flags.has_rotation);
            assert_eq!(9, frames.len());
            let expected_scales = vec![
                1.0f32, 1.0, 1.0, 0.97553813, 0.907045, 0.8003914, 0.5, 0.5, 0.8003914,
            ];
            for (f, expected) in frames.iter().zip(expected_scales.iter()) {
                // One stored scale component serves all three axes.
                let s = decompress_f32(
                    f.scale.x.unwrap(),
                    f32::from_bits(compression.scale.x.min),
                    f32::from_bits(compression.scale.x.max),
                    compression.scale.x.bit_count,
                );
                assert_eq!(*expected, s);
                assert_eq!(None, f.scale.y);
                assert_eq!(None, f.scale.z);
                // Degenerate rotation and translation ranges fall back to
                // the defaults, and without rotation w comes from the
                // default as well.
                assert_eq!(None, f.rotation.x);
                assert_eq!(None, f.translation.x);
                assert_eq!(None, f.flip_w);
            }
            assert_eq!(0.0515319f32.to_bits(), default.rotation.x);
            assert_eq!((-0.0677376f32).to_bits(), default.rotation.y);
            assert_eq!((-0.30288f32).to_bits(), default.rotation.z);
            assert_eq!(0.94922f32.to_bits(), default.rotation.w);
            assert_eq!(1.85f32.to_bits(), default.translation.x);
        }
        _ => panic!(),
    }
}

fn resolve_comp(
    q: Option<u32>,
    c: &ssbh_data::compression::F32Compression,
    default_bits: u32,
) -> f32 {
    match q {
        Some(q) => decompress_f32(q, f32::from_bits(c.min), f32::from_bits(c.max), c.bit_count),
        None => f32::from_bits(default_bits),
    }
}

/// Rebuilds the float samples of a decoded compressed transform track, the
/// way a consumer of the library would.
fn resolve_transform_frames(
    flags: &CompressionFlags,
    c: &ssbh_data::compression::TransformCompression,
    default: &UncompressedTransform,
    frames: &[QuantizedTransform],
) -> Vec<[f32; 10]> {
    frames
        .iter()
        .map(|f| {
            let (sx, sy, sz) = if flags.uniform_scale {
                let s = resolve_comp(f.scale.x, &c.scale.x, default.scale.x);
                (s, s, s)
            } else {
                (
                    resolve_comp(f.scale.x, &c.scale.x, default.scale.x),
                    resolve_comp(f.scale.y, &c.scale.y, default.scale.y),
                    resolve_comp(f.scale.z, &c.scale.z, default.scale.z),
                )
            };
            let rx = resolve_comp(f.rotation.x, &c.rotation.x, default.rotation.x);
            let ry = resolve_comp(f.rotation.y, &c.rotation.y, default.rotation.y);
            let rz = resolve_comp(f.rotation.z, &c.rotation.z, default.rotation.z);
            let rw = match f.flip_w {
                Some(flip) => {
                    let w2 = 1.0 - (rx * rx + ry * ry + rz * rz);
                    let w = if w2.is_sign_negative() { 0.0 } else { w2.sqrt() };
                    if flip {
                        -w
                    } else {
                        w
                    }
                }
                None => f32::from_bits(default.rotation.w),
            };
            let tx = resolve_comp(f.translation.x, &c.translation.x, default.translation.x);
            let ty = resolve_comp(f.translation.y, &c.translation.y, default.translation.y);
            let tz = resolve_comp(f.translation.z, &c.translation.z, default.translation.z);
            [sx, sy, sz, rx, ry, rz, rw, tx, ty, tz]
        })
        .collect()
}

#[test]
fn read_compressed_transform_multiple_frames_const_scale() {
    // S_Waistbag1, Transform
    let data = hex(
        "04000C00 A0001C00 CC000000 08000000
         0000803F 0000803F 10000000 00000000
         24D3453F 24D3453F 10000000 00000000
         0000803F 0000803F 10000000 00000000
         EB8C53BF 809D4BBF 03000000 00000000
         0DDF82BE 1C9761BE 03000000 00000000
         6762D2BE 61A4C7BE 03000000 00000000
         B8C81D3F 03438E3F 07000000 00000000
         FBCB863F CEC28A3F 04000000 00000000
         A1BA713F 0F62AB3F 07000000 00000000
         0000803F 24D3453F 0000803F
         EB8C53BF 1C9761BE 6762D2BE D9B1A13E
         B8C81D3F 85B6883F A1BA713F
         00000000
         38000710 878213DB 80DBE378 ED67C7FF AF77DCBF 7BC7F9E4 777C0F7F",
    );
    let (values, compensate_scale) =
        read(&data, TrackTypeV2::Transform, CompressionType::Compressed, 8);
    assert_eq!(false, compensate_scale);
    match values {
        TrackData::Compressed(CompressedTrack::Transform {
            flags,
            compression,
            default,
            frames,
        }) => {
            let decoded = resolve_transform_frames(&flags, &compression, &default, &frames);
            let expected: Vec<[f32; 10]> = vec![
                [1.0, 0.772753, 1.0, -0.826369, -0.220303, -0.410907, 0.3158106, 0.616344,
                    1.0675527, 0.944254],
                [1.0, 0.772753, 1.0, -0.82194084, -0.22534657, -0.40790972, 0.32747796,
                    0.6943087, 1.0696173, 1.0033],
                [1.0, 0.772753, 1.0, -0.81308454, -0.24047728, -0.40191513, 0.3457288,
                    0.86583114, 1.0758113, 1.1338228],
                [1.0, 0.772753, 1.0, -0.79980016, -0.25056443, -0.39292327, 0.37834975,
                    1.0334553, 1.0820053, 1.2643455],
                [1.0, 0.772753, 1.0, -0.795372, -0.255608, -0.389926, 0.38730562, 1.11142,
                    1.08407, 1.3233916],
                [1.0, 0.772753, 1.0, -0.795372, -0.255608, -0.389926, 0.38730562, 1.1075218,
                    1.0758113, 1.3264992],
                [1.0, 0.772753, 1.0, -0.795372, -0.255608, -0.389926, 0.38730562, 1.0997254,
                    1.0613587, 1.3358223],
                [1.0, 0.772753, 1.0, -0.795372, -0.255608, -0.389926, 0.38730562, 1.0958271,
                    1.0531, 1.33893],
            ];
            assert_eq!(expected, decoded);
        }
        _ => panic!(),
    }
}

#[test]
fn read_compressed_transform_multiple_frames_scale() {
    // Shaft, Transform
    let data = hex(
        "04000D00 A0007100 CC000000 08000000
         CDCCCC3D 5EA2D63F 12000000 00000000
         CDCCCC3D BE9F8A3F 11000000 00000000
         CDCCCC3D 06D8A73F 11000000 00000000
         20B2F0BE 7BA3EEBE 09000000 00000000
         D52008BF 503807BF 09000000 00000000
         20B2F0BE 7BA3EEBE 09000000 00000000
         2AA73DBD 7120B43F 12000000 00000000
         E73A79C0 C02665C0 0F000000 00000000
         00000000 00000000 00000000 00000000
         CDCCCC3D CDCCCC3D CDCCCC3D
         20B2F0BE 503807BF 20B2F0BE 5038073F
         7DD0933F C02665C0 00000000
         00000000
         00000000 000000E0 3F0014A7 FFFF0000 1017A0F7 C0486E23 E54B33BA 71DA86B8 C05548A6
         B2990000 F01CF9FF 1FE2C230 A8790BE7 B94FC168 B10A3787 4B71984B 672D25BB 16DE8569
         B0FFFFFF FF3793D9 FCFFBF0E 4CA8643E 355FC567 3791BDD2 74140C3B 2489A9B3 F1FD0FE0
         FF6CCF00 00",
    );
    let (values, compensate_scale) =
        read(&data, TrackTypeV2::Transform, CompressionType::Compressed, 8);
    assert_eq!(false, compensate_scale);
    match values {
        TrackData::Compressed(CompressedTrack::Transform {
            flags,
            compression,
            default,
            frames,
        }) => {
            let decoded = resolve_transform_frames(&flags, &compression, &default, &frames);
            let expected: Vec<[f32; 10]> = vec![
                [0.1, 0.1, 0.1, -0.470109, -0.528203, -0.470109, 0.52820134, 1.1547999,
                    -3.58049, 0.0],
                [0.1, 0.10553482, 0.13661444, -0.46955857, -0.528689, -0.46955857, 0.52869403,
                    1.1515895, -3.6232598, 0.0],
                [0.77540535, 0.12213927, 0.25775075, -0.46890596, -0.52927226, -0.46890596,
                    0.5292686, -0.046302, -3.806919, 0.0],
                [1.67683, 0.14427854, 0.48032996, -0.46819827, -0.52989715, -0.46819827,
                    0.529896, 0.07283452, -3.8389556, 0.0],
                [1.456122, 0.68003076, 0.82129157, -0.46750635, -0.53050816, -0.46750635,
                    0.53050613, 0.98621446, -3.779172, 0.0],
                [0.69639033, 1.083, 1.31128, -0.4668773, -0.53105664, -0.4668773, 0.5310649,
                    1.40724, -3.7760124, 0.0],
                [0.7199998, 0.69372535, 1.2419325, -0.4663898, -0.5314871, -0.4663898,
                    0.53149086, 1.2803185, -3.835011, 0.0],
                [0.9999991, 1.0000002, 1.0000018, -0.466091, -0.531751, -0.466091, 0.5317511,
                    1.1314394, -3.89422, 0.0],
            ];
            assert_eq!(expected, decoded);
        }
        _ => panic!(),
    }
}

#[test]
fn read_scale_data_flags() {
    // One frame of scale-only data: the uniform flag alone decides whether
    // one or three scale components are stored; the constant-scale flag has
    // no effect on the layout.
    let descriptor_and_default = "00000000 0000803F 08000000 00000000
         00000000 0000803F 08000000 00000000
         00000000 0000803F 08000000 00000000
         00000000 00000000 00000000 00000000
         00000000 00000000 00000000 00000000
         00000000 00000000 00000000 00000000
         00000000 00000000 00000000 00000000
         00000000 00000000 00000000 00000000
         00000000 00000000 00000000 00000000
         00008040 00008040 00008040
         00000040 00000040 00000040 00000040
         00004040 00004040 00004040
         00000000";
    for (flags_word, bpe, stream, uniform) in [
        ("0100", "1800", "FFFFFF", false),
        ("0300", "0800", "FF", true),
        ("0200", "0800", "FF", true),
        ("0000", "1800", "FFFFFF", false),
    ] {
        let data = hex(&format!(
            "0400{}A000{}CC000000 01000000 {} {}",
            flags_word, bpe, descriptor_and_default, stream
        ));
        let (values, _) = read(&data, TrackTypeV2::Transform, CompressionType::Compressed, 1);
        match values {
            TrackData::Compressed(CompressedTrack::Transform { frames, .. }) => {
                assert_eq!(1, frames.len());
                assert_eq!(Some(255), frames[0].scale.x);
                if uniform {
                    assert_eq!(None, frames[0].scale.y);
                    assert_eq!(None, frames[0].scale.z);
                } else {
                    assert_eq!(Some(255), frames[0].scale.y);
                    assert_eq!(Some(255), frames[0].scale.z);
                }
            }
            _ => panic!(),
        }
    }
}

#[test]
fn read_constant_transform_single_frame() {
    // FingerL11, Transform
    let data = hex(
        "0000803f 0000803f 0000803f
         00000000 00000000 00000000
         0000803f bea4c13f 79906ebe f641bebe
         01000000",
    );
    let (values, compensate_scale) =
        read(&data, TrackTypeV2::Transform, CompressionType::ConstTransform, 1);
    assert_eq!(true, compensate_scale);
    match values {
        TrackData::Uncompressed(TrackValues::Transform(values)) => {
            assert_eq!(
                values,
                vec![Transform {
                    scale: Vector3::new(
                        1.0f32.to_bits(),
                        1.0f32.to_bits(),
                        1.0f32.to_bits()
                    ),
                    rotation: Vector4::new(0, 0, 0, 1.0f32.to_bits()),
                    translation: Vector3::new(
                        1.51284f32.to_bits(),
                        (-0.232973f32).to_bits(),
                        (-0.371597f32).to_bits()
                    ),
                }]
            );
        }
        _ => panic!(),
    }
}

#[test]
fn write_constant_transform_single_frame() {
    let values = TrackValues::Transform(vec![Transform {
        scale: Vector3::new(1.0f32.to_bits(), 1.0f32.to_bits(), 1.0f32.to_bits()),
        rotation: Vector4::new(0, 0, 0, 1.0f32.to_bits()),
        translation: Vector3::new(
            1.51284f32.to_bits(),
            (-0.232973f32).to_bits(),
            (-0.371597f32).to_bits(),
        ),
    }]);
    assert_eq!(
        values.write_uncompressed(true),
        hex(
            "0000803f 0000803f 0000803f
             00000000 00000000 00000000
             0000803f bea4c13f 79906ebe f641bebe
             01000000"
        )
    );
}

#[test]
fn read_direct_transform_multiple_frames() {
    // gya_camera, Transform, shortened from 8 to 2 frames.
    let data = hex(
        "0000803f 0000803f 0000803f
         1dca203e 437216bf a002cbbd 5699493f
         9790e5c1 1f68a040 f7affa40 00000000
         0000803f 0000803f 0000803f
         c7d8093e 336b19bf 5513e4bd e3fe473f
         6da703c2 dfc3a840 b8120b41 00000000",
    );
    let (values, compensate_scale) =
        read(&data, TrackTypeV2::Transform, CompressionType::Direct, 2);
    assert_eq!(false, compensate_scale);
    match values {
        TrackData::Uncompressed(TrackValues::Transform(values)) => {
            assert_eq!(2, values.len());
            assert_eq!(
                values[0].translation,
                Vector3::new(
                    (-28.6956f32).to_bits(),
                    5.01271f32.to_bits(),
                    7.83398f32.to_bits()
                )
            );
            assert_eq!(
                values[0].rotation,
                Vector4::new(
                    0.157021f32.to_bits(),
                    (-0.587681f32).to_bits(),
                    (-0.0991261f32).to_bits(),
                    0.787496f32.to_bits()
                )
            );
            assert_eq!(
                values[1].translation,
                Vector3::new(
                    (-32.9135f32).to_bits(),
                    5.27391f32.to_bits(),
                    8.69207f32.to_bits()
                )
            );
        }
        _ => panic!(),
    }
}

#[test]
fn quantization_error_within_grid_step() {
    // Encoding with the full observed range and 24 bits keeps each decoded
    // sample within (max - min) * 2^-24 of its input.
    let inputs = vec![0.31f32, -1.75, 0.5, 2.0, 1.999, -1.0];
    let min = -1.75f32;
    let max = 2.0f32;
    for v in inputs {
        let q = compress_f32(v, min, max, 24);
        let back = decompress_f32(q, min, max, 24);
        assert!((back - v).abs() <= (max - min) / ((1u32 << 24) - 1) as f32 * 2.0);
    }
}

#[test]
fn empty_track_round_trips() {
    // An empty sample list gives a zero frame count and an empty bitstream,
    // and decodes back to no frames.
    let (default, compression) = float_default_and_compression(&vec![]);
    let out = write_compressed_float(compression, default, &vec![]);
    assert_eq!(36, out.len());
    assert_eq!(0, out[12]);
    let (decoded, _) = read(&out, TrackTypeV2::Float, CompressionType::Compressed, 0);
    match decoded {
        TrackData::Compressed(CompressedTrack::Float { frames, .. }) => {
            assert!(frames.is_empty());
        }
        _ => panic!(),
    }
}

#[test]
fn unexpected_bit_count_is_reported() {
    // A header whose bits-per-entry disagrees with the descriptor sum.
    let data = hex(
        "04000000 20000500 24000000 02000000
         00000000 00004040 02000000 00000000
         00000000
         e403",
    );
    let result = read_track_values(
        &data,
        TrackFlags {
            track_type: TrackTypeV2::Float,
            compression_type: CompressionType::Compressed,
        },
        2,
    );
    assert!(matches!(result, Err(Error::UnexpectedBitCount { expected: 2, actual: 5 })));
}

#[test]
fn truncated_blob_is_reported() {
    let data = hex("04000000 20000200");
    let result = read_track_values(
        &data,
        TrackFlags {
            track_type: TrackTypeV2::Float,
            compression_type: CompressionType::Compressed,
        },
        2,
    );
    assert!(matches!(result, Err(Error::Truncated)));
}
