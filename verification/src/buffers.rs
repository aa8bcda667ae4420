//! Reading and writing animation track buffers.
//!
//! A track is a self-contained byte blob.  Uncompressed tracks are plain
//! contiguous records.  Compressed tracks carry a 16-byte header, a
//! per-component descriptor block, one default sample, and a bitstream of
//! quantized values; this module parses and emits that layout exactly, and
//! hands quantized integers to the caller, who owns the numeric
//! dequantisation.

use vstd::prelude::*;
use vstd::slice::slice_subrange;

use crate::bitio::{bits_val, stream_bit, BitReader, BitWriter};
use crate::compression::{
    eff_bits, flags_bits, lemma_flags_round_trip, spec_flags_from_bits, spec_parse_f32c, spec_parse_u32c, transform_bits,
    uv_bits, v3_bits, v3c_wf, parse_f32c, parse_u32c, push_f32c, push_u32c, tc_wf, Boolean,
    CompressionFlags, F32Compression, Transform, TransformCompression, U32Compression,
    UncompressedTransform, UvTransform, UvTransformCompression, Vector3Compression,
    Vector4Compression, MAX_BIT_COUNT,
};
use crate::lebytes::{le16, le32, le64, push_u16, push_u32, push_u64, push_u8, read_u16_at, read_u32_at};
use crate::vectors::{Vector3, Vector4};

verus! {

/// The semantic kind of a track's samples.
#[derive(PartialEq, Eq, Structural, Clone, Copy, Debug)]
pub enum TrackTypeV2 {
    Transform,
    UvTransform,
    Float,
    PatternIndex,
    Boolean,
    Vector4,
}

/// How a track's samples are framed on disk.  The first three share the
/// plain record framing; `Compressed` uses the headered bitstream.
#[derive(PartialEq, Eq, Structural, Clone, Copy, Debug)]
pub enum CompressionType {
    Direct,
    Constant,
    ConstTransform,
    Compressed,
}

/// The kind and framing of one track.
#[derive(PartialEq, Eq, Structural, Clone, Copy, Debug)]
pub struct TrackFlags {
    pub track_type: TrackTypeV2,
    pub compression_type: CompressionType,
}

/// Decode and encode failures of the track codec.
#[derive(PartialEq, Eq, Structural, Clone, Copy, Debug)]
pub enum Error {
    /// A zero default or data pointer, a pointer outside the track blob, or
    /// a descriptor bit count beyond the supported width.
    MalformedCompressionHeader,
    /// The header's bits-per-entry disagrees with the sum implied by the
    /// descriptor and flags.
    UnexpectedBitCount { expected: usize, actual: usize },
    /// An error reported by a caller-supplied stream.
    Io,
    /// The blob ends before the requested records or frames.
    Truncated,
}

/// A track's decoded samples, one vector per kind; scalar floats and all
/// vector components are IEEE 754 bit patterns.
pub enum TrackValues {
    Transform(Vec<Transform>),
    UvTransform(Vec<UvTransform>),
    Float(Vec<u32>),
    PatternIndex(Vec<u32>),
    Boolean(Vec<bool>),
    Vector4(Vec<Vector4>),
}

/// The mathematical view of [`TrackValues`].
pub enum TrackValuesView {
    Transform(Seq<Transform>),
    UvTransform(Seq<UvTransform>),
    Float(Seq<u32>),
    PatternIndex(Seq<u32>),
    Boolean(Seq<bool>),
    Vector4(Seq<Vector4>),
}

impl View for TrackValues {
    type V = TrackValuesView;

    open spec fn view(&self) -> TrackValuesView {
        match self {
            TrackValues::Transform(v) => TrackValuesView::Transform(v@),
            TrackValues::UvTransform(v) => TrackValuesView::UvTransform(v@),
            TrackValues::Float(v) => TrackValuesView::Float(v@),
            TrackValues::PatternIndex(v) => TrackValuesView::PatternIndex(v@),
            TrackValues::Boolean(v) => TrackValuesView::Boolean(v@),
            TrackValues::Vector4(v) => TrackValuesView::Vector4(v@),
        }
    }
}

impl TrackValues {
    /// The kind of these samples.
    pub fn track_type(&self) -> (r: TrackTypeV2)
        ensures
            r == spec_track_type(self@),
    {
        match self {
            TrackValues::Transform(_) => TrackTypeV2::Transform,
            TrackValues::UvTransform(_) => TrackTypeV2::UvTransform,
            TrackValues::Float(_) => TrackTypeV2::Float,
            TrackValues::PatternIndex(_) => TrackTypeV2::PatternIndex,
            TrackValues::Boolean(_) => TrackTypeV2::Boolean,
            TrackValues::Vector4(_) => TrackTypeV2::Vector4,
        }
    }

    /// How many samples the track holds.
    pub fn len(&self) -> (r: usize)
        ensures
            r == spec_track_len(self@),
    {
        match self {
            TrackValues::Transform(v) => v.len(),
            TrackValues::UvTransform(v) => v.len(),
            TrackValues::Float(v) => v.len(),
            TrackValues::PatternIndex(v) => v.len(),
            TrackValues::Boolean(v) => v.len(),
            TrackValues::Vector4(v) => v.len(),
        }
    }
}

/// The kind of a view's samples.
pub open spec fn spec_track_type(v: TrackValuesView) -> TrackTypeV2 {
    match v {
        TrackValuesView::Transform(_) => TrackTypeV2::Transform,
        TrackValuesView::UvTransform(_) => TrackTypeV2::UvTransform,
        TrackValuesView::Float(_) => TrackTypeV2::Float,
        TrackValuesView::PatternIndex(_) => TrackTypeV2::PatternIndex,
        TrackValuesView::Boolean(_) => TrackTypeV2::Boolean,
        TrackValuesView::Vector4(_) => TrackTypeV2::Vector4,
    }
}

/// How many samples a view holds.
pub open spec fn spec_track_len(v: TrackValuesView) -> nat {
    match v {
        TrackValuesView::Transform(s) => s.len(),
        TrackValuesView::UvTransform(s) => s.len(),
        TrackValuesView::Float(s) => s.len(),
        TrackValuesView::PatternIndex(s) => s.len(),
        TrackValuesView::Boolean(s) => s.len(),
        TrackValuesView::Vector4(s) => s.len(),
    }
}

/// The byte size of one uncompressed record of a kind.
pub open spec fn record_size(kind: TrackTypeV2) -> int {
    match kind {
        TrackTypeV2::Transform => 44,
        TrackTypeV2::UvTransform => 20,
        TrackTypeV2::Float => 4,
        TrackTypeV2::PatternIndex => 4,
        TrackTypeV2::Boolean => 1,
        TrackTypeV2::Vector4 => 16,
    }
}

/// The three-float record at `off`.
pub open spec fn spec_parse_v3(s: Seq<u8>, off: int) -> Vector3 {
    Vector3 { x: le32(s, off) as u32, y: le32(s, off + 4) as u32, z: le32(s, off + 8) as u32 }
}

/// The four-float record at `off`.
pub open spec fn spec_parse_v4(s: Seq<u8>, off: int) -> Vector4 {
    Vector4 {
        x: le32(s, off) as u32,
        y: le32(s, off + 4) as u32,
        z: le32(s, off + 8) as u32,
        w: le32(s, off + 12) as u32,
    }
}

/// The five-float texture-transform record at `off`.
pub open spec fn spec_parse_uvt(s: Seq<u8>, off: int) -> UvTransform {
    UvTransform {
        scale_u: le32(s, off) as u32,
        scale_v: le32(s, off + 4) as u32,
        rotation: le32(s, off + 8) as u32,
        translate_u: le32(s, off + 12) as u32,
        translate_v: le32(s, off + 16) as u32,
    }
}

/// The 44-byte transform record at `off`: scale, rotation (xyzw),
/// translation, then the scale-compensation word.
pub open spec fn spec_parse_ut(s: Seq<u8>, off: int) -> UncompressedTransform {
    UncompressedTransform {
        scale: spec_parse_v3(s, off),
        rotation: spec_parse_v4(s, off + 12),
        translation: spec_parse_v3(s, off + 28),
        compensate_scale: le32(s, off + 40) as u32,
    }
}

/// Reads the three-float record at `off`.
pub fn parse_v3(data: &[u8], off: usize) -> (r: Vector3)
    requires
        off + 12 <= data@.len(),
    ensures
        r == spec_parse_v3(data@, off as int),
{
    let n: usize = data.len();
    proof {
        assert(off + 12 <= n);
    }
    Vector3 {
        x: read_u32_at(data, off),
        y: read_u32_at(data, off + 4),
        z: read_u32_at(data, off + 8),
    }
}

/// Reads the four-float record at `off`.
pub fn parse_v4(data: &[u8], off: usize) -> (r: Vector4)
    requires
        off + 16 <= data@.len(),
    ensures
        r == spec_parse_v4(data@, off as int),
{
    let n: usize = data.len();
    proof {
        assert(off + 16 <= n);
    }
    Vector4 {
        x: read_u32_at(data, off),
        y: read_u32_at(data, off + 4),
        z: read_u32_at(data, off + 8),
        w: read_u32_at(data, off + 12),
    }
}

/// Reads the texture-transform record at `off`.
pub fn parse_uvt(data: &[u8], off: usize) -> (r: UvTransform)
    requires
        off + 20 <= data@.len(),
    ensures
        r == spec_parse_uvt(data@, off as int),
{
    let n: usize = data.len();
    proof {
        assert(off + 20 <= n);
    }
    UvTransform {
        scale_u: read_u32_at(data, off),
        scale_v: read_u32_at(data, off + 4),
        rotation: read_u32_at(data, off + 8),
        translate_u: read_u32_at(data, off + 12),
        translate_v: read_u32_at(data, off + 16),
    }
}

/// Reads the transform record at `off`.
pub fn parse_ut(data: &[u8], off: usize) -> (r: UncompressedTransform)
    requires
        off + 44 <= data@.len(),
    ensures
        r == spec_parse_ut(data@, off as int),
{
    let n: usize = data.len();
    proof {
        assert(off + 44 <= n);
    }
    UncompressedTransform {
        scale: parse_v3(data, off),
        rotation: parse_v4(data, off + 12),
        translation: parse_v3(data, off + 28),
        compensate_scale: read_u32_at(data, off + 40),
    }
}

/// Appends the three-float record for `v`.
pub fn push_v3(out: &mut Vec<u8>, v: Vector3)
    ensures
        final(out)@.len() == old(out)@.len() + 12,
        final(out)@.subrange(0, old(out)@.len() as int) == old(out)@,
        spec_parse_v3(final(out)@, old(out)@.len() as int) == v,
{
    push_u32(out, v.x);
    push_u32(out, v.y);
    push_u32(out, v.z);
    proof {
        assert(final(out)@.subrange(0, old(out)@.len() as int) =~= old(out)@);
    }
}

/// Appends the four-float record for `v`.
pub fn push_v4(out: &mut Vec<u8>, v: Vector4)
    ensures
        final(out)@.len() == old(out)@.len() + 16,
        final(out)@.subrange(0, old(out)@.len() as int) == old(out)@,
        spec_parse_v4(final(out)@, old(out)@.len() as int) == v,
{
    push_u32(out, v.x);
    push_u32(out, v.y);
    push_u32(out, v.z);
    push_u32(out, v.w);
    proof {
        assert(final(out)@.subrange(0, old(out)@.len() as int) =~= old(out)@);
    }
}

/// Appends the texture-transform record for `v`.
pub fn push_uvt(out: &mut Vec<u8>, v: UvTransform)
    ensures
        final(out)@.len() == old(out)@.len() + 20,
        final(out)@.subrange(0, old(out)@.len() as int) == old(out)@,
        spec_parse_uvt(final(out)@, old(out)@.len() as int) == v,
{
    push_u32(out, v.scale_u);
    push_u32(out, v.scale_v);
    push_u32(out, v.rotation);
    push_u32(out, v.translate_u);
    push_u32(out, v.translate_v);
    proof {
        assert(final(out)@.subrange(0, old(out)@.len() as int) =~= old(out)@);
    }
}

/// Appends the transform record for `v`.
pub fn push_ut(out: &mut Vec<u8>, v: UncompressedTransform)
    ensures
        final(out)@.len() == old(out)@.len() + 44,
        final(out)@.subrange(0, old(out)@.len() as int) == old(out)@,
        spec_parse_ut(final(out)@, old(out)@.len() as int) == v,
{
    push_v3(out, v.scale);
    push_v4(out, v.rotation);
    push_v3(out, v.translation);
    push_u32(out, v.compensate_scale);
    proof {
        assert(final(out)@.subrange(0, old(out)@.len() as int) =~= old(out)@);
    }
}

/// The samples of an uncompressed track of `kind`: `count` contiguous
/// records read from the front of the blob.
pub open spec fn spec_uncompressed_values(s: Seq<u8>, kind: TrackTypeV2, count: int) -> TrackValuesView {
    match kind {
        TrackTypeV2::Transform => TrackValuesView::Transform(
            Seq::new(count as nat, |i: int| spec_transform_of(spec_parse_ut(s, 44 * i))),
        ),
        TrackTypeV2::UvTransform => TrackValuesView::UvTransform(
            Seq::new(count as nat, |i: int| spec_parse_uvt(s, 20 * i)),
        ),
        TrackTypeV2::Float => TrackValuesView::Float(
            Seq::new(count as nat, |i: int| le32(s, 4 * i) as u32),
        ),
        TrackTypeV2::PatternIndex => TrackValuesView::PatternIndex(
            Seq::new(count as nat, |i: int| le32(s, 4 * i) as u32),
        ),
        TrackTypeV2::Boolean => TrackValuesView::Boolean(
            Seq::new(count as nat, |i: int| s[i] != 0u8),
        ),
        TrackTypeV2::Vector4 => TrackValuesView::Vector4(
            Seq::new(count as nat, |i: int| spec_parse_v4(s, 16 * i)),
        ),
    }
}

/// A transform sample without its compensation flag.
pub open spec fn spec_transform_of(t: UncompressedTransform) -> Transform {
    Transform { scale: t.scale, rotation: t.rotation, translation: t.translation }
}

/// The scale-compensation flag of an uncompressed track: the first
/// transform record's word, or false for other kinds or no records.
pub open spec fn spec_uncompressed_compensate(s: Seq<u8>, kind: TrackTypeV2, count: int) -> bool {
    kind == TrackTypeV2::Transform && count > 0 && spec_parse_ut(s, 0).compensate_scale != 0
}

/// What reading an uncompressed track of `kind` yields: its records, or
/// `Truncated` when the blob is too short for `count` of them.
pub open spec fn spec_read_uncompressed(s: Seq<u8>, kind: TrackTypeV2, count: int) -> Result<
    (TrackValuesView, bool),
    Error,
> {
    if count * record_size(kind) > s.len() {
        Err(Error::Truncated)
    } else {
        Ok((spec_uncompressed_values(s, kind, count), spec_uncompressed_compensate(s, kind, count)))
    }
}

/// Reads `count` records of an uncompressed track.
pub fn read_uncompressed(track_data: &[u8], kind: TrackTypeV2, count: usize) -> (r: Result<
    (TrackValues, bool),
    Error,
>)
    ensures
        match r {
            Ok((values, comp)) => spec_read_uncompressed(track_data@, kind, count as int) == Ok::<
                _,
                Error,
            >((values@, comp)) && spec_track_len(values@) == count,
            Err(e) => spec_read_uncompressed(track_data@, kind, count as int) == Err::<
                (TrackValuesView, bool),
                _,
            >(e),
        },
{
    let n: usize = track_data.len();
    let rsize: usize = match kind {
        TrackTypeV2::Transform => 44,
        TrackTypeV2::UvTransform => 20,
        TrackTypeV2::Float => 4,
        TrackTypeV2::PatternIndex => 4,
        TrackTypeV2::Boolean => 1,
        TrackTypeV2::Vector4 => 16,
    };
    if count as u128 * rsize as u128 > n as u128 {
        return Err(Error::Truncated);
    }
    proof {
        assert(count * record_size(kind) <= n);
    }
    let comp: bool = if count > 0 && matches!(kind, TrackTypeV2::Transform) {
        proof {
            assert(1 * 44 <= count * 44) by (nonlinear_arith)
                requires
                    1 <= count,
            ;
        }
        parse_ut(track_data, 0).compensate_scale != 0
    } else {
        false
    };
    match kind {
        TrackTypeV2::Transform => {
            let mut values: Vec<Transform> = Vec::new();
            for i in 0..count
                invariant
                    values@.len() == i,
                    count * 44 <= track_data@.len(),
                    track_data@.len() <= usize::MAX,
                    forall|j: int|
                        0 <= j < i ==> values@[j] == spec_transform_of(
                            spec_parse_ut(track_data@, 44 * j),
                        ),
            {
                proof {
                    assert(i * 44 + 44 <= count * 44) by (nonlinear_arith)
                        requires
                            i < count,
                    ;
                }
                let ut = parse_ut(track_data, 44 * i);
                values.push(Transform::from(&ut));
            }
            proof {
                assert(values@ =~= Seq::new(
                    count as nat,
                    |i: int| spec_transform_of(spec_parse_ut(track_data@, 44 * i)),
                ));
            }
            Ok((TrackValues::Transform(values), comp))
        },
        TrackTypeV2::UvTransform => {
            let mut values: Vec<UvTransform> = Vec::new();
            for i in 0..count
                invariant
                    values@.len() == i,
                    count * 20 <= track_data@.len(),
                    track_data@.len() <= usize::MAX,
                    forall|j: int|
                        0 <= j < i ==> values@[j] == spec_parse_uvt(track_data@, 20 * j),
            {
                proof {
                    assert(i * 20 + 20 <= count * 20) by (nonlinear_arith)
                        requires
                            i < count,
                    ;
                }
                values.push(parse_uvt(track_data, 20 * i));
            }
            proof {
                assert(values@ =~= Seq::new(
                    count as nat,
                    |i: int| spec_parse_uvt(track_data@, 20 * i),
                ));
            }
            Ok((TrackValues::UvTransform(values), comp))
        },
        TrackTypeV2::Float => {
            let mut values: Vec<u32> = Vec::new();
            for i in 0..count
                invariant
                    values@.len() == i,
                    count * 4 <= track_data@.len(),
                    track_data@.len() <= usize::MAX,
                    forall|j: int| 0 <= j < i ==> values@[j] == le32(track_data@, 4 * j) as u32,
            {
                proof {
                    assert(i * 4 + 4 <= count * 4) by (nonlinear_arith)
                        requires
                            i < count,
                    ;
                }
                values.push(read_u32_at(track_data, 4 * i));
            }
            proof {
                assert(values@ =~= Seq::new(count as nat, |i: int| le32(track_data@, 4 * i) as u32));
            }
            Ok((TrackValues::Float(values), comp))
        },
        TrackTypeV2::PatternIndex => {
            let mut values: Vec<u32> = Vec::new();
            for i in 0..count
                invariant
                    values@.len() == i,
                    count * 4 <= track_data@.len(),
                    track_data@.len() <= usize::MAX,
                    forall|j: int| 0 <= j < i ==> values@[j] == le32(track_data@, 4 * j) as u32,
            {
                proof {
                    assert(i * 4 + 4 <= count * 4) by (nonlinear_arith)
                        requires
                            i < count,
                    ;
                }
                values.push(read_u32_at(track_data, 4 * i));
            }
            proof {
                assert(values@ =~= Seq::new(count as nat, |i: int| le32(track_data@, 4 * i) as u32));
            }
            Ok((TrackValues::PatternIndex(values), comp))
        },
        TrackTypeV2::Boolean => {
            let mut values: Vec<bool> = Vec::new();
            for i in 0..count
                invariant
                    values@.len() == i,
                    count * 1 <= track_data@.len(),
                    forall|j: int| 0 <= j < i ==> values@[j] == (track_data@[j] != 0u8),
            {
                values.push(track_data[i] != 0u8);
            }
            proof {
                assert(values@ =~= Seq::new(count as nat, |i: int| track_data@[i] != 0u8));
            }
            Ok((TrackValues::Boolean(values), comp))
        },
        TrackTypeV2::Vector4 => {
            let mut values: Vec<Vector4> = Vec::new();
            for i in 0..count
                invariant
                    values@.len() == i,
                    count * 16 <= track_data@.len(),
                    track_data@.len() <= usize::MAX,
                    forall|j: int|
                        0 <= j < i ==> values@[j] == spec_parse_v4(track_data@, 16 * j),
            {
                proof {
                    assert(i * 16 + 16 <= count * 16) by (nonlinear_arith)
                        requires
                            i < count,
                    ;
                }
                values.push(parse_v4(track_data, 16 * i));
            }
            proof {
                assert(values@ =~= Seq::new(
                    count as nat,
                    |i: int| spec_parse_v4(track_data@, 16 * i),
                ));
            }
            Ok((TrackValues::Vector4(values), comp))
        },
    }
}

impl TrackValues {
    /// Serializes with the plain record framing that `Direct`, `Constant`
    /// and `ConstTransform` tracks share.  Reading the result back with the
    /// same sample count restores the samples exactly, and the compensation
    /// flag for transform tracks with at least one sample.
    pub fn write_uncompressed(&self, compensate_scale: bool) -> (r: Vec<u8>)
        ensures
            r@.len() == spec_track_len(self@) * record_size(spec_track_type(self@)),
            spec_read_uncompressed(
                r@,
                spec_track_type(self@),
                spec_track_len(self@) as int,
            ) == Ok::<_, Error>(
                (
                    self@,
                    spec_track_type(self@) == TrackTypeV2::Transform && spec_track_len(self@) > 0
                        && compensate_scale,
                ),
            ),
    {
        let mut out: Vec<u8> = Vec::new();
        match self {
            TrackValues::Transform(values) => {
                let comp_word: u32 = if compensate_scale {
                    1
                } else {
                    0
                };
                for i in 0..values.len()
                    invariant
                        out@.len() == i * 44,
                        comp_word == (if compensate_scale {
                            1u32
                        } else {
                            0u32
                        }),
                        forall|j: int|
                            0 <= j < i ==> spec_parse_ut(out@, 44 * j) == (UncompressedTransform {
                                scale: values@[j].scale,
                                rotation: values@[j].rotation,
                                translation: values@[j].translation,
                                compensate_scale: (if compensate_scale {
                                    1u32
                                } else {
                                    0u32
                                }),
                            }),
                {
                    let ghost out_before = out@;
                    let t = &values[i];
                    push_ut(
                        &mut out,
                        UncompressedTransform {
                            scale: t.scale,
                            rotation: t.rotation,
                            translation: t.translation,
                            compensate_scale: comp_word,
                        },
                    );
                    proof {
                        lemma_record_stable(out_before, out@, 44);
                        assert((i + 1) * 44 == i * 44 + 44) by (nonlinear_arith);
                    }
                }
                proof {
                    lemma_uncompressed_parse_back_transform(out@, values@, compensate_scale);
                }
            },
            TrackValues::UvTransform(values) => {
                for i in 0..values.len()
                    invariant
                        out@.len() == i * 20,
                        forall|j: int|
                            0 <= j < i ==> spec_parse_uvt(out@, 20 * j) == values@[j],
                {
                    let ghost out_before = out@;
                    push_uvt(&mut out, values[i]);
                    proof {
                        lemma_record_stable(out_before, out@, 20);
                        assert((i + 1) * 20 == i * 20 + 20) by (nonlinear_arith);
                    }
                }
                proof {
                    lemma_uncompressed_parse_back_uvt(out@, values@);
                }
            },
            TrackValues::Float(values) => {
                for i in 0..values.len()
                    invariant
                        out@.len() == i * 4,
                        forall|j: int| 0 <= j < i ==> le32(out@, 4 * j) == values@[j],
                {
                    let ghost out_before = out@;
                    push_u32(&mut out, values[i]);
                    proof {
                        lemma_record_stable(out_before, out@, 4);
                        assert((i + 1) * 4 == i * 4 + 4) by (nonlinear_arith);
                    }
                }
                proof {
                    lemma_uncompressed_parse_back_u32(out@, values@);
                }
            },
            TrackValues::PatternIndex(values) => {
                for i in 0..values.len()
                    invariant
                        out@.len() == i * 4,
                        forall|j: int| 0 <= j < i ==> le32(out@, 4 * j) == values@[j],
                {
                    let ghost out_before = out@;
                    push_u32(&mut out, values[i]);
                    proof {
                        lemma_record_stable(out_before, out@, 4);
                        assert((i + 1) * 4 == i * 4 + 4) by (nonlinear_arith);
                    }
                }
                proof {
                    lemma_uncompressed_parse_back_u32(out@, values@);
                }
            },
            TrackValues::Boolean(values) => {
                for i in 0..values.len()
                    invariant
                        out@.len() == i,
                        forall|j: int|
                            0 <= j < i ==> (out@[j] != 0u8) == values@[j] && (out@[j] == 0u8
                                || out@[j] == 1u8),
                {
                    out.push(if values[i] {
                        1u8
                    } else {
                        0u8
                    });
                }
                proof {
                    assert(spec_uncompressed_values(out@, TrackTypeV2::Boolean, values@.len() as int)
                        =~= TrackValuesView::Boolean(values@)) by {
                        assert(Seq::new(values@.len(), |i: int| out@[i] != 0u8) =~= values@);
                    }
                }
            },
            TrackValues::Vector4(values) => {
                for i in 0..values.len()
                    invariant
                        out@.len() == i * 16,
                        forall|j: int|
                            0 <= j < i ==> spec_parse_v4(out@, 16 * j) == values@[j],
                {
                    let ghost out_before = out@;
                    push_v4(&mut out, values[i]);
                    proof {
                        lemma_record_stable(out_before, out@, 16);
                        assert((i + 1) * 16 == i * 16 + 16) by (nonlinear_arith);
                    }
                }
                proof {
                    lemma_uncompressed_parse_back_v4(out@, values@);
                }
            },
        }
        out
    }
}

/// Appending bytes to a buffer leaves every complete earlier record (and
/// any little-endian field inside it) unchanged.
proof fn lemma_record_stable(before: Seq<u8>, after: Seq<u8>, added: int)
    requires
        added >= 0,
        after.len() == before.len() + added,
        after.subrange(0, before.len() as int) == before,
    ensures
        forall|k: int| 0 <= k < before.len() ==> after[k] == before[k],
{
    assert forall|k: int| 0 <= k < before.len() implies after[k] == before[k] by {
        assert(after.subrange(0, before.len() as int)[k] == after[k]);
    }
}

proof fn lemma_uncompressed_parse_back_transform(s: Seq<u8>, values: Seq<Transform>, comp: bool)
    requires
        s.len() == values.len() * 44,
        forall|j: int| #![trigger spec_parse_ut(s, 44 * j)]
            0 <= j < values.len() ==> spec_parse_ut(s, 44 * j) == (UncompressedTransform {
                scale: values[j].scale,
                rotation: values[j].rotation,
                translation: values[j].translation,
                compensate_scale: (if comp {
                    1u32
                } else {
                    0u32
                }),
            }),
    ensures
        spec_read_uncompressed(s, TrackTypeV2::Transform, values.len() as int) == Ok::<_, Error>(
            (TrackValuesView::Transform(values), values.len() > 0 && comp),
        ),
{
    assert(values.len() * 44 <= s.len());
    assert(spec_uncompressed_values(s, TrackTypeV2::Transform, values.len() as int)
        =~= TrackValuesView::Transform(values)) by {
        assert(Seq::new(values.len(), |i: int| spec_transform_of(spec_parse_ut(s, 44 * i)))
            =~= values);
    }
    if values.len() > 0 {
        assert(spec_parse_ut(s, 0int) == spec_parse_ut(s, 44 * 0int));
    }
}

proof fn lemma_uncompressed_parse_back_uvt(s: Seq<u8>, values: Seq<UvTransform>)
    requires
        s.len() == values.len() * 20,
        forall|j: int| 0 <= j < values.len() ==> spec_parse_uvt(s, 20 * j) == values[j],
    ensures
        spec_read_uncompressed(s, TrackTypeV2::UvTransform, values.len() as int) == Ok::<_, Error>(
            (TrackValuesView::UvTransform(values), false),
        ),
{
    assert(spec_uncompressed_values(s, TrackTypeV2::UvTransform, values.len() as int)
        =~= TrackValuesView::UvTransform(values)) by {
        assert(Seq::new(values.len(), |i: int| spec_parse_uvt(s, 20 * i)) =~= values);
    }
}

proof fn lemma_uncompressed_parse_back_u32(s: Seq<u8>, values: Seq<u32>)
    requires
        s.len() == values.len() * 4,
        forall|j: int| 0 <= j < values.len() ==> le32(s, 4 * j) == values[j],
    ensures
        spec_uncompressed_values(s, TrackTypeV2::Float, values.len() as int)
            == TrackValuesView::Float(values),
        spec_uncompressed_values(s, TrackTypeV2::PatternIndex, values.len() as int)
            == TrackValuesView::PatternIndex(values),
{
    assert(Seq::new(values.len(), |i: int| le32(s, 4 * i) as u32) =~= values);
}

proof fn lemma_uncompressed_parse_back_v4(s: Seq<u8>, values: Seq<Vector4>)
    requires
        s.len() == values.len() * 16,
        forall|j: int| 0 <= j < values.len() ==> spec_parse_v4(s, 16 * j) == values[j],
    ensures
        spec_uncompressed_values(s, TrackTypeV2::Vector4, values.len() as int)
            == TrackValuesView::Vector4(values),
{
    assert(Seq::new(values.len(), |i: int| spec_parse_v4(s, 16 * i)) =~= values);
}

/// The fixed 16-byte prelude of a compressed track.  The two pointers are
/// byte offsets into the track blob; `bits_per_entry` must equal the sum
/// implied by the descriptor and flags.
#[derive(PartialEq, Eq, Structural, Clone, Copy, Debug)]
pub struct CompressedHeader {
    pub unk_4: u16,
    pub flags: CompressionFlags,
    pub default_data_ptr: u16,
    pub bits_per_entry: u16,
    pub compressed_data_ptr: u32,
    pub frame_count: u32,
}

/// The header record at the front of a blob.
pub open spec fn spec_parse_header(s: Seq<u8>) -> CompressedHeader {
    CompressedHeader {
        unk_4: le16(s, 0) as u16,
        flags: spec_flags_from_bits(le16(s, 2) as u16),
        default_data_ptr: le16(s, 4) as u16,
        bits_per_entry: le16(s, 6) as u16,
        compressed_data_ptr: le32(s, 8) as u32,
        frame_count: le32(s, 12) as u32,
    }
}

/// Reads the header record.
pub fn parse_header(data: &[u8]) -> (r: CompressedHeader)
    requires
        data@.len() >= 16,
    ensures
        r == spec_parse_header(data@),
{
    let n: usize = data.len();
    proof {
        assert(16 <= n);
    }
    CompressedHeader {
        unk_4: read_u16_at(data, 0),
        flags: CompressionFlags::from_bits(read_u16_at(data, 2)),
        default_data_ptr: read_u16_at(data, 4),
        bits_per_entry: read_u16_at(data, 6),
        compressed_data_ptr: read_u32_at(data, 8),
        frame_count: read_u32_at(data, 12),
    }
}

/// One quantized scale-or-vector sample: `None` components take the track
/// default (or, under uniform scale, the broadcast single component).
#[derive(PartialEq, Eq, Clone, Copy, Debug)]
pub struct QuantizedVector3 {
    pub x: Option<u32>,
    pub y: Option<u32>,
    pub z: Option<u32>,
}

/// One quantized four-component sample.
#[derive(PartialEq, Eq, Clone, Copy, Debug)]
pub struct QuantizedVector4 {
    pub x: Option<u32>,
    pub y: Option<u32>,
    pub z: Option<u32>,
    pub w: Option<u32>,
}

/// One quantized texture-transform sample.  Under uniform scale nothing is
/// stored for `scale_v`: both axes take the value decoded from `scale_u`'s
/// descriptor.
#[derive(PartialEq, Eq, Clone, Copy, Debug)]
pub struct QuantizedUvTransform {
    pub scale_u: Option<u32>,
    pub scale_v: Option<u32>,
    pub rotation: Option<u32>,
    pub translate_u: Option<u32>,
    pub translate_v: Option<u32>,
}

/// One quantized transform sample.  Under uniform scale only `scale.x` is
/// stored and it serves all three axes.  `flip_w` is the quaternion's
/// reconstruction sign bit; `None` when the track has no rotation, in which
/// case w comes from the default.
#[derive(PartialEq, Eq, Clone, Copy, Debug)]
pub struct QuantizedTransform {
    pub scale: QuantizedVector3,
    pub rotation: QuantizedVector3,
    pub translation: QuantizedVector3,
    pub flip_w: Option<bool>,
}

/// A parsed compressed track: flags where the kind uses them, the
/// descriptor block, the default sample, and one quantized record per
/// decoded frame.  Boolean and pattern-index tracks decode to final values.
pub enum CompressedTrack {
    Transform {
        flags: CompressionFlags,
        compression: TransformCompression,
        default: UncompressedTransform,
        frames: Vec<QuantizedTransform>,
    },
    UvTransform {
        flags: CompressionFlags,
        compression: UvTransformCompression,
        default: UvTransform,
        frames: Vec<QuantizedUvTransform>,
    },
    Float { compression: F32Compression, default: u32, frames: Vec<Option<u32>> },
    PatternIndex { compression: U32Compression, default: u32, values: Vec<u32> },
    Boolean { values: Vec<bool> },
    Vector4 { compression: Vector4Compression, default: Vector4, frames: Vec<QuantizedVector4> },
}

/// The mathematical view of [`CompressedTrack`].
pub enum CompressedTrackView {
    Transform {
        flags: CompressionFlags,
        compression: TransformCompression,
        default: UncompressedTransform,
        frames: Seq<QuantizedTransform>,
    },
    UvTransform {
        flags: CompressionFlags,
        compression: UvTransformCompression,
        default: UvTransform,
        frames: Seq<QuantizedUvTransform>,
    },
    Float { compression: F32Compression, default: u32, frames: Seq<Option<u32>> },
    PatternIndex { compression: U32Compression, default: u32, values: Seq<u32> },
    Boolean { values: Seq<bool> },
    Vector4 { compression: Vector4Compression, default: Vector4, frames: Seq<QuantizedVector4> },
}

impl View for CompressedTrack {
    type V = CompressedTrackView;

    open spec fn view(&self) -> CompressedTrackView {
        match self {
            CompressedTrack::Transform { flags, compression, default, frames } => CompressedTrackView::Transform {
                flags: *flags,
                compression: *compression,
                default: *default,
                frames: frames@,
            },
            CompressedTrack::UvTransform { flags, compression, default, frames } => CompressedTrackView::UvTransform {
                flags: *flags,
                compression: *compression,
                default: *default,
                frames: frames@,
            },
            CompressedTrack::Float { compression, default, frames } => CompressedTrackView::Float {
                compression: *compression,
                default: *default,
                frames: frames@,
            },
            CompressedTrack::PatternIndex { compression, default, values } => CompressedTrackView::PatternIndex {
                compression: *compression,
                default: *default,
                values: values@,
            },
            CompressedTrack::Boolean { values } => CompressedTrackView::Boolean { values: values@ },
            CompressedTrack::Vector4 { compression, default, frames } => CompressedTrackView::Vector4 {
                compression: *compression,
                default: *default,
                frames: frames@,
            },
        }
    }
}

/// The quantized value of one component at bit position `pos`: nothing
/// when the component takes no bits, else its stored field.
pub open spec fn q_comp(s: Seq<u8>, pos: int, c: F32Compression) -> Option<u32> {
    if eff_bits(c) == 0 {
        None
    } else {
        Some(bits_val(s, pos, c.bit_count as nat) as u32)
    }
}

/// The quantized three-component record at `pos`.
pub open spec fn spec_frame_v3(s: Seq<u8>, pos: int, c: Vector3Compression) -> QuantizedVector3 {
    QuantizedVector3 {
        x: q_comp(s, pos, c.x),
        y: q_comp(s, pos + eff_bits(c.x), c.y),
        z: q_comp(s, pos + eff_bits(c.x) + eff_bits(c.y), c.z),
    }
}

/// The quantized four-component record at `pos`.
pub open spec fn spec_frame_v4(s: Seq<u8>, pos: int, c: Vector4Compression) -> QuantizedVector4 {
    QuantizedVector4 {
        x: q_comp(s, pos, c.x),
        y: q_comp(s, pos + eff_bits(c.x), c.y),
        z: q_comp(s, pos + eff_bits(c.x) + eff_bits(c.y), c.z),
        w: q_comp(s, pos + eff_bits(c.x) + eff_bits(c.y) + eff_bits(c.z), c.w),
    }
}

/// The quantized texture-transform record at `pos`.
pub open spec fn spec_frame_uv(
    s: Seq<u8>,
    pos: int,
    c: UvTransformCompression,
    flags: CompressionFlags,
) -> QuantizedUvTransform {
    let scale_u = q_comp(s, pos, c.scale_u);
    let scale_v = if flags.uniform_scale {
        None
    } else {
        q_comp(s, pos + eff_bits(c.scale_u), c.scale_v)
    };
    let p1 = pos + (if flags.uniform_scale {
        eff_bits(c.scale_u)
    } else {
        eff_bits(c.scale_u) + eff_bits(c.scale_v)
    });
    QuantizedUvTransform {
        scale_u,
        scale_v,
        rotation: q_comp(s, p1, c.rotation),
        translate_u: q_comp(s, p1 + eff_bits(c.rotation), c.translate_u),
        translate_v: q_comp(s, p1 + eff_bits(c.rotation) + eff_bits(c.translate_u), c.translate_v),
    }
}

/// The quantized transform record at `pos`: scale, rotation x y z,
/// translation, then the w sign bit when rotation is present.
pub open spec fn spec_frame_transform(
    s: Seq<u8>,
    pos: int,
    c: TransformCompression,
    flags: CompressionFlags,
) -> QuantizedTransform {
    let scale = if flags.uniform_scale {
        QuantizedVector3 { x: q_comp(s, pos, c.scale.x), y: None, z: None }
    } else {
        spec_frame_v3(s, pos, c.scale)
    };
    let p1 = pos + (if flags.uniform_scale {
        eff_bits(c.scale.x)
    } else {
        v3_bits(c.scale)
    });
    let p2 = p1 + v3_bits(c.rotation);
    let p3 = p2 + v3_bits(c.translation);
    QuantizedTransform {
        scale,
        rotation: spec_frame_v3(s, p1, c.rotation),
        translation: spec_frame_v3(s, p2, c.translation),
        flip_w: if flags.has_rotation {
            Some(stream_bit(s, p3))
        } else {
            None
        },
    }
}

/// The decoded pattern-index sample at `pos`: the stored field plus the
/// descriptor's minimum, wrapping on overflow.
pub open spec fn spec_frame_pattern(s: Seq<u8>, pos: int, c: U32Compression) -> u32 {
    (bits_val(s, pos, c.bit_count as nat) + c.min as u64) as u32
}

/// Reads one quantized component, advancing by its effective bits.
fn read_q_comp(r: &mut BitReader, c: &F32Compression) -> (res: Option<Option<u32>>)
    requires
        old(r).wf(),
        c.bit_count <= MAX_BIT_COUNT,
    ensures
        final(r).wf(),
        final(r).data@ == old(r).data@,
        match res {
            Some(v) => {
                &&& old(r).pos + eff_bits(*c) <= 8 * old(r).data@.len()
                &&& v == q_comp(old(r).data@, old(r).pos as int, *c)
                &&& final(r).pos == old(r).pos + eff_bits(*c)
            },
            None => old(r).pos + eff_bits(*c) > 8 * old(r).data@.len(),
        },
{
    if c.bit_count() == 0 {
        Some(None)
    } else {
        match r.read(c.bit_count as usize) {
            Some(v) => Some(Some(#[verifier::truncate] (v as u32))),
            None => None,
        }
    }
}

/// Reads one quantized three-component record.
fn read_frame_v3(r: &mut BitReader, c: &Vector3Compression) -> (res: Option<QuantizedVector3>)
    requires
        old(r).wf(),
        v3c_wf(*c),
    ensures
        final(r).wf(),
        final(r).data@ == old(r).data@,
        match res {
            Some(q) => {
                &&& old(r).pos + v3_bits(*c) <= 8 * old(r).data@.len()
                &&& q == spec_frame_v3(old(r).data@, old(r).pos as int, *c)
                &&& final(r).pos == old(r).pos + v3_bits(*c)
            },
            None => old(r).pos + v3_bits(*c) > 8 * old(r).data@.len(),
        },
{
    let x = match read_q_comp(r, &c.x) {
        Some(v) => v,
        None => {
            return None;
        },
    };
    let y = match read_q_comp(r, &c.y) {
        Some(v) => v,
        None => {
            return None;
        },
    };
    let z = match read_q_comp(r, &c.z) {
        Some(v) => v,
        None => {
            return None;
        },
    };
    Some(QuantizedVector3 { x, y, z })
}

/// Reads one quantized four-component record.
fn read_frame_v4(r: &mut BitReader, c: &Vector4Compression) -> (res: Option<QuantizedVector4>)
    requires
        old(r).wf(),
        c.x.bit_count <= MAX_BIT_COUNT,
        c.y.bit_count <= MAX_BIT_COUNT,
        c.z.bit_count <= MAX_BIT_COUNT,
        c.w.bit_count <= MAX_BIT_COUNT,
    ensures
        final(r).wf(),
        final(r).data@ == old(r).data@,
        match res {
            Some(q) => {
                &&& old(r).pos + crate::compression::v4_bits(*c) <= 8 * old(r).data@.len()
                &&& q == spec_frame_v4(old(r).data@, old(r).pos as int, *c)
                &&& final(r).pos == old(r).pos + crate::compression::v4_bits(*c)
            },
            None => old(r).pos + crate::compression::v4_bits(*c) > 8 * old(r).data@.len(),
        },
{
    let x = match read_q_comp(r, &c.x) {
        Some(v) => v,
        None => {
            return None;
        },
    };
    let y = match read_q_comp(r, &c.y) {
        Some(v) => v,
        None => {
            return None;
        },
    };
    let z = match read_q_comp(r, &c.z) {
        Some(v) => v,
        None => {
            return None;
        },
    };
    let w = match read_q_comp(r, &c.w) {
        Some(v) => v,
        None => {
            return None;
        },
    };
    Some(QuantizedVector4 { x, y, z, w })
}

/// Reads one quantized texture-transform record.
fn read_frame_uv(
    r: &mut BitReader,
    c: &UvTransformCompression,
    flags: CompressionFlags,
) -> (res: Option<QuantizedUvTransform>)
    requires
        old(r).wf(),
        c.scale_u.bit_count <= MAX_BIT_COUNT,
        c.scale_v.bit_count <= MAX_BIT_COUNT,
        c.rotation.bit_count <= MAX_BIT_COUNT,
        c.translate_u.bit_count <= MAX_BIT_COUNT,
        c.translate_v.bit_count <= MAX_BIT_COUNT,
    ensures
        final(r).wf(),
        final(r).data@ == old(r).data@,
        match res {
            Some(q) => {
                &&& old(r).pos + uv_bits(*c, flags) <= 8 * old(r).data@.len()
                &&& q == spec_frame_uv(old(r).data@, old(r).pos as int, *c, flags)
                &&& final(r).pos == old(r).pos + uv_bits(*c, flags)
            },
            None => old(r).pos + uv_bits(*c, flags) > 8 * old(r).data@.len(),
        },
{
    let scale_u = match read_q_comp(r, &c.scale_u) {
        Some(v) => v,
        None => {
            return None;
        },
    };
    let scale_v = if flags.uniform_scale {
        None
    } else {
        match read_q_comp(r, &c.scale_v) {
            Some(v) => v,
            None => {
                return None;
            },
        }
    };
    let rotation = match read_q_comp(r, &c.rotation) {
        Some(v) => v,
        None => {
            return None;
        },
    };
    let translate_u = match read_q_comp(r, &c.translate_u) {
        Some(v) => v,
        None => {
            return None;
        },
    };
    let translate_v = match read_q_comp(r, &c.translate_v) {
        Some(v) => v,
        None => {
            return None;
        },
    };
    Some(QuantizedUvTransform { scale_u, scale_v, rotation, translate_u, translate_v })
}

/// Reads one quantized transform record.
fn read_frame_transform(
    r: &mut BitReader,
    c: &TransformCompression,
    flags: CompressionFlags,
) -> (res: Option<QuantizedTransform>)
    requires
        old(r).wf(),
        tc_wf(*c),
    ensures
        final(r).wf(),
        final(r).data@ == old(r).data@,
        match res {
            Some(q) => {
                &&& old(r).pos + transform_bits(*c, flags) <= 8 * old(r).data@.len()
                &&& q == spec_frame_transform(old(r).data@, old(r).pos as int, *c, flags)
                &&& final(r).pos == old(r).pos + transform_bits(*c, flags)
            },
            None => old(r).pos + transform_bits(*c, flags) > 8 * old(r).data@.len(),
        },
{
    let scale = if flags.uniform_scale {
        let x = match read_q_comp(r, &c.scale.x) {
            Some(v) => v,
            None => {
                return None;
            },
        };
        QuantizedVector3 { x, y: None, z: None }
    } else {
        match read_frame_v3(r, &c.scale) {
            Some(v) => v,
            None => {
                return None;
            },
        }
    };
    let rotation = match read_frame_v3(r, &c.rotation) {
        Some(v) => v,
        None => {
            return None;
        },
    };
    let translation = match read_frame_v3(r, &c.translation) {
        Some(v) => v,
        None => {
            return None;
        },
    };
    let flip_w = if flags.has_rotation {
        match r.read_bool() {
            Some(b) => Some(b),
            None => {
                return None;
            },
        }
    } else {
        None
    };
    Some(QuantizedTransform { scale, rotation, translation, flip_w })
}

/// The byte size of a kind's descriptor block; one 16-byte record per
/// scalar component, and 16 reserved bytes for booleans.
pub open spec fn desc_size(kind: TrackTypeV2) -> int {
    match kind {
        TrackTypeV2::Transform => 144,
        TrackTypeV2::UvTransform => 80,
        TrackTypeV2::Float => 16,
        TrackTypeV2::PatternIndex => 16,
        TrackTypeV2::Boolean => 16,
        TrackTypeV2::Vector4 => 64,
    }
}

/// The byte size of a kind's default sample.
pub open spec fn default_size(kind: TrackTypeV2) -> int {
    match kind {
        TrackTypeV2::Transform => 44,
        TrackTypeV2::UvTransform => 20,
        TrackTypeV2::Float => 4,
        TrackTypeV2::PatternIndex => 4,
        TrackTypeV2::Boolean => 1,
        TrackTypeV2::Vector4 => 16,
    }
}

/// The three-component descriptor block at `off`.
pub open spec fn spec_parse_v3c(s: Seq<u8>, off: int) -> Vector3Compression {
    Vector3Compression {
        x: spec_parse_f32c(s, off),
        y: spec_parse_f32c(s, off + 16),
        z: spec_parse_f32c(s, off + 32),
    }
}

/// The transform descriptor block, after the header.
pub open spec fn spec_parse_tc(s: Seq<u8>) -> TransformCompression {
    TransformCompression {
        scale: spec_parse_v3c(s, 16),
        rotation: spec_parse_v3c(s, 64),
        translation: spec_parse_v3c(s, 112),
    }
}

/// The texture-transform descriptor block, after the header.
pub open spec fn spec_parse_uvc(s: Seq<u8>) -> UvTransformCompression {
    UvTransformCompression {
        scale_u: spec_parse_f32c(s, 16),
        scale_v: spec_parse_f32c(s, 32),
        rotation: spec_parse_f32c(s, 48),
        translate_u: spec_parse_f32c(s, 64),
        translate_v: spec_parse_f32c(s, 80),
    }
}

/// The four-component descriptor block, after the header.
pub open spec fn spec_parse_v4c(s: Seq<u8>) -> Vector4Compression {
    Vector4Compression {
        x: spec_parse_f32c(s, 16),
        y: spec_parse_f32c(s, 32),
        z: spec_parse_f32c(s, 48),
        w: spec_parse_f32c(s, 64),
    }
}

/// Whether a kind's descriptor keeps every bit count within the supported
/// width.
pub open spec fn spec_desc_wf(s: Seq<u8>, kind: TrackTypeV2) -> bool {
    match kind {
        TrackTypeV2::Transform => tc_wf(spec_parse_tc(s)),
        TrackTypeV2::UvTransform => {
            let c = spec_parse_uvc(s);
            &&& c.scale_u.bit_count <= MAX_BIT_COUNT
            &&& c.scale_v.bit_count <= MAX_BIT_COUNT
            &&& c.rotation.bit_count <= MAX_BIT_COUNT
            &&& c.translate_u.bit_count <= MAX_BIT_COUNT
            &&& c.translate_v.bit_count <= MAX_BIT_COUNT
        },
        TrackTypeV2::Float => spec_parse_f32c(s, 16).bit_count <= MAX_BIT_COUNT,
        TrackTypeV2::PatternIndex => spec_parse_u32c(s, 16).bit_count <= MAX_BIT_COUNT,
        TrackTypeV2::Boolean => true,
        TrackTypeV2::Vector4 => {
            let c = spec_parse_v4c(s);
            &&& c.x.bit_count <= MAX_BIT_COUNT
            &&& c.y.bit_count <= MAX_BIT_COUNT
            &&& c.z.bit_count <= MAX_BIT_COUNT
            &&& c.w.bit_count <= MAX_BIT_COUNT
        },
    }
}

/// The per-frame bit total a kind's descriptor and flags imply; the header
/// must agree with it.
pub open spec fn spec_expected_bits(s: Seq<u8>, kind: TrackTypeV2, flags: CompressionFlags) -> int {
    match kind {
        TrackTypeV2::Transform => transform_bits(spec_parse_tc(s), flags),
        TrackTypeV2::UvTransform => uv_bits(spec_parse_uvc(s), flags),
        TrackTypeV2::Float => eff_bits(spec_parse_f32c(s, 16)),
        TrackTypeV2::PatternIndex => spec_parse_u32c(s, 16).bit_count as int,
        TrackTypeV2::Boolean => 1,
        TrackTypeV2::Vector4 => crate::compression::v4_bits(spec_parse_v4c(s)),
    }
}

/// How many frames are decoded: a zero-bit entry with a positive frame
/// request collapses to a single frame, which also bounds work on
/// pathological counts.
pub open spec fn spec_actual_count(expected: int, count: int) -> int {
    if expected == 0 && count > 0 {
        1
    } else {
        count
    }
}

/// The parsed form of a compressed blob whose layout checks passed:
/// descriptor, default, and quantized frames taken from the bitstream.
pub open spec fn spec_compressed_view(s: Seq<u8>, kind: TrackTypeV2, count: int) -> CompressedTrackView {
    let h = spec_parse_header(s);
    let dp = h.default_data_ptr as int;
    let stream = s.subrange(h.compressed_data_ptr as int, s.len() as int);
    let expected = spec_expected_bits(s, kind, h.flags);
    let actual = spec_actual_count(expected, count) as nat;
    match kind {
        TrackTypeV2::Transform => CompressedTrackView::Transform {
            flags: h.flags,
            compression: spec_parse_tc(s),
            default: spec_parse_ut(s, dp),
            frames: Seq::new(
                actual,
                |i: int| spec_frame_transform(stream, i * expected, spec_parse_tc(s), h.flags),
            ),
        },
        TrackTypeV2::UvTransform => CompressedTrackView::UvTransform {
            flags: h.flags,
            compression: spec_parse_uvc(s),
            default: spec_parse_uvt(s, dp),
            frames: Seq::new(
                actual,
                |i: int| spec_frame_uv(stream, i * expected, spec_parse_uvc(s), h.flags),
            ),
        },
        TrackTypeV2::Float => CompressedTrackView::Float {
            compression: spec_parse_f32c(s, 16),
            default: le32(s, dp) as u32,
            frames: Seq::new(
                actual,
                |i: int| q_comp(stream, i * expected, spec_parse_f32c(s, 16)),
            ),
        },
        TrackTypeV2::PatternIndex => CompressedTrackView::PatternIndex {
            compression: spec_parse_u32c(s, 16),
            default: le32(s, dp) as u32,
            values: Seq::new(
                actual,
                |i: int| spec_frame_pattern(stream, i * expected, spec_parse_u32c(s, 16)),
            ),
        },
        TrackTypeV2::Boolean => CompressedTrackView::Boolean {
            values: Seq::new(actual, |i: int| bits_val(stream, i * expected, 1) != 0),
        },
        TrackTypeV2::Vector4 => CompressedTrackView::Vector4 {
            compression: spec_parse_v4c(s),
            default: spec_parse_v4(s, dp),
            frames: Seq::new(
                actual,
                |i: int| spec_frame_v4(stream, i * expected, spec_parse_v4c(s)),
            ),
        },
    }
}

/// Reads the three-component descriptor block at `off`.
fn parse_v3c(data: &[u8], off: usize) -> (r: Vector3Compression)
    requires
        off + 48 <= data@.len(),
    ensures
        r == spec_parse_v3c(data@, off as int),
{
    let n: usize = data.len();
    proof {
        assert(off + 48 <= n);
    }
    Vector3Compression {
        x: parse_f32c(data, off),
        y: parse_f32c(data, off + 16),
        z: parse_f32c(data, off + 32),
    }
}

/// The scale-compensation flag of a compressed track: the default
/// transform's word, false for every other kind.
pub open spec fn spec_compressed_compensate(s: Seq<u8>, kind: TrackTypeV2) -> bool {
    kind == TrackTypeV2::Transform && spec_parse_ut(
        s,
        spec_parse_header(s).default_data_ptr as int,
    ).compensate_scale != 0
}

/// What reading a compressed track of `kind` yields, error by error: a
/// blob too short for header and descriptor is truncated; an oversized bit
/// count is malformed; a bits-per-entry that disagrees with the descriptor
/// is an unexpected bit count; a zero or out-of-blob pointer is malformed;
/// and a bitstream too short for the decoded frames is truncated.
pub open spec fn spec_read_compressed(s: Seq<u8>, kind: TrackTypeV2, count: int) -> Result<
    (CompressedTrackView, bool),
    Error,
> {
    let n = s.len() as int;
    if n < 16 + desc_size(kind) {
        Err(Error::Truncated)
    } else if !spec_desc_wf(s, kind) {
        Err(Error::MalformedCompressionHeader)
    } else {
        let h = spec_parse_header(s);
        let expected = spec_expected_bits(s, kind, h.flags);
        if h.bits_per_entry as int != expected {
            Err(Error::UnexpectedBitCount {
                expected: expected as usize,
                actual: h.bits_per_entry as usize,
            })
        } else {
            let dp = h.default_data_ptr as int;
            let cp = h.compressed_data_ptr as int;
            if dp == 0 || cp == 0 {
                Err(Error::MalformedCompressionHeader)
            } else if dp + default_size(kind) > n || cp > n {
                Err(Error::MalformedCompressionHeader)
            } else if spec_actual_count(expected, count) * expected > 8 * (n - cp) {
                Err(Error::Truncated)
            } else {
                Ok((spec_compressed_view(s, kind, count), spec_compressed_compensate(s, kind)))
            }
        }
    }
}

/// Reads a compressed track of one kind; see [`spec_read_compressed`].
#[verifier::rlimit(100)]
fn read_compressed_transform(track_data: &[u8], count: usize) -> (r: Result<
    (CompressedTrack, bool),
    Error,
>)
    requires
        track_data@.len() <= usize::MAX as int / 8,
    ensures
        match r {
            Ok((track, comp)) => spec_read_compressed(
                track_data@,
                TrackTypeV2::Transform,
                count as int,
            ) == Ok::<_, Error>((track@, comp)),
            Err(e) => spec_read_compressed(track_data@, TrackTypeV2::Transform, count as int) == Err::<
                (CompressedTrackView, bool),
                _,
            >(e),
        },
{
    let n: usize = track_data.len();
    if n < 16 + 144 {
        return Err(Error::Truncated);
    }
    let h = parse_header(track_data);
    let actual_bpe = h.bits_per_entry as usize;

        let c = parse_v3c(track_data, 16);
        let c2 = parse_v3c(track_data, 64);
        let c3 = parse_v3c(track_data, 112);
        let tc = TransformCompression { scale: c, rotation: c2, translation: c3 };
        if c.x.bit_count > 32 || c.y.bit_count > 32 || c.z.bit_count > 32
            || c2.x.bit_count > 32 || c2.y.bit_count > 32 || c2.z.bit_count > 32
            || c3.x.bit_count > 32 || c3.y.bit_count > 32 || c3.z.bit_count > 32 {
            return Err(Error::MalformedCompressionHeader);
        }
        let expected: u64 = tc.bit_count(h.flags);
        if h.bits_per_entry as u64 != expected {
            return Err(
                Error::UnexpectedBitCount { expected: expected as usize, actual: actual_bpe },
            );
        }
        let dp = h.default_data_ptr as usize;
        let cp = h.compressed_data_ptr as usize;
        if dp == 0 || cp == 0 {
            return Err(Error::MalformedCompressionHeader);
        }
        if dp + 44 > n || cp > n {
            return Err(Error::MalformedCompressionHeader);
        }
        let default = parse_ut(track_data, dp);
        let comp = default.compensate_scale != 0;
        let actual: usize = if expected == 0 && count > 0 {
            1
        } else {
            count
        };
        proof {
            assert(cp <= n);
            assert(0 * (expected as int) == 0) by (nonlinear_arith);
            assert((actual as int) * (expected as int) <= 0xffffffffffffffff * 0x10000int)
                by (nonlinear_arith)
                requires
                    0 <= actual <= 0xffffffffffffffff,
                    0 <= expected <= 0x10000,
            ;
        }
        if (actual as u128) * (expected as u128) > 8 * ((n - cp) as u128) {
            return Err(Error::Truncated);
        }
        let stream = slice_subrange(track_data, cp, n);
        let mut reader = BitReader::from_slice(stream);
        let mut frames: Vec<QuantizedTransform> = Vec::new();
        let ghost strm = track_data@.subrange(cp as int, n as int);
        for i in 0..actual
            invariant
                frames@.len() == i,
                reader.wf(),
                reader.data@ == strm,
                strm.len() == n - cp,
                reader.pos == i * (expected as int),
                actual * expected <= 8 * (n - cp),
                tc_wf(tc),
                expected == transform_bits(tc, h.flags),
                forall|j: int|
                    0 <= j < i ==> frames@[j] == spec_frame_transform(
                        strm,
                        j * (expected as int),
                        tc,
                        h.flags,
                    ),
        {
            proof {
                assert(i * (expected as int) + expected == (i + 1) * (expected as int))
                    by (nonlinear_arith);
                assert((i + 1) * (expected as int) <= actual * (expected as int))
                    by (nonlinear_arith)
                    requires
                        i < actual,
                        expected >= 0,
                ;
            }
            match read_frame_transform(&mut reader, &tc, h.flags) {
                Some(q) => frames.push(q),
                None => {
                    return Err(Error::Truncated);
                },
            }
        }
        proof {
            assert(frames@ =~= Seq::new(
                actual as nat,
                |i: int| spec_frame_transform(strm, i * (expected as int), tc, h.flags),
            ));
        }
        Ok((
            CompressedTrack::Transform { flags: h.flags, compression: tc, default, frames },
            comp,
        ))
}

/// Reads a compressed track of one kind; see [`spec_read_compressed`].
#[verifier::rlimit(100)]
fn read_compressed_uv(track_data: &[u8], count: usize) -> (r: Result<
    (CompressedTrack, bool),
    Error,
>)
    requires
        track_data@.len() <= usize::MAX as int / 8,
    ensures
        match r {
            Ok((track, comp)) => spec_read_compressed(
                track_data@,
                TrackTypeV2::UvTransform,
                count as int,
            ) == Ok::<_, Error>((track@, comp)),
            Err(e) => spec_read_compressed(track_data@, TrackTypeV2::UvTransform, count as int) == Err::<
                (CompressedTrackView, bool),
                _,
            >(e),
        },
{
    let n: usize = track_data.len();
    if n < 16 + 80 {
        return Err(Error::Truncated);
    }
    let h = parse_header(track_data);
    let actual_bpe = h.bits_per_entry as usize;

        let uc = UvTransformCompression {
            scale_u: parse_f32c(track_data, 16),
            scale_v: parse_f32c(track_data, 32),
            rotation: parse_f32c(track_data, 48),
            translate_u: parse_f32c(track_data, 64),
            translate_v: parse_f32c(track_data, 80),
        };
        if uc.scale_u.bit_count > 32 || uc.scale_v.bit_count > 32 || uc.rotation.bit_count > 32
            || uc.translate_u.bit_count > 32 || uc.translate_v.bit_count > 32 {
            return Err(Error::MalformedCompressionHeader);
        }
        let expected: u64 = uc.bit_count(h.flags);
        if h.bits_per_entry as u64 != expected {
            return Err(
                Error::UnexpectedBitCount { expected: expected as usize, actual: actual_bpe },
            );
        }
        let dp = h.default_data_ptr as usize;
        let cp = h.compressed_data_ptr as usize;
        if dp == 0 || cp == 0 {
            return Err(Error::MalformedCompressionHeader);
        }
        if dp + 20 > n || cp > n {
            return Err(Error::MalformedCompressionHeader);
        }
        let default = parse_uvt(track_data, dp);
        let actual: usize = if expected == 0 && count > 0 {
            1
        } else {
            count
        };
        proof {
            assert(cp <= n);
            assert(0 * (expected as int) == 0) by (nonlinear_arith);
            assert((actual as int) * (expected as int) <= 0xffffffffffffffff * 0x10000int)
                by (nonlinear_arith)
                requires
                    0 <= actual <= 0xffffffffffffffff,
                    0 <= expected <= 0x10000,
            ;
        }
        if (actual as u128) * (expected as u128) > 8 * ((n - cp) as u128) {
            return Err(Error::Truncated);
        }
        let stream = slice_subrange(track_data, cp, n);
        let mut reader = BitReader::from_slice(stream);
        let mut frames: Vec<QuantizedUvTransform> = Vec::new();
        let ghost strm = track_data@.subrange(cp as int, n as int);
        for i in 0..actual
            invariant
                frames@.len() == i,
                reader.wf(),
                reader.data@ == strm,
                strm.len() == n - cp,
                reader.pos == i * (expected as int),
                actual * expected <= 8 * (n - cp),
                uc.scale_u.bit_count <= MAX_BIT_COUNT,
                uc.scale_v.bit_count <= MAX_BIT_COUNT,
                uc.rotation.bit_count <= MAX_BIT_COUNT,
                uc.translate_u.bit_count <= MAX_BIT_COUNT,
                uc.translate_v.bit_count <= MAX_BIT_COUNT,
                expected == uv_bits(uc, h.flags),
                forall|j: int|
                    0 <= j < i ==> frames@[j] == spec_frame_uv(
                        strm,
                        j * (expected as int),
                        uc,
                        h.flags,
                    ),
        {
            proof {
                assert(i * (expected as int) + expected == (i + 1) * (expected as int))
                    by (nonlinear_arith);
                assert((i + 1) * (expected as int) <= actual * (expected as int))
                    by (nonlinear_arith)
                    requires
                        i < actual,
                        expected >= 0,
                ;
            }
            match read_frame_uv(&mut reader, &uc, h.flags) {
                Some(q) => frames.push(q),
                None => {
                    return Err(Error::Truncated);
                },
            }
        }
        proof {
            assert(frames@ =~= Seq::new(
                actual as nat,
                |i: int| spec_frame_uv(strm, i * (expected as int), uc, h.flags),
            ));
        }
        Ok((
            CompressedTrack::UvTransform { flags: h.flags, compression: uc, default, frames },
            false,
        ))
}

/// Reads a compressed track of one kind; see [`spec_read_compressed`].
#[verifier::rlimit(100)]
fn read_compressed_float(track_data: &[u8], count: usize) -> (r: Result<
    (CompressedTrack, bool),
    Error,
>)
    requires
        track_data@.len() <= usize::MAX as int / 8,
    ensures
        match r {
            Ok((track, comp)) => spec_read_compressed(
                track_data@,
                TrackTypeV2::Float,
                count as int,
            ) == Ok::<_, Error>((track@, comp)),
            Err(e) => spec_read_compressed(track_data@, TrackTypeV2::Float, count as int) == Err::<
                (CompressedTrackView, bool),
                _,
            >(e),
        },
{
    let n: usize = track_data.len();
    if n < 16 + 16 {
        return Err(Error::Truncated);
    }
    let h = parse_header(track_data);
    let actual_bpe = h.bits_per_entry as usize;

        let c = parse_f32c(track_data, 16);
        if c.bit_count > 32 {
            return Err(Error::MalformedCompressionHeader);
        }
        let expected: u64 = c.bit_count();
        if h.bits_per_entry as u64 != expected {
            return Err(
                Error::UnexpectedBitCount { expected: expected as usize, actual: actual_bpe },
            );
        }
        let dp = h.default_data_ptr as usize;
        let cp = h.compressed_data_ptr as usize;
        if dp == 0 || cp == 0 {
            return Err(Error::MalformedCompressionHeader);
        }
        if dp + 4 > n || cp > n {
            return Err(Error::MalformedCompressionHeader);
        }
        let default = read_u32_at(track_data, dp);
        let actual: usize = if expected == 0 && count > 0 {
            1
        } else {
            count
        };
        proof {
            assert(cp <= n);
            assert(0 * (expected as int) == 0) by (nonlinear_arith);
            assert((actual as int) * (expected as int) <= 0xffffffffffffffff * 0x10000int)
                by (nonlinear_arith)
                requires
                    0 <= actual <= 0xffffffffffffffff,
                    0 <= expected <= 0x10000,
            ;
        }
        if (actual as u128) * (expected as u128) > 8 * ((n - cp) as u128) {
            return Err(Error::Truncated);
        }
        let stream = slice_subrange(track_data, cp, n);
        let mut reader = BitReader::from_slice(stream);
        let mut frames: Vec<Option<u32>> = Vec::new();
        let ghost strm = track_data@.subrange(cp as int, n as int);
        for i in 0..actual
            invariant
                frames@.len() == i,
                reader.wf(),
                reader.data@ == strm,
                strm.len() == n - cp,
                reader.pos == i * (expected as int),
                actual * expected <= 8 * (n - cp),
                c.bit_count <= MAX_BIT_COUNT,
                expected == eff_bits(c),
                forall|j: int|
                    0 <= j < i ==> frames@[j] == q_comp(strm, j * (expected as int), c),
        {
            proof {
                assert(i * (expected as int) + expected == (i + 1) * (expected as int))
                    by (nonlinear_arith);
                assert((i + 1) * (expected as int) <= actual * (expected as int))
                    by (nonlinear_arith)
                    requires
                        i < actual,
                        expected >= 0,
                ;
            }
            match read_q_comp(&mut reader, &c) {
                Some(v) => frames.push(v),
                None => {
                    return Err(Error::Truncated);
                },
            }
        }
        proof {
            assert(frames@ =~= Seq::new(
                actual as nat,
                |i: int| q_comp(strm, i * (expected as int), c),
            ));
        }
        Ok((CompressedTrack::Float { compression: c, default, frames }, false))
}

/// Reads a compressed track of one kind; see [`spec_read_compressed`].
#[verifier::rlimit(100)]
fn read_compressed_pattern(track_data: &[u8], count: usize) -> (r: Result<
    (CompressedTrack, bool),
    Error,
>)
    requires
        track_data@.len() <= usize::MAX as int / 8,
    ensures
        match r {
            Ok((track, comp)) => spec_read_compressed(
                track_data@,
                TrackTypeV2::PatternIndex,
                count as int,
            ) == Ok::<_, Error>((track@, comp)),
            Err(e) => spec_read_compressed(track_data@, TrackTypeV2::PatternIndex, count as int) == Err::<
                (CompressedTrackView, bool),
                _,
            >(e),
        },
{
    let n: usize = track_data.len();
    if n < 16 + 16 {
        return Err(Error::Truncated);
    }
    let h = parse_header(track_data);
    let actual_bpe = h.bits_per_entry as usize;

        let c = parse_u32c(track_data, 16);
        if c.bit_count > 32 {
            return Err(Error::MalformedCompressionHeader);
        }
        let expected: u64 = c.bit_count;
        if h.bits_per_entry as u64 != expected {
            return Err(
                Error::UnexpectedBitCount { expected: expected as usize, actual: actual_bpe },
            );
        }
        let dp = h.default_data_ptr as usize;
        let cp = h.compressed_data_ptr as usize;
        if dp == 0 || cp == 0 {
            return Err(Error::MalformedCompressionHeader);
        }
        if dp + 4 > n || cp > n {
            return Err(Error::MalformedCompressionHeader);
        }
        let default = read_u32_at(track_data, dp);
        let actual: usize = if expected == 0 && count > 0 {
            1
        } else {
            count
        };
        proof {
            assert(cp <= n);
            assert(0 * (expected as int) == 0) by (nonlinear_arith);
            assert((actual as int) * (expected as int) <= 0xffffffffffffffff * 0x10000int)
                by (nonlinear_arith)
                requires
                    0 <= actual <= 0xffffffffffffffff,
                    0 <= expected <= 0x10000,
            ;
        }
        if (actual as u128) * (expected as u128) > 8 * ((n - cp) as u128) {
            return Err(Error::Truncated);
        }
        let stream = slice_subrange(track_data, cp, n);
        let mut reader = BitReader::from_slice(stream);
        let mut values: Vec<u32> = Vec::new();
        let ghost strm = track_data@.subrange(cp as int, n as int);
        for i in 0..actual
            invariant
                values@.len() == i,
                reader.wf(),
                reader.data@ == strm,
                strm.len() == n - cp,
                reader.pos == i * (expected as int),
                actual * expected <= 8 * (n - cp),
                c.bit_count <= MAX_BIT_COUNT,
                expected == c.bit_count,
                forall|j: int|
                    0 <= j < i ==> values@[j] == spec_frame_pattern(
                        strm,
                        j * (expected as int),
                        c,
                    ),
        {
            proof {
                assert(i * (expected as int) + expected == (i + 1) * (expected as int))
                    by (nonlinear_arith);
                assert((i + 1) * (expected as int) <= actual * (expected as int))
                    by (nonlinear_arith)
                    requires
                        i < actual,
                        expected >= 0,
                ;
            }
            match reader.read(expected as usize) {
                Some(v) => {
                    proof {
                        crate::bitio::lemma_bits_val_bound(strm, i * (expected as int), expected as nat);
                        assert(1u64 << (expected as u64) <= 0x100000000u64) by (bit_vector)
                            requires
                                expected <= 32u64,
                        ;
                    }
                    values.push(#[verifier::truncate] ((v + c.min as u64) as u32));
                },
                None => {
                    return Err(Error::Truncated);
                },
            }
        }
        proof {
            assert(values@ =~= Seq::new(
                actual as nat,
                |i: int| spec_frame_pattern(strm, i * (expected as int), c),
            ));
        }
        Ok((CompressedTrack::PatternIndex { compression: c, default, values }, false))
}

/// Reads a compressed track of one kind; see [`spec_read_compressed`].
#[verifier::rlimit(100)]
fn read_compressed_boolean(track_data: &[u8], count: usize) -> (r: Result<
    (CompressedTrack, bool),
    Error,
>)
    requires
        track_data@.len() <= usize::MAX as int / 8,
    ensures
        match r {
            Ok((track, comp)) => spec_read_compressed(
                track_data@,
                TrackTypeV2::Boolean,
                count as int,
            ) == Ok::<_, Error>((track@, comp)),
            Err(e) => spec_read_compressed(track_data@, TrackTypeV2::Boolean, count as int) == Err::<
                (CompressedTrackView, bool),
                _,
            >(e),
        },
{
    let n: usize = track_data.len();
    if n < 16 + 16 {
        return Err(Error::Truncated);
    }
    let h = parse_header(track_data);
    let actual_bpe = h.bits_per_entry as usize;

        let expected: u64 = 1;
        if h.bits_per_entry as u64 != expected {
            return Err(
                Error::UnexpectedBitCount { expected: 1, actual: actual_bpe },
            );
        }
        let dp = h.default_data_ptr as usize;
        let cp = h.compressed_data_ptr as usize;
        if dp == 0 || cp == 0 {
            return Err(Error::MalformedCompressionHeader);
        }
        if dp + 1 > n || cp > n {
            return Err(Error::MalformedCompressionHeader);
        }
        let actual: usize = count;
        proof {
            assert(cp <= n);
            assert(0 * (expected as int) == 0) by (nonlinear_arith);
            assert((actual as int) * (expected as int) <= 0xffffffffffffffff * 0x10000int)
                by (nonlinear_arith)
                requires
                    0 <= actual <= 0xffffffffffffffff,
                    0 <= expected <= 0x10000,
            ;
        }
        if (actual as u128) * (expected as u128) > 8 * ((n - cp) as u128) {
            return Err(Error::Truncated);
        }
        let stream = slice_subrange(track_data, cp, n);
        let mut reader = BitReader::from_slice(stream);
        let mut values: Vec<bool> = Vec::new();
        let ghost strm = track_data@.subrange(cp as int, n as int);
        for i in 0..actual
            invariant
                values@.len() == i,
                reader.wf(),
                reader.data@ == strm,
                strm.len() == n - cp,
                reader.pos == i,
                actual <= 8 * (n - cp),
                forall|j: int| 0 <= j < i ==> values@[j] == (bits_val(strm, j, 1) != 0),
        {
            match reader.read(1) {
                Some(v) => {
                    values.push(v != 0);
                },
                None => {
                    return Err(Error::Truncated);
                },
            }
        }
        proof {
            assert(values@ =~= Seq::new(actual as nat, |i: int| bits_val(strm, i * 1, 1) != 0))
                by {
                assert(forall|i: int| 0 <= i < actual ==> #[trigger] (i * 1) == i)
                    by (nonlinear_arith);
            }
        }
        Ok((CompressedTrack::Boolean { values }, false))
}

/// Reads a compressed track of one kind; see [`spec_read_compressed`].
#[verifier::rlimit(100)]
fn read_compressed_vector4(track_data: &[u8], count: usize) -> (r: Result<
    (CompressedTrack, bool),
    Error,
>)
    requires
        track_data@.len() <= usize::MAX as int / 8,
    ensures
        match r {
            Ok((track, comp)) => spec_read_compressed(
                track_data@,
                TrackTypeV2::Vector4,
                count as int,
            ) == Ok::<_, Error>((track@, comp)),
            Err(e) => spec_read_compressed(track_data@, TrackTypeV2::Vector4, count as int) == Err::<
                (CompressedTrackView, bool),
                _,
            >(e),
        },
{
    let n: usize = track_data.len();
    if n < 16 + 64 {
        return Err(Error::Truncated);
    }
    let h = parse_header(track_data);
    let actual_bpe = h.bits_per_entry as usize;

        let vc = Vector4Compression {
            x: parse_f32c(track_data, 16),
            y: parse_f32c(track_data, 32),
            z: parse_f32c(track_data, 48),
            w: parse_f32c(track_data, 64),
        };
        if vc.x.bit_count > 32 || vc.y.bit_count > 32 || vc.z.bit_count > 32
            || vc.w.bit_count > 32 {
            return Err(Error::MalformedCompressionHeader);
        }
        let expected: u64 = vc.bit_count();
        if h.bits_per_entry as u64 != expected {
            return Err(
                Error::UnexpectedBitCount { expected: expected as usize, actual: actual_bpe },
            );
        }
        let dp = h.default_data_ptr as usize;
        let cp = h.compressed_data_ptr as usize;
        if dp == 0 || cp == 0 {
            return Err(Error::MalformedCompressionHeader);
        }
        if dp + 16 > n || cp > n {
            return Err(Error::MalformedCompressionHeader);
        }
        let default = parse_v4(track_data, dp);
        let actual: usize = if expected == 0 && count > 0 {
            1
        } else {
            count
        };
        proof {
            assert(cp <= n);
            assert(0 * (expected as int) == 0) by (nonlinear_arith);
            assert((actual as int) * (expected as int) <= 0xffffffffffffffff * 0x10000int)
                by (nonlinear_arith)
                requires
                    0 <= actual <= 0xffffffffffffffff,
                    0 <= expected <= 0x10000,
            ;
        }
        if (actual as u128) * (expected as u128) > 8 * ((n - cp) as u128) {
            return Err(Error::Truncated);
        }
        let stream = slice_subrange(track_data, cp, n);
        let mut reader = BitReader::from_slice(stream);
        let mut frames: Vec<QuantizedVector4> = Vec::new();
        let ghost strm = track_data@.subrange(cp as int, n as int);
        for i in 0..actual
            invariant
                frames@.len() == i,
                reader.wf(),
                reader.data@ == strm,
                strm.len() == n - cp,
                reader.pos == i * (expected as int),
                actual * expected <= 8 * (n - cp),
                vc.x.bit_count <= MAX_BIT_COUNT,
                vc.y.bit_count <= MAX_BIT_COUNT,
                vc.z.bit_count <= MAX_BIT_COUNT,
                vc.w.bit_count <= MAX_BIT_COUNT,
                expected == crate::compression::v4_bits(vc),
                forall|j: int|
                    0 <= j < i ==> frames@[j] == spec_frame_v4(strm, j * (expected as int), vc),
        {
            proof {
                assert(i * (expected as int) + expected == (i + 1) * (expected as int))
                    by (nonlinear_arith);
                assert((i + 1) * (expected as int) <= actual * (expected as int))
                    by (nonlinear_arith)
                    requires
                        i < actual,
                        expected >= 0,
                ;
            }
            match read_frame_v4(&mut reader, &vc) {
                Some(q) => frames.push(q),
                None => {
                    return Err(Error::Truncated);
                },
            }
        }
        proof {
            assert(frames@ =~= Seq::new(
                actual as nat,
                |i: int| spec_frame_v4(strm, i * (expected as int), vc),
            ));
        }
        Ok((CompressedTrack::Vector4 { compression: vc, default, frames }, false))
}

/// Reads a compressed track blob, yielding its descriptor, default and
/// quantized frames; see [`spec_read_compressed`] for the exact outcome.
pub fn read_compressed(track_data: &[u8], kind: TrackTypeV2, count: usize) -> (r: Result<
    (CompressedTrack, bool),
    Error,
>)
    requires
        track_data@.len() <= usize::MAX as int / 8,
    ensures
        match r {
            Ok((track, comp)) => spec_read_compressed(track_data@, kind, count as int) == Ok::<
                _,
                Error,
            >((track@, comp)),
            Err(e) => spec_read_compressed(track_data@, kind, count as int) == Err::<
                (CompressedTrackView, bool),
                _,
            >(e),
        },
{
    match kind {
        TrackTypeV2::Transform => read_compressed_transform(track_data, count),
        TrackTypeV2::UvTransform => read_compressed_uv(track_data, count),
        TrackTypeV2::Float => read_compressed_float(track_data, count),
        TrackTypeV2::PatternIndex => read_compressed_pattern(track_data, count),
        TrackTypeV2::Boolean => read_compressed_boolean(track_data, count),
        TrackTypeV2::Vector4 => read_compressed_vector4(track_data, count),
    }
}

/// Whether a quantized component agrees with its descriptor: absent
/// exactly when the component takes no bits, and otherwise within range.
pub open spec fn q_wf(v: Option<u32>, c: F32Compression) -> bool {
    match v {
        None => eff_bits(c) == 0,
        Some(q) => eff_bits(c) > 0 && (q as u64) < (1u64 << (c.bit_count as u64)),
    }
}

/// Whether a quantized three-component record agrees with its descriptors.
pub open spec fn qv3_wf(f: QuantizedVector3, c: Vector3Compression) -> bool {
    &&& q_wf(f.x, c.x)
    &&& q_wf(f.y, c.y)
    &&& q_wf(f.z, c.z)
}

/// A component's value is unchanged when its own bits are.
proof fn lemma_q_comp_stable(s1: Seq<u8>, s2: Seq<u8>, pos: int, c: F32Compression)
    requires
        forall|b: int| pos <= b < pos + eff_bits(c) ==> stream_bit(s1, b) == stream_bit(s2, b),
    ensures
        q_comp(s1, pos, c) == q_comp(s2, pos, c),
{
    if eff_bits(c) != 0 {
        crate::bitio::lemma_bits_val_stable(s1, s2, pos, c.bit_count as nat);
    }
}

/// Writes one quantized component at the cursor.
fn write_q_comp(w: &mut BitWriter, v: Option<u32>, c: &F32Compression)
    requires
        old(w).wf(),
        c.bit_count <= MAX_BIT_COUNT,
        q_wf(v, *c),
        old(w).pos + eff_bits(*c) <= 8 * old(w).data@.len(),
    ensures
        final(w).wf(),
        final(w).data@.len() == old(w).data@.len(),
        final(w).pos == old(w).pos + eff_bits(*c),
        q_comp(final(w).data@, old(w).pos as int, *c) == v,
        forall|b: int|
            0 <= b < 8 * old(w).data@.len() && !(old(w).pos <= b < old(w).pos + eff_bits(*c))
                ==> #[trigger] stream_bit(final(w).data@, b) == stream_bit(old(w).data@, b),
{
    match v {
        None => {},
        Some(q) => {
            w.write(q as u64, c.bit_count as usize);
            proof {
                crate::bitio::lemma_bits_val_from_bits(
                    w.data@,
                    old(w).pos as int,
                    c.bit_count as nat,
                    q as u64,
                );
            }
        },
    }
}

/// Writes one quantized three-component record at the cursor.
fn write_frame_v3q(w: &mut BitWriter, f: QuantizedVector3, c: &Vector3Compression)
    requires
        old(w).wf(),
        v3c_wf(*c),
        qv3_wf(f, *c),
        old(w).pos + v3_bits(*c) <= 8 * old(w).data@.len(),
    ensures
        final(w).wf(),
        final(w).data@.len() == old(w).data@.len(),
        final(w).pos == old(w).pos + v3_bits(*c),
        spec_frame_v3(final(w).data@, old(w).pos as int, *c) == f,
        forall|b: int|
            0 <= b < 8 * old(w).data@.len() && !(old(w).pos <= b < old(w).pos + v3_bits(*c))
                ==> #[trigger] stream_bit(final(w).data@, b) == stream_bit(old(w).data@, b),
{
    let ghost p0 = old(w).pos as int;
    write_q_comp(w, f.x, &c.x);
    let ghost d1 = w.data@;
    write_q_comp(w, f.y, &c.y);
    let ghost d2 = w.data@;
    write_q_comp(w, f.z, &c.z);
    proof {
        lemma_q_comp_stable(w.data@, d2, p0, c.x);
        lemma_q_comp_stable(d2, d1, p0, c.x);
        lemma_q_comp_stable(w.data@, d2, p0 + eff_bits(c.x), c.y);
    }
}

/// Writes one quantized four-component record at the cursor.
fn write_frame_v4q(w: &mut BitWriter, f: QuantizedVector4, c: &Vector4Compression)
    requires
        old(w).wf(),
        c.x.bit_count <= MAX_BIT_COUNT,
        c.y.bit_count <= MAX_BIT_COUNT,
        c.z.bit_count <= MAX_BIT_COUNT,
        c.w.bit_count <= MAX_BIT_COUNT,
        q_wf(f.x, c.x),
        q_wf(f.y, c.y),
        q_wf(f.z, c.z),
        q_wf(f.w, c.w),
        old(w).pos + crate::compression::v4_bits(*c) <= 8 * old(w).data@.len(),
    ensures
        final(w).wf(),
        final(w).data@.len() == old(w).data@.len(),
        final(w).pos == old(w).pos + crate::compression::v4_bits(*c),
        spec_frame_v4(final(w).data@, old(w).pos as int, *c) == f,
        forall|b: int|
            0 <= b < 8 * old(w).data@.len() && !(old(w).pos <= b < old(w).pos
                + crate::compression::v4_bits(*c)) ==> #[trigger] stream_bit(final(w).data@, b)
                == stream_bit(old(w).data@, b),
{
    let ghost p0 = old(w).pos as int;
    write_q_comp(w, f.x, &c.x);
    let ghost d1 = w.data@;
    write_q_comp(w, f.y, &c.y);
    let ghost d2 = w.data@;
    write_q_comp(w, f.z, &c.z);
    let ghost d3 = w.data@;
    write_q_comp(w, f.w, &c.w);
    proof {
        lemma_q_comp_stable(w.data@, d3, p0, c.x);
        lemma_q_comp_stable(d3, d2, p0, c.x);
        lemma_q_comp_stable(d2, d1, p0, c.x);
        lemma_q_comp_stable(w.data@, d3, p0 + eff_bits(c.x), c.y);
        lemma_q_comp_stable(d3, d2, p0 + eff_bits(c.x), c.y);
        lemma_q_comp_stable(w.data@, d3, p0 + eff_bits(c.x) + eff_bits(c.y), c.z);
    }
}

/// Whether a quantized texture-transform record agrees with descriptor and
/// flags: under uniform scale nothing is stored for the second axis.
pub open spec fn quv_wf(
    f: QuantizedUvTransform,
    c: UvTransformCompression,
    flags: CompressionFlags,
) -> bool {
    &&& q_wf(f.scale_u, c.scale_u)
    &&& if flags.uniform_scale {
        f.scale_v is None
    } else {
        q_wf(f.scale_v, c.scale_v)
    }
    &&& q_wf(f.rotation, c.rotation)
    &&& q_wf(f.translate_u, c.translate_u)
    &&& q_wf(f.translate_v, c.translate_v)
}

/// Writes one quantized texture-transform record at the cursor.
#[verifier::rlimit(100)]
fn write_frame_uvq(
    w: &mut BitWriter,
    f: QuantizedUvTransform,
    c: &UvTransformCompression,
    flags: CompressionFlags,
)
    requires
        old(w).wf(),
        c.scale_u.bit_count <= MAX_BIT_COUNT,
        c.scale_v.bit_count <= MAX_BIT_COUNT,
        c.rotation.bit_count <= MAX_BIT_COUNT,
        c.translate_u.bit_count <= MAX_BIT_COUNT,
        c.translate_v.bit_count <= MAX_BIT_COUNT,
        quv_wf(f, *c, flags),
        old(w).pos + uv_bits(*c, flags) <= 8 * old(w).data@.len(),
    ensures
        final(w).wf(),
        final(w).data@.len() == old(w).data@.len(),
        final(w).pos == old(w).pos + uv_bits(*c, flags),
        spec_frame_uv(final(w).data@, old(w).pos as int, *c, flags) == f,
        forall|b: int|
            0 <= b < 8 * old(w).data@.len() && !(old(w).pos <= b < old(w).pos + uv_bits(*c, flags))
                ==> #[trigger] stream_bit(final(w).data@, b) == stream_bit(old(w).data@, b),
{
    let ghost p0 = old(w).pos as int;
    write_q_comp(w, f.scale_u, &c.scale_u);
    let ghost d_su = w.data@;
    if !flags.uniform_scale {
        write_q_comp(w, f.scale_v, &c.scale_v);
    }
    let ghost p1 = w.pos as int;
    let ghost d1 = w.data@;
    proof {
        lemma_q_comp_stable(d1, d_su, p0, c.scale_u);
    }
    write_q_comp(w, f.rotation, &c.rotation);
    let ghost d2 = w.data@;
    write_q_comp(w, f.translate_u, &c.translate_u);
    let ghost d3 = w.data@;
    write_q_comp(w, f.translate_v, &c.translate_v);
    proof {
        lemma_q_comp_stable(w.data@, d3, p0, c.scale_u);
        lemma_q_comp_stable(d3, d2, p0, c.scale_u);
        lemma_q_comp_stable(d2, d1, p0, c.scale_u);
        if !flags.uniform_scale {
            lemma_q_comp_stable(w.data@, d3, p0 + eff_bits(c.scale_u), c.scale_v);
            lemma_q_comp_stable(d3, d2, p0 + eff_bits(c.scale_u), c.scale_v);
            lemma_q_comp_stable(d2, d1, p0 + eff_bits(c.scale_u), c.scale_v);
        }
        lemma_q_comp_stable(w.data@, d3, p1, c.rotation);
        lemma_q_comp_stable(d3, d2, p1, c.rotation);
        lemma_q_comp_stable(w.data@, d3, p1 + eff_bits(c.rotation), c.translate_u);
        assert(q_comp(w.data@, p0, c.scale_u) == f.scale_u);
        assert(q_comp(w.data@, p1, c.rotation) == f.rotation);
        assert(q_comp(w.data@, p1 + eff_bits(c.rotation), c.translate_u) == f.translate_u);
        assert(q_comp(
            w.data@,
            p1 + eff_bits(c.rotation) + eff_bits(c.translate_u),
            c.translate_v,
        ) == f.translate_v);
        if !flags.uniform_scale {
            assert(q_comp(w.data@, p0 + eff_bits(c.scale_u), c.scale_v) == f.scale_v);
        }
        assert(spec_frame_uv(w.data@, p0, *c, flags) == f);
    }
}

/// Whether a quantized transform record agrees with descriptor and flags.
pub open spec fn qtransform_wf(
    f: QuantizedTransform,
    c: TransformCompression,
    flags: CompressionFlags,
) -> bool {
    &&& if flags.uniform_scale {
        q_wf(f.scale.x, c.scale.x) && f.scale.y is None && f.scale.z is None
    } else {
        qv3_wf(f.scale, c.scale)
    }
    &&& qv3_wf(f.rotation, c.rotation)
    &&& qv3_wf(f.translation, c.translation)
    &&& (f.flip_w is Some <==> flags.has_rotation)
}

/// Writes one quantized transform record at the cursor.
#[verifier::rlimit(100)]
fn write_frame_transformq(
    w: &mut BitWriter,
    f: QuantizedTransform,
    c: &TransformCompression,
    flags: CompressionFlags,
)
    requires
        old(w).wf(),
        tc_wf(*c),
        qtransform_wf(f, *c, flags),
        old(w).pos + transform_bits(*c, flags) <= 8 * old(w).data@.len(),
    ensures
        final(w).wf(),
        final(w).data@.len() == old(w).data@.len(),
        final(w).pos == old(w).pos + transform_bits(*c, flags),
        spec_frame_transform(final(w).data@, old(w).pos as int, *c, flags) == f,
        forall|b: int|
            0 <= b < 8 * old(w).data@.len() && !(old(w).pos <= b < old(w).pos + transform_bits(
                *c,
                flags,
            )) ==> #[trigger] stream_bit(final(w).data@, b) == stream_bit(old(w).data@, b),
{
    let ghost p0 = old(w).pos as int;
    if flags.uniform_scale {
        write_q_comp(w, f.scale.x, &c.scale.x);
    } else {
        write_frame_v3q(w, f.scale, &c.scale);
    }
    let ghost p1 = w.pos as int;
    let ghost d1 = w.data@;
    write_frame_v3q(w, f.rotation, &c.rotation);
    let ghost p2 = w.pos as int;
    let ghost d2 = w.data@;
    write_frame_v3q(w, f.translation, &c.translation);
    let ghost p3 = w.pos as int;
    let ghost d3 = w.data@;
    if flags.has_rotation {
        let bit: u64 = match f.flip_w {
            Some(true) => 1,
            _ => 0,
        };
        w.write(bit, 1);
        proof {
            assert(((bit >> 0u64) & 1 == 1) == (bit == 1)) by (bit_vector)
                requires
                    bit == 0u64 || bit == 1u64,
            ;
            assert(stream_bit(w.data@, p3) == (f.flip_w == Some(true)));
            assert(f.flip_w matches Some(fw) && stream_bit(w.data@, p3) == fw);
        }
    }
    proof {
        let fin = w.data@;
        // The scale block is untouched by everything after it.
        if flags.uniform_scale {
            lemma_q_comp_stable(fin, d3, p0, c.scale.x);
            lemma_q_comp_stable(d3, d2, p0, c.scale.x);
            lemma_q_comp_stable(d2, d1, p0, c.scale.x);
        } else {
            lemma_frame_v3_stable(fin, d3, p0, c.scale);
            lemma_frame_v3_stable(d3, d2, p0, c.scale);
            lemma_frame_v3_stable(d2, d1, p0, c.scale);
        }
        lemma_frame_v3_stable(fin, d3, p1, c.rotation);
        lemma_frame_v3_stable(d3, d2, p1, c.rotation);
        lemma_frame_v3_stable(fin, d3, p2, c.translation);
    }
}

/// A three-component record's value is unchanged when its own bits are.
proof fn lemma_frame_v3_stable(s1: Seq<u8>, s2: Seq<u8>, pos: int, c: Vector3Compression)
    requires
        forall|b: int| pos <= b < pos + v3_bits(c) ==> stream_bit(s1, b) == stream_bit(s2, b),
    ensures
        spec_frame_v3(s1, pos, c) == spec_frame_v3(s2, pos, c),
{
    lemma_q_comp_stable(s1, s2, pos, c.x);
    lemma_q_comp_stable(s1, s2, pos + eff_bits(c.x), c.y);
    lemma_q_comp_stable(s1, s2, pos + eff_bits(c.x) + eff_bits(c.y), c.z);
}

/// Appends the 16-byte header record.
fn push_header(out: &mut Vec<u8>, flags_word: u16, dp: u16, bpe: u16, cp: u32, frame_count: u32)
    requires
        old(out)@.len() == 0,
    ensures
        final(out)@.len() == 16,
        le16(final(out)@, 0) == 4,
        le16(final(out)@, 2) == flags_word,
        le16(final(out)@, 4) == dp,
        le16(final(out)@, 6) == bpe,
        le32(final(out)@, 8) == cp,
        le32(final(out)@, 12) == frame_count,
{
    let ghost s0 = out@;
    push_u16(out, 4);
    let ghost s1 = out@;
    proof {
        lemma_record_stable(s0, s1, 2);
    }
    push_u16(out, flags_word);
    let ghost s2 = out@;
    proof {
        lemma_record_stable(s1, s2, 2);
    }
    push_u16(out, dp);
    let ghost s3 = out@;
    proof {
        lemma_record_stable(s2, s3, 2);
    }
    push_u16(out, bpe);
    let ghost s4 = out@;
    proof {
        lemma_record_stable(s3, s4, 2);
    }
    push_u32(out, cp);
    let ghost s5 = out@;
    proof {
        lemma_record_stable(s4, s5, 4);
    }
    push_u32(out, frame_count);
    proof {
        lemma_record_stable(s5, out@, 4);
    }
}

/// Appends a three-component descriptor block.
fn push_v3c(out: &mut Vec<u8>, c: Vector3Compression)
    ensures
        final(out)@.len() == old(out)@.len() + 48,
        final(out)@.subrange(0, old(out)@.len() as int) == old(out)@,
        spec_parse_v3c(final(out)@, old(out)@.len() as int) == c,
{
    let ghost s0 = out@;
    push_f32c(out, c.x);
    let ghost s1 = out@;
    proof {
        lemma_record_stable(s0, s1, 16);
    }
    push_f32c(out, c.y);
    let ghost s2 = out@;
    proof {
        lemma_record_stable(s1, s2, 16);
    }
    push_f32c(out, c.z);
    proof {
        lemma_record_stable(s2, out@, 16);
        assert(final(out)@.subrange(0, old(out)@.len() as int) =~= old(out)@);
    }
}

/// Whether a scalar compressed track is well formed: bit count in range
/// and every frame agreeing with the descriptor.
pub open spec fn float_track_wf(c: F32Compression, frames: Seq<Option<u32>>) -> bool {
    &&& c.bit_count <= MAX_BIT_COUNT
    &&& (forall|i: int| 0 <= i < frames.len() ==> q_wf(#[trigger] frames[i], c))
}

/// Serialises a compressed scalar track: header, descriptor, default, and
/// one quantized field per frame.  Reading the result back with the same
/// frame count restores the track exactly, except that a zero-bit track
/// with frames collapses to its first frame.
#[verifier::rlimit(100)]
pub fn write_compressed_float(c: F32Compression, default: u32, frames: &Vec<Option<u32>>) -> (r:
    Vec<u8>)
    requires
        float_track_wf(c, frames@),
        frames@.len() <= u32::MAX,
        36 + (frames@.len() * eff_bits(c) + 7) / 8 <= usize::MAX as int / 8,
    ensures
        r@.len() == 36 + (frames@.len() * eff_bits(c) + 7) / 8,
        spec_read_compressed(r@, TrackTypeV2::Float, frames@.len() as int) == Ok::<_, Error>(
            (
                CompressedTrackView::Float {
                    compression: c,
                    default,
                    frames: if eff_bits(c) == 0 && frames@.len() > 0 {
                        frames@.take(1)
                    } else {
                        frames@
                    },
                },
                false,
            ),
        ),
        spec_parse_header(r@).unk_4 == 4,
        spec_parse_header(r@).frame_count == frames@.len() as u32,
        spec_parse_header(r@).default_data_ptr == 32,
        spec_parse_header(r@).compressed_data_ptr == 36,
        le16(r@, 2) == 0,
        forall|b: int|
            frames@.len() * eff_bits(c) <= b < 8 * (r@.len() - 36) ==> !(#[trigger] stream_bit(
                r@.subrange(36, r@.len() as int),
                b,
            )),
{
    let bpe: u64 = c.bit_count();
    let n_frames: usize = frames.len();
    let total_bits: u128 = (n_frames as u128) * (bpe as u128);
    proof {
        assert((n_frames as int) * (bpe as int) <= 0xffffffffffffffff * 0x20int)
            by (nonlinear_arith)
            requires
                0 <= n_frames <= 0xffffffffffffffff,
                0 <= bpe <= 0x20,
        ;
    }
    let stream_bytes: usize = (((total_bits + 7) / 8) as usize);
    let mut out: Vec<u8> = Vec::new();
    let ghost s0 = out@;
    push_u16(&mut out, 4);
    let ghost s1 = out@;
    proof {
        lemma_record_stable(s0, s1, 2);
    }
    push_u16(&mut out, 0);
    let ghost s2 = out@;
    proof {
        lemma_record_stable(s1, s2, 2);
    }
    push_u16(&mut out, 32);
    let ghost s3 = out@;
    proof {
        lemma_record_stable(s2, s3, 2);
    }
    push_u16(&mut out, bpe as u16);
    let ghost s4 = out@;
    proof {
        lemma_record_stable(s3, s4, 2);
    }
    push_u32(&mut out, 36);
    let ghost s5 = out@;
    proof {
        lemma_record_stable(s4, s5, 4);
    }
    push_u32(&mut out, n_frames as u32);
    let ghost s6 = out@;
    proof {
        lemma_record_stable(s5, s6, 4);
    }
    push_f32c(&mut out, c);
    let ghost s7 = out@;
    proof {
        lemma_record_stable(s6, s7, 16);
    }
    push_u32(&mut out, default);
    let ghost head = out@;
    proof {
        lemma_record_stable(s7, head, 4);
        assert(head.len() == 36);
        assert(spec_parse_header(head) == (CompressedHeader {
            unk_4: 4u16,
            flags: spec_flags_from_bits(0),
            default_data_ptr: 32u16,
            bits_per_entry: bpe as u16,
            compressed_data_ptr: 36u32,
            frame_count: n_frames as u32,
        }));
        assert(spec_parse_f32c(head, 16) == c);
        assert(le32(head, 32) == default);
    }
    proof {
        assert(0 * (bpe as int) == 0) by (nonlinear_arith);
        assert(n_frames * (bpe as int) <= 8 * ((n_frames * (bpe as int) + 7) / 8))
            by (nonlinear_arith);
    }
    let mut bw = BitWriter::with_capacity(stream_bytes);
    for i in 0..n_frames
        invariant
            bw.wf(),
            bw.data@.len() == stream_bytes,
            bpe == eff_bits(c),
            c.bit_count <= MAX_BIT_COUNT,
            float_track_wf(c, frames@),
            n_frames == frames@.len(),
            n_frames * (bpe as int) <= 8 * stream_bytes,
            bw.pos == i * (bpe as int),
            forall|j: int| 0 <= j < i ==> q_comp(bw.data@, j * (bpe as int), c) == frames@[j],
    {
        proof {
            assert(i * (bpe as int) + bpe == (i + 1) * (bpe as int)) by (nonlinear_arith);
            assert((i + 1) * (bpe as int) <= n_frames * (bpe as int)) by (nonlinear_arith)
                requires
                    i < n_frames,
                    bpe >= 0,
            ;
        }
        let ghost data_before = bw.data@;
        let ghost pos_before = bw.pos;
        write_q_comp(&mut bw, frames[i], &c);
        proof {
            assert forall|j: int| 0 <= j < i implies q_comp(bw.data@, j * (bpe as int), c)
                == frames@[j] by {
                assert((j + 1) * (bpe as int) <= i * (bpe as int)) by (nonlinear_arith)
                    requires
                        j < i,
                        bpe >= 0,
                ;
                assert(j * (bpe as int) + bpe == (j + 1) * (bpe as int)) by (nonlinear_arith);
                lemma_q_comp_stable(bw.data@, data_before, j * (bpe as int), c);
            }
        }
    }
    proof {
        assert(forall|b: int|
            n_frames * (bpe as int) <= b < 8 * bw.data@.len() ==> !(#[trigger] stream_bit(
                bw.data@,
                b,
            )));
    }
    let stream = bw.into_bytes();
    let ghost base = out@;
    let sn = stream.len();
    for k in 0..sn
        invariant
            sn == stream@.len(),
            out@ == base + stream@.take(k as int),
    {
        out.push(stream[k]);
        proof {
            assert(out@ =~= base + stream@.take(k + 1));
        }
    }
    proof {
        assert(out@ =~= base + stream@);
        assert(out@.subrange(0, 36) =~= head);
        lemma_record_stable(head, out@, stream_bytes as int);
        assert(out@.subrange(36, out@.len() as int) =~= stream@);
        assert(spec_parse_header(out@) == spec_parse_header(head));
        assert(le16(out@, 2) == le16(head, 2));
        assert(spec_parse_f32c(out@, 16) == spec_parse_f32c(head, 16));
        assert(le32(out@, 32) == le32(head, 32));
        lemma_float_parse_back(out@, c, default, frames@, stream@);
        assert(forall|b: int|
            n_frames * (bpe as int) <= b < 8 * (out@.len() - 36) ==> !(#[trigger] stream_bit(
                out@.subrange(36, out@.len() as int),
                b,
            )));
    }
    out
}

/// A blob with the canonical scalar layout and a bitstream holding the
/// frames' fields parses back to the track.
proof fn lemma_float_parse_back(
    fin: Seq<u8>,
    c: F32Compression,
    default: u32,
    frames: Seq<Option<u32>>,
    stream: Seq<u8>,
)
    requires
        float_track_wf(c, frames),
        frames.len() <= u32::MAX,
        fin.len() == 36 + stream.len(),
        8 * stream.len() <= usize::MAX,
        stream.len() == (frames.len() * eff_bits(c) + 7) / 8,
        fin.subrange(36, fin.len() as int) == stream,
        spec_parse_header(fin) == (CompressedHeader {
            unk_4: 4u16,
            flags: spec_flags_from_bits(0),
            default_data_ptr: 32u16,
            bits_per_entry: eff_bits(c) as u16,
            compressed_data_ptr: 36u32,
            frame_count: frames.len() as u32,
        }),
        spec_parse_f32c(fin, 16) == c,
        le32(fin, 32) == default,
        forall|j: int|
            0 <= j < frames.len() ==> q_comp(stream, j * eff_bits(c), c) == frames[j],
    ensures
        spec_read_compressed(fin, TrackTypeV2::Float, frames.len() as int) == Ok::<_, Error>(
            (
                CompressedTrackView::Float {
                    compression: c,
                    default,
                    frames: if eff_bits(c) == 0 && frames.len() > 0 {
                        frames.take(1)
                    } else {
                        frames
                    },
                },
                false,
            ),
        ),
{
    let bpe = eff_bits(c);
    let n_total = fin.len() as int;
    let expected = spec_expected_bits(fin, TrackTypeV2::Float, spec_parse_header(fin).flags);
    assert(expected == bpe);
    let actual = spec_actual_count(expected, frames.len() as int);
    assert(actual * expected <= 8 * (n_total - 36)) by {
        if expected > 0 {
            assert(frames.len() * bpe <= 8 * ((frames.len() * bpe + 7) / 8)) by (nonlinear_arith);
        } else {
            assert(actual * 0int == 0) by (nonlinear_arith);
        }
    }
    let view = spec_compressed_view(fin, TrackTypeV2::Float, frames.len() as int);
    assert(view matches CompressedTrackView::Float { compression, default: d2, frames: fr }
        && compression == c && d2 == default && fr == (if bpe == 0 && frames.len() > 0 {
        frames.take(1)
    } else {
        frames
    })) by {
        let fr2 = Seq::new(actual as nat, |i: int| q_comp(stream, i * bpe, c));
        if bpe == 0 && frames.len() > 0 {
            assert(fr2 =~= frames.take(1));
        } else {
            assert(fr2 =~= frames);
        }
    }
}

/// Serialises a compressed boolean track: header with one bit per entry,
/// sixteen reserved descriptor bytes, a zero default byte, and one bit per
/// frame.  Reading the result back with the same count restores the values.
#[verifier::rlimit(100)]
pub fn write_compressed_booleans(values: &Vec<bool>) -> (r: Vec<u8>)
    requires
        values@.len() <= u32::MAX,
        33 + (values@.len() + 7) / 8 <= usize::MAX as int / 8,
    ensures
        r@.len() == 33 + (values@.len() + 7) / 8,
        spec_read_compressed(r@, TrackTypeV2::Boolean, values@.len() as int) == Ok::<_, Error>(
            (CompressedTrackView::Boolean { values: values@ }, false),
        ),
        spec_parse_header(r@).unk_4 == 4,
        spec_parse_header(r@).frame_count == values@.len() as u32,
        spec_parse_header(r@).default_data_ptr == 32,
        spec_parse_header(r@).compressed_data_ptr == 33,
        le16(r@, 2) == 0,
        forall|b: int|
            values@.len() * 1 <= b < 8 * (r@.len() - 33) ==> !(#[trigger] stream_bit(
                r@.subrange(33, r@.len() as int),
                b,
            )),
        forall|k: int| 16 <= k < 33 ==> r@[k] == 0u8,
{
    let n_frames: usize = values.len();
    let stream_bytes: usize = n_frames / 8 + if n_frames % 8 == 0 {
        0
    } else {
        1
    };
    proof {
        assert(stream_bytes == (n_frames + 7) / 8);
    }
    let mut out: Vec<u8> = Vec::new();
    let ghost s0 = out@;
    push_u16(&mut out, 4);
    let ghost s1 = out@;
    proof {
        lemma_record_stable(s0, s1, 2);
    }
    push_u16(&mut out, 0);
    let ghost s2 = out@;
    proof {
        lemma_record_stable(s1, s2, 2);
    }
    push_u16(&mut out, 32);
    let ghost s3 = out@;
    proof {
        lemma_record_stable(s2, s3, 2);
    }
    push_u16(&mut out, 1);
    let ghost s4 = out@;
    proof {
        lemma_record_stable(s3, s4, 2);
    }
    push_u32(&mut out, 33);
    let ghost s5 = out@;
    proof {
        lemma_record_stable(s4, s5, 4);
    }
    push_u32(&mut out, n_frames as u32);
    let ghost s6 = out@;
    proof {
        lemma_record_stable(s5, s6, 4);
    }
    push_u64(&mut out, 0);
    let ghost s7 = out@;
    proof {
        lemma_record_stable(s6, s7, 8);
    }
    push_u64(&mut out, 0);
    let ghost s8 = out@;
    proof {
        lemma_record_stable(s7, s8, 8);
    }
    push_u8(&mut out, 0);
    let ghost head = out@;
    proof {
        lemma_record_stable(s8, head, 1);
        assert(head.len() == 33);
        assert(spec_parse_header(head) == (CompressedHeader {
            unk_4: 4u16,
            flags: spec_flags_from_bits(0),
            default_data_ptr: 32u16,
            bits_per_entry: 1u16,
            compressed_data_ptr: 33u32,
            frame_count: n_frames as u32,
        }));
    }
    let mut bw = BitWriter::with_capacity(stream_bytes);
    for i in 0..n_frames
        invariant
            bw.wf(),
            bw.data@.len() == stream_bytes,
            n_frames == values@.len(),
            n_frames <= 8 * stream_bytes,
            bw.pos == i,
            forall|j: int| 0 <= j < i ==> (bits_val(bw.data@, j, 1) != 0) == values@[j],
    {
        let bit: u64 = if values[i] {
            1
        } else {
            0
        };
        let ghost data_before = bw.data@;
        bw.write(bit, 1);
        proof {
            assert(bit < (1u64 << 1u64) && ((bit >> 0u64) & 1 == 1) == (bit == 1)) by (bit_vector)
                requires
                    bit == 0u64 || bit == 1u64,
            ;
            crate::bitio::lemma_bits_val_from_bits(bw.data@, i as int, 1, bit);
            assert forall|j: int| 0 <= j < i implies (bits_val(bw.data@, j, 1) != 0)
                == values@[j] by {
                crate::bitio::lemma_bits_val_stable(bw.data@, data_before, j, 1);
            }
        }
    }
    proof {
        assert(forall|b: int|
            n_frames <= b < 8 * bw.data@.len() ==> !(#[trigger] stream_bit(bw.data@, b)));
    }
    let stream = bw.into_bytes();
    let ghost base = out@;
    let sn = stream.len();
    for k in 0..sn
        invariant
            sn == stream@.len(),
            out@ == base + stream@.take(k as int),
    {
        out.push(stream[k]);
        proof {
            assert(out@ =~= base + stream@.take(k + 1));
        }
    }
    proof {
        assert(out@ =~= base + stream@);
        assert(out@.subrange(0, 33) =~= head);
        lemma_record_stable(head, out@, stream_bytes as int);
        assert(out@.subrange(33, out@.len() as int) =~= stream@);
        assert(spec_parse_header(out@) == spec_parse_header(head));
        assert(le16(out@, 2) == le16(head, 2));
        assert(forall|b: int|
            n_frames <= b < 8 * (out@.len() - 33) ==> !(#[trigger] stream_bit(
                out@.subrange(33, out@.len() as int),
                b,
            )));
        assert(le64(out@, 16) == le64(head, 16) && le64(out@, 24) == le64(head, 24) && out@[32]
            == head[32]);
        assert forall|k: int| 16 <= k < 33 implies out@[k] == 0u8 by {
            if 16 <= k < 24 {
                assert(le64(out@, 16) == 0);
            } else if k < 32 {
                assert(le64(out@, 24) == 0);
            }
        }
        let fr2 = Seq::new(
            n_frames as nat,
            |i: int| bits_val(out@.subrange(33, out@.len() as int), i * 1, 1) != 0,
        );
        assert(fr2 =~= values@) by {
            assert(forall|i: int| 0 <= i < n_frames ==> #[trigger] (i * 1) == i)
                by (nonlinear_arith);
        }
    }
    out
}

/// Whether a pattern-index compressed track is well formed: bit count in
/// range and every value reachable from the minimum in that many bits.
pub open spec fn pattern_track_wf(c: U32Compression, values: Seq<u32>) -> bool {
    &&& c.bit_count <= MAX_BIT_COUNT
    &&& (forall|i: int|
        0 <= i < values.len() ==> c.min <= #[trigger] values[i] && ((values[i] - c.min) as u64) < (
        1u64 << (c.bit_count as u64)))
}

/// Serialises a compressed pattern-index track; each frame stores its
/// value's offset from the descriptor minimum.  Reading the result back
/// with the same count restores the values, except that a zero-bit track
/// with values collapses to its first value.
#[verifier::rlimit(100)]
pub fn write_compressed_pattern(c: U32Compression, default: u32, values: &Vec<u32>) -> (r: Vec<
    u8,
>)
    requires
        pattern_track_wf(c, values@),
        values@.len() <= u32::MAX,
        36 + (values@.len() * (c.bit_count as int) + 7) / 8 <= usize::MAX as int / 8,
    ensures
        r@.len() == 36 + (values@.len() * (c.bit_count as int) + 7) / 8,
        spec_read_compressed(r@, TrackTypeV2::PatternIndex, values@.len() as int) == Ok::<
            _,
            Error,
        >(
            (
                CompressedTrackView::PatternIndex {
                    compression: c,
                    default,
                    values: if c.bit_count == 0 && values@.len() > 0 {
                        values@.take(1)
                    } else {
                        values@
                    },
                },
                false,
            ),
        ),
        spec_parse_header(r@).unk_4 == 4,
        spec_parse_header(r@).frame_count == values@.len() as u32,
        spec_parse_header(r@).default_data_ptr == 32,
        spec_parse_header(r@).compressed_data_ptr == 36,
        le16(r@, 2) == 0,
        forall|b: int|
            values@.len() * (c.bit_count as int) <= b < 8 * (r@.len() - 36) ==> !(#[trigger] stream_bit(
                r@.subrange(36, r@.len() as int),
                b,
            )),
{
    let bpe: u64 = c.bit_count;
    let n_frames: usize = values.len();
    let total_bits: u128 = (n_frames as u128) * (bpe as u128);
    proof {
        assert((n_frames as int) * (bpe as int) <= 0xffffffffffffffff * 0x20int)
            by (nonlinear_arith)
            requires
                0 <= n_frames <= 0xffffffffffffffff,
                0 <= bpe <= 0x20,
        ;
    }
    let stream_bytes: usize = (((total_bits + 7) / 8) as usize);
    let mut out: Vec<u8> = Vec::new();
    let ghost s0 = out@;
    push_u16(&mut out, 4);
    let ghost s1 = out@;
    proof {
        lemma_record_stable(s0, s1, 2);
    }
    push_u16(&mut out, 0);
    let ghost s2 = out@;
    proof {
        lemma_record_stable(s1, s2, 2);
    }
    push_u16(&mut out, 32);
    let ghost s3 = out@;
    proof {
        lemma_record_stable(s2, s3, 2);
    }
    push_u16(&mut out, bpe as u16);
    let ghost s4 = out@;
    proof {
        lemma_record_stable(s3, s4, 2);
    }
    push_u32(&mut out, 36);
    let ghost s5 = out@;
    proof {
        lemma_record_stable(s4, s5, 4);
    }
    push_u32(&mut out, n_frames as u32);
    let ghost s6 = out@;
    proof {
        lemma_record_stable(s5, s6, 4);
    }
    push_u32c(&mut out, c);
    let ghost s7 = out@;
    proof {
        lemma_record_stable(s6, s7, 16);
    }
    push_u32(&mut out, default);
    let ghost head = out@;
    proof {
        lemma_record_stable(s7, head, 4);
        assert(head.len() == 36);
        assert(spec_parse_header(head) == (CompressedHeader {
            unk_4: 4u16,
            flags: spec_flags_from_bits(0),
            default_data_ptr: 32u16,
            bits_per_entry: bpe as u16,
            compressed_data_ptr: 36u32,
            frame_count: n_frames as u32,
        }));
        assert(spec_parse_u32c(head, 16) == c);
        assert(le32(head, 32) == default);
    }
    proof {
        assert(0 * (bpe as int) == 0) by (nonlinear_arith);
        assert(n_frames * (bpe as int) <= 8 * ((n_frames * (bpe as int) + 7) / 8))
            by (nonlinear_arith);
    }
    let mut bw = BitWriter::with_capacity(stream_bytes);
    for i in 0..n_frames
        invariant
            bw.wf(),
            bw.data@.len() == stream_bytes,
            bpe == c.bit_count,
            pattern_track_wf(c, values@),
            n_frames == values@.len(),
            n_frames * (bpe as int) <= 8 * stream_bytes,
            bw.pos == i * (bpe as int),
            forall|j: int|
                0 <= j < i ==> spec_frame_pattern(bw.data@, j * (bpe as int), c) == values@[j],
    {
        proof {
            assert(i * (bpe as int) + bpe == (i + 1) * (bpe as int)) by (nonlinear_arith);
            assert((i + 1) * (bpe as int) <= n_frames * (bpe as int)) by (nonlinear_arith)
                requires
                    i < n_frames,
                    bpe >= 0,
            ;
        }
        let stored: u32 = values[i] - c.min;
        let ghost data_before = bw.data@;
        let ghost pos_before = bw.pos;
        bw.write(stored as u64, bpe as usize);
        proof {
            crate::bitio::lemma_bits_val_from_bits(
                bw.data@,
                pos_before as int,
                bpe as nat,
                stored as u64,
            );
            assert(spec_frame_pattern(bw.data@, pos_before as int, c) == values@[i as int]);
            assert forall|j: int| 0 <= j < i implies spec_frame_pattern(
                bw.data@,
                j * (bpe as int),
                c,
            ) == values@[j] by {
                assert((j + 1) * (bpe as int) <= i * (bpe as int)) by (nonlinear_arith)
                    requires
                        j < i,
                        bpe >= 0,
                ;
                assert(j * (bpe as int) + bpe == (j + 1) * (bpe as int)) by (nonlinear_arith);
                crate::bitio::lemma_bits_val_stable(
                    bw.data@,
                    data_before,
                    j * (bpe as int),
                    bpe as nat,
                );
            }
        }
    }
    proof {
        assert(forall|b: int|
            n_frames * (bpe as int) <= b < 8 * bw.data@.len() ==> !(#[trigger] stream_bit(
                bw.data@,
                b,
            )));
    }
    let stream = bw.into_bytes();
    let ghost base = out@;
    let sn = stream.len();
    for k in 0..sn
        invariant
            sn == stream@.len(),
            out@ == base + stream@.take(k as int),
    {
        out.push(stream[k]);
        proof {
            assert(out@ =~= base + stream@.take(k + 1));
        }
    }
    proof {
        assert(out@ =~= base + stream@);
        assert(out@.subrange(0, 36) =~= head);
        lemma_record_stable(head, out@, stream_bytes as int);
        assert(out@.subrange(36, out@.len() as int) =~= stream@);
        assert(spec_parse_header(out@) == spec_parse_header(head));
        assert(le16(out@, 2) == le16(head, 2));
        assert(forall|b: int|
            n_frames * (bpe as int) <= b < 8 * (out@.len() - 36) ==> !(#[trigger] stream_bit(
                out@.subrange(36, out@.len() as int),
                b,
            )));
        assert(spec_parse_u32c(out@, 16) == spec_parse_u32c(head, 16));
        assert(le32(out@, 32) == le32(head, 32));
        let expected = spec_expected_bits(
            out@,
            TrackTypeV2::PatternIndex,
            spec_parse_header(out@).flags,
        );
        assert(expected == bpe);
        let actual = spec_actual_count(expected, n_frames as int);
        assert(actual * expected <= 8 * (out@.len() - 36)) by {
            if expected > 0 {
                assert(n_frames * (bpe as int) <= 8 * ((n_frames * (bpe as int) + 7) / 8))
                    by (nonlinear_arith);
            } else {
                assert(actual * 0int == 0) by (nonlinear_arith);
            }
        }
        let fr2 = Seq::new(actual as nat, |i: int| spec_frame_pattern(stream@, i * (bpe as int), c));
        if bpe == 0 && n_frames > 0 {
            assert(spec_frame_pattern(stream@, 0 * (0int), c) == values@[0]);
            assert(fr2 =~= values@.take(1));
        } else {
            assert(fr2 =~= values@);
        }
    }
    out
}

/// Whether a four-component compressed track is well formed.
pub open spec fn v4_track_wf(c: Vector4Compression, frames: Seq<QuantizedVector4>) -> bool {
    &&& c.x.bit_count <= MAX_BIT_COUNT
    &&& c.y.bit_count <= MAX_BIT_COUNT
    &&& c.z.bit_count <= MAX_BIT_COUNT
    &&& c.w.bit_count <= MAX_BIT_COUNT
    &&& (forall|i: int|
        0 <= i < frames.len() ==> {
            &&& q_wf((#[trigger] frames[i]).x, c.x)
            &&& q_wf(frames[i].y, c.y)
            &&& q_wf(frames[i].z, c.z)
            &&& q_wf(frames[i].w, c.w)
        })
}

/// Serialises a compressed four-component track.  Reading the result back
/// with the same frame count restores the track exactly, except that a
/// zero-bit track with frames collapses to its first frame.
#[verifier::rlimit(100)]
pub fn write_compressed_vector4(
    c: Vector4Compression,
    default: Vector4,
    frames: &Vec<QuantizedVector4>,
) -> (r: Vec<u8>)
    requires
        v4_track_wf(c, frames@),
        frames@.len() <= u32::MAX,
        96 + (frames@.len() * crate::compression::v4_bits(c) + 7) / 8 <= usize::MAX as int / 8,
    ensures
        r@.len() == 96 + (frames@.len() * crate::compression::v4_bits(c) + 7) / 8,
        spec_read_compressed(r@, TrackTypeV2::Vector4, frames@.len() as int) == Ok::<_, Error>(
            (
                CompressedTrackView::Vector4 {
                    compression: c,
                    default,
                    frames: if crate::compression::v4_bits(c) == 0 && frames@.len() > 0 {
                        frames@.take(1)
                    } else {
                        frames@
                    },
                },
                false,
            ),
        ),
        spec_parse_header(r@).unk_4 == 4,
        spec_parse_header(r@).frame_count == frames@.len() as u32,
        spec_parse_header(r@).default_data_ptr == 80,
        spec_parse_header(r@).compressed_data_ptr == 96,
        le16(r@, 2) == 0,
        forall|b: int|
            frames@.len() * crate::compression::v4_bits(c) <= b < 8 * (r@.len() - 96) ==> !(#[trigger] stream_bit(
                r@.subrange(96, r@.len() as int),
                b,
            )),
{
    let bpe: u64 = c.bit_count();
    let ghost bpe_i = crate::compression::v4_bits(c);
    let n_frames: usize = frames.len();
    let total_bits: u128 = (n_frames as u128) * (bpe as u128);
    proof {
        assert((n_frames as int) * (bpe as int) <= 0xffffffffffffffff * 0x80int)
            by (nonlinear_arith)
            requires
                0 <= n_frames <= 0xffffffffffffffff,
                0 <= bpe <= 0x80,
        ;
    }
    let stream_bytes: usize = (((total_bits + 7) / 8) as usize);
    let mut out: Vec<u8> = Vec::new();
    push_header(&mut out, 0, 80, bpe as u16, 96, n_frames as u32);
    let ghost h16 = out@;
    push_f32c(&mut out, c.x);
    let ghost s1 = out@;
    proof {
        lemma_record_stable(h16, s1, 16);
    }
    push_f32c(&mut out, c.y);
    let ghost s2 = out@;
    proof {
        lemma_record_stable(s1, s2, 16);
    }
    push_f32c(&mut out, c.z);
    let ghost s3 = out@;
    proof {
        lemma_record_stable(s2, s3, 16);
    }
    push_f32c(&mut out, c.w);
    let ghost s4 = out@;
    proof {
        lemma_record_stable(s3, s4, 16);
    }
    push_v4(&mut out, default);
    let ghost head = out@;
    proof {
        lemma_record_stable(s4, head, 16);
        assert(head.len() == 96);
        assert(spec_parse_header(head) == (CompressedHeader {
            unk_4: 4u16,
            flags: spec_flags_from_bits(0),
            default_data_ptr: 80u16,
            bits_per_entry: bpe as u16,
            compressed_data_ptr: 96u32,
            frame_count: n_frames as u32,
        }));
        assert(spec_parse_v4c(head) == c);
        assert(spec_parse_v4(head, 80) == default);
    }
    proof {
        assert(0 * bpe_i == 0) by (nonlinear_arith);
        assert(n_frames * bpe_i <= 8 * ((n_frames * bpe_i + 7) / 8)) by (nonlinear_arith);
    }
    let mut bw = BitWriter::with_capacity(stream_bytes);
    for i in 0..n_frames
        invariant
            bw.wf(),
            bw.data@.len() == stream_bytes,
            bpe == bpe_i,
            bpe_i == crate::compression::v4_bits(c),
            v4_track_wf(c, frames@),
            n_frames == frames@.len(),
            n_frames * bpe_i <= 8 * stream_bytes,
            bw.pos == i * bpe_i,
            forall|j: int| 0 <= j < i ==> spec_frame_v4(bw.data@, j * bpe_i, c) == frames@[j],
    {
        proof {
            assert(i * bpe_i + bpe_i == (i + 1) * bpe_i) by (nonlinear_arith);
            assert((i + 1) * bpe_i <= n_frames * bpe_i) by (nonlinear_arith)
                requires
                    i < n_frames,
                    bpe_i >= 0,
            ;
        }
        let ghost data_before = bw.data@;
        write_frame_v4q(&mut bw, frames[i], &c);
        proof {
            assert forall|j: int| 0 <= j < i implies spec_frame_v4(bw.data@, j * bpe_i, c)
                == frames@[j] by {
                assert((j + 1) * bpe_i <= i * bpe_i) by (nonlinear_arith)
                    requires
                        j < i,
                        bpe_i >= 0,
                ;
                assert(j * bpe_i + bpe_i == (j + 1) * bpe_i) by (nonlinear_arith);
                lemma_frame_v4_stable(bw.data@, data_before, j * bpe_i, c);
            }
        }
    }
    proof {
        assert(forall|b: int|
            n_frames * bpe_i <= b < 8 * bw.data@.len() ==> !(#[trigger] stream_bit(
                bw.data@,
                b,
            )));
    }
    let stream = bw.into_bytes();
    let ghost base = out@;
    let sn = stream.len();
    for k in 0..sn
        invariant
            sn == stream@.len(),
            out@ == base + stream@.take(k as int),
    {
        out.push(stream[k]);
        proof {
            assert(out@ =~= base + stream@.take(k + 1));
        }
    }
    proof {
        assert(out@ =~= base + stream@);
        assert(out@.subrange(0, 96) =~= head);
        lemma_record_stable(head, out@, stream_bytes as int);
        assert(out@.subrange(96, out@.len() as int) =~= stream@);
        assert(spec_parse_header(out@) == spec_parse_header(head));
        assert(le16(out@, 2) == le16(head, 2));
        assert(forall|b: int|
            n_frames * bpe_i <= b < 8 * (out@.len() - 96) ==> !(#[trigger] stream_bit(
                out@.subrange(96, out@.len() as int),
                b,
            )));
        assert(spec_parse_v4c(out@) == spec_parse_v4c(head));
        assert(spec_parse_v4(out@, 80) == spec_parse_v4(head, 80));
        let expected = spec_expected_bits(out@, TrackTypeV2::Vector4, spec_parse_header(out@).flags);
        assert(expected == bpe_i);
        let actual = spec_actual_count(expected, n_frames as int);
        assert(actual * expected <= 8 * (out@.len() - 96)) by {
            if expected > 0 {
                assert(n_frames * bpe_i <= 8 * ((n_frames * bpe_i + 7) / 8)) by (nonlinear_arith);
            } else {
                assert(actual * 0int == 0) by (nonlinear_arith);
            }
        }
        let fr2 = Seq::new(actual as nat, |i: int| spec_frame_v4(stream@, i * bpe_i, c));
        if bpe_i == 0 && n_frames > 0 {
            assert(spec_frame_v4(stream@, 0 * bpe_i, c) == frames@[0]);
            assert(fr2 =~= frames@.take(1));
        } else {
            assert(fr2 =~= frames@);
        }
    }
    out
}

/// A four-component record's value is unchanged when its own bits are.
proof fn lemma_frame_v4_stable(s1: Seq<u8>, s2: Seq<u8>, pos: int, c: Vector4Compression)
    requires
        forall|b: int|
            pos <= b < pos + crate::compression::v4_bits(c) ==> stream_bit(s1, b) == stream_bit(
                s2,
                b,
            ),
    ensures
        spec_frame_v4(s1, pos, c) == spec_frame_v4(s2, pos, c),
{
    lemma_q_comp_stable(s1, s2, pos, c.x);
    lemma_q_comp_stable(s1, s2, pos + eff_bits(c.x), c.y);
    lemma_q_comp_stable(s1, s2, pos + eff_bits(c.x) + eff_bits(c.y), c.z);
    lemma_q_comp_stable(s1, s2, pos + eff_bits(c.x) + eff_bits(c.y) + eff_bits(c.z), c.w);
}

/// A texture-transform record's value is unchanged when its own bits are.
proof fn lemma_frame_uv_stable(
    s1: Seq<u8>,
    s2: Seq<u8>,
    pos: int,
    c: UvTransformCompression,
    flags: CompressionFlags,
)
    requires
        forall|b: int| pos <= b < pos + uv_bits(c, flags) ==> stream_bit(s1, b) == stream_bit(s2, b),
    ensures
        spec_frame_uv(s1, pos, c, flags) == spec_frame_uv(s2, pos, c, flags),
{
    lemma_q_comp_stable(s1, s2, pos, c.scale_u);
    if !flags.uniform_scale {
        lemma_q_comp_stable(s1, s2, pos + eff_bits(c.scale_u), c.scale_v);
    }
    let p1 = pos + (if flags.uniform_scale {
        eff_bits(c.scale_u)
    } else {
        eff_bits(c.scale_u) + eff_bits(c.scale_v)
    });
    lemma_q_comp_stable(s1, s2, p1, c.rotation);
    lemma_q_comp_stable(s1, s2, p1 + eff_bits(c.rotation), c.translate_u);
    lemma_q_comp_stable(s1, s2, p1 + eff_bits(c.rotation) + eff_bits(c.translate_u), c.translate_v);
}

/// A transform record's value is unchanged when its own bits are.
proof fn lemma_frame_transform_stable(
    s1: Seq<u8>,
    s2: Seq<u8>,
    pos: int,
    c: TransformCompression,
    flags: CompressionFlags,
)
    requires
        forall|b: int|
            pos <= b < pos + transform_bits(c, flags) ==> stream_bit(s1, b) == stream_bit(s2, b),
    ensures
        spec_frame_transform(s1, pos, c, flags) == spec_frame_transform(s2, pos, c, flags),
{
    if flags.uniform_scale {
        lemma_q_comp_stable(s1, s2, pos, c.scale.x);
    } else {
        lemma_frame_v3_stable(s1, s2, pos, c.scale);
    }
    let p1 = pos + (if flags.uniform_scale {
        eff_bits(c.scale.x)
    } else {
        v3_bits(c.scale)
    });
    lemma_frame_v3_stable(s1, s2, p1, c.rotation);
    lemma_frame_v3_stable(s1, s2, p1 + v3_bits(c.rotation), c.translation);
}

/// Whether a texture-transform compressed track is well formed.
pub open spec fn uv_track_wf(
    c: UvTransformCompression,
    flags: CompressionFlags,
    frames: Seq<QuantizedUvTransform>,
) -> bool {
    &&& c.scale_u.bit_count <= MAX_BIT_COUNT
    &&& c.scale_v.bit_count <= MAX_BIT_COUNT
    &&& c.rotation.bit_count <= MAX_BIT_COUNT
    &&& c.translate_u.bit_count <= MAX_BIT_COUNT
    &&& c.translate_v.bit_count <= MAX_BIT_COUNT
    &&& (forall|i: int| 0 <= i < frames.len() ==> quv_wf(#[trigger] frames[i], c, flags))
}

/// Serialises a compressed texture-transform track under the given flags.
/// Reading the result back with the same frame count restores the track
/// exactly, except that a zero-bit track with frames collapses to its
/// first frame.
#[verifier::rlimit(100)]
pub fn write_compressed_uv_transform(
    flags: CompressionFlags,
    c: UvTransformCompression,
    default: UvTransform,
    frames: &Vec<QuantizedUvTransform>,
) -> (r: Vec<u8>)
    requires
        uv_track_wf(c, flags, frames@),
        frames@.len() <= u32::MAX,
        116 + (frames@.len() * uv_bits(c, flags) + 7) / 8 <= usize::MAX as int / 8,
    ensures
        r@.len() == 116 + (frames@.len() * uv_bits(c, flags) + 7) / 8,
        spec_read_compressed(r@, TrackTypeV2::UvTransform, frames@.len() as int) == Ok::<
            _,
            Error,
        >(
            (
                CompressedTrackView::UvTransform {
                    flags,
                    compression: c,
                    default,
                    frames: if uv_bits(c, flags) == 0 && frames@.len() > 0 {
                        frames@.take(1)
                    } else {
                        frames@
                    },
                },
                false,
            ),
        ),
        spec_parse_header(r@).unk_4 == 4,
        spec_parse_header(r@).frame_count == frames@.len() as u32,
        spec_parse_header(r@).default_data_ptr == 96,
        spec_parse_header(r@).compressed_data_ptr == 116,
        le16(r@, 2) == flags_bits(flags),
        forall|b: int|
            frames@.len() * uv_bits(c, flags) <= b < 8 * (r@.len() - 116) ==> !(#[trigger] stream_bit(
                r@.subrange(116, r@.len() as int),
                b,
            )),
{
    let bpe: u64 = c.bit_count(flags);
    let ghost bpe_i = uv_bits(c, flags);
    let n_frames: usize = frames.len();
    let total_bits: u128 = (n_frames as u128) * (bpe as u128);
    proof {
        assert((n_frames as int) * (bpe as int) <= 0xffffffffffffffff * 0xa0int)
            by (nonlinear_arith)
            requires
                0 <= n_frames <= 0xffffffffffffffff,
                0 <= bpe <= 0xa0,
        ;
    }
    let stream_bytes: usize = (((total_bits + 7) / 8) as usize);
    let mut out: Vec<u8> = Vec::new();
    push_header(&mut out, flags.to_bits(), 96, bpe as u16, 116, n_frames as u32);
    let ghost h16 = out@;
    push_f32c(&mut out, c.scale_u);
    let ghost s1 = out@;
    proof {
        lemma_record_stable(h16, s1, 16);
    }
    push_f32c(&mut out, c.scale_v);
    let ghost s2 = out@;
    proof {
        lemma_record_stable(s1, s2, 16);
    }
    push_f32c(&mut out, c.rotation);
    let ghost s3 = out@;
    proof {
        lemma_record_stable(s2, s3, 16);
    }
    push_f32c(&mut out, c.translate_u);
    let ghost s4 = out@;
    proof {
        lemma_record_stable(s3, s4, 16);
    }
    push_f32c(&mut out, c.translate_v);
    let ghost s5 = out@;
    proof {
        lemma_record_stable(s4, s5, 16);
    }
    push_uvt(&mut out, default);
    let ghost head = out@;
    proof {
        lemma_record_stable(s5, head, 20);
        assert(head.len() == 116);
        lemma_flags_round_trip(flags);
        assert(spec_parse_header(head) == (CompressedHeader {
            unk_4: 4u16,
            flags,
            default_data_ptr: 96u16,
            bits_per_entry: bpe as u16,
            compressed_data_ptr: 116u32,
            frame_count: n_frames as u32,
        }));
        assert(spec_parse_uvc(head) == c);
        assert(spec_parse_uvt(head, 96) == default);
    }
    proof {
        assert(0 * bpe_i == 0) by (nonlinear_arith);
        assert(n_frames * bpe_i <= 8 * ((n_frames * bpe_i + 7) / 8)) by (nonlinear_arith);
    }
    let mut bw = BitWriter::with_capacity(stream_bytes);
    for i in 0..n_frames
        invariant
            bw.wf(),
            bw.data@.len() == stream_bytes,
            bpe == bpe_i,
            bpe_i == uv_bits(c, flags),
            uv_track_wf(c, flags, frames@),
            n_frames == frames@.len(),
            n_frames * bpe_i <= 8 * stream_bytes,
            bw.pos == i * bpe_i,
            forall|j: int|
                0 <= j < i ==> spec_frame_uv(bw.data@, j * bpe_i, c, flags) == frames@[j],
    {
        proof {
            assert(i * bpe_i + bpe_i == (i + 1) * bpe_i) by (nonlinear_arith);
            assert((i + 1) * bpe_i <= n_frames * bpe_i) by (nonlinear_arith)
                requires
                    i < n_frames,
                    bpe_i >= 0,
            ;
        }
        let ghost data_before = bw.data@;
        write_frame_uvq(&mut bw, frames[i], &c, flags);
        proof {
            assert forall|j: int| 0 <= j < i implies spec_frame_uv(bw.data@, j * bpe_i, c, flags)
                == frames@[j] by {
                assert((j + 1) * bpe_i <= i * bpe_i) by (nonlinear_arith)
                    requires
                        j < i,
                        bpe_i >= 0,
                ;
                assert(j * bpe_i + bpe_i == (j + 1) * bpe_i) by (nonlinear_arith);
                lemma_frame_uv_stable(bw.data@, data_before, j * bpe_i, c, flags);
            }
        }
    }
    proof {
        assert(forall|b: int|
            n_frames * bpe_i <= b < 8 * bw.data@.len() ==> !(#[trigger] stream_bit(
                bw.data@,
                b,
            )));
    }
    let stream = bw.into_bytes();
    let ghost base = out@;
    let sn = stream.len();
    for k in 0..sn
        invariant
            sn == stream@.len(),
            out@ == base + stream@.take(k as int),
    {
        out.push(stream[k]);
        proof {
            assert(out@ =~= base + stream@.take(k + 1));
        }
    }
    proof {
        assert(out@ =~= base + stream@);
        assert(out@.subrange(0, 116) =~= head);
        lemma_record_stable(head, out@, stream_bytes as int);
        assert(out@.subrange(116, out@.len() as int) =~= stream@);
        assert(spec_parse_header(out@) == spec_parse_header(head));
        assert(le16(out@, 2) == le16(head, 2));
        assert(forall|b: int|
            n_frames * bpe_i <= b < 8 * (out@.len() - 116) ==> !(#[trigger] stream_bit(
                out@.subrange(116, out@.len() as int),
                b,
            )));
        assert(spec_parse_uvc(out@) == spec_parse_uvc(head));
        assert(spec_parse_uvt(out@, 96) == spec_parse_uvt(head, 96));
        let expected = spec_expected_bits(
            out@,
            TrackTypeV2::UvTransform,
            spec_parse_header(out@).flags,
        );
        assert(expected == bpe_i);
        let actual = spec_actual_count(expected, n_frames as int);
        assert(actual * expected <= 8 * (out@.len() - 116)) by {
            if expected > 0 {
                assert(n_frames * bpe_i <= 8 * ((n_frames * bpe_i + 7) / 8)) by (nonlinear_arith);
            } else {
                assert(actual * 0int == 0) by (nonlinear_arith);
            }
        }
        let fr2 = Seq::new(actual as nat, |i: int| spec_frame_uv(stream@, i * bpe_i, c, flags));
        if bpe_i == 0 && n_frames > 0 {
            assert(spec_frame_uv(stream@, 0 * bpe_i, c, flags) == frames@[0]);
            assert(fr2 =~= frames@.take(1));
        } else {
            assert(fr2 =~= frames@);
        }
    }
    out
}

/// Whether a transform compressed track is well formed.
pub open spec fn transform_track_wf(
    c: TransformCompression,
    flags: CompressionFlags,
    frames: Seq<QuantizedTransform>,
) -> bool {
    &&& tc_wf(c)
    &&& (forall|i: int| 0 <= i < frames.len() ==> qtransform_wf(#[trigger] frames[i], c, flags))
}

/// Serialises a compressed transform track under the given flags; the
/// default's compensation word carries the track's scale-compensation flag.
/// Reading the result back with the same frame count restores the track
/// exactly, except that a zero-bit track with frames collapses to its
/// first frame.
#[verifier::rlimit(100)]
pub fn write_compressed_transform(
    flags: CompressionFlags,
    c: TransformCompression,
    default: UncompressedTransform,
    frames: &Vec<QuantizedTransform>,
) -> (r: Vec<u8>)
    requires
        transform_track_wf(c, flags, frames@),
        frames@.len() <= u32::MAX,
        204 + (frames@.len() * transform_bits(c, flags) + 7) / 8 <= usize::MAX as int / 8,
    ensures
        r@.len() == 204 + (frames@.len() * transform_bits(c, flags) + 7) / 8,
        spec_read_compressed(r@, TrackTypeV2::Transform, frames@.len() as int) == Ok::<_, Error>(
            (
                CompressedTrackView::Transform {
                    flags,
                    compression: c,
                    default,
                    frames: if transform_bits(c, flags) == 0 && frames@.len() > 0 {
                        frames@.take(1)
                    } else {
                        frames@
                    },
                },
                default.compensate_scale != 0,
            ),
        ),
        spec_parse_header(r@).unk_4 == 4,
        spec_parse_header(r@).frame_count == frames@.len() as u32,
        spec_parse_header(r@).default_data_ptr == 160,
        spec_parse_header(r@).compressed_data_ptr == 204,
        le16(r@, 2) == flags_bits(flags),
        forall|b: int|
            frames@.len() * transform_bits(c, flags) <= b < 8 * (r@.len() - 204) ==> !(#[trigger] stream_bit(
                r@.subrange(204, r@.len() as int),
                b,
            )),
{
    let bpe: u64 = c.bit_count(flags);
    let ghost bpe_i = transform_bits(c, flags);
    let n_frames: usize = frames.len();
    let total_bits: u128 = (n_frames as u128) * (bpe as u128);
    proof {
        assert((n_frames as int) * (bpe as int) <= 0xffffffffffffffff * 0x200int)
            by (nonlinear_arith)
            requires
                0 <= n_frames <= 0xffffffffffffffff,
                0 <= bpe <= 0x200,
        ;
    }
    let stream_bytes: usize = (((total_bits + 7) / 8) as usize);
    let mut out: Vec<u8> = Vec::new();
    push_header(&mut out, flags.to_bits(), 160, bpe as u16, 204, n_frames as u32);
    let ghost h16 = out@;
    push_v3c(&mut out, c.scale);
    let ghost s1 = out@;
    proof {
        lemma_record_stable(h16, s1, 48);
    }
    push_v3c(&mut out, c.rotation);
    let ghost s2 = out@;
    proof {
        lemma_record_stable(s1, s2, 48);
    }
    push_v3c(&mut out, c.translation);
    let ghost s3 = out@;
    proof {
        lemma_record_stable(s2, s3, 48);
    }
    push_ut(&mut out, default);
    let ghost head = out@;
    proof {
        lemma_record_stable(s3, head, 44);
        assert(head.len() == 204);
        lemma_flags_round_trip(flags);
        assert(spec_parse_header(head) == (CompressedHeader {
            unk_4: 4u16,
            flags,
            default_data_ptr: 160u16,
            bits_per_entry: bpe as u16,
            compressed_data_ptr: 204u32,
            frame_count: n_frames as u32,
        }));
        assert(spec_parse_tc(head) == c);
        assert(spec_parse_ut(head, 160) == default);
    }
    proof {
        assert(0 * bpe_i == 0) by (nonlinear_arith);
        assert(n_frames * bpe_i <= 8 * ((n_frames * bpe_i + 7) / 8)) by (nonlinear_arith);
    }
    let mut bw = BitWriter::with_capacity(stream_bytes);
    for i in 0..n_frames
        invariant
            bw.wf(),
            bw.data@.len() == stream_bytes,
            bpe == bpe_i,
            bpe_i == transform_bits(c, flags),
            transform_track_wf(c, flags, frames@),
            n_frames == frames@.len(),
            n_frames * bpe_i <= 8 * stream_bytes,
            bw.pos == i * bpe_i,
            forall|j: int|
                0 <= j < i ==> spec_frame_transform(bw.data@, j * bpe_i, c, flags) == frames@[j],
    {
        proof {
            assert(i * bpe_i + bpe_i == (i + 1) * bpe_i) by (nonlinear_arith);
            assert((i + 1) * bpe_i <= n_frames * bpe_i) by (nonlinear_arith)
                requires
                    i < n_frames,
                    bpe_i >= 0,
            ;
        }
        let ghost data_before = bw.data@;
        write_frame_transformq(&mut bw, frames[i], &c, flags);
        proof {
            assert forall|j: int| 0 <= j < i implies spec_frame_transform(
                bw.data@,
                j * bpe_i,
                c,
                flags,
            ) == frames@[j] by {
                assert((j + 1) * bpe_i <= i * bpe_i) by (nonlinear_arith)
                    requires
                        j < i,
                        bpe_i >= 0,
                ;
                assert(j * bpe_i + bpe_i == (j + 1) * bpe_i) by (nonlinear_arith);
                lemma_frame_transform_stable(bw.data@, data_before, j * bpe_i, c, flags);
            }
        }
    }
    proof {
        assert(forall|b: int|
            n_frames * bpe_i <= b < 8 * bw.data@.len() ==> !(#[trigger] stream_bit(
                bw.data@,
                b,
            )));
    }
    let stream = bw.into_bytes();
    let ghost base = out@;
    let sn = stream.len();
    for k in 0..sn
        invariant
            sn == stream@.len(),
            out@ == base + stream@.take(k as int),
    {
        out.push(stream[k]);
        proof {
            assert(out@ =~= base + stream@.take(k + 1));
        }
    }
    proof {
        assert(out@ =~= base + stream@);
        assert(out@.subrange(0, 204) =~= head);
        lemma_record_stable(head, out@, stream_bytes as int);
        assert(out@.subrange(204, out@.len() as int) =~= stream@);
        assert(spec_parse_header(out@) == spec_parse_header(head));
        assert(le16(out@, 2) == le16(head, 2));
        assert(forall|b: int|
            n_frames * bpe_i <= b < 8 * (out@.len() - 204) ==> !(#[trigger] stream_bit(
                out@.subrange(204, out@.len() as int),
                b,
            )));
        assert(spec_parse_tc(out@) == spec_parse_tc(head));
        assert(spec_parse_ut(out@, 160) == spec_parse_ut(head, 160));
        let expected = spec_expected_bits(
            out@,
            TrackTypeV2::Transform,
            spec_parse_header(out@).flags,
        );
        assert(expected == bpe_i);
        let actual = spec_actual_count(expected, n_frames as int);
        assert(actual * expected <= 8 * (out@.len() - 204)) by {
            if expected > 0 {
                assert(n_frames * bpe_i <= 8 * ((n_frames * bpe_i + 7) / 8)) by (nonlinear_arith);
            } else {
                assert(actual * 0int == 0) by (nonlinear_arith);
            }
        }
        let fr2 = Seq::new(
            actual as nat,
            |i: int| spec_frame_transform(stream@, i * bpe_i, c, flags),
        );
        if bpe_i == 0 && n_frames > 0 {
            assert(spec_frame_transform(stream@, 0 * bpe_i, c, flags) == frames@[0]);
            assert(fr2 =~= frames@.take(1));
        } else {
            assert(fr2 =~= frames@);
        }
    }
    out
}

/// The IEEE minimum over the first `k` samples; zero when there are none.
pub open spec fn fold_min_u32(s: Seq<u32>, k: int) -> u32
    decreases k,
{
    if k <= 0 {
        0u32
    } else if k == 1 {
        s[0]
    } else {
        crate::floatbits::float_min(fold_min_u32(s, k - 1), s[k - 1])
    }
}

/// The IEEE maximum over the first `k` samples; zero when there are none.
pub open spec fn fold_max_u32(s: Seq<u32>, k: int) -> u32
    decreases k,
{
    if k <= 0 {
        0u32
    } else if k == 1 {
        s[0]
    } else {
        crate::floatbits::float_max(fold_max_u32(s, k - 1), s[k - 1])
    }
}

/// The component-wise IEEE minimum over the first `k` vectors.
pub open spec fn fold_min_v3(s: Seq<Vector3>, k: int) -> Vector3
    decreases k,
{
    if k <= 0 {
        Vector3 { x: 0u32, y: 0u32, z: 0u32 }
    } else if k == 1 {
        s[0]
    } else {
        crate::vectors::spec_vector3_min(fold_min_v3(s, k - 1), s[k - 1])
    }
}

/// The component-wise IEEE maximum over the first `k` vectors.
pub open spec fn fold_max_v3(s: Seq<Vector3>, k: int) -> Vector3
    decreases k,
{
    if k <= 0 {
        Vector3 { x: 0u32, y: 0u32, z: 0u32 }
    } else if k == 1 {
        s[0]
    } else {
        crate::vectors::spec_vector3_max(fold_max_v3(s, k - 1), s[k - 1])
    }
}

/// The component-wise IEEE minimum over the first `k` vectors.
pub open spec fn fold_min_v4(s: Seq<Vector4>, k: int) -> Vector4
    decreases k,
{
    if k <= 0 {
        Vector4 { x: 0u32, y: 0u32, z: 0u32, w: 0u32 }
    } else if k == 1 {
        s[0]
    } else {
        crate::vectors::spec_vector4_min(fold_min_v4(s, k - 1), s[k - 1])
    }
}

/// The component-wise IEEE maximum over the first `k` vectors.
pub open spec fn fold_max_v4(s: Seq<Vector4>, k: int) -> Vector4
    decreases k,
{
    if k <= 0 {
        Vector4 { x: 0u32, y: 0u32, z: 0u32, w: 0u32 }
    } else if k == 1 {
        s[0]
    } else {
        crate::vectors::spec_vector4_max(fold_max_v4(s, k - 1), s[k - 1])
    }
}

/// The IEEE minimum of a sample list; zero when it is empty.
pub fn find_min_u32(values: &Vec<u32>) -> (r: u32)
    ensures
        r == fold_min_u32(values@, values@.len() as int),
{
    let mut acc: u32 = 0;
    let n = values.len();
    for i in 0..n
        invariant
            n == values@.len(),
            acc == fold_min_u32(values@, i as int),
    {
        if i == 0 {
            acc = values[i];
        } else {
            acc = crate::floatbits::min_bits(acc, values[i]);
        }
    }
    acc
}

/// The IEEE maximum of a sample list; zero when it is empty.
pub fn find_max_u32(values: &Vec<u32>) -> (r: u32)
    ensures
        r == fold_max_u32(values@, values@.len() as int),
{
    let mut acc: u32 = 0;
    let n = values.len();
    for i in 0..n
        invariant
            n == values@.len(),
            acc == fold_max_u32(values@, i as int),
    {
        if i == 0 {
            acc = values[i];
        } else {
            acc = crate::floatbits::max_bits(acc, values[i]);
        }
    }
    acc
}

/// The canonical default and descriptor of a scalar track: the observed
/// minimum as the default, and the full-range descriptor.
pub fn float_default_and_compression(values: &Vec<u32>) -> (r: (u32, F32Compression))
    ensures
        r.0 == fold_min_u32(values@, values@.len() as int),
        r.1 == crate::compression::spec_from_range(
            fold_min_u32(values@, values@.len() as int),
            fold_max_u32(values@, values@.len() as int),
        ),
{
    let min = find_min_u32(values);
    let max = find_max_u32(values);
    (min, F32Compression::from_range(min, max))
}

/// The canonical default and descriptor of a four-component track.
pub fn vector4_default_and_compression(values: &Vec<Vector4>) -> (r: (Vector4, Vector4Compression))
    ensures
        r.0 == fold_min_v4(values@, values@.len() as int),
        r.1 == (Vector4Compression {
            x: crate::compression::spec_from_range(
                fold_min_v4(values@, values@.len() as int).x,
                fold_max_v4(values@, values@.len() as int).x,
            ),
            y: crate::compression::spec_from_range(
                fold_min_v4(values@, values@.len() as int).y,
                fold_max_v4(values@, values@.len() as int).y,
            ),
            z: crate::compression::spec_from_range(
                fold_min_v4(values@, values@.len() as int).z,
                fold_max_v4(values@, values@.len() as int).z,
            ),
            w: crate::compression::spec_from_range(
                fold_min_v4(values@, values@.len() as int).w,
                fold_max_v4(values@, values@.len() as int).w,
            ),
        }),
{
    let mut min = Vector4::zero();
    let mut max = Vector4::zero();
    let n = values.len();
    for i in 0..n
        invariant
            n == values@.len(),
            min == fold_min_v4(values@, i as int),
            max == fold_max_v4(values@, i as int),
    {
        if i == 0 {
            min = values[i];
            max = values[i];
        } else {
            min = min.min(values[i]);
            max = max.max(values[i]);
        }
    }
    (min, Vector4Compression::from_range(min, max))
}

/// Whether the first `k` transform samples all have equal scale components.
pub open spec fn spec_transform_uniform(s: Seq<Transform>, k: int) -> bool {
    forall|i: int|
        0 <= i < k ==> crate::floatbits::float_eq((#[trigger] s[i]).scale.x, s[i].scale.y)
            && crate::floatbits::float_eq(s[i].scale.x, s[i].scale.z)
}

/// Whether the first `k` texture-transform samples all have equal scales.
pub open spec fn spec_uv_uniform(s: Seq<UvTransform>, k: int) -> bool {
    forall|i: int|
        0 <= i < k ==> crate::floatbits::float_eq((#[trigger] s[i]).scale_u, s[i].scale_v)
}

/// The flag word the canonical writer derives from the samples: transform
/// and texture-transform tracks carry rotation and translation, and
/// uniform scale exactly when every sample's scale components are equal;
/// other kinds leave every flag clear.
pub open spec fn spec_flags_from_track(v: TrackValuesView) -> CompressionFlags {
    match v {
        TrackValuesView::Transform(s) => CompressionFlags {
            const_scale: false,
            uniform_scale: spec_transform_uniform(s, s.len() as int),
            has_rotation: true,
            has_translation: true,
        },
        TrackValuesView::UvTransform(s) => CompressionFlags {
            const_scale: false,
            uniform_scale: spec_uv_uniform(s, s.len() as int),
            has_rotation: true,
            has_translation: true,
        },
        _ => CompressionFlags {
            const_scale: false,
            uniform_scale: false,
            has_rotation: false,
            has_translation: false,
        },
    }
}

impl CompressionFlags {
    /// Derives the canonical flag word for the given samples.
    pub fn from_track(values: &TrackValues) -> (r: CompressionFlags)
        ensures
            r == spec_flags_from_track(values@),
    {
        match values {
            TrackValues::Transform(s) => {
                let mut uniform = true;
                let n = s.len();
                for i in 0..n
                    invariant
                        n == s@.len(),
                        uniform == spec_transform_uniform(s@, i as int),
                {
                    let t = &s[i];
                    let ok = crate::floatbits::eq_bits(t.scale.x, t.scale.y)
                        && crate::floatbits::eq_bits(t.scale.x, t.scale.z);
                    let ghost was_uniform = uniform;
                    if !ok {
                        uniform = false;
                    }
                    proof {
                        if uniform {
                            assert forall|j: int| 0 <= j < i + 1 implies crate::floatbits::float_eq(
                                (#[trigger] s@[j]).scale.x,
                                s@[j].scale.y,
                            ) && crate::floatbits::float_eq(s@[j].scale.x, s@[j].scale.z) by {
                                if j < i {
                                    assert(spec_transform_uniform(s@, i as int));
                                }
                            }
                            assert(spec_transform_uniform(s@, i + 1));
                        } else {
                            if !ok {
                                assert(!spec_transform_uniform(s@, i + 1));
                            } else {
                                assert(!spec_transform_uniform(s@, i as int));
                                assert(!spec_transform_uniform(s@, i + 1));
                            }
                        }
                    }
                }
                let flags = CompressionFlags {
                    const_scale: false,
                    uniform_scale: uniform,
                    has_rotation: true,
                    has_translation: true,
                };
                proof {
                    assert(values@ == TrackValuesView::Transform(s@));
                }
                flags
            },
            TrackValues::UvTransform(s) => {
                let mut uniform = true;
                let n = s.len();
                for i in 0..n
                    invariant
                        n == s@.len(),
                        uniform == spec_uv_uniform(s@, i as int),
                {
                    let t = &s[i];
                    let ok = crate::floatbits::eq_bits(t.scale_u, t.scale_v);
                    if !ok {
                        uniform = false;
                    }
                    proof {
                        if uniform {
                            assert forall|j: int| 0 <= j < i + 1 implies crate::floatbits::float_eq(
                                (#[trigger] s@[j]).scale_u,
                                s@[j].scale_v,
                            ) by {
                                if j < i {
                                    assert(spec_uv_uniform(s@, i as int));
                                }
                            }
                            assert(spec_uv_uniform(s@, i + 1));
                        } else {
                            if !ok {
                                assert(!spec_uv_uniform(s@, i + 1));
                            } else {
                                assert(!spec_uv_uniform(s@, i as int));
                                assert(!spec_uv_uniform(s@, i + 1));
                            }
                        }
                    }
                }
                let flags = CompressionFlags {
                    const_scale: false,
                    uniform_scale: uniform,
                    has_rotation: true,
                    has_translation: true,
                };
                proof {
                    assert(values@ == TrackValuesView::UvTransform(s@));
                }
                flags
            },
            _ => CompressionFlags {
                const_scale: false,
                uniform_scale: false,
                has_rotation: false,
                has_translation: false,
            },
        }
    }
}

/// The canonical default and descriptor of a texture-transform track:
/// per-component minima as the default, full ranges as descriptors.
pub fn uv_transform_default_and_compression(values: &Vec<UvTransform>) -> (r: (
    UvTransform,
    UvTransformCompression,
))
    ensures
        ({
            let n = values@.len() as int;
            let su = Seq::new(values@.len(), |i: int| values@[i].scale_u);
            let sv = Seq::new(values@.len(), |i: int| values@[i].scale_v);
            let rot = Seq::new(values@.len(), |i: int| values@[i].rotation);
            let tu = Seq::new(values@.len(), |i: int| values@[i].translate_u);
            let tv = Seq::new(values@.len(), |i: int| values@[i].translate_v);
            &&& r.0 == (UvTransform {
                scale_u: fold_min_u32(su, n),
                scale_v: fold_min_u32(sv, n),
                rotation: fold_min_u32(rot, n),
                translate_u: fold_min_u32(tu, n),
                translate_v: fold_min_u32(tv, n),
            })
            &&& r.1 == (UvTransformCompression {
                scale_u: crate::compression::spec_from_range(
                    fold_min_u32(su, n),
                    fold_max_u32(su, n),
                ),
                scale_v: crate::compression::spec_from_range(
                    fold_min_u32(sv, n),
                    fold_max_u32(sv, n),
                ),
                rotation: crate::compression::spec_from_range(
                    fold_min_u32(rot, n),
                    fold_max_u32(rot, n),
                ),
                translate_u: crate::compression::spec_from_range(
                    fold_min_u32(tu, n),
                    fold_max_u32(tu, n),
                ),
                translate_v: crate::compression::spec_from_range(
                    fold_min_u32(tv, n),
                    fold_max_u32(tv, n),
                ),
            })
        }),
{
    let n = values.len();
    let mut su: Vec<u32> = Vec::new();
    let mut sv: Vec<u32> = Vec::new();
    let mut rot: Vec<u32> = Vec::new();
    let mut tu: Vec<u32> = Vec::new();
    let mut tv: Vec<u32> = Vec::new();
    for i in 0..n
        invariant
            n == values@.len(),
            su@.len() == i && sv@.len() == i && rot@.len() == i && tu@.len() == i && tv@.len()
                == i,
            forall|j: int| 0 <= j < i ==> su@[j] == (#[trigger] values@[j]).scale_u,
            forall|j: int| 0 <= j < i ==> sv@[j] == (#[trigger] values@[j]).scale_v,
            forall|j: int| 0 <= j < i ==> rot@[j] == (#[trigger] values@[j]).rotation,
            forall|j: int| 0 <= j < i ==> tu@[j] == (#[trigger] values@[j]).translate_u,
            forall|j: int| 0 <= j < i ==> tv@[j] == (#[trigger] values@[j]).translate_v,
    {
        let v = &values[i];
        su.push(v.scale_u);
        sv.push(v.scale_v);
        rot.push(v.rotation);
        tu.push(v.translate_u);
        tv.push(v.translate_v);
    }
    proof {
        assert(su@ =~= Seq::new(values@.len(), |i: int| values@[i].scale_u));
        assert(sv@ =~= Seq::new(values@.len(), |i: int| values@[i].scale_v));
        assert(rot@ =~= Seq::new(values@.len(), |i: int| values@[i].rotation));
        assert(tu@ =~= Seq::new(values@.len(), |i: int| values@[i].translate_u));
        assert(tv@ =~= Seq::new(values@.len(), |i: int| values@[i].translate_v));
    }
    let (min_su, c_su) = float_default_and_compression(&su);
    let (min_sv, c_sv) = float_default_and_compression(&sv);
    let (min_rot, c_rot) = float_default_and_compression(&rot);
    let (min_tu, c_tu) = float_default_and_compression(&tu);
    let (min_tv, c_tv) = float_default_and_compression(&tv);
    (
        UvTransform {
            scale_u: min_su,
            scale_v: min_sv,
            rotation: min_rot,
            translate_u: min_tu,
            translate_v: min_tv,
        },
        UvTransformCompression {
            scale_u: c_su,
            scale_v: c_sv,
            rotation: c_rot,
            translate_u: c_tu,
            translate_v: c_tv,
        },
    )
}

/// The canonical default and descriptor of a transform track: component
/// minima as defaults, full ranges as descriptors; rotation covers only
/// x, y and z, and the compensation flag becomes the default's word.
pub fn transform_default_and_compression(
    values: &Vec<UncompressedTransform>,
    compensate_scale: bool,
) -> (r: (UncompressedTransform, TransformCompression))
    ensures
        ({
            let n = values@.len() as int;
            let scales = Seq::new(values@.len(), |i: int| values@[i].scale);
            let rots = Seq::new(values@.len(), |i: int| values@[i].rotation);
            let transes = Seq::new(values@.len(), |i: int| values@[i].translation);
            let min_s = fold_min_v3(scales, n);
            let max_s = fold_max_v3(scales, n);
            let min_r = fold_min_v4(rots, n);
            let max_r = fold_max_v4(rots, n);
            let min_t = fold_min_v3(transes, n);
            let max_t = fold_max_v3(transes, n);
            &&& r.0 == (UncompressedTransform {
                scale: min_s,
                rotation: min_r,
                translation: min_t,
                compensate_scale: (if compensate_scale {
                    1u32
                } else {
                    0u32
                }),
            })
            &&& r.1 == (TransformCompression {
                scale: Vector3Compression {
                    x: crate::compression::spec_from_range(min_s.x, max_s.x),
                    y: crate::compression::spec_from_range(min_s.y, max_s.y),
                    z: crate::compression::spec_from_range(min_s.z, max_s.z),
                },
                rotation: Vector3Compression {
                    x: crate::compression::spec_from_range(min_r.x, max_r.x),
                    y: crate::compression::spec_from_range(min_r.y, max_r.y),
                    z: crate::compression::spec_from_range(min_r.z, max_r.z),
                },
                translation: Vector3Compression {
                    x: crate::compression::spec_from_range(min_t.x, max_t.x),
                    y: crate::compression::spec_from_range(min_t.y, max_t.y),
                    z: crate::compression::spec_from_range(min_t.z, max_t.z),
                },
            })
        }),
{
    let n = values.len();
    let mut min_s = Vector3::zero();
    let mut max_s = Vector3::zero();
    let mut min_r = Vector4::zero();
    let mut max_r = Vector4::zero();
    let mut min_t = Vector3::zero();
    let mut max_t = Vector3::zero();
    let ghost scales = Seq::new(values@.len(), |i: int| values@[i].scale);
    let ghost rots = Seq::new(values@.len(), |i: int| values@[i].rotation);
    let ghost transes = Seq::new(values@.len(), |i: int| values@[i].translation);
    for i in 0..n
        invariant
            n == values@.len(),
            scales == Seq::new(values@.len(), |i: int| values@[i].scale),
            rots == Seq::new(values@.len(), |i: int| values@[i].rotation),
            transes == Seq::new(values@.len(), |i: int| values@[i].translation),
            min_s == fold_min_v3(scales, i as int),
            max_s == fold_max_v3(scales, i as int),
            min_r == fold_min_v4(rots, i as int),
            max_r == fold_max_v4(rots, i as int),
            min_t == fold_min_v3(transes, i as int),
            max_t == fold_max_v3(transes, i as int),
    {
        let v = &values[i];
        if i == 0 {
            min_s = v.scale;
            max_s = v.scale;
            min_r = v.rotation;
            max_r = v.rotation;
            min_t = v.translation;
            max_t = v.translation;
        } else {
            min_s = min_s.min(v.scale);
            max_s = max_s.max(v.scale);
            min_r = min_r.min(v.rotation);
            max_r = max_r.max(v.rotation);
            min_t = min_t.min(v.translation);
            max_t = max_t.max(v.translation);
        }
    }
    (
        UncompressedTransform {
            scale: min_s,
            rotation: min_r,
            translation: min_t,
            compensate_scale: if compensate_scale {
                1
            } else {
                0
            },
        },
        TransformCompression {
            scale: Vector3Compression::from_range(min_s, max_s),
            rotation: Vector3Compression::from_range(
                Vector3 { x: min_r.x, y: min_r.y, z: min_r.z },
                Vector3 { x: max_r.x, y: max_r.y, z: max_r.z },
            ),
            translation: Vector3Compression::from_range(min_t, max_t),
        },
    )
}

/// The canonical default and descriptor of a pattern-index track: a zero
/// default, the integer range of the values, and the standard bit count.
pub fn pattern_index_default_and_compression(values: &Vec<u32>) -> (r: (u32, U32Compression))
    ensures
        r.0 == 0u32,
        r.1.bit_count == crate::compression::DEFAULT_F32_BIT_COUNT,
        values@.len() == 0 ==> r.1.min == 0u32 && r.1.max == 0u32,
        values@.len() > 0 ==> (forall|i: int|
            0 <= i < values@.len() ==> r.1.min <= #[trigger] values@[i] && values@[i] <= r.1.max)
            && (exists|i: int| 0 <= i < values@.len() && values@[i] == r.1.min) && (exists|i: int|
            0 <= i < values@.len() && values@[i] == r.1.max),
{
    let n = values.len();
    let mut min: u32 = 0;
    let mut max: u32 = 0;
    for i in 0..n
        invariant
            n == values@.len(),
            i == 0 ==> min == 0u32 && max == 0u32,
            i > 0 ==> (forall|j: int|
                0 <= j < i ==> min <= #[trigger] values@[j] && values@[j] <= max),
            i > 0 ==> (exists|j: int| 0 <= j < i && values@[j] == min),
            i > 0 ==> (exists|j: int| 0 <= j < i && values@[j] == max),
    {
        let v = values[i];
        if i == 0 {
            min = v;
            max = v;
        } else {
            if v < min {
                min = v;
            }
            if v > max {
                max = v;
            }
        }
    }
    (0, U32Compression { min, max, bit_count: crate::compression::DEFAULT_F32_BIT_COUNT })
}

impl TrackValues {
    /// The byte cost of the fixed parts of this track's compressed form:
    /// header, descriptor block and default sample.
    pub fn compressed_overhead_in_bytes(&self) -> (r: u64)
        ensures
            r == 16 + desc_size(spec_track_type(self@)) + default_size(spec_track_type(self@)),
    {
        match self {
            TrackValues::Transform(_) => 204,
            TrackValues::UvTransform(_) => 116,
            TrackValues::Float(_) => 36,
            TrackValues::PatternIndex(_) => 36,
            TrackValues::Boolean(_) => 33,
            TrackValues::Vector4(_) => 96,
        }
    }

    /// The byte size of one uncompressed record of this track's kind.
    pub fn data_size_in_bytes(&self) -> (r: u64)
        ensures
            r == record_size(spec_track_type(self@)),
    {
        match self {
            TrackValues::Transform(_) => 44,
            TrackValues::UvTransform(_) => 20,
            TrackValues::Float(_) => 4,
            TrackValues::PatternIndex(_) => 4,
            TrackValues::Boolean(_) => 1,
            TrackValues::Vector4(_) => 16,
        }
    }
}

/// A successful compressed decode certifies the header: its bits-per-entry
/// equals the sum implied by the descriptor and flags.
pub proof fn lemma_bits_per_entry_consistent(s: Seq<u8>, kind: TrackTypeV2, count: int)
    requires
        spec_read_compressed(s, kind, count) is Ok,
    ensures
        spec_parse_header(s).bits_per_entry as int == spec_expected_bits(
            s,
            kind,
            spec_parse_header(s).flags,
        ),
{
}

/// Under uniform scale, every decoded transform frame stores at most one
/// scale component; the other two axes share it (or the default), so all
/// three decode equal.
pub proof fn lemma_uniform_scale_shared(
    s: Seq<u8>,
    count: int,
    flags: CompressionFlags,
    compression: TransformCompression,
    default: UncompressedTransform,
    frames: Seq<QuantizedTransform>,
    comp: bool,
)
    requires
        spec_read_compressed(s, TrackTypeV2::Transform, count) == Ok::<_, Error>(
            (CompressedTrackView::Transform { flags, compression, default, frames }, comp),
        ),
        flags.uniform_scale,
    ensures
        forall|i: int|
            0 <= i < frames.len() ==> (#[trigger] frames[i]).scale.y is None && frames[i].scale.z
                is None,
{
    assert forall|i: int|
        0 <= i < frames.len() implies (#[trigger] frames[i]).scale.y is None && frames[i].scale.z
        is None by {
        let h = spec_parse_header(s);
        let stream = s.subrange(h.compressed_data_ptr as int, s.len() as int);
        let expected = spec_expected_bits(s, TrackTypeV2::Transform, h.flags);
        assert(frames[i] == spec_frame_transform(
            stream,
            i * expected,
            spec_parse_tc(s),
            h.flags,
        ));
    }
}

/// A zero bits-per-entry with a positive requested count decodes to
/// exactly one frame, whatever the stored frame count; this is also what
/// bounds work on pathological counts.
pub proof fn lemma_zero_bits_single_frame(s: Seq<u8>, kind: TrackTypeV2, count: int)
    requires
        spec_read_compressed(s, kind, count) is Ok,
        spec_parse_header(s).bits_per_entry == 0,
        count > 0,
    ensures
        view_frame_count(spec_read_compressed(s, kind, count)->Ok_0.0) == 1,
{
}

/// How many frames or values a parsed compressed track holds.
pub open spec fn view_frame_count(t: CompressedTrackView) -> nat {
    match t {
        CompressedTrackView::Transform { frames, .. } => frames.len(),
        CompressedTrackView::UvTransform { frames, .. } => frames.len(),
        CompressedTrackView::Float { frames, .. } => frames.len(),
        CompressedTrackView::PatternIndex { values, .. } => values.len(),
        CompressedTrackView::Boolean { values } => values.len(),
        CompressedTrackView::Vector4 { frames, .. } => frames.len(),
    }
}

/// A zero default pointer on a structurally complete blob fails with the
/// malformed-header error.
pub proof fn lemma_null_default_pointer(s: Seq<u8>, kind: TrackTypeV2, count: int)
    requires
        s.len() >= 16 + desc_size(kind),
        spec_desc_wf(s, kind),
        spec_parse_header(s).bits_per_entry as int == spec_expected_bits(
            s,
            kind,
            spec_parse_header(s).flags,
        ),
        spec_parse_header(s).default_data_ptr == 0,
    ensures
        spec_read_compressed(s, kind, count) == Err::<(CompressedTrackView, bool), Error>(
            Error::MalformedCompressionHeader,
        ),
{
}

/// A decoded track: plain samples from the record framings, or the
/// descriptor, default and quantized frames of a compressed blob.
pub enum TrackData {
    Uncompressed(TrackValues),
    Compressed(CompressedTrack),
}

/// The mathematical view of [`TrackData`].
pub enum TrackDataView {
    Uncompressed(TrackValuesView),
    Compressed(CompressedTrackView),
}

impl View for TrackData {
    type V = TrackDataView;

    open spec fn view(&self) -> TrackDataView {
        match self {
            TrackData::Uncompressed(v) => TrackDataView::Uncompressed(v@),
            TrackData::Compressed(t) => TrackDataView::Compressed(t@),
        }
    }
}

/// What reading a track blob yields: the samples and the scale-compensation
/// flag, or the first error in decode order.
pub open spec fn spec_read_track(s: Seq<u8>, flags: TrackFlags, count: int) -> Result<
    (TrackDataView, bool),
    Error,
> {
    match flags.compression_type {
        CompressionType::Compressed => match spec_read_compressed(s, flags.track_type, count) {
            Ok((t, comp)) => Ok((TrackDataView::Compressed(t), comp)),
            Err(e) => Err(e),
        },
        _ => match spec_read_uncompressed(s, flags.track_type, count) {
            Ok((v, comp)) => Ok((TrackDataView::Uncompressed(v), comp)),
            Err(e) => Err(e),
        },
    }
}

/// Decodes one track blob into `count` samples.
///
/// The record framings yield final samples.  A compressed blob yields its
/// quantized frames, descriptor and default; the caller dequantises them.
/// The second result is the transform scale-compensation flag.
pub fn read_track_values(track_data: &[u8], flags: TrackFlags, count: usize) -> (r: Result<
    (TrackData, bool),
    Error,
>)
    requires
        track_data@.len() <= usize::MAX as int / 8,
    ensures
        match r {
            Ok((td, comp)) => spec_read_track(track_data@, flags, count as int) == Ok::<_, Error>(
                (td@, comp),
            ),
            Err(e) => spec_read_track(track_data@, flags, count as int) == Err::<
                (TrackDataView, bool),
                _,
            >(e),
        },
{
    match flags.compression_type {
        CompressionType::Compressed => match read_compressed(track_data, flags.track_type, count) {
            Ok((t, comp)) => Ok((TrackData::Compressed(t), comp)),
            Err(e) => Err(e),
        },
        _ => match read_uncompressed(track_data, flags.track_type, count) {
            Ok((v, comp)) => Ok((TrackData::Uncompressed(v), comp)),
            Err(e) => Err(e),
        },
    }
}

} // verus!
