//! Compression descriptors for animation tracks: per-component ranges and
//! bit counts, the 16-bit flag word, and their 16-byte wire records.
//!
//! A descriptor stores `min`, `max` (float bit patterns) and a `bit_count`.
//! A component takes part in the bitstream only when its bit count is
//! non-zero and its range is non-degenerate; otherwise the decoder uses the
//! track's default value and consumes no bits.

use vstd::prelude::*;

use crate::floatbits::{eq_bits, float_eq};
use crate::lebytes::{le32, le64, push_u32, push_u64, read_u32_at, read_u64_at};
use crate::vectors::{Vector3, Vector4};

verus! {

/// Quantized component values are at most 32 bits wide.
pub type CompressedBits = u32;

/// The widest bit count the canonical writer emits; it avoids quality loss
/// for single-precision inputs.
pub const DEFAULT_F32_BIT_COUNT: u64 = 24;

/// The largest per-component bit count the codec accepts.
pub const MAX_BIT_COUNT: u64 = 32;

/// The 16-bit flag word of a compressed track header.
///
/// Bit 0 marks scale values that must not be inherited, bit 1 selects
/// uniform scale (one stored value broadcast to every scale component),
/// bits 2 and 3 mark the presence of rotation and translation.  The upper
/// bits are reserved: zero on write, ignored on read.
#[derive(PartialEq, Eq, Structural, Clone, Copy, Debug)]
pub struct CompressionFlags {
    pub const_scale: bool,
    pub uniform_scale: bool,
    pub has_rotation: bool,
    pub has_translation: bool,
}

/// The wire value of a flag word.
pub open spec fn flags_bits(f: CompressionFlags) -> u16 {
    ((if f.const_scale {
        1int
    } else {
        0int
    }) + (if f.uniform_scale {
        2int
    } else {
        0int
    }) + (if f.has_rotation {
        4int
    } else {
        0int
    }) + (if f.has_translation {
        8int
    } else {
        0int
    })) as u16
}

/// The flag word encoded in a wire value; reserved bits are ignored.
pub open spec fn spec_flags_from_bits(x: u16) -> CompressionFlags {
    CompressionFlags {
        const_scale: x as int % 2 == 1,
        uniform_scale: x as int / 2 % 2 == 1,
        has_rotation: x as int / 4 % 2 == 1,
        has_translation: x as int / 8 % 2 == 1,
    }
}

impl CompressionFlags {
    /// The flag word with every flag clear.
    pub fn new() -> (r: Self)
        ensures
            r == (CompressionFlags {
                const_scale: false,
                uniform_scale: false,
                has_rotation: false,
                has_translation: false,
            }),
    {
        CompressionFlags {
            const_scale: false,
            uniform_scale: false,
            has_rotation: false,
            has_translation: false,
        }
    }

    /// This flag word with `const_scale` replaced.
    pub fn with_const_scale(self, v: bool) -> (r: Self)
        ensures
            r == (CompressionFlags { const_scale: v, ..self }),
    {
        CompressionFlags { const_scale: v, ..self }
    }

    /// This flag word with `uniform_scale` replaced.
    pub fn with_uniform_scale(self, v: bool) -> (r: Self)
        ensures
            r == (CompressionFlags { uniform_scale: v, ..self }),
    {
        CompressionFlags { uniform_scale: v, ..self }
    }

    /// This flag word with `has_rotation` replaced.
    pub fn with_has_rotation(self, v: bool) -> (r: Self)
        ensures
            r == (CompressionFlags { has_rotation: v, ..self }),
    {
        CompressionFlags { has_rotation: v, ..self }
    }

    /// This flag word with `has_translation` replaced.
    pub fn with_has_translation(self, v: bool) -> (r: Self)
        ensures
            r == (CompressionFlags { has_translation: v, ..self }),
    {
        CompressionFlags { has_translation: v, ..self }
    }

    /// The wire value of this flag word.
    pub fn to_bits(self) -> (r: u16)
        ensures
            r == flags_bits(self),
    {
        (if self.const_scale {
            1u16
        } else {
            0u16
        }) + (if self.uniform_scale {
            2u16
        } else {
            0u16
        }) + (if self.has_rotation {
            4u16
        } else {
            0u16
        }) + (if self.has_translation {
            8u16
        } else {
            0u16
        })
    }

    /// The flag word stored in a wire value.
    pub fn from_bits(x: u16) -> (r: Self)
        ensures
            r == spec_flags_from_bits(x),
    {
        CompressionFlags {
            const_scale: x % 2 == 1,
            uniform_scale: x / 2 % 2 == 1,
            has_rotation: x / 4 % 2 == 1,
            has_translation: x / 8 % 2 == 1,
        }
    }
}

/// Encoding a flag word and reading it back is the identity.
pub proof fn lemma_flags_round_trip(f: CompressionFlags)
    ensures
        spec_flags_from_bits(flags_bits(f)) == f,
{
}

/// Range and bit count for one floating-point component; `min` and `max`
/// are bit patterns.
#[derive(PartialEq, Eq, Structural, Clone, Copy, Debug, Default)]
pub struct F32Compression {
    pub min: u32,
    pub max: u32,
    pub bit_count: u64,
}

/// How many bits one component of this descriptor takes per frame: none
/// when the bit count is zero or the range is degenerate.
pub open spec fn eff_bits(c: F32Compression) -> int {
    if c.bit_count == 0 || float_eq(c.min, c.max) {
        0
    } else {
        c.bit_count as int
    }
}

impl F32Compression {
    /// The canonical descriptor for a range: the default bit count, or zero
    /// when the range is degenerate.
    pub fn from_range(min: u32, max: u32) -> (r: Self)
        ensures
            r == spec_from_range(min, max),
    {
        let bit_count: u64 = if eq_bits(min, max) {
            0
        } else {
            DEFAULT_F32_BIT_COUNT
        };
        F32Compression { min, max, bit_count }
    }

    /// How many bits one frame of a scalar track takes.
    pub fn bit_count(&self) -> (r: u64)
        ensures
            r == eff_bits(*self),
    {
        if self.bit_count == 0 || eq_bits(self.min, self.max) {
            0
        } else {
            self.bit_count
        }
    }
}

/// The canonical descriptor for a range.
pub open spec fn spec_from_range(min: u32, max: u32) -> F32Compression {
    F32Compression {
        min,
        max,
        bit_count: if float_eq(min, max) {
            0
        } else {
            DEFAULT_F32_BIT_COUNT
        },
    }
}

/// Range and bit count for an integer component.
#[derive(PartialEq, Eq, Structural, Clone, Copy, Debug, Default)]
pub struct U32Compression {
    pub min: u32,
    pub max: u32,
    pub bit_count: u64,
}

/// Per-component descriptors of a three-component vector.
#[derive(PartialEq, Eq, Structural, Clone, Copy, Debug, Default)]
pub struct Vector3Compression {
    pub x: F32Compression,
    pub y: F32Compression,
    pub z: F32Compression,
}

impl Vector3Compression {
    /// Canonical per-component descriptors for the given bounds.
    pub fn from_range(min: Vector3, max: Vector3) -> (r: Self)
        ensures
            r == (Vector3Compression {
                x: spec_from_range(min.x, max.x),
                y: spec_from_range(min.y, max.y),
                z: spec_from_range(min.z, max.z),
            }),
    {
        Vector3Compression {
            x: F32Compression::from_range(min.x, max.x),
            y: F32Compression::from_range(min.y, max.y),
            z: F32Compression::from_range(min.z, max.z),
        }
    }

    /// How many bits one frame of a three-component track takes.
    pub fn bit_count(&self) -> (r: u64)
        requires
            self.x.bit_count <= MAX_BIT_COUNT,
            self.y.bit_count <= MAX_BIT_COUNT,
            self.z.bit_count <= MAX_BIT_COUNT,
        ensures
            r == v3_bits(*self),
    {
        self.x.bit_count() + self.y.bit_count() + self.z.bit_count()
    }
}

/// The per-frame bits of a three-component descriptor.
pub open spec fn v3_bits(c: Vector3Compression) -> int {
    eff_bits(c.x) + eff_bits(c.y) + eff_bits(c.z)
}

/// Per-component descriptors of a four-component vector.
#[derive(PartialEq, Eq, Structural, Clone, Copy, Debug, Default)]
pub struct Vector4Compression {
    pub x: F32Compression,
    pub y: F32Compression,
    pub z: F32Compression,
    pub w: F32Compression,
}

impl Vector4Compression {
    /// Canonical per-component descriptors for the given bounds.
    pub fn from_range(min: Vector4, max: Vector4) -> (r: Self)
        ensures
            r == (Vector4Compression {
                x: spec_from_range(min.x, max.x),
                y: spec_from_range(min.y, max.y),
                z: spec_from_range(min.z, max.z),
                w: spec_from_range(min.w, max.w),
            }),
    {
        Vector4Compression {
            x: F32Compression::from_range(min.x, max.x),
            y: F32Compression::from_range(min.y, max.y),
            z: F32Compression::from_range(min.z, max.z),
            w: F32Compression::from_range(min.w, max.w),
        }
    }

    /// How many bits one frame of a four-component track takes.
    pub fn bit_count(&self) -> (r: u64)
        requires
            self.x.bit_count <= MAX_BIT_COUNT,
            self.y.bit_count <= MAX_BIT_COUNT,
            self.z.bit_count <= MAX_BIT_COUNT,
            self.w.bit_count <= MAX_BIT_COUNT,
        ensures
            r == v4_bits(*self),
    {
        self.x.bit_count() + self.y.bit_count() + self.z.bit_count() + self.w.bit_count()
    }
}

/// The per-frame bits of a four-component descriptor.
pub open spec fn v4_bits(c: Vector4Compression) -> int {
    eff_bits(c.x) + eff_bits(c.y) + eff_bits(c.z) + eff_bits(c.w)
}

/// Per-component descriptors of a texture-transform track.
#[derive(PartialEq, Eq, Structural, Clone, Copy, Debug, Default)]
pub struct UvTransformCompression {
    pub scale_u: F32Compression,
    pub scale_v: F32Compression,
    pub rotation: F32Compression,
    pub translate_u: F32Compression,
    pub translate_v: F32Compression,
}

/// The per-frame bits of a texture-transform descriptor: with uniform
/// scale, one stored scale value serves both axes.
pub open spec fn uv_bits(c: UvTransformCompression, flags: CompressionFlags) -> int {
    (if flags.uniform_scale {
        eff_bits(c.scale_u)
    } else {
        eff_bits(c.scale_u) + eff_bits(c.scale_v)
    }) + eff_bits(c.rotation) + eff_bits(c.translate_u) + eff_bits(c.translate_v)
}

impl UvTransformCompression {
    /// How many bits one frame of a texture-transform track takes.
    pub fn bit_count(&self, flags: CompressionFlags) -> (r: u64)
        requires
            self.scale_u.bit_count <= MAX_BIT_COUNT,
            self.scale_v.bit_count <= MAX_BIT_COUNT,
            self.rotation.bit_count <= MAX_BIT_COUNT,
            self.translate_u.bit_count <= MAX_BIT_COUNT,
            self.translate_v.bit_count <= MAX_BIT_COUNT,
        ensures
            r == uv_bits(*self, flags),
    {
        (if flags.uniform_scale {
            self.scale_u.bit_count()
        } else {
            self.scale_u.bit_count() + self.scale_v.bit_count()
        }) + self.rotation.bit_count() + self.translate_u.bit_count()
            + self.translate_v.bit_count()
    }
}

/// Per-component descriptors of a transform track.  The scale block's `x`
/// entry serves as the single descriptor under uniform scale; rotation
/// covers only the quaternion's x, y and z, since w is rebuilt from a sign
/// bit.
#[derive(PartialEq, Eq, Structural, Clone, Copy, Debug, Default)]
pub struct TransformCompression {
    pub scale: Vector3Compression,
    pub rotation: Vector3Compression,
    pub translation: Vector3Compression,
}

/// The per-frame bits of a transform descriptor: scale (one or three
/// components, by the uniform flag), rotation x, y, z, translation, and one
/// sign bit when rotation is present.
pub open spec fn transform_bits(c: TransformCompression, flags: CompressionFlags) -> int {
    (if flags.uniform_scale {
        eff_bits(c.scale.x)
    } else {
        v3_bits(c.scale)
    }) + v3_bits(c.rotation) + v3_bits(c.translation) + (if flags.has_rotation {
        1int
    } else {
        0int
    })
}

impl TransformCompression {
    /// How many bits one frame of a transform track takes.
    pub fn bit_count(&self, flags: CompressionFlags) -> (r: u64)
        requires
            tc_wf(*self),
        ensures
            r == transform_bits(*self, flags),
    {
        (if flags.uniform_scale {
            self.scale.x.bit_count()
        } else {
            self.scale.bit_count()
        }) + self.rotation.bit_count() + self.translation.bit_count() + (if flags.has_rotation {
            1u64
        } else {
            0u64
        })
    }
}

/// Every bit count of a transform descriptor is in range.
pub open spec fn tc_wf(c: TransformCompression) -> bool {
    &&& v3c_wf(c.scale)
    &&& v3c_wf(c.rotation)
    &&& v3c_wf(c.translation)
}

/// Every bit count of a three-component descriptor is in range.
pub open spec fn v3c_wf(c: Vector3Compression) -> bool {
    &&& c.x.bit_count <= MAX_BIT_COUNT
    &&& c.y.bit_count <= MAX_BIT_COUNT
    &&& c.z.bit_count <= MAX_BIT_COUNT
}

/// A transform sample with its scale-compensation flag, as stored in
/// uncompressed tracks and in compressed track defaults.
#[derive(PartialEq, Eq, Structural, Clone, Copy, Debug, Default)]
pub struct UncompressedTransform {
    pub scale: Vector3,
    pub rotation: Vector4,
    pub translation: Vector3,
    pub compensate_scale: u32,
}

/// A transform sample: scale, unit quaternion (xyzw), translation; all
/// components bit patterns.
#[derive(PartialEq, Eq, Structural, Clone, Copy, Debug, Default)]
pub struct Transform {
    pub scale: Vector3,
    pub rotation: Vector4,
    pub translation: Vector3,
}

impl Transform {
    /// Drops the scale-compensation flag.
    pub fn from(t: &UncompressedTransform) -> (r: Self)
        ensures
            r == (Transform { scale: t.scale, rotation: t.rotation, translation: t.translation }),
    {
        Transform { scale: t.scale, rotation: t.rotation, translation: t.translation }
    }
}

impl UncompressedTransform {
    /// Attaches a scale-compensation flag to a transform sample.
    pub fn from_transform(t: &Transform, compensate_scale: bool) -> (r: Self)
        ensures
            r == (UncompressedTransform {
                scale: t.scale,
                rotation: t.rotation,
                translation: t.translation,
                compensate_scale: if compensate_scale {
                    1u32
                } else {
                    0u32
                },
            }),
    {
        UncompressedTransform {
            scale: t.scale,
            rotation: t.rotation,
            translation: t.translation,
            compensate_scale: if compensate_scale {
                1
            } else {
                0
            },
        }
    }
}

/// A texture-transform sample; all components bit patterns.
#[derive(PartialEq, Eq, Structural, Clone, Copy, Debug, Default)]
pub struct UvTransform {
    pub scale_u: u32,
    pub scale_v: u32,
    pub rotation: u32,
    pub translate_u: u32,
    pub translate_v: u32,
}

/// A boolean sample on the wire: one byte, non-zero meaning true.
#[derive(PartialEq, Eq, Structural, Clone, Copy, Debug, Default)]
pub struct Boolean(pub u8);

impl Boolean {
    /// The wire byte for a boolean.
    pub fn from_bool(v: bool) -> (r: Self)
        ensures
            r.0 == (if v {
                1u8
            } else {
                0u8
            }),
    {
        if v {
            Boolean(1)
        } else {
            Boolean(0)
        }
    }

    /// Whether the wire byte means true.
    pub fn to_bool(&self) -> (r: bool)
        ensures
            r == (self.0 != 0),
    {
        self.0 != 0
    }
}

/// The wire record of one scalar descriptor: `min`, `max`, then the bit
/// count as a 64-bit field; 16 bytes.
pub open spec fn spec_parse_f32c(s: Seq<u8>, off: int) -> F32Compression {
    F32Compression {
        min: le32(s, off) as u32,
        max: le32(s, off + 4) as u32,
        bit_count: le64(s, off + 8) as u64,
    }
}

/// Reads one scalar descriptor record.
pub fn parse_f32c(data: &[u8], off: usize) -> (r: F32Compression)
    requires
        off + 16 <= data@.len(),
    ensures
        r == spec_parse_f32c(data@, off as int),
{
    let n: usize = data.len();
    proof {
        assert(off + 16 <= n);
    }
    F32Compression {
        min: read_u32_at(data, off),
        max: read_u32_at(data, off + 4),
        bit_count: read_u64_at(data, off + 8),
    }
}

/// Appends one scalar descriptor record.
pub fn push_f32c(out: &mut Vec<u8>, c: F32Compression)
    ensures
        final(out)@.len() == old(out)@.len() + 16,
        final(out)@.subrange(0, old(out)@.len() as int) == old(out)@,
        spec_parse_f32c(final(out)@, old(out)@.len() as int) == c,
{
    push_u32(out, c.min);
    push_u32(out, c.max);
    push_u64(out, c.bit_count);
    proof {
        assert(final(out)@.subrange(0, old(out)@.len() as int) =~= old(out)@);
    }
}

/// The wire record of one integer descriptor; same layout as the scalar one.
pub open spec fn spec_parse_u32c(s: Seq<u8>, off: int) -> U32Compression {
    U32Compression {
        min: le32(s, off) as u32,
        max: le32(s, off + 4) as u32,
        bit_count: le64(s, off + 8) as u64,
    }
}

/// Reads one integer descriptor record.
pub fn parse_u32c(data: &[u8], off: usize) -> (r: U32Compression)
    requires
        off + 16 <= data@.len(),
    ensures
        r == spec_parse_u32c(data@, off as int),
{
    let n: usize = data.len();
    proof {
        assert(off + 16 <= n);
    }
    U32Compression {
        min: read_u32_at(data, off),
        max: read_u32_at(data, off + 4),
        bit_count: read_u64_at(data, off + 8),
    }
}

/// Appends one integer descriptor record.
pub fn push_u32c(out: &mut Vec<u8>, c: U32Compression)
    ensures
        final(out)@.len() == old(out)@.len() + 16,
        final(out)@.subrange(0, old(out)@.len() as int) == old(out)@,
        spec_parse_u32c(final(out)@, old(out)@.len() as int) == c,
{
    push_u32(out, c.min);
    push_u32(out, c.max);
    push_u64(out, c.bit_count);
    proof {
        assert(final(out)@.subrange(0, old(out)@.len() as int) =~= old(out)@);
    }
}

} // verus!
