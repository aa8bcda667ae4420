//! Small vector and matrix records of contiguous single-precision floats.
//! Components are carried as IEEE 754 bit patterns; the component-wise
//! minimum and maximum follow IEEE `minNum`/`maxNum` on those patterns.

use vstd::prelude::*;

use crate::floatbits::{float_max, float_min, max_bits, min_bits};

verus! {

/// The bit pattern of `1.0f32`.
pub const FLOAT_ONE_BITS: u32 = 0x3f800000;

/// Three contiguous floats encoding XYZ or RGB data, as bit patterns.
#[derive(PartialEq, Eq, Structural, Clone, Copy, Debug, Default)]
pub struct Vector3 {
    pub x: u32,
    pub y: u32,
    pub z: u32,
}

impl Vector3 {
    /// The vector with the given component patterns.
    pub fn new(x: u32, y: u32, z: u32) -> (r: Vector3)
        ensures
            r == (Vector3 { x, y, z }),
    {
        Vector3 { x, y, z }
    }

    /// The all-zero vector.
    pub fn zero() -> (r: Vector3)
        ensures
            r == (Vector3 { x: 0u32, y: 0u32, z: 0u32 }),
    {
        Vector3 { x: 0, y: 0, z: 0 }
    }

    /// The component patterns as an array.
    pub fn to_array(&self) -> (r: [u32; 3])
        ensures
            r@ == seq![self.x, self.y, self.z],
    {
        let r = [self.x, self.y, self.z];
        proof {
            assert(r@ =~= seq![self.x, self.y, self.z]);
        }
        r
    }

    /// This vector with a fourth component appended.
    pub fn extend(&self, w: u32) -> (r: Vector4)
        ensures
            r == (Vector4 { x: self.x, y: self.y, z: self.z, w }),
    {
        Vector4 { x: self.x, y: self.y, z: self.z, w }
    }

    /// The component-wise IEEE minimum.
    pub fn min(self, other: Vector3) -> (r: Vector3)
        ensures
            r == spec_vector3_min(self, other),
    {
        Vector3 {
            x: min_bits(self.x, other.x),
            y: min_bits(self.y, other.y),
            z: min_bits(self.z, other.z),
        }
    }

    /// The component-wise IEEE maximum.
    pub fn max(self, other: Vector3) -> (r: Vector3)
        ensures
            r == spec_vector3_max(self, other),
    {
        Vector3 {
            x: max_bits(self.x, other.x),
            y: max_bits(self.y, other.y),
            z: max_bits(self.z, other.z),
        }
    }
}

/// The component-wise IEEE minimum of two vectors.
pub open spec fn spec_vector3_min(a: Vector3, b: Vector3) -> Vector3 {
    Vector3 { x: float_min(a.x, b.x), y: float_min(a.y, b.y), z: float_min(a.z, b.z) }
}

/// The component-wise IEEE maximum of two vectors.
pub open spec fn spec_vector3_max(a: Vector3, b: Vector3) -> Vector3 {
    Vector3 { x: float_max(a.x, b.x), y: float_max(a.y, b.y), z: float_max(a.z, b.z) }
}

/// Four contiguous floats encoding XYZW or RGBA data, as bit patterns.
#[derive(PartialEq, Eq, Structural, Clone, Copy, Debug, Default)]
pub struct Vector4 {
    pub x: u32,
    pub y: u32,
    pub z: u32,
    pub w: u32,
}

impl Vector4 {
    /// The vector with the given component patterns.
    pub fn new(x: u32, y: u32, z: u32, w: u32) -> (r: Vector4)
        ensures
            r == (Vector4 { x, y, z, w }),
    {
        Vector4 { x, y, z, w }
    }

    /// The all-zero vector.
    pub fn zero() -> (r: Vector4)
        ensures
            r == (Vector4 { x: 0u32, y: 0u32, z: 0u32, w: 0u32 }),
    {
        Vector4 { x: 0, y: 0, z: 0, w: 0 }
    }

    /// The first three components.
    pub fn xyz(&self) -> (r: Vector3)
        ensures
            r == (Vector3 { x: self.x, y: self.y, z: self.z }),
    {
        Vector3 { x: self.x, y: self.y, z: self.z }
    }

    /// The component patterns as an array.
    pub fn to_array(&self) -> (r: [u32; 4])
        ensures
            r@ == seq![self.x, self.y, self.z, self.w],
    {
        let r = [self.x, self.y, self.z, self.w];
        proof {
            assert(r@ =~= seq![self.x, self.y, self.z, self.w]);
        }
        r
    }

    /// The component-wise IEEE minimum.
    pub fn min(self, other: Vector4) -> (r: Vector4)
        ensures
            r == spec_vector4_min(self, other),
    {
        Vector4 {
            x: min_bits(self.x, other.x),
            y: min_bits(self.y, other.y),
            z: min_bits(self.z, other.z),
            w: min_bits(self.w, other.w),
        }
    }

    /// The component-wise IEEE maximum.
    pub fn max(self, other: Vector4) -> (r: Vector4)
        ensures
            r == spec_vector4_max(self, other),
    {
        Vector4 {
            x: max_bits(self.x, other.x),
            y: max_bits(self.y, other.y),
            z: max_bits(self.z, other.z),
            w: max_bits(self.w, other.w),
        }
    }
}

/// The component-wise IEEE minimum of two vectors.
pub open spec fn spec_vector4_min(a: Vector4, b: Vector4) -> Vector4 {
    Vector4 {
        x: float_min(a.x, b.x),
        y: float_min(a.y, b.y),
        z: float_min(a.z, b.z),
        w: float_min(a.w, b.w),
    }
}

/// The component-wise IEEE maximum of two vectors.
pub open spec fn spec_vector4_max(a: Vector4, b: Vector4) -> Vector4 {
    Vector4 {
        x: float_max(a.x, b.x),
        y: float_max(a.y, b.y),
        z: float_max(a.z, b.z),
        w: float_max(a.w, b.w),
    }
}

/// Four contiguous floats encoding RGBA data, as bit patterns.
#[derive(PartialEq, Eq, Structural, Clone, Copy, Debug)]
pub struct Color4f {
    pub r: u32,
    pub g: u32,
    pub b: u32,
    pub a: u32,
}

/// A column-major 3x3 matrix of contiguous floats, as bit patterns.
#[derive(PartialEq, Eq, Structural, Clone, Copy, Debug, Default)]
pub struct Matrix3x3 {
    pub col1: Vector3,
    pub col2: Vector3,
    pub col3: Vector3,
}

impl Matrix3x3 {
    /// The identity transformation matrix.
    pub fn identity() -> (r: Matrix3x3)
        ensures
            r.col1 == (Vector3 { x: FLOAT_ONE_BITS, y: 0u32, z: 0u32 }),
            r.col2 == (Vector3 { x: 0u32, y: FLOAT_ONE_BITS, z: 0u32 }),
            r.col3 == (Vector3 { x: 0u32, y: 0u32, z: FLOAT_ONE_BITS }),
    {
        Matrix3x3 {
            col1: Vector3 { x: FLOAT_ONE_BITS, y: 0, z: 0 },
            col2: Vector3 { x: 0, y: FLOAT_ONE_BITS, z: 0 },
            col3: Vector3 { x: 0, y: 0, z: FLOAT_ONE_BITS },
        }
    }

    /// The columns as arrays, in column-major order.
    pub fn to_cols_array(&self) -> (r: [[u32; 3]; 3])
        ensures
            r@.len() == 3,
            r@[0]@ == seq![self.col1.x, self.col1.y, self.col1.z],
            r@[1]@ == seq![self.col2.x, self.col2.y, self.col2.z],
            r@[2]@ == seq![self.col3.x, self.col3.y, self.col3.z],
    {
        let r = [self.col1.to_array(), self.col2.to_array(), self.col3.to_array()];
        r
    }

    /// The matrix with the given columns, in column-major order.
    pub fn from_cols_array(cols: &[[u32; 3]; 3]) -> (r: Matrix3x3)
        ensures
            r.col1 == (Vector3 { x: cols@[0]@[0], y: cols@[0]@[1], z: cols@[0]@[2] }),
            r.col2 == (Vector3 { x: cols@[1]@[0], y: cols@[1]@[1], z: cols@[1]@[2] }),
            r.col3 == (Vector3 { x: cols@[2]@[0], y: cols@[2]@[1], z: cols@[2]@[2] }),
    {
        Matrix3x3 {
            col1: Vector3 { x: cols[0][0], y: cols[0][1], z: cols[0][2] },
            col2: Vector3 { x: cols[1][0], y: cols[1][1], z: cols[1][2] },
            col3: Vector3 { x: cols[2][0], y: cols[2][1], z: cols[2][2] },
        }
    }
}

/// A column-major 4x4 matrix of contiguous floats, as bit patterns.
#[derive(PartialEq, Eq, Structural, Clone, Copy, Debug, Default)]
pub struct Matrix4x4 {
    pub col1: Vector4,
    pub col2: Vector4,
    pub col3: Vector4,
    pub col4: Vector4,
}

impl Matrix4x4 {
    /// The identity transformation matrix.
    pub fn identity() -> (r: Matrix4x4)
        ensures
            r.col1 == (Vector4 { x: FLOAT_ONE_BITS, y: 0u32, z: 0u32, w: 0u32 }),
            r.col2 == (Vector4 { x: 0u32, y: FLOAT_ONE_BITS, z: 0u32, w: 0u32 }),
            r.col3 == (Vector4 { x: 0u32, y: 0u32, z: FLOAT_ONE_BITS, w: 0u32 }),
            r.col4 == (Vector4 { x: 0u32, y: 0u32, z: 0u32, w: FLOAT_ONE_BITS }),
    {
        Matrix4x4 {
            col1: Vector4 { x: FLOAT_ONE_BITS, y: 0, z: 0, w: 0 },
            col2: Vector4 { x: 0, y: FLOAT_ONE_BITS, z: 0, w: 0 },
            col3: Vector4 { x: 0, y: 0, z: FLOAT_ONE_BITS, w: 0 },
            col4: Vector4 { x: 0, y: 0, z: 0, w: FLOAT_ONE_BITS },
        }
    }

    /// The columns as arrays, in column-major order.
    pub fn to_cols_array(&self) -> (r: [[u32; 4]; 4])
        ensures
            r@.len() == 4,
            r@[0]@ == seq![self.col1.x, self.col1.y, self.col1.z, self.col1.w],
            r@[1]@ == seq![self.col2.x, self.col2.y, self.col2.z, self.col2.w],
            r@[2]@ == seq![self.col3.x, self.col3.y, self.col3.z, self.col3.w],
            r@[3]@ == seq![self.col4.x, self.col4.y, self.col4.z, self.col4.w],
    {
        let r = [
            self.col1.to_array(),
            self.col2.to_array(),
            self.col3.to_array(),
            self.col4.to_array(),
        ];
        r
    }

    /// The matrix with the given columns, in column-major order.
    pub fn from_cols_array(cols: &[[u32; 4]; 4]) -> (r: Matrix4x4)
        ensures
            r.col1 == (Vector4 { x: cols@[0]@[0], y: cols@[0]@[1], z: cols@[0]@[2], w: cols@[0]@[3] }),
            r.col2 == (Vector4 { x: cols@[1]@[0], y: cols@[1]@[1], z: cols@[1]@[2], w: cols@[1]@[3] }),
            r.col3 == (Vector4 { x: cols@[2]@[0], y: cols@[2]@[1], z: cols@[2]@[2], w: cols@[2]@[3] }),
            r.col4 == (Vector4 { x: cols@[3]@[0], y: cols@[3]@[1], z: cols@[3]@[2], w: cols@[3]@[3] }),
    {
        Matrix4x4 {
            col1: Vector4 { x: cols[0][0], y: cols[0][1], z: cols[0][2], w: cols[0][3] },
            col2: Vector4 { x: cols[1][0], y: cols[1][1], z: cols[1][2], w: cols[1][3] },
            col3: Vector4 { x: cols[2][0], y: cols[2][1], z: cols[2][2], w: cols[2][3] },
            col4: Vector4 { x: cols[3][0], y: cols[3][1], z: cols[3][2], w: cols[3][3] },
        }
    }
}

} // verus!
