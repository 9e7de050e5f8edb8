use vstd::prelude::*;

use crate::fixed::{fx_add, fx_mul, spec_fx_add, spec_fx_mul, Fx, FX_RAW_MAX, FX_SCALE};

verus! {

/// A 3-component fixed-point vector.
#[derive(Clone, Copy, Debug, PartialEq, Eq, Structural)]
pub struct Vec3 {
    pub x: Fx,
    pub y: Fx,
    pub z: Fx,
}

/// A homogeneous 4-component fixed-point position (w defaults to 1 when
/// input data leaves it out).
#[derive(Clone, Copy, Debug, PartialEq, Eq, Structural)]
pub struct Vec4 {
    pub x: Fx,
    pub y: Fx,
    pub z: Fx,
    pub w: Fx,
}

/// A 4x4 fixed-point matrix, stored as four column vectors.
#[derive(Clone, Copy, Debug, PartialEq, Eq, Structural)]
pub struct Mat4 {
    pub c0: Vec4,
    pub c1: Vec4,
    pub c2: Vec4,
    pub c3: Vec4,
}

/// A 3x3 fixed-point matrix, stored as three column vectors.
#[derive(Clone, Copy, Debug, PartialEq, Eq, Structural)]
pub struct Mat3 {
    pub c0: Vec3,
    pub c1: Vec3,
    pub c2: Vec3,
}

impl Vec3 {
    /// Every component within the representable fixed-point range.
    pub open spec fn bounded(self) -> bool {
        self.x.bounded() && self.y.bounded() && self.z.bounded()
    }
}

impl Vec4 {
    /// Every component within the representable fixed-point range.
    pub open spec fn bounded(self) -> bool {
        self.x.bounded() && self.y.bounded() && self.z.bounded() && self.w.bounded()
    }
}

impl Mat4 {
    /// Every entry within the representable fixed-point range.
    pub open spec fn bounded(self) -> bool {
        self.c0.bounded() && self.c1.bounded() && self.c2.bounded() && self.c3.bounded()
    }
}

impl Mat3 {
    /// Every entry within the representable fixed-point range.
    pub open spec fn bounded(self) -> bool {
        self.c0.bounded() && self.c1.bounded() && self.c2.bounded()
    }
}

/// Fixed-point dot product of two 4-vectors given by raw components,
/// summed left to right.
pub open spec fn spec_dot4(
    a0: int,
    b0: int,
    a1: int,
    b1: int,
    a2: int,
    b2: int,
    a3: int,
    b3: int,
) -> int {
    spec_fx_add(
        spec_fx_add(spec_fx_add(spec_fx_mul(a0, b0), spec_fx_mul(a1, b1)), spec_fx_mul(a2, b2)),
        spec_fx_mul(a3, b3),
    )
}

/// Fixed-point dot product of two 3-vectors given by raw components.
pub open spec fn spec_dot3(a0: int, b0: int, a1: int, b1: int, a2: int, b2: int) -> int {
    spec_fx_add(spec_fx_add(spec_fx_mul(a0, b0), spec_fx_mul(a1, b1)), spec_fx_mul(a2, b2))
}

/// The matrix-vector product `m * v` (column-major: entry `i` is the dot of
/// row `i` with `v`).
pub open spec fn spec_transform(m: Mat4, v: Vec4) -> Vec4 {
    Vec4 {
        x: Fx {
            raw: spec_dot4(
                m.c0.x.raw as int,
                v.x.raw as int,
                m.c1.x.raw as int,
                v.y.raw as int,
                m.c2.x.raw as int,
                v.z.raw as int,
                m.c3.x.raw as int,
                v.w.raw as int,
            ) as i64,
        },
        y: Fx {
            raw: spec_dot4(
                m.c0.y.raw as int,
                v.x.raw as int,
                m.c1.y.raw as int,
                v.y.raw as int,
                m.c2.y.raw as int,
                v.z.raw as int,
                m.c3.y.raw as int,
                v.w.raw as int,
            ) as i64,
        },
        z: Fx {
            raw: spec_dot4(
                m.c0.z.raw as int,
                v.x.raw as int,
                m.c1.z.raw as int,
                v.y.raw as int,
                m.c2.z.raw as int,
                v.z.raw as int,
                m.c3.z.raw as int,
                v.w.raw as int,
            ) as i64,
        },
        w: Fx {
            raw: spec_dot4(
                m.c0.w.raw as int,
                v.x.raw as int,
                m.c1.w.raw as int,
                v.y.raw as int,
                m.c2.w.raw as int,
                v.z.raw as int,
                m.c3.w.raw as int,
                v.w.raw as int,
            ) as i64,
        },
    }
}

/// The matrix-vector product `m * v` for the 3x3 case.
pub open spec fn spec_transform3(m: Mat3, v: Vec3) -> Vec3 {
    Vec3 {
        x: Fx {
            raw: spec_dot3(
                m.c0.x.raw as int,
                v.x.raw as int,
                m.c1.x.raw as int,
                v.y.raw as int,
                m.c2.x.raw as int,
                v.z.raw as int,
            ) as i64,
        },
        y: Fx {
            raw: spec_dot3(
                m.c0.y.raw as int,
                v.x.raw as int,
                m.c1.y.raw as int,
                v.y.raw as int,
                m.c2.y.raw as int,
                v.z.raw as int,
            ) as i64,
        },
        z: Fx {
            raw: spec_dot3(
                m.c0.z.raw as int,
                v.x.raw as int,
                m.c1.z.raw as int,
                v.y.raw as int,
                m.c2.z.raw as int,
                v.z.raw as int,
            ) as i64,
        },
    }
}

/// Fixed-point dot product of two 4-vectors.
pub fn vec4_dot(a: Vec4, b: Vec4) -> (r: Fx)
    requires
        a.bounded(),
        b.bounded(),
    ensures
        r.raw == spec_dot4(
            a.x.raw as int,
            b.x.raw as int,
            a.y.raw as int,
            b.y.raw as int,
            a.z.raw as int,
            b.z.raw as int,
            a.w.raw as int,
            b.w.raw as int,
        ),
        r.bounded(),
{
    fx_add(
        fx_add(fx_add(fx_mul(a.x, b.x), fx_mul(a.y, b.y)), fx_mul(a.z, b.z)),
        fx_mul(a.w, b.w),
    )
}

/// Fixed-point dot product of two 3-vectors.
pub fn vec3_dot(a: Vec3, b: Vec3) -> (r: Fx)
    requires
        a.bounded(),
        b.bounded(),
    ensures
        r.raw == spec_dot3(
            a.x.raw as int,
            b.x.raw as int,
            a.y.raw as int,
            b.y.raw as int,
            a.z.raw as int,
            b.z.raw as int,
        ),
        r.bounded(),
{
    fx_add(fx_add(fx_mul(a.x, b.x), fx_mul(a.y, b.y)), fx_mul(a.z, b.z))
}

/// Transforms a homogeneous position by a matrix: `m * v`.
pub fn col_mat4_transform(m: &Mat4, v: Vec4) -> (r: Vec4)
    requires
        m.bounded(),
        v.bounded(),
    ensures
        r == spec_transform(*m, v),
        r.bounded(),
{
    Vec4 {
        x: vec4_dot(Vec4 { x: m.c0.x, y: m.c1.x, z: m.c2.x, w: m.c3.x }, v),
        y: vec4_dot(Vec4 { x: m.c0.y, y: m.c1.y, z: m.c2.y, w: m.c3.y }, v),
        z: vec4_dot(Vec4 { x: m.c0.z, y: m.c1.z, z: m.c2.z, w: m.c3.z }, v),
        w: vec4_dot(Vec4 { x: m.c0.w, y: m.c1.w, z: m.c2.w, w: m.c3.w }, v),
    }
}

/// Transforms a 3-vector by a 3x3 matrix: `m * v`.
pub fn col_mat3_transform(m: &Mat3, v: Vec3) -> (r: Vec3)
    requires
        m.bounded(),
        v.bounded(),
    ensures
        r == spec_transform3(*m, v),
        r.bounded(),
{
    Vec3 {
        x: vec3_dot(Vec3 { x: m.c0.x, y: m.c1.x, z: m.c2.x }, v),
        y: vec3_dot(Vec3 { x: m.c0.y, y: m.c1.y, z: m.c2.y }, v),
        z: vec3_dot(Vec3 { x: m.c0.z, y: m.c1.z, z: m.c2.z }, v),
    }
}

/// The matrix product `a * b`: column `j` of the result is `a` applied to
/// column `j` of `b`.
pub fn col_mat4_mul(a: &Mat4, b: &Mat4) -> (r: Mat4)
    requires
        a.bounded(),
        b.bounded(),
    ensures
        r.c0 == spec_transform(*a, b.c0),
        r.c1 == spec_transform(*a, b.c1),
        r.c2 == spec_transform(*a, b.c2),
        r.c3 == spec_transform(*a, b.c3),
        r.bounded(),
{
    Mat4 {
        c0: col_mat4_transform(a, b.c0),
        c1: col_mat4_transform(a, b.c1),
        c2: col_mat4_transform(a, b.c2),
        c3: col_mat4_transform(a, b.c3),
    }
}

/// The fixed-point value 1.
pub fn fx_one() -> (r: Fx)
    ensures
        r.raw == FX_SCALE,
        r.bounded(),
{
    Fx { raw: FX_SCALE }
}

/// The uniform scale matrix.
pub fn mat4_scale(s: Fx) -> (r: Mat4)
    requires
        s.bounded(),
    ensures
        r == (Mat4 {
            c0: Vec4 { x: s, y: Fx { raw: 0 }, z: Fx { raw: 0 }, w: Fx { raw: 0 } },
            c1: Vec4 { x: Fx { raw: 0 }, y: s, z: Fx { raw: 0 }, w: Fx { raw: 0 } },
            c2: Vec4 { x: Fx { raw: 0 }, y: Fx { raw: 0 }, z: s, w: Fx { raw: 0 } },
            c3: Vec4 { x: Fx { raw: 0 }, y: Fx { raw: 0 }, z: Fx { raw: 0 }, w: Fx { raw: FX_SCALE } },
        }),
        r.bounded(),
{
    let o = Fx { raw: 0 };
    Mat4 {
        c0: Vec4 { x: s, y: o, z: o, w: o },
        c1: Vec4 { x: o, y: s, z: o, w: o },
        c2: Vec4 { x: o, y: o, z: s, w: o },
        c3: Vec4 { x: o, y: o, z: o, w: Fx { raw: FX_SCALE } },
    }
}

/// Rotation about the x axis (pitch), from the angle's sine and cosine.
pub fn mat4_rotation_x(s: Fx, c: Fx) -> (r: Mat4)
    requires
        s.bounded(),
        c.bounded(),
    ensures
        r == (Mat4 {
            c0: Vec4 { x: Fx { raw: FX_SCALE }, y: Fx { raw: 0 }, z: Fx { raw: 0 }, w: Fx { raw: 0 } },
            c1: Vec4 { x: Fx { raw: 0 }, y: c, z: s, w: Fx { raw: 0 } },
            c2: Vec4 { x: Fx { raw: 0 }, y: Fx { raw: (-s.raw) as i64 }, z: c, w: Fx { raw: 0 } },
            c3: Vec4 { x: Fx { raw: 0 }, y: Fx { raw: 0 }, z: Fx { raw: 0 }, w: Fx { raw: FX_SCALE } },
        }),
        r.bounded(),
{
    let o = Fx { raw: 0 };
    Mat4 {
        c0: Vec4 { x: Fx { raw: FX_SCALE }, y: o, z: o, w: o },
        c1: Vec4 { x: o, y: c, z: s, w: o },
        c2: Vec4 { x: o, y: Fx { raw: (-s.raw) as i64 }, z: c, w: o },
        c3: Vec4 { x: o, y: o, z: o, w: Fx { raw: FX_SCALE } },
    }
}

/// Rotation about the y axis (yaw), from the angle's sine and cosine.
pub fn mat4_rotation_y(s: Fx, c: Fx) -> (r: Mat4)
    requires
        s.bounded(),
        c.bounded(),
    ensures
        r == (Mat4 {
            c0: Vec4 { x: c, y: Fx { raw: 0 }, z: Fx { raw: (-s.raw) as i64 }, w: Fx { raw: 0 } },
            c1: Vec4 { x: Fx { raw: 0 }, y: Fx { raw: FX_SCALE }, z: Fx { raw: 0 }, w: Fx { raw: 0 } },
            c2: Vec4 { x: s, y: Fx { raw: 0 }, z: c, w: Fx { raw: 0 } },
            c3: Vec4 { x: Fx { raw: 0 }, y: Fx { raw: 0 }, z: Fx { raw: 0 }, w: Fx { raw: FX_SCALE } },
        }),
        r.bounded(),
{
    let o = Fx { raw: 0 };
    Mat4 {
        c0: Vec4 { x: c, y: o, z: Fx { raw: (-s.raw) as i64 }, w: o },
        c1: Vec4 { x: o, y: Fx { raw: FX_SCALE }, z: o, w: o },
        c2: Vec4 { x: s, y: o, z: c, w: o },
        c3: Vec4 { x: o, y: o, z: o, w: Fx { raw: FX_SCALE } },
    }
}

/// Rotation about the z axis (roll), from the angle's sine and cosine.
pub fn mat4_rotation_z(s: Fx, c: Fx) -> (r: Mat4)
    requires
        s.bounded(),
        c.bounded(),
    ensures
        r == (Mat4 {
            c0: Vec4 { x: c, y: s, z: Fx { raw: 0 }, w: Fx { raw: 0 } },
            c1: Vec4 { x: Fx { raw: (-s.raw) as i64 }, y: c, z: Fx { raw: 0 }, w: Fx { raw: 0 } },
            c2: Vec4 { x: Fx { raw: 0 }, y: Fx { raw: 0 }, z: Fx { raw: FX_SCALE }, w: Fx { raw: 0 } },
            c3: Vec4 { x: Fx { raw: 0 }, y: Fx { raw: 0 }, z: Fx { raw: 0 }, w: Fx { raw: FX_SCALE } },
        }),
        r.bounded(),
{
    let o = Fx { raw: 0 };
    Mat4 {
        c0: Vec4 { x: c, y: s, z: o, w: o },
        c1: Vec4 { x: Fx { raw: (-s.raw) as i64 }, y: c, z: o, w: o },
        c2: Vec4 { x: o, y: o, z: Fx { raw: FX_SCALE }, w: o },
        c3: Vec4 { x: o, y: o, z: o, w: Fx { raw: FX_SCALE } },
    }
}

/// The translation matrix moving by `(x, y, z)`.
pub fn mat4_translation(x: Fx, y: Fx, z: Fx) -> (r: Mat4)
    requires
        x.bounded(),
        y.bounded(),
        z.bounded(),
    ensures
        r == (Mat4 {
            c0: Vec4 { x: Fx { raw: FX_SCALE }, y: Fx { raw: 0 }, z: Fx { raw: 0 }, w: Fx { raw: 0 } },
            c1: Vec4 { x: Fx { raw: 0 }, y: Fx { raw: FX_SCALE }, z: Fx { raw: 0 }, w: Fx { raw: 0 } },
            c2: Vec4 { x: Fx { raw: 0 }, y: Fx { raw: 0 }, z: Fx { raw: FX_SCALE }, w: Fx { raw: 0 } },
            c3: Vec4 { x, y, z, w: Fx { raw: FX_SCALE } },
        }),
        r.bounded(),
{
    let o = Fx { raw: 0 };
    let one = Fx { raw: FX_SCALE };
    Mat4 {
        c0: Vec4 { x: one, y: o, z: o, w: o },
        c1: Vec4 { x: o, y: one, z: o, w: o },
        c2: Vec4 { x: o, y: o, z: one, w: o },
        c3: Vec4 { x, y, z, w: one },
    }
}

} // verus!
