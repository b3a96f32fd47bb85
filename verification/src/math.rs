//! Fixed-point quantities. Lengths, speeds, quaternion components and
//! fractions are whole numbers of millionths; times are milliseconds.

use vstd::prelude::*;

verus! {

/// One whole in millionths.
pub const UNIT: i64 = 1000000;

/// Three components: a position in space, a velocity or the half-extents of
/// a box.
#[derive(Clone, Copy, Debug, PartialEq, Eq, Structural)]
pub struct Vec3 {
    pub x: i64,
    pub y: i64,
    pub z: i64,
}

/// An orientation, scalar part first.
#[derive(Clone, Copy, Debug, PartialEq, Eq, Structural)]
pub struct Quat {
    pub w: i64,
    pub x: i64,
    pub y: i64,
    pub z: i64,
}

/// An orientation as it travels: the vector part first, the scalar part last.
#[derive(Clone, Copy, Debug, PartialEq, Eq, Structural)]
pub struct WireQuat {
    pub x: i64,
    pub y: i64,
    pub z: i64,
    pub w: i64,
}

/// `v` brought into the range of a 64-bit number.
pub open spec fn clamp(v: int) -> i64 {
    if v < i64::MIN {
        i64::MIN
    } else if v > i64::MAX {
        i64::MAX
    } else {
        v as i64
    }
}

/// `v` brought into the range of a 64-bit number.
pub fn saturate(v: i128) -> (r: i64)
    ensures
        r == clamp(v as int),
{
    if v < i64::MIN as i128 {
        i64::MIN
    } else if v > i64::MAX as i128 {
        i64::MAX
    } else {
        v as i64
    }
}

/// The point at parameter `t` on the line through `a` (at 0) and `b` (at 1),
/// for a whole `t`.
pub open spec fn lerp_at(a: i64, b: i64, t: int) -> i64 {
    clamp(a + (b - a) * t)
}

/// Linear interpolation and extrapolation at a whole parameter.
pub fn lerp(a: i64, b: i64, t: u8) -> (r: i64)
    ensures
        r == lerp_at(a, b, t as int),
{
    let d: i128 = b as i128 - a as i128;
    assert(-0x100_0000_0000_0000_0000 < d * t < 0x100_0000_0000_0000_0000) by (nonlinear_arith)
        requires
            -0x1_0000_0000_0000_0000 < d < 0x1_0000_0000_0000_0000,
            0 <= t < 256,
    ;
    saturate(a as i128 + d * (t as i128))
}

/// The quotient of `a` by a positive `b`, rounded toward zero.
pub open spec fn quotient(a: int, b: int) -> int {
    if a >= 0 {
        a / b
    } else {
        -((-a) / b)
    }
}

/// Where something that was at `p`, moving at `v` per second, is `ms`
/// milliseconds later.
pub open spec fn moved(p: i64, v: i64, ms: u64) -> i64 {
    clamp(p + quotient(v * ms, 1000))
}

/// Dead reckoning for one component.
pub fn advance(p: i64, v: i64, ms: u64) -> (r: i64)
    ensures
        r == moved(p, v, ms),
{
    let wide: i128 = v as i128;
    let span: i128 = ms as i128;
    assert(-0x8000_0000_0000_0000_0000_0000_0000_0000 < wide * span
        < 0x8000_0000_0000_0000_0000_0000_0000_0000) by (nonlinear_arith)
        requires
            -0x8000_0000_0000_0000 <= wide < 0x8000_0000_0000_0000,
            0 <= span < 0x1_0000_0000_0000_0000,
    ;
    let product: i128 = wide * span;
    let step: i128 = if product >= 0 {
        product / 1000
    } else {
        -((-product) / 1000)
    };
    saturate(p as i128 + step)
}

impl Vec3 {
    /// The origin.
    pub fn zero() -> (r: Vec3)
        ensures
            r == (Vec3 { x: 0, y: 0, z: 0 }),
    {
        Vec3 { x: 0, y: 0, z: 0 }
    }

    /// Interpolation at a whole parameter, component by component.
    pub open spec fn lerp_at(a: Vec3, b: Vec3, t: int) -> Vec3 {
        Vec3 { x: lerp_at(a.x, b.x, t), y: lerp_at(a.y, b.y, t), z: lerp_at(a.z, b.z, t) }
    }

    /// Interpolation at a whole parameter, component by component.
    pub fn lerp(a: &Vec3, b: &Vec3, t: u8) -> (r: Vec3)
        ensures
            r == Vec3::lerp_at(*a, *b, t as int),
    {
        Vec3 { x: lerp(a.x, b.x, t), y: lerp(a.y, b.y, t), z: lerp(a.z, b.z, t) }
    }

    /// Whether two points lie more than `limit` apart in the ground plane.
    pub open spec fn apart_xy(a: Vec3, b: Vec3, limit: int) -> bool {
        (a.x - b.x) * (a.x - b.x) + (a.y - b.y) * (a.y - b.y) > limit * limit
    }

    /// Whether two points lie more than `limit` apart in space.
    pub open spec fn apart(a: Vec3, b: Vec3, limit: int) -> bool {
        (a.x - b.x) * (a.x - b.x) + (a.y - b.y) * (a.y - b.y) + (a.z - b.z) * (a.z - b.z) > limit
            * limit
    }

    /// Whether two heights differ by more than `limit`.
    pub open spec fn apart_z(a: Vec3, b: Vec3, limit: int) -> bool {
        a.z - b.z > limit || b.z - a.z > limit
    }

    /// Whether `self` and `other` lie more than `limit` apart in the ground
    /// plane.
    pub fn farther_xy(&self, other: &Vec3, limit: u32) -> (r: bool)
        ensures
            r == Vec3::apart_xy(*self, *other, limit as int),
    {
        let dx: i128 = self.x as i128 - other.x as i128;
        let dy: i128 = self.y as i128 - other.y as i128;
        let bound: i128 = limit as i128;
        if beyond(dx, bound) {
            proof {
                square_beyond(dx as int, bound as int);
                square_nonnegative(dy as int);
            }
            return true;
        }
        if beyond(dy, bound) {
            proof {
                square_beyond(dy as int, bound as int);
                square_nonnegative(dx as int);
            }
            return true;
        }
        proof {
            square_within(dx as int, bound as int);
            square_within(dy as int, bound as int);
            square_within(bound as int, 0xffff_ffff);
        }
        dx * dx + dy * dy > bound * bound
    }

    /// Whether `self` and `other` lie more than `limit` apart in space.
    pub fn farther(&self, other: &Vec3, limit: u32) -> (r: bool)
        ensures
            r == Vec3::apart(*self, *other, limit as int),
    {
        let dx: i128 = self.x as i128 - other.x as i128;
        let dy: i128 = self.y as i128 - other.y as i128;
        let dz: i128 = self.z as i128 - other.z as i128;
        let bound: i128 = limit as i128;
        proof {
            square_nonnegative(dx as int);
            square_nonnegative(dy as int);
            square_nonnegative(dz as int);
        }
        if beyond(dx, bound) {
            proof {
                square_beyond(dx as int, bound as int);
            }
            return true;
        }
        if beyond(dy, bound) {
            proof {
                square_beyond(dy as int, bound as int);
            }
            return true;
        }
        if beyond(dz, bound) {
            proof {
                square_beyond(dz as int, bound as int);
            }
            return true;
        }
        proof {
            square_within(dx as int, bound as int);
            square_within(dy as int, bound as int);
            square_within(dz as int, bound as int);
            square_within(bound as int, 0xffff_ffff);
        }
        dx * dx + dy * dy + dz * dz > bound * bound
    }

    /// Whether the heights of `self` and `other` differ by more than `limit`.
    pub fn farther_z(&self, other: &Vec3, limit: u32) -> (r: bool)
        ensures
            r == Vec3::apart_z(*self, *other, limit as int),
    {
        let dz: i128 = self.z as i128 - other.z as i128;
        beyond(dz, limit as i128)
    }
}

/// Whether `d` lies outside `-bound ..= bound`.
pub fn beyond(d: i128, bound: i128) -> (r: bool)
    requires
        0 <= bound < 0x1_0000_0000,
    ensures
        r == (d > bound || -d > bound),
{
    d > bound || d < -bound
}

/// A square is never negative.
pub proof fn square_nonnegative(d: int)
    ensures
        d * d >= 0,
{
    assert(d * d >= 0) by (nonlinear_arith);
}

/// What lies outside `-bound ..= bound` has a square above that of `bound`.
pub proof fn square_beyond(d: int, bound: int)
    requires
        bound >= 0,
        d > bound || -d > bound,
    ensures
        d * d > bound * bound,
{
    assert(d * d > bound * bound) by (nonlinear_arith)
        requires
            bound >= 0,
            d > bound || -d > bound,
    ;
}

/// What lies inside `-bound ..= bound` has a square of at most that of
/// `bound`.
pub proof fn square_within(d: int, bound: int)
    requires
        bound >= 0,
        -bound <= d <= bound,
    ensures
        0 <= d * d <= bound * bound,
{
    assert(0 <= d * d <= bound * bound) by (nonlinear_arith)
        requires
            bound >= 0,
            -bound <= d <= bound,
    ;
}

impl Quat {
    /// The orientation that the wire form `[x, y, z, w]` stands for.
    pub open spec fn of_wire(wire: WireQuat) -> Quat {
        Quat { w: wire.w, x: wire.x, y: wire.y, z: wire.z }
    }

    /// The wire form `[x, y, z, w]` of an orientation.
    pub open spec fn wire_of(q: Quat) -> WireQuat {
        WireQuat { x: q.x, y: q.y, z: q.z, w: q.w }
    }

    /// Takes the components from their wire order.
    pub fn from_wire(wire: &WireQuat) -> (r: Quat)
        ensures
            r == Quat::of_wire(*wire),
    {
        Quat { w: wire.w, x: wire.x, y: wire.y, z: wire.z }
    }

    /// Puts the components into their wire order.
    pub fn to_wire(&self) -> (r: WireQuat)
        ensures
            r == Quat::wire_of(*self),
    {
        WireQuat { x: self.x, y: self.y, z: self.z, w: self.w }
    }
}

impl WireQuat {
    /// Interpolation at a whole parameter, component by component.
    pub open spec fn lerp_at(a: WireQuat, b: WireQuat, t: int) -> WireQuat {
        WireQuat {
            x: lerp_at(a.x, b.x, t),
            y: lerp_at(a.y, b.y, t),
            z: lerp_at(a.z, b.z, t),
            w: lerp_at(a.w, b.w, t),
        }
    }

    /// Interpolation at a whole parameter, component by component.
    pub fn lerp(a: &WireQuat, b: &WireQuat, t: u8) -> (r: WireQuat)
        ensures
            r == WireQuat::lerp_at(*a, *b, t as int),
    {
        WireQuat {
            x: lerp(a.x, b.x, t),
            y: lerp(a.y, b.y, t),
            z: lerp(a.z, b.z, t),
            w: lerp(a.w, b.w, t),
        }
    }

    /// All components zero.
    pub fn zero() -> (r: WireQuat)
        ensures
            r == (WireQuat { x: 0, y: 0, z: 0, w: 0 }),
    {
        WireQuat { x: 0, y: 0, z: 0, w: 0 }
    }
}

/// The wire order and the internal order of an orientation's components are
/// inverse to each other.
pub proof fn wire_order_round_trip(wire: WireQuat, q: Quat)
    ensures
        Quat::wire_of(Quat::of_wire(wire)) == wire,
        Quat::of_wire(Quat::wire_of(q)) == q,
        Quat::of_wire(wire).w == wire.w,
        Quat::of_wire(wire).x == wire.x,
        Quat::of_wire(wire).y == wire.y,
        Quat::of_wire(wire).z == wire.z,
{
}

} // verus!
