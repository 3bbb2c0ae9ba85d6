//! Integer 3-D vectors. A stored simulation coordinate always lies within
//! `POINT_LIMIT`, which leaves enough headroom for every intermediate
//! product of the integrator and the constraint solver to be computed
//! exactly in 128-bit arithmetic.
use vstd::prelude::*;
use crate::math::{is_sqrt_floor, isqrt, lemma_sqrt_floor_unique, sqrt_floor};

verus! {

/// Largest magnitude a stored simulation coordinate may take.
pub const POINT_LIMIT: i64 = 0x1000_0000_0000_0000;

/// Largest rest length a stick may carry; the distance between any two
/// in-domain points fits below this.
pub const REST_LIMIT: u64 = 0x4000_0000_0000_0000;

/// A 3-D vector with integer coordinates in the simulation unit.
#[derive(Clone, Copy, PartialEq, Eq, Structural, Debug)]
pub struct Vector3 {
    pub x: i64,
    pub y: i64,
    pub z: i64,
}

/// Mathematical counterpart of `Vector3`, with unbounded coordinates.
pub ghost struct V3 {
    pub x: int,
    pub y: int,
    pub z: int,
}

impl View for Vector3 {
    type V = V3;

    open spec fn view(&self) -> V3 {
        V3 { x: self.x as int, y: self.y as int, z: self.z as int }
    }
}

impl Vector3 {
    pub fn new(x: i64, y: i64, z: i64) -> (r: Self)
        ensures
            r@ == (V3 { x: x as int, y: y as int, z: z as int }),
    {
        Vector3 { x, y, z }
    }
}

/// Whether a point lies within the representable simulation domain.
pub open spec fn in_domain(v: V3) -> bool {
    &&& -(POINT_LIMIT as int) <= v.x <= POINT_LIMIT as int
    &&& -(POINT_LIMIT as int) <= v.y <= POINT_LIMIT as int
    &&& -(POINT_LIMIT as int) <= v.z <= POINT_LIMIT as int
}

pub open spec fn seq_in_domain(s: Seq<V3>) -> bool {
    forall|i: int| 0 <= i < s.len() ==> in_domain(#[trigger] s[i])
}

/// The mathematical view of a vector of stored points.
pub open spec fn views(s: Seq<Vector3>) -> Seq<V3> {
    s.map_values(|p: Vector3| p@)
}

pub open spec fn v3_sum(a: V3, b: V3) -> V3 {
    V3 { x: a.x + b.x, y: a.y + b.y, z: a.z + b.z }
}

pub open spec fn v3_diff(a: V3, b: V3) -> V3 {
    V3 { x: a.x - b.x, y: a.y - b.y, z: a.z - b.z }
}

/// Component-wise floor midpoint of two points.
pub open spec fn v3_midpoint(a: V3, b: V3) -> V3 {
    V3 { x: (a.x + b.x) / 2, y: (a.y + b.y) / 2, z: (a.z + b.z) / 2 }
}

/// Squared Euclidean distance.
pub open spec fn dist_sq(a: V3, b: V3) -> int {
    (b.x - a.x) * (b.x - a.x) + (b.y - a.y) * (b.y - a.y) + (b.z - a.z) * (b.z - a.z)
}

/// Euclidean distance, rounded down to an integer.
pub open spec fn spec_distance(a: V3, b: V3) -> int {
    sqrt_floor(dist_sq(a, b))
}

pub proof fn lemma_sqrt_below(n: int, r: int, c: int)
    requires
        is_sqrt_floor(n, r),
        0 <= c,
        n < c * c,
    ensures
        r < c,
{
    if c <= r {
        assert(false) by (nonlinear_arith)
            requires
                0 <= c <= r,
                r * r <= n,
                n < c * c,
        {}
    }
}

/// Euclidean distance between two in-domain points, rounded down.
pub fn distance(a: &Vector3, b: &Vector3) -> (r: u64)
    requires
        in_domain(a@),
        in_domain(b@),
    ensures
        r == spec_distance(a@, b@),
        is_sqrt_floor(dist_sq(a@, b@), r as int),
        r < REST_LIMIT,
{
    let dx: i128 = b.x as i128 - a.x as i128;
    let dy: i128 = b.y as i128 - a.y as i128;
    let dz: i128 = b.z as i128 - a.z as i128;
    let lim: i128 = 2 * (POINT_LIMIT as i128);
    assert(0 <= dx * dx <= 0x400_0000_0000_0000_0000_0000_0000_0000) by (nonlinear_arith)
        requires
            -0x2000_0000_0000_0000 <= dx <= 0x2000_0000_0000_0000,
    {}
    assert(0 <= dy * dy <= 0x400_0000_0000_0000_0000_0000_0000_0000) by (nonlinear_arith)
        requires
            -0x2000_0000_0000_0000 <= dy <= 0x2000_0000_0000_0000,
    {}
    assert(0 <= dz * dz <= 0x400_0000_0000_0000_0000_0000_0000_0000) by (nonlinear_arith)
        requires
            -0x2000_0000_0000_0000 <= dz <= 0x2000_0000_0000_0000,
    {}
    let d2: i128 = dx * dx + dy * dy + dz * dz;
    let r = isqrt(d2 as u128);
    proof {
        assert((0x4000_0000_0000_0000 as int) * (0x4000_0000_0000_0000 as int)
            == 0x1000_0000_0000_0000_0000_0000_0000_0000) by (nonlinear_arith);
        lemma_sqrt_below(d2 as int, r as int, 0x4000_0000_0000_0000);
    }
    r
}

} // verus!

