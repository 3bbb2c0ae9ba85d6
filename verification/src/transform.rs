//! The owner transform: an affine map with a fixed-point 3x3 block
//! (denominator `MAT_SCALE`) and an integer translation. Applying it to an
//! in-domain point is exact 128-bit arithmetic followed by a floor division;
//! a result outside the simulation domain is reported as `None`.
use vstd::prelude::*;
use vstd::arithmetic::div_mod::lemma_div_multiples_vanish;
use crate::math::div_floor;
use crate::vector::{in_domain, v3_sum, Vector3, V3, POINT_LIMIT};

verus! {

/// Fixed-point denominator of the rotation/scale entries.
pub const MAT_SCALE: i64 = 65536;

/// Largest magnitude of a rotation/scale entry.
pub const MAT_ENTRY_LIMIT: i64 = 0x100_0000_0000;

/// An affine transform from the owner's local space to simulation space.
#[derive(Clone, Copy, PartialEq, Eq, Structural, Debug)]
pub struct Transform {
    pub m00: i64,
    pub m01: i64,
    pub m02: i64,
    pub m10: i64,
    pub m11: i64,
    pub m12: i64,
    pub m20: i64,
    pub m21: i64,
    pub m22: i64,
    pub translation: Vector3,
}

pub open spec fn entry_ok(e: i64) -> bool {
    -(MAT_ENTRY_LIMIT as int) <= e as int <= MAT_ENTRY_LIMIT as int
}

impl Transform {
    pub open spec fn wf(self) -> bool {
        &&& entry_ok(self.m00) && entry_ok(self.m01) && entry_ok(self.m02)
        &&& entry_ok(self.m10) && entry_ok(self.m11) && entry_ok(self.m12)
        &&& entry_ok(self.m20) && entry_ok(self.m21) && entry_ok(self.m22)
        &&& in_domain(self.translation@)
    }

    /// Pure translation: does the rotation/scale block leave points as they
    /// are?
    pub open spec fn is_translation(self) -> bool {
        &&& self.m00 == MAT_SCALE && self.m11 == MAT_SCALE && self.m22 == MAT_SCALE
        &&& self.m01 == 0 && self.m02 == 0
        &&& self.m10 == 0 && self.m12 == 0
        &&& self.m20 == 0 && self.m21 == 0
    }

    /// The identity transform.
    pub fn identity() -> (r: Self)
        ensures
            r.wf(),
            r.is_translation(),
            r.translation@ == (V3 { x: 0, y: 0, z: 0 }),
    {
        Transform {
            m00: MAT_SCALE,
            m01: 0,
            m02: 0,
            m10: 0,
            m11: MAT_SCALE,
            m12: 0,
            m20: 0,
            m21: 0,
            m22: MAT_SCALE,
            translation: Vector3 { x: 0, y: 0, z: 0 },
        }
    }

    /// A transform that only translates by `t`.
    pub fn translation_only(t: Vector3) -> (r: Self)
        requires
            in_domain(t@),
        ensures
            r.wf(),
            r.is_translation(),
            r.translation == t,
    {
        Transform {
            m00: MAT_SCALE,
            m01: 0,
            m02: 0,
            m10: 0,
            m11: MAT_SCALE,
            m12: 0,
            m20: 0,
            m21: 0,
            m22: MAT_SCALE,
            translation: t,
        }
    }

    /// Applies the transform to `v`, mathematically (no domain check).
    pub open spec fn raw_apply(self, v: V3) -> V3 {
        V3 {
            x: (self.m00 * v.x + self.m01 * v.y + self.m02 * v.z) / (MAT_SCALE as int)
                + self.translation@.x,
            y: (self.m10 * v.x + self.m11 * v.y + self.m12 * v.z) / (MAT_SCALE as int)
                + self.translation@.y,
            z: (self.m20 * v.x + self.m21 * v.y + self.m22 * v.z) / (MAT_SCALE as int)
                + self.translation@.z,
        }
    }

    /// Applies the transform; `None` when the image leaves the simulation
    /// domain.
    pub open spec fn spec_apply(self, v: V3) -> Option<V3> {
        let w = self.raw_apply(v);
        if in_domain(w) {
            Some(w)
        } else {
            None
        }
    }

    pub fn transform_point(&self, v: &Vector3) -> (r: Option<Vector3>)
        requires
            self.wf(),
            in_domain(v@),
        ensures
            match r {
                Some(w) => self.spec_apply(v@) == Some(w@) && in_domain(w@),
                None => self.spec_apply(v@) is None,
            },
    {
        let rx: i128 = row_apply(self.m00, self.m01, self.m02, self.translation.x, v);
        let ry: i128 = row_apply(self.m10, self.m11, self.m12, self.translation.y, v);
        let rz: i128 = row_apply(self.m20, self.m21, self.m22, self.translation.z, v);
        let lim: i128 = POINT_LIMIT as i128;
        if -lim <= rx && rx <= lim && -lim <= ry && ry <= lim && -lim <= rz && rz <= lim {
            Some(Vector3 { x: rx as i64, y: ry as i64, z: rz as i64 })
        } else {
            None
        }
    }
}

/// One row of the affine application: `(m0*x + m1*y + m2*z) / MAT_SCALE + tr`.
fn row_apply(m0: i64, m1: i64, m2: i64, tr: i64, v: &Vector3) -> (r: i128)
    requires
        entry_ok(m0),
        entry_ok(m1),
        entry_ok(m2),
        -(POINT_LIMIT as int) <= tr as int <= POINT_LIMIT as int,
        in_domain(v@),
    ensures
        r == (m0 * v@.x + m1 * v@.y + m2 * v@.z) / (MAT_SCALE as int) + tr,
{
    assert(-0x10_0000_0000_0000_0000_0000_0000 <= (m0 as int) * v@.x
        && (m0 as int) * v@.x <= 0x10_0000_0000_0000_0000_0000_0000) by (nonlinear_arith)
        requires
            -0x100_0000_0000 <= m0 as int <= 0x100_0000_0000,
            -0x1000_0000_0000_0000 <= v@.x <= 0x1000_0000_0000_0000,
    {}
    assert(-0x10_0000_0000_0000_0000_0000_0000 <= (m1 as int) * v@.y
        && (m1 as int) * v@.y <= 0x10_0000_0000_0000_0000_0000_0000) by (nonlinear_arith)
        requires
            -0x100_0000_0000 <= m1 as int <= 0x100_0000_0000,
            -0x1000_0000_0000_0000 <= v@.y <= 0x1000_0000_0000_0000,
    {}
    assert(-0x10_0000_0000_0000_0000_0000_0000 <= (m2 as int) * v@.z
        && (m2 as int) * v@.z <= 0x10_0000_0000_0000_0000_0000_0000) by (nonlinear_arith)
        requires
            -0x100_0000_0000 <= m2 as int <= 0x100_0000_0000,
            -0x1000_0000_0000_0000 <= v@.z <= 0x1000_0000_0000_0000,
    {}
    let px: i128 = (m0 as i128) * (v.x as i128);
    let py: i128 = (m1 as i128) * (v.y as i128);
    let pz: i128 = (m2 as i128) * (v.z as i128);
    let q: i128 = div_floor(px + py + pz, MAT_SCALE as i128);
    q + (tr as i128)
}

/// A pure translation moves every point by exactly its translation vector.
pub proof fn lemma_translation_apply(t: Transform, v: V3)
    requires
        t.is_translation(),
    ensures
        t.raw_apply(v) == v3_sum(v, t.translation@),
{
    let s = MAT_SCALE as int;
    assert(t.m00 * v.x + t.m01 * v.y + t.m02 * v.z == s * v.x) by (nonlinear_arith)
        requires
            t.m00 == s,
            t.m01 == 0,
            t.m02 == 0,
    {}
    assert(t.m10 * v.x + t.m11 * v.y + t.m12 * v.z == s * v.y) by (nonlinear_arith)
        requires
            t.m11 == s,
            t.m10 == 0,
            t.m12 == 0,
    {}
    assert(t.m20 * v.x + t.m21 * v.y + t.m22 * v.z == s * v.z) by (nonlinear_arith)
        requires
            t.m22 == s,
            t.m20 == 0,
            t.m21 == 0,
    {}
    lemma_div_multiples_vanish(v.x, s);
    lemma_div_multiples_vanish(v.y, s);
    lemma_div_multiples_vanish(v.z, s);
}

} // verus!
