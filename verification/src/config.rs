//! Read-only simulation configuration, resolved once and shared by every
//! tick: gravity, per-tick velocity retention, relaxation depth and the
//! optional tension limit beyond which a stick breaks.
use vstd::prelude::*;
use crate::vector::{in_domain, Vector3};

verus! {

/// Configuration of a cloth instance.
///
/// `damping_permille` is the fraction of velocity kept per tick, in
/// thousandths (0 = velocity erased, 1000 = no friction).
/// `max_tension_permille`, when present, is the ratio of current length to
/// rest length (in thousandths, at least 1000) above which a stick breaks.
#[derive(Clone, Copy, PartialEq, Eq, Structural, Debug)]
pub struct ClothConfig {
    /// Acceleration applied to free points, in units per second squared.
    pub gravity: Vector3,
    /// Velocity retention per tick, in thousandths, at most 1000.
    pub damping_permille: u16,
    /// Number of constraint relaxation passes per tick.
    pub sticks_computation_depth: u32,
    /// Optional breaking tension as a permille ratio, at least 1000.
    pub max_tension_permille: Option<u32>,
}

impl ClothConfig {
    pub open spec fn wf(self) -> bool {
        &&& in_domain(self.gravity@)
        &&& self.damping_permille <= 1000
        &&& match self.max_tension_permille {
            Some(t) => 1000 <= t,
            None => true,
        }
    }
}

impl Default for ClothConfig {
    /// Gentle downward gravity, light friction, five relaxation passes and
    /// no stick breaking.
    fn default() -> (r: Self)
        ensures
            r.wf(),
            r.gravity@.x == 0 && r.gravity@.y == -9810 && r.gravity@.z == 0,
            r.damping_permille == 980,
            r.sticks_computation_depth == 5,
            r.max_tension_permille is None,
    {
        ClothConfig {
            gravity: Vector3 { x: 0, y: -9810, z: 0 },
            damping_permille: 980,
            sticks_computation_depth: 5,
            max_tension_permille: None,
        }
    }
}

} // verus!
