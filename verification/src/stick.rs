//! A stick is a distance constraint between two points of the cloth,
//! carrying the rest length measured at bind time. A stick that exceeded the
//! configured tension limit is marked broken and takes no further part in
//! the simulation.
use vstd::prelude::*;
use crate::vector::REST_LIMIT;

verus! {

/// A distance constraint between the points at the two stored indices.
#[derive(Clone, Copy, PartialEq, Eq, Structural, Debug)]
pub struct Stick {
    pub point_a_index: usize,
    pub point_b_index: usize,
    /// Rest length, the Euclidean distance between the endpoints at bind
    /// time.
    pub length: u64,
    /// Whether the stick has broken under tension; a broken stick is skipped
    /// by every later pass and tick.
    pub broken: bool,
}

impl Stick {
    pub open spec fn wf(self) -> bool {
        self.length <= REST_LIMIT
    }
}

pub open spec fn sticks_wf(s: Seq<Stick>) -> bool {
    forall|i: int| 0 <= i < s.len() ==> (#[trigger] s[i]).wf()
}

} // verus!
