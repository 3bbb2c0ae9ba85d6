//! The mesh data the simulation reads and writes: vertex positions in the
//! owner's local space, optional vertex colors (already normalized to one
//! representation by the caller), and a triangle index list in either of two
//! integer widths.
use vstd::prelude::*;
use crate::vector::{in_domain, views, Vector3};

verus! {

/// A vertex color, normalized to 16-bit channels. Colors are only ever
/// compared for exact equality when resolving anchors.
#[derive(Clone, Copy, PartialEq, Eq, Structural, Debug)]
pub struct ColorRgba {
    pub red: u16,
    pub green: u16,
    pub blue: u16,
    pub alpha: u16,
}

/// A triangle index list, in the narrow or the wide width.
pub enum MeshIndices {
    U16(Vec<u16>),
    U32(Vec<u32>),
}

impl View for MeshIndices {
    type V = Seq<int>;

    open spec fn view(&self) -> Seq<int> {
        match self {
            MeshIndices::U16(v) => v@.map_values(|i: u16| i as int),
            MeshIndices::U32(v) => v@.map_values(|i: u32| i as int),
        }
    }
}

impl MeshIndices {
    /// Normalizes either width to machine indices.
    pub fn normalized(&self) -> (r: Vec<usize>)
        ensures
            r@.map_values(|i: usize| i as int) == self@,
    {
        match self {
            MeshIndices::U16(v) => {
                let mut out: Vec<usize> = Vec::new();
                let mut k: usize = 0;
                while k < v.len()
                    invariant
                        k <= v@.len(),
                        out@.len() == k as int,
                        forall|j: int| 0 <= j < k as int ==> out@[j] as int == v@[j] as int,
                    decreases v@.len() - k,
                {
                    out.push(v[k] as usize);
                    k = k + 1;
                }
                proof {
                    assert(out@.map_values(|i: usize| i as int)
                        =~= v@.map_values(|i: u16| i as int));
                }
                out
            },
            MeshIndices::U32(v) => {
                let mut out: Vec<usize> = Vec::new();
                let mut k: usize = 0;
                while k < v.len()
                    invariant
                        k <= v@.len(),
                        out@.len() == k as int,
                        forall|j: int| 0 <= j < k as int ==> out@[j] as int == v@[j] as int,
                    decreases v@.len() - k,
                {
                    out.push(v[k] as usize);
                    k = k + 1;
                }
                proof {
                    assert(out@.map_values(|i: usize| i as int)
                        =~= v@.map_values(|i: u32| i as int));
                }
                out
            },
        }
    }
}

/// The attributes of a renderable mesh that the cloth reads and writes.
pub struct MeshData {
    /// Vertex positions in the owner's local space; required for binding.
    pub positions: Option<Vec<Vector3>>,
    /// Vertex colors; optional, used only for color-matched anchors.
    pub colors: Option<Vec<ColorRgba>>,
    /// Triangle index list; required for binding.
    pub indices: Option<MeshIndices>,
}

impl MeshData {
    pub open spec fn wf(self) -> bool {
        match self.positions {
            Some(p) => forall|i: int|
                0 <= i < p@.len() ==> in_domain(#[trigger] views(p@)[i]),
            None => true,
        }
    }
}

} // verus!
