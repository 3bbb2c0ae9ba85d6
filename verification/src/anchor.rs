//! Anchors: the description of how an anchored vertex follows the owner
//! transform, an insertion-ordered registry from vertex index to that
//! description, and the abstract position predicate used to anchor vertices
//! by their baseline position.
use vstd::prelude::*;
use vstd::map::*;
use crate::vector::{Vector3, V3};

verus! {

/// How an anchored vertex tracks the owner transform.
#[derive(Clone, Copy, PartialEq, Eq, Structural, Debug)]
pub enum VertexAnchor {
    /// The vertex follows the transform exactly.
    FollowTransform,
    /// The vertex follows the transform displaced by a fixed local offset.
    CustomOffset(Vector3),
}

impl Default for VertexAnchor {
    fn default() -> (r: Self)
        ensures
            r == VertexAnchor::FollowTransform,
    {
        VertexAnchor::FollowTransform
    }
}

/// An abstract predicate over a baseline vertex position, used to anchor
/// every vertex whose position satisfies it. Implementors state the
/// predicate as `accepts` and decide it in `matches`.
pub trait PositionCondition: Sized {
    spec fn accepts(&self, pos: V3) -> bool;

    fn matches(&self, pos: &Vector3) -> (r: bool)
        ensures
            r == self.accepts(pos@),
    ;
}

/// Anchors every vertex whose baseline x coordinate is at least a threshold.
#[derive(Clone, Copy, PartialEq, Eq, Structural, Debug)]
pub struct XAtLeast {
    pub threshold: i64,
}

impl PositionCondition for XAtLeast {
    open spec fn accepts(&self, pos: V3) -> bool {
        pos.x >= self.threshold as int
    }

    fn matches(&self, pos: &Vector3) -> (r: bool)
        ensures
            r == self.accepts(pos@),
    {
        pos.x >= self.threshold
    }
}

/// The map described by an entry list, later entries overriding earlier
/// ones.
pub open spec fn entries_map(s: Seq<(usize, VertexAnchor)>) -> Map<int, VertexAnchor>
    decreases s.len(),
{
    if s.len() == 0 {
        Map::empty()
    } else {
        entries_map(s.drop_last()).insert(s.last().0 as int, s.last().1)
    }
}

pub proof fn lemma_entries_map_contains(s: Seq<(usize, VertexAnchor)>, k: int)
    ensures
        entries_map(s).contains_key(k) <==> exists|i: int|
            0 <= i < s.len() && (#[trigger] s[i]).0 as int == k,
    decreases s.len(),
{
    if s.len() > 0 {
        lemma_entries_map_contains(s.drop_last(), k);
        if s.last().0 as int == k {
            assert(s[s.len() - 1].0 as int == k);
        } else if entries_map(s).contains_key(k) {
            let i = choose|i: int| 0 <= i < s.drop_last().len()
                && (#[trigger] s.drop_last()[i]).0 as int == k;
            assert(s[i].0 as int == k);
        } else {
            assert forall|i: int| 0 <= i < s.len() implies (#[trigger] s[i]).0 as int != k by {
                if i < s.len() - 1 {
                    assert(s.drop_last()[i] == s[i]);
                }
            }
        }
    }
}

/// With unique keys, each entry gives the map's value at its key.
pub proof fn lemma_entries_map_value(s: Seq<(usize, VertexAnchor)>, i: int)
    requires
        0 <= i < s.len(),
        forall|p: int, q: int|
            0 <= p < q < s.len() ==> (#[trigger] s[p]).0 != (#[trigger] s[q]).0,
    ensures
        entries_map(s).contains_key(s[i].0 as int),
        entries_map(s)[s[i].0 as int] == s[i].1,
    decreases s.len(),
{
    lemma_entries_map_contains(s, s[i].0 as int);
    if i == s.len() - 1 {
    } else {
        assert(s.drop_last()[i] == s[i]);
        lemma_entries_map_value(s.drop_last(), i);
        assert(s.last().0 != s[i].0);
    }
}

/// An insertion-ordered registry of anchored vertex indices. Keys are
/// unique; inserting an existing key replaces its descriptor in place.
pub struct AnchorRegistry {
    pub entries: Vec<(usize, VertexAnchor)>,
}

impl View for AnchorRegistry {
    type V = Map<int, VertexAnchor>;

    open spec fn view(&self) -> Map<int, VertexAnchor> {
        entries_map(self.entries@)
    }
}

impl AnchorRegistry {
    pub open spec fn wf(self) -> bool {
        forall|p: int, q: int|
            0 <= p < q < self.entries@.len()
                ==> (#[trigger] self.entries@[p]).0 != (#[trigger] self.entries@[q]).0
    }

    pub fn new() -> (r: Self)
        ensures
            r@ == Map::<int, VertexAnchor>::empty(),
            r.wf(),
            r.entries@.len() == 0,
    {
        AnchorRegistry { entries: Vec::new() }
    }

    pub fn is_empty(&self) -> (r: bool)
        ensures
            r <==> self.entries@.len() == 0,
            r ==> self@ == Map::<int, VertexAnchor>::empty(),
    {
        self.entries.len() == 0
    }

    /// The position of `id` among the entries, if present.
    fn find(&self, id: usize) -> (r: Option<usize>)
        ensures
            match r {
                Some(i) => i < self.entries@.len() && self.entries@[i as int].0 == id,
                None => forall|i: int|
                    0 <= i < self.entries@.len() ==> (#[trigger] self.entries@[i]).0 != id,
            },
    {
        let mut i: usize = 0;
        while i < self.entries.len()
            invariant
                i <= self.entries@.len(),
                forall|j: int| 0 <= j < i as int ==> (#[trigger] self.entries@[j]).0 != id,
            decreases self.entries@.len() - i,
        {
            if self.entries[i].0 == id {
                return Some(i);
            }
            i = i + 1;
        }
        None
    }

    pub fn contains(&self, id: usize) -> (r: bool)
        ensures
            r == self@.contains_key(id as int),
    {
        proof {
            lemma_entries_map_contains(self.entries@, id as int);
        }
        match self.find(id) {
            Some(_) => true,
            None => false,
        }
    }

    /// The descriptor registered for `id`, if any.
    pub fn get(&self, id: usize) -> (r: Option<VertexAnchor>)
        requires
            self.wf(),
        ensures
            match r {
                Some(a) => self@.contains_key(id as int) && self@[id as int] == a,
                None => !self@.contains_key(id as int),
            },
    {
        proof {
            lemma_entries_map_contains(self.entries@, id as int);
        }
        match self.find(id) {
            Some(i) => {
                proof {
                    lemma_entries_map_value(self.entries@, i as int);
                }
                Some(self.entries[i].1)
            },
            None => None,
        }
    }

    /// Registers `id`, replacing the descriptor of an existing entry.
    pub fn insert(&mut self, id: usize, anchor: VertexAnchor)
        requires
            old(self).wf(),
        ensures
            final(self).wf(),
            final(self)@ == old(self)@.insert(id as int, anchor),
    {
        let found = self.find(id);
        match found {
            Some(i) => {
                self.entries.set(i, (id, anchor));
                proof {
                    lemma_entries_map_update(old(self).entries@, i as int, id, anchor);
                }
            },
            None => {
                self.entries.push((id, anchor));
                proof {
                    assert(self.entries@.drop_last() =~= old(self).entries@);
                }
            },
        }
    }

    /// Registers `id` only when it is not present yet.
    pub fn insert_if_absent(&mut self, id: usize, anchor: VertexAnchor)
        requires
            old(self).wf(),
        ensures
            final(self).wf(),
            final(self)@ == if old(self)@.contains_key(id as int) {
                old(self)@
            } else {
                old(self)@.insert(id as int, anchor)
            },
    {
        if !self.contains(id) {
            self.insert(id, anchor);
        }
    }

    /// A copy of the registry.
    pub fn duplicate(&self) -> (r: Self)
        ensures
            r.entries@ == self.entries@,
            r@ == self@,
            r.wf() == self.wf(),
    {
        let mut out: Vec<(usize, VertexAnchor)> = Vec::new();
        let mut i: usize = 0;
        while i < self.entries.len()
            invariant
                i <= self.entries@.len(),
                out@ == self.entries@.take(i as int),
            decreases self.entries@.len() - i,
        {
            out.push(self.entries[i]);
            i = i + 1;
        }
        proof {
            assert(out@ =~= self.entries@);
        }
        AnchorRegistry { entries: out }
    }

    /// The registered vertex indices, in insertion order.
    pub fn ids(&self) -> (r: Vec<usize>)
        ensures
            r@.len() == self.entries@.len(),
            forall|i: int|
                0 <= i < r@.len() ==> r@[i] == (#[trigger] self.entries@[i]).0,
    {
        let mut out: Vec<usize> = Vec::new();
        let mut i: usize = 0;
        while i < self.entries.len()
            invariant
                i <= self.entries@.len(),
                out@.len() == i as int,
                forall|j: int| 0 <= j < i as int ==> out@[j] == (#[trigger] self.entries@[j]).0,
            decreases self.entries@.len() - i,
        {
            out.push(self.entries[i].0);
            i = i + 1;
        }
        out
    }
}

/// Replacing the descriptor stored at position `i` is the same as inserting
/// its key, when keys are unique.
proof fn lemma_entries_map_update(
    s: Seq<(usize, VertexAnchor)>,
    i: int,
    id: usize,
    anchor: VertexAnchor,
)
    requires
        0 <= i < s.len(),
        s[i].0 == id,
        forall|p: int, q: int|
            0 <= p < q < s.len() ==> (#[trigger] s[p]).0 != (#[trigger] s[q]).0,
    ensures
        entries_map(s.update(i, (id, anchor))) == entries_map(s).insert(id as int, anchor),
    decreases s.len(),
{
    let s2 = s.update(i, (id, anchor));
    if i == s.len() - 1 {
        assert(s2.drop_last() =~= s.drop_last());
        assert(entries_map(s2) =~= entries_map(s).insert(id as int, anchor));
    } else {
        assert(s2.drop_last() =~= s.drop_last().update(i, (id, anchor)));
        assert(s.drop_last()[i] == s[i]);
        lemma_entries_map_update(s.drop_last(), i, id, anchor);
        assert(s.last().0 != id);
        assert(s2.last() == s.last());
        assert(entries_map(s2) =~= entries_map(s).insert(id as int, anchor));
    }
}

} // verus!
