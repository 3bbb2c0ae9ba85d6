//! Builder component for cloth behaviour: every available option for cloth
//! generation, and the resolution of anchored vertices from explicit ids,
//! matched vertex colors and position predicates.
use vstd::prelude::*;
use vstd::map::*;
use crate::anchor::{AnchorRegistry, PositionCondition, VertexAnchor};
use crate::mesh::{ColorRgba, MeshData};
use crate::vector::{views, Vector3, V3};

verus! {

/// How cloth sticks get generated from the triangle list.
#[derive(Clone, Copy, PartialEq, Eq, Structural, Debug)]
pub enum StickGeneration {
    /// Three sticks per triangle.
    Triangles,
    /// Sticks along quad edges only.
    Quads,
}

/// How the rest length of generated sticks is chosen.
#[derive(Clone, Copy, PartialEq, Eq, Structural, Debug)]
pub enum StickLen {
    /// Measure the distance between the endpoints at bind time.
    Auto,
    /// A fixed rest length in simulation units.
    Fixed(u64),
}

/// Default behaviour of a stick under tension.
#[derive(Clone, Copy, PartialEq, Eq, Structural, Debug)]
pub enum StickMode {
    /// The stick never breaks.
    Fixed,
    /// The stick breaks above a permille tension ratio.
    Breakable(u32),
}

/// How mesh normals are recomputed after simulation.
#[derive(Clone, Copy, PartialEq, Eq, Structural, Debug)]
pub enum NormalComputing {
    /// Leave the normals untouched.
    NoNormals,
    /// Smooth per-vertex normals.
    SmoothNormals,
    /// Flat per-face normals, duplicating shared vertices.
    FlatNormals,
}

/// The first configured color entry matching `c`, searching from `j`.
pub open spec fn first_color_anchor_from(
    cfg: Seq<(ColorRgba, VertexAnchor)>,
    c: ColorRgba,
    j: int,
) -> Option<VertexAnchor>
    decreases cfg.len() - j,
{
    if j < 0 || j >= cfg.len() {
        None
    } else if cfg[j].0 == c {
        Some(cfg[j].1)
    } else {
        first_color_anchor_from(cfg, c, j + 1)
    }
}

/// The first configured position condition accepting `pos`, from `j`.
pub open spec fn first_condition_anchor_from<C: PositionCondition>(
    cfg: Seq<(C, VertexAnchor)>,
    pos: V3,
    j: int,
) -> Option<VertexAnchor>
    decreases cfg.len() - j,
{
    if j < 0 || j >= cfg.len() {
        None
    } else if cfg[j].0.accepts(pos) {
        Some(cfg[j].1)
    } else {
        first_condition_anchor_from(cfg, pos, j + 1)
    }
}

/// The anchor map after matching the first `k` vertex colors; a vertex
/// already anchored by an earlier source keeps its descriptor.
pub open spec fn resolve_colors_upto(
    m: Map<int, VertexAnchor>,
    cfg: Seq<(ColorRgba, VertexAnchor)>,
    colors: Seq<ColorRgba>,
    k: int,
) -> Map<int, VertexAnchor>
    decreases k,
{
    if k <= 0 {
        m
    } else {
        let m1 = resolve_colors_upto(m, cfg, colors, k - 1);
        match first_color_anchor_from(cfg, colors[k - 1], 0) {
            Some(a) => if m1.contains_key(k - 1) {
                m1
            } else {
                m1.insert(k - 1, a)
            },
            None => m1,
        }
    }
}

/// The anchor map after testing the first `k` vertex positions.
pub open spec fn resolve_conditions_upto<C: PositionCondition>(
    m: Map<int, VertexAnchor>,
    cfg: Seq<(C, VertexAnchor)>,
    ps: Seq<V3>,
    k: int,
) -> Map<int, VertexAnchor>
    decreases k,
{
    if k <= 0 {
        m
    } else {
        let m1 = resolve_conditions_upto(m, cfg, ps, k - 1);
        match first_condition_anchor_from(cfg, ps[k - 1], 0) {
            Some(a) => if m1.contains_key(k - 1) {
                m1
            } else {
                m1.insert(k - 1, a)
            },
            None => m1,
        }
    }
}

/// Builder component for cloth behaviour, defining every available option
/// for cloth generation.
pub struct ClothBuilder<C: PositionCondition> {
    /// Cloth vertex ids anchored to the owner transform.
    pub anchored_vertex_ids: AnchorRegistry,
    /// Vertex colors whose exact matches are anchored.
    pub anchored_vertex_colors: Vec<(ColorRgba, VertexAnchor)>,
    /// Conditions on the baseline vertex position; a vertex whose position
    /// satisfies one is anchored.
    pub anchored_position_conditions: Vec<(C, VertexAnchor)>,
    /// How cloth sticks get generated.
    pub stick_generation: StickGeneration,
    /// Cloth sticks target length.
    pub stick_length: StickLen,
    /// Computation mode of vertex normals.
    pub normals_computing: NormalComputing,
    /// Default behaviour for cloth sticks.
    pub default_stick_mode: StickMode,
}

/// The resolved anchor map of a builder against a mesh: explicit ids first,
/// then color matches, then position-condition matches; an earlier source
/// always wins for a vertex matched by several.
pub open spec fn spec_resolve<C: PositionCondition>(
    b: ClothBuilder<C>,
    mesh: MeshData,
) -> Map<int, VertexAnchor> {
    let m0 = b.anchored_vertex_ids@;
    let m1 = if b.anchored_vertex_colors@.len() > 0 && mesh.colors is Some {
        resolve_colors_upto(
            m0,
            b.anchored_vertex_colors@,
            mesh.colors->0@,
            mesh.colors->0@.len() as int,
        )
    } else {
        m0
    };
    if b.anchored_position_conditions@.len() > 0 && mesh.positions is Some {
        resolve_conditions_upto(
            m1,
            b.anchored_position_conditions@,
            views(mesh.positions->0@),
            mesh.positions->0@.len() as int,
        )
    } else {
        m1
    }
}

impl<C: PositionCondition> ClothBuilder<C> {
    pub open spec fn wf(self) -> bool {
        self.anchored_vertex_ids.wf()
    }

    /// Instantiates a new `ClothBuilder` with no anchors, automatic stick
    /// lengths, triangle stick generation and smooth normals.
    pub fn new() -> (r: Self)
        ensures
            r.wf(),
            r.anchored_vertex_ids@ == Map::<int, VertexAnchor>::empty(),
            r.anchored_vertex_colors@.len() == 0,
            r.anchored_position_conditions@.len() == 0,
            r.stick_generation == StickGeneration::Triangles,
            r.stick_length == StickLen::Auto,
            r.normals_computing == NormalComputing::SmoothNormals,
            r.default_stick_mode == StickMode::Fixed,
    {
        ClothBuilder {
            anchored_vertex_ids: AnchorRegistry::new(),
            anchored_vertex_colors: Vec::new(),
            anchored_position_conditions: Vec::new(),
            stick_generation: StickGeneration::Triangles,
            stick_length: StickLen::Auto,
            normals_computing: NormalComputing::SmoothNormals,
            default_stick_mode: StickMode::Fixed,
        }
    }

    /// Pins the given vertex ids to the owner transform.
    pub fn with_fixed_points(self, fixed_points: &Vec<usize>) -> (r: Self)
        requires
            self.wf(),
        ensures
            r.wf(),
            r == (ClothBuilder { anchored_vertex_ids: r.anchored_vertex_ids, ..self }),
            forall|k: int|
                r.anchored_vertex_ids@.contains_key(k)
                    <==> self.anchored_vertex_ids@.contains_key(k) || exists|j: int|
                    0 <= j < fixed_points@.len() && (#[trigger] fixed_points@[j]) as int == k,
            forall|k: int|
                r.anchored_vertex_ids@.contains_key(k)
                    ==> r.anchored_vertex_ids@[k] == (if exists|j: int|
                    0 <= j < fixed_points@.len() && (#[trigger] fixed_points@[j]) as int == k {
                    VertexAnchor::FollowTransform
                } else {
                    self.anchored_vertex_ids@[k]
                }),
    {
        self.with_anchored_vertex_ids(fixed_points, VertexAnchor::FollowTransform)
    }

    /// Pins the given vertex ids to the owner transform.
    pub fn with_pinned_vertex_ids(self, pinned_ids: &Vec<usize>) -> (r: Self)
        requires
            self.wf(),
        ensures
            r.wf(),
            r == (ClothBuilder { anchored_vertex_ids: r.anchored_vertex_ids, ..self }),
            forall|k: int|
                r.anchored_vertex_ids@.contains_key(k)
                    <==> self.anchored_vertex_ids@.contains_key(k) || exists|j: int|
                    0 <= j < pinned_ids@.len() && (#[trigger] pinned_ids@[j]) as int == k,
            forall|k: int|
                r.anchored_vertex_ids@.contains_key(k)
                    ==> r.anchored_vertex_ids@[k] == (if exists|j: int|
                    0 <= j < pinned_ids@.len() && (#[trigger] pinned_ids@[j]) as int == k {
                    VertexAnchor::FollowTransform
                } else {
                    self.anchored_vertex_ids@[k]
                }),
    {
        self.with_anchored_vertex_ids(pinned_ids, VertexAnchor::FollowTransform)
    }

    /// Pins one vertex id to the owner transform.
    pub fn with_pinned_vertex_id(self, pinned_id: usize) -> (r: Self)
        requires
            self.wf(),
        ensures
            r.wf(),
            r == (ClothBuilder { anchored_vertex_ids: r.anchored_vertex_ids, ..self }),
            r.anchored_vertex_ids@ == self.anchored_vertex_ids@.insert(
                pinned_id as int,
                VertexAnchor::FollowTransform,
            ),
    {
        self.with_anchored_vertex_id(pinned_id, VertexAnchor::FollowTransform)
    }

    /// Anchors the given vertex ids with a custom descriptor.
    pub fn with_anchored_vertex_ids(self, vertex_ids: &Vec<usize>, vertex_anchor: VertexAnchor) -> (r:
        Self)
        requires
            self.wf(),
        ensures
            r.wf(),
            r == (ClothBuilder { anchored_vertex_ids: r.anchored_vertex_ids, ..self }),
            forall|k: int|
                r.anchored_vertex_ids@.contains_key(k)
                    <==> self.anchored_vertex_ids@.contains_key(k) || exists|j: int|
                    0 <= j < vertex_ids@.len() && (#[trigger] vertex_ids@[j]) as int == k,
            forall|k: int|
                r.anchored_vertex_ids@.contains_key(k)
                    ==> r.anchored_vertex_ids@[k] == (if exists|j: int|
                    0 <= j < vertex_ids@.len() && (#[trigger] vertex_ids@[j]) as int == k {
                    vertex_anchor
                } else {
                    self.anchored_vertex_ids@[k]
                }),
    {
        let mut out = self;
        let mut i: usize = 0;
        while i < vertex_ids.len()
            invariant
                i <= vertex_ids@.len(),
                out.wf(),
                out == (ClothBuilder { anchored_vertex_ids: out.anchored_vertex_ids, ..self }),
                forall|k: int|
                    out.anchored_vertex_ids@.contains_key(k)
                        <==> self.anchored_vertex_ids@.contains_key(k) || exists|j: int|
                        0 <= j < i as int && (#[trigger] vertex_ids@[j]) as int == k,
                forall|k: int|
                    out.anchored_vertex_ids@.contains_key(k)
                        ==> out.anchored_vertex_ids@[k] == (if exists|j: int|
                        0 <= j < i as int && (#[trigger] vertex_ids@[j]) as int == k {
                        vertex_anchor
                    } else {
                        self.anchored_vertex_ids@[k]
                    }),
            decreases vertex_ids@.len() - i,
        {
            let id = vertex_ids[i];
            out.anchored_vertex_ids.insert(id, vertex_anchor);
            proof {
                assert(vertex_ids@[i as int] as int == id as int);
            }
            i = i + 1;
        }
        out
    }

    /// Anchors one vertex id with a custom descriptor.
    pub fn with_anchored_vertex_id(self, vertex_id: usize, vertex_anchor: VertexAnchor) -> (r: Self)
        requires
            self.wf(),
        ensures
            r.wf(),
            r == (ClothBuilder { anchored_vertex_ids: r.anchored_vertex_ids, ..self }),
            r.anchored_vertex_ids@ == self.anchored_vertex_ids@.insert(
                vertex_id as int,
                vertex_anchor,
            ),
    {
        let mut out = self;
        out.anchored_vertex_ids.insert(vertex_id, vertex_anchor);
        out
    }

    /// Pins every vertex of one of the given colors to the owner transform.
    pub fn with_pinned_vertex_colors(self, vertex_colors: &Vec<ColorRgba>) -> (r: Self)
        requires
            self.wf(),
        ensures
            r.wf(),
            r == (ClothBuilder { anchored_vertex_colors: r.anchored_vertex_colors, ..self }),
            r.anchored_vertex_colors@ == self.anchored_vertex_colors@.add(
                vertex_colors@.map_values(|c: ColorRgba| (c, VertexAnchor::FollowTransform)),
            ),
    {
        self.with_anchored_vertex_colors(vertex_colors, VertexAnchor::FollowTransform)
    }

    /// Pins every vertex of the given color to the owner transform.
    pub fn with_pinned_vertex_color(self, vertex_color: ColorRgba) -> (r: Self)
        requires
            self.wf(),
        ensures
            r.wf(),
            r == (ClothBuilder { anchored_vertex_colors: r.anchored_vertex_colors, ..self }),
            r.anchored_vertex_colors@ == self.anchored_vertex_colors@.push(
                (vertex_color, VertexAnchor::FollowTransform),
            ),
    {
        self.with_anchored_vertex_color(vertex_color, VertexAnchor::FollowTransform)
    }

    /// Anchors every vertex of one of the given colors with a custom
    /// descriptor.
    pub fn with_anchored_vertex_colors(
        self,
        vertex_colors: &Vec<ColorRgba>,
        vertex_anchor: VertexAnchor,
    ) -> (r: Self)
        requires
            self.wf(),
        ensures
            r.wf(),
            r == (ClothBuilder { anchored_vertex_colors: r.anchored_vertex_colors, ..self }),
            r.anchored_vertex_colors@ == self.anchored_vertex_colors@.add(
                vertex_colors@.map_values(|c: ColorRgba| (c, vertex_anchor)),
            ),
    {
        let mut out = self;
        let mut i: usize = 0;
        while i < vertex_colors.len()
            invariant
                i <= vertex_colors@.len(),
                out.wf(),
                out == (ClothBuilder { anchored_vertex_colors: out.anchored_vertex_colors, ..self }),
                out.anchored_vertex_colors@ == self.anchored_vertex_colors@.add(
                    vertex_colors@.take(i as int).map_values(|c: ColorRgba| (c, vertex_anchor)),
                ),
            decreases vertex_colors@.len() - i,
        {
            let c = vertex_colors[i];
            out.anchored_vertex_colors.push((c, vertex_anchor));
            proof {
                assert(out.anchored_vertex_colors@ =~= self.anchored_vertex_colors@.add(
                    vertex_colors@.take(i as int + 1).map_values(
                        |cc: ColorRgba| (cc, vertex_anchor),
                    ),
                ));
            }
            i = i + 1;
        }
        proof {
            assert(vertex_colors@.take(vertex_colors@.len() as int) =~= vertex_colors@);
        }
        out
    }

    /// Anchors every vertex of the given color with a custom descriptor.
    pub fn with_anchored_vertex_color(self, vertex_color: ColorRgba, vertex_anchor: VertexAnchor) -> (r:
        Self)
        requires
            self.wf(),
        ensures
            r.wf(),
            r == (ClothBuilder { anchored_vertex_colors: r.anchored_vertex_colors, ..self }),
            r.anchored_vertex_colors@ == self.anchored_vertex_colors@.push(
                (vertex_color, vertex_anchor),
            ),
    {
        let mut out = self;
        out.anchored_vertex_colors.push((vertex_color, vertex_anchor));
        out
    }

    /// Pins every vertex whose baseline position satisfies the condition.
    pub fn with_pinned_vertex_positions(self, condition: C) -> (r: Self)
        requires
            self.wf(),
        ensures
            r.wf(),
            r == (ClothBuilder {
                anchored_position_conditions: r.anchored_position_conditions,
                ..self
            }),
            r.anchored_position_conditions@ == self.anchored_position_conditions@.push(
                (condition, VertexAnchor::FollowTransform),
            ),
    {
        self.with_anchored_vertex_positions(condition, VertexAnchor::FollowTransform)
    }

    /// Anchors every vertex whose baseline position satisfies the condition.
    pub fn with_anchored_vertex_positions(self, condition: C, vertex_anchor: VertexAnchor) -> (r: Self)
        requires
            self.wf(),
        ensures
            r.wf(),
            r == (ClothBuilder {
                anchored_position_conditions: r.anchored_position_conditions,
                ..self
            }),
            r.anchored_position_conditions@ == self.anchored_position_conditions@.push(
                (condition, vertex_anchor),
            ),
    {
        let mut out = self;
        out.anchored_position_conditions.push((condition, vertex_anchor));
        out
    }

    /// Sets the stick generation option.
    pub fn with_stick_generation(self, stick_generation: StickGeneration) -> (r: Self)
        ensures
            r == (ClothBuilder { stick_generation, ..self }),
    {
        ClothBuilder { stick_generation, ..self }
    }

    /// Sets the default stick mode option.
    pub fn with_stick_mode(self, stick_mode: StickMode) -> (r: Self)
        ensures
            r == (ClothBuilder { default_stick_mode: stick_mode, ..self }),
    {
        ClothBuilder { default_stick_mode: stick_mode, ..self }
    }

    /// Sets the stick target length option.
    pub fn with_stick_length(self, stick_len: StickLen) -> (r: Self)
        ensures
            r == (ClothBuilder { stick_length: stick_len, ..self }),
    {
        ClothBuilder { stick_length: stick_len, ..self }
    }

    /// The mesh normals will not be recomputed.
    pub fn without_normal_computation(self) -> (r: Self)
        ensures
            r == (ClothBuilder { normals_computing: NormalComputing::NoNormals, ..self }),
    {
        ClothBuilder { normals_computing: NormalComputing::NoNormals, ..self }
    }

    /// The cloth will compute smooth vertex normals.
    pub fn with_smooth_normal_computation(self) -> (r: Self)
        ensures
            r == (ClothBuilder { normals_computing: NormalComputing::SmoothNormals, ..self }),
    {
        ClothBuilder { normals_computing: NormalComputing::SmoothNormals, ..self }
    }

    /// The cloth will compute smooth vertex normals.
    pub fn with_smooth_normals(self) -> (r: Self)
        ensures
            r == (ClothBuilder { normals_computing: NormalComputing::SmoothNormals, ..self }),
    {
        ClothBuilder { normals_computing: NormalComputing::SmoothNormals, ..self }
    }

    /// The cloth will compute flat vertex normals.
    pub fn with_flat_normal_computation(self) -> (r: Self)
        ensures
            r == (ClothBuilder { normals_computing: NormalComputing::FlatNormals, ..self }),
    {
        ClothBuilder { normals_computing: NormalComputing::FlatNormals, ..self }
    }

    /// The cloth will compute flat vertex normals.
    pub fn with_flat_normals(self) -> (r: Self)
        ensures
            r == (ClothBuilder { normals_computing: NormalComputing::FlatNormals, ..self }),
    {
        ClothBuilder { normals_computing: NormalComputing::FlatNormals, ..self }
    }

    /// Resolves all anchored vertex ids: the explicit ids, every vertex
    /// whose color exactly matches a configured color, and every vertex
    /// whose baseline position satisfies a configured condition. A vertex
    /// matched by several sources keeps the first source's descriptor.
    /// A missing color or position attribute skips that source.
    pub fn anchored_vertex_ids(&self, mesh: &MeshData) -> (r: AnchorRegistry)
        requires
            self.wf(),
        ensures
            r.wf(),
            r@ == spec_resolve(*self, *mesh),
    {
        let mut res = self.anchored_vertex_ids.duplicate();
        if self.anchored_vertex_colors.len() > 0 {
            match &mesh.colors {
                Some(colors) => {
                    let ghost m0 = self.anchored_vertex_ids@;
                    let ghost cfg = self.anchored_vertex_colors@;
                    let cn = colors.len();
                    let mut i: usize = 0;
                    while i < cn
                        invariant
                            i <= cn,
                            cn == colors@.len(),
                            cfg == self.anchored_vertex_colors@,
                            res.wf(),
                            res@ == resolve_colors_upto(m0, cfg, colors@, i as int),
                        decreases cn - i,
                    {
                        let c = colors[i];
                        match first_color_match(&self.anchored_vertex_colors, c) {
                            Some(a) => {
                                res.insert_if_absent(i, a);
                            },
                            None => {},
                        }
                        i = i + 1;
                    }
                },
                None => {},
            }
        }
        if self.anchored_position_conditions.len() > 0 {
            match &mesh.positions {
                Some(positions) => {
                    let ghost m1 = res@;
                    let ghost cfg = self.anchored_position_conditions@;
                    let ghost ps = views(positions@);
                    let pn = positions.len();
                    let mut i: usize = 0;
                    while i < pn
                        invariant
                            i <= pn,
                            pn == ps.len(),
                            ps == views(positions@),
                            positions@.len() == pn,
                            cfg == self.anchored_position_conditions@,
                            res.wf(),
                            res@ == resolve_conditions_upto(m1, cfg, ps, i as int),
                        decreases pn - i,
                    {
                        let p = positions[i];
                        proof {
                            assert(p@ == ps[i as int]);
                        }
                        match first_condition_match(&self.anchored_position_conditions, &p) {
                            Some(a) => {
                                res.insert_if_absent(i, a);
                            },
                            None => {},
                        }
                        i = i + 1;
                    }
                },
                None => {},
            }
        }
        res
    }
}

/// The first configured color entry equal to `c`.
fn first_color_match(cfg: &Vec<(ColorRgba, VertexAnchor)>, c: ColorRgba) -> (r: Option<VertexAnchor>)
    ensures
        r == first_color_anchor_from(cfg@, c, 0),
{
    let mut j: usize = 0;
    while j < cfg.len()
        invariant
            j <= cfg@.len(),
            first_color_anchor_from(cfg@, c, 0) == first_color_anchor_from(cfg@, c, j as int),
        decreases cfg@.len() - j,
    {
        let entry = cfg[j];
        if entry.0 == c {
            return Some(entry.1);
        }
        j = j + 1;
    }
    None
}

/// The first configured condition accepting `p`.
fn first_condition_match<C: PositionCondition>(
    cfg: &Vec<(C, VertexAnchor)>,
    p: &Vector3,
) -> (r: Option<VertexAnchor>)
    ensures
        r == first_condition_anchor_from(cfg@, p@, 0),
{
    let mut j: usize = 0;
    while j < cfg.len()
        invariant
            j <= cfg@.len(),
            first_condition_anchor_from(cfg@, p@, 0) == first_condition_anchor_from(
                cfg@,
                p@,
                j as int,
            ),
        decreases cfg@.len() - j,
    {
        if cfg[j].0.matches(p) {
            return Some(cfg[j].1);
        }
        j = j + 1;
    }
    None
}


/// Color resolution only adds anchors; existing ones keep their descriptor.
proof fn lemma_resolve_colors_monotone(
    m: Map<int, VertexAnchor>,
    cfg: Seq<(ColorRgba, VertexAnchor)>,
    colors: Seq<ColorRgba>,
    k: int,
)
    ensures
        forall|i: int|
            m.contains_key(i) ==> #[trigger] resolve_colors_upto(m, cfg, colors, k).contains_key(i)
                && resolve_colors_upto(m, cfg, colors, k)[i] == m[i],
    decreases k,
{
    if k > 0 {
        lemma_resolve_colors_monotone(m, cfg, colors, k - 1);
        assert forall|i: int| m.contains_key(i) implies #[trigger] resolve_colors_upto(
            m,
            cfg,
            colors,
            k,
        ).contains_key(i) && resolve_colors_upto(m, cfg, colors, k)[i] == m[i] by {
            assert(resolve_colors_upto(m, cfg, colors, k - 1).contains_key(i));
        }
    }
}

/// Condition resolution only adds anchors; existing ones keep their
/// descriptor.
proof fn lemma_resolve_conditions_monotone<C: PositionCondition>(
    m: Map<int, VertexAnchor>,
    cfg: Seq<(C, VertexAnchor)>,
    ps: Seq<V3>,
    k: int,
)
    ensures
        forall|i: int|
            m.contains_key(i) ==> #[trigger] resolve_conditions_upto(m, cfg, ps, k).contains_key(i)
                && resolve_conditions_upto(m, cfg, ps, k)[i] == m[i],
    decreases k,
{
    if k > 0 {
        lemma_resolve_conditions_monotone(m, cfg, ps, k - 1);
        assert forall|i: int| m.contains_key(i) implies #[trigger] resolve_conditions_upto(
            m,
            cfg,
            ps,
            k,
        ).contains_key(i) && resolve_conditions_upto(m, cfg, ps, k)[i] == m[i] by {
            assert(resolve_conditions_upto(m, cfg, ps, k - 1).contains_key(i));
        }
    }
}

/// After color resolution every color-matched vertex is anchored.
proof fn lemma_resolve_colors_hits(
    m: Map<int, VertexAnchor>,
    cfg: Seq<(ColorRgba, VertexAnchor)>,
    colors: Seq<ColorRgba>,
    k: int,
)
    ensures
        forall|i: int|
            0 <= i < k && first_color_anchor_from(cfg, colors[i], 0) is Some
                ==> #[trigger] resolve_colors_upto(m, cfg, colors, k).contains_key(i),
    decreases k,
{
    if k > 0 {
        lemma_resolve_colors_hits(m, cfg, colors, k - 1);
        assert forall|i: int|
            0 <= i < k && first_color_anchor_from(cfg, colors[i], 0) is Some implies #[trigger]
        resolve_colors_upto(m, cfg, colors, k).contains_key(i) by {
            if i < k - 1 {
                assert(resolve_colors_upto(m, cfg, colors, k - 1).contains_key(i));
            }
        }
    }
}

/// After condition resolution every condition-matched vertex is anchored.
proof fn lemma_resolve_conditions_hits<C: PositionCondition>(
    m: Map<int, VertexAnchor>,
    cfg: Seq<(C, VertexAnchor)>,
    ps: Seq<V3>,
    k: int,
)
    ensures
        forall|i: int|
            0 <= i < k && first_condition_anchor_from(cfg, ps[i], 0) is Some
                ==> #[trigger] resolve_conditions_upto(m, cfg, ps, k).contains_key(i),
    decreases k,
{
    if k > 0 {
        lemma_resolve_conditions_hits(m, cfg, ps, k - 1);
        assert forall|i: int|
            0 <= i < k && first_condition_anchor_from(cfg, ps[i], 0) is Some implies #[trigger]
        resolve_conditions_upto(m, cfg, ps, k).contains_key(i) by {
            if i < k - 1 {
                assert(resolve_conditions_upto(m, cfg, ps, k - 1).contains_key(i));
            }
        }
    }
}

/// Color resolution changes nothing when every matched vertex is anchored
/// already.
proof fn lemma_resolve_colors_stable(
    m: Map<int, VertexAnchor>,
    cfg: Seq<(ColorRgba, VertexAnchor)>,
    colors: Seq<ColorRgba>,
    k: int,
)
    requires
        forall|i: int|
            0 <= i < k && (#[trigger] first_color_anchor_from(cfg, colors[i], 0)) is Some
                ==> m.contains_key(i),
    ensures
        resolve_colors_upto(m, cfg, colors, k) == m,
    decreases k,
{
    if k > 0 {
        lemma_resolve_colors_stable(m, cfg, colors, k - 1);
    }
}

/// Condition resolution changes nothing when every matched vertex is
/// anchored already.
proof fn lemma_resolve_conditions_stable<C: PositionCondition>(
    m: Map<int, VertexAnchor>,
    cfg: Seq<(C, VertexAnchor)>,
    ps: Seq<V3>,
    k: int,
)
    requires
        forall|i: int|
            0 <= i < k && (#[trigger] first_condition_anchor_from(cfg, ps[i], 0)) is Some
                ==> m.contains_key(i),
    ensures
        resolve_conditions_upto(m, cfg, ps, k) == m,
    decreases k,
{
    if k > 0 {
        lemma_resolve_conditions_stable(m, cfg, ps, k - 1);
    }
}

/// Anchor resolution is idempotent: making the resolved anchors the explicit
/// ids of the same configuration and resolving against the same mesh again
/// yields the same anchor map.
pub proof fn lemma_anchor_resolution_idempotent<C: PositionCondition>(
    b: ClothBuilder<C>,
    b2: ClothBuilder<C>,
    mesh: MeshData,
)
    requires
        b2.anchored_vertex_ids@ == spec_resolve(b, mesh),
        b2.anchored_vertex_colors@ == b.anchored_vertex_colors@,
        b2.anchored_position_conditions@ == b.anchored_position_conditions@,
    ensures
        spec_resolve(b2, mesh) == spec_resolve(b, mesh),
{
    let m0 = b.anchored_vertex_ids@;
    let ccfg = b.anchored_vertex_colors@;
    let pcfg = b.anchored_position_conditions@;
    let rr = spec_resolve(b, mesh);
    if ccfg.len() > 0 && mesh.colors is Some {
        let colors = mesh.colors->0@;
        let cn = colors.len() as int;
        let m1 = resolve_colors_upto(m0, ccfg, colors, cn);
        lemma_resolve_colors_hits(m0, ccfg, colors, cn);
        if pcfg.len() > 0 && mesh.positions is Some {
            lemma_resolve_conditions_monotone(
                m1,
                pcfg,
                views(mesh.positions->0@),
                mesh.positions->0@.len() as int,
            );
        }
        assert forall|i: int|
            0 <= i < cn && (#[trigger] first_color_anchor_from(ccfg, colors[i], 0)) is Some
            implies rr.contains_key(i) by {
            assert(m1.contains_key(i));
        }
        lemma_resolve_colors_stable(rr, ccfg, colors, cn);
    }
    if pcfg.len() > 0 && mesh.positions is Some {
        let ps = views(mesh.positions->0@);
        let pn = mesh.positions->0@.len() as int;
        let m1 = if ccfg.len() > 0 && mesh.colors is Some {
            resolve_colors_upto(m0, ccfg, mesh.colors->0@, mesh.colors->0@.len() as int)
        } else {
            m0
        };
        lemma_resolve_conditions_hits(m1, pcfg, ps, pn);
        lemma_resolve_conditions_stable(rr, pcfg, ps, pn);
    }
}

} // verus!
