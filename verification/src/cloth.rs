//! The cloth itself: point positions advanced by Verlet integration
//! (`update_points`), sticks relaxed toward their rest length
//! (`update_sticks`), binding from a triangle mesh (`init_from_mesh`) and
//! write-back of the simulated positions (`apply_to_mesh`).
use vstd::prelude::*;
use vstd::arithmetic::div_mod::{lemma_div_is_ordered, lemma_div_multiples_vanish, lemma_div_of0};
use crate::config::ClothConfig;
use crate::math::{div_floor, is_sqrt_floor};
use crate::mesh::MeshData;
use crate::stick::{sticks_wf, Stick};
use crate::transform::Transform;
use crate::vector::{
    dist_sq, distance, in_domain, seq_in_domain, spec_distance, v3_diff, v3_midpoint, v3_sum, views,
    Vector3, V3, POINT_LIMIT, REST_LIMIT,
};

verus! {

/// The set of indices held in a list of fixed-point indices.
pub open spec fn fixed_set(s: Seq<usize>) -> Set<int> {
    Set::new(|k: int| exists|j: int| 0 <= j < s.len() && (#[trigger] s[j]) as int == k)
}

/// Whether `id` is listed in `fixed`.
fn is_fixed_index(fixed: &Vec<usize>, id: usize) -> (r: bool)
    ensures
        r == fixed_set(fixed@).contains(id as int),
{
    let mut i: usize = 0;
    while i < fixed.len()
        invariant
            i <= fixed@.len(),
            forall|j: int| 0 <= j < i as int ==> (#[trigger] fixed@[j]) != id,
        decreases fixed@.len() - i,
    {
        if fixed[i] == id {
            return true;
        }
        i = i + 1;
    }
    false
}

/// One Verlet component: the position advanced by the implicit velocity
/// scaled by damping and the tick, plus the gravity contribution.
pub open spec fn integrate_term(cur: int, prev: int, g: int, damping: int, dt: int) -> int {
    cur + (cur - prev) * damping * dt / 1_000_000 + g * dt * dt / 1_000_000
}

pub open spec fn integrate_point(cur: V3, prev: V3, g: V3, damping: int, dt: int) -> V3 {
    V3 {
        x: integrate_term(cur.x, prev.x, g.x, damping, dt),
        y: integrate_term(cur.y, prev.y, g.y, damping, dt),
        z: integrate_term(cur.z, prev.z, g.z, damping, dt),
    }
}

/// The current positions after one integration tick. A fixed point is left
/// untouched; so is a free point whose update would leave the coordinate
/// domain (a recoverable condition of the integer model).
pub open spec fn integrate_current(
    cur: Seq<V3>,
    prev: Seq<V3>,
    fixed: Set<int>,
    g: V3,
    damping: int,
    dt: int,
) -> Seq<V3> {
    Seq::new(
        cur.len(),
        |i: int|
            {
                if fixed.contains(i) {
                    cur[i]
                } else {
                    let n = integrate_point(cur[i], prev[i], g, damping, dt);
                    if in_domain(n) {
                        n
                    } else {
                        cur[i]
                    }
                }
            },
    )
}

/// The previous positions after one integration tick: a moved free point
/// records its old position, everything else is untouched.
pub open spec fn integrate_previous(
    cur: Seq<V3>,
    prev: Seq<V3>,
    fixed: Set<int>,
    g: V3,
    damping: int,
    dt: int,
) -> Seq<V3> {
    Seq::new(
        prev.len(),
        |i: int|
            {
                if fixed.contains(i) {
                    prev[i]
                } else {
                    let n = integrate_point(cur[i], prev[i], g, damping, dt);
                    if in_domain(n) {
                        cur[i]
                    } else {
                        prev[i]
                    }
                }
            },
    )
}

/// One Verlet component, computed exactly in 128-bit arithmetic.
fn integrate_scalar(cur: i64, prev: i64, g: i64, damping: u16, dt: u32) -> (r: i128)
    requires
        -(POINT_LIMIT as int) <= cur as int <= POINT_LIMIT as int,
        -(POINT_LIMIT as int) <= prev as int <= POINT_LIMIT as int,
        -(POINT_LIMIT as int) <= g as int <= POINT_LIMIT as int,
        damping <= 1000,
    ensures
        r == integrate_term(cur as int, prev as int, g as int, damping as int, dt as int),
{
    let vel: i128 = cur as i128 - prev as i128;
    assert(-0x80_0000_0000_0000_0000 <= vel * (damping as i128)
        && vel * (damping as i128) <= 0x80_0000_0000_0000_0000) by (nonlinear_arith)
        requires
            -0x2000_0000_0000_0000 <= vel <= 0x2000_0000_0000_0000,
            0 <= damping as i128 <= 1000,
    {}
    let p1: i128 = vel * (damping as i128);
    assert(-0x80_0000_0000_0000_0000_0000_0000 <= p1 * (dt as i128)
        && p1 * (dt as i128) <= 0x80_0000_0000_0000_0000_0000_0000) by (nonlinear_arith)
        requires
            -0x80_0000_0000_0000_0000 <= p1 <= 0x80_0000_0000_0000_0000,
            0 <= dt as i128 <= 0x1_0000_0000,
    {}
    let p2: i128 = p1 * (dt as i128);
    let t1: i128 = crate::math::div_floor(p2, 1_000_000);
    assert(-0x1000_0000_0000_0000_0000_0000 <= (g as i128) * (dt as i128)
        && (g as i128) * (dt as i128) <= 0x1000_0000_0000_0000_0000_0000) by (nonlinear_arith)
        requires
            -0x1000_0000_0000_0000 <= g as i128 <= 0x1000_0000_0000_0000,
            0 <= dt as i128 <= 0x1_0000_0000,
    {}
    let q1: i128 = (g as i128) * (dt as i128);
    assert(-0x1000_0000_0000_0000_0000_0000_0000_0000 <= q1 * (dt as i128)
        && q1 * (dt as i128) <= 0x1000_0000_0000_0000_0000_0000_0000_0000)
        by (nonlinear_arith)
        requires
            -0x1000_0000_0000_0000_0000_0000 <= q1 <= 0x1000_0000_0000_0000_0000_0000,
            0 <= dt as i128 <= 0x1_0000_0000,
    {}
    let q2: i128 = q1 * (dt as i128);
    let t2: i128 = crate::math::div_floor(q2, 1_000_000);
    cur as i128 + t1 + t2
}

/// The integrated position of one free point, or `None` when it would leave
/// the coordinate domain.
fn integrate_point_exec(
    cur: &Vector3,
    prev: &Vector3,
    g: &Vector3,
    damping: u16,
    dt: u32,
) -> (r: Option<Vector3>)
    requires
        in_domain(cur@),
        in_domain(prev@),
        in_domain(g@),
        damping <= 1000,
    ensures
        match r {
            Some(w) => w@ == integrate_point(cur@, prev@, g@, damping as int, dt as int)
                && in_domain(w@),
            None => !in_domain(integrate_point(cur@, prev@, g@, damping as int, dt as int)),
        },
{
    let nx: i128 = integrate_scalar(cur.x, prev.x, g.x, damping, dt);
    let ny: i128 = integrate_scalar(cur.y, prev.y, g.y, damping, dt);
    let nz: i128 = integrate_scalar(cur.z, prev.z, g.z, damping, dt);
    let lim: i128 = POINT_LIMIT as i128;
    if -lim <= nx && nx <= lim && -lim <= ny && ny <= lim && -lim <= nz && nz <= lim {
        Some(Vector3 { x: nx as i64, y: ny as i64, z: nz as i64 })
    } else {
        None
    }
}

/// Cloth component.
pub struct Cloth {
    /// Cloth points unaffected by physics and following the owner transform.
    pub fixed_points: Vec<usize>,
    /// Current cloth point positions: simulation space for free points, the
    /// owner's local-space baseline for anchored ones.
    current_point_positions: Vec<Vector3>,
    /// Cloth point positions one tick ago.
    previous_point_positions: Vec<Vector3>,
    /// Sticks linking points.
    sticks: Vec<Stick>,
}

impl Cloth {
    pub closed spec fn spec_current(self) -> Seq<V3> {
        views(self.current_point_positions@)
    }

    pub closed spec fn spec_previous(self) -> Seq<V3> {
        views(self.previous_point_positions@)
    }

    pub closed spec fn spec_sticks(self) -> Seq<Stick> {
        self.sticks@
    }

    pub closed spec fn spec_fixed(self) -> Set<int> {
        fixed_set(self.fixed_points@)
    }

    pub closed spec fn spec_fixed_list(self) -> Seq<usize> {
        self.fixed_points@
    }

    pub closed spec fn wf(self) -> bool {
        &&& self.current_point_positions@.len() == self.previous_point_positions@.len()
        &&& seq_in_domain(self.spec_current())
        &&& seq_in_domain(self.spec_previous())
        &&& sticks_wf(self.sticks@)
    }

    pub fn new(fixed_points: &Vec<usize>) -> (r: Self)
        ensures
            r.wf(),
            r.spec_fixed_list() == fixed_points@,
            r.spec_fixed() == fixed_set(fixed_points@),
            r.spec_current().len() == 0,
            r.spec_previous().len() == 0,
            r.spec_sticks().len() == 0,
    {
        let mut own: Vec<usize> = Vec::new();
        let mut i: usize = 0;
        while i < fixed_points.len()
            invariant
                i <= fixed_points@.len(),
                own@ == fixed_points@.take(i as int),
            decreases fixed_points@.len() - i,
        {
            own.push(fixed_points[i]);
            i = i + 1;
        }
        proof {
            assert(own@ =~= fixed_points@);
        }
        Cloth {
            fixed_points: own,
            current_point_positions: Vec::new(),
            previous_point_positions: Vec::new(),
            sticks: Vec::new(),
        }
    }

    pub fn is_setup(&self) -> (r: bool)
        ensures
            r <==> self.spec_current().len() > 0,
    {
        self.current_point_positions.len() > 0
    }

    pub fn point_count(&self) -> (r: usize)
        ensures
            r == self.spec_current().len(),
    {
        self.current_point_positions.len()
    }

    pub fn current_position(&self, i: usize) -> (r: Vector3)
        requires
            i < self.spec_current().len(),
        ensures
            r@ == self.spec_current()[i as int],
    {
        self.current_point_positions[i]
    }

    pub fn previous_position(&self, i: usize) -> (r: Vector3)
        requires
            i < self.spec_previous().len(),
        ensures
            r@ == self.spec_previous()[i as int],
    {
        self.previous_point_positions[i]
    }

    pub fn stick_count(&self) -> (r: usize)
        ensures
            r == self.spec_sticks().len(),
    {
        self.sticks.len()
    }

    pub fn stick_at(&self, k: usize) -> (r: Stick)
        requires
            k < self.spec_sticks().len(),
        ensures
            r == self.spec_sticks()[k as int],
    {
        self.sticks[k]
    }

    pub fn is_fixed_point(&self, id: usize) -> (r: bool)
        ensures
            r == self.spec_fixed().contains(id as int),
    {
        is_fixed_index(&self.fixed_points, id)
    }

    /// Advances every free point one tick by Verlet integration under
    /// gravity and damping. Fixed points are left untouched.
    pub fn update_points(&mut self, delta_time_ms: u32, config: &ClothConfig)
        requires
            old(self).wf(),
            config.wf(),
        ensures
            final(self).wf(),
            final(self).spec_current() == integrate_current(
                old(self).spec_current(),
                old(self).spec_previous(),
                old(self).spec_fixed(),
                config.gravity@,
                config.damping_permille as int,
                delta_time_ms as int,
            ),
            final(self).spec_previous() == integrate_previous(
                old(self).spec_current(),
                old(self).spec_previous(),
                old(self).spec_fixed(),
                config.gravity@,
                config.damping_permille as int,
                delta_time_ms as int,
            ),
            final(self).spec_sticks() == old(self).spec_sticks(),
            final(self).spec_fixed_list() == old(self).spec_fixed_list(),
            final(self).spec_fixed() == old(self).spec_fixed(),
            // Anchored points are never written by the integrator.
            forall|i: int|
                0 <= i < old(self).spec_current().len() && old(self).spec_fixed().contains(i)
                    ==> final(self).spec_current()[i] == old(self).spec_current()[i]
                        && final(self).spec_previous()[i] == old(self).spec_previous()[i],
    {
        let ghost cur0 = self.spec_current();
        let ghost prev0 = self.spec_previous();
        let ghost fixed0 = self.spec_fixed();
        let ghost g = config.gravity@;
        let ghost damping = config.damping_permille as int;
        let ghost dt = delta_time_ms as int;
        let n = self.current_point_positions.len();
        let mut i: usize = 0;
        while i < n
            invariant
                i <= n,
                n == cur0.len(),
                n == prev0.len(),
                self.current_point_positions@.len() == n,
                self.previous_point_positions@.len() == n,
                seq_in_domain(cur0),
                seq_in_domain(prev0),
                self.fixed_points@ == old(self).fixed_points@,
                self.sticks@ == old(self).sticks@,
                cur0 == old(self).spec_current(),
                prev0 == old(self).spec_previous(),
                fixed0 == old(self).spec_fixed(),
                g == config.gravity@,
                damping == config.damping_permille as int,
                dt == delta_time_ms as int,
                config.wf(),
                forall|j: int|
                    i as int <= j < n ==> self.spec_current()[j] == cur0[j]
                        && self.spec_previous()[j] == prev0[j],
                forall|j: int|
                    0 <= j < i as int ==> self.spec_current()[j] == integrate_current(
                        cur0,
                        prev0,
                        fixed0,
                        g,
                        damping,
                        dt,
                    )[j] && self.spec_previous()[j] == integrate_previous(
                        cur0,
                        prev0,
                        fixed0,
                        g,
                        damping,
                        dt,
                    )[j],
            decreases n - i,
        {
            let fixed_i = is_fixed_index(&self.fixed_points, i);
            let cur_i = self.current_point_positions[i];
            let prev_i = self.previous_point_positions[i];
            proof {
                assert(cur_i@ == cur0[i as int]);
                assert(prev_i@ == prev0[i as int]);
            }
            let mut nc = cur_i;
            let mut np = prev_i;
            if !fixed_i {
                let moved = integrate_point_exec(
                    &cur_i,
                    &prev_i,
                    &config.gravity,
                    config.damping_permille,
                    delta_time_ms,
                );
                match moved {
                    Some(w) => {
                        np = cur_i;
                        nc = w;
                    },
                    None => {},
                }
            }
            proof {
                let ic = integrate_current(cur0, prev0, fixed0, g, damping, dt);
                let ip = integrate_previous(cur0, prev0, fixed0, g, damping, dt);
                assert(nc@ == ic[i as int]);
                assert(np@ == ip[i as int]);
            }
            let ghost pre_cur = self.current_point_positions@;
            let ghost pre_prev = self.previous_point_positions@;
            self.previous_point_positions.set(i, np);
            self.current_point_positions.set(i, nc);
            proof {
                assert(forall|j: int|
                    0 <= j < n && j != i as int
                        ==> self.spec_current()[j] == views(pre_cur)[j]
                            && self.spec_previous()[j] == views(pre_prev)[j]);
                assert(self.spec_current()[i as int] == nc@);
                assert(self.spec_previous()[i as int] == np@);
                let ic = integrate_current(cur0, prev0, fixed0, g, damping, dt);
                let ip = integrate_previous(cur0, prev0, fixed0, g, damping, dt);
                assert forall|j: int| 0 <= j < i as int + 1 implies self.spec_current()[j]
                    == ic[j] && self.spec_previous()[j] == ip[j] by {
                    if j < i as int {
                        assert(views(pre_cur)[j] == ic[j]);
                        assert(views(pre_prev)[j] == ip[j]);
                        assert(self.spec_current()[j] == views(pre_cur)[j]);
                        assert(self.spec_previous()[j] == views(pre_prev)[j]);
                    }
                }
            }
            i = i + 1;
        }
        proof {
            assert(self.spec_current() =~= integrate_current(cur0, prev0, fixed0, g, damping, dt));
            assert(self.spec_previous() =~= integrate_previous(
                cur0,
                prev0,
                fixed0,
                g,
                damping,
                dt,
            ));
            assert forall|j: int| 0 <= j < n implies in_domain(self.spec_current()[j])
                && in_domain(self.spec_previous()[j]) by {
                assert(in_domain(cur0[j]));
                assert(in_domain(prev0[j]));
            }
        }
    }

    /// Relaxes every stick toward its rest length, `sticks_computation_depth`
    /// times, reading anchored endpoints through the owner transform.
    pub fn update_sticks(&mut self, config: &ClothConfig, transform_matrix: &Transform)
        requires
            old(self).wf(),
            config.wf(),
            transform_matrix.wf(),
        ensures
            final(self).wf(),
            ({
                let r = solve_passes(
                    old(self).spec_current(),
                    old(self).spec_sticks(),
                    old(self).spec_fixed(),
                    *transform_matrix,
                    config.max_tension_permille,
                    config.sticks_computation_depth as int,
                );
                final(self).spec_current() == r.0 && final(self).spec_sticks() == r.1
            }),
            final(self).spec_previous() == old(self).spec_previous(),
            final(self).spec_fixed_list() == old(self).spec_fixed_list(),
            final(self).spec_fixed() == old(self).spec_fixed(),
            // Anchored points are never written by the constraint solver.
            forall|i: int|
                0 <= i < old(self).spec_current().len() && old(self).spec_fixed().contains(i)
                    ==> final(self).spec_current()[i] == old(self).spec_current()[i],
    {
        let ghost cur0 = self.spec_current();
        let ghost sticks0 = self.spec_sticks();
        let ghost fixed0 = self.spec_fixed();
        let ghost tf = *transform_matrix;
        let ghost tension = config.max_tension_permille;
        let depth = config.sticks_computation_depth;
        let mut d: u32 = 0;
        while d < depth
            invariant
                d <= depth,
                cur0 == old(self).spec_current(),
                sticks0 == old(self).spec_sticks(),
                fixed0 == old(self).spec_fixed(),
                tf == *transform_matrix,
                tension == config.max_tension_permille,
                transform_matrix.wf(),
                config.wf(),
                seq_in_domain(cur0),
                sticks_wf(sticks0),
                self.fixed_points@ == old(self).fixed_points@,
                self.previous_point_positions@ == old(self).previous_point_positions@,
                ({
                    let r = solve_passes(cur0, sticks0, fixed0, tf, tension, d as int);
                    self.spec_current() == r.0 && self.spec_sticks() == r.1
                }),
            decreases depth - d,
        {
            proof {
                lemma_solve_passes_frame(cur0, sticks0, fixed0, tf, tension, d as int);
            }
            let ghost pass_cur = self.spec_current();
            let ghost pass_sticks = self.spec_sticks();
            let m = self.sticks.len();
            let mut k: usize = 0;
            while k < m
                invariant
                    k <= m,
                    m == pass_sticks.len(),
                    cur0 == old(self).spec_current(),
                    sticks0 == old(self).spec_sticks(),
                    fixed0 == old(self).spec_fixed(),
                    tf == *transform_matrix,
                    tension == config.max_tension_permille,
                    transform_matrix.wf(),
                    config.wf(),
                    seq_in_domain(pass_cur),
                    sticks_wf(pass_sticks),
                    pass_cur.len() == cur0.len(),
                    self.fixed_points@ == old(self).fixed_points@,
                    self.previous_point_positions@ == old(self).previous_point_positions@,
                    ({
                        let r = solve_pass_prefix(pass_cur, pass_sticks, fixed0, tf, tension, k as int);
                        self.spec_current() == r.0 && self.spec_sticks() == r.1
                    }),
                decreases m - k,
            {
                proof {
                    lemma_solve_prefix_frame(pass_cur, pass_sticks, fixed0, tf, tension, k as int);
                }
                let st = self.sticks[k];
                proof {
                    assert(st == pass_sticks[k as int]);
                    assert(st.wf());
                }
                let broke = solve_stick_exec(
                    &mut self.current_point_positions,
                    &self.fixed_points,
                    transform_matrix,
                    config.max_tension_permille,
                    st,
                );
                if broke {
                    let mut s2 = st;
                    s2.broken = true;
                    self.sticks.set(k, s2);
                }
                proof {
                    let before = solve_pass_prefix(pass_cur, pass_sticks, fixed0, tf, tension, k as int);
                    let stepped = solve_stick(before.0, fixed0, tf, tension, pass_sticks[k as int]);
                    let after = solve_pass_prefix(
                        pass_cur,
                        pass_sticks,
                        fixed0,
                        tf,
                        tension,
                        k as int + 1,
                    );
                    assert(after.0 == stepped.0);
                    assert(after.1 == before.1.update(k as int, stepped.1));
                    assert(self.spec_current() == stepped.0);
                    assert(self.spec_sticks() =~= after.1);
                }
                k = k + 1;
            }
            proof {
                lemma_solve_passes_snoc(cur0, sticks0, fixed0, tf, tension, d as int);
            }
            d = d + 1;
        }
        proof {
            lemma_solve_passes_frame(cur0, sticks0, fixed0, tf, tension, depth as int);
        }
    }

    /// One simulation tick: Verlet integration, then constraint relaxation
    /// against the current owner transform.
    pub fn update(&mut self, config: &ClothConfig, delta_time_ms: u32, transform_matrix: &Transform)
        requires
            old(self).wf(),
            config.wf(),
            transform_matrix.wf(),
        ensures
            final(self).wf(),
            ({
                let ic = integrate_current(
                    old(self).spec_current(),
                    old(self).spec_previous(),
                    old(self).spec_fixed(),
                    config.gravity@,
                    config.damping_permille as int,
                    delta_time_ms as int,
                );
                let r = solve_passes(
                    ic,
                    old(self).spec_sticks(),
                    old(self).spec_fixed(),
                    *transform_matrix,
                    config.max_tension_permille,
                    config.sticks_computation_depth as int,
                );
                final(self).spec_current() == r.0 && final(self).spec_sticks() == r.1
            }),
            final(self).spec_previous() == integrate_previous(
                old(self).spec_current(),
                old(self).spec_previous(),
                old(self).spec_fixed(),
                config.gravity@,
                config.damping_permille as int,
                delta_time_ms as int,
            ),
            final(self).spec_fixed_list() == old(self).spec_fixed_list(),
            final(self).spec_fixed() == old(self).spec_fixed(),
            // Anchored points keep their position through the whole tick.
            forall|i: int|
                0 <= i < old(self).spec_current().len() && old(self).spec_fixed().contains(i)
                    ==> final(self).spec_current()[i] == old(self).spec_current()[i],
    {
        self.update_points(delta_time_ms, config);
        self.update_sticks(config, transform_matrix);
    }

    /// Binds the cloth to a mesh. Free points are stored transformed into
    /// simulation space; anchored points keep their raw local-space baseline
    /// (the solver transforms it afresh each pass and the write-back emits
    /// it directly). Rest lengths are measured between the transformed
    /// baseline positions, and each triangle of the index list yields three
    /// sticks. A missing index list, an index out of range or a transformed
    /// position outside the domain refuses the binding and leaves the cloth
    /// unchanged.
    pub fn init_from_mesh(&mut self, mesh: &MeshData, transform_matrix: &Transform)
        requires
            old(self).wf(),
            mesh.wf(),
            transform_matrix.wf(),
            mesh.positions is Some,
        ensures
            final(self).wf(),
            final(self).spec_fixed_list() == old(self).spec_fixed_list(),
            final(self).spec_fixed() == old(self).spec_fixed(),
            ({
                let ps = views(mesh.positions->0@);
                if !all_transforms_in_domain(ps, *transform_matrix) {
                    *final(self) == *old(self)
                } else if mesh.indices is None {
                    *final(self) == *old(self)
                } else if !all_indices_in_range(mesh.indices->0@, ps.len() as int) {
                    *final(self) == *old(self)
                } else {
                    let world = transform_map(ps, *transform_matrix);
                    let stored = bind_map(ps, old(self).spec_fixed(), *transform_matrix);
                    final(self).spec_current() == stored && final(self).spec_previous() == stored
                        && final(self).spec_sticks() == build_sticks(mesh.indices->0@, world)
                }
            }),
    {
        let positions_ref = match &mesh.positions {
            Some(p) => p,
            None => {
                proof {
                    assert(false);
                }
                return;
            },
        };
        let ghost ps = views(positions_ref@);
        let ghost tf = *transform_matrix;
        let ghost fixed0 = old(self).spec_fixed();
        let mut world: Vec<Vector3> = Vec::new();
        let pn = positions_ref.len();
        let mut i: usize = 0;
        while i < pn
            invariant
                i <= pn,
                pn == ps.len(),
                ps == views(positions_ref@),
                positions_ref@.len() == pn,
                mesh.positions is Some,
                positions_ref@ == mesh.positions->0@,
                tf == *transform_matrix,
                transform_matrix.wf(),
                mesh.wf(),
                *self == *old(self),
                old(self).wf(),
                world@.len() == i as int,
                forall|j: int|
                    0 <= j < i as int ==> (#[trigger] tf.spec_apply(ps[j])) is Some
                        && (world@[j])@ == tf.raw_apply(ps[j]) && in_domain((world@[j])@),
            decreases pn - i,
        {
            proof {
                assert(positions_ref@[i as int]@ == ps[i as int]);
                assert(in_domain(ps[i as int]));
            }
            match transform_matrix.transform_point(&positions_ref[i]) {
                Some(w) => {
                    world.push(w);
                },
                None => {
                    proof {
                        assert(tf.spec_apply(ps[i as int]) is None);
                        assert(!all_transforms_in_domain(ps, tf));
                    }
                    return;
                },
            }
            i = i + 1;
        }
        let indices: Vec<usize> = match &mesh.indices {
            Some(ix) => ix.normalized(),
            None => {
                return;
            },
        };
        let ghost idxs = mesh.indices->0@;
        proof {
            assert(indices@.map_values(|q: usize| q as int) == idxs);
            assert(indices@.len() == idxs.len());
        }
        let mut j: usize = 0;
        while j < indices.len()
            invariant
                j <= indices@.len(),
                indices@.map_values(|q: usize| q as int) == idxs,
                idxs.len() == indices@.len(),
                idxs == mesh.indices->0@,
                mesh.indices is Some,
                mesh.positions is Some,
                ps == views(mesh.positions->0@),
                world@.len() == ps.len(),
                *self == *old(self),
                old(self).wf(),
                forall|q: int| 0 <= q < j as int ==> 0 <= #[trigger] idxs[q] < ps.len(),
            decreases indices@.len() - j,
        {
            proof {
                assert(indices@[j as int] as int == idxs[j as int]);
            }
            if indices[j] >= world.len() {
                proof {
                    assert(idxs[j as int] >= ps.len());
                    assert(!all_indices_in_range(idxs, ps.len() as int));
                }
                return;
            }
            j = j + 1;
        }
        proof {
            assert(all_indices_in_range(idxs, ps.len() as int));
        }
        let ghost worldv = views(world@);
        proof {
            assert forall|w: int| 0 <= w < worldv.len() implies worldv[w] == transform_map(
                ps,
                tf,
            )[w] && in_domain(#[trigger] worldv[w]) by {
                assert(tf.spec_apply(ps[w]) is Some);
                assert(worldv[w] == (world@[w])@);
            }
            assert(worldv =~= transform_map(ps, tf));
        }
        let mut sticks: Vec<Stick> = Vec::new();
        let ilen = indices.len();
        let tcount = ilen / 3;
        let mut t: usize = 0;
        while t < tcount
            invariant
                t <= tcount,
                ilen == indices@.len(),
                tcount == indices@.len() / 3,
                indices@.map_values(|q: usize| q as int) == idxs,
                idxs.len() == indices@.len(),
                world@.len() == ps.len(),
                worldv == views(world@),
                seq_in_domain(worldv),
                all_indices_in_range(idxs, ps.len() as int),
                sticks@.len() == 3 * t as int,
                forall|q: int|
                    0 <= q < 3 * t as int ==> sticks@[q] == build_sticks(idxs, worldv)[q]
                        && (#[trigger] sticks@[q]).wf(),
            decreases tcount - t,
        {
            proof {
                let li = indices@.len() as int;
                assert(3 * (li / 3) <= li) by (nonlinear_arith);
                assert(3 * t as int + 2 < li);
            }
            let ia = indices[3 * t];
            let ib = indices[3 * t + 1];
            let ic = indices[3 * t + 2];
            proof {
                assert(ia as int == idxs[3 * t as int]);
                assert(ib as int == idxs[3 * t as int + 1]);
                assert(ic as int == idxs[3 * t as int + 2]);
                assert(0 <= idxs[3 * t as int] < ps.len());
                assert(0 <= idxs[3 * t as int + 1] < ps.len());
                assert(0 <= idxs[3 * t as int + 2] < ps.len());
            }
            let pa = world[ia];
            let pb = world[ib];
            let pc = world[ic];
            proof {
                assert(pa@ == worldv[ia as int]);
                assert(in_domain(pa@));
                assert(pb@ == worldv[ib as int]);
                assert(in_domain(pb@));
                assert(pc@ == worldv[ic as int]);
                assert(in_domain(pc@));
            }
            let len_ab = distance(&pa, &pb);
            let len_bc = distance(&pb, &pc);
            let len_ca = distance(&pc, &pa);
            sticks.push(
                Stick { point_a_index: ia, point_b_index: ib, length: len_ab, broken: false },
            );
            sticks.push(
                Stick { point_a_index: ib, point_b_index: ic, length: len_bc, broken: false },
            );
            sticks.push(
                Stick { point_a_index: ic, point_b_index: ia, length: len_ca, broken: false },
            );
            proof {
                let built = build_sticks(idxs, worldv);
                assert((3 * t as int) / 3 == t as int && (3 * t as int) % 3 == 0
                    && (3 * t as int + 1) / 3 == t as int && (3 * t as int + 1) % 3 == 1
                    && (3 * t as int + 2) / 3 == t as int && (3 * t as int + 2) % 3 == 2)
                    by (nonlinear_arith);
                assert(sticks@[3 * t as int] == built[3 * t as int]);
                assert(sticks@[3 * t as int + 1] == built[3 * t as int + 1]);
                assert(sticks@[3 * t as int + 2] == built[3 * t as int + 2]);
            }
            t = t + 1;
        }
        let mut stored: Vec<Vector3> = Vec::new();
        let mut q: usize = 0;
        while q < pn
            invariant
                q <= pn,
                pn == ps.len(),
                ps == views(positions_ref@),
                positions_ref@.len() == pn,
                mesh.wf(),
                mesh.positions is Some,
                positions_ref@ == mesh.positions->0@,
                tf == *transform_matrix,
                fixed0 == old(self).spec_fixed(),
                *self == *old(self),
                world@.len() == pn,
                worldv == views(world@),
                seq_in_domain(worldv),
                worldv == transform_map(ps, tf),
                stored@.len() == q as int,
                forall|j: int|
                    0 <= j < q as int ==> ((#[trigger] stored@[j])@ == bind_map(ps, fixed0, tf)[j]
                        && in_domain((stored@[j])@)),
            decreases pn - q,
        {
            if is_fixed_index(&self.fixed_points, q) {
                let raw = positions_ref[q];
                stored.push(raw);
                proof {
                    assert(raw@ == ps[q as int]);
                    assert(in_domain(views(mesh.positions->0@)[q as int]));
                    assert((stored@[q as int])@ == bind_map(ps, fixed0, tf)[q as int]);
                }
            } else {
                stored.push(world[q]);
                proof {
                    assert((stored@[q as int])@ == worldv[q as int]);
                    assert((stored@[q as int])@ == bind_map(ps, fixed0, tf)[q as int]);
                }
            }
            q = q + 1;
        }
        let mut previous: Vec<Vector3> = Vec::new();
        let mut w: usize = 0;
        while w < stored.len()
            invariant
                w <= stored@.len(),
                previous@ == stored@.take(w as int),
            decreases stored@.len() - w,
        {
            previous.push(stored[w]);
            w = w + 1;
        }
        proof {
            assert(previous@ =~= stored@);
            assert(sticks@ =~= build_sticks(idxs, worldv));
            assert forall|j: int| 0 <= j < pn implies views(stored@)[j] == bind_map(
                ps,
                fixed0,
                tf,
            )[j] && in_domain(views(stored@)[j]) by {
                assert(views(stored@)[j] == (stored@[j])@);
            }
            assert(views(stored@) =~= bind_map(ps, fixed0, tf));
        }
        self.sticks = sticks;
        self.previous_point_positions = previous;
        self.current_point_positions = stored;
    }

    /// Writes the simulated positions back to the mesh: an anchored point's
    /// stored baseline directly, a free point mapped through the given
    /// inverse of the owner transform. Returns false (and leaves the mesh
    /// unchanged) when a mapped position would leave the domain.
    pub fn apply_to_mesh(&self, mesh: &mut MeshData, inverse_matrix: &Transform) -> (ok: bool)
        requires
            self.wf(),
            inverse_matrix.wf(),
        ensures
            ok == apply_ok(self.spec_current(), self.spec_fixed(), *inverse_matrix),
            ok ==> final(mesh).positions is Some && views(final(mesh).positions->0@)
                == apply_map(self.spec_current(), self.spec_fixed(), *inverse_matrix)
                && final(mesh).colors == old(mesh).colors && final(mesh).indices == old(
                mesh,
            ).indices && final(mesh).wf(),
            !ok ==> *final(mesh) == *old(mesh),
    {
        let ghost cur0 = self.spec_current();
        let ghost fx = self.spec_fixed();
        let ghost inv = *inverse_matrix;
        let n = self.current_point_positions.len();
        let mut out: Vec<Vector3> = Vec::new();
        let mut i: usize = 0;
        while i < n
            invariant
                i <= n,
                n == cur0.len(),
                cur0 == self.spec_current(),
                fx == self.spec_fixed(),
                inv == *inverse_matrix,
                self.wf(),
                inverse_matrix.wf(),
                out@.len() == i as int,
                forall|j: int|
                    0 <= j < i as int ==> ((#[trigger] out@[j])@ == apply_map(cur0, fx, inv)[j]
                        && in_domain((out@[j])@)),
                forall|j: int|
                    0 <= j < i as int && !fx.contains(j) ==> (#[trigger] inv.spec_apply(
                        cur0[j],
                    )) is Some,
            decreases n - i,
        {
            let p = self.current_point_positions[i];
            proof {
                assert(p@ == cur0[i as int]);
                assert(in_domain(p@));
            }
            if is_fixed_index(&self.fixed_points, i) {
                out.push(p);
                proof {
                    assert((out@[i as int])@ == apply_map(cur0, fx, inv)[i as int]);
                }
            } else {
                match inverse_matrix.transform_point(&p) {
                    Some(w) => {
                        out.push(w);
                        proof {
                            assert((out@[i as int])@ == apply_map(cur0, fx, inv)[i as int]);
                        }
                    },
                    None => {
                        proof {
                            assert(inv.spec_apply(cur0[i as int]) is None);
                            assert(!apply_ok(cur0, fx, inv));
                        }
                        return false;
                    },
                }
            }
            i = i + 1;
        }
        proof {
            assert forall|j: int| 0 <= j < n implies views(out@)[j] == apply_map(
                cur0,
                fx,
                inv,
            )[j] by {
                assert(views(out@)[j] == (out@[j])@);
            }
            assert(views(out@) =~= apply_map(cur0, fx, inv));
        }
        mesh.positions = Some(out);
        true
    }
}

/// With a zero tick the velocity and gravity terms vanish: the integrator
/// leaves every current position unchanged.
pub proof fn lemma_zero_dt_keeps_positions(
    cur: Seq<V3>,
    prev: Seq<V3>,
    fixed: Set<int>,
    g: V3,
    damping: int,
)
    requires
        seq_in_domain(cur),
    ensures
        integrate_current(cur, prev, fixed, g, damping, 0) == cur,
{
    assert forall|i: int| 0 <= i < cur.len() implies integrate_current(
        cur,
        prev,
        fixed,
        g,
        damping,
        0,
    )[i] == cur[i] by {
        let n = integrate_point(cur[i], prev[i], g, damping, 0);
        assert((cur[i].x - prev[i].x) * damping * 0 == 0) by (nonlinear_arith);
        assert((cur[i].y - prev[i].y) * damping * 0 == 0) by (nonlinear_arith);
        assert((cur[i].z - prev[i].z) * damping * 0 == 0) by (nonlinear_arith);
        assert(g.x * 0 * 0 == 0) by (nonlinear_arith);
        assert(g.y * 0 * 0 == 0) by (nonlinear_arith);
        assert(g.z * 0 * 0 == 0) by (nonlinear_arith);
        assert(0int / 1_000_000 == 0) by (nonlinear_arith);
        assert(n == cur[i]);
        assert(in_domain(cur[i]));
    }
    assert(integrate_current(cur, prev, fixed, g, damping, 0) =~= cur);
}


/// The effective position of a stick endpoint: an anchored point follows
/// the owner transform applied to its stored baseline; a free point is its
/// stored position as-is.
pub open spec fn effective_position(cur: Seq<V3>, fixed: Set<int>, tf: Transform, idx: int) -> Option<V3> {
    if fixed.contains(idx) {
        tf.spec_apply(cur[idx])
    } else {
        Some(cur[idx])
    }
}

/// Between an anchored and a free endpoint the whole correction goes to the
/// free one; between two endpoints of equal standing it is split evenly.
pub open spec fn stick_target_length(rest: int, fixed_a: bool, fixed_b: bool) -> int {
    if fixed_a == fixed_b {
        rest / 2
    } else {
        rest
    }
}

/// Whether the stick's current length exceeds the configured breaking
/// tension (a permille ratio over the rest length).
pub open spec fn tension_exceeded(rest: int, dist: int, tension: Option<u32>) -> bool {
    match tension {
        Some(t) => dist * 1000 > rest * t,
        None => false,
    }
}

/// One relaxation step for one stick: the new positions and the
/// possibly-broken stick. A stick is skipped (and nothing changes) when it
/// is broken, an endpoint index is out of range, an anchored endpoint's
/// transform leaves the domain, the endpoints coincide, or a corrected
/// position would leave the domain.
pub open spec fn solve_stick(
    cur: Seq<V3>,
    fixed: Set<int>,
    tf: Transform,
    tension: Option<u32>,
    st: Stick,
) -> (Seq<V3>, Stick) {
    let a = st.point_a_index as int;
    let b = st.point_b_index as int;
    if st.broken || a >= cur.len() || b >= cur.len() {
        (cur, st)
    } else {
        let ea_o = effective_position(cur, fixed, tf, a);
        let eb_o = effective_position(cur, fixed, tf, b);
        if ea_o is None || eb_o is None {
            (cur, st)
        } else {
            let ea = ea_o->0;
            let eb = eb_o->0;
            let dist = spec_distance(ea, eb);
            if tension_exceeded(st.length as int, dist, tension) {
                (cur, Stick { broken: true, ..st })
            } else if dist == 0 {
                (cur, st)
            } else {
                let fa = fixed.contains(a);
                let fb = fixed.contains(b);
                let target = stick_target_length(st.length as int, fa, fb);
                let center = v3_midpoint(ea, eb);
                let off = V3 {
                    x: (eb.x - ea.x) * target / dist,
                    y: (eb.y - ea.y) * target / dist,
                    z: (eb.z - ea.z) * target / dist,
                };
                let na = v3_sum(center, off);
                let nb = v3_diff(center, off);
                if (!fa && !in_domain(na)) || (!fb && !in_domain(nb)) {
                    (cur, st)
                } else {
                    let cur1 = if !fa { cur.update(a, na) } else { cur };
                    let cur2 = if !fb { cur1.update(b, nb) } else { cur1 };
                    (cur2, st)
                }
            }
        }
    }
}

/// The first `k` sticks of one relaxation pass, applied in order.
pub open spec fn solve_pass_prefix(
    cur: Seq<V3>,
    sticks: Seq<Stick>,
    fixed: Set<int>,
    tf: Transform,
    tension: Option<u32>,
    k: int,
) -> (Seq<V3>, Seq<Stick>)
    decreases k,
{
    if k <= 0 {
        (cur, sticks)
    } else {
        let prior = solve_pass_prefix(cur, sticks, fixed, tf, tension, k - 1);
        let stepped = solve_stick(prior.0, fixed, tf, tension, sticks[k - 1]);
        (stepped.0, prior.1.update(k - 1, stepped.1))
    }
}

/// One full relaxation pass over all sticks.
pub open spec fn solve_pass(
    cur: Seq<V3>,
    sticks: Seq<Stick>,
    fixed: Set<int>,
    tf: Transform,
    tension: Option<u32>,
) -> (Seq<V3>, Seq<Stick>) {
    solve_pass_prefix(cur, sticks, fixed, tf, tension, sticks.len() as int)
}

/// `depth` relaxation passes.
pub open spec fn solve_passes(
    cur: Seq<V3>,
    sticks: Seq<Stick>,
    fixed: Set<int>,
    tf: Transform,
    tension: Option<u32>,
    depth: int,
) -> (Seq<V3>, Seq<Stick>)
    decreases depth,
{
    if depth <= 0 {
        (cur, sticks)
    } else {
        let one = solve_pass(cur, sticks, fixed, tf, tension);
        solve_passes(one.0, one.1, fixed, tf, tension, depth - 1)
    }
}

/// One stick step moves no anchored point and no point other than its own
/// endpoints, keeps every position in the domain, and changes nothing of
/// the stick but its broken flag.
pub proof fn lemma_solve_stick_frame(
    cur: Seq<V3>,
    fixed: Set<int>,
    tf: Transform,
    tension: Option<u32>,
    st: Stick,
)
    ensures
        solve_stick(cur, fixed, tf, tension, st).0.len() == cur.len(),
        forall|i: int|
            0 <= i < cur.len() && (fixed.contains(i) || (i != st.point_a_index as int && i
                != st.point_b_index as int)) ==> solve_stick(cur, fixed, tf, tension, st).0[i]
                == cur[i],
        seq_in_domain(cur) ==> seq_in_domain(solve_stick(cur, fixed, tf, tension, st).0),
        solve_stick(cur, fixed, tf, tension, st).1.point_a_index == st.point_a_index,
        solve_stick(cur, fixed, tf, tension, st).1.point_b_index == st.point_b_index,
        solve_stick(cur, fixed, tf, tension, st).1.length == st.length,
{
    let r = solve_stick(cur, fixed, tf, tension, st);
    if seq_in_domain(cur) {
        assert forall|i: int| 0 <= i < cur.len() implies in_domain(#[trigger] r.0[i]) by {
            assert(in_domain(cur[i]));
        }
    }
}

/// A pass prefix touches no anchored point, keeps lengths and domains, and
/// leaves the sticks at and after `k` untouched.
pub proof fn lemma_solve_prefix_frame(
    cur: Seq<V3>,
    sticks: Seq<Stick>,
    fixed: Set<int>,
    tf: Transform,
    tension: Option<u32>,
    k: int,
)
    requires
        0 <= k <= sticks.len(),
    ensures
        solve_pass_prefix(cur, sticks, fixed, tf, tension, k).0.len() == cur.len(),
        solve_pass_prefix(cur, sticks, fixed, tf, tension, k).1.len() == sticks.len(),
        forall|i: int|
            0 <= i < cur.len() && fixed.contains(i) ==> solve_pass_prefix(
                cur,
                sticks,
                fixed,
                tf,
                tension,
                k,
            ).0[i] == cur[i],
        seq_in_domain(cur) ==> seq_in_domain(solve_pass_prefix(cur, sticks, fixed, tf, tension, k).0),
        forall|j: int|
            k <= j < sticks.len() ==> solve_pass_prefix(cur, sticks, fixed, tf, tension, k).1[j]
                == sticks[j],
        forall|j: int|
            0 <= j < sticks.len() ==> (#[trigger] solve_pass_prefix(
                cur,
                sticks,
                fixed,
                tf,
                tension,
                k,
            ).1[j]).length == sticks[j].length,
    decreases k,
{
    if k > 0 {
        lemma_solve_prefix_frame(cur, sticks, fixed, tf, tension, k - 1);
        let prior = solve_pass_prefix(cur, sticks, fixed, tf, tension, k - 1);
        lemma_solve_stick_frame(prior.0, fixed, tf, tension, sticks[k - 1]);
    }
}

/// Whole passes touch no anchored point and keep lengths and domains.
pub proof fn lemma_solve_passes_frame(
    cur: Seq<V3>,
    sticks: Seq<Stick>,
    fixed: Set<int>,
    tf: Transform,
    tension: Option<u32>,
    depth: int,
)
    ensures
        solve_passes(cur, sticks, fixed, tf, tension, depth).0.len() == cur.len(),
        solve_passes(cur, sticks, fixed, tf, tension, depth).1.len() == sticks.len(),
        forall|i: int|
            0 <= i < cur.len() && fixed.contains(i) ==> solve_passes(
                cur,
                sticks,
                fixed,
                tf,
                tension,
                depth,
            ).0[i] == cur[i],
        seq_in_domain(cur) ==> seq_in_domain(solve_passes(cur, sticks, fixed, tf, tension, depth).0),
        forall|j: int|
            0 <= j < sticks.len() ==> (#[trigger] solve_passes(
                cur,
                sticks,
                fixed,
                tf,
                tension,
                depth,
            ).1[j]).length == sticks[j].length,
    decreases depth,
{
    if depth > 0 {
        lemma_solve_prefix_frame(cur, sticks, fixed, tf, tension, sticks.len() as int);
        let one = solve_pass(cur, sticks, fixed, tf, tension);
        lemma_solve_passes_frame(one.0, one.1, fixed, tf, tension, depth - 1);
    }
}

/// Appending one more pass at the end.
proof fn lemma_solve_passes_snoc(
    cur: Seq<V3>,
    sticks: Seq<Stick>,
    fixed: Set<int>,
    tf: Transform,
    tension: Option<u32>,
    depth: int,
)
    requires
        0 <= depth,
    ensures
        ({
            let upto = solve_passes(cur, sticks, fixed, tf, tension, depth);
            solve_passes(cur, sticks, fixed, tf, tension, depth + 1) == solve_pass(
                upto.0,
                upto.1,
                fixed,
                tf,
                tension,
            )
        }),
    decreases depth,
{
    let one = solve_pass(cur, sticks, fixed, tf, tension);
    if depth == 0 {
        assert(solve_passes(cur, sticks, fixed, tf, tension, 1) == solve_passes(
            one.0,
            one.1,
            fixed,
            tf,
            tension,
            0,
        ));
        assert(solve_passes(one.0, one.1, fixed, tf, tension, 0) == one);
        assert(solve_passes(cur, sticks, fixed, tf, tension, 0) == (cur, sticks));
    } else {
        lemma_solve_passes_snoc(one.0, one.1, fixed, tf, tension, depth - 1);
        assert(solve_passes(cur, sticks, fixed, tf, tension, depth + 1) == solve_passes(
            one.0,
            one.1,
            fixed,
            tf,
            tension,
            depth,
        ));
        assert(solve_passes(cur, sticks, fixed, tf, tension, depth) == solve_passes(
            one.0,
            one.1,
            fixed,
            tf,
            tension,
            depth - 1,
        ));
    }
}


/// Relaxes one stick in place, mirroring `solve_stick`. Returns whether the
/// stick broke under tension this step.
fn solve_stick_exec(
    positions: &mut Vec<Vector3>,
    fixed: &Vec<usize>,
    tf: &Transform,
    tension: Option<u32>,
    st: Stick,
) -> (broke: bool)
    requires
        seq_in_domain(views(old(positions)@)),
        tf.wf(),
        st.wf(),
    ensures
        views(final(positions)@) == solve_stick(
            views(old(positions)@),
            fixed_set(fixed@),
            *tf,
            tension,
            st,
        ).0,
        final(positions)@.len() == old(positions)@.len(),
        solve_stick(views(old(positions)@), fixed_set(fixed@), *tf, tension, st).1 == (
        if broke {
            Stick { broken: true, ..st }
        } else {
            st
        }),
{
    let ghost cur0 = views(positions@);
    let ghost fx = fixed_set(fixed@);
    let ghost r = solve_stick(views(positions@), fixed_set(fixed@), *tf, tension, st);
    if st.broken {
        return false;
    }
    let a = st.point_a_index;
    let b = st.point_b_index;
    let n = positions.len();
    if a >= n || b >= n {
        return false;
    }
    let fa = is_fixed_index(fixed, a);
    let fb = is_fixed_index(fixed, b);
    let pa = positions[a];
    let pb = positions[b];
    proof {
        assert(pa@ == cur0[a as int]);
        assert(pb@ == cur0[b as int]);
        assert(in_domain(pa@));
        assert(in_domain(pb@));
    }
    let ea_opt: Option<Vector3> = if fa {
        tf.transform_point(&pa)
    } else {
        Some(pa)
    };
    let eb_opt: Option<Vector3> = if fb {
        tf.transform_point(&pb)
    } else {
        Some(pb)
    };
    let (ea, eb) = match (ea_opt, eb_opt) {
        (Some(x), Some(y)) => (x, y),
        _ => {
            return false;
        },
    };
    proof {
        assert(effective_position(cur0, fx, *tf, a as int) == Some(ea@));
        assert(effective_position(cur0, fx, *tf, b as int) == Some(eb@));
        assert(in_domain(ea@));
        assert(in_domain(eb@));
    }
    let dist_u: u64 = distance(&ea, &eb);
    match tension {
        Some(t) => {
            assert((st.length as int) * (t as int) <= 0x40_0000_0000_0000_0000_0000_0000)
                by (nonlinear_arith)
                requires
                    0 <= st.length as int <= 0x4000_0000_0000_0000,
                    0 <= t as int <= 0xFFFF_FFFF,
            {}
            if (dist_u as u128) * 1000 > (st.length as u128) * (t as u128) {
                return true;
            }
        },
        None => {},
    }
    if dist_u == 0 {
        return false;
    }
    let target: u64 = if fa == fb {
        st.length / 2
    } else {
        st.length
    };
    let cx: i128 = div_floor(wide_sum(ea.x, eb.x), 2);
    let cy: i128 = div_floor(wide_sum(ea.y, eb.y), 2);
    let cz: i128 = div_floor(wide_sum(ea.z, eb.z), 2);
    let ox: i128 = off_component(eb.x, ea.x, target, dist_u);
    let oy: i128 = off_component(eb.y, ea.y, target, dist_u);
    let oz: i128 = off_component(eb.z, ea.z, target, dist_u);
    let nax: i128 = cx + ox;
    let nay: i128 = cy + oy;
    let naz: i128 = cz + oz;
    let nbx: i128 = cx - ox;
    let nby: i128 = cy - oy;
    let nbz: i128 = cz - oz;
    let lim: i128 = POINT_LIMIT as i128;
    let ok_a = -lim <= nax && nax <= lim && -lim <= nay && nay <= lim && -lim <= naz && naz
        <= lim;
    let ok_b = -lim <= nbx && nbx <= lim && -lim <= nby && nby <= lim && -lim <= nbz && nbz
        <= lim;
    proof {
        let center = v3_midpoint(ea@, eb@);
        let target_s = stick_target_length(st.length as int, fa, fb);
        let off = V3 {
            x: (eb@.x - ea@.x) * target_s / (dist_u as int),
            y: (eb@.y - ea@.y) * target_s / (dist_u as int),
            z: (eb@.z - ea@.z) * target_s / (dist_u as int),
        };
        assert(cx == center.x && cy == center.y && cz == center.z);
        assert(ox == off.x && oy == off.y && oz == off.z);
        assert(ok_a == in_domain(v3_sum(center, off)));
        assert(ok_b == in_domain(v3_diff(center, off)));
    }
    if (!fa && !ok_a) || (!fb && !ok_b) {
        return false;
    }
    let ghost pre = positions@;
    if !fa {
        positions.set(a, Vector3 { x: nax as i64, y: nay as i64, z: naz as i64 });
    }
    if !fb {
        positions.set(b, Vector3 { x: nbx as i64, y: nby as i64, z: nbz as i64 });
    }
    proof {
        assert(views(positions@) =~= r.0);
    }
    false
}

/// The widened sum of two coordinates.
fn wide_sum(x: i64, y: i64) -> (r: i128)
    ensures
        r == x + y,
{
    x as i128 + y as i128
}

/// One component of the scaled correction direction:
/// `(bx - ax) * target / dist`.
fn off_component(bx: i64, ax: i64, target: u64, dist: u64) -> (r: i128)
    requires
        -(POINT_LIMIT as int) <= ax as int <= POINT_LIMIT as int,
        -(POINT_LIMIT as int) <= bx as int <= POINT_LIMIT as int,
        target <= REST_LIMIT,
        0 < dist,
    ensures
        r == (bx - ax) * (target as int) / (dist as int),
        -0x800_0000_0000_0000_0000_0000_0000_0000 <= r <= 0x800_0000_0000_0000_0000_0000_0000_0000,
{
    let dx: i128 = bx as i128 - ax as i128;
    assert(-0x800_0000_0000_0000_0000_0000_0000_0000 <= dx * (target as i128)
        && dx * (target as i128) <= 0x800_0000_0000_0000_0000_0000_0000_0000)
        by (nonlinear_arith)
        requires
            -0x2000_0000_0000_0000 <= dx <= 0x2000_0000_0000_0000,
            0 <= target as i128 <= 0x4000_0000_0000_0000,
    {}
    div_floor(dx * (target as i128), dist as i128)
}


/// Every baseline position transformed into simulation space.
pub open spec fn transform_map(ps: Seq<V3>, tf: Transform) -> Seq<V3> {
    Seq::new(ps.len(), |i: int| tf.raw_apply(ps[i]))
}

/// The stored baseline of each point at bind time: an anchored point keeps
/// its raw local-space position, a free point is stored transformed into
/// simulation space.
pub open spec fn bind_map(ps: Seq<V3>, fixed: Set<int>, tf: Transform) -> Seq<V3> {
    Seq::new(
        ps.len(),
        |i: int|
            if fixed.contains(i) {
                ps[i]
            } else {
                tf.raw_apply(ps[i])
            },
    )
}

/// Whether every transformed baseline position stays in the domain.
pub open spec fn all_transforms_in_domain(ps: Seq<V3>, tf: Transform) -> bool {
    forall|i: int| 0 <= i < ps.len() ==> (#[trigger] tf.spec_apply(ps[i])) is Some
}

/// Whether every triangle index addresses a point.
pub open spec fn all_indices_in_range(idx: Seq<int>, n: int) -> bool {
    forall|j: int| 0 <= j < idx.len() ==> 0 <= #[trigger] idx[j] < n
}

/// The stick at position `j` of the constraint list: each full triangle
/// (a, b, c) of the index list yields the sticks (a,b), (b,c), (c,a), with
/// the rest length measured between the baseline positions. Shared edges are
/// deliberately not deduplicated.
pub open spec fn stick_for(idx: Seq<int>, ps: Seq<V3>, j: int) -> Stick {
    let t = j / 3;
    let ai = if j % 3 == 0 {
        idx[3 * t]
    } else if j % 3 == 1 {
        idx[3 * t + 1]
    } else {
        idx[3 * t + 2]
    };
    let bi = if j % 3 == 0 {
        idx[3 * t + 1]
    } else if j % 3 == 1 {
        idx[3 * t + 2]
    } else {
        idx[3 * t]
    };
    Stick {
        point_a_index: ai as usize,
        point_b_index: bi as usize,
        length: spec_distance(ps[ai], ps[bi]) as u64,
        broken: false,
    }
}

/// All sticks generated from a triangle index list; a trailing partial
/// triple is ignored.
pub open spec fn build_sticks(idx: Seq<int>, ps: Seq<V3>) -> Seq<Stick> {
    Seq::new((3 * (idx.len() as int / 3)) as nat, |j: int| stick_for(idx, ps, j))
}

/// The positions written back to the mesh: an anchored point's stored
/// baseline as-is, a free point mapped back through the inverse transform.
pub open spec fn apply_map(cur: Seq<V3>, fixed: Set<int>, inv: Transform) -> Seq<V3> {
    Seq::new(
        cur.len(),
        |i: int|
            if fixed.contains(i) {
                cur[i]
            } else {
                inv.raw_apply(cur[i])
            },
    )
}

/// Whether every free point maps back into the domain.
pub open spec fn apply_ok(cur: Seq<V3>, fixed: Set<int>, inv: Transform) -> bool {
    forall|i: int|
        0 <= i < cur.len() && !fixed.contains(i) ==> (#[trigger] inv.spec_apply(cur[i])) is Some
}

/// When both endpoints of a stick are free (or both anchored), one
/// relaxation step moves them symmetrically: the midpoint of the pair is
/// unchanged.
pub proof fn lemma_symmetric_stick_preserves_midpoint(
    cur: Seq<V3>,
    fixed: Set<int>,
    tf: Transform,
    tension: Option<u32>,
    st: Stick,
)
    requires
        (st.point_a_index as int) < cur.len(),
        (st.point_b_index as int) < cur.len(),
        st.point_a_index != st.point_b_index,
        fixed.contains(st.point_a_index as int) == fixed.contains(st.point_b_index as int),
    ensures
        ({
            let r = solve_stick(cur, fixed, tf, tension, st);
            v3_midpoint(r.0[st.point_a_index as int], r.0[st.point_b_index as int])
                == v3_midpoint(cur[st.point_a_index as int], cur[st.point_b_index as int])
        }),
{
    let a = st.point_a_index as int;
    let b = st.point_b_index as int;
    let r = solve_stick(cur, fixed, tf, tension, st);
    if fixed.contains(a) {
        lemma_solve_stick_frame(cur, fixed, tf, tension, st);
    } else {
        if r.0 != cur {
            let ea = cur[a];
            let eb = cur[b];
            let dist = spec_distance(ea, eb);
            let target = stick_target_length(st.length as int, false, false);
            let center = v3_midpoint(ea, eb);
            let off = V3 {
                x: (eb.x - ea.x) * target / dist,
                y: (eb.y - ea.y) * target / dist,
                z: (eb.z - ea.z) * target / dist,
            };
            assert(r.0[a] == v3_sum(center, off));
            assert(r.0[b] == v3_diff(center, off));
            lemma_div_multiples_vanish(center.x, 2);
            lemma_div_multiples_vanish(center.y, 2);
            lemma_div_multiples_vanish(center.z, 2);
            assert(v3_midpoint(r.0[a], r.0[b]) == center);
        }
    }
}

/// Binding under a pure translation and reading back through its inverse
/// reproduces the baseline positions exactly: a free point goes out and back
/// through the two translations, an anchored point is stored and written
/// back raw.
pub proof fn lemma_translation_round_trip(
    fwd: Transform,
    inv: Transform,
    ps: Seq<V3>,
    fixed: Set<int>,
)
    requires
        fwd.is_translation(),
        inv.is_translation(),
        inv.translation@.x == -fwd.translation@.x,
        inv.translation@.y == -fwd.translation@.y,
        inv.translation@.z == -fwd.translation@.z,
    ensures
        apply_map(bind_map(ps, fixed, fwd), fixed, inv) == ps,
{
    assert forall|i: int| 0 <= i < ps.len() implies apply_map(
        bind_map(ps, fixed, fwd),
        fixed,
        inv,
    )[i] == ps[i] by {
        if !fixed.contains(i) {
            crate::transform::lemma_translation_apply(fwd, ps[i]);
            crate::transform::lemma_translation_apply(inv, bind_map(ps, fixed, fwd)[i]);
        }
    }
    assert(apply_map(bind_map(ps, fixed, fwd), fixed, inv) =~= ps);
}


/// Whether a point lies within half the coordinate domain, leaving room for
/// a full correction without domain exit.
pub open spec fn in_half_domain(v: V3) -> bool {
    &&& -0x800_0000_0000_0000 <= v.x <= 0x800_0000_0000_0000
    &&& -0x800_0000_0000_0000 <= v.y <= 0x800_0000_0000_0000
    &&& -0x800_0000_0000_0000 <= v.z <= 0x800_0000_0000_0000
}

/// One relaxation step on a stick between two free points lying on a common
/// axis sets their separation to exactly twice the halved target, that is,
/// the rest length (its odd unit lost to rounding), whatever it was before:
/// the correction residual vanishes in a single pass.
pub proof fn lemma_free_axis_stick_reaches_rest(
    cur: Seq<V3>,
    fixed: Set<int>,
    tf: Transform,
    st: Stick,
)
    requires
        !st.broken,
        (st.point_a_index as int) < cur.len(),
        (st.point_b_index as int) < cur.len(),
        !fixed.contains(st.point_a_index as int),
        !fixed.contains(st.point_b_index as int),
        cur[st.point_a_index as int].y == cur[st.point_b_index as int].y,
        cur[st.point_a_index as int].z == cur[st.point_b_index as int].z,
        cur[st.point_a_index as int].x != cur[st.point_b_index as int].x,
        in_half_domain(cur[st.point_a_index as int]),
        in_half_domain(cur[st.point_b_index as int]),
        st.length as int <= 0x800_0000_0000_0000,
    ensures
        ({
            let r = solve_stick(cur, fixed, tf, None, st);
            let na = r.0[st.point_a_index as int];
            let nb = r.0[st.point_b_index as int];
            &&& (if cur[st.point_b_index as int].x > cur[st.point_a_index as int].x {
                na.x - nb.x == 2 * (st.length as int / 2)
            } else {
                nb.x - na.x == 2 * (st.length as int / 2)
            })
            &&& na.y == cur[st.point_a_index as int].y && nb.y == na.y
            &&& na.z == cur[st.point_a_index as int].z && nb.z == na.z
            &&& in_domain(na) && in_domain(nb)
        }),
{
    let a = st.point_a_index as int;
    let b = st.point_b_index as int;
    let ea = cur[a];
    let eb = cur[b];
    let dx = eb.x - ea.x;
    let d2 = dist_sq(ea, eb);
    assert(d2 == dx * dx);
    let dabs: int = if dx > 0 { dx } else { -dx };
    assert(is_sqrt_floor(d2, dabs)) by (nonlinear_arith)
        requires
            d2 == dx * dx,
            dabs == if dx > 0 { dx } else { -dx },
            dx != 0,
    {}
    crate::math::lemma_sqrt_floor_unique(d2, dabs);
    let dist = spec_distance(ea, eb);
    assert(dist == dabs);
    let target = st.length as int / 2;
    vstd::arithmetic::div_mod::lemma_div_nonincreasing(st.length as int, 2);
    vstd::arithmetic::div_mod::lemma_div_pos_is_pos(st.length as int, 2);
    assert(0 <= target <= 0x800_0000_0000_0000);
    let center = v3_midpoint(ea, eb);
    // The offset along the axis is exactly the halved target; the other
    // components vanish.
    if dx > 0 {
        lemma_div_multiples_vanish(target, dx);
        assert(dx * target == target * dx) by (nonlinear_arith);
        assert(dx * target / dist == target);
    } else {
        lemma_div_multiples_vanish(-target, -dx);
        assert(dx * target == (-dx) * (-target)) by (nonlinear_arith);
        assert(dx * target / dist == -target);
    }
    lemma_div_of0(dist);
    assert((eb.y - ea.y) * target == 0) by (nonlinear_arith)
        requires
            eb.y == ea.y,
    {}
    assert((eb.z - ea.z) * target == 0) by (nonlinear_arith)
        requires
            eb.z == ea.z,
    {}
    // The midpoint stays within half the domain, so neither corrected point
    // leaves it and the correction is not skipped.
    let half = 0x800_0000_0000_0000int;
    lemma_div_is_ordered(2 * -half, ea.x + eb.x, 2);
    lemma_div_is_ordered(ea.x + eb.x, 2 * half, 2);
    lemma_div_multiples_vanish(-half, 2);
    lemma_div_multiples_vanish(half, 2);
    lemma_div_multiples_vanish(ea.y, 2);
    lemma_div_multiples_vanish(ea.z, 2);
    assert(center.y == ea.y);
    assert(center.z == ea.z);
    assert(-half <= center.x <= half);
    let off = V3 {
        x: (eb.x - ea.x) * target / dist,
        y: (eb.y - ea.y) * target / dist,
        z: (eb.z - ea.z) * target / dist,
    };
    assert(off.y == 0 && off.z == 0);
    let na = v3_sum(center, off);
    let nb = v3_diff(center, off);
    assert(in_domain(na));
    assert(in_domain(nb));
    assert(a != b);
    let r = solve_stick(cur, fixed, tf, None, st);
    assert(r.0 == if !fixed.contains(b) {
        cur.update(a, na).update(b, nb)
    } else {
        cur.update(a, na)
    });
    assert(r.0[a] == na && r.0[b] == nb);
}


/// At the rest separation the relaxation step is a fixpoint up to swapping
/// the two endpoints: one step on an axis-aligned free stick whose endpoints
/// are already exactly twice the halved target apart leaves that separation,
/// and their shared off-axis coordinates, unchanged.
pub proof fn lemma_axis_stick_rest_is_stable(
    cur: Seq<V3>,
    fixed: Set<int>,
    tf: Transform,
    st: Stick,
)
    requires
        !st.broken,
        (st.point_a_index as int) < cur.len(),
        (st.point_b_index as int) < cur.len(),
        st.point_a_index != st.point_b_index,
        !fixed.contains(st.point_a_index as int),
        !fixed.contains(st.point_b_index as int),
        cur[st.point_a_index as int].y == cur[st.point_b_index as int].y,
        cur[st.point_a_index as int].z == cur[st.point_b_index as int].z,
        in_domain(cur[st.point_a_index as int]),
        in_domain(cur[st.point_b_index as int]),
        cur[st.point_b_index as int].x - cur[st.point_a_index as int].x == 2 * (st.length as int
            / 2) || cur[st.point_a_index as int].x - cur[st.point_b_index as int].x == 2 * (
        st.length as int / 2),
    ensures
        ({
            let r = solve_stick(cur, fixed, tf, None, st);
            let na = r.0[st.point_a_index as int];
            let nb = r.0[st.point_b_index as int];
            let t = st.length as int / 2;
            &&& nb.x - na.x == 2 * t || na.x - nb.x == 2 * t
            &&& na.y == cur[st.point_a_index as int].y && nb.y == na.y
            &&& na.z == cur[st.point_a_index as int].z && nb.z == na.z
            &&& in_domain(na) && in_domain(nb)
        }),
{
    let a = st.point_a_index as int;
    let b = st.point_b_index as int;
    let ea = cur[a];
    let eb = cur[b];
    let t = st.length as int / 2;
    let d = eb.x - ea.x;
    let d2 = dist_sq(ea, eb);
    assert(d2 == d * d);
    if t == 0 {
        assert(d == 0);
        assert(d2 == 0) by (nonlinear_arith)
            requires
                d2 == d * d,
                d == 0,
        {}
        assert(is_sqrt_floor(0, 0));
        crate::math::lemma_sqrt_floor_unique(0, 0);
        assert(solve_stick(cur, fixed, tf, None, st).0 == cur);
    } else {
        assert(d == 2 * t || d == -(2 * t));
        assert(d != 0);
        assert(is_sqrt_floor(d2, 2 * t)) by (nonlinear_arith)
            requires
                d2 == d * d,
                d == 2 * t || d == -(2 * t),
                t > 0,
        {}
        crate::math::lemma_sqrt_floor_unique(d2, 2 * t);
        let dist = spec_distance(ea, eb);
        assert(dist == 2 * t);
        let center = v3_midpoint(ea, eb);
        if d == 2 * t {
            assert(ea.x + eb.x == 2 * (ea.x + t));
            lemma_div_multiples_vanish(ea.x + t, 2);
            assert(center.x == ea.x + t);
            assert(d * t == (2 * t) * t) by (nonlinear_arith)
                requires
                    d == 2 * t,
            {}
            lemma_div_multiples_vanish(t, 2 * t);
            assert(d * t / dist == t);
        } else {
            assert(ea.x + eb.x == 2 * (ea.x - t));
            lemma_div_multiples_vanish(ea.x - t, 2);
            assert(center.x == ea.x - t);
            assert(d * t == (2 * t) * (-t)) by (nonlinear_arith)
                requires
                    d == -(2 * t),
            {}
            lemma_div_multiples_vanish(-t, 2 * t);
            assert(d * t / dist == -t);
        }
        lemma_div_multiples_vanish(ea.y, 2);
        lemma_div_multiples_vanish(ea.z, 2);
        assert(center.y == ea.y && center.z == ea.z);
        lemma_div_of0(dist);
        assert((eb.y - ea.y) * t == 0) by (nonlinear_arith)
            requires
                eb.y == ea.y,
        {}
        assert((eb.z - ea.z) * t == 0) by (nonlinear_arith)
            requires
                eb.z == ea.z,
        {}
        let off = V3 {
            x: (eb.x - ea.x) * t / dist,
            y: (eb.y - ea.y) * t / dist,
            z: (eb.z - ea.z) * t / dist,
        };
        let na = v3_sum(center, off);
        let nb = v3_diff(center, off);
        // The step swaps the two stored positions, which stay in the domain.
        assert(na == eb && nb == ea);
        assert(in_domain(na) && in_domain(nb));
        let r = solve_stick(cur, fixed, tf, None, st);
        assert(r.0[a] == na && r.0[b] == nb);
    }
}


/// Once an isolated axis-aligned free stick sits at twice the halved rest
/// length, any number of further relaxation passes keeps it there.
proof fn lemma_axis_passes_keep_rest(
    cur: Seq<V3>,
    fixed: Set<int>,
    tf: Transform,
    st: Stick,
    depth: int,
)
    requires
        0 <= depth,
        !st.broken,
        (st.point_a_index as int) < cur.len(),
        (st.point_b_index as int) < cur.len(),
        st.point_a_index != st.point_b_index,
        !fixed.contains(st.point_a_index as int),
        !fixed.contains(st.point_b_index as int),
        cur[st.point_a_index as int].y == cur[st.point_b_index as int].y,
        cur[st.point_a_index as int].z == cur[st.point_b_index as int].z,
        in_domain(cur[st.point_a_index as int]),
        in_domain(cur[st.point_b_index as int]),
        cur[st.point_b_index as int].x - cur[st.point_a_index as int].x == 2 * (st.length as int
            / 2) || cur[st.point_a_index as int].x - cur[st.point_b_index as int].x == 2 * (
        st.length as int / 2),
    ensures
        ({
            let r = solve_passes(cur, seq![st], fixed, tf, None, depth);
            let na = r.0[st.point_a_index as int];
            let nb = r.0[st.point_b_index as int];
            let t = st.length as int / 2;
            &&& r.0.len() == cur.len()
            &&& nb.x - na.x == 2 * t || na.x - nb.x == 2 * t
            &&& na.y == cur[st.point_a_index as int].y && nb.y == na.y
            &&& na.z == cur[st.point_a_index as int].z && nb.z == na.z
            &&& in_domain(na) && in_domain(nb)
        }),
    decreases depth,
{
    let a = st.point_a_index as int;
    let b = st.point_b_index as int;
    if depth > 0 {
        let sticks = seq![st];
        let one = solve_pass(cur, sticks, fixed, tf, None);
        let stepped = solve_stick(cur, fixed, tf, None, st);
        assert(sticks[0] == st);
        assert(solve_pass_prefix(cur, sticks, fixed, tf, None, 0) == (cur, sticks));
        assert(one.0 == stepped.0);
        assert(one.1 == sticks.update(0, stepped.1));
        assert(stepped.1 == st);
        assert(one.1 =~= sticks);
        lemma_axis_stick_rest_is_stable(cur, fixed, tf, st);
        lemma_solve_stick_frame(cur, fixed, tf, None, st);
        lemma_axis_passes_keep_rest(one.0, fixed, tf, st, depth - 1);
        assert(solve_passes(cur, sticks, fixed, tf, None, depth) == solve_passes(
            one.0,
            one.1,
            fixed,
            tf,
            None,
            depth - 1,
        ));
    }
}

/// An isolated stick between two distinct free points on a shared axis
/// converges in a single pass and stays converged: after any positive
/// iteration depth its endpoints sit exactly twice the halved rest length
/// apart, so the correction residual is at most the odd unit of the rest
/// length and is non-increasing as the iteration depth grows.
pub proof fn lemma_isolated_axis_stick_converges(
    cur: Seq<V3>,
    fixed: Set<int>,
    tf: Transform,
    st: Stick,
    depth: int,
)
    requires
        1 <= depth,
        !st.broken,
        (st.point_a_index as int) < cur.len(),
        (st.point_b_index as int) < cur.len(),
        !fixed.contains(st.point_a_index as int),
        !fixed.contains(st.point_b_index as int),
        cur[st.point_a_index as int].y == cur[st.point_b_index as int].y,
        cur[st.point_a_index as int].z == cur[st.point_b_index as int].z,
        cur[st.point_a_index as int].x != cur[st.point_b_index as int].x,
        in_half_domain(cur[st.point_a_index as int]),
        in_half_domain(cur[st.point_b_index as int]),
        st.length as int <= 0x800_0000_0000_0000,
    ensures
        ({
            let r = solve_passes(cur, seq![st], fixed, tf, None, depth);
            let na = r.0[st.point_a_index as int];
            let nb = r.0[st.point_b_index as int];
            let t = st.length as int / 2;
            &&& nb.x - na.x == 2 * t || na.x - nb.x == 2 * t
            &&& na.y == nb.y && na.z == nb.z
        }),
{
    let a = st.point_a_index as int;
    let b = st.point_b_index as int;
    let sticks = seq![st];
    let one = solve_pass(cur, sticks, fixed, tf, None);
    let stepped = solve_stick(cur, fixed, tf, None, st);
    assert(sticks[0] == st);
    assert(solve_pass_prefix(cur, sticks, fixed, tf, None, 0) == (cur, sticks));
    assert(one.0 == stepped.0);
    assert(one.1 == sticks.update(0, stepped.1));
    assert(stepped.1 == st);
    assert(one.1 =~= sticks);
    assert(a != b);
    lemma_free_axis_stick_reaches_rest(cur, fixed, tf, st);
    lemma_solve_stick_frame(cur, fixed, tf, None, st);
    lemma_axis_passes_keep_rest(one.0, fixed, tf, st, depth - 1);
    assert(solve_passes(cur, sticks, fixed, tf, None, depth) == solve_passes(
        one.0,
        one.1,
        fixed,
        tf,
        None,
        depth - 1,
    ));
}

} // verus!
