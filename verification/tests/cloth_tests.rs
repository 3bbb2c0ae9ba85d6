use silk::cloth::Cloth;
use silk::config::ClothConfig;
use silk::mesh::{MeshData, MeshIndices};
use silk::transform::Transform;
use silk::vector::Vector3;

fn v(x: i64, y: i64, z: i64) -> Vector3 {
    Vector3 { x, y, z }
}

fn triangle_mesh() -> MeshData {
    MeshData {
        positions: Some(vec![v(0, 0, 0), v(1000, 0, 0), v(0, 1000, 0)]),
        colors: None,
        indices: Some(MeshIndices::U32(vec![0, 1, 2])),
    }
}

fn no_gravity() -> ClothConfig {
    ClothConfig {
        gravity: v(0, 0, 0),
        damping_permille: 1000,
        sticks_computation_depth: 1,
        max_tension_permille: None,
    }
}

#[test]
fn new_cloth_is_not_setup() {
    let cloth = Cloth::new(&vec![]);
    assert!(!cloth.is_setup());
    assert_eq!(cloth.point_count(), 0);
    assert_eq!(cloth.stick_count(), 0);
}

#[test]
fn init_requires_indices() {
    let mut cloth = Cloth::new(&vec![]);
    let mesh = MeshData {
        positions: Some(vec![v(0, 0, 0), v(1000, 0, 0), v(0, 1000, 0)]),
        colors: None,
        indices: None,
    };
    cloth.init_from_mesh(&mesh, &Transform::identity());
    assert!(!cloth.is_setup());
    assert_eq!(cloth.stick_count(), 0);
}

#[test]
fn init_builds_three_sticks_per_triangle() {
    let mut cloth = Cloth::new(&vec![]);
    cloth.init_from_mesh(&triangle_mesh(), &Transform::identity());
    assert!(cloth.is_setup());
    assert_eq!(cloth.point_count(), 3);
    assert_eq!(cloth.stick_count(), 3);
    let s0 = cloth.stick_at(0);
    assert_eq!((s0.point_a_index, s0.point_b_index, s0.length), (0, 1, 1000));
    let s1 = cloth.stick_at(1);
    assert_eq!((s1.point_a_index, s1.point_b_index, s1.length), (1, 2, 1414));
    let s2 = cloth.stick_at(2);
    assert_eq!((s2.point_a_index, s2.point_b_index, s2.length), (2, 0, 1000));
    assert!(!s0.broken && !s1.broken && !s2.broken);
}

#[test]
fn shared_edges_are_not_deduplicated() {
    // Two triangles sharing edge 1-2 yield six sticks, two of which connect
    // 1 and 2 with identical rest length.
    let mesh = MeshData {
        positions: Some(vec![
            v(0, 0, 0),
            v(1000, 0, 0),
            v(0, 1000, 0),
            v(1000, 1000, 0),
        ]),
        colors: None,
        indices: Some(MeshIndices::U16(vec![0, 1, 2, 1, 2, 3])),
    };
    let mut cloth = Cloth::new(&vec![]);
    cloth.init_from_mesh(&mesh, &Transform::identity());
    assert_eq!(cloth.stick_count(), 6);
    let first = cloth.stick_at(1);
    let second = cloth.stick_at(3);
    assert_eq!((first.point_a_index, first.point_b_index), (1, 2));
    assert_eq!((second.point_a_index, second.point_b_index), (1, 2));
    assert_eq!(first.length, second.length);
    assert_eq!(first.length, 1414);
}

#[test]
fn zero_dt_leaves_positions_unchanged() {
    let mut cloth = Cloth::new(&vec![]);
    cloth.init_from_mesh(&triangle_mesh(), &Transform::identity());
    let config = ClothConfig {
        gravity: v(0, -9810, 0),
        damping_permille: 980,
        sticks_computation_depth: 0,
        max_tension_permille: None,
    };
    cloth.update(&config, 0, &Transform::identity());
    assert_eq!(cloth.current_position(0), v(0, 0, 0));
    assert_eq!(cloth.current_position(1), v(1000, 0, 0));
    assert_eq!(cloth.current_position(2), v(0, 1000, 0));
}

#[test]
fn integrator_applies_gravity_and_damped_velocity() {
    let mut cloth = Cloth::new(&vec![]);
    cloth.init_from_mesh(&triangle_mesh(), &Transform::identity());
    let config = ClothConfig {
        gravity: v(0, 0, -1000),
        damping_permille: 1000,
        sticks_computation_depth: 0,
        max_tension_permille: None,
    };
    // First tick: no velocity yet, gravity term is -1000*1000*1000/1e6.
    cloth.update_points(1000, &config);
    assert_eq!(cloth.current_position(0).z, -1000);
    // Second tick: velocity -1000 fully retained, plus gravity again.
    cloth.update_points(1000, &config);
    assert_eq!(cloth.current_position(0).z, -3000);
    assert_eq!(cloth.previous_position(0).z, -1000);
}

#[test]
fn integrator_damping_scales_velocity() {
    let mut cloth = Cloth::new(&vec![]);
    cloth.init_from_mesh(&triangle_mesh(), &Transform::identity());
    let config = ClothConfig {
        gravity: v(0, 0, -1000),
        damping_permille: 500,
        sticks_computation_depth: 0,
        max_tension_permille: None,
    };
    cloth.update_points(1000, &config);
    assert_eq!(cloth.current_position(0).z, -1000);
    cloth.update_points(1000, &config);
    // Velocity term halves: -1000 - 500 - 1000.
    assert_eq!(cloth.current_position(0).z, -2500);
}

#[test]
fn integrator_never_moves_anchored_points() {
    let mut cloth = Cloth::new(&vec![0]);
    cloth.init_from_mesh(&triangle_mesh(), &Transform::identity());
    let config = ClothConfig {
        gravity: v(0, -1000, 0),
        damping_permille: 1000,
        sticks_computation_depth: 0,
        max_tension_permille: None,
    };
    cloth.update_points(1000, &config);
    assert_eq!(cloth.current_position(0), v(0, 0, 0));
    assert_eq!(cloth.current_position(1), v(1000, -1000, 0));
    assert_eq!(cloth.current_position(2), v(0, 0, 0));
}

#[test]
fn solver_relaxes_and_preserves_pair_midpoints() {
    // Points 0 and 2 coincide, so the triangle carries one zero-length
    // stick; one pass pulls its two free endpoints together (distance
    // converges from 1000 to the rest length 0) while their midpoint stays
    // where it was.
    let mesh = MeshData {
        positions: Some(vec![v(0, 0, 0), v(1000, 0, 0), v(0, 0, 0)]),
        colors: None,
        indices: Some(MeshIndices::U32(vec![0, 1, 2])),
    };
    let mut cloth = Cloth::new(&vec![]);
    cloth.init_from_mesh(&mesh, &Transform::identity());
    cloth.update_sticks(&no_gravity(), &Transform::identity());
    assert_eq!(cloth.current_position(0), v(500, 0, 0));
    assert_eq!(cloth.current_position(1), v(0, 0, 0));
    assert_eq!(cloth.current_position(2), v(500, 0, 0));
}

#[test]
fn multi_tick_simulation_is_exact_and_deterministic() {
    // Five ticks over a free triangle, three relaxation passes each: every
    // intermediate value is exact integer arithmetic, so the outcome is a
    // fixed point-for-point result.
    let mut cloth = Cloth::new(&vec![]);
    cloth.init_from_mesh(&triangle_mesh(), &Transform::identity());
    let config = ClothConfig {
        gravity: v(0, 0, 0),
        damping_permille: 900,
        sticks_computation_depth: 3,
        max_tension_permille: None,
    };
    for _ in 0..5 {
        cloth.update(&config, 16, &Transform::identity());
    }
    assert_eq!(cloth.current_position(0), v(34, -180, 0));
    assert_eq!(cloth.current_position(1), v(-91, 1228, 0));
    assert_eq!(cloth.current_position(2), v(1028, -74, 0));
}

#[test]
fn solver_never_moves_anchored_points() {
    let mut cloth = Cloth::new(&vec![0]);
    cloth.init_from_mesh(&triangle_mesh(), &Transform::identity());
    let moved = Transform::translation_only(v(5000, 0, 0));
    cloth.update_sticks(&no_gravity(), &moved);
    // The anchored point's stored position is untouched; free points moved.
    assert_eq!(cloth.current_position(0), v(0, 0, 0));
    assert!(cloth.current_position(1) != v(1000, 0, 0));
}

#[test]
fn overtensioned_sticks_break_and_stop_correcting() {
    let mut cloth = Cloth::new(&vec![0]);
    cloth.init_from_mesh(&triangle_mesh(), &Transform::identity());
    let config = ClothConfig {
        gravity: v(0, 0, 0),
        damping_permille: 1000,
        sticks_computation_depth: 1,
        max_tension_permille: Some(1500),
    };
    let far = Transform::translation_only(v(10000, 0, 0));
    cloth.update_sticks(&config, &far);
    // Both sticks touching the anchored point 0 are stretched to 9000
    // units, far over 1.5 times their rest length: they break and correct
    // neither endpoint. The free-free stick between 1 and 2 stays intact.
    assert!(cloth.stick_at(0).broken);
    assert!(!cloth.stick_at(1).broken);
    assert!(cloth.stick_at(2).broken);
    assert_eq!(cloth.current_position(0), v(0, 0, 0));
    assert_eq!(cloth.current_position(1), v(0, 1000, 0));
    assert_eq!(cloth.current_position(2), v(1000, 0, 0));
}

#[test]
fn round_trip_under_translation_reproduces_the_mesh() {
    // Binding under a pure translation and applying back through its
    // inverse reproduces the original local positions exactly.
    let mut mesh = triangle_mesh();
    let original = vec![v(0, 0, 0), v(1000, 0, 0), v(0, 1000, 0)];
    let fwd = Transform::translation_only(v(5000, -3000, 250));
    let inv = Transform::translation_only(v(-5000, 3000, -250));
    let mut cloth = Cloth::new(&vec![]);
    cloth.init_from_mesh(&mesh, &fwd);
    let ok = cloth.apply_to_mesh(&mut mesh, &inv);
    assert!(ok);
    assert_eq!(mesh.positions, Some(original));
}

#[test]
fn round_trip_under_identity_reproduces_the_mesh() {
    let mut mesh = triangle_mesh();
    let original = vec![v(0, 0, 0), v(1000, 0, 0), v(0, 1000, 0)];
    let id = Transform::identity();
    let mut cloth = Cloth::new(&vec![]);
    cloth.init_from_mesh(&mesh, &id);
    let ok = cloth.apply_to_mesh(&mut mesh, &id);
    assert!(ok);
    assert_eq!(mesh.positions, Some(original));
}

#[test]
fn apply_writes_anchored_points_directly() {
    // An anchored point is stored as its raw local-space baseline and
    // written back as-is; free points go out through the transform and back
    // through the inverse. The round trip therefore covers anchored
    // vertices too.
    let mut mesh = triangle_mesh();
    let fwd = Transform::translation_only(v(100, 0, 0));
    let inv = Transform::translation_only(v(-100, 0, 0));
    let mut cloth = Cloth::new(&vec![0]);
    cloth.init_from_mesh(&mesh, &fwd);
    assert_eq!(cloth.current_position(0), v(0, 0, 0));
    assert_eq!(cloth.current_position(1), v(1100, 0, 0));
    let ok = cloth.apply_to_mesh(&mut mesh, &inv);
    assert!(ok);
    let ps = mesh.positions.unwrap();
    assert_eq!(ps[0], v(0, 0, 0));
    assert_eq!(ps[1], v(1000, 0, 0));
    assert_eq!(ps[2], v(0, 1000, 0));
}

#[test]
fn anchors_are_not_doubly_transformed() {
    // Binding under a far translation and solving under the same transform
    // leaves every stick at its rest length: the anchored endpoint's
    // effective position is the transform applied to its local baseline
    // once, so no stick comes under tension.
    let mut cloth = Cloth::new(&vec![0]);
    let far = Transform::translation_only(v(10000, 0, 0));
    cloth.init_from_mesh(&triangle_mesh(), &far);
    let config = ClothConfig {
        gravity: v(0, 0, 0),
        damping_permille: 1000,
        sticks_computation_depth: 1,
        max_tension_permille: Some(1500),
    };
    cloth.update_sticks(&config, &far);
    assert!(!cloth.stick_at(0).broken);
    assert!(!cloth.stick_at(1).broken);
    assert!(!cloth.stick_at(2).broken);
    assert_eq!(cloth.current_position(0), v(0, 0, 0));
}

#[test]
fn default_config_values() {
    let config = ClothConfig::default();
    assert_eq!(config.gravity, v(0, -9810, 0));
    assert_eq!(config.damping_permille, 980);
    assert_eq!(config.sticks_computation_depth, 5);
    assert_eq!(config.max_tension_permille, None);
}

#[test]
fn full_tick_keeps_anchored_points_in_place() {
    let mut cloth = Cloth::new(&vec![0]);
    cloth.init_from_mesh(&triangle_mesh(), &Transform::identity());
    let config = ClothConfig {
        gravity: v(0, -9810, 0),
        damping_permille: 980,
        sticks_computation_depth: 4,
        max_tension_permille: None,
    };
    let moved = Transform::translation_only(v(300, 0, 0));
    for _ in 0..3 {
        cloth.update(&config, 16, &moved);
        assert_eq!(cloth.current_position(0), v(0, 0, 0));
    }
}
