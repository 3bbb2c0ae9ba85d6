use silk::anchor::{AnchorRegistry, VertexAnchor, XAtLeast};
use silk::cloth_builder::{ClothBuilder, NormalComputing, StickGeneration, StickLen, StickMode};
use silk::mesh::{ColorRgba, MeshData, MeshIndices};
use silk::vector::Vector3;

fn v(x: i64, y: i64, z: i64) -> Vector3 {
    Vector3 { x, y, z }
}

fn red() -> ColorRgba {
    ColorRgba { red: 65535, green: 0, blue: 0, alpha: 65535 }
}

fn blue() -> ColorRgba {
    ColorRgba { red: 0, green: 0, blue: 65535, alpha: 65535 }
}

fn colored_mesh() -> MeshData {
    MeshData {
        positions: Some(vec![v(0, 0, 0), v(600, 0, 0), v(700, 0, 0)]),
        colors: Some(vec![red(), blue(), red()]),
        indices: Some(MeshIndices::U32(vec![0, 1, 2])),
    }
}

#[test]
fn registry_insert_and_lookup() {
    let mut reg = AnchorRegistry::new();
    assert!(reg.is_empty());
    reg.insert(4, VertexAnchor::FollowTransform);
    reg.insert(7, VertexAnchor::CustomOffset(v(1, 2, 3)));
    assert!(reg.contains(4));
    assert!(reg.contains(7));
    assert!(!reg.contains(5));
    assert_eq!(reg.get(7), Some(VertexAnchor::CustomOffset(v(1, 2, 3))));
    // Re-inserting a key replaces the descriptor in place.
    reg.insert(4, VertexAnchor::CustomOffset(v(9, 9, 9)));
    assert_eq!(reg.get(4), Some(VertexAnchor::CustomOffset(v(9, 9, 9))));
    assert_eq!(reg.entries.len(), 2);
    // insert_if_absent never overrides.
    reg.insert_if_absent(4, VertexAnchor::FollowTransform);
    assert_eq!(reg.get(4), Some(VertexAnchor::CustomOffset(v(9, 9, 9))));
}

#[test]
fn builder_options_are_recorded() {
    let b: ClothBuilder<XAtLeast> = ClothBuilder::new()
        .with_stick_generation(StickGeneration::Quads)
        .with_stick_mode(StickMode::Breakable(1500))
        .with_stick_length(StickLen::Fixed(250))
        .without_normal_computation();
    assert_eq!(b.stick_generation, StickGeneration::Quads);
    assert_eq!(b.default_stick_mode, StickMode::Breakable(1500));
    assert_eq!(b.stick_length, StickLen::Fixed(250));
    assert_eq!(b.normals_computing, NormalComputing::NoNormals);
    let b = b.with_smooth_normals();
    assert_eq!(b.normals_computing, NormalComputing::SmoothNormals);
    let b = b.with_flat_normals();
    assert_eq!(b.normals_computing, NormalComputing::FlatNormals);
    let b = b.with_smooth_normal_computation();
    assert_eq!(b.normals_computing, NormalComputing::SmoothNormals);
    let b = b.with_flat_normal_computation();
    assert_eq!(b.normals_computing, NormalComputing::FlatNormals);
}

#[test]
fn explicit_ids_resolve_alone() {
    let b: ClothBuilder<XAtLeast> = ClothBuilder::new()
        .with_pinned_vertex_ids(&vec![1, 2])
        .with_pinned_vertex_id(4)
        .with_fixed_points(&vec![6]);
    let mesh = MeshData { positions: None, colors: None, indices: None };
    let resolved = b.anchored_vertex_ids(&mesh);
    assert!(resolved.contains(1));
    assert!(resolved.contains(2));
    assert!(resolved.contains(4));
    assert!(resolved.contains(6));
    assert!(!resolved.contains(0));
    assert_eq!(resolved.get(4), Some(VertexAnchor::FollowTransform));
}

#[test]
fn colors_and_conditions_resolve_with_first_match_wins() {
    // Vertex 5 is explicit; red vertices 0 and 2 match by color; vertices
    // with x >= 500 (1 and 2) match by position. Vertex 2 is matched by two
    // sources and keeps the earlier source's descriptor.
    let b: ClothBuilder<XAtLeast> = ClothBuilder::new()
        .with_anchored_vertex_id(5, VertexAnchor::CustomOffset(v(1, 2, 3)))
        .with_anchored_vertex_color(red(), VertexAnchor::CustomOffset(v(7, 0, 0)))
        .with_anchored_vertex_positions(
            XAtLeast { threshold: 500 },
            VertexAnchor::FollowTransform,
        );
    let mesh = colored_mesh();
    let resolved = b.anchored_vertex_ids(&mesh);
    assert_eq!(resolved.get(5), Some(VertexAnchor::CustomOffset(v(1, 2, 3))));
    assert_eq!(resolved.get(0), Some(VertexAnchor::CustomOffset(v(7, 0, 0))));
    assert_eq!(resolved.get(2), Some(VertexAnchor::CustomOffset(v(7, 0, 0))));
    assert_eq!(resolved.get(1), Some(VertexAnchor::FollowTransform));
    assert!(!resolved.contains(3));
    assert_eq!(resolved.entries.len(), 4);
}

#[test]
fn explicit_id_wins_over_color_match() {
    let b: ClothBuilder<XAtLeast> = ClothBuilder::new()
        .with_anchored_vertex_id(0, VertexAnchor::CustomOffset(v(4, 4, 4)))
        .with_pinned_vertex_color(red());
    let resolved = b.anchored_vertex_ids(&colored_mesh());
    assert_eq!(resolved.get(0), Some(VertexAnchor::CustomOffset(v(4, 4, 4))));
    assert_eq!(resolved.get(2), Some(VertexAnchor::FollowTransform));
}

#[test]
fn missing_color_attribute_skips_the_color_source() {
    let b: ClothBuilder<XAtLeast> = ClothBuilder::new()
        .with_pinned_vertex_id(1)
        .with_pinned_vertex_color(red());
    let mesh = MeshData {
        positions: Some(vec![v(0, 0, 0), v(600, 0, 0)]),
        colors: None,
        indices: None,
    };
    let resolved = b.anchored_vertex_ids(&mesh);
    assert!(resolved.contains(1));
    assert!(!resolved.contains(0));
    assert_eq!(resolved.entries.len(), 1);
}

#[test]
fn missing_position_attribute_skips_the_condition_source() {
    let b: ClothBuilder<XAtLeast> = ClothBuilder::new()
        .with_pinned_vertex_positions(XAtLeast { threshold: 0 });
    let mesh = MeshData { positions: None, colors: Some(vec![red()]), indices: None };
    let resolved = b.anchored_vertex_ids(&mesh);
    assert!(resolved.is_empty());
}

#[test]
fn anchor_resolution_is_idempotent() {
    let b: ClothBuilder<XAtLeast> = ClothBuilder::new()
        .with_anchored_vertex_id(5, VertexAnchor::CustomOffset(v(1, 2, 3)))
        .with_pinned_vertex_color(red())
        .with_pinned_vertex_positions(XAtLeast { threshold: 500 });
    let mesh = colored_mesh();
    // Re-resolving from the same configuration and mesh yields the same set.
    let first = b.anchored_vertex_ids(&mesh);
    let second = b.anchored_vertex_ids(&mesh);
    assert_eq!(first.entries, second.entries);
    // Making the resolved anchors the explicit ids and resolving again also
    // yields the same set.
    let again: ClothBuilder<XAtLeast> = ClothBuilder::new()
        .with_pinned_vertex_color(red())
        .with_pinned_vertex_positions(XAtLeast { threshold: 500 });
    let again = ClothBuilder { anchored_vertex_ids: first.duplicate(), ..again };
    let third = again.anchored_vertex_ids(&mesh);
    for id in 0..8 {
        assert_eq!(third.get(id), first.get(id));
    }
}

#[test]
fn registry_ids_lists_insertion_order() {
    let b: ClothBuilder<XAtLeast> = ClothBuilder::new()
        .with_pinned_vertex_id(3)
        .with_pinned_vertex_id(1);
    let resolved = b.anchored_vertex_ids(
        &MeshData { positions: None, colors: None, indices: None },
    );
    assert_eq!(resolved.ids(), vec![3, 1]);
}
