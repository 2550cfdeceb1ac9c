use sepia::builder::ImportError;
use sepia::matrix::Vec3;
use sepia::vertex::{assemble_vertices, AttributeLayout, Vec2, Vec4, Vertex, VertexSet};

fn v3(x: i64, y: i64, z: i64) -> Vec3 {
    Vec3 { x, y, z }
}

fn bare(position: Vec3) -> Vertex {
    Vertex {
        position: Some(position),
        normal: None,
        tex_coords_0: None,
        tex_coords_1: None,
        joints_0: None,
        weights_0: None,
    }
}

#[test]
fn position_and_normal_layout() {
    let mut v = bare(v3(1, 2, 3));
    v.normal = Some(v3(0, 0, 1));
    let set = VertexSet { vertices: vec![v, v] };
    assert_eq!(set.data_lengths(), vec![3, 3]);
    assert_eq!(
        set.attribute_layout(),
        vec![
            AttributeLayout { slot: 0, count: 3, stride: 6, offset: 0 },
            AttributeLayout { slot: 1, count: 3, stride: 6, offset: 3 },
        ]
    );
    assert_eq!(set.pack_vertices(), vec![1, 2, 3, 0, 0, 1, 1, 2, 3, 0, 0, 1]);
}

#[test]
fn full_layout_in_packing_order() {
    let v = Vertex {
        position: Some(v3(1, 2, 3)),
        normal: Some(v3(4, 5, 6)),
        tex_coords_0: Some(Vec2 { x: 7, y: 8 }),
        tex_coords_1: Some(Vec2 { x: 100, y: 100 }),
        joints_0: Some(Vec4 { x: 9, y: 10, z: 11, w: 12 }),
        weights_0: Some(Vec4 { x: 13, y: 14, z: 15, w: 16 }),
    };
    assert_eq!(v.pack_data(), (1..=16).collect::<Vec<i64>>());
    let set = VertexSet { vertices: vec![v] };
    let layout = set.attribute_layout();
    let offsets: Vec<u32> = layout.iter().map(|a| a.offset).collect();
    let counts: Vec<u32> = layout.iter().map(|a| a.count).collect();
    assert_eq!(offsets, vec![0, 3, 6, 8, 12]);
    assert_eq!(counts, vec![3, 3, 2, 4, 4]);
    assert!(layout.iter().all(|a| a.stride == 16));
}

#[test]
fn absent_attributes_are_skipped_not_zeroed() {
    let mut v = bare(v3(1, 2, 3));
    v.weights_0 = Some(Vec4 { x: 5, y: 6, z: 7, w: 8 });
    assert_eq!(v.pack_data(), vec![1, 2, 3, 5, 6, 7, 8]);
    let set = VertexSet { vertices: vec![v] };
    assert_eq!(
        set.attribute_layout(),
        vec![
            AttributeLayout { slot: 0, count: 3, stride: 7, offset: 0 },
            AttributeLayout { slot: 1, count: 4, stride: 7, offset: 3 },
        ]
    );
}

#[test]
fn empty_vertex_set_has_no_layout() {
    let set = VertexSet { vertices: vec![] };
    assert!(set.data_lengths().is_empty());
    assert!(set.attribute_layout().is_empty());
    assert!(set.pack_vertices().is_empty());
}

#[test]
fn vertices_are_assembled_per_position() {
    let set = assemble_vertices(
        Some(vec![v3(1, 1, 1), v3(2, 2, 2)]),
        &vec![v3(0, 0, 1)],
        &vec![Vec2 { x: 3, y: 4 }, Vec2 { x: 5, y: 6 }],
        &vec![],
        &vec![],
        &vec![],
    )
    .unwrap();
    assert_eq!(set.vertices.len(), 2);
    assert_eq!(set.vertices[0].normal, Some(v3(0, 0, 1)));
    assert_eq!(set.vertices[1].normal, None);
    assert_eq!(set.vertices[1].tex_coords_0, Some(Vec2 { x: 5, y: 6 }));
    assert_eq!(set.vertices[1].position, Some(v3(2, 2, 2)));
}

#[test]
fn primitive_without_positions_is_refused() {
    let r = assemble_vertices(None, &vec![v3(0, 0, 1)], &vec![], &vec![], &vec![], &vec![]);
    assert_eq!(r.unwrap_err(), ImportError::MissingPositions);
}
