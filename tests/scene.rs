use sepia::animation::{Channel, Interpolation, TransformationSet};
use sepia::asset::{prepare_scene, Animation, ChannelFault, GltfAsset, Material};
use sepia::animation::UnsupportedAnimationFeature;
use sepia::builder::{build_graph, determine_transform, ImportError, LocalTransform, SourceNode};
use sepia::fixed::ONE;
use sepia::matrix::{Mat4, Quat, Vec3};
use sepia::scene::{LookupError, Mesh, Node, NodeGraph, Primitive, Skin};
use sepia::transform::Transform;

fn v3(x: i64, y: i64, z: i64) -> Vec3 {
    Vec3 { x, y, z }
}

fn translation(x: i64, y: i64, z: i64) -> Mat4 {
    Mat4::translation(v3(x, y, z))
}

fn source(transform: Mat4, children: Vec<usize>) -> Option<SourceNode> {
    Some(SourceNode { transform: LocalTransform::Matrix(transform), mesh: None, skin: None, children })
}

fn mesh(geometry: u32, material: Option<usize>) -> Option<Mesh> {
    Some(Mesh { primitives: vec![Primitive { geometry, num_indices: 3, material_index: material }] })
}

fn plain_node(index: usize, transform: Mat4) -> Node {
    Node { transform, animation_transform: Transform::default(), mesh: None, skin: None, index }
}

fn two_node_asset() -> GltfAsset {
    let table = vec![
        source(Mat4::identity(), vec![1]),
        source(translation(0, ONE, 0), vec![]),
    ];
    let scene = prepare_scene(table, &vec![0]).unwrap();
    let channel = Channel::new(
        0,
        vec![0, 1000],
        TransformationSet::Translations(vec![v3(0, 0, 0), v3(10 * ONE, 0, 0)]),
        Interpolation::Linear,
    )
    .unwrap();
    GltfAsset {
        texture_ids: vec![],
        materials: vec![Material { base_color_texture: Some(0) }],
        scenes: vec![scene],
        animations: vec![Animation { channels: vec![channel] }],
    }
}

#[test]
fn animated_root_moves_static_child() {
    let mut asset = two_node_asset();
    let faults = asset.animate(500);
    assert!(faults.is_empty());
    let worlds = asset.scenes[0].node_graphs[0].world_transforms();
    assert_eq!(worlds[1], translation(5 * ONE, ONE, 0));
    assert_eq!(worlds[0], translation(5 * ONE, 0, 0));
}

#[test]
fn untargeted_node_keeps_static_world() {
    let mut asset = two_node_asset();
    asset.animate(250);
    let g = &asset.scenes[0].node_graphs[0];
    assert_eq!(g.node(1).animation_transform, Transform::default());
    let worlds = g.world_transforms();
    assert_eq!(worlds[1], worlds[0].mul(&translation(0, ONE, 0)));
}

#[test]
fn without_animation_world_is_static_chain() {
    let table = vec![
        source(translation(ONE, 0, 0), vec![1]),
        source(Mat4::scaling(v3(2 * ONE, 2 * ONE, 2 * ONE)), vec![2]),
        source(translation(0, 0, ONE), vec![]),
    ];
    let scene = prepare_scene(table, &vec![0]).unwrap();
    let worlds = scene.node_graphs[0].world_transforms();
    let expected = translation(ONE, 0, 0)
        .mul(&Mat4::scaling(v3(2 * ONE, 2 * ONE, 2 * ONE)))
        .mul(&translation(0, 0, ONE));
    assert_eq!(worlds[2], expected);
    assert_eq!(worlds[2].m[3], ONE);
    assert_eq!(worlds[2].m[11], 2 * ONE);
}

#[test]
fn unsupported_channels_are_reported_and_skipped() {
    let mut asset = two_node_asset();
    let morph = Channel::new(
        1,
        vec![0, 1000],
        TransformationSet::MorphTargetWeights(vec![0, ONE]),
        Interpolation::Linear,
    )
    .unwrap();
    let step = Channel::new(
        1,
        vec![0, 1000],
        TransformationSet::Translations(vec![v3(0, 0, 0), v3(ONE, 0, 0)]),
        Interpolation::Step,
    )
    .unwrap();
    asset.animations.push(Animation { channels: vec![morph, step] });
    let faults = asset.animate(500);
    assert_eq!(
        faults,
        vec![
            ChannelFault {
                animation: 1,
                channel: 0,
                feature: UnsupportedAnimationFeature::MorphTargetWeights
            },
            ChannelFault {
                animation: 1,
                channel: 1,
                feature: UnsupportedAnimationFeature::NonLinearInterpolation
            },
        ]
    );
    let g = &asset.scenes[0].node_graphs[0];
    assert_eq!(g.node(1).animation_transform, Transform::default());
    assert_eq!(g.node(0).animation_transform.translation, Some(v3(5 * ONE, 0, 0)));
}

#[test]
fn later_channels_override_earlier_ones() {
    let mut asset = two_node_asset();
    let other = Channel::new(
        0,
        vec![0, 1000],
        TransformationSet::Translations(vec![v3(0, 0, 0), v3(0, 4 * ONE, 0)]),
        Interpolation::Linear,
    )
    .unwrap();
    let scale = Channel::new(
        0,
        vec![0, 1000],
        TransformationSet::Scales(vec![v3(ONE, ONE, ONE), v3(3 * ONE, ONE, ONE)]),
        Interpolation::Linear,
    )
    .unwrap();
    asset.animations.push(Animation { channels: vec![other, scale] });
    asset.animate(500);
    let t = asset.scenes[0].node_graphs[0].node(0).animation_transform;
    assert_eq!(t.translation, Some(v3(0, 2 * ONE, 0)));
    assert_eq!(t.scale, Some(v3(2 * ONE, ONE, ONE)));
    assert_eq!(t.rotation, None);
}

#[test]
fn graph_is_built_in_pre_order() {
    let mut table = vec![
        source(Mat4::identity(), vec![2, 1]),
        source(Mat4::identity(), vec![]),
        source(Mat4::identity(), vec![3]),
        source(Mat4::identity(), vec![]),
    ];
    let g = build_graph(&mut table, 0).unwrap();
    let order: Vec<usize> = (0..g.len()).map(|i| g.node(i).index).collect();
    assert_eq!(order, vec![0, 2, 3, 1]);
    let parents: Vec<usize> = (0..g.len()).map(|i| g.parent(i)).collect();
    assert_eq!(parents, vec![0, 0, 1, 0]);
    assert_eq!(g.children(0), vec![1, 3]);
    assert!(table.iter().all(|e| e.is_none()));
}

#[test]
fn unreached_nodes_stay_in_the_table() {
    let mut table = vec![
        source(Mat4::identity(), vec![]),
        source(Mat4::identity(), vec![]),
    ];
    let g = build_graph(&mut table, 1).unwrap();
    assert_eq!(g.len(), 1);
    assert_eq!(g.node(0).index, 1);
    assert!(table[0].is_some());
    assert!(table[1].is_none());
}

#[test]
fn cycles_are_malformed() {
    let mut table = vec![
        source(Mat4::identity(), vec![1]),
        source(Mat4::identity(), vec![0]),
    ];
    assert_eq!(build_graph(&mut table, 0).unwrap_err(), ImportError::Malformed);
}

#[test]
fn shared_children_are_malformed() {
    let mut table = vec![
        source(Mat4::identity(), vec![1, 2]),
        source(Mat4::identity(), vec![2]),
        source(Mat4::identity(), vec![]),
    ];
    assert_eq!(build_graph(&mut table, 0).unwrap_err(), ImportError::Malformed);
}

#[test]
fn missing_children_are_malformed() {
    let mut table = vec![source(Mat4::identity(), vec![5])];
    assert_eq!(build_graph(&mut table, 0).unwrap_err(), ImportError::Malformed);
    let mut empty: Vec<Option<SourceNode>> = vec![];
    assert_eq!(build_graph(&mut empty, 0).unwrap_err(), ImportError::Malformed);
}

#[test]
fn skin_with_wrong_matrix_count_is_malformed() {
    let mut table = vec![Some(SourceNode {
        transform: LocalTransform::Matrix(Mat4::identity()),
        mesh: None,
        skin: Some(Skin { inverse_bind_matrices: Some(vec![]), joint_indices: vec![0] }),
        children: vec![],
    })];
    assert_eq!(build_graph(&mut table, 0).unwrap_err(), ImportError::Malformed);
}

#[test]
fn decomposed_transform_is_translation_rotation_scale() {
    let t = LocalTransform::Decomposed {
        translation: v3(ONE, 2 * ONE, 3 * ONE),
        rotation: Quat { x: 0, y: 0, z: 0, w: ONE },
        scale: v3(2 * ONE, 2 * ONE, 2 * ONE),
    };
    let m = determine_transform(&t).unwrap();
    assert_eq!(m, translation(ONE, 2 * ONE, 3 * ONE).mul(&Mat4::scaling(v3(2 * ONE, 2 * ONE, 2 * ONE))));
    let bad = LocalTransform::Decomposed {
        translation: v3(0, 0, 0),
        rotation: Quat { x: 0, y: 0, z: 0, w: 2 * ONE },
        scale: v3(ONE, ONE, ONE),
    };
    assert_eq!(determine_transform(&bad).unwrap_err(), ImportError::Malformed);
}

#[test]
fn scene_with_several_roots_has_one_graph_each() {
    let table = vec![
        source(Mat4::identity(), vec![]),
        source(Mat4::identity(), vec![]),
    ];
    let scene = prepare_scene(table, &vec![1, 0]).unwrap();
    assert_eq!(scene.node_graphs.len(), 2);
    assert_eq!(scene.node_graphs[0].node(0).index, 1);
    assert_eq!(scene.node_graphs[1].node(0).index, 0);
    let table = vec![source(Mat4::identity(), vec![])];
    assert_eq!(prepare_scene(table, &vec![0, 0]).unwrap_err(), ImportError::Malformed);
}

#[test]
fn draw_list_follows_pre_order() {
    let mut g = NodeGraph::new();
    let mut root = plain_node(0, translation(ONE, 0, 0));
    root.mesh = Some(Mesh {
        primitives: vec![
            Primitive { geometry: 10, num_indices: 6, material_index: Some(0) },
            Primitive { geometry: 11, num_indices: 9, material_index: None },
        ],
    });
    let r = g.add_node(root, 0);
    let mut a = plain_node(1, translation(0, ONE, 0));
    a.mesh = mesh(12, Some(1));
    let ia = g.add_node(a, r);
    g.add_node(plain_node(2, Mat4::identity()), ia);
    let mut b = plain_node(3, Mat4::identity());
    b.mesh = mesh(13, None);
    g.add_node(b, r);
    let draws = g.draw_list().unwrap();
    let geometry: Vec<u32> = draws.iter().map(|d| d.primitive.geometry).collect();
    assert_eq!(geometry, vec![10, 11, 12, 13]);
    assert_eq!(draws[2].world, translation(ONE, ONE, 0));
    assert_eq!(draws[3].world, translation(ONE, 0, 0));
    assert_eq!(draws[1].primitive.num_indices, 9);
    assert_eq!(draws[2].primitive.material_index, Some(1));
    assert!(draws.iter().all(|d| d.joint_matrices.is_none()));
}

#[test]
fn joint_matrices_one_per_joint() {
    let mut g = NodeGraph::new();
    let mut root = plain_node(5, Mat4::identity());
    root.mesh = mesh(1, None);
    root.skin = Some(Skin { inverse_bind_matrices: None, joint_indices: vec![6, 7] });
    let r = g.add_node(root, 0);
    let j1 = g.add_node(plain_node(6, translation(ONE, 0, 0)), r);
    g.add_node(plain_node(7, translation(0, ONE, 0)), j1);
    let draws = g.draw_list().unwrap();
    let joints = draws[0].joint_matrices.as_ref().unwrap();
    assert_eq!(joints.len(), 2);
    assert_eq!(joints[0], translation(ONE, 0, 0));
    assert_eq!(joints[1], translation(ONE, ONE, 0));
}

#[test]
fn joint_matrices_apply_inverse_bind_matrices() {
    let mut g = NodeGraph::new();
    let mut root = plain_node(0, Mat4::identity());
    root.mesh = mesh(1, None);
    root.skin = Some(Skin {
        inverse_bind_matrices: Some(vec![translation(-ONE, 0, 0)]),
        joint_indices: vec![1],
    });
    let r = g.add_node(root, 0);
    g.add_node(plain_node(1, translation(ONE, 0, 0)), r);
    let draws = g.draw_list().unwrap();
    assert_eq!(draws[0].joint_matrices.as_ref().unwrap()[0], Mat4::identity());
}

#[test]
fn missing_joint_is_a_lookup_error() {
    let mut g = NodeGraph::new();
    let mut root = plain_node(0, Mat4::identity());
    root.mesh = mesh(1, None);
    root.skin = Some(Skin { inverse_bind_matrices: None, joint_indices: vec![0, 9] });
    g.add_node(root, 0);
    assert_eq!(g.draw_list().unwrap_err(), LookupError::Node(9));
    assert_eq!(g.find(0), Some(0));
    assert_eq!(g.find(9), None);
}

#[test]
fn materials_are_looked_up_by_index() {
    let asset = two_node_asset();
    assert_eq!(asset.lookup_material(0), Ok(Material { base_color_texture: Some(0) }));
    assert_eq!(asset.lookup_material(1), Err(LookupError::Material(1)));
}

#[test]
fn joint_matrices_are_relative_to_the_skinned_node() {
    let mut g = NodeGraph::new();
    let mut root = plain_node(0, translation(ONE, 0, 0));
    root.mesh = mesh(1, None);
    root.skin = Some(Skin { inverse_bind_matrices: None, joint_indices: vec![1] });
    let r = g.add_node(root, 0);
    g.add_node(plain_node(1, translation(0, ONE, 0)), r);
    let draws = g.draw_list().unwrap();
    assert_eq!(draws[0].world, translation(ONE, 0, 0));
    assert_eq!(draws[0].joint_matrices.as_ref().unwrap()[0], translation(0, ONE, 0));
}

#[test]
fn subtrees_are_contiguous_in_pre_order() {
    let mut table = vec![
        source(Mat4::identity(), vec![1, 2]),
        source(Mat4::identity(), vec![3, 4]),
        source(Mat4::identity(), vec![5]),
        source(Mat4::identity(), vec![]),
        source(Mat4::identity(), vec![]),
        source(Mat4::identity(), vec![]),
    ];
    let g = build_graph(&mut table, 0).unwrap();
    let order: Vec<usize> = (0..g.len()).map(|i| g.node(i).index).collect();
    assert_eq!(order, vec![0, 1, 3, 4, 2, 5]);
    let parents: Vec<usize> = (0..g.len()).map(|i| g.parent(i)).collect();
    assert_eq!(parents, vec![0, 0, 1, 1, 0, 4]);
}

#[test]
fn trees_of_one_scene_may_not_share_nodes() {
    let table = vec![
        source(Mat4::identity(), vec![2]),
        source(Mat4::identity(), vec![2]),
        source(Mat4::identity(), vec![]),
    ];
    assert_eq!(prepare_scene(table, &vec![0, 1]).unwrap_err(), ImportError::Malformed);
}
