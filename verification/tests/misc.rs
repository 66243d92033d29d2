use inox2d::mesh::{pairs_to_flat, vec2s_to_pairs, Mesh, QuadBuilder, Vec2sToVecVec2Error};
use inox2d::nodes::node::{InoxData, NodeId};
use inox2d::misc::c_strlen;
use inox2d::puppet::stages::{FrameStep, PuppetStages};
use inox2d::runtime::{in_get_viewport, in_set_update_bounds, Inox2DRuntime};

#[test]
fn c_string_lengths() {
    assert_eq!(c_strlen(b"albedo\0"), 6);
    assert_eq!(c_strlen(b"\0"), 0);
    assert_eq!(c_strlen(b"ab\0cd\0"), 2);
    assert_eq!(c_strlen(b"abc"), 4);
    assert_eq!(c_strlen(b""), 1);
}

#[test]
fn flat_coordinates_pair_up() {
    assert_eq!(vec2s_to_pairs(&[1.0f32, 2.0, 3.0, 4.0]).unwrap(), vec![(1.0, 2.0), (3.0, 4.0)]);
    assert!(vec2s_to_pairs::<f32>(&[]).unwrap().is_empty());
    assert_eq!(vec2s_to_pairs(&[1.0f32, 2.0, 3.0]).unwrap_err(), Vec2sToVecVec2Error);
}

#[test]
fn mesh_connections() {
    let mut mesh: Mesh<(f32, f32)> = Mesh { vertices: vec![], uvs: vec![], indices: vec![], origin: (0.0, 0.0) };
    assert!(!mesh.is_ready());
    mesh.add((0.0, 0.0), (0.0, 0.0));
    mesh.add((1.0, 0.0), (1.0, 0.0));
    mesh.add((0.0, 1.0), (0.0, 1.0));
    mesh.connect(0, 1);
    assert!(!mesh.can_triangulate());
    mesh.connect(2, 0);
    mesh.connect(1, 2);
    assert_eq!(mesh.indices, vec![0, 1, 2, 0, 1, 2]);
    assert!(mesh.is_ready());
    assert_eq!(mesh.connections_at_index(0), 2);
    assert_eq!(mesh.connections_at_index(7), 0);
    mesh.clear_connections();
    assert!(mesh.indices.is_empty());
    assert_eq!(mesh.vertices.len(), 3);
}

#[test]
fn runtime_viewport_and_bounds() {
    let mut rt = Inox2DRuntime::default();
    rt.set_viewport(640, 480);
    assert_eq!(in_get_viewport(&rt), (640, 480));
    assert_eq!(rt.get_viewport(), (640, 480));
    in_set_update_bounds(&mut rt, true);
    assert!(rt.do_generate_bounds);
    assert_eq!(rt.in_viewport_width, 640);
}

#[test]
fn puppet_initialization_order_and_frames() {
    let mut stages = PuppetStages::new();
    assert!(stages.begin_frame().is_empty());
    assert!(stages.end_frame().is_empty());
    stages.init_transforms();
    stages.init_rendering();
    assert_eq!(stages.begin_frame(), vec![FrameStep::RenderReset, FrameStep::TransformReset]);
    assert_eq!(stages.end_frame(), vec![FrameStep::TransformUpdate, FrameStep::RenderUpdate]);
    stages.init_params();
    stages.init_physics();
    stages.init_animations();
    assert_eq!(
        stages.begin_frame(),
        vec![FrameStep::RenderReset, FrameStep::TransformReset, FrameStep::ParamReset]
    );
    assert_eq!(
        stages.end_frame(),
        vec![
            FrameStep::AnimationUpdate,
            FrameStep::AnimationApply,
            FrameStep::ParamApply,
            FrameStep::TransformUpdate,
            FrameStep::PhysicsStep,
            FrameStep::RenderReset,
            FrameStep::TransformReset,
            FrameStep::ParamSetFromPhysics,
            FrameStep::ParamApply,
            FrameStep::TransformUpdate,
            FrameStep::RenderUpdate,
        ]
    );
}

#[test]
fn animations_without_params_only_advance() {
    let mut stages = PuppetStages::new();
    stages.init_animations();
    assert_eq!(stages.end_frame(), vec![FrameStep::AnimationUpdate]);
}

#[test]
fn quad_grid() {
    let grid = QuadBuilder::new(()).size(4, 4).cuts(1, 2).build_grid();
    assert_eq!(
        grid.positions,
        vec![(0, 0), (2, 0), (4, 0), (0, 2), (2, 2), (4, 2), (0, 4), (2, 4), (4, 4)]
    );
    // Two triangles for each of the 2 x 2 cells, split towards the centre.
    assert_eq!(
        grid.indices,
        vec![0, 1, 4, 0, 4, 3, 1, 4, 2, 4, 2, 5, 3, 6, 4, 6, 4, 7, 4, 5, 8, 4, 8, 7]
    );
    assert!(grid.indices.iter().all(|&i| (i as usize) < grid.positions.len()));
}

#[test]
fn quad_grid_with_origin_and_rounding() {
    let builder = QuadBuilder::new(7u8).size(-5, 9).cuts(2, 4).origin(1, -1);
    assert_eq!(builder.grid_cuts(), (2, 4));
    assert_eq!(*builder.get_uv_bounds(), 7);
    let grid = builder.build_grid();
    assert_eq!(grid.positions.len(), 15);
    // -5 / 2 rounds toward zero to -2; 9 / 4 is 2.
    assert_eq!(grid.positions[0], (-1, 1));
    assert_eq!(grid.positions[2], (-5, 1));
    assert_eq!(grid.positions[14], (-5, 9));
    // Two cells across, four down, each split along the diagonal towards the centre.
    assert_eq!(
        grid.indices,
        vec![
            0, 1, 4, 0, 4, 3, 1, 4, 2, 4, 2, 5, //
            3, 4, 7, 3, 7, 6, 4, 7, 5, 7, 5, 8, //
            6, 9, 7, 9, 7, 10, 7, 8, 11, 7, 11, 10, //
            9, 12, 10, 12, 10, 13, 10, 11, 14, 10, 14, 13,
        ]
    );
}

#[test]
fn default_quad_has_six_cuts() {
    let grid = QuadBuilder::new(()).build_grid();
    assert_eq!(grid.positions.len(), 49);
    assert_eq!(grid.indices.len(), 6 * 6 * 6);
    assert!(grid.positions.iter().all(|p| *p == (0, 0)));
}

#[test]
fn node_ids() {
    assert_eq!(NodeId::new(3), NodeId::new(3));
    assert_ne!(NodeId::new(3), NodeId::new(4));
}

#[test]
fn node_data_kinds() {
    use_node_data();
}

fn use_node_data() {
    let part: InoxData<u8, u8, u8, u8> = InoxData::Part(1);
    assert!(part.is_part());
    assert!(!part.is_node());
    assert_eq!(part.data_type_name(), "Part");
    let custom: InoxData<u8, u8, u8, &str> = InoxData::Custom("x");
    assert!(custom.is_custom());
    assert_eq!(custom.data_type_name(), "Custom");
    assert_eq!(InoxData::<u8, u8, u8, u8>::SimplePhysics(2).data_type_name(), "SimplePhysics");
    assert!(InoxData::<u8, u8, u8, u8>::Composite(3).is_composite());
    assert!(InoxData::<u8, u8, u8, u8>::Node.is_node());
}

#[test]
fn flatten_and_pair_round_trip() {
    let v = vec![(1.0f32, 2.0f32), (3.0, 4.0)];
    let flat = pairs_to_flat(&v);
    assert_eq!(flat, vec![1.0, 2.0, 3.0, 4.0]);
    assert_eq!(vec2s_to_pairs(&flat).unwrap(), v);
    assert!(pairs_to_flat::<u8>(&[]).is_empty());
}
