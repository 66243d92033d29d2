use inox2d::nodes::node::InoxNodeUuid;
use inox2d::nodes::node_data::{BlendMode, Mask, MaskMode};
use inox2d::render::ctx::{
    composite_children, part_render_ctx, render_ctx_new, render_ctx_update, DrawableKindInfo, PartRenderCtx,
};
use inox2d::render::zsort::zsort_descending;
use inox2d::render::blending::{blend_state_for_blend_mode, BlendFactor, BlendOperation};
use inox2d::render::deform_stack::{combine_actions, CombineAction, Deform, DeformSource, DeformStack, ParamUuid};
use inox2d::render::draw_list::{DrawCommand, DrawList, DrawScene, DrawableNode, InoxRenderer};
use inox2d::render::nesting::{nearest_composite, nest_drawables};
use inox2d::render::split_ranges;
use std::collections::{HashMap, HashSet};
use inox2d::render::vertex_buffers::VertexBuffers;

#[test]
fn split_ranges_in_order_and_swapped() {
    let mut a = [0, 1, 2, 3, 4, 5, 6, 7];
    let (x, y) = split_ranges(&mut a, 1..3, 5..8).unwrap();
    assert_eq!(x, &[1, 2]);
    assert_eq!(y, &[5, 6, 7]);
    x[0] = 10;
    y[2] = 70;
    assert_eq!(a, [0, 10, 2, 3, 4, 5, 6, 70]);
    let (x, y) = split_ranges(&mut a, 4..6, 0..2).unwrap();
    assert_eq!(x, &[4, 5]);
    assert_eq!(y, &[0, 10]);
}

#[test]
fn split_ranges_refuses_overlap() {
    let mut a = [0u8; 6];
    assert!(split_ranges(&mut a, 0..3, 2..5).is_none());
    assert!(split_ranges(&mut a, 2..5, 0..3).is_none());
    assert!(split_ranges(&mut a, 0..3, 3..6).is_some());
}

#[test]
fn deform_stack_push_and_reset() {
    let mut stack: DeformStack<(i32, i32)> = DeformStack::new(2);
    assert_eq!(stack.deform_len(), 2);
    let param = DeformSource::Param(ParamUuid(1));
    let group = DeformSource::MeshGroup(InoxNodeUuid(9));
    stack.push(param, Deform::Direct(vec![(1, 1), (2, 2)]));
    stack.push(group, Deform::Source);
    let enabled = stack.enabled_deforms();
    assert_eq!(enabled.len(), 2);
    assert!(enabled.iter().any(|(s, d)| *s == param && matches!(d, Deform::Direct(v) if v == &vec![(1, 1), (2, 2)])));
    assert!(enabled.iter().any(|(s, d)| *s == group && matches!(d, Deform::Source)));
    stack.reset();
    assert!(stack.enabled_deforms().is_empty());
    stack.push(param, Deform::Direct(vec![(3, 3), (4, 4)]));
    let enabled = stack.enabled_deforms();
    assert_eq!(enabled.len(), 1);
    assert!(matches!(enabled[0].1, Deform::Direct(v) if v == &vec![(3, 3), (4, 4)]));
}

#[test]
fn vertex_buffers_shift_indices() {
    let mut vb: VertexBuffers<(i32, i32)> = VertexBuffers {
        verts: vec![(0, 0); 4],
        uvs: vec![(0, 0); 4],
        indices: vec![0, 1, 2, 2, 1, 3],
        deforms: vec![(0, 0); 4],
    };
    let (index_offset, vert_offset) = vb.push(&[(5, 5), (6, 6), (7, 7)], &[(1, 1), (2, 2), (3, 3)], &[0, 1, 2], (0, 0));
    assert_eq!((index_offset, vert_offset), (6, 4));
    assert_eq!(vb.verts.len(), 7);
    assert_eq!(vb.verts[4], (5, 5));
    assert_eq!(vb.uvs[6], (3, 3));
    assert_eq!(vb.indices, vec![0, 1, 2, 2, 1, 3, 4, 5, 6]);
    assert_eq!(vb.deforms.len(), 7);
}

#[test]
fn blend_states() {
    let normal = blend_state_for_blend_mode(BlendMode::Normal);
    assert_eq!(normal.color, normal.alpha);
    assert_eq!(normal.color.src_factor, BlendFactor::One);
    assert_eq!(normal.color.dst_factor, BlendFactor::OneMinusSrcAlpha);
    let slice = blend_state_for_blend_mode(BlendMode::SliceFromLower);
    assert_eq!(slice.alpha.operation, BlendOperation::Subtract);
    assert_eq!(slice.alpha.src_factor, BlendFactor::DstAlpha);
    let screen = blend_state_for_blend_mode(BlendMode::Screen);
    assert_eq!(screen.color.dst_factor, BlendFactor::OneMinusSrc);
}

fn uuid(n: u32) -> InoxNodeUuid {
    InoxNodeUuid(n)
}

#[test]
fn draw_order_with_masks_and_composites() {
    let mut scene = DrawScene::new();
    scene.insert(uuid(1), DrawableNode { composite: false, masks: None, children: vec![] });
    scene.insert(uuid(3), DrawableNode { composite: false, masks: None, children: vec![] });
    let mask = Mask { source: uuid(3), mode: MaskMode::Mask };
    scene.insert(uuid(2), DrawableNode { composite: true, masks: Some(vec![mask]), children: vec![uuid(1)] });
    scene.insert(uuid(4), DrawableNode { composite: true, masks: None, children: vec![] });
    scene.push_root(uuid(2));
    scene.push_root(uuid(4));
    let list = scene.draw();
    assert_eq!(
        list.commands,
        vec![
            DrawCommand::BeginMasks(uuid(2)),
            DrawCommand::BeginMask(mask),
            DrawCommand::DrawTexturedMesh { as_mask: true, id: uuid(3) },
            DrawCommand::BeginMaskedContent,
            DrawCommand::BeginComposite { as_mask: false, id: uuid(2) },
            DrawCommand::DrawTexturedMesh { as_mask: false, id: uuid(1) },
            DrawCommand::FinishComposite { as_mask: false, id: uuid(2) },
            DrawCommand::EndMask,
        ]
    );
}

#[test]
fn draw_list_records_calls() {
    let mut list = DrawList::new();
    list.on_begin_masks(uuid(1));
    list.on_begin_masked_content();
    list.on_end_mask();
    assert_eq!(list.commands.len(), 3);
    list.clear();
    assert!(list.commands.is_empty());
}

#[test]
fn empty_masks_still_bracket() {
    let mut scene = DrawScene::new();
    scene.insert(uuid(5), DrawableNode { composite: false, masks: Some(vec![]), children: vec![] });
    let mut list = DrawList::new();
    scene.draw_drawable(&mut list, false, uuid(5));
    assert_eq!(
        list.commands,
        vec![
            DrawCommand::BeginMasks(uuid(5)),
            DrawCommand::BeginMaskedContent,
            DrawCommand::DrawTexturedMesh { as_mask: false, id: uuid(5) },
            DrawCommand::EndMask,
        ]
    );
}

#[test]
fn scene_ordering_checks() {
    let mut scene = DrawScene::new();
    let mask_by = |n: u32| Some(vec![Mask { source: uuid(n), mode: MaskMode::Mask }]);
    scene.insert(uuid(1), DrawableNode { composite: false, masks: mask_by(2), children: vec![] });
    scene.insert(uuid(2), DrawableNode { composite: false, masks: None, children: vec![] });
    scene.insert(uuid(3), DrawableNode { composite: true, masks: None, children: vec![uuid(1), uuid(2)] });
    scene.push_root(uuid(3));
    assert!(scene.roots_present());
    assert!(scene.is_well_ordered());

    scene.insert(uuid(2), DrawableNode { composite: false, masks: mask_by(1), children: vec![] });
    assert!(!scene.is_well_ordered());

    let mut dangling = DrawScene::new();
    dangling.insert(uuid(1), DrawableNode { composite: true, masks: None, children: vec![uuid(9)] });
    assert!(!dangling.is_well_ordered());
    dangling.push_root(uuid(8));
    assert!(!dangling.roots_present());
}

#[test]
fn part_contexts() {
    let mut vb: VertexBuffers<u8> = VertexBuffers { verts: vec![0; 4], uvs: vec![0; 4], indices: vec![0; 6], deforms: vec![0; 4] };
    let ctx = part_render_ctx(&mut vb, &[1, 2], &[3, 4], &[1, 0, 1], 0);
    assert_eq!(ctx, PartRenderCtx { index_offset: 6, vert_offset: 4, index_len: 3, vert_len: 2 });
    assert_eq!(&vb.indices[6..], &[5, 4, 5]);
    assert_eq!(composite_children(&[uuid(1), uuid(7), uuid(2), uuid(7)], uuid(7)), vec![uuid(1), uuid(2)]);
}

#[test]
fn try_draw_refuses_cycles_and_missing_roots() {
    let mut scene = DrawScene::new();
    scene.insert(uuid(1), DrawableNode { composite: false, masks: None, children: vec![] });
    scene.push_root(uuid(1));
    let list = scene.try_draw().unwrap();
    assert_eq!(list.commands, vec![DrawCommand::DrawTexturedMesh { as_mask: false, id: uuid(1) }]);
    scene.push_root(uuid(2));
    assert!(scene.try_draw().is_none());
    let mut cyclic = DrawScene::new();
    cyclic.insert(uuid(1), DrawableNode { composite: true, masks: None, children: vec![uuid(1)] });
    cyclic.push_root(uuid(1));
    assert!(cyclic.try_draw().is_none());
}

#[test]
fn drawables_nest_under_nearest_composite() {
    let parents: HashMap<u32, u32> = [(2, 1), (3, 2), (4, 1), (5, 3)].into_iter().collect();
    let composites: HashSet<u32> = [2].into_iter().collect();
    assert_eq!(nearest_composite(&parents, &composites, 1, 3), Some(2));
    assert_eq!(nearest_composite(&parents, &composites, 1, 5), Some(2));
    assert_eq!(nearest_composite(&parents, &composites, 1, 4), None);
    assert_eq!(nearest_composite(&parents, &composites, 1, 1), None);
    assert_eq!(nest_drawables(&parents, &composites, 1, &[2, 3, 5, 4]), vec![None, Some(2), Some(2), None]);
    let root_composite: HashSet<u32> = [1].into_iter().collect();
    assert_eq!(nearest_composite(&parents, &root_composite, 1, 5), Some(1));
}

fn empty_buffers() -> VertexBuffers<(i32, i32)> {
    VertexBuffers { verts: Vec::new(), uvs: Vec::new(), indices: Vec::new(), deforms: Vec::new() }
}

fn textured(n: i32, indices: Vec<u16>) -> DrawableKindInfo<(i32, i32)> {
    DrawableKindInfo::TexturedMesh {
        vertices: (0..n).map(|k| (k, n)).collect(),
        uvs: (0..n).map(|k| (n, k)).collect(),
        indices,
    }
}

#[test]
fn render_ctx_is_planned_for_a_puppet() {
    // 0 is the root; 1 a composite under it; 2 a part under 1; 5 a plain node under 1
    // with part 6 under it; 3 a part under the root; 4 a mesh group under the root.
    let order = [0u32, 1, 2, 5, 6, 3, 4];
    let parents: HashMap<u32, u32> = [(1, 0), (2, 1), (5, 1), (6, 5), (3, 0), (4, 0)].into_iter().collect();
    let mut kinds = HashMap::new();
    kinds.insert(1, DrawableKindInfo::Composite);
    kinds.insert(2, textured(3, vec![0, 1, 2]));
    kinds.insert(6, textured(2, vec![0, 1, 1]));
    kinds.insert(3, textured(1, vec![0]));
    let deformed: HashSet<u32> = [3].into_iter().collect();
    let mesh_groups: HashMap<u32, usize> = [(4, 7), (2, 9)].into_iter().collect();
    let mut buffers = empty_buffers();

    let plan = render_ctx_new(&order, &kinds, &parents, 0, &deformed, &mesh_groups, &mut buffers, (0, 0));

    assert_eq!(
        plan.parts,
        vec![
            (2, PartRenderCtx { index_offset: 0, vert_offset: 0, index_len: 3, vert_len: 3 }),
            (6, PartRenderCtx { index_offset: 3, vert_offset: 3, index_len: 3, vert_len: 2 }),
            (3, PartRenderCtx { index_offset: 6, vert_offset: 5, index_len: 1, vert_len: 1 }),
        ]
    );
    assert_eq!(buffers.indices, vec![0, 1, 2, 3, 4, 4, 5]);
    assert_eq!(buffers.verts, vec![(0, 3), (1, 3), (2, 3), (0, 2), (1, 2), (0, 1)]);
    assert_eq!(buffers.uvs, vec![(3, 0), (3, 1), (3, 2), (2, 0), (2, 1), (1, 0)]);
    assert_eq!(buffers.deforms, vec![(0, 0); 6]);
    assert_eq!(plan.composites, vec![(1, vec![2, 6])]);
    assert_eq!(plan.root_drawables, vec![1, 3]);
    assert_eq!(plan.deform_stacks, vec![(3, 1), (4, 7)]);
}

#[test]
fn nested_composites_draw_their_nearest_descendants() {
    // Composite 2 sits under composite 1; part 3 under 2, part 4 under 1.
    let order = [0u32, 1, 2, 3, 4];
    let parents: HashMap<u32, u32> = [(1, 0), (2, 1), (3, 2), (4, 1)].into_iter().collect();
    let mut kinds = HashMap::new();
    kinds.insert(1, DrawableKindInfo::Composite);
    kinds.insert(2, DrawableKindInfo::Composite);
    kinds.insert(3, textured(1, vec![0]));
    kinds.insert(4, textured(1, vec![0]));
    let mut buffers = empty_buffers();
    buffers.verts.push((9, 9));
    buffers.uvs.push((9, 9));
    buffers.indices.push(0);
    buffers.deforms.push((1, 1));

    let plan = render_ctx_new(&order, &kinds, &parents, 0, &HashSet::new(), &HashMap::new(), &mut buffers, (0, 0));

    assert_eq!(plan.composites, vec![(1, vec![2, 4]), (2, vec![3])]);
    assert_eq!(plan.root_drawables, vec![1]);
    assert!(plan.deform_stacks.is_empty());
    assert_eq!(plan.parts[0], (3, PartRenderCtx { index_offset: 1, vert_offset: 1, index_len: 1, vert_len: 1 }));
    assert_eq!(buffers.indices, vec![0, 1, 2]);
    assert_eq!(buffers.deforms, vec![(1, 1), (0, 0), (0, 0)]);
}

#[test]
fn combining_dispatches_each_submitted_deformation() {
    let direct: Deform<(i32, i32)> = Deform::Direct(vec![(1, 1); 4]);
    let source: Deform<(i32, i32)> = Deform::Source;
    let group = |n: u32| DeformSource::MeshGroup(InoxNodeUuid(n));
    let enabled = vec![
        (DeformSource::Param(ParamUuid(0)), &direct),
        (group(5), &source),
        (group(6), &source),
        (group(10), &source),
        (group(7), &source),
        (group(8), &source),
        (group(1), &source),
        (group(4), &source),
    ];
    let meshes: HashSet<u32> = [1, 5, 6, 7, 8, 10].into_iter().collect();
    let parts: HashMap<u32, (u16, usize)> = [(5, (20, 3)), (6, (12, 2)), (10, (14, 2))].into_iter().collect();
    let groups: HashMap<u32, usize> = [(7, 4), (8, 0)].into_iter().collect();

    let actions = combine_actions(&enabled, InoxNodeUuid(1), 10, 4, &meshes, &parts, &groups);

    assert_eq!(
        actions,
        vec![
            Some(CombineAction::Direct),
            Some(CombineAction::FromPart { source: 5, offset: 20, len: 3 }),
            // Part 6 lies inside the node's own vertices.
            None,
            // Part 10 starts right where the node's vertices end.
            Some(CombineAction::FromPart { source: 10, offset: 14, len: 2 }),
            Some(CombineAction::FromGroup { source: 7 }),
            // An empty group buffer, the node itself, and a source without a mesh are skipped.
            None,
            None,
            None,
        ]
    );
}

#[test]
fn zsort_puts_the_front_first_and_keeps_ties() {
    let ids = [InoxNodeUuid(1), InoxNodeUuid(2), InoxNodeUuid(3), InoxNodeUuid(4), InoxNodeUuid(5)];
    let keys = [-3i64, 7, 0, 7, -3];
    assert_eq!(
        zsort_descending(&ids, &keys),
        vec![InoxNodeUuid(2), InoxNodeUuid(4), InoxNodeUuid(3), InoxNodeUuid(1), InoxNodeUuid(5)]
    );
    assert!(zsort_descending::<u32>(&[], &[]).is_empty());
}

#[test]
fn render_ctx_update_orders_roots_and_children_by_z() {
    let order = [0u32, 1, 2, 5, 6, 3, 4];
    let parents: HashMap<u32, u32> = [(1, 0), (2, 1), (5, 1), (6, 5), (3, 0), (4, 0)].into_iter().collect();
    let mut kinds = HashMap::new();
    kinds.insert(1, DrawableKindInfo::Composite);
    kinds.insert(2, textured(3, vec![0, 1, 2]));
    kinds.insert(6, textured(2, vec![0, 1, 1]));
    kinds.insert(3, textured(1, vec![0]));
    let mut buffers = empty_buffers();
    let mut plan = render_ctx_new(&order, &kinds, &parents, 0, &HashSet::new(), &HashMap::new(), &mut buffers, (0, 0));
    assert_eq!(plan.root_drawables_zsorted, vec![1, 3]);

    let keys: HashMap<u32, i64> = [(1, 5), (3, 9), (2, -1), (6, 4)].into_iter().collect();
    render_ctx_update(&mut plan, &keys);
    assert_eq!(plan.root_drawables_zsorted, vec![3, 1]);
    assert_eq!(plan.root_drawables, vec![1, 3]);
    assert_eq!(plan.composites, vec![(1, vec![6, 2])]);

    // Equal z values: roots come back in tree order.
    let keys: HashMap<u32, i64> = [(1, 0), (3, 0), (2, 4), (6, 4)].into_iter().collect();
    render_ctx_update(&mut plan, &keys);
    assert_eq!(plan.root_drawables_zsorted, vec![1, 3]);
    assert_eq!(plan.composites, vec![(1, vec![6, 2])]);
}
