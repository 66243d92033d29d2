use inox2d::nodes::node::InoxNodeUuid;
use inox2d::world::{disjoint_batches, ComponentColumn, Partition};

struct CompA {}
struct CompB {
    i: u32,
}
struct CompC {
    f: f64,
}

const NODE_0: InoxNodeUuid = InoxNodeUuid(2);
const NODE_1: InoxNodeUuid = InoxNodeUuid(3);
const NODE_2: InoxNodeUuid = InoxNodeUuid(5);

/// One column per component type, as a world holds them.
struct Columns {
    a: ComponentColumn<CompA>,
    b: ComponentColumn<CompB>,
    c: ComponentColumn<CompC>,
}

fn filled() -> Columns {
    let mut w = Columns { a: ComponentColumn::new(), b: ComponentColumn::new(), c: ComponentColumn::new() };
    w.a.add(NODE_0, CompA {});
    w.b.add(NODE_0, CompB { i: 114 });
    w.c.add(NODE_0, CompC { f: 5.14 });
    w.a.add(NODE_1, CompA {});
    w.a.add(NODE_2, CompA {});
    w.c.add(NODE_1, CompC { f: 19.19 });
    w.c.add(NODE_2, CompC { f: 8.10 });
    w
}

#[test]
fn safe_ops() {
    let empty: ComponentColumn<CompA> = ComponentColumn::new();
    assert!(empty.get(NODE_0).is_none());

    let mut world = filled();

    assert!(world.a.get(NODE_0).is_some());
    assert!(world.b.get(NODE_1).is_none());

    assert_eq!(world.b.get(NODE_0).unwrap().i, 114);
    assert_eq!(world.c.get(NODE_2).unwrap().f, 8.10);

    world.c.get_mut(NODE_2).unwrap().f = 8.93;

    assert_eq!(world.c.get(NODE_2).unwrap().f, 8.93);
}

#[test]
fn unsafe_ops() {
    let mut world = filled();

    assert_eq!(world.b.get_unchecked(NODE_0).i, 114);
    assert_eq!(world.c.get_unchecked(NODE_2).f, 8.10);

    world.c.get_mut_unchecked(NODE_2).f = 8.93;

    assert_eq!(world.c.get_unchecked(NODE_2).f, 8.93);
}

#[test]
fn second_component_is_discarded() {
    let mut column: ComponentColumn<CompB> = ComponentColumn::new();
    column.add(NODE_1, CompB { i: 1 });
    column.add(NODE_1, CompB { i: 2 });
    assert_eq!(column.get(NODE_1).unwrap().i, 1);
    assert!(column.get_mut(NODE_0).is_none());
}

const COMPONENT_A: u64 = 10;
const COMPONENT_B: u64 = 11;
const COMPONENT_C: u64 = 12;

fn unlimited() -> Partition {
    Partition::new_unchecked(None, None)
}

#[test]
fn disjoint_component_partitions() {
    let partition = unlimited();

    assert_eq!(partition.nodes, None);
    assert_eq!(partition.components, None);

    let (partition_a, partition_b) = unlimited().split_by_component(COMPONENT_A, &[]);

    assert_eq!(partition_a.nodes, None);
    assert_eq!(partition_b.nodes, None);
    assert_eq!(partition_a.components.as_deref(), Some([COMPONENT_A].as_slice()));
    assert_eq!(partition_b.components.as_deref(), Some([].as_slice()));

    // The world now has columns for B and C.
    let world_columns = [COMPONENT_B, COMPONENT_C];

    let (partition_a, partition_b) = unlimited().split_by_component(COMPONENT_A, &world_columns);

    assert_eq!(partition_a.nodes, None);
    assert_eq!(partition_b.nodes, None);
    assert_eq!(partition_a.components.as_deref(), Some([COMPONENT_A].as_slice()));
    assert!(partition_b.components.as_deref().unwrap().contains(&COMPONENT_B));
    assert!(partition_b.components.as_deref().unwrap().contains(&COMPONENT_C));

    let (partition_c, partition_d) = partition_a.split_by_component(COMPONENT_C, &world_columns);

    assert_eq!(partition_c.nodes, None);
    assert_eq!(partition_d.nodes, None);
    assert_eq!(partition_c.components.as_deref(), Some([].as_slice()));
    assert_eq!(partition_d.components.as_deref(), Some([COMPONENT_A].as_slice()));

    let (partition_c, partition_d) = partition_b.split_by_component(COMPONENT_C, &world_columns);

    assert_eq!(partition_c.nodes, None);
    assert_eq!(partition_d.nodes, None);
    assert_eq!(partition_c.components.as_deref(), Some([COMPONENT_C].as_slice()));
    assert_eq!(partition_d.components.as_deref(), Some([COMPONENT_B].as_slice()));

    let partition = unlimited();

    assert_eq!(partition.nodes, None);
    assert_eq!(partition.components, None);
}

#[test]
fn split_of_unlimited_partition_excludes_the_component() {
    let (only_b, rest) = unlimited().split_by_component(COMPONENT_B, &[COMPONENT_A, COMPONENT_B, COMPONENT_C]);
    assert_eq!(only_b.components, Some(vec![COMPONENT_B]));
    assert_eq!(rest.components, Some(vec![COMPONENT_A, COMPONENT_C]));
}

#[test]
fn node_partitions() {
    let p = Partition::new_unchecked(Some(vec![NODE_0, NODE_2]), Some(vec![COMPONENT_A]));
    assert!(p.contains(NODE_0));
    assert!(!p.contains(NODE_1));
    assert_eq!(p.nodes(), vec![NODE_0, NODE_2]);
    assert!(p.contains_type_id(COMPONENT_A));
    assert!(!p.contains_type_id(COMPONENT_B));
    assert!(unlimited().contains(NODE_1));
    assert!(unlimited().nodes().is_empty());
    assert!(unlimited().contains_type_id(COMPONENT_C));
    let (first, second) = p.split_by_component(COMPONENT_A, &[]);
    assert_eq!(first.nodes, Some(vec![NODE_0, NODE_2]));
    assert_eq!(second.nodes, Some(vec![NODE_0, NODE_2]));
    assert_eq!(second.components, Some(vec![]));
}

#[test]
fn batches_hold_each_node_once() {
    let nodes = [NODE_0, NODE_1, NODE_0, NODE_2, NODE_1, InoxNodeUuid(9)];
    let batches = disjoint_batches(&nodes, 2);
    assert_eq!(batches, vec![vec![NODE_0, NODE_1], vec![NODE_2, InoxNodeUuid(9)]]);
    let single = disjoint_batches(&nodes, 8);
    assert_eq!(single, vec![vec![NODE_0], vec![NODE_1], vec![NODE_2], vec![InoxNodeUuid(9)]]);
    let uneven = disjoint_batches(&[NODE_0, NODE_1, NODE_2], 2);
    assert_eq!(uneven, vec![vec![NODE_0], vec![NODE_1], vec![NODE_2]]);
    assert!(disjoint_batches(&[], 4).is_empty());
}

#[test]
fn partition_allows_only_its_nodes_and_components() {
    let p = Partition::new_unchecked(Some(vec![InoxNodeUuid(1), InoxNodeUuid(2)]), Some(vec![7]));
    assert!(p.allows(InoxNodeUuid(1), 7));
    assert!(!p.allows(InoxNodeUuid(1), 8));
    assert!(!p.allows(InoxNodeUuid(3), 7));
    let everything = Partition::new_unchecked(None, None);
    assert!(everything.allows(InoxNodeUuid(42), 8));
}
