use primitive_engineering::internal::chunks::Chunk;
use primitive_engineering::internal::pos::Pos;
use primitive_engineering::internal::voxel::voxel_types::VoxelId;
use primitive_engineering::internal::voxel::voxels_to_vertex::{
    chose_voxel_for_node, get_vertex_nodes, get_voxels_for_vertex, VoxelsBlock, NODE_DE, NODE_DN,
    NODE_DS, NODE_DW, NODE_NE, NODE_NW, NODE_SE, NODE_SW, NODE_UE, NODE_UN, NODE_US, NODE_UW,
    NODES_POS_COUNT,
};
use primitive_engineering::internal::voxel::{NotEmptyVoxel, Voxel};

#[test]
fn node_between_empty_and_solid_sample() {
    let a = Voxel::new(-32767, VoxelId::stone());
    let b = Voxel::new(32767, VoxelId::dirt());
    let n = chose_voxel_for_node(a, b);
    assert!(!n.is_empty());
    assert_eq!(n.value(), 32767);
    assert_eq!(n.id(), VoxelId::dirt());
    assert!(!n.is_modified());

    let quarter = chose_voxel_for_node(Voxel::new(-1000, VoxelId::grass()), Voxel::new(3000, VoxelId::sand()));
    assert_eq!(quarter.value(), 65535 * 1000 / 4000);
    assert_eq!(quarter.id(), VoxelId::sand());
}

#[test]
fn node_between_solid_and_empty_sample() {
    let a = Voxel::new(3000, VoxelId::snow());
    let b = Voxel::new(-1000, VoxelId::grass());
    let n = chose_voxel_for_node(a, b);
    assert_eq!(n.value(), 65535 * 3000 / 4000);
    assert_eq!(n.id(), VoxelId::snow());
}

#[test]
fn node_between_two_solid_samples() {
    let n = chose_voxel_for_node(Voxel::new(10, VoxelId::stone()), Voxel::new(20, VoxelId::dirt()));
    assert_eq!(n, Voxel::new(0, VoxelId::default()));
}

#[test]
fn node_edge_cases() {
    // Both empty at level zero: no crossing, a node of level zero, which is empty.
    let n = chose_voxel_for_node(Voxel::empty(), Voxel::empty());
    assert!(n.is_empty());
    assert_eq!(n.value(), 0);
    // Both empty, the second one deeper: the crossing lies behind the first sample.
    let n = chose_voxel_for_node(Voxel::new(-1000, VoxelId::grass()), Voxel::new(-3000, VoxelId::dirt()));
    assert!(n.is_empty());
    assert_eq!(n.value(), -(65535 * 1000 / 2000));
    // Both empty, the second one shallower: the crossing lies beyond, clamped to a full voxel.
    let n = chose_voxel_for_node(Voxel::new(-3000, VoxelId::grass()), Voxel::new(-1000, VoxelId::dirt()));
    assert_eq!(n.value(), 65535);
    // Empty with level below zero next to an equal one: a full voxel.
    let n = chose_voxel_for_node(Voxel::new(-5, VoxelId::grass()), Voxel::new(-5, VoxelId::dirt()));
    assert_eq!(n.value(), 65535);
    // Solid of level zero next to an empty one of level zero.
    let solid_zero = Voxel::NotEmpty(NotEmptyVoxel { modified: false, value: 0, id: VoxelId::stone() });
    let n = chose_voxel_for_node(solid_zero, Voxel::empty());
    assert_eq!(n.value(), 0);
    assert!(n.is_empty());
    // Solid next to an empty sample of level zero: the surface sits at the empty sample.
    let n = chose_voxel_for_node(Voxel::new(500, VoxelId::stone()), Voxel::empty());
    assert_eq!(n.value(), 65535);
    assert_eq!(n.id(), VoxelId::stone());
}

#[test]
fn vertex_nodes_follow_the_edges() {
    let solid = Voxel::new(30000, VoxelId::stone());
    let air = Voxel::new(-30000, VoxelId::default());
    // Solid below (y = 0), air above (y = 1).
    let block: VoxelsBlock = [[[solid, solid], [air, air]], [[solid, solid], [air, air]]];
    let nodes = get_vertex_nodes(block);
    assert_eq!(nodes.len(), NODES_POS_COUNT);
    for i in [NODE_NE, NODE_NW, NODE_SE, NODE_SW] {
        assert_eq!(nodes[i].value(), 65535 * 30000 / 60000);
        assert_eq!(nodes[i].id(), VoxelId::stone());
    }
    for i in [NODE_DS, NODE_DE, NODE_DN, NODE_DW] {
        assert_eq!(nodes[i], Voxel::new(0, VoxelId::default()));
    }
    for i in [NODE_US, NODE_UE, NODE_UN, NODE_UW] {
        assert_eq!(nodes[i].value(), 65535);
    }
}

#[test]
fn voxels_for_vertex_read_the_corners() {
    let mut chunk = Chunk::empty();
    chunk.set_voxel(Pos::new(2, 3, 4), Voxel::new(1, VoxelId::grass())).unwrap();
    chunk.set_voxel(Pos::new(3, 4, 5), Voxel::new(2, VoxelId::grass())).unwrap();
    let block = get_voxels_for_vertex(&chunk, Pos::new(2, 3, 4));
    assert_eq!(block[0][0][0].value(), 1);
    assert_eq!(block[1][1][1].value(), 2);
    assert_eq!(block[1][0][0], Voxel::empty());
    let edge = get_voxels_for_vertex(&chunk, Pos::new(16, 16, 16));
    assert_eq!(edge[1][1][1], Voxel::empty());
    assert_eq!(edge[0][0][0], Voxel::empty());
}
