use primitive_engineering::internal::voxel_pos::VoxelPos;

#[test]
fn mod_test_voxel_pos_index() {
    let pos = VoxelPos::new(1, 2, 3);
    let size = 16;
    assert_eq!(VoxelPos::from_index(pos.to_index(size), size), pos);
}

#[test]
fn legacy_voxel_pos_formula() {
    let pos = VoxelPos::new(4, 0, 2);
    assert_eq!(pos.to_index(10), 204);
    assert_eq!(VoxelPos::from_index(204, 10), pos);
}
