use primitive_engineering::internal::pos::{GlobalVoxelPos, Pos};
use primitive_engineering::internal::voxel::voxel_types::VoxelId;
use primitive_engineering::internal::voxel::Voxel;
use primitive_engineering::internal::world_generator::generate_voxels;

#[test]
fn generate_voxels_visits_positions_in_index_order() {
    let offset = GlobalVoxelPos::new(-2, 10, 100);
    let size = Pos::new(2, 3, 2);
    let voxels = generate_voxels(offset, size, |p: GlobalVoxelPos| {
        Voxel::new((p.x * 10000 + (p.y - 10) * 100 + (p.z - 100)) as i32, VoxelId::stone())
    });
    assert_eq!(voxels.len(), 12);
    assert_eq!(voxels[0].value(), -20000);
    // Index 1: x = -1.
    assert_eq!(voxels[1].value(), -10000);
    // Index 2: y = 11.
    assert_eq!(voxels[2].value(), -20000 + 100);
    // Index 6: z = 101.
    assert_eq!(voxels[6].value(), -20000 + 1);
    assert_eq!(voxels[11].value(), -10000 + 200 + 1);

    let none = generate_voxels(offset, Pos::new(0, 3, 3), |_p: GlobalVoxelPos| Voxel::empty());
    assert!(none.is_empty());
}
