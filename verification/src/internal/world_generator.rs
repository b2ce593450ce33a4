use super::pos::{in_i64, rect_index, GlobalVoxelPos, Pos, VoxelPos};
use super::voxel::Voxel;
use vstd::prelude::*;

verus! {

/// The world position of sample `i` of a box of extent `size` whose lowest corner is
/// `offset`, `x` running fastest.
pub open spec fn sample_pos(offset: GlobalVoxelPos, size: VoxelPos, i: int) -> GlobalVoxelPos {
    Pos {
        x: (offset.x + i % (size.x as int)) as i64,
        y: (offset.y + (i / (size.x as int)) % (size.y as int)) as i64,
        z: (offset.z + i / (size.x * size.y)) as i64,
    }
}

/// Samples a box of extent `size` whose lowest corner is `offset`: `generate` gives the voxel
/// at each world position, visited in index order, `x` running fastest.
pub fn generate_voxels<F: Fn(GlobalVoxelPos) -> Voxel>(offset: GlobalVoxelPos, size: VoxelPos, generate: F) -> (r: Vec<Voxel>)
    requires
        size.x * size.y <= usize::MAX,
        size.x * size.y * size.z <= usize::MAX,
        size.x <= i64::MAX,
        size.y <= i64::MAX,
        size.z <= i64::MAX,
        in_i64(offset.x + size.x),
        in_i64(offset.y + size.y),
        in_i64(offset.z + size.z),
        forall|p: GlobalVoxelPos| generate.requires((p,)),
    ensures
        r@.len() == size.x * size.y * size.z,
        forall|i: int|
            0 <= i < r@.len() ==> generate.ensures((sample_pos(offset, size, i),), #[trigger] r@[i]),
{
    let volume = size.x * size.y * size.z;
    let mut voxels: Vec<Voxel> = Vec::new();
    let mut voxel_index: usize = 0;
    while voxel_index < volume
        invariant
            size.x * size.y <= usize::MAX,
            size.x <= i64::MAX,
            size.y <= i64::MAX,
            size.z <= i64::MAX,
            volume == size.x * size.y * size.z,
            voxel_index <= volume,
            in_i64(offset.x + size.x),
            in_i64(offset.y + size.y),
            in_i64(offset.z + size.z),
            forall|p: GlobalVoxelPos| generate.requires((p,)),
            voxels@.len() == voxel_index,
            forall|i: int|
                0 <= i < voxel_index ==> generate.ensures(
                    (sample_pos(offset, size, i),),
                    #[trigger] voxels@[i],
                ),
        decreases volume - voxel_index,
    {
        let voxel_pos = VoxelPos::from_index_rect(voxel_index, size);
        proof {
            if size.x == 0 || size.y == 0 {
                assert(size.x * size.y == 0) by (nonlinear_arith)
                    requires
                        size.x == 0 || size.y == 0,
                ;
                assert(volume == 0) by (nonlinear_arith)
                    requires
                        volume == size.x * size.y * size.z,
                        size.x * size.y == 0,
                ;
            }
            vstd::arithmetic::mul::lemma_mul_strictly_positive(size.x as int, size.y as int);
            vstd::arithmetic::div_mod::lemma_mod_pos_bound(voxel_index as int, size.x as int);
            vstd::arithmetic::div_mod::lemma_mod_pos_bound(voxel_index as int / size.x as int, size.y as int);
            assert(size.x * size.y * size.z == (size.x * size.y) * size.z) by (nonlinear_arith);
            vstd::arithmetic::div_mod::lemma_multiply_divide_lt(voxel_index as int, size.x * size.y, size.z as int);
        }
        let pos = offset + GlobalVoxelPos::new(voxel_pos.x as i64, voxel_pos.y as i64, voxel_pos.z as i64);
        proof {
            assert(pos == sample_pos(offset, size, voxel_index as int));
        }
        let voxel = generate(pos);
        voxels.push(voxel);
        voxel_index += 1;
    }
    voxels
}

} // verus!
