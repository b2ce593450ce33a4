use super::pos::rect_index;
use vstd::prelude::*;

verus! {

/// A position inside a cube of voxels.
#[derive(Debug, Clone, Copy, PartialEq, Eq, Hash, Structural)]
pub struct VoxelPos {
    pub x: usize,
    pub y: usize,
    pub z: usize,
}

impl VoxelPos {
    pub fn new(x: usize, y: usize, z: usize) -> (r: Self)
        ensures
            r == (VoxelPos { x, y, z }),
    {
        Self { x, y, z }
    }

    /// The position with the given index in a cube with edge `size`, `x` running fastest.
    pub fn from_index(index: usize, size: usize) -> (r: Self)
        requires
            size > 0,
            size * size <= usize::MAX,
        ensures
            r.x == index % size,
            r.y == (index / size) % size,
            r.z == index as int / (size * size),
    {
        proof {
            vstd::arithmetic::mul::lemma_mul_strictly_positive(size as int, size as int);
        }
        let x = index % size;
        let y = (index / size) % size;
        let z = index / (size * size);
        Self::new(x, y, z)
    }

    /// The index of this position in a cube with edge `size`, `x` running fastest.
    pub fn to_index(&self, size: usize) -> (r: usize)
        requires
            rect_index(self.x as int, self.y as int, self.z as int, size as int, size as int)
                <= usize::MAX,
        ensures
            r == rect_index(self.x as int, self.y as int, self.z as int, size as int, size as int),
    {
        let p = super::pos::Pos::new(self.x, self.y, self.z);
        p.to_index(size)
    }
}

/// Reading a position back from its index in a cube gives the same position.
pub proof fn lemma_voxel_pos_round_trip(p: VoxelPos, size: usize)
    requires
        p.x < size,
        p.y < size,
        p.z < size,
    ensures
        ({
            let i = rect_index(p.x as int, p.y as int, p.z as int, size as int, size as int);
            &&& i % (size as int) == p.x
            &&& (i / (size as int)) % (size as int) == p.y
            &&& i / (size * size) == p.z
        }),
{
    super::pos::lemma_index_round_trip(p.x as int, p.y as int, p.z as int, size as int, size as int);
}

} // verus!
