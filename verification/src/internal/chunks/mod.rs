use super::pos::{
    lemma_index_round_trip, lemma_position_round_trip, rect_index, ChunkPos, GlobalVoxelPos, Pos,
    VoxelPos,
};
use super::voxel::{voxel_sub, Voxel};
use vstd::prelude::*;

pub mod in_world_chunk;
pub mod pointer;

pub use self::in_world_chunk::InWorldChunk;
pub use self::pointer::ChunkPointer;

verus! {

/// A cube of voxel samples: `SIZE_VOXELS` samples per edge cover `SIZE` cells.
#[derive(Debug, Default)]
pub struct Chunk {
    voxels: Vec<Voxel>,
    need_redraw: bool,
    need_save: bool,
}

#[derive(Clone, Copy, Debug, PartialEq, Eq, Structural)]
pub enum VoxelAccessError {
    OutOfBounds,
}

/// Whether a local position lies inside the samples of a chunk.
pub open spec fn in_chunk(p: VoxelPos) -> bool {
    p.x < 17 && p.y < 17 && p.z < 17
}

/// Index of the sample at a local position.
pub open spec fn voxel_index(p: VoxelPos) -> int {
    rect_index(p.x as int, p.y as int, p.z as int, 17, 17)
}

/// Whether a world voxel position lies inside the samples of the chunk at the origin.
pub open spec fn global_in_chunk(p: GlobalVoxelPos) -> bool {
    0 <= p.x < 17 && 0 <= p.y < 17 && 0 <= p.z < 17
}

/// Floor division of a world coordinate by the chunk size.
pub open spec fn chunk_axis(v: int) -> int {
    v / 16
}

/// Position of a world coordinate inside its chunk.
pub open spec fn chunk_offset_axis(v: int) -> int {
    v % 16
}

/// The local position of sample `i` of a chunk, `x` running fastest.
pub open spec fn sample_of_index(i: int) -> VoxelPos {
    Pos { x: (i % 17) as usize, y: ((i / 17) % 17) as usize, z: (i / 289) as usize }
}

/// A sample after mining with the strength `s`: lowered by it and marked modified, or
/// unchanged where there is none.
pub open spec fn mined(v: Voxel, s: Option<i32>) -> Voxel {
    match s {
        Some(k) => voxel_sub(v, k as int).with_modified(true),
        None => v,
    }
}

impl Chunk {
    pub const SIZE: usize = 16;
    pub const HALF_SIZE: usize = 8;
    pub const SIZE_VOXELS: usize = 17;
    pub const SIZE_VOXELS_I64: i64 = 17;
    pub const VOLUME_VOXELS: usize = 4913;
    pub const SIZE_I64: i64 = 16;
    pub const VOLUME: usize = 4096;
    pub const VOLUME_I64: i64 = 4096;

    /// The samples, `x` running fastest.
    pub closed spec fn voxels_view(&self) -> Seq<Voxel> {
        self.voxels@
    }

    pub closed spec fn need_redraw_view(&self) -> bool {
        self.need_redraw
    }

    pub closed spec fn need_save_view(&self) -> bool {
        self.need_save
    }

    /// The chunk holds one sample per position.
    pub open spec fn wf(&self) -> bool {
        self.voxels_view().len() == 4913
    }

    pub fn empty() -> (r: Self)
        ensures
            r.wf(),
            forall|i: int| 0 <= i < 4913 ==> r.voxels_view()[i] == Voxel::Empty(
                super::voxel::EmptyVoxel { value: 0, modified: false },
            ),
            !r.need_redraw_view(),
            !r.need_save_view(),
    {
        let mut voxels: Vec<Voxel> = Vec::new();
        let mut i: usize = 0;
        while i < Self::VOLUME_VOXELS
            invariant
                i <= 4913,
                voxels@.len() == i,
                forall|j: int| 0 <= j < i ==> voxels@[j] == Voxel::Empty(
                    super::voxel::EmptyVoxel { value: 0, modified: false },
                ),
            decreases 4913 - i,
        {
            voxels.push(Voxel::default());
            i += 1;
        }
        Self { voxels, need_redraw: false, need_save: false }
    }

    pub fn from_voxels(voxels: Vec<Voxel>) -> (r: Self)
        ensures
            r.voxels_view() == voxels@,
            !r.need_redraw_view(),
            !r.need_save_view(),
    {
        Self { voxels, need_redraw: false, need_save: false }
    }

    /// Overlays the modified voxels of `voxels` (a saved chunk) on a freshly `generated` chunk.
    ///
    /// The result needs saving when any voxel came from `voxels`.
    pub fn generate_with_modified(voxels: Vec<Voxel>, generated: Chunk) -> (r: Self)
        requires
            voxels@.len() <= generated.voxels_view().len(),
        ensures
            r.voxels_view().len() == generated.voxels_view().len(),
            forall|i: int|
                0 <= i < r.voxels_view().len() ==> #[trigger] r.voxels_view()[i] == if i < voxels@.len()
                    && voxels@[i].modified_spec() {
                    voxels@[i]
                } else {
                    generated.voxels_view()[i]
                },
            r.need_redraw_view() == generated.need_redraw_view(),
            r.need_save_view() == (generated.need_save_view() || exists|i: int|
                0 <= i < voxels@.len() && #[trigger] voxels@[i].modified_spec()),
    {
        let mut chunk = generated;
        let ghost gen_voxels = chunk.voxels@;
        let ghost gen_save = chunk.need_save;
        let mut i: usize = 0;
        while i < voxels.len()
            invariant
                voxels@.len() <= gen_voxels.len(),
                i <= voxels@.len(),
                chunk.voxels@.len() == gen_voxels.len(),
                chunk.need_redraw == generated.need_redraw_view(),
                forall|j: int|
                    0 <= j < gen_voxels.len() ==> #[trigger] chunk.voxels@[j] == if j < i
                        && voxels@[j].modified_spec() {
                        voxels@[j]
                    } else {
                        gen_voxels[j]
                    },
                chunk.need_save == (gen_save || exists|j: int|
                    0 <= j < i && #[trigger] voxels@[j].modified_spec()),
            decreases voxels@.len() - i,
        {
            let voxel = voxels[i];
            if voxel.is_modified() {
                chunk.voxels.set(i, voxel);
                chunk.need_save = true;
            }
            i += 1;
        }
        chunk
    }

    pub fn is_need_save(&self) -> (r: bool)
        ensures
            r == self.need_save_view(),
    {
        self.need_save
    }

    pub fn is_need_redraw(&self) -> (r: bool)
        ensures
            r == self.need_redraw_view(),
    {
        self.need_redraw
    }

    pub fn set_need_redraw(&mut self, need_redraw: bool)
        ensures
            final(self).need_redraw_view() == need_redraw,
            final(self).need_save_view() == old(self).need_save_view(),
            final(self).voxels_view() == old(self).voxels_view(),
    {
        self.need_redraw = need_redraw;
    }

    pub fn set_need_save(&mut self, need_save: bool)
        ensures
            final(self).need_save_view() == need_save,
            final(self).need_redraw_view() == old(self).need_redraw_view(),
            final(self).voxels_view() == old(self).voxels_view(),
    {
        self.need_save = need_save;
    }

    /// Get voxel at the given position.
    ///
    /// Returns None if position is out of chunk bounds.
    pub fn get_voxel_at(&self, pos: VoxelPos) -> (r: Option<Voxel>)
        requires
            self.wf(),
        ensures
            r == if in_chunk(pos) {
                Some(self.voxels_view()[voxel_index(pos)])
            } else {
                None
            },
    {
        if pos.x >= Self::SIZE_VOXELS || pos.y >= Self::SIZE_VOXELS || pos.z >= Self::SIZE_VOXELS {
            return None;
        }
        Some(self.voxels[pos.to_index(Self::SIZE_VOXELS)])
    }

    /// Get voxel at the given position.
    ///
    /// Returns None if position is out of chunk bounds.
    pub fn get_voxel(&self, pos: GlobalVoxelPos) -> (r: Option<Voxel>)
        requires
            self.wf(),
        ensures
            r == if global_in_chunk(pos) {
                Some(
                    self.voxels_view()[rect_index(pos.x as int, pos.y as int, pos.z as int, 17, 17)],
                )
            } else {
                None
            },
    {
        if pos.x < 0 || pos.y < 0 || pos.z < 0 || pos.x >= Self::SIZE_VOXELS_I64 || pos.y
            >= Self::SIZE_VOXELS_I64 || pos.z >= Self::SIZE_VOXELS_I64 {
            return None;
        }
        let pos = Pos::new(pos.x as usize, pos.y as usize, pos.z as usize);
        Some(self.voxels[pos.to_index(Self::SIZE_VOXELS)])
    }

    /// Lowers the voxel at `pos` by `strength` (in units of `1 / VOXEL_VALUE_MAX`), marks it
    /// modified and marks the chunk for redraw and save.
    ///
    /// This is the per-voxel step of mining; the caller decides, from the distance to the
    /// mining center, which voxels are mined and how strongly.
    pub fn mine_voxel(&mut self, pos: VoxelPos, strength: i32)
        requires
            old(self).wf(),
            in_chunk(pos),
        ensures
            final(self).voxels_view() == old(self).voxels_view().update(
                voxel_index(pos),
                voxel_sub(old(self).voxels_view()[voxel_index(pos)], strength as int).with_modified(
                    true,
                ),
            ),
            final(self).need_redraw_view(),
            final(self).need_save_view(),
            final(self).wf(),
    {
        let index = pos.to_index(Self::SIZE_VOXELS);
        let mut voxel = self.voxels[index];
        voxel = voxel - strength;
        proof {
            assert(voxel == voxel_sub(self.voxels@[index as int], strength as int));
        }
        voxel.set_modified(true);
        self.voxels.set(index, voxel);
        self.need_redraw = true;
        self.need_save = true;
    }

    /// Mines the chunk: each sample gets the strength that `strength_at` gives for its
    /// position, in units of `1 / VOXEL_VALUE_MAX`, or is left alone where it gives `None`.
    ///
    /// Where any sample is mined, the chunk is marked for redraw and save.
    pub fn mine<F: Fn(VoxelPos) -> Option<i32>>(&mut self, strength_at: F)
        requires
            old(self).wf(),
            forall|p: VoxelPos| strength_at.requires((p,)),
        ensures
            final(self).wf(),
            exists|strengths: Seq<Option<i32>>|
                {
                    &&& strengths.len() == 4913
                    &&& forall|i: int|
                        0 <= i < 4913 ==> strength_at.ensures(
                            (sample_of_index(i),),
                            #[trigger] strengths[i],
                        )
                    &&& forall|i: int|
                        0 <= i < 4913 ==> #[trigger] final(self).voxels_view()[i] == mined(
                            old(self).voxels_view()[i],
                            strengths[i],
                        )
                    &&& final(self).need_redraw_view() == (old(self).need_redraw_view() || exists|i: int|
                        0 <= i < 4913 && #[trigger] strengths[i] is Some)
                    &&& final(self).need_save_view() == (old(self).need_save_view() || exists|i: int|
                        0 <= i < 4913 && #[trigger] strengths[i] is Some)
                },
    {
        let ghost old_voxels = self.voxels@;
        let ghost old_redraw = self.need_redraw;
        let ghost old_save = self.need_save;
        let ghost mut strengths: Seq<Option<i32>> = Seq::empty();
        let mut i: usize = 0;
        while i < Self::VOLUME_VOXELS
            invariant
                i <= 4913,
                self.wf(),
                old_voxels.len() == 4913,
                forall|p: VoxelPos| strength_at.requires((p,)),
                strengths.len() == i,
                forall|j: int|
                    0 <= j < i ==> strength_at.ensures((sample_of_index(j),), #[trigger] strengths[j]),
                forall|j: int|
                    0 <= j < 4913 ==> #[trigger] self.voxels@[j] == if j < i {
                        mined(old_voxels[j], strengths[j])
                    } else {
                        old_voxels[j]
                    },
                self.need_redraw == (old_redraw || exists|j: int| 0 <= j < i && #[trigger] strengths[j] is Some),
                self.need_save == (old_save || exists|j: int| 0 <= j < i && #[trigger] strengths[j] is Some),
            decreases 4913 - i,
        {
            let pos = VoxelPos::from_index(i, Self::SIZE_VOXELS);
            proof {
                lemma_position_round_trip(i as int, 17, 17);
                assert(pos == sample_of_index(i as int));
                assert(voxel_index(pos) == i);
            }
            let s = strength_at(pos);
            let ghost before = self.voxels@;
            match s {
                Some(k) => {
                    self.mine_voxel(pos, k);
                },
                None => {},
            }
            proof {
                let ghost prev = strengths;
                strengths = strengths.push(s);
                assert forall|j: int| 0 <= j < i + 1 implies strength_at.ensures(
                    (sample_of_index(j),),
                    #[trigger] strengths[j],
                ) by {
                    if j < i {
                        assert(strengths[j] == prev[j]);
                    }
                }
                assert(forall|j: int| 0 <= j < i ==> strengths[j] == prev[j]);
                if s is Some {
                    assert(strengths[i as int] is Some);
                } else {
                    assert((exists|j: int| 0 <= j < i + 1 && #[trigger] strengths[j] is Some) == (exists|j: int|
                        0 <= j < i && #[trigger] prev[j] is Some));
                }
            }
            i += 1;
        }
        proof {
            assert(forall|j: int| 0 <= j < 4913 ==> (#[trigger] strengths[j] is Some ==> j < i));
        }
    }

    pub fn set_voxel(&mut self, pos: VoxelPos, voxel: Voxel) -> (r: Result<(), VoxelAccessError>)
        requires
            old(self).wf(),
        ensures
            final(self).wf(),
            final(self).need_redraw_view() == old(self).need_redraw_view(),
            final(self).need_save_view() == old(self).need_save_view(),
            in_chunk(pos) ==> r is Ok && final(self).voxels_view() == old(self).voxels_view().update(
                voxel_index(pos),
                voxel,
            ),
            !in_chunk(pos) ==> r == Err::<(), VoxelAccessError>(VoxelAccessError::OutOfBounds)
                && final(self).voxels_view() == old(self).voxels_view(),
    {
        if pos.x >= Self::SIZE_VOXELS || pos.y >= Self::SIZE_VOXELS || pos.z >= Self::SIZE_VOXELS {
            return Err(VoxelAccessError::OutOfBounds);
        }
        let index = pos.to_index(Self::SIZE_VOXELS);
        self.voxels.set(index, voxel);
        Ok(())
    }

    fn normalize_axis(axis: i64) -> (r: usize)
        ensures
            r == chunk_offset_axis(axis as int),
    {
        if axis >= 0 {
            (axis % Self::SIZE_I64) as usize
        } else {
            let m = (-(axis + 1)) % Self::SIZE_I64;
            (15 - m) as usize
        }
    }

    /// Transform global pos to local pos.
    pub fn normalize_pos(pos: GlobalVoxelPos) -> (r: VoxelPos)
        ensures
            r.x == chunk_offset_axis(pos.x as int),
            r.y == chunk_offset_axis(pos.y as int),
            r.z == chunk_offset_axis(pos.z as int),
    {
        Pos::new(
            Self::normalize_axis(pos.x),
            Self::normalize_axis(pos.y),
            Self::normalize_axis(pos.z),
        )
    }

    fn axis_voxel_pos_to_chunk_pos(val: i64) -> (r: i64)
        ensures
            r == chunk_axis(val as int),
    {
        if val >= 0 {
            val / Self::SIZE_I64
        } else {
            -((-(val + 1)) / Self::SIZE_I64) - 1
        }
    }

    /// transform global voxel pos to position of the chunk that contains this voxel
    ///
    /// example:
    /// - (0, 0, 0) => (0, 0, 0)
    /// - (-1, 0, 1) => (-1, 0, 0)
    pub fn global_voxel_pos_to_chunk_pos(pos: GlobalVoxelPos) -> (r: ChunkPos)
        ensures
            r.x == chunk_axis(pos.x as int),
            r.y == chunk_axis(pos.y as int),
            r.z == chunk_axis(pos.z as int),
    {
        Pos::new(
            Self::axis_voxel_pos_to_chunk_pos(pos.x),
            Self::axis_voxel_pos_to_chunk_pos(pos.y),
            Self::axis_voxel_pos_to_chunk_pos(pos.z),
        )
    }
}

/// A world coordinate is its chunk times the chunk size plus its offset in the chunk, and the
/// offset lies inside the chunk.
pub proof fn lemma_chunk_decomposition(v: int)
    ensures
        chunk_axis(v) * 16 + chunk_offset_axis(v) == v,
        0 <= chunk_offset_axis(v) < 16,
{
}

/// Writing a voxel and then reading any position gives the written voxel at that position
/// and the old voxel everywhere else.
pub proof fn lemma_set_then_get(voxels: Seq<Voxel>, p: VoxelPos, q: VoxelPos, v: Voxel)
    requires
        voxels.len() == 4913,
        in_chunk(p),
        in_chunk(q),
    ensures
        0 <= voxel_index(q) < 4913,
        voxels.update(voxel_index(p), v)[voxel_index(q)] == if p == q {
            v
        } else {
            voxels[voxel_index(q)]
        },
{
    if p != q {
        lemma_index_round_trip(p.x as int, p.y as int, p.z as int, 17, 17);
        lemma_index_round_trip(q.x as int, q.y as int, q.z as int, 17, 17);
    }
}

} // verus!
