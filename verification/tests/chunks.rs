use bevy::ecs::entity::Entity;
use primitive_engineering::internal::chunks::in_world_chunk::map_chunk;
use primitive_engineering::internal::chunks::{Chunk, ChunkPointer, InWorldChunk, VoxelAccessError};
use primitive_engineering::internal::pos::{ChunkPos, GlobalVoxelPos, Pos, VoxelPos};
use primitive_engineering::internal::voxel::voxel_types::VoxelId;
use primitive_engineering::internal::voxel::Voxel;

#[test]
fn empty_chunk_holds_empty_voxels() {
    let chunk = Chunk::empty();
    assert_eq!(chunk.get_voxel_at(Pos::new(0, 0, 0)), Some(Voxel::empty()));
    assert_eq!(chunk.get_voxel_at(Pos::new(16, 16, 16)), Some(Voxel::empty()));
    assert_eq!(chunk.get_voxel_at(Pos::new(17, 0, 0)), None);
    assert!(!chunk.is_need_save());
    assert!(!chunk.is_need_redraw());
}

#[test]
fn set_then_get_voxel() {
    let mut chunk = Chunk::empty();
    let v = Voxel::new(5000, VoxelId::stone());
    assert_eq!(chunk.set_voxel(Pos::new(3, 4, 5), v), Ok(()));
    assert_eq!(chunk.get_voxel_at(Pos::new(3, 4, 5)), Some(v));
    assert_eq!(chunk.get_voxel(GlobalVoxelPos::new(3, 4, 5)), Some(v));
    assert_eq!(chunk.get_voxel_at(Pos::new(4, 4, 5)), Some(Voxel::empty()));
    assert_eq!(chunk.get_voxel(GlobalVoxelPos::new(-1, 4, 5)), None);
    assert_eq!(
        chunk.set_voxel(Pos::new(17, 4, 5), v),
        Err(VoxelAccessError::OutOfBounds)
    );
}

#[test]
fn mine_voxel_lowers_and_marks() {
    let mut chunk = Chunk::empty();
    let pos: VoxelPos = Pos::new(1, 1, 1);
    chunk.set_voxel(pos, Voxel::new(1000, VoxelId::dirt())).unwrap();
    chunk.mine_voxel(pos, 400);
    let v = chunk.get_voxel_at(pos).unwrap();
    assert_eq!(v.value(), 600);
    assert!(v.is_modified());
    assert!(chunk.is_need_redraw());
    assert!(chunk.is_need_save());
    chunk.set_need_redraw(false);
    chunk.set_need_save(false);
    assert!(!chunk.is_need_redraw());
    assert!(!chunk.is_need_save());
}

#[test]
fn generate_with_modified_keeps_saved_changes() {
    let mut saved = Vec::new();
    for _ in 0..Chunk::VOLUME_VOXELS {
        saved.push(Voxel::new(1, VoxelId::grass()));
    }
    let mut changed = Voxel::new(-7, VoxelId::grass());
    changed.set_modified(true);
    saved[10] = changed;
    let chunk = Chunk::generate_with_modified(saved, Chunk::empty());
    assert!(chunk.is_need_save());
    assert_eq!(chunk.get_voxel_at(VoxelPos::from_index(10, 17)), Some(changed));
    assert_eq!(chunk.get_voxel_at(VoxelPos::from_index(11, 17)), Some(Voxel::empty()));

    let untouched = Chunk::generate_with_modified(Vec::new(), Chunk::empty());
    assert!(!untouched.is_need_save());
}

#[test]
fn from_voxels_keeps_the_samples() {
    let mut voxels = Vec::new();
    for i in 0..Chunk::VOLUME_VOXELS {
        voxels.push(Voxel::new((i % 100) as i32, VoxelId::sand()));
    }
    let chunk = Chunk::from_voxels(voxels);
    assert_eq!(chunk.get_voxel_at(VoxelPos::from_index(250, 17)).unwrap().value(), 50);
}

#[test]
fn global_positions_split_into_chunk_and_offset() {
    assert_eq!(
        Chunk::global_voxel_pos_to_chunk_pos(GlobalVoxelPos::new(0, 0, 0)),
        ChunkPos::new(0, 0, 0)
    );
    assert_eq!(
        Chunk::global_voxel_pos_to_chunk_pos(GlobalVoxelPos::new(-1, 0, 1)),
        ChunkPos::new(-1, 0, 0)
    );
    assert_eq!(
        Chunk::global_voxel_pos_to_chunk_pos(GlobalVoxelPos::new(-16, -17, 33)),
        ChunkPos::new(-1, -2, 2)
    );
    assert_eq!(
        Chunk::normalize_pos(GlobalVoxelPos::new(-1, 17, -16)),
        Pos::new(15, 1, 0)
    );
}

#[test]
fn pointer_keeps_position_and_level() {
    let p = ChunkPointer::new(Chunk::empty(), ChunkPos::new(1, 2, 3), 4);
    assert_eq!(p.get_pos(), ChunkPos::new(1, 2, 3));
    assert_eq!(p.get_level(), 4);
    assert!(!p.is_real());
    let q = p.clone();
    assert_eq!(q.get_pos(), p.get_pos());
    {
        let mut guard = p.lock().unwrap();
        guard.set_need_save(true);
        // While the chunk is locked, it cannot be locked again.
        assert!(q.lock().is_none());
        assert!(q.is_need_save().is_none());
    }
    // The clone shares the chunk.
    assert_eq!(q.is_need_save(), Some(true));
    assert!(q.lock().unwrap().is_need_save());
}

#[test]
fn in_world_chunk_new_builds_path() {
    let (tree, to_load) = InWorldChunk::new(Pos::new(3, 0, 0), 2);
    assert!(to_load.is_empty());
    match &tree {
        InWorldChunk::SubChunks(subs) => {
            assert_eq!(subs.len(), 8);
            let split = subs.iter().filter(|c| matches!(c, InWorldChunk::SubChunks(_))).count();
            assert_eq!(split, 1);
        }
        v => panic!("expected sub chunks: {:?}", v),
    }
    let (leaf, _) = InWorldChunk::new(Pos::new(0, 0, 0), 0);
    assert!(matches!(leaf, InWorldChunk::Loading));
}

#[test]
fn scale_down_collects_leaf_entities() {
    let mut subs = Vec::new();
    for i in 0..8u32 {
        let c = ChunkPointer::new(Chunk::empty(), ChunkPos::from_index(i as usize, 2), 1);
        subs.push(InWorldChunk::Loaded(c, Entity::from_raw(i)));
    }
    let mut node = InWorldChunk::SubChunks(subs);
    let entities = node.scale_down().unwrap();
    assert_eq!(entities.len(), 8);
    assert_eq!(entities[3], Entity::from_raw(3));
    assert_eq!(node.get_sub_chunks(0).len(), 0);
    assert_eq!(node.get_sub_chunks(4).len(), 8);

    let mut partial = InWorldChunk::SubChunks(vec![InWorldChunk::Loading; 8]);
    assert!(partial.scale_down().is_none());
    let mut leaf = InWorldChunk::Loading;
    assert!(leaf.scale_down().is_none());
}

#[test]
fn sub_chunk_lookup_and_loaded_accessors() {
    let c = ChunkPointer::new(Chunk::empty(), ChunkPos::new(1, 0, 0), 1);
    let mut subs = vec![InWorldChunk::Loading; 8];
    subs[1] = InWorldChunk::Loaded(c, Entity::from_raw(7));
    let mut node = InWorldChunk::SubChunks(subs);
    assert!(matches!(node.get_sub_chunk(Pos::new(1, 0, 0), 0), Some(InWorldChunk::Loaded(_, _))));
    assert!(matches!(node.get_sub_chunk(Pos::new(0, 1, 0), 0), Some(InWorldChunk::Loading)));
    {
        let child = node.get_sub_chunk_mut(Pos::new(1, 0, 0), 0).unwrap();
        let (pointer, entity) = child.get_chunk().unwrap();
        assert_eq!(pointer.get_pos(), ChunkPos::new(1, 0, 0));
        assert_eq!(entity, Entity::from_raw(7));
        assert!(child.get_chunk_mut().is_some());
        assert!(map_chunk(&Some(child.clone())).is_some());
    }
    assert!(node.get_chunk().is_none());
    assert!(map_chunk(&Some(InWorldChunk::Loading)).is_none());
    assert!(map_chunk(&None).is_none());
    let (found, e) = node.get_detailest_chunk(Pos::new(16, 0, 0), 0).unwrap();
    assert_eq!(found.get_level(), 1);
    assert_eq!(e, Entity::from_raw(7));
    assert!(node.get_detailest_chunk(Pos::new(0, 0, 0), 0).is_none());
}

#[test]
fn mine_applies_the_strength_of_each_sample() {
    let mut chunk = Chunk::empty();
    let center: VoxelPos = Pos::new(8, 8, 8);
    chunk.set_voxel(center, Voxel::new(1000, VoxelId::stone())).unwrap();
    chunk.mine(|p: VoxelPos| {
        if p == Pos::new(8, 8, 8) {
            Some(300)
        } else if p == Pos::new(9, 8, 8) {
            Some(10)
        } else {
            None
        }
    });
    assert_eq!(chunk.get_voxel_at(center).unwrap().value(), 700);
    assert!(chunk.get_voxel_at(center).unwrap().is_modified());
    let side = chunk.get_voxel_at(Pos::new(9, 8, 8)).unwrap();
    assert_eq!(side.value(), -10);
    assert!(side.is_modified());
    assert!(!chunk.get_voxel_at(Pos::new(7, 8, 8)).unwrap().is_modified());
    assert!(chunk.is_need_redraw());
    assert!(chunk.is_need_save());

    let mut untouched = Chunk::empty();
    untouched.mine(|_p: VoxelPos| None);
    assert!(!untouched.is_need_redraw());
    assert!(!untouched.is_need_save());
}

#[test]
fn well_formed_trees() {
    assert!(InWorldChunk::Loading.is_well_formed(0));
    let full = InWorldChunk::SubChunks(vec![InWorldChunk::Loading; 8]);
    assert!(full.is_well_formed(0));
    assert!(full.is_well_formed(4));
    // A chunk of the finest level is never split.
    assert!(!full.is_well_formed(5));
    assert!(!InWorldChunk::SubChunks(vec![InWorldChunk::Loading; 7]).is_well_formed(0));
    let mut nested = vec![InWorldChunk::Loading; 8];
    nested[3] = InWorldChunk::SubChunks(vec![InWorldChunk::Loading; 2]);
    assert!(!InWorldChunk::SubChunks(nested).is_well_formed(0));
}
