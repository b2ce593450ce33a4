use bevy::ecs::entity::Entity;
use primitive_engineering::internal::chunks::{Chunk, ChunkPointer, InWorldChunk};
use primitive_engineering::internal::pos::ChunkPos;
use primitive_engineering::plugins::chunks::systems::details::{
    detail_chunk, distance_to_player, needs_detail, needs_unload,
};
use primitive_engineering::plugins::chunks::systems::loading::{
    region_loading, PrevPlayerChunkPos,
};
use primitive_engineering::plugins::chunks::systems::mine::real_chunks_to_mine;
use primitive_engineering::plugins::chunks::systems::unload::{unload_chunk, UnloadAction};
use primitive_engineering::plugins::game_world::resources::GameWorld;

fn loaded_region(world: &mut GameWorld, pos: ChunkPos, entity: u32) {
    world.create_chunk(pos).unwrap();
    let c = ChunkPointer::new(Chunk::empty(), pos, 0);
    world.update_chunk(c, Entity::from_raw(entity)).unwrap();
}

#[test]
fn detail_chunk_splits_a_loaded_chunk() {
    let mut world = GameWorld::new();
    let pos = ChunkPos::new(-1, 0, 2);
    loaded_region(&mut world, pos, 1);
    assert_eq!(detail_chunk(&mut world, pos, 0), Some(()));
    for i in 0..8 {
        let child = pos * 2 + ChunkPos::from_index(i, 2);
        assert!(matches!(
            world.get_chunk_mut(child, 1),
            Some(InWorldChunk::Loading)
        ));
    }
    // The node is split now, so a second split is refused.
    assert_eq!(detail_chunk(&mut world, pos, 0), None);
    // Children still loading cannot be split.
    assert_eq!(detail_chunk(&mut world, pos * 2, 1), None);
    // Missing regions cannot be split.
    assert_eq!(detail_chunk(&mut world, ChunkPos::new(9, 9, 9), 0), None);
}

#[test]
fn detailed_children_can_be_stored() {
    let mut world = GameWorld::new();
    let pos = ChunkPos::new(0, 0, 0);
    loaded_region(&mut world, pos, 1);
    detail_chunk(&mut world, pos, 0).unwrap();
    for i in 0..8 {
        let child = ChunkPos::from_index(i, 2);
        let c = ChunkPointer::new(Chunk::empty(), child, 1);
        assert!(world.update_chunk(c, Entity::from_raw(10 + i as u32)).is_ok());
    }
    let (c, e) = world.get_detailest_chunk(ChunkPos::new(31, 31, 31)).unwrap();
    assert_eq!(c.get_pos(), ChunkPos::new(1, 1, 1));
    assert_eq!(e, Entity::from_raw(17));
}

#[test]
fn unload_region_at_level_zero() {
    let mut world = GameWorld::new();
    let pos = ChunkPos::new(4, 0, 0);
    loaded_region(&mut world, pos, 3);
    match unload_chunk(&mut world, pos, 0) {
        UnloadAction::RegionRemoved(InWorldChunk::Loaded(_, e)) => {
            assert_eq!(e, Entity::from_raw(3))
        }
        v => panic!("region should have been removed: {:?}", v),
    }
    assert!(world.get_chunk(pos).is_none());
}

#[test]
fn unload_merges_loaded_children() {
    let mut world = GameWorld::new();
    let pos = ChunkPos::new(0, 0, 0);
    loaded_region(&mut world, pos, 1);
    detail_chunk(&mut world, pos, 0).unwrap();

    // A child still loading: nothing happens.
    assert!(matches!(
        unload_chunk(&mut world, ChunkPos::new(1, 0, 0), 1),
        UnloadAction::Skip
    ));

    for i in 0..8 {
        let child = ChunkPos::from_index(i, 2);
        let c = ChunkPointer::new(Chunk::empty(), child, 1);
        world.update_chunk(c, Entity::from_raw(20 + i as u32)).unwrap();
    }
    match unload_chunk(&mut world, ChunkPos::new(1, 0, 0), 1) {
        UnloadAction::Simplify {
            old_chunk,
            unloaded_chunks,
            parent_pos,
            parent_level,
        } => {
            assert!(matches!(old_chunk, InWorldChunk::SubChunks(_)));
            assert_eq!(unloaded_chunks.len(), 8);
            assert_eq!(unloaded_chunks[0], Entity::from_raw(20));
            assert_eq!(parent_pos, pos);
            assert_eq!(parent_level, 0);
        }
        v => panic!("children should have been merged: {:?}", v),
    }
    assert!(matches!(world.get_chunk(pos), Some(InWorldChunk::Loading)));
    // The parent is loading now: unloading a child again is skipped.
    assert!(matches!(
        unload_chunk(&mut world, ChunkPos::new(1, 0, 0), 1),
        UnloadAction::Skip
    ));
}

#[test]
fn region_loading_creates_missing_neighbors() {
    let mut world = GameWorld::new();
    let mut prev = PrevPlayerChunkPos::default().0;
    assert_eq!(prev, ChunkPos::new(1000, 1000, 1000));
    world.create_chunk(ChunkPos::new(0, 0, 0));

    let created = region_loading(&mut world, &mut prev, ChunkPos::new(5, 5, 5));
    assert_eq!(prev, ChunkPos::new(0, 0, 0));
    assert_eq!(created.len(), 26);
    assert_eq!(created[0], ChunkPos::new(-1, -1, -1));
    assert!(!created.contains(&ChunkPos::new(0, 0, 0)));
    for p in created.iter() {
        assert!(matches!(world.get_chunk(*p), Some(InWorldChunk::Loading)));
    }
    let mut around = ChunkPos::new(0, 0, 0).iter_neighbors(true);
    while let Some(p) = around.next() {
        assert!(world.get_chunk(p).is_some());
    }

    // Same region again: nothing to do.
    let again = region_loading(&mut world, &mut prev, ChunkPos::new(6, 6, 6));
    assert!(again.is_empty());

    // One region further: only the new layer is created.
    let moved = region_loading(&mut world, &mut prev, ChunkPos::new(40, 5, 5));
    assert_eq!(prev, ChunkPos::new(1, 0, 0));
    assert_eq!(moved.len(), 9);
    for p in moved.iter() {
        assert_eq!(p.x, 2);
    }
}

#[test]
fn distance_decides_detail_and_unload() {
    let player = ChunkPos::new(40, 0, 0);
    assert_eq!(distance_to_player(ChunkPos::new(1, 0, 0), 0, player), 0);
    assert_eq!(distance_to_player(ChunkPos::new(-2, 0, 3), 0, player), 3);
    assert!(needs_detail(ChunkPos::new(0, 0, 0), 0, player));
    assert!(!needs_detail(ChunkPos::new(3, 0, 0), 0, player));
    assert!(needs_unload(ChunkPos::new(7, 0, 0), 0, player));
    assert!(!needs_unload(ChunkPos::new(6, 0, 0), 0, player));
    assert_eq!(distance_to_player(ChunkPos::new(40, 0, -6), 5, player), 6);
    assert!(needs_unload(ChunkPos::new(40, 0, -6), 5, player));
}

#[test]
fn mining_reaches_loaded_real_chunks_in_order() {
    let mut world = GameWorld::new();
    // Nothing loaded: nothing to mine.
    assert!(real_chunks_to_mine(&world, ChunkPos::new(3, 3, 3)).is_empty());

    // A region whose finest chunks around (3, 3, 3) are all loaded.
    let region = ChunkPos::new(0, 0, 0);
    world.create_chunk(region);
    let mut around = Vec::new();
    for dz in -1..=1i64 {
        for dy in -1..=1i64 {
            for dx in -1..=1i64 {
                around.push(ChunkPos::new(3 + dx, 3 + dy, 3 + dz));
            }
        }
    }
    for target in around.iter() {
        for level in 0..GameWorld::MAX_DETAIL_LEVEL {
            let pos = GameWorld::level_pos_to_level_pos(*target, GameWorld::MAX_DETAIL_LEVEL, level);
            let node = world.get_chunk_mut(pos, level).unwrap();
            if matches!(node, InWorldChunk::Loading) {
                *node = InWorldChunk::SubChunks(vec![InWorldChunk::Loading; 8]);
            }
        }
    }
    // Load all but the last one.
    for target in around.iter().take(26) {
        let c = ChunkPointer::new(Chunk::empty(), *target, GameWorld::MAX_DETAIL_LEVEL);
        world.update_chunk(c, Entity::from_raw(0)).unwrap();
    }
    let found = real_chunks_to_mine(&world, ChunkPos::new(3, 3, 3));
    assert_eq!(found.len(), 26);
    for (i, (pos, chunk)) in found.iter().enumerate() {
        assert_eq!(*pos, around[i]);
        assert_eq!(chunk.get_pos(), around[i]);
    }
}

#[test]
fn region_loading_after_moving_back() {
    let mut world = GameWorld::new();
    let mut prev = ChunkPos::new(1, 0, 0);
    // The player's chunk lies in region (0, 0, 0), next to the stored region.
    let created = region_loading(&mut world, &mut prev, ChunkPos::new(3, 3, 3));
    assert_eq!(prev, ChunkPos::new(0, 0, 0));
    assert_eq!(created.len(), 27);
    assert!(matches!(world.get_chunk(ChunkPos::new(0, 0, 0)), Some(InWorldChunk::Loading)));
}
