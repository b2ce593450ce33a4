use bevy::ecs::entity::Entity;
use primitive_engineering::internal::chunks::{Chunk, ChunkPointer, InWorldChunk};
use primitive_engineering::internal::pos::{ChunkPos, VoxelPos};
use primitive_engineering::plugins::game_world::resources::{ChunkUpdateError, GameWorld};

fn test_subchunks(world: &mut GameWorld, pos: ChunkPos, layer: usize) {
    for i in 0..8 {
        let pos = pos * 2 + ChunkPos::from_index(i, 2);
        {
            let chunk = world.get_chunk_mut(pos, layer);

            assert_eq!(chunk.is_some(), true);

            let chunk = chunk.unwrap();

            match chunk {
                InWorldChunk::Loading => {}
                v => panic!("Chunk {:?}-{} should be loading {:?}", pos, layer, v),
            }

            *chunk = InWorldChunk::SubChunks(vec![InWorldChunk::Loading; 8]);
        }

        if layer < GameWorld::MAX_DETAIL_LEVEL {
            test_subchunks(world, pos, layer + 1);
        }
    }
}

#[test]
fn update_chunk() {
    let mut world = GameWorld::new();

    let pos = ChunkPos::new(-2, -2, -2);
    let level = 1;

    let in_world_pos = GameWorld::level_pos_to_level_pos(pos, level, 0);
    println!("in_world_pos: {:?}", in_world_pos);

    {
        let chunk_data = world.create_chunk(in_world_pos);
        assert!(chunk_data.is_some());
        let chunk = chunk_data.unwrap();

        *chunk = InWorldChunk::SubChunks(vec![InWorldChunk::Loading; 8]);
    }

    let chunk = ChunkPointer::new(Chunk::empty(), pos, level);
    let result = world.update_chunk(chunk, Entity::from_raw(0));

    assert!(
        result.is_ok(),
        "Failed to update chunk: {:?}",
        result.unwrap_err()
    );

    let chunk_data = world.get_chunk(in_world_pos);
    assert!(chunk_data.is_some(), "Failed to get chunk data");
}

#[test]
fn test_chunk_set_and_get() {
    let mut world = GameWorld::new();

    let in_world_pos = ChunkPos::new(-1, -1, -1);

    assert!(world.create_chunk(in_world_pos).is_some());

    {
        let chunk = world.get_chunk_mut(in_world_pos, 0).unwrap();
        match chunk {
            InWorldChunk::Loading => {}
            v => panic!("Chunk should be loading {:?}", v),
        }

        *chunk = InWorldChunk::SubChunks(vec![InWorldChunk::Loading; 8]);
    }

    test_subchunks(&mut world, in_world_pos, 1);
}

#[test]
fn test_level_transforms() {
    let base_pos = ChunkPos::new(-3, 113, 1024);
    assert_eq!(
        GameWorld::level_pos_to_level_pos(base_pos, 0, 0),
        base_pos,
        "Should be same"
    );

    let base_pos = ChunkPos::new(-1, 1, 1);
    assert_eq!(
        GameWorld::level_pos_to_level_pos(base_pos, 0, 1),
        base_pos * 2,
        "Should be 2x"
    );
    assert_eq!(
        GameWorld::level_pos_to_level_pos(base_pos, 1, 0),
        ChunkPos::new(-1, 0, 0),
        "Should be 1/2x"
    );

    assert_eq!(
        GameWorld::chunk_pos_to_region_pos(base_pos),
        ChunkPos::new(-1, 0, 0),
    );

    assert_eq!(
        GameWorld::normalize_chunk_pos_in_region(base_pos),
        VoxelPos::new(GameWorld::REGION_SIZE - 1, 1, 1),
    );
}

#[test]
fn level_scales() {
    assert_eq!(GameWorld::level_to_scale(0), 32);
    assert_eq!(GameWorld::level_to_scale(3), 4);
    assert_eq!(GameWorld::level_to_scale(5), 1);
    assert_eq!(GameWorld::REGION_VOLUME, 32 * 32 * 32);
}

#[test]
fn scale_down_rounds_towards_negative_infinity() {
    assert_eq!(GameWorld::scale_down_axis(-1, 2), -1);
    assert_eq!(GameWorld::scale_down_axis(-2, 2), -1);
    assert_eq!(GameWorld::scale_down_axis(-3, 2), -2);
    assert_eq!(GameWorld::scale_down_axis(5, 2), 2);
    assert_eq!(GameWorld::scale_down_axis(-33, 32), -2);
    assert_eq!(GameWorld::scale_down_axis(i64::MIN, 32), i64::MIN / 32);
    assert_eq!(
        GameWorld::scale_down_pos(ChunkPos::new(-1, 0, 31), 32),
        ChunkPos::new(-1, 0, 0)
    );
    assert_eq!(
        GameWorld::chunk_pos_to_level_pos(ChunkPos::new(-5, 9, 64), 2),
        ChunkPos::new(-1, 1, 8)
    );
}

#[test]
fn level_round_trip_through_finer_level() {
    let pos = ChunkPos::new(-7, 3, 100);
    for from in 0..=GameWorld::MAX_DETAIL_LEVEL {
        assert_eq!(GameWorld::level_pos_to_level_pos(pos, from, from), pos);
        for to in from..=GameWorld::MAX_DETAIL_LEVEL {
            let finer = GameWorld::level_pos_to_level_pos(pos, from, to);
            assert_eq!(GameWorld::level_pos_to_level_pos(finer, to, from), pos);
        }
    }
}

#[test]
fn region_and_position_in_region_rebuild_the_chunk() {
    for pos in [
        ChunkPos::new(-1, 1, 1),
        ChunkPos::new(-33, 64, 31),
        ChunkPos::new(0, -32, -64),
    ] {
        let region = GameWorld::chunk_pos_to_region_pos(pos);
        let inner = GameWorld::normalize_chunk_pos_in_region(pos);
        assert!(inner.x < 32 && inner.y < 32 && inner.z < 32);
        assert_eq!(
            region * 32 + ChunkPos::new(inner.x as i64, inner.y as i64, inner.z as i64),
            pos
        );
    }
}

#[test]
fn create_chunk_twice_is_refused() {
    let mut world = GameWorld::default();
    let pos = ChunkPos::new(3, 0, -2);
    assert!(world.get_chunk(pos).is_none());
    {
        let created = world.create_chunk(pos).unwrap();
        assert!(matches!(created, InWorldChunk::Loading));
    }
    assert!(matches!(world.get_chunk(pos), Some(InWorldChunk::Loading)));
    assert!(world.create_chunk(pos).is_none());
    assert!(world.get_chunk(ChunkPos::new(3, 0, -1)).is_none());
}

#[test]
fn remove_chunk_takes_the_region_out() {
    let mut world = GameWorld::new();
    let pos = ChunkPos::new(0, 0, 0);
    assert!(world.remove_chunk(pos).is_none());
    world.create_chunk(pos);
    assert!(matches!(world.remove_chunk(pos), Some(InWorldChunk::Loading)));
    assert!(world.get_chunk(pos).is_none());
    assert!(world.remove_chunk(pos).is_none());
}

#[test]
fn update_chunk_errors() {
    let mut world = GameWorld::new();
    let missing = ChunkPointer::new(Chunk::empty(), ChunkPos::new(5, 5, 5), 0);
    assert_eq!(
        world.update_chunk(missing, Entity::from_raw(1)).unwrap_err(),
        ChunkUpdateError::ChunkNotFound
    );

    let pos = ChunkPos::new(5, 5, 5);
    world.create_chunk(pos);
    let first = ChunkPointer::new(Chunk::empty(), pos, 0);
    assert!(world.update_chunk(first, Entity::from_raw(2)).is_ok());
    match world.get_chunk(pos) {
        Some(InWorldChunk::Loaded(c, e)) => {
            assert_eq!(c.get_pos(), pos);
            assert_eq!(*e, Entity::from_raw(2));
        }
        v => panic!("region should be loaded: {:?}", v),
    }
    let second = ChunkPointer::new(Chunk::empty(), pos, 0);
    assert_eq!(
        world.update_chunk(second, Entity::from_raw(3)).unwrap_err(),
        ChunkUpdateError::ChunkAlreadyLoaded
    );
    match world.get_chunk(pos) {
        Some(InWorldChunk::Loaded(_, e)) => assert_eq!(*e, Entity::from_raw(2)),
        v => panic!("region should still hold the first chunk: {:?}", v),
    }
}

#[test]
fn get_chunk_mut_below_a_loading_region_is_none() {
    let mut world = GameWorld::new();
    world.create_chunk(ChunkPos::new(0, 0, 0));
    assert!(world.get_chunk_mut(ChunkPos::new(1, 0, 0), 1).is_none());
    assert!(world.get_chunk_mut(ChunkPos::new(0, 0, 0), 0).is_some());
    assert!(world.get_chunk_mut(ChunkPos::new(2, 0, 0), 1).is_none());
}

#[test]
fn detailest_and_real_chunk_lookups() {
    let mut world = GameWorld::new();
    let region = ChunkPos::new(-1, 0, 0);
    world.create_chunk(region);
    assert!(world.get_detailest_chunk(ChunkPos::new(-5, 3, 3)).is_none());
    assert!(world.get_real_chunk(ChunkPos::new(-5, 3, 3)).is_none());

    let c = ChunkPointer::new(Chunk::empty(), region, 0);
    world.update_chunk(c, Entity::from_raw(9)).unwrap();
    let (found, e) = world.get_detailest_chunk(ChunkPos::new(-5, 3, 3)).unwrap();
    assert_eq!(found.get_pos(), region);
    assert_eq!(found.get_level(), 0);
    assert_eq!(e, Entity::from_raw(9));
    assert!(world.get_detailest_chunk(ChunkPos::new(5, 3, 3)).is_none());
    assert!(world.get_real_chunk(ChunkPos::new(-5, 3, 3)).is_none());
}

#[test]
fn real_chunk_is_found_at_the_finest_level() {
    let mut world = GameWorld::new();
    let region = ChunkPos::new(0, 0, 0);
    world.create_chunk(region);
    // Split the path to the finest chunk (3, 0, 0) all the way down.
    let target = ChunkPos::new(3, 0, 0);
    for level in 0..GameWorld::MAX_DETAIL_LEVEL {
        let pos = GameWorld::level_pos_to_level_pos(target, GameWorld::MAX_DETAIL_LEVEL, level);
        let node = world.get_chunk_mut(pos, level).unwrap();
        *node = InWorldChunk::SubChunks(vec![InWorldChunk::Loading; 8]);
    }
    let real = world.get_real_chunk(target);
    assert!(matches!(real, Some(InWorldChunk::Loading)));

    let c = ChunkPointer::new(Chunk::empty(), target, GameWorld::MAX_DETAIL_LEVEL);
    assert!(c.is_real());
    world.update_chunk(c, Entity::from_raw(4)).unwrap();
    match world.get_real_chunk(target) {
        Some(InWorldChunk::Loaded(c, e)) => {
            assert_eq!(c.get_pos(), target);
            assert_eq!(e, Entity::from_raw(4));
        }
        v => panic!("finest chunk should be loaded: {:?}", v),
    }
    let (c, _) = world.get_detailest_chunk(target).unwrap();
    assert_eq!(c.get_level(), GameWorld::MAX_DETAIL_LEVEL);
    assert!(world.get_detailest_chunk(ChunkPos::new(2, 0, 0)).is_none());
}

#[test]
fn region_and_offset_of_chunks() {
    let (region, offset) = GameWorld::region_and_offset(ChunkPos::new(-2, -2, -2), 1);
    assert_eq!(region, ChunkPos::new(-1, -1, -1));
    assert_eq!(offset, ChunkPos::new(0, 0, 0));
    let (region, offset) = GameWorld::region_and_offset(ChunkPos::new(5, -1, 64), 2);
    assert_eq!(region, ChunkPos::new(1, -1, 16));
    assert_eq!(offset, ChunkPos::new(1, 3, 0));
    let (region, offset) = GameWorld::region_and_offset(ChunkPos::new(7, 8, 9), 0);
    assert_eq!(region, ChunkPos::new(7, 8, 9));
    assert_eq!(offset, ChunkPos::new(0, 0, 0));
    let (region, offset) = GameWorld::region_and_offset(ChunkPos::new(-33, 70, 0), 5);
    assert_eq!(region, ChunkPos::new(-2, 2, 0));
    assert_eq!(offset, ChunkPos::new(31, 6, 0));
}

#[test]
fn positions_order_by_x_then_y_then_z() {
    let mut v = vec![
        ChunkPos::new(1, 0, 0),
        ChunkPos::new(0, 5, 5),
        ChunkPos::new(0, 5, -1),
        ChunkPos::new(-3, 9, 9),
    ];
    v.sort();
    assert_eq!(
        v,
        vec![
            ChunkPos::new(-3, 9, 9),
            ChunkPos::new(0, 5, -1),
            ChunkPos::new(0, 5, 5),
            ChunkPos::new(1, 0, 0)
        ]
    );
}

#[test]
fn writing_a_chunk_leaves_other_regions_alone() {
    let mut world = GameWorld::new();
    let a = ChunkPos::new(0, 0, 0);
    let b = ChunkPos::new(1, 0, 0);
    world.create_chunk(a);
    world.create_chunk(b);
    world
        .update_chunk(ChunkPointer::new(Chunk::empty(), a, 0), Entity::from_raw(1))
        .unwrap();
    assert!(matches!(world.get_chunk(b), Some(InWorldChunk::Loading)));
    world
        .update_chunk(ChunkPointer::new(Chunk::empty(), b, 0), Entity::from_raw(2))
        .unwrap();
    match world.get_chunk(a) {
        Some(InWorldChunk::Loaded(_, e)) => assert_eq!(*e, Entity::from_raw(1)),
        v => panic!("region a should be loaded: {:?}", v),
    }
}
