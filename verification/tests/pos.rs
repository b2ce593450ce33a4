use primitive_engineering::internal::direction::Direction;
use primitive_engineering::internal::pos::{ChunkPos, Pos, VoxelPos};

#[test]
pub fn test_direction() {
    let pos: ChunkPos = (1, 2, 3).into();
    assert_eq!(pos + Direction::UP, (1, 3, 3).into());
    assert_eq!(pos + Direction::DOWN, (1, 1, 3).into());
    assert_eq!(pos + Direction::WEST, (0, 2, 3).into());
    assert_eq!(pos + Direction::EAST, (2, 2, 3).into());
    assert_eq!(pos + Direction::NORTH, (1, 2, 2).into());
    assert_eq!(pos + Direction::SOUTH, (1, 2, 4).into());
}

#[test]
fn test_voxel_pos_index() {
    let pos: VoxelPos = Pos::new(1, 2, 3);
    let size = 16;
    assert_eq!(VoxelPos::from_index(pos.to_index(size), size), pos);
}

#[test]
fn to_index_formula() {
    let pos: VoxelPos = Pos::new(1, 2, 3);
    assert_eq!(pos.to_index(16), 1 + 2 * 16 + 3 * 256);
    assert_eq!(pos.to_index_rect(Pos::new(4, 5, 1)), 1 + 2 * 4 + 3 * 20);
    assert_eq!(VoxelPos::from_index_rect(1 + 2 * 4 + 3 * 20, Pos::new(4, 5, 1)), pos);
    assert_eq!(VoxelPos::from_index_2d(7, 3), Pos::new(1, 0, 2));
}

#[test]
fn chunk_pos_from_index() {
    assert_eq!(ChunkPos::from_index(5, 2), Pos::new(1, 0, 1));
    assert_eq!(ChunkPos::from_index(7, 2), Pos::new(1, 1, 1));
    assert_eq!(ChunkPos::from_index(0, 2), ChunkPos::zero());
}

#[test]
fn chebyshev_distance() {
    assert_eq!(ChunkPos::new(-3, 2, 1).dist(), 3);
    assert_eq!(ChunkPos::new(0, 0, -7).dist(), 7);
    assert_eq!(ChunkPos::zero().dist(), 0);
}

#[test]
fn arithmetic_on_positions() {
    let a = ChunkPos::new(1, -2, 3);
    let b = ChunkPos::new(4, 5, -6);
    assert_eq!(a + b, ChunkPos::new(5, 3, -3));
    assert_eq!(a - b, ChunkPos::new(-3, -7, 9));
    assert_eq!(a * b, ChunkPos::new(4, -10, -18));
    assert_eq!(a * 3, ChunkPos::new(3, -6, 9));
    let v: VoxelPos = Pos::new(7, 8, 9);
    assert_eq!(v / 2, Pos::new(3, 4, 4));
    assert_eq!(v * 2, Pos::new(14, 16, 18));
    assert_eq!(v - Pos::new(1, 2, 3), Pos::new(6, 6, 6));
    let from_dir: ChunkPos = Direction::NORTH.into();
    assert_eq!(from_dir, ChunkPos::new(0, 0, -1));
}

#[test]
fn opposite_direction_is_involution() {
    for i in 0..Direction::COUNT {
        let d = Direction::try_from(i).unwrap();
        assert_eq!(d.opposite().opposite(), d);
        let p: ChunkPos = d.into();
        let q: ChunkPos = d.opposite().into();
        assert_eq!(p + q, ChunkPos::zero());
    }
    assert_eq!(Direction::UP.opposite(), Direction::DOWN);
    assert_eq!(Direction::X, Direction::EAST);
    assert_eq!(Direction::Z_NEG, Direction::NORTH);
}

#[test]
fn direction_from_out_of_range_index_is_error() {
    assert_eq!(Direction::try_from(6), Err(()));
    assert_eq!(Direction::try_from(4), Ok(Direction::NORTH));
}

#[test]
fn iter_map_visits_directions_in_order() {
    let offsets = Direction::iter_map(|d| {
        let p: ChunkPos = d.into();
        p
    });
    assert_eq!(offsets[0], ChunkPos::new(0, 1, 0));
    assert_eq!(offsets[2], ChunkPos::new(-1, 0, 0));
    assert_eq!(offsets[5], ChunkPos::new(0, 0, 1));
}

#[test]
fn box_iterator_walks_in_index_order() {
    let mut it = ChunkPos::iter(ChunkPos::new(2, 1, 2));
    let mut seen = Vec::new();
    while let Some(p) = it.next() {
        seen.push(p);
    }
    assert_eq!(seen.len(), 4);
    for (i, p) in seen.iter().enumerate() {
        assert_eq!(*p, ChunkPos::from_index_rect(i, Pos::new(2, 1, 2)));
    }
    let mut it = VoxelPos::iter(VoxelPos::new(3, 3, 3));
    let mut count = 0;
    while let Some(p) = it.next() {
        assert_eq!(p.to_index(3), count);
        count += 1;
    }
    assert_eq!(count, 27);
}

#[test]
fn neighbors_cover_the_cube() {
    let center = ChunkPos::new(10, -5, 0);
    let mut it = center.iter_neighbors(true);
    let mut seen = Vec::new();
    while let Some(p) = it.next() {
        seen.push(p);
    }
    assert_eq!(seen.len(), 27);
    assert_eq!(seen[0], ChunkPos::new(9, -6, -1));
    assert_eq!(seen[13], center);
    assert_eq!(seen[26], ChunkPos::new(11, -4, 1));
    for p in seen.iter() {
        assert!((*p - center).dist() <= 1);
    }

    let mut it = center.iter_neighbors(false);
    let mut count = 0;
    while let Some(p) = it.next() {
        assert_ne!(p, center);
        count += 1;
    }
    assert_eq!(count, 26);
}

#[test]
fn around_iterator_stays_in_radius() {
    let start = ChunkPos::new(0, 0, 0);
    let mut it = start.iter_around(2);
    let mut count = 0;
    while let Some(p) = it.next() {
        let d = p - start;
        assert!(d.x.abs().max(d.z.abs()) < 2);
        count += 1;
    }
    assert!(count > 0);
    assert!(it.is_done());
}

#[test]
fn around_iterator_visits_each_column_cell_once_ring_by_ring() {
    let start = ChunkPos::new(10, -3, 7);
    let radius: i64 = 2;
    let mut it = start.iter_around(radius as usize);
    let mut seen: Vec<ChunkPos> = Vec::new();
    let mut last_ring = 0;
    while let Some(p) = it.next() {
        let d = p - start;
        let ring = d.x.abs().max(d.z.abs());
        assert!(ring >= last_ring);
        last_ring = ring;
        assert!(!seen.contains(&d));
        seen.push(d);
    }
    // ring 0: one column of 5 cells (y from -1 to 3); ring 1: 8 columns of 5 cells (y from -2 to 2)
    assert_eq!(seen.len(), 45);
    assert_eq!(seen[0], ChunkPos::new(0, -1, 0));
    assert_eq!(seen[4], ChunkPos::new(0, 3, 0));
    assert_eq!(seen[5], ChunkPos::new(0, -2, 1));
    assert_eq!(seen[44], ChunkPos::new(-1, 2, 1));
    for x in -1..=1i64 {
        for z in -1..=1i64 {
            let ring = x.abs().max(z.abs());
            let (low, high) = if ring == 0 { (-1, 3) } else { (-2, 2) };
            for y in low..=high {
                assert!(seen.contains(&ChunkPos::new(x, y, z)));
            }
        }
    }
    assert!(it.is_done());
    assert_eq!(it.next(), None);
    assert_eq!(it.next(), None);
}

#[test]
fn around_iterator_of_radius_zero_is_empty() {
    let mut it = ChunkPos::new(1, 1, 1).iter_around(0);
    assert_eq!(it.next(), None);
    assert!(it.is_done());
}
