use crate::internal::chunks::InWorldChunk;
use crate::internal::pos::{lemma_neighbors_walk, neighbors_slot, slot_offset, ChunkPos, Pos};
use crate::plugins::game_world::resources::{
    floor_div, lemma_floor_multiple, scale_down_spec, world_wf, GameWorld,
};
use vstd::prelude::*;

verus! {

/// The region seen by the last region loading.
pub struct PrevPlayerChunkPos(pub ChunkPos);

impl Default for PrevPlayerChunkPos {
    /// Before the first update, a region far from the start of the world.
    fn default() -> (r: Self)
        ensures
            r.0 == (Pos::<i64> { x: 1000, y: 1000, z: 1000 }),
    {
        Self(Pos::new(1000, 1000, 1000))
    }
}

/// Item `k` of the walk over the 27 positions around `center`, the center included.
pub open spec fn neighbor(center: ChunkPos, k: int) -> ChunkPos {
    let off = slot_offset(k);
    Pos {
        x: (center.x + off.x) as i64,
        y: (center.y + off.y) as i64,
        z: (center.z + off.z) as i64,
    }
}

/// The 27 positions around `center`, the center included, `x` running fastest.
pub open spec fn neighbors_seq(center: ChunkPos) -> Seq<ChunkPos> {
    Seq::new(27, |k: int| neighbor(center, k))
}

/// The regions that the world `before` lacks among those around `center`, in walk order.
pub open spec fn missing_regions(before: Map<ChunkPos, InWorldChunk>, center: ChunkPos) -> Seq<ChunkPos> {
    neighbors_seq(center).filter(|p: ChunkPos| !before.contains_key(p))
}

/// The world `before` with each region of `created` added, still loading.
pub open spec fn with_loading_regions(before: Map<ChunkPos, InWorldChunk>, created: Seq<ChunkPos>) -> Map<
    ChunkPos,
    InWorldChunk,
> {
    Map::new(
        |p: ChunkPos| before.contains_key(p) || created.contains(p),
        |p: ChunkPos|
            if before.contains_key(p) {
                before[p]
            } else {
                InWorldChunk::Loading
            },
    )
}

/// Different items of the walk around a center are different positions.
proof fn lemma_neighbor_distinct(center: ChunkPos, a: int, b: int)
    requires
        0 <= a < 27,
        0 <= b < 27,
        a != b,
        i64::MIN < center.x < i64::MAX,
        i64::MIN < center.y < i64::MAX,
        i64::MIN < center.z < i64::MAX,
    ensures
        neighbor(center, a) != neighbor(center, b),
{
    assert(slot_offset(a) != slot_offset(b));
}

/// A region position is well inside the `i64` range.
proof fn lemma_region_in_range(v: int)
    requires
        i64::MIN <= v <= i64::MAX,
    ensures
        i64::MIN < floor_div(v, 32) < i64::MAX,
{
    lemma_floor_multiple(v, 32, 0x0400_0000_0000_0000);
}

/// Loads the regions around the player: when the player's chunk has moved to another
/// region since the last call, every region around the new one (that one included) that
/// the world lacks is created, still loading.
///
/// `prev_player_chunk_pos` holds the region seen by the last call. Returns the regions
/// created, in walk order, for the caller to generate.
#[verifier::spinoff_prover]
pub fn region_loading(
    world: &mut GameWorld,
    prev_player_chunk_pos: &mut ChunkPos,
    player_chunk_pos: ChunkPos,
) -> (r: Vec<ChunkPos>)
    ensures
        ({
            let pos = scale_down_spec(player_chunk_pos, 32);
            if pos == *old(prev_player_chunk_pos) {
                &&& r@.len() == 0
                &&& *final(prev_player_chunk_pos) == *old(prev_player_chunk_pos)
                &&& final(world).regions@ == old(world).regions@
            } else {
                &&& r@ == missing_regions(old(world).regions@, pos)
                &&& *final(prev_player_chunk_pos) == pos
                &&& final(world).regions@ == with_loading_regions(old(world).regions@, r@)
            }
        }),
        world_wf(old(world)@) ==> world_wf(final(world)@),
{
    let pos = GameWorld::chunk_pos_to_level_pos(player_chunk_pos, 0);
    if pos == *prev_player_chunk_pos {
        return Vec::new();
    }
    *prev_player_chunk_pos = pos;
    proof {
        lemma_region_in_range(player_chunk_pos.x as int);
        lemma_region_in_range(player_chunk_pos.y as int);
        lemma_region_in_range(player_chunk_pos.z as int);
    }
    let ghost before = world.regions@;
    let ghost pred = |p: ChunkPos| !before.contains_key(p);
    let mut created: Vec<ChunkPos> = Vec::new();
    let mut iter = pos.iter_neighbors(true);
    let ghost mut k: int = 0;
    proof {
        lemma_neighbors_walk(pos, true, 0);
        assert(neighbors_seq(pos).take(0) =~= Seq::<ChunkPos>::empty());
        reveal(Seq::filter);
        assert(world.regions@ =~= with_loading_regions(before, created@));
    }
    loop
        invariant
            0 <= k <= 27,
            i64::MIN < pos.x < i64::MAX,
            i64::MIN < pos.y < i64::MAX,
            i64::MIN < pos.z < i64::MAX,
            iter@ == (slot_offset(neighbors_slot(k, true)), pos, true),
            pred == (|p: ChunkPos| !before.contains_key(p)),
            created@ == neighbors_seq(pos).take(k).filter(pred),
            world.regions@ == with_loading_regions(before, created@),
            world_wf(old(world)@) ==> world_wf(world@),
        ensures
            k == 27,
            created@ == neighbors_seq(pos).take(27).filter(pred),
            world.regions@ == with_loading_regions(before, created@),
            world_wf(old(world)@) ==> world_wf(world@),
        decreases 27 - k,
    {
        proof {
            lemma_neighbors_walk(pos, true, k);
        }
        match iter.next() {
            Some(n) => {
                let ghost old_created = created@;
                proof {
                    assert(n == neighbor(pos, k));
                    assert forall|i: int| 0 <= i < old_created.len() implies old_created[i] != n by {
                        let t = neighbors_seq(pos).take(k);
                        t.lemma_filter_contains_rev(pred, old_created[i]);
                        assert(old_created.contains(old_created[i]));
                        let j = choose|j: int| 0 <= j < t.len() && t[j] == old_created[i];
                        lemma_neighbor_distinct(pos, j, k);
                    }
                    assert(!old_created.contains(n));
                    assert(world.regions@.contains_key(n) == before.contains_key(n));
                }
                let ghost mid = world.regions@;
                match world.create_chunk(n) {
                    Some(_) => {
                        created.push(n);
                    },
                    None => {},
                }
                proof {
                    if created@.len() > old_created.len() {
                        assert(!mid.contains_key(n));
                        assert(world.regions@ == mid.insert(n, InWorldChunk::Loading));
                        assert(created@ == old_created.push(n));
                        broadcast use vstd::seq_lib::lemma_seq_contains_after_push;
                        assert(world.regions@ =~= with_loading_regions(before, created@));
                    } else {
                        assert(world.regions@ == mid);
                    }
                }
                proof {
                    let t1 = neighbors_seq(pos).take(k + 1);
                    assert(t1.drop_last() =~= neighbors_seq(pos).take(k));
                    assert(t1.last() == n);
                    reveal(Seq::filter);
                    assert(created@ == t1.filter(pred));
                    assert(world.regions@ =~= with_loading_regions(before, created@));
                    k = k + 1;
                }
            },
            None => {
                break;
            },
        }
    }
    proof {
        assert(neighbors_seq(pos).take(27) =~= neighbors_seq(pos));
    }
    created
}


/// After loading, every region around the center is in the world: the ones it had keep
/// their trees, the others are loading.
pub proof fn lemma_regions_loaded_around(before: Map<ChunkPos, InWorldChunk>, center: ChunkPos, k: int)
    requires
        0 <= k < 27,
    ensures
        with_loading_regions(before, missing_regions(before, center)).contains_key(neighbor(center, k)),
        before.contains_key(neighbor(center, k)) ==> with_loading_regions(
            before,
            missing_regions(before, center),
        )[neighbor(center, k)] == before[neighbor(center, k)],
        !before.contains_key(neighbor(center, k)) ==> with_loading_regions(
            before,
            missing_regions(before, center),
        )[neighbor(center, k)] == InWorldChunk::Loading,
{
    let pred = |p: ChunkPos| !before.contains_key(p);
    let n = neighbor(center, k);
    if !before.contains_key(n) {
        assert(neighbors_seq(center)[k] == n);
        neighbors_seq(center).lemma_filter_contains(pred, k);
    }
}

} // verus!
