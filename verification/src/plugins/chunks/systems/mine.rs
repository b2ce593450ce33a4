use crate::internal::chunks::in_world_chunk::ChunkTree;
use crate::internal::chunks::ChunkPointer;
use crate::internal::pos::{lemma_neighbors_walk, neighbors_slot, slot_offset, ChunkPos};
use crate::plugins::chunks::systems::loading::neighbor;
use crate::plugins::game_world::resources::{real_lookup_ok, real_node, GameWorld};
use vstd::prelude::*;

verus! {

/// The loaded chunk of the finest level at `pos`, if there is one.
pub open spec fn real_chunk_at(m: Map<ChunkPos, ChunkTree>, pos: ChunkPos) -> Option<ChunkPointer> {
    match real_node(m, pos) {
        Some(ChunkTree::Loaded(c, _)) => Some(c),
        _ => None,
    }
}

/// The chunks of the finest level that mining around the chunk `chunk_pos` reaches, with
/// their positions: the loaded chunks at the positions around `chunk_pos` (that one
/// included), in walk order, up to the first position that has none.
pub fn real_chunks_to_mine(world: &GameWorld, chunk_pos: ChunkPos) -> (r: Vec<(ChunkPos, ChunkPointer)>)
    requires
        i64::MIN < chunk_pos.x < i64::MAX,
        i64::MIN < chunk_pos.y < i64::MAX,
        i64::MIN < chunk_pos.z < i64::MAX,
        forall|k: int| 0 <= k < 27 ==> real_lookup_ok(world@, #[trigger] neighbor(chunk_pos, k)),
    ensures
        r@.len() <= 27,
        forall|i: int|
            0 <= i < r@.len() ==> (#[trigger] r@[i]).0 == neighbor(chunk_pos, i) && real_chunk_at(
                world@,
                r@[i].0,
            ) == Some(r@[i].1),
        r@.len() < 27 ==> real_chunk_at(world@, neighbor(chunk_pos, r@.len() as int)) is None,
{
    let mut result: Vec<(ChunkPos, ChunkPointer)> = Vec::new();
    let mut iter = chunk_pos.iter_neighbors(true);
    let ghost mut k: int = 0;
    proof {
        lemma_neighbors_walk(chunk_pos, true, 0);
    }
    loop
        invariant_except_break
            iter@ == (slot_offset(neighbors_slot(k, true)), chunk_pos, true),
        invariant
            0 <= k <= 27,
            i64::MIN < chunk_pos.x < i64::MAX,
            i64::MIN < chunk_pos.y < i64::MAX,
            i64::MIN < chunk_pos.z < i64::MAX,
            forall|j: int| 0 <= j < 27 ==> real_lookup_ok(world@, #[trigger] neighbor(chunk_pos, j)),
            result@.len() == k,
            forall|i: int|
                0 <= i < k ==> (#[trigger] result@[i]).0 == neighbor(chunk_pos, i) && real_chunk_at(
                    world@,
                    result@[i].0,
                ) == Some(result@[i].1),
        ensures
            result@.len() <= 27,
            forall|i: int|
                0 <= i < result@.len() ==> (#[trigger] result@[i]).0 == neighbor(chunk_pos, i)
                    && real_chunk_at(world@, result@[i].0) == Some(result@[i].1),
            result@.len() < 27 ==> real_chunk_at(world@, neighbor(chunk_pos, result@.len() as int))
                is None,
        decreases 27 - k,
    {
        proof {
            lemma_neighbors_walk(chunk_pos, true, k);
        }
        match iter.next() {
            Some(pos) => {
                proof {
                    assert(pos == neighbor(chunk_pos, k));
                    assert(real_lookup_ok(world@, neighbor(chunk_pos, k)));
                }
                let node = match world.get_real_chunk(pos) {
                    Some(node) => node,
                    None => {
                        break;
                    },
                };
                let chunk = match node.get_chunk() {
                    Some((chunk, _)) => chunk,
                    None => {
                        break;
                    },
                };
                result.push((pos, chunk));
                proof {
                    k = k + 1;
                }
            },
            None => {
                break;
            },
        }
    }
    result
}

} // verus!
