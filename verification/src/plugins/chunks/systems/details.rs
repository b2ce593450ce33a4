use crate::internal::chunks::in_world_chunk::{child_index, is_corner, tree_wf, ChunkTree};
use crate::internal::chunks::InWorldChunk;
use crate::internal::pos::{in_i64, ChunkPos, Pos, VoxelPos};
use crate::plugins::game_world::resources::{
    child_chunk, lemma_node_child, lemma_node_read_after_write, lemma_node_write_back, level_scale,
    lemma_wf_set_node, node_at, node_path_ok, scale_down_spec, set_node, world_wf, GameWorld,
};
use vstd::prelude::*;

verus! {

/// Eight sub chunks, all still loading.
pub open spec fn loading_children() -> ChunkTree {
    ChunkTree::SubChunks(Seq::new(8, |i: int| ChunkTree::Loading))
}

/// Splits the loaded chunk `pos` of level `level` into eight chunks of the next level, all
/// still loading.
///
/// Returns `None`, and changes nothing, where the world has no node for that chunk or the
/// node is not a loaded chunk (it is still loading, or already split).
pub fn detail_chunk(world: &mut GameWorld, pos: ChunkPos, level: usize) -> (r: Option<()>)
    requires
        level < GameWorld::MAX_DETAIL_LEVEL,
        node_path_ok(old(world)@, pos, level as nat),
    ensures
        match node_at(old(world)@, pos, level as nat) {
            Some(ChunkTree::Loaded(_, _)) => r is Some && final(world)@ == set_node(
                old(world)@,
                pos,
                level as nat,
                loading_children(),
            ),
            _ => r is None && final(world)@ == old(world)@,
        },
        world_wf(old(world)@) ==> world_wf(final(world)@),
{
    proof {
        if node_at(old(world)@, pos, level as nat) is Some {
            lemma_node_write_back(old(world)@, pos, level as nat);
            if world_wf(old(world)@) {
                let s = Seq::new(8, |i: int| ChunkTree::Loading);
                assert forall|i: int| 0 <= i < 8 implies tree_wf(#[trigger] s[i], level + 1) by {
                    assert(s[i] == ChunkTree::Loading);
                }
                assert(tree_wf(loading_children(), level as int));
                lemma_wf_set_node(old(world)@, pos, level as nat, loading_children());
            }
        }
    }
    let chunk_cell = match world.get_chunk_mut(pos, level) {
        Some(c) => c,
        None => {
            return None;
        },
    };
    match chunk_cell {
        InWorldChunk::Loaded(_, _) => {},
        _ => {
            return None;
        },
    }
    let mut sub_chunks: Vec<InWorldChunk> = Vec::new();
    let mut i: usize = 0;
    while i < 8
        invariant
            i <= 8,
            sub_chunks@.len() == i,
            forall|j: int| 0 <= j < i ==> (#[trigger] sub_chunks@[j])@ == ChunkTree::Loading,
        decreases 8 - i,
    {
        sub_chunks.push(InWorldChunk::Loading);
        i += 1;
    }
    let new_chunk = InWorldChunk::SubChunks(sub_chunks);
    proof {
        if let ChunkTree::SubChunks(a) = new_chunk@ {
            assert(a =~= Seq::new(8, |i: int| ChunkTree::Loading));
        }
    }
    *chunk_cell = new_chunk;
    Some(())
}

/// Once `detail_chunk` has split the chunk `pos` of level `level`, each chunk `2 pos + c` of
/// the next level is found still loading, on a complete path.
pub proof fn lemma_detailed_children_loading(m: Map<ChunkPos, ChunkTree>, pos: ChunkPos, level: nat, c: VoxelPos)
    requires
        node_at(m, pos, level) is Some,
        node_path_ok(m, pos, level),
        is_corner(c),
        level + 1 < 31,
        in_i64(2 * pos.x),
        in_i64(2 * pos.y),
        in_i64(2 * pos.z),
        in_i64(2 * pos.x + 1),
        in_i64(2 * pos.y + 1),
        in_i64(2 * pos.z + 1),
    ensures
        node_at(set_node(m, pos, level, loading_children()), child_chunk(pos, c), level + 1) == Some(
            ChunkTree::Loading,
        ),
        node_path_ok(set_node(m, pos, level, loading_children()), child_chunk(pos, c), level + 1),
{
    let m2 = set_node(m, pos, level, loading_children());
    lemma_node_read_after_write(m, pos, level, loading_children());
    let s = Seq::new(8, |i: int| ChunkTree::Loading);
    assert(child_index(c) == c.x + c.y * 2 + c.z * 4) by (nonlinear_arith)
        requires
            child_index(c) == c.x + c.y * 2 + c.z * 2 * 2,
    ;
    lemma_node_child(m2, pos, level, c, s);
}

/// The Chebyshev distance, in chunks of level `level`, from the chunk `pos` to the chunk of
/// that level that holds the player's chunk.
pub open spec fn player_distance(pos: ChunkPos, level: int, player_chunk_pos: ChunkPos) -> int {
    let p = scale_down_spec(player_chunk_pos, level_scale(level));
    Pos::<i64> {
        x: (pos.x - p.x) as i64,
        y: (pos.y - p.y) as i64,
        z: (pos.z - p.z) as i64,
    }.dist_spec()
}

/// The distance to the player fits the computation: each coordinate difference lies strictly
/// inside the `i64` range.
pub open spec fn player_distance_fits(pos: ChunkPos, level: int, player_chunk_pos: ChunkPos) -> bool {
    let p = scale_down_spec(player_chunk_pos, level_scale(level));
    &&& i64::MIN < pos.x - p.x <= i64::MAX
    &&& i64::MIN < pos.y - p.y <= i64::MAX
    &&& i64::MIN < pos.z - p.z <= i64::MAX
}

/// The Chebyshev distance, in chunks of level `level`, from the chunk `pos` to the chunk of
/// that level that holds the player's chunk.
pub fn distance_to_player(pos: ChunkPos, level: usize, player_chunk_pos: ChunkPos) -> (r: i64)
    requires
        level <= GameWorld::MAX_DETAIL_LEVEL,
        player_distance_fits(pos, level as int, player_chunk_pos),
    ensures
        r == player_distance(pos, level as int, player_chunk_pos),
{
    let scaled_player_pos = GameWorld::chunk_pos_to_level_pos(player_chunk_pos, level);
    (pos - scaled_player_pos).dist()
}

/// A chunk close enough to the player is split into more detailed chunks.
pub fn needs_detail(pos: ChunkPos, level: usize, player_chunk_pos: ChunkPos) -> (r: bool)
    requires
        level <= GameWorld::MAX_DETAIL_LEVEL,
        player_distance_fits(pos, level as int, player_chunk_pos),
    ensures
        r == (player_distance(pos, level as int, player_chunk_pos) <= 1),
{
    distance_to_player(pos, level, player_chunk_pos) <= GameWorld::MIN_DETAILS_DIST as i64
}

/// A chunk far enough from the player is merged into a less detailed one, or unloaded.
pub fn needs_unload(pos: ChunkPos, level: usize, player_chunk_pos: ChunkPos) -> (r: bool)
    requires
        level <= GameWorld::MAX_DETAIL_LEVEL,
        player_distance_fits(pos, level as int, player_chunk_pos),
    ensures
        r == (player_distance(pos, level as int, player_chunk_pos) > 5),
{
    distance_to_player(pos, level, player_chunk_pos) > GameWorld::MAX_DETAILS_DIST as i64
}

/// No chunk is at once to be detailed and to be unloaded.
pub proof fn lemma_detail_excludes_unload(pos: ChunkPos, level: int, player_chunk_pos: ChunkPos)
    ensures
        !(player_distance(pos, level, player_chunk_pos) <= 1 && player_distance(
            pos,
            level,
            player_chunk_pos,
        ) > 5),
{
}

} // verus!
