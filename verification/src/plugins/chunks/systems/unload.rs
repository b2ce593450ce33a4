use crate::internal::chunks::in_world_chunk::ChunkTree;
use crate::internal::chunks::InWorldChunk;
use crate::internal::pos::ChunkPos;
use crate::plugins::game_world::resources::{
    lemma_node_write_back, lemma_wf_set_node, node_at, node_path_ok, scale_down_spec, set_node,
    world_wf, GameWorld,
};
use bevy::ecs::entity::Entity;
use vstd::prelude::*;

verus! {

/// What unloading a chunk asks of the caller.
#[derive(Debug)]
pub enum UnloadAction {
    /// The region was taken out of the world; this was its tree.
    RegionRemoved(InWorldChunk),
    /// The chunk one level up, `parent_pos` at `parent_level`, now stands loading in place of
    /// `old_chunk`, its tree of sub chunks; the entities of the unloaded chunks are listed, and
    /// a less detailed chunk is to be made from the old tree.
    Simplify {
        old_chunk: InWorldChunk,
        unloaded_chunks: Vec<Entity>,
        parent_pos: ChunkPos,
        parent_level: usize,
    },
    /// The chunk one level up is already unloading, or one of its sub chunks is still
    /// loading: nothing was changed.
    Skip,
}

/// Makes the chunk `pos` of level `level` less detailed, or takes its region out of the
/// world where it has level 0.
///
/// At a level above 0 the chunk one level up (at `pos / 2`) is replaced by a single loading
/// chunk, provided all the chunks below it are loaded.
pub fn unload_chunk(world: &mut GameWorld, pos: ChunkPos, level: usize) -> (r: UnloadAction)
    requires
        level < 32,
        level == 0 ==> old(world).regions@.contains_key(pos),
        level > 0 ==> node_path_ok(old(world)@, scale_down_spec(pos, 2), (level - 1) as nat),
    ensures
        level == 0 ==> r == UnloadAction::RegionRemoved(old(world).regions@[pos])
            && final(world).regions@ == old(world).regions@.remove(pos),
        level > 0 ==> match node_at(old(world)@, scale_down_spec(pos, 2), (level - 1) as nat) {
            Some(t) => match crate::internal::chunks::in_world_chunk::scale_down_spec(t) {
                Some(entities) => r matches UnloadAction::Simplify {
                    old_chunk,
                    unloaded_chunks,
                    parent_pos,
                    parent_level,
                } && old_chunk@ == t && unloaded_chunks@ == entities && parent_pos == scale_down_spec(
                    pos,
                    2,
                ) && parent_level == level - 1 && final(world)@ == set_node(
                    old(world)@,
                    scale_down_spec(pos, 2),
                    (level - 1) as nat,
                    ChunkTree::Loading,
                ),
                None => r is Skip && final(world)@ == old(world)@,
            },
            None => r is Skip && final(world)@ == old(world)@,
        },
        world_wf(old(world)@) ==> world_wf(final(world)@),
{
    if level == 0 {
        return match world.remove_chunk(pos) {
            Some(region) => UnloadAction::RegionRemoved(region),
            None => UnloadAction::Skip,
        };
    }
    let parent_pos = GameWorld::scale_down_pos(pos, 2);
    let parent_level = level - 1;
    proof {
        if node_at(old(world)@, parent_pos, parent_level as nat) is Some {
            lemma_node_write_back(old(world)@, parent_pos, parent_level as nat);
            if world_wf(old(world)@) {
                lemma_wf_set_node(old(world)@, parent_pos, parent_level as nat, ChunkTree::Loading);
            }
        }
    }
    let chunk_to_simplify = match world.get_chunk_mut(parent_pos, parent_level) {
        Some(chunk) => chunk,
        None => {
            return UnloadAction::Skip;
        },
    };
    let unloaded_chunks = match chunk_to_simplify.scale_down() {
        Some(result) => result,
        None => {
            return UnloadAction::Skip;
        },
    };
    let old_chunk = chunk_to_simplify.clone();
    *chunk_to_simplify = InWorldChunk::Loading;
    UnloadAction::Simplify { old_chunk, unloaded_chunks, parent_pos, parent_level }
}

} // verus!
