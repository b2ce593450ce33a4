use super::Chunk;
use crate::internal::pos::ChunkPos;
use crate::plugins::game_world::resources::GameWorld;
use std::sync::{Arc, Mutex, MutexGuard, TryLockError};
use vstd::prelude::*;

verus! {

#[verifier::external_type_specification]
#[verifier::external_body]
#[verifier::reject_recursive_types(T)]
pub struct ExMutex<T: ?Sized>(Mutex<T>);

#[verifier::external_type_specification]
#[verifier::external_body]
#[verifier::reject_recursive_types(T)]
pub struct ExMutexGuard<'a, T: ?Sized + 'a>(MutexGuard<'a, T>);

/// `std::sync::Mutex::new`: wraps the chunk in a fresh mutex. The mutex is opaque, so
/// nothing is stated of the result.
#[verifier::external_body]
fn new_mutex(chunk: Chunk) -> (r: Mutex<Chunk>) {
    Mutex::new(chunk)
}

/// `Arc::clone`: the clone is a second handle to the same shared mutex, so it equals the
/// handle it was made from.
#[verifier::external_body]
fn clone_shared(chunk: &Arc<Mutex<Chunk>>) -> (r: Arc<Mutex<Chunk>>)
    ensures
        r == *chunk,
{
    Arc::clone(chunk)
}

/// A chunk shared between the world tree and the workers, with its position and level
/// of detail.
#[derive(Debug)]
pub struct ChunkPointer {
    chunk: Arc<Mutex<Chunk>>,
    pos: ChunkPos,
    level: usize,
}

impl ChunkPointer {
    pub closed spec fn pos_of(&self) -> ChunkPos {
        self.pos
    }

    pub closed spec fn level_of(&self) -> usize {
        self.level
    }

    pub fn new(chunk: Chunk, pos: ChunkPos, detail_level: usize) -> (r: Self)
        ensures
            r.pos_of() == pos,
            r.level_of() == detail_level,
    {
        Self { chunk: Arc::new(new_mutex(chunk)), pos, level: detail_level }
    }

    /// A chunk of the finest level holds real voxels.
    pub fn is_real(&self) -> (r: bool)
        ensures
            r == (self.level_of() == GameWorld::MAX_DETAIL_LEVEL),
    {
        self.level == GameWorld::MAX_DETAIL_LEVEL
    }

    /// `std::sync::Mutex::try_lock`: exclusive access to the chunk, or `None` while the chunk
    /// is locked, by this thread or another. A lock left poisoned by a panicking thread is
    /// taken over. The call never blocks and never panics; the guard is opaque, and whether
    /// the chunk is free is not stated.
    #[verifier::external_body]
    pub fn lock(&self) -> Option<MutexGuard<'_, Chunk>> {
        match self.chunk.try_lock() {
            Ok(guard) => Some(guard),
            Err(TryLockError::Poisoned(poisoned)) => Some(poisoned.into_inner()),
            Err(TryLockError::WouldBlock) => None,
        }
    }

    pub fn get_level(&self) -> (r: usize)
        ensures
            r == self.level_of(),
    {
        self.level
    }

    pub fn get_pos(&self) -> (r: ChunkPos)
        ensures
            r == self.pos_of(),
    {
        self.pos
    }

    /// `std::sync::Mutex::try_lock`, then the save flag of the chunk; `None` while the chunk
    /// is locked, by this thread or another. A poisoned lock is taken over. The call never
    /// blocks and never panics; the flag is shared with other threads, so nothing is stated
    /// of the result.
    #[verifier::external_body]
    pub fn is_need_save(&self) -> Option<bool> {
        match self.chunk.try_lock() {
            Ok(guard) => Some(guard.need_save),
            Err(TryLockError::Poisoned(poisoned)) => Some(poisoned.into_inner().need_save),
            Err(TryLockError::WouldBlock) => None,
        }
    }
}

impl Clone for ChunkPointer {
    /// A second handle to the same chunk.
    fn clone(&self) -> (r: Self)
        ensures
            r == *self,
    {
        ChunkPointer { chunk: clone_shared(&self.chunk), pos: self.pos, level: self.level }
    }
}

} // verus!
