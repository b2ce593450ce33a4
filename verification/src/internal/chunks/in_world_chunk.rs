use super::pointer::ChunkPointer;
use super::Chunk;
use crate::internal::pos::{lemma_position_round_trip, rect_index, ChunkPos, Pos, VoxelPos};
use crate::plugins::game_world::resources::{level_scale, GameWorld};
use bevy::ecs::entity::Entity;
use std::sync::MutexGuard;
use vstd::arithmetic::power2::pow2;
use vstd::prelude::*;

verus! {

#[verifier::external_type_specification]
#[verifier::external_body]
pub struct ExEntity(Entity);

/// A node of the level-of-detail tree of a region: a chunk still loading, a loaded chunk
/// with the entity that shows it, or the eight chunks of the next level.
#[derive(Debug)]
pub enum InWorldChunk {
    Loading,
    Loaded(ChunkPointer, Entity),
    SubChunks(Vec<InWorldChunk>),
}

/// The mathematical model of [`InWorldChunk`].
pub enum ChunkTree {
    Loading,
    Loaded(ChunkPointer, Entity),
    SubChunks(Seq<ChunkTree>),
}

impl InWorldChunk {
    pub open spec fn view(&self) -> ChunkTree
        decreases self,
    {
        match self {
            InWorldChunk::Loading => ChunkTree::Loading,
            InWorldChunk::Loaded(c, e) => ChunkTree::Loaded(*c, *e),
            InWorldChunk::SubChunks(v) => ChunkTree::SubChunks(
                Seq::new(
                    v@.len(),
                    |i: int|
                        if 0 <= i < v@.len() {
                            v@[i].view()
                        } else {
                            ChunkTree::Loading
                        },
                ),
            ),
        }
    }
}

/// Index of a child in the list of eight sub chunks.
pub open spec fn child_index(p: VoxelPos) -> int {
    rect_index(p.x as int, p.y as int, p.z as int, 2, 2)
}

/// `p` divided by `s` in each coordinate.
pub open spec fn div_pos(p: VoxelPos, s: int) -> VoxelPos {
    Pos { x: (p.x as int / s) as usize, y: (p.y as int / s) as usize, z: (p.z as int / s) as usize }
}

/// `p` modulo `s` in each coordinate.
pub open spec fn mod_pos(p: VoxelPos, s: int) -> VoxelPos {
    Pos { x: (p.x as int % s) as usize, y: (p.y as int % s) as usize, z: (p.z as int % s) as usize }
}

/// The loaded chunk of the most detailed level that covers `pos`, walking down from a node
/// of level `level` whose extent is `level_scale(level)` finest chunks.
pub open spec fn detailest_spec(t: ChunkTree, pos: VoxelPos, level: int) -> Option<(ChunkPointer, Entity)>
    decreases t,
{
    match t {
        ChunkTree::Loading => None,
        ChunkTree::Loaded(c, e) => Some((c, e)),
        ChunkTree::SubChunks(s) => {
            let ns = level_scale(level + 1);
            let i = child_index(div_pos(pos, ns));
            if 0 <= i < s.len() {
                detailest_spec(s[i], mod_pos(pos, ns), level + 1)
            } else {
                None
            }
        },
    }
}

/// The walk of [`detailest_spec`] stays above the finest level and finds every child it
/// looks for.
pub open spec fn detailest_ok(t: ChunkTree, pos: VoxelPos, level: int) -> bool
    decreases t,
{
    match t {
        ChunkTree::SubChunks(s) => {
            let ns = level_scale(level + 1);
            let i = child_index(div_pos(pos, ns));
            &&& 0 <= level < 5
            &&& i <= usize::MAX
            &&& 0 <= i < s.len()
            &&& detailest_ok(s[i], mod_pos(pos, ns), level + 1)
        },
        _ => true,
    }
}

impl Default for InWorldChunk {
    fn default() -> (r: Self)
        ensures
            r@ == ChunkTree::Loading,
    {
        InWorldChunk::Loading
    }
}

impl Clone for InWorldChunk {
    fn clone(&self) -> (r: Self)
        ensures
            r@ == self@,
        decreases self,
    {
        match self {
            InWorldChunk::Loading => InWorldChunk::Loading,
            InWorldChunk::Loaded(c, e) => InWorldChunk::Loaded(c.clone(), *e),
            InWorldChunk::SubChunks(v) => {
                let mut out: Vec<InWorldChunk> = Vec::new();
                let mut i: usize = 0;
                while i < v.len()
                    invariant
                        *self == InWorldChunk::SubChunks(*v),
                        i <= v@.len(),
                        out@.len() == i,
                        forall|j: int| 0 <= j < i ==> (#[trigger] out@[j])@ == v@[j]@,
                    decreases v@.len() - i,
                {
                    proof {
                        vstd::std_specs::vec::axiom_vec_index_decreases(*v, i as int);
                        assert(decreases_to!(*self => self->SubChunks_0));
                    }
                    let c = v[i].clone();
                    out.push(c);
                    i += 1;
                }
                let r = InWorldChunk::SubChunks(out);
                proof {
                    if let ChunkTree::SubChunks(a) = r@ {
                        if let ChunkTree::SubChunks(b) = self@ {
                            assert(a =~= b);
                        }
                    }
                }
                r
            },
        }
    }
}

impl InWorldChunk {
    /// get chunk pointer by relative pos if chunk is loaded
    pub fn get_chunk(&self) -> (r: Option<(ChunkPointer, Entity)>)
        ensures
            r == match self@ {
                ChunkTree::Loaded(c, e) => Some((c, e)),
                _ => None,
            },
    {
        match self {
            Self::Loaded(chunk, entity) => Some((chunk.clone(), *entity)),
            _ => None,
        }
    }

    /// get sub chunk on max detail level possible for given relative pos
    pub fn get_detailest_chunk(&self, pos: VoxelPos, current_level: usize) -> (r: Option<
        (&ChunkPointer, Entity),
    >)
        requires
            detailest_ok(self@, pos, current_level as int),
        ensures
            match r {
                Some((c, e)) => detailest_spec(self@, pos, current_level as int) == Some((*c, e)),
                None => detailest_spec(self@, pos, current_level as int) is None,
            },
        decreases self,
    {
        match self {
            Self::Loading => None,
            Self::Loaded(c, e) => Some((c, *e)),
            Self::SubChunks(sub_chunks) => {
                let next_scale = GameWorld::level_to_scale(current_level + 1);
                let sub_pos = pos / next_scale;
                proof {
                    assert(div_pos(pos, next_scale as int) == sub_pos);
                    lemma_child_index_parts(sub_pos);
                    lemma_mod_pos(pos, next_scale as int);
                }
                let in_chunk_pos = pos - sub_pos * next_scale;
                proof {
                    assert(in_chunk_pos == mod_pos(pos, next_scale as int));
                }
                let index = sub_pos.to_index(2);
                proof {
                    vstd::std_specs::vec::axiom_vec_index_decreases(*sub_chunks, index as int);
                    assert(decreases_to!(*self => self->SubChunks_0));
                    assert(self@->SubChunks_0[index as int] == sub_chunks@[index as int]@);
                }
                let sub_chunk = &sub_chunks[index];
                sub_chunk.get_detailest_chunk(in_chunk_pos, current_level + 1)
            },
        }
    }

    pub fn get_chunk_mut(&mut self) -> (r: Option<&mut ChunkPointer>)
        ensures
            match r {
                Some(c) => match *old(self) {
                    InWorldChunk::Loaded(c0, e) => *c == c0 && *final(self) == InWorldChunk::Loaded(
                        *final(c),
                        e,
                    ),
                    _ => false,
                },
                None => !(*old(self) is Loaded) && *final(self) == *old(self),
            },
    {
        match self {
            Self::Loaded(chunk, _) => Some(chunk),
            _ => None,
        }
    }
}

/// The entities of the loaded leaves under a node, in order; `None` when some leaf is still
/// loading.
pub open spec fn leaves(t: ChunkTree) -> Option<Seq<Entity>>
    decreases t, 0nat,
{
    match t {
        ChunkTree::Loading => None,
        ChunkTree::Loaded(_, e) => Some(seq![e]),
        ChunkTree::SubChunks(s) => leaves_seq(s, s.len()),
    }
}

/// The entities of the loaded leaves under the first `n` nodes of `s`.
pub open spec fn leaves_seq(s: Seq<ChunkTree>, n: nat) -> Option<Seq<Entity>>
    decreases s, n,
{
    if n == 0 || n > s.len() {
        Some(Seq::empty())
    } else {
        match leaves_seq(s, (n - 1) as nat) {
            Some(a) => match leaves(s[n - 1]) {
                Some(b) => Some(a + b),
                None => None,
            },
            None => None,
        }
    }
}

/// What scaling a node down releases: the entities of all loaded leaves under its sub chunks.
pub open spec fn scale_down_spec(t: ChunkTree) -> Option<Seq<Entity>> {
    match t {
        ChunkTree::SubChunks(_) => leaves(t),
        _ => None,
    }
}

/// Number of sub chunk levels under a node.
pub open spec fn height(t: ChunkTree) -> nat
    decreases t, 0nat,
{
    match t {
        ChunkTree::SubChunks(s) => 1 + height_seq(s, s.len()),
        _ => 0,
    }
}

/// The largest height among the first `n` nodes of `s`.
pub open spec fn height_seq(s: Seq<ChunkTree>, n: nat) -> nat
    decreases s, n,
{
    if n == 0 || n > s.len() {
        0
    } else {
        let a = height_seq(s, (n - 1) as nat);
        let b = height(s[n - 1]);
        if a >= b {
            a
        } else {
            b
        }
    }
}

/// The chunks of the finest level under a node of level `level`, in order.
pub open spec fn finest_chunks(t: ChunkTree, level: int) -> Seq<ChunkPointer>
    decreases t, 0nat,
{
    match t {
        ChunkTree::Loading => Seq::empty(),
        ChunkTree::Loaded(c, _) => if level == 5 {
            seq![c]
        } else {
            Seq::empty()
        },
        ChunkTree::SubChunks(s) => finest_chunks_seq(s, s.len(), level + 1),
    }
}

/// The chunks of the finest level under the first `n` nodes of `s`, all of level `level`.
pub open spec fn finest_chunks_seq(s: Seq<ChunkTree>, n: nat, level: int) -> Seq<ChunkPointer>
    decreases s, n,
{
    if n == 0 || n > s.len() {
        Seq::empty()
    } else {
        finest_chunks_seq(s, (n - 1) as nat, level) + finest_chunks(s[n - 1], level)
    }
}

/// What one child contributes when its parent is scaled down: the entity of a loaded
/// child, all that scaling a split child down releases, nothing (`None`) for a child still
/// loading.
pub open spec fn released_by_child(c: ChunkTree) -> Option<Seq<Entity>> {
    match c {
        ChunkTree::Loading => None,
        ChunkTree::Loaded(_, e) => Some(seq![e]),
        ChunkTree::SubChunks(_) => scale_down_spec(c),
    }
}

/// Scaling down a node of eight sub chunks releases, child by child in order, the entity of
/// each loaded child and everything that scaling down each split child releases (so the
/// loaded leaves of nested splits count too); it fails exactly where some child is still
/// loading or some split child cannot be scaled down. A node that is not split cannot be
/// scaled down.
pub proof fn lemma_scale_down_children(s: Seq<ChunkTree>, c: ChunkPointer, e: Entity)
    requires
        s.len() == 8,
    ensures
        scale_down_spec(ChunkTree::Loading) is None,
        scale_down_spec(ChunkTree::Loaded(c, e)) is None,
        (forall|i: int| 0 <= i < 8 ==> (#[trigger] released_by_child(s[i])) is Some) ==> scale_down_spec(
            ChunkTree::SubChunks(s),
        ) == Some(released_by_child(s[0])->0 + released_by_child(s[1])->0 + released_by_child(s[2])->0 + released_by_child(s[3])->0 + released_by_child(s[4])->0 + released_by_child(s[5])->0 + released_by_child(s[6])->0 + released_by_child(s[7])->0),
        (exists|i: int| 0 <= i < 8 && (#[trigger] released_by_child(s[i])) is None) ==> scale_down_spec(
            ChunkTree::SubChunks(s),
        ) is None,
{
    assert forall|i: int| 0 <= i < 8 implies #[trigger] released_by_child(s[i]) == leaves(s[i]) by {
        match s[i] {
            ChunkTree::Loading => {},
            ChunkTree::Loaded(_, _) => {},
            ChunkTree::SubChunks(_) => {},
        }
    }
    let t = ChunkTree::SubChunks(s);
    assert(scale_down_spec(t) == leaves_seq(s, 8));
    let r = |i: int| released_by_child(s[i]);
    assert(leaves_seq(s, 0) == Some(Seq::<Entity>::empty()));
    assert(r(0) == leaves(s[0]));
    assert(r(1) == leaves(s[1]));
    assert(r(2) == leaves(s[2]));
    assert(r(3) == leaves(s[3]));
    assert(r(4) == leaves(s[4]));
    assert(r(5) == leaves(s[5]));
    assert(r(6) == leaves(s[6]));
    assert(r(7) == leaves(s[7]));
    if forall|i: int| 0 <= i < 8 ==> (#[trigger] released_by_child(s[i])) is Some {
        assert(r(0) is Some && r(1) is Some && r(2) is Some && r(3) is Some);
        assert(r(4) is Some && r(5) is Some && r(6) is Some && r(7) is Some);
        assert(leaves_seq(s, 1) == Some(Seq::<Entity>::empty() + r(0)->0));
        assert(Seq::<Entity>::empty() + r(0)->0 =~= r(0)->0);
        assert(leaves_seq(s, 2) == Some(r(0)->0 + r(1)->0));
        assert(leaves_seq(s, 3) == Some(r(0)->0 + r(1)->0 + r(2)->0));
        assert(leaves_seq(s, 4) == Some(r(0)->0 + r(1)->0 + r(2)->0 + r(3)->0));
        assert(leaves_seq(s, 5) == Some(r(0)->0 + r(1)->0 + r(2)->0 + r(3)->0 + r(4)->0));
        assert(leaves_seq(s, 6) == Some(r(0)->0 + r(1)->0 + r(2)->0 + r(3)->0 + r(4)->0 + r(5)->0));
        assert(leaves_seq(s, 7) == Some(
            r(0)->0 + r(1)->0 + r(2)->0 + r(3)->0 + r(4)->0 + r(5)->0 + r(6)->0,
        ));
        assert(leaves_seq(s, 8) == Some(
            r(0)->0 + r(1)->0 + r(2)->0 + r(3)->0 + r(4)->0 + r(5)->0 + r(6)->0 + r(7)->0,
        ));
    }
    if exists|i: int| 0 <= i < 8 && (#[trigger] released_by_child(s[i])) is None {
        let i = choose|i: int| 0 <= i < 8 && (#[trigger] released_by_child(s[i])) is None;
        assert(leaves(s[i]) is None);
        assert(leaves_seq(s, (i + 1) as nat) is None);
        lemma_leaves_seq_none(s, (i + 1) as nat, 8);
    }
}

/// The chunks of the finest level under a node of eight sub chunks are, child by child in
/// order, the chunks of the finest level under each child one level down, split children
/// included; a loaded chunk is one of them exactly at the finest level, a chunk still
/// loading holds none.
pub proof fn lemma_finest_chunks_children(s: Seq<ChunkTree>, level: int, c: ChunkPointer, e: Entity)
    requires
        s.len() == 8,
    ensures
        finest_chunks(ChunkTree::Loading, level) == Seq::<ChunkPointer>::empty(),
        finest_chunks(ChunkTree::Loaded(c, e), GameWorld::MAX_DETAIL_LEVEL as int) == seq![c],
        level != GameWorld::MAX_DETAIL_LEVEL ==> finest_chunks(ChunkTree::Loaded(c, e), level)
            == Seq::<ChunkPointer>::empty(),
        finest_chunks(ChunkTree::SubChunks(s), level) == finest_chunks(s[0], level + 1) + finest_chunks(s[1], level + 1) + finest_chunks(s[2], level + 1) + finest_chunks(s[3], level + 1) + finest_chunks(s[4], level + 1) + finest_chunks(s[5], level + 1) + finest_chunks(s[6], level + 1) + finest_chunks(s[7], level + 1),
{
    let f = |i: int| finest_chunks(s[i], level + 1);
    assert(finest_chunks_seq(s, 0, level + 1) == Seq::<ChunkPointer>::empty());
    assert(finest_chunks_seq(s, 1, level + 1) == Seq::<ChunkPointer>::empty() + f(0));
    assert(Seq::<ChunkPointer>::empty() + f(0) =~= f(0));
    assert(finest_chunks_seq(s, 2, level + 1) == f(0) + f(1));
    assert(finest_chunks_seq(s, 3, level + 1) == f(0) + f(1) + f(2));
    assert(finest_chunks_seq(s, 4, level + 1) == f(0) + f(1) + f(2) + f(3));
    assert(finest_chunks_seq(s, 5, level + 1) == f(0) + f(1) + f(2) + f(3) + f(4));
    assert(finest_chunks_seq(s, 6, level + 1) == f(0) + f(1) + f(2) + f(3) + f(4) + f(5));
    assert(finest_chunks_seq(s, 7, level + 1) == f(0) + f(1) + f(2) + f(3) + f(4) + f(5) + f(6));
    assert(finest_chunks_seq(s, 8, level + 1) == f(0) + f(1) + f(2) + f(3) + f(4) + f(5) + f(6) + f(7));
}

/// Once a prefix has a loading leaf, every longer prefix has one too.
proof fn lemma_leaves_seq_none(s: Seq<ChunkTree>, i: nat, n: nat)
    requires
        0 < i <= n <= s.len(),
        leaves_seq(s, i) is None,
    ensures
        leaves_seq(s, n) is None,
    decreases n - i,
{
    if i < n {
        lemma_leaves_seq_none(s, i, (n - 1) as nat);
    }
}

proof fn lemma_height_seq_bound(s: Seq<ChunkTree>, n: nat, i: int)
    requires
        0 <= i < n <= s.len(),
    ensures
        height(s[i]) <= height_seq(s, n),
    decreases n,
{
    if i < n - 1 {
        lemma_height_seq_bound(s, (n - 1) as nat, i);
    }
}

impl InWorldChunk {
    /// The entities of the loaded leaves under this node.
    fn leaf_entities(&self) -> (r: Option<Vec<Entity>>)
        ensures
            match r {
                Some(v) => leaves(self@) == Some(v@),
                None => leaves(self@) is None,
            },
        decreases self,
    {
        match self {
            Self::Loading => None,
            Self::Loaded(_, entity) => {
                let mut v = Vec::new();
                v.push(*entity);
                proof {
                    assert(v@ =~= seq![*entity]);
                }
                Some(v)
            },
            Self::SubChunks(sub_chunks) => {
                let ghost s = self@->SubChunks_0;
                let mut result: Vec<Entity> = Vec::new();
                let mut i: usize = 0;
                while i < sub_chunks.len()
                    invariant
                        *self == InWorldChunk::SubChunks(*sub_chunks),
                        s == self@->SubChunks_0,
                        s.len() == sub_chunks@.len(),
                        i <= s.len(),
                        leaves_seq(s, i as nat) == Some(result@),
                    decreases sub_chunks@.len() - i,
                {
                    proof {
                        vstd::std_specs::vec::axiom_vec_index_decreases(*sub_chunks, i as int);
                        assert(decreases_to!(*self => self->SubChunks_0));
                        assert(s[i as int] == sub_chunks@[i as int]@);
                    }
                    match sub_chunks[i].leaf_entities() {
                        Some(mut list) => {
                            result.append(&mut list);
                        },
                        None => {
                            proof {
                                assert(leaves_seq(s, (i + 1) as nat) is None);
                                lemma_leaves_seq_none(s, (i + 1) as nat, s.len());
                            }
                            return None;
                        },
                    }
                    i += 1;
                }
                Some(result)
            },
        }
    }

    /// Collects the entities of all loaded leaves under these sub chunks, so that the node can
    /// be replaced by a single less detailed chunk.
    ///
    /// Returns `None` when the node has no sub chunks or when one of the leaves is still
    /// loading.
    pub fn scale_down(&mut self) -> (r: Option<Vec<Entity>>)
        ensures
            *final(self) == *old(self),
            match r {
                Some(v) => scale_down_spec(old(self)@) == Some(v@),
                None => scale_down_spec(old(self)@) is None,
            },
    {
        match self {
            Self::SubChunks(_) => self.leaf_entities(),
            _ => None,
        }
    }

    /// get all sub chunks on max detail level possible for given relative pos
    pub fn get_sub_chunks(&self, current_level: usize) -> (r: Vec<ChunkPointer>)
        requires
            current_level + height(self@) <= usize::MAX,
        ensures
            r@ == finest_chunks(self@, current_level as int),
        decreases self,
    {
        let mut result = Vec::new();
        match self {
            Self::Loading => result,
            Self::Loaded(c, _) => {
                if current_level == GameWorld::MAX_DETAIL_LEVEL {
                    result.push(c.clone());
                }
                proof {
                    assert(result@ =~= finest_chunks(self@, current_level as int));
                }
                result
            },
            Self::SubChunks(sub_chunks) => {
                let ghost s = self@->SubChunks_0;
                let mut i: usize = 0;
                while i < sub_chunks.len()
                    invariant
                        *self == InWorldChunk::SubChunks(*sub_chunks),
                        s == self@->SubChunks_0,
                        s.len() == sub_chunks@.len(),
                        i <= s.len(),
                        current_level + 1 + height_seq(s, s.len()) <= usize::MAX,
                        result@ == finest_chunks_seq(s, i as nat, current_level + 1),
                    decreases sub_chunks@.len() - i,
                {
                    proof {
                        vstd::std_specs::vec::axiom_vec_index_decreases(*sub_chunks, i as int);
                        assert(decreases_to!(*self => self->SubChunks_0));
                        assert(s[i as int] == sub_chunks@[i as int]@);
                        lemma_height_seq_bound(s, s.len(), i as int);
                    }
                    let mut sub_result = sub_chunks[i].get_sub_chunks(current_level + 1);
                    result.append(&mut sub_result);
                    i += 1;
                }
                result
            },
        }
    }
}

/// The node `level + 1` levels below, on the way to `pos`: each step down picks the child
/// at `pos / 2^level` and keeps `pos % 2^level`.
pub open spec fn sub_chunk_spec(t: ChunkTree, pos: VoxelPos, level: nat) -> Option<ChunkTree>
    decreases t,
{
    match t {
        ChunkTree::SubChunks(s) => {
            let sc = pow2(level) as int;
            let i = child_index(div_pos(pos, sc));
            if 0 <= i < s.len() {
                if level == 0 {
                    Some(s[i])
                } else {
                    sub_chunk_spec(s[i], mod_pos(pos, sc), (level - 1) as nat)
                }
            } else {
                None
            }
        },
        _ => None,
    }
}

/// The walk of [`sub_chunk_spec`] finds every child it looks for, and its shifts fit a `usize`.
pub open spec fn sub_chunk_ok(t: ChunkTree, pos: VoxelPos, level: nat) -> bool
    decreases t,
{
    match t {
        ChunkTree::SubChunks(s) => {
            let sc = pow2(level) as int;
            let i = child_index(div_pos(pos, sc));
            &&& level < usize::BITS
            &&& i <= usize::MAX
            &&& 0 <= i < s.len()
            &&& (level > 0 ==> sub_chunk_ok(s[i], mod_pos(pos, sc), (level - 1) as nat))
        },
        _ => true,
    }
}

/// The tree `t` with the node found by [`sub_chunk_spec`] replaced by `new`.
pub open spec fn replace_sub_chunk(t: ChunkTree, pos: VoxelPos, level: nat, new: ChunkTree) -> ChunkTree
    decreases t,
{
    match t {
        ChunkTree::SubChunks(s) => {
            let sc = pow2(level) as int;
            let i = child_index(div_pos(pos, sc));
            if 0 <= i < s.len() {
                if level == 0 {
                    ChunkTree::SubChunks(s.update(i, new))
                } else {
                    ChunkTree::SubChunks(
                        s.update(i, replace_sub_chunk(s[i], mod_pos(pos, sc), (level - 1) as nat, new)),
                    )
                }
            } else {
                t
            }
        },
        _ => t,
    }
}

/// A node written with [`replace_sub_chunk`] is what [`sub_chunk_spec`] finds there
/// afterwards.
pub proof fn lemma_sub_chunk_read_after_write(t: ChunkTree, pos: VoxelPos, level: nat, new: ChunkTree)
    requires
        sub_chunk_spec(t, pos, level) is Some,
    ensures
        sub_chunk_spec(replace_sub_chunk(t, pos, level, new), pos, level) == Some(new),
    decreases t,
{
    if let ChunkTree::SubChunks(s) = t {
        let sc = pow2(level) as int;
        let i = child_index(div_pos(pos, sc));
        if level > 0 {
            lemma_sub_chunk_read_after_write(s[i], mod_pos(pos, sc), (level - 1) as nat, new);
        }
    }
}

/// Writing back the node that [`sub_chunk_spec`] finds leaves the tree as it was.
pub proof fn lemma_sub_chunk_write_back(t: ChunkTree, pos: VoxelPos, level: nat)
    requires
        sub_chunk_spec(t, pos, level) is Some,
    ensures
        replace_sub_chunk(t, pos, level, sub_chunk_spec(t, pos, level)->0) == t,
    decreases t,
{
    if let ChunkTree::SubChunks(s) = t {
        let sc = pow2(level) as int;
        let i = child_index(div_pos(pos, sc));
        if level > 0 {
            lemma_sub_chunk_write_back(s[i], mod_pos(pos, sc), (level - 1) as nat);
        }
        let old_child = s[i];
        let new_child = if level == 0 {
            sub_chunk_spec(t, pos, level)->0
        } else {
            replace_sub_chunk(s[i], mod_pos(pos, sc), (level - 1) as nat, sub_chunk_spec(t, pos, level)->0)
        };
        assert(new_child == old_child);
        assert(s.update(i, new_child) =~= s);
    }
}

/// Replacing the node that a lookup finds keeps the path to it complete.
pub proof fn lemma_sub_chunk_ok_after_write(t: ChunkTree, pos: VoxelPos, level: nat, new: ChunkTree)
    requires
        sub_chunk_ok(t, pos, level),
        sub_chunk_spec(t, pos, level) is Some,
    ensures
        sub_chunk_ok(replace_sub_chunk(t, pos, level, new), pos, level),
    decreases t,
{
    if let ChunkTree::SubChunks(s) = t {
        let sc = pow2(level) as int;
        let i = child_index(div_pos(pos, sc));
        if level > 0 {
            lemma_sub_chunk_ok_after_write(s[i], mod_pos(pos, sc), (level - 1) as nat, new);
        }
    }
}

/// The position `2 q + c` of a corner `c` of the cell `q`, one level further down.
pub open spec fn child_of(q: VoxelPos, c: VoxelPos) -> VoxelPos {
    Pos { x: (2 * q.x + c.x) as usize, y: (2 * q.y + c.y) as usize, z: (2 * q.z + c.z) as usize }
}

/// Whether `c` is a corner offset: each coordinate 0 or 1.
pub open spec fn is_corner(c: VoxelPos) -> bool {
    c.x <= 1 && c.y <= 1 && c.z <= 1
}

/// For a corner offset `c` of 0 or 1, `2 q + c` divided by `2 d` is `q / d`, with remainder
/// `2 (q % d) + c`.
pub proof fn lemma_double_div_mod(q: int, c: int, d: int)
    requires
        0 <= c <= 1,
        d > 0,
    ensures
        (2 * q + c) / (2 * d) == q / d,
        (2 * q + c) % (2 * d) == 2 * (q % d) + c,
{
    vstd::arithmetic::div_mod::lemma_fundamental_div_mod(q, d);
    let a = q / d;
    let r = q % d;
    assert(2 * q + c == a * (2 * d) + (2 * r + c)) by (nonlinear_arith)
        requires
            q == d * a + r,
    ;
    vstd::arithmetic::div_mod::lemma_fundamental_div_mod_converse(2 * q + c, 2 * d, a, 2 * r + c);
}

/// One step down from `child_of(q, c)` picks the same child as from `q`, and keeps
/// `child_of` of what `q` keeps.
proof fn lemma_child_step(q: VoxelPos, c: VoxelPos, l: nat)
    requires
        is_corner(c),
        2 * q.x + 1 <= usize::MAX,
        2 * q.y + 1 <= usize::MAX,
        2 * q.z + 1 <= usize::MAX,
    ensures
        pow2(l + 1) == 2 * pow2(l),
        pow2(l) > 0,
        div_pos(child_of(q, c), pow2(l + 1) as int) == div_pos(q, pow2(l) as int),
        mod_pos(child_of(q, c), pow2(l + 1) as int) == child_of(mod_pos(q, pow2(l) as int), c),
        mod_pos(q, pow2(l) as int).x <= q.x,
        mod_pos(q, pow2(l) as int).y <= q.y,
        mod_pos(q, pow2(l) as int).z <= q.z,
{
    vstd::arithmetic::power2::lemma_pow2_unfold(l + 1);
    vstd::arithmetic::power2::lemma_pow2_pos(l);
    let d = pow2(l) as int;
    lemma_double_div_mod(q.x as int, c.x as int, d);
    lemma_double_div_mod(q.y as int, c.y as int, d);
    lemma_double_div_mod(q.z as int, c.z as int, d);
    vstd::arithmetic::div_mod::lemma_mod_decreases(q.x as nat, d as nat);
    vstd::arithmetic::div_mod::lemma_mod_decreases(q.y as nat, d as nat);
    vstd::arithmetic::div_mod::lemma_mod_decreases(q.z as nat, d as nat);
}

/// Below a node of sub chunks found `l + 1` levels down at `q`, the node found `l + 2`
/// levels down at `2 q + c` is its child `c`, and the path to it stays complete.
pub proof fn lemma_sub_chunk_child(t: ChunkTree, q: VoxelPos, l: nat, c: VoxelPos, s: Seq<ChunkTree>)
    requires
        sub_chunk_spec(t, q, l) == Some(ChunkTree::SubChunks(s)),
        is_corner(c),
        child_index(c) < s.len(),
        2 * q.x + 1 <= usize::MAX,
        2 * q.y + 1 <= usize::MAX,
        2 * q.z + 1 <= usize::MAX,
    ensures
        sub_chunk_spec(t, child_of(q, c), l + 1) == Some(s[child_index(c)]),
        sub_chunk_ok(t, q, l) && l + 1 < usize::BITS ==> sub_chunk_ok(t, child_of(q, c), l + 1),
    decreases t,
{
    if let ChunkTree::SubChunks(u) = t {
        lemma_child_step(q, c, l);
        lemma_child_index_parts(c);
        let qm = mod_pos(q, pow2(l) as int);
        let i = child_index(div_pos(q, pow2(l) as int));
        assert(0 <= i < u.len());
        if l == 0 {
            vstd::arithmetic::power2::lemma2_to64();
            assert(qm == (Pos::<usize> { x: 0, y: 0, z: 0 }));
            assert(child_of(qm, c) == c);
            assert(pow2(0) == 1);
            assert(c.x / 1 == c.x && c.y / 1 == c.y && c.z / 1 == c.z);
            assert(div_pos(c, pow2(0) as int) == c);
            assert(u[i] == ChunkTree::SubChunks(s));
            assert(sub_chunk_spec(u[i], c, 0) == Some(s[child_index(c)]));
            assert(sub_chunk_ok(u[i], c, 0));
        } else {
            assert(sub_chunk_spec(t, q, l) == sub_chunk_spec(u[i], qm, (l - 1) as nat));
            lemma_sub_chunk_child(u[i], qm, (l - 1) as nat, c, s);
            assert(sub_chunk_ok(t, q, l) ==> sub_chunk_ok(u[i], qm, (l - 1) as nat));
        }
        assert(sub_chunk_spec(t, child_of(q, c), l + 1) == sub_chunk_spec(u[i], child_of(qm, c), l));
    }
}

/// A well-formed tree whose root sits at level `level`: every list of sub chunks holds
/// eight, and no chunk of the finest level is split.
pub open spec fn tree_wf(t: ChunkTree, level: int) -> bool
    decreases t,
{
    match t {
        ChunkTree::SubChunks(s) => {
            &&& 0 <= level < 5
            &&& s.len() == 8
            &&& forall|i: int| 0 <= i < 8 ==> tree_wf(#[trigger] s[i], level + 1)
        },
        _ => true,
    }
}

/// `x / d <= 1` for `0 <= x < 2 d`.
proof fn lemma_div_below_double(x: int, d: int)
    requires
        d > 0,
        0 <= x < 2 * d,
    ensures
        0 <= x / d <= 1,
        0 <= x % d < d,
{
    vstd::arithmetic::div_mod::lemma_fundamental_div_mod(x, d);
    let q = x / d;
    let r = x % d;
    assert(0 <= r < d);
    assert(0 <= q <= 1) by (nonlinear_arith)
        requires
            x == d * q + r,
            0 <= r < d,
            0 <= x < 2 * d,
            d > 0,
    ;
}

/// In a well-formed tree, a walk down `k + 1` levels at a position inside the node finds
/// every child it looks for.
pub proof fn lemma_wf_sub_chunk_ok(t: ChunkTree, q: VoxelPos, k: nat, level: int)
    requires
        tree_wf(t, level),
        k + 1 < 32,
        q.x < pow2(k + 1),
        q.y < pow2(k + 1),
        q.z < pow2(k + 1),
    ensures
        sub_chunk_ok(t, q, k),
    decreases t,
{
    if let ChunkTree::SubChunks(s) = t {
        vstd::arithmetic::power2::lemma_pow2_unfold(k + 1);
        vstd::arithmetic::power2::lemma_pow2_pos(k);
        let d = pow2(k) as int;
        lemma_div_below_double(q.x as int, d);
        lemma_div_below_double(q.y as int, d);
        lemma_div_below_double(q.z as int, d);
        let c = div_pos(q, d);
        lemma_child_index_parts(c);
        let i = child_index(c);
        assert(0 <= i < 8);
        if k > 0 {
            let qm = mod_pos(q, d);
            vstd::arithmetic::power2::lemma_pow2_unfold(k);
            assert(pow2(((k - 1) as nat + 1) as nat) == d);
            lemma_wf_sub_chunk_ok(s[i], qm, (k - 1) as nat, level + 1);
        }
    }
}

/// In a well-formed tree, the walk of `detailest_spec` from a position inside the node
/// stays above the finest level and finds every child it looks for.
pub proof fn lemma_wf_detailest_ok(t: ChunkTree, pos: VoxelPos, level: int)
    requires
        tree_wf(t, level),
        0 <= level <= 5,
        pos.x < level_scale(level),
        pos.y < level_scale(level),
        pos.z < level_scale(level),
    ensures
        detailest_ok(t, pos, level),
    decreases t,
{
    if let ChunkTree::SubChunks(s) = t {
        let ns = level_scale(level + 1);
        assert(level_scale(level) == 2 * ns && ns > 0);
        lemma_div_below_double(pos.x as int, ns);
        lemma_div_below_double(pos.y as int, ns);
        lemma_div_below_double(pos.z as int, ns);
        let c = div_pos(pos, ns);
        lemma_child_index_parts(c);
        let i = child_index(c);
        assert(0 <= i < 8);
        lemma_wf_detailest_ok(s[i], mod_pos(pos, ns), level + 1);
    }
}

/// Replacing a node found by `sub_chunk_spec` with a well-formed tree of its level keeps the
/// tree well-formed.
pub proof fn lemma_wf_replace(t: ChunkTree, q: VoxelPos, k: nat, level: int, new: ChunkTree)
    requires
        tree_wf(t, level),
        sub_chunk_spec(t, q, k) is Some,
        tree_wf(new, level + k + 1),
    ensures
        tree_wf(replace_sub_chunk(t, q, k, new), level),
    decreases t,
{
    if let ChunkTree::SubChunks(s) = t {
        let sc = pow2(k) as int;
        let i = child_index(div_pos(q, sc));
        let child = if k == 0 {
            new
        } else {
            lemma_wf_replace(s[i], mod_pos(q, sc), (k - 1) as nat, level + 1, new);
            replace_sub_chunk(s[i], mod_pos(q, sc), (k - 1) as nat, new)
        };
        let u = s.update(i, child);
        assert forall|j: int| 0 <= j < 8 implies tree_wf(#[trigger] u[j], level + 1) by {
            if j != i {
                assert(u[j] == s[j]);
            }
        }
        assert(replace_sub_chunk(t, q, k, new) == ChunkTree::SubChunks(u));
    }
}

/// Replacing one child of a list of sub chunks replaces that child in the model.
proof fn lemma_view_update(v: Vec<InWorldChunk>, i: int)
    requires
        0 <= i < v@.len(),
    ensures
        forall|w: Vec<InWorldChunk>|
            w@ == v@.update(i, w@[i]) ==> #[trigger] InWorldChunk::SubChunks(w)@ == ChunkTree::SubChunks(
                InWorldChunk::SubChunks(v)@->SubChunks_0.update(i, w@[i]@),
            ) && (w@[i]@ == v@[i]@ ==> InWorldChunk::SubChunks(w)@ == InWorldChunk::SubChunks(v)@),
{
    assert forall|w: Vec<InWorldChunk>| w@ == v@.update(i, w@[i]) implies #[trigger] InWorldChunk::SubChunks(w)@
        == ChunkTree::SubChunks(InWorldChunk::SubChunks(v)@->SubChunks_0.update(i, w@[i]@)) && (w@[i]@
        == v@[i]@ ==> InWorldChunk::SubChunks(w)@ == InWorldChunk::SubChunks(v)@) by {
        if let ChunkTree::SubChunks(a) = InWorldChunk::SubChunks(w)@ {
            if let ChunkTree::SubChunks(b) = InWorldChunk::SubChunks(v)@ {
                assert(a =~= b.update(i, w@[i]@));
                if w@[i]@ == v@[i]@ {
                    assert(a =~= b);
                }
            }
        }
    }
}

/// `1 << level` is `2^level` when it fits a `usize`.
proof fn lemma_shift_scale(level: usize)
    requires
        level < usize::BITS,
    ensures
        (1usize << level) == pow2(level as nat),
        0 < pow2(level as nat) <= usize::MAX,
{
    vstd::bits::lemma_usize_pow2_no_overflow(level as nat);
    vstd::bits::lemma_usize_shl_is_mul(1, level);
}

impl InWorldChunk {
    /// The node `level + 1` levels below this one that covers `pos`.
    pub fn get_sub_chunk(&self, pos: VoxelPos, level: usize) -> (r: Option<&Self>)
        requires
            sub_chunk_ok(self@, pos, level as nat),
        ensures
            match r {
                Some(c) => sub_chunk_spec(self@, pos, level as nat) == Some(c@),
                None => sub_chunk_spec(self@, pos, level as nat) is None,
            },
        decreases self,
    {
        match self {
            Self::SubChunks(sub_chunks) => {
                proof {
                    lemma_shift_scale(level);
                }
                let scale = 1usize << level;
                let sub_pos = pos / scale;
                proof {
                    assert(div_pos(pos, scale as int) == sub_pos);
                    lemma_child_index_parts(sub_pos);
                    lemma_mod_pos(pos, scale as int);
                }
                let in_chunk_pos = pos - sub_pos * scale;
                let index = sub_pos.to_index(2);
                proof {
                    assert(in_chunk_pos == mod_pos(pos, scale as int));
                    vstd::std_specs::vec::axiom_vec_index_decreases(*sub_chunks, index as int);
                    assert(decreases_to!(*self => self->SubChunks_0));
                    assert(self@->SubChunks_0[index as int] == sub_chunks@[index as int]@);
                }
                let sub_chunk = &sub_chunks[index];
                if level == 0 {
                    Some(sub_chunk)
                } else {
                    sub_chunk.get_sub_chunk(in_chunk_pos, level - 1)
                }
            },
            _ => None,
        }
    }

    /// The node `level + 1` levels below this one that covers `pos`, for modification.
    pub fn get_sub_chunk_mut(&mut self, pos: VoxelPos, level: usize) -> (r: Option<&mut Self>)
        requires
            sub_chunk_ok(old(self)@, pos, level as nat),
        ensures
            match r {
                Some(c) => sub_chunk_spec(old(self)@, pos, level as nat) == Some(c@) && final(self)@
                    == replace_sub_chunk(old(self)@, pos, level as nat, final(c)@),
                None => sub_chunk_spec(old(self)@, pos, level as nat) is None && final(self)@ == old(
                    self,
                )@,
            },
        decreases level,
    {
        match self {
            Self::SubChunks(sub_chunks) => {
                proof {
                    lemma_shift_scale(level);
                }
                let scale = 1usize << level;
                let sub_pos = pos / scale;
                proof {
                    assert(div_pos(pos, scale as int) == sub_pos);
                    lemma_child_index_parts(sub_pos);
                    lemma_mod_pos(pos, scale as int);
                }
                let in_chunk_pos = pos - sub_pos * scale;
                let index = sub_pos.to_index(2);
                let ghost old_subs = *sub_chunks;
                proof {
                    assert(in_chunk_pos == mod_pos(pos, scale as int));
                    vstd::std_specs::vec::axiom_vec_index_decreases(*sub_chunks, index as int);
                    assert(old(self)@->SubChunks_0[index as int] == sub_chunks@[index as int]@);
                    lemma_view_update(old_subs, index as int);
                }
                let sub_chunk = &mut sub_chunks[index];
                if level == 0 {
                    Some(sub_chunk)
                } else {
                    sub_chunk.get_sub_chunk_mut(in_chunk_pos, level - 1)
                }
            },
            _ => None,
        }
    }
}

impl InWorldChunk {
    /// Whether this tree, with its root at level `level`, is well-formed: every list of sub
    /// chunks holds eight, and no chunk of the finest level is split.
    pub fn is_well_formed(&self, level: usize) -> (r: bool)
        ensures
            r == tree_wf(self@, level as int),
        decreases self,
    {
        match self {
            Self::SubChunks(sub_chunks) => {
                if level >= GameWorld::MAX_DETAIL_LEVEL || sub_chunks.len() != 8 {
                    return false;
                }
                let ghost s = self@->SubChunks_0;
                let mut i: usize = 0;
                while i < 8
                    invariant
                        *self == InWorldChunk::SubChunks(*sub_chunks),
                        s == self@->SubChunks_0,
                        s.len() == 8,
                        sub_chunks@.len() == 8,
                        level < 5,
                        i <= 8,
                        forall|j: int| 0 <= j < i ==> tree_wf(#[trigger] s[j], level + 1),
                    decreases 8 - i,
                {
                    proof {
                        vstd::std_specs::vec::axiom_vec_index_decreases(*sub_chunks, i as int);
                        assert(decreases_to!(*self => self->SubChunks_0));
                        assert(s[i as int] == sub_chunks@[i as int]@);
                    }
                    if !sub_chunks[i].is_well_formed(level + 1) {
                        return false;
                    }
                    i += 1;
                }
                true
            },
            _ => true,
        }
    }
}

/// Child `i` of a list of eight sub chunks, as its position in the 2x2x2 block.
pub open spec fn child_pos(i: int) -> VoxelPos {
    Pos { x: (i % 2) as usize, y: ((i / 2) % 2) as usize, z: (i / 4) as usize }
}

/// A tree split along one path and loading everywhere else: where `path` is empty, a chunk
/// still loading; otherwise eight sub chunks, of which the one at `path[0]` holds the tree of
/// the rest of the path, and the other seven are loading.
pub open spec fn split_chain(path: Seq<VoxelPos>) -> ChunkTree
    decreases path.len(),
{
    if path.len() == 0 {
        ChunkTree::Loading
    } else {
        ChunkTree::SubChunks(
            Seq::new(
                8,
                |i: int|
                    if child_pos(i) == path[0] {
                        split_chain(path.drop_first())
                    } else {
                        ChunkTree::Loading
                    },
            ),
        )
    }
}

/// The path that [`InWorldChunk::new`] splits along, from the root down: at level `level`
/// the child `pos / level_scale(level)`, then on with `pos / 2` one level lower.
pub open spec fn new_path(pos: VoxelPos, level: nat) -> Seq<VoxelPos>
    decreases level,
{
    if level == 0 {
        Seq::empty()
    } else {
        seq![div_pos(pos, level_scale(level as int))] + new_path(div_pos(pos, 2), (level - 1) as nat)
    }
}

/// The tree that [`InWorldChunk::new`] builds: split along `new_path(pos, level)`.
pub open spec fn new_tree(pos: VoxelPos, level: nat) -> ChunkTree {
    split_chain(new_path(pos, level))
}

/// The path of `pos` at level `level` starts with `pos / level_scale(level)`, and goes on
/// with the path of `pos / 2` one level lower.
proof fn lemma_new_path_first(pos: VoxelPos, level: nat)
    requires
        level > 0,
    ensures
        new_path(pos, level).len() == level,
        new_path(pos, level)[0] == div_pos(pos, level_scale(level as int)),
        new_path(pos, level).drop_first() == new_path(div_pos(pos, 2), (level - 1) as nat),
    decreases level,
{
    lemma_new_path_len(div_pos(pos, 2), (level - 1) as nat);
    let rest = new_path(div_pos(pos, 2), (level - 1) as nat);
    assert((seq![div_pos(pos, level_scale(level as int))] + rest).drop_first() =~= rest);
}

proof fn lemma_new_path_len(pos: VoxelPos, level: nat)
    ensures
        new_path(pos, level).len() == level,
    decreases level,
{
    if level > 0 {
        lemma_new_path_len(div_pos(pos, 2), (level - 1) as nat);
    }
}

impl InWorldChunk {
    /// Builds the tree of a new region down to `level` levels, every chunk still loading.
    ///
    /// The list of chunks to load that comes with it is always empty.
    pub fn new(pos: VoxelPos, level: usize) -> (r: (Self, Vec<(ChunkPos, usize)>))
        requires
            level <= GameWorld::MAX_DETAIL_LEVEL,
        ensures
            r.0@ == new_tree(pos, level as nat),
            r.1@.len() == 0,
        decreases level,
    {
        if level == 0 {
            return (Self::Loading, Vec::new());
        }
        let mut result: Vec<(ChunkPos, usize)> = Vec::new();
        let mut sub_chunks: Vec<InWorldChunk> = Vec::new();
        let mut k: usize = 0;
        while k < 8
            invariant
                k <= 8,
                sub_chunks@.len() == k,
                forall|j: int| 0 <= j < k ==> (#[trigger] sub_chunks@[j])@ == ChunkTree::Loading,
            decreases 8 - k,
        {
            sub_chunks.push(Self::default());
            k += 1;
        }
        let next_pos = pos / GameWorld::level_to_scale(level);
        proof {
            lemma_new_path_first(pos, level as nat);
        }
        let ghost expected = new_tree(pos, level as nat)->SubChunks_0;
        let mut i: usize = 0;
        while i < 8
            invariant
                0 < level <= 5,
                i <= 8,
                next_pos == div_pos(pos, level_scale(level as int)),
                new_path(pos, level as nat).len() == level,
                new_path(pos, level as nat)[0] == next_pos,
                new_path(pos, level as nat).drop_first() == new_path(div_pos(pos, 2), (level - 1) as nat),
                expected == new_tree(pos, level as nat)->SubChunks_0,
                result@.len() == 0,
                sub_chunks@.len() == 8,
                forall|j: int| 0 <= j < i ==> (#[trigger] sub_chunks@[j])@ == expected[j],
                forall|j: int| i <= j < 8 ==> (#[trigger] sub_chunks@[j])@ == ChunkTree::Loading,
            decreases 8 - i,
        {
            let sub_pos = Pos::<usize>::from_index(i, 2);
            let (sub_chunk, mut sub_result) = if sub_pos == next_pos {
                Self::new(pos / 2, level - 1)
            } else {
                Self::new(sub_pos, 0)
            };
            result.append(&mut sub_result);
            proof {
                lemma_position_round_trip(i as int, 2, 2);
                assert(sub_pos == child_pos(i as int));
            }
            let index = sub_pos.to_index(2);
            proof {
                assert(index == i);
            }
            sub_chunks.set(index, sub_chunk);
            i += 1;
        }
        let r = Self::SubChunks(sub_chunks);
        proof {
            if let ChunkTree::SubChunks(a) = r@ {
                assert(a =~= expected);
            }
        }
        (r, result)
    }
}

/// Locks the chunk of a loaded node.
///
/// Returns `None` where the node is missing or not loaded, and where its chunk is locked
/// already (see [`ChunkPointer::lock`]).
pub fn map_chunk(chunk: &Option<InWorldChunk>) -> (r: Option<MutexGuard<'_, Chunk>>)
    ensures
        r is Some ==> (*chunk matches Some(InWorldChunk::Loaded(_, _))),
{
    match chunk {
        Some(InWorldChunk::Loaded(chunk, _)) => chunk.lock(),
        _ => None,
    }
}

/// Bounds on the index of a child.
proof fn lemma_child_index_parts(p: VoxelPos)
    ensures
        child_index(p) == p.x + p.y * 2 + p.z * 4,
{
    assert(p.y * 2 == p.y * 2);
    assert(p.z * 2 * 2 == p.z * 4) by (nonlinear_arith);
}

/// The componentwise remainder of `p` by `s` is `p - (p / s) * s`.
proof fn lemma_mod_pos(p: VoxelPos, s: int)
    requires
        s > 0,
    ensures
        (p.x as int / s) * s <= p.x,
        (p.y as int / s) * s <= p.y,
        (p.z as int / s) * s <= p.z,
        mod_pos(p, s).x == p.x as int - (p.x as int / s) * s,
        mod_pos(p, s).y == p.y as int - (p.y as int / s) * s,
        mod_pos(p, s).z == p.z as int - (p.z as int / s) * s,
{
    vstd::arithmetic::div_mod::lemma_fundamental_div_mod(p.x as int, s);
    vstd::arithmetic::div_mod::lemma_fundamental_div_mod(p.y as int, s);
    vstd::arithmetic::div_mod::lemma_fundamental_div_mod(p.z as int, s);
    assert((p.x as int / s) * s == s * (p.x as int / s)) by (nonlinear_arith);
    assert((p.y as int / s) * s == s * (p.y as int / s)) by (nonlinear_arith);
    assert((p.z as int / s) * s == s * (p.z as int / s)) by (nonlinear_arith);
}

} // verus!
