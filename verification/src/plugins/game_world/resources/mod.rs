use crate::internal::chunks::in_world_chunk::{
    detailest_ok, detailest_spec, lemma_sub_chunk_ok_after_write, lemma_sub_chunk_read_after_write,
    lemma_sub_chunk_write_back, replace_sub_chunk, sub_chunk_ok, sub_chunk_spec, ChunkTree,
    child_index, child_of, div_pos, is_corner, lemma_double_div_mod, lemma_sub_chunk_child,
    lemma_wf_detailest_ok, lemma_wf_replace, lemma_wf_sub_chunk_ok, tree_wf,
};
use crate::internal::chunks::{ChunkPointer, InWorldChunk};
use crate::internal::pos::{in_i64, ChunkPos, Pos, VoxelPos};
use bevy::ecs::entity::Entity;
use bevy::utils::HashMap;
use vstd::arithmetic::power2::pow2;
use vstd::prelude::*;

verus! {

/// Number of chunks of the finest level along one edge of a chunk of level `level`:
/// `2^(MAX_DETAIL_LEVEL - level)`.
pub open spec fn level_scale(level: int) -> int {
    if level == 5 {
        1
    } else if level == 4 {
        2
    } else if level == 3 {
        4
    } else if level == 2 {
        8
    } else if level == 1 {
        16
    } else {
        32
    }
}

/// Floor division of a coordinate by a positive scale.
pub open spec fn floor_div(v: int, scale: int) -> int {
    v / scale
}

/// The position `pos` scaled down by `scale`, rounding towards negative infinity.
pub open spec fn scale_down_spec(pos: ChunkPos, scale: int) -> ChunkPos {
    Pos {
        x: floor_div(pos.x as int, scale) as i64,
        y: floor_div(pos.y as int, scale) as i64,
        z: floor_div(pos.z as int, scale) as i64,
    }
}

/// The position, at level `to`, of the chunk that holds the first finest chunk of the chunk
/// `pos` of level `from`.
pub open spec fn level_pos_spec(pos: ChunkPos, from: int, to: int) -> ChunkPos {
    scale_down_spec(
        Pos {
            x: (pos.x * level_scale(from)) as i64,
            y: (pos.y * level_scale(from)) as i64,
            z: (pos.z * level_scale(from)) as i64,
        },
        level_scale(to),
    )
}

/// Floor division of a negative number through the division of its non-negative mirror.
proof fn lemma_floor_div_negative(a: int, s: int)
    requires
        a < 0,
        s > 0,
    ensures
        floor_div(a, s) == -((-(a + 1)) / s) - 1,
        0 <= (-(a + 1)) / s <= -(a + 1),
{
    let n = -(a + 1);
    vstd::arithmetic::div_mod::lemma_fundamental_div_mod(n, s);
    let q = n / s;
    let r = n % s;
    assert(0 <= q <= n) by (nonlinear_arith)
        requires
            n >= 0,
            s > 0,
            q == n / s,
    ;
    assert(a == (-q - 1) * s + (s - r - 1)) by (nonlinear_arith)
        requires
            n == s * q + r,
            a == -n - 1,
    ;
    vstd::arithmetic::div_mod::lemma_fundamental_div_mod_converse(a, s, -q - 1, s - r - 1);
}

/// The regions of the world, each the root of a tree of chunks, keyed by region position.
#[verifier::external_body]
pub struct RegionMap {
    map: HashMap<ChunkPos, InWorldChunk>,
}

/// What a region map holds.
pub uninterp spec fn region_map_contents(m: RegionMap) -> Map<ChunkPos, InWorldChunk>;

impl View for RegionMap {
    type V = Map<ChunkPos, InWorldChunk>;

    open spec fn view(&self) -> Map<ChunkPos, InWorldChunk> {
        region_map_contents(*self)
    }
}

impl RegionMap {
    /// `HashMap::default`: a map with no entries.
    #[verifier::external_body]
    fn new() -> (r: RegionMap)
        ensures
            region_map_contents(r).is_empty(),
    {
        RegionMap { map: HashMap::default() }
    }

    /// `HashMap::get`: the entry stored under `pos`, if any.
    #[verifier::external_body]
    fn get(&self, pos: &ChunkPos) -> (r: Option<&InWorldChunk>)
        ensures
            match r {
                Some(v) => region_map_contents(*self).contains_key(*pos) && *v == region_map_contents(*self)[*pos],
                None => !region_map_contents(*self).contains_key(*pos),
            },
    {
        self.map.get(pos)
    }

    /// `HashMap::get_mut`: the entry stored under `pos`, for modification in place.
    #[verifier::external_body]
    fn get_mut(&mut self, pos: &ChunkPos) -> (r: Option<&mut InWorldChunk>)
        ensures
            match r {
                Some(v) => region_map_contents(*old(self)).contains_key(*pos) && *v == region_map_contents(*old(self))[*pos] && region_map_contents(*final(self))
                    == region_map_contents(*old(self)).insert(*pos, *final(v)),
                None => !region_map_contents(*old(self)).contains_key(*pos) && region_map_contents(*final(self)) == region_map_contents(*old(self)),
            },
    {
        self.map.get_mut(pos)
    }

    /// `HashMap::contains_key`.
    #[verifier::external_body]
    fn contains_key(&self, pos: &ChunkPos) -> (r: bool)
        ensures
            r == region_map_contents(*self).contains_key(*pos),
    {
        self.map.contains_key(pos)
    }

    /// `HashMap::insert`: stores `value` under `pos` and hands back what was there.
    #[verifier::external_body]
    fn insert(&mut self, pos: ChunkPos, value: InWorldChunk) -> (r: Option<InWorldChunk>)
        ensures
            region_map_contents(*final(self)) == region_map_contents(*old(self)).insert(pos, value),
            r == (if region_map_contents(*old(self)).contains_key(pos) {
                Some(region_map_contents(*old(self))[pos])
            } else {
                None
            }),
    {
        self.map.insert(pos, value)
    }

    /// `HashMap::remove`: takes out the entry stored under `pos`.
    #[verifier::external_body]
    fn remove(&mut self, pos: &ChunkPos) -> (r: Option<InWorldChunk>)
        ensures
            region_map_contents(*final(self)) == region_map_contents(*old(self)).remove(*pos),
            r == (if region_map_contents(*old(self)).contains_key(*pos) {
                Some(region_map_contents(*old(self))[*pos])
            } else {
                None
            }),
    {
        self.map.remove(pos)
    }
}

/// The position of the finest chunk `pos` inside its region.
pub open spec fn finest_in_region(pos: ChunkPos) -> VoxelPos {
    Pos {
        x: ((pos.x as int) % 32) as usize,
        y: ((pos.y as int) % 32) as usize,
        z: ((pos.z as int) % 32) as usize,
    }
}

/// The node of the finest level at `pos`, if the tree of its region reaches it.
pub open spec fn real_node(m: Map<ChunkPos, ChunkTree>, pos: ChunkPos) -> Option<ChunkTree> {
    if m.contains_key(scale_down_spec(pos, 32)) {
        sub_chunk_spec(m[scale_down_spec(pos, 32)], finest_in_region(pos), 4)
    } else {
        None
    }
}

/// Looking up the node of the finest level at `pos` walks only through complete lists of
/// sub chunks.
pub open spec fn real_lookup_ok(m: Map<ChunkPos, ChunkTree>, pos: ChunkPos) -> bool {
    m.contains_key(scale_down_spec(pos, 32)) ==> sub_chunk_ok(
        m[scale_down_spec(pos, 32)],
        finest_in_region(pos),
        4,
    )
}

/// The model of every region tree.
pub open spec fn regions_model(m: Map<ChunkPos, InWorldChunk>) -> Map<ChunkPos, ChunkTree> {
    m.map_values(|c: InWorldChunk| c@)
}

/// The region that holds the chunk `pos` of level `level`.
pub open spec fn region_of(pos: ChunkPos, level: nat) -> ChunkPos {
    scale_down_spec(pos, pow2(level) as int)
}

/// The position of the chunk `pos` of level `level` inside its region, in chunks of that level.
pub open spec fn pos_in_region(pos: ChunkPos, level: nat) -> VoxelPos {
    Pos {
        x: ((pos.x as int) % (pow2(level) as int)) as usize,
        y: ((pos.y as int) % (pow2(level) as int)) as usize,
        z: ((pos.z as int) % (pow2(level) as int)) as usize,
    }
}

/// The node of the chunk `pos` of level `level`: a whole region at level 0, otherwise the
/// node `level` levels down its region's tree.
pub open spec fn node_at(m: Map<ChunkPos, ChunkTree>, pos: ChunkPos, level: nat) -> Option<ChunkTree> {
    if level == 0 {
        if m.contains_key(pos) {
            Some(m[pos])
        } else {
            None
        }
    } else {
        let r = region_of(pos, level);
        if m.contains_key(r) {
            sub_chunk_spec(m[r], pos_in_region(pos, level), (level - 1) as nat)
        } else {
            None
        }
    }
}

/// Looking up the chunk `pos` of level `level` walks only through complete lists of sub
/// chunks.
pub open spec fn node_path_ok(m: Map<ChunkPos, ChunkTree>, pos: ChunkPos, level: nat) -> bool {
    level > 0 ==> (m.contains_key(region_of(pos, level)) ==> sub_chunk_ok(
        m[region_of(pos, level)],
        pos_in_region(pos, level),
        (level - 1) as nat,
    ))
}

/// The regions `m` with the node of the chunk `pos` of level `level` replaced by `new`.
pub open spec fn set_node(m: Map<ChunkPos, ChunkTree>, pos: ChunkPos, level: nat, new: ChunkTree) -> Map<
    ChunkPos,
    ChunkTree,
> {
    if level == 0 {
        m.insert(pos, new)
    } else {
        let r = region_of(pos, level);
        m.insert(r, replace_sub_chunk(m[r], pos_in_region(pos, level), (level - 1) as nat, new))
    }
}

/// Taking the model of every entry commutes with storing an entry.
proof fn lemma_regions_insert(m: Map<ChunkPos, InWorldChunk>, k: ChunkPos, v: InWorldChunk)
    ensures
        regions_model(m.insert(k, v)) == regions_model(m).insert(k, v@),
{
    assert(regions_model(m.insert(k, v)) =~= regions_model(m).insert(k, v@));
}

/// Taking the model of every entry commutes with removing an entry.
proof fn lemma_regions_remove(m: Map<ChunkPos, InWorldChunk>, k: ChunkPos)
    ensures
        regions_model(m.remove(k)) == regions_model(m).remove(k),
{
    assert(regions_model(m.remove(k)) =~= regions_model(m).remove(k));
}

/// Storing a well-formed region tree keeps the world well-formed.
proof fn lemma_wf_insert(m: Map<ChunkPos, InWorldChunk>, k: ChunkPos, v: InWorldChunk)
    requires
        world_wf(regions_model(m)),
        tree_wf(v@, 0),
    ensures
        world_wf(regions_model(m.insert(k, v))),
{
    lemma_regions_insert(m, k, v);
    let m2 = regions_model(m.insert(k, v));
    assert forall|r: ChunkPos| #[trigger] m2.contains_key(r) implies tree_wf(m2[r], 0) by {
        if r != k {
            assert(regions_model(m).contains_key(r));
        }
    }
}

/// For a scale that divides `2^63`, the multiple of the scale at or below a coordinate fits
/// an `i64`, and the coordinate exceeds it by its remainder.
pub proof fn lemma_floor_multiple(a: int, s: int, k: int)
    requires
        s > 0,
        k > 0,
        k * s == 0x8000_0000_0000_0000,
        i64::MIN <= a <= i64::MAX,
    ensures
        i64::MIN <= floor_div(a, s) * s <= a,
        i64::MIN <= floor_div(a, s) <= i64::MAX,
        a - floor_div(a, s) * s == a % s,
        0 <= a % s < s,
{
    if a < 0 {
        lemma_floor_div_negative(a, s);
    } else {
        vstd::arithmetic::div_mod::lemma_div_is_ordered_by_denominator(a, 1, s);
    }
    vstd::arithmetic::div_mod::lemma_fundamental_div_mod(a, s);
    let q = a / s;
    let r = a % s;
    assert(0 <= r < s);
    assert(q * s == s * q) by (nonlinear_arith);
    assert(q * s >= -(k * s)) by (nonlinear_arith)
        requires
            a == s * q + r,
            0 <= r < s,
            a >= -(k * s),
            s > 0,
            k > 0,
    {
        if q < -k {
            assert(q <= -k - 1);
            assert(s * q <= s * (-k - 1));
        }
    }
}

/// The world: regions of chunks, each a tree of chunks of growing detail.
pub struct GameWorld {
    pub regions: RegionMap,
}

impl View for GameWorld {
    type V = Map<ChunkPos, ChunkTree>;

    open spec fn view(&self) -> Map<ChunkPos, ChunkTree> {
        regions_model(self.regions@)
    }
}

impl Default for GameWorld {
    fn default() -> (r: Self)
        ensures
            r.regions@.is_empty(),
    {
        Self::new()
    }
}

#[derive(Debug, Clone, Copy, PartialEq, Eq, Structural)]
pub enum ChunkUpdateError {
    ChunkNotFound,
    ChunkAlreadyLoaded,
}

impl GameWorld {
    pub const MAX_DETAIL_LEVEL: usize = 5;
    pub const REGION_SIZE: usize = 32;
    pub const REGION_VOLUME: usize = 32768;
    pub const MIN_DETAILS_DIST: usize = 1;
    pub const MAX_DETAILS_DIST: usize = 5;

    /// A world with no regions.
    pub fn new() -> (r: Self)
        ensures
            r.regions@.is_empty(),
            world_wf(r@),
    {
        Self { regions: RegionMap::new() }
    }

    /// Stores a loaded chunk at the place of its position and level, where that place is still
    /// loading.
    pub fn update_chunk(&mut self, chunk: ChunkPointer, entity: Entity) -> (r: Result<(), ChunkUpdateError>)
        requires
            chunk.level_of() < 31,
            node_path_ok(old(self)@, chunk.pos_of(), chunk.level_of() as nat),
        ensures
            match node_at(old(self)@, chunk.pos_of(), chunk.level_of() as nat) {
                None => r == Err::<(), ChunkUpdateError>(ChunkUpdateError::ChunkNotFound) && final(self)@
                    == old(self)@,
                Some(ChunkTree::Loading) => r is Ok && final(self)@ == set_node(
                    old(self)@,
                    chunk.pos_of(),
                    chunk.level_of() as nat,
                    ChunkTree::Loaded(chunk, entity),
                ),
                Some(_) => r == Err::<(), ChunkUpdateError>(ChunkUpdateError::ChunkAlreadyLoaded)
                    && final(self)@ == old(self)@,
            },
            world_wf(old(self)@) ==> world_wf(final(self)@),
    {
        let pos = chunk.get_pos();
        let level = chunk.get_level();
        proof {
            if world_wf(old(self)@) && node_at(old(self)@, pos, level as nat) is Some {
                lemma_wf_set_node(old(self)@, pos, level as nat, ChunkTree::Loaded(chunk, entity));
            }
        }
        match self.get_chunk_mut(pos, level) {
            Some(c) => {
                proof {
                    if level > 0 {
                        let rg = region_of(pos, level as nat);
                        lemma_sub_chunk_write_back(old(self)@[rg], pos_in_region(pos, level as nat), (
                        level - 1) as nat);
                    }
                }
                match c {
                    InWorldChunk::Loading => {
                        *c = InWorldChunk::Loaded(chunk, entity);
                        Ok(())
                    },
                    _ => Err(ChunkUpdateError::ChunkAlreadyLoaded),
                }
            },
            None => Err(ChunkUpdateError::ChunkNotFound),
        }
    }

    /// The node of the chunk `pos` of level `level`, for modification: a whole region at
    /// level 0, otherwise a node of the tree of the region that holds it.
    ///
    /// The shift of a 32-bit one in the scale keeps `level` under 31.
    #[verifier::spinoff_prover]
    pub fn get_chunk_mut(&mut self, pos: ChunkPos, level: usize) -> (r: Option<&mut InWorldChunk>)
        requires
            level < 31,
            node_path_ok(old(self)@, pos, level as nat),
        ensures
            match r {
                Some(c) => node_at(old(self)@, pos, level as nat) == Some(c@) && final(self)@ == set_node(
                    old(self)@,
                    pos,
                    level as nat,
                    final(c)@,
                ),
                None => node_at(old(self)@, pos, level as nat) is None && final(self)@ == old(self)@,
            },
            r matches Some(c) ==> (world_wf(old(self)@) && tree_wf(final(c)@, level as int) ==> world_wf(
                final(self)@,
            )),
    {
        let ghost old_regions = self.regions@;
        proof {
            assert forall|t: ChunkTree|
                world_wf(old(self)@) && node_at(old(self)@, pos, level as nat) is Some && tree_wf(
                    t,
                    level as int,
                ) implies #[trigger] world_wf(set_node(old(self)@, pos, level as nat, t)) by {
                lemma_wf_set_node(old(self)@, pos, level as nat, t);
            }
        }
        if level == 0 {
            let r = self.regions.get_mut(&pos);
            proof {
                assert forall|v: InWorldChunk| #[trigger] regions_model(old_regions.insert(pos, v))
                    == regions_model(old_regions).insert(pos, v@) by {
                    lemma_regions_insert(old_regions, pos, v);
                }
            }
            return r;
        }
        proof {
            vstd::bits::lemma_usize_pow2_no_overflow(level as nat);
            vstd::bits::lemma_usize_shl_is_mul(1, level);
            vstd::arithmetic::power2::lemma_pow2_adds(level as nat, (63 - level) as nat);
            vstd::arithmetic::power2::lemma2_to64_rest();
            vstd::arithmetic::power2::lemma_pow2_pos((63 - level) as nat);
            vstd::arithmetic::power2::lemma_pow2_strictly_increases(level as nat, 31);
            vstd::arithmetic::power2::lemma2_to64();
        }
        let scale: usize = 1usize << level;
        let c_pos = Self::scale_down_pos(pos, scale);
        let ghost k = pow2((63 - level) as nat) as int;
        proof {
            assert(scale == pow2(level as nat));
            assert(pow2((level + (63 - level)) as nat) == pow2(63));
            assert(k * scale == pow2(63)) by (nonlinear_arith)
                requires
                    pow2(63) == pow2(level as nat) * pow2((63 - level) as nat),
                    k == pow2((63 - level) as nat),
                    scale == pow2(level as nat),
            ;
            lemma_floor_multiple(pos.x as int, scale as int, k);
            lemma_floor_multiple(pos.y as int, scale as int, k);
            lemma_floor_multiple(pos.z as int, scale as int, k);
        }
        let scale_i: i64 = scale as i64;
        proof {
            assert(scale_i == scale);
            assert(c_pos.x == floor_div(pos.x as int, scale as int));
            assert(c_pos.y == floor_div(pos.y as int, scale as int));
            assert(c_pos.z == floor_div(pos.z as int, scale as int));
        }
        let base = c_pos * scale_i;
        let in_chunk_pos = pos - base;
        let in_chunk_pos = VoxelPos::new(
            in_chunk_pos.x as usize,
            in_chunk_pos.y as usize,
            in_chunk_pos.z as usize,
        );
        proof {
            assert(c_pos == region_of(pos, level as nat));
            assert(in_chunk_pos == pos_in_region(pos, level as nat));
        }
        match self.regions.get_mut(&c_pos) {
            Some(chunk) => {
                proof {
                    assert forall|v: InWorldChunk| #[trigger] regions_model(old_regions.insert(c_pos, v))
                        == regions_model(old_regions).insert(c_pos, v@) by {
                        lemma_regions_insert(old_regions, c_pos, v);
                    }
                }
                let r = chunk.get_sub_chunk_mut(in_chunk_pos, level - 1);
                proof {
                    assert(regions_model(old_regions).insert(c_pos, old_regions[c_pos]@) =~= regions_model(
                        old_regions,
                    ));
                }
                r
            },
            None => None,
        }
    }

    /// Creates the region `pos`, still loading.
    ///
    /// Returns the new node, or `None` (and changes nothing) where the region already exists.
    pub fn create_chunk(&mut self, pos: ChunkPos) -> (r: Option<&mut InWorldChunk>)
        ensures
            match r {
                Some(c) => !old(self).regions@.contains_key(pos) && *c == InWorldChunk::Loading
                    && final(self).regions@ == old(self).regions@.insert(pos, *final(c)),
                None => old(self).regions@.contains_key(pos) && final(self).regions@ == old(
                    self,
                ).regions@,
            },
            r matches Some(c) ==> (world_wf(old(self)@) && tree_wf(final(c)@, 0) ==> world_wf(
                final(self)@,
            )),
    {
        proof {
            assert forall|v: InWorldChunk|
                world_wf(old(self)@) && tree_wf(v@, 0) implies #[trigger] world_wf(
                regions_model(old(self).regions@.insert(pos, v)),
            ) by {
                lemma_wf_insert(old(self).regions@, pos, v);
            }
        }
        if self.regions.contains_key(&pos) {
            return None;
        }
        self.regions.insert(pos, InWorldChunk::Loading);
        let ghost mid = self.regions@;
        let r = self.regions.get_mut(&pos);
        proof {
            assert forall|v: InWorldChunk| #[trigger] mid.insert(pos, v) == old(self).regions@.insert(
                pos,
                v,
            ) by {
                assert(mid.insert(pos, v) =~= old(self).regions@.insert(pos, v));
            }
        }
        r
    }

    /// Takes the region `pos` out of the world.
    pub fn remove_chunk(&mut self, pos: ChunkPos) -> (r: Option<InWorldChunk>)
        ensures
            final(self).regions@ == old(self).regions@.remove(pos),
            r == (if old(self).regions@.contains_key(pos) {
                Some(old(self).regions@[pos])
            } else {
                None
            }),
            world_wf(old(self)@) ==> world_wf(final(self)@),
    {
        let r = self.regions.remove(&pos);
        proof {
            lemma_regions_remove(old(self).regions@, pos);
        }
        r
    }

    /// The region `pos`, if it exists.
    pub fn get_chunk(&self, pos: ChunkPos) -> (r: Option<&InWorldChunk>)
        ensures
            match r {
                Some(c) => self.regions@.contains_key(pos) && *c == self.regions@[pos],
                None => !self.regions@.contains_key(pos),
            },
    {
        self.regions.get(&pos)
    }

    /// The loaded chunk of the most detailed level that covers the finest chunk `chunk_pos`;
    /// `None` where its region is missing or the walk down ends at a chunk still loading.
    pub fn get_detailest_chunk(&self, chunk_pos: ChunkPos) -> (r: Option<(&ChunkPointer, Entity)>)
        requires
            self@.contains_key(scale_down_spec(chunk_pos, 32)) ==> detailest_ok(
                self@[scale_down_spec(chunk_pos, 32)],
                finest_in_region(chunk_pos),
                0,
            ),
        ensures
            match r {
                Some((c, e)) => self@.contains_key(scale_down_spec(chunk_pos, 32)) && detailest_spec(
                    self@[scale_down_spec(chunk_pos, 32)],
                    finest_in_region(chunk_pos),
                    0,
                ) == Some((*c, e)),
                None => self@.contains_key(scale_down_spec(chunk_pos, 32)) ==> detailest_spec(
                    self@[scale_down_spec(chunk_pos, 32)],
                    finest_in_region(chunk_pos),
                    0,
                ) is None,
            },
    {
        let region_pos = Self::chunk_pos_to_region_pos(chunk_pos);
        match self.regions.get(&region_pos) {
            Some(region) => {
                let in_chunk_pos = Self::normalize_chunk_pos_in_region(chunk_pos);
                region.get_detailest_chunk(in_chunk_pos, 0)
            },
            None => None,
        }
    }

    /// A copy of the node of the finest level at `pos`, if the tree of its region reaches it.
    pub fn get_real_chunk(&self, pos: ChunkPos) -> (r: Option<InWorldChunk>)
        requires
            real_lookup_ok(self@, pos),
        ensures
            match r {
                Some(c) => real_node(self@, pos) == Some(c@),
                None => real_node(self@, pos) is None,
            },
    {
        let c_pos = Self::chunk_pos_to_level_pos(pos, 0);
        let in_chunk_pos = pos - c_pos * (Self::level_to_scale(0) as i64);
        match self.regions.get(&c_pos) {
            Some(chunk) => {
                let in_chunk_pos = VoxelPos::new(
                    in_chunk_pos.x as usize,
                    in_chunk_pos.y as usize,
                    in_chunk_pos.z as usize,
                );
                match chunk.get_sub_chunk(in_chunk_pos, Self::MAX_DETAIL_LEVEL - 1) {
                    Some(c) => Some(c.clone()),
                    None => None,
                }
            },
            None => None,
        }
    }

    /// Number of finest chunks along one edge of a chunk of the given level.
    pub fn level_to_scale(level: usize) -> (r: usize)
        requires
            level <= Self::MAX_DETAIL_LEVEL,
        ensures
            r == level_scale(level as int),
    {
        let shift = Self::MAX_DETAIL_LEVEL - level;
        let r = 1usize << shift;
        assert(shift <= 5 ==> (shift == 0 && r == 1) || (shift == 1 && r == 2) || (shift == 2 && r
            == 4) || (shift == 3 && r == 8) || (shift == 4 && r == 16) || (shift == 5 && r == 32))
            by (bit_vector)
            requires
                r == 1usize << shift,
        ;
        r
    }

    /// Divides a coordinate by `scale`, rounding towards negative infinity.
    pub fn scale_down_axis(axis: i64, scale: usize) -> (r: i64)
        requires
            0 < scale <= i64::MAX,
        ensures
            r == floor_div(axis as int, scale as int),
    {
        let s = scale as i64;
        if axis < 0 {
            proof {
                lemma_floor_div_negative(axis as int, s as int);
            }
            -((-(axis + 1)) / s) - 1
        } else {
            axis / s
        }
    }

    /// Divides a position by `scale`, rounding towards negative infinity.
    pub fn scale_down_pos(pos: ChunkPos, scale: usize) -> (r: ChunkPos)
        requires
            0 < scale <= i64::MAX,
        ensures
            r == scale_down_spec(pos, scale as int),
    {
        Pos::new(
            Self::scale_down_axis(pos.x, scale),
            Self::scale_down_axis(pos.y, scale),
            Self::scale_down_axis(pos.z, scale),
        )
    }

    /// The position, at `level`, of the chunk that holds the finest chunk `pos`.
    pub fn chunk_pos_to_level_pos(pos: ChunkPos, level: usize) -> (r: ChunkPos)
        requires
            level <= Self::MAX_DETAIL_LEVEL,
        ensures
            r == scale_down_spec(pos, level_scale(level as int)),
    {
        let scale = Self::level_to_scale(level);
        Self::scale_down_pos(pos, scale)
    }

    /// The region that holds the finest chunk `pos`.
    pub fn chunk_pos_to_region_pos(pos: ChunkPos) -> (r: ChunkPos)
        ensures
            r == scale_down_spec(pos, 32),
    {
        Self::scale_down_pos(pos, Self::REGION_SIZE)
    }

    /// The position of the finest chunk `pos` inside its region.
    pub fn normalize_chunk_pos_in_region(pos: ChunkPos) -> (r: VoxelPos)
        ensures
            r.x == pos.x % 32,
            r.y == pos.y % 32,
            r.z == pos.z % 32,
    {
        let region = Self::chunk_pos_to_region_pos(pos);
        let base = region * (Self::REGION_SIZE as i64);
        let d = pos - base;
        Pos::new(d.x as usize, d.y as usize, d.z as usize)
    }

    /// The region that holds the chunk `pos` of level `level`, and the position of the chunk
    /// inside it in chunks of that level: where the chunk is saved.
    #[verifier::spinoff_prover]
    pub fn region_and_offset(pos: ChunkPos, level: usize) -> (r: (ChunkPos, ChunkPos))
        requires
            level <= Self::MAX_DETAIL_LEVEL,
            in_i64(pos.x * level_scale(level as int)),
            in_i64(pos.y * level_scale(level as int)),
            in_i64(pos.z * level_scale(level as int)),
        ensures
            r.0 == region_of(pos, level as nat),
            r.1.x == (pos.x as int) % (pow2(level as nat) as int),
            r.1.y == (pos.y as int) % (pow2(level as nat) as int),
            r.1.z == (pos.z as int) % (pow2(level as nat) as int),
    {
        let region_pos = Self::level_pos_to_level_pos(pos, level, 0);
        let ghost ls = level_scale(level as int);
        let ghost s = pow2(level as nat) as int;
        proof {
            lemma_level_scale_pow2(level as int);
            lemma_floor_multiple(pos.x * ls, 32, 0x0400_0000_0000_0000);
            lemma_floor_multiple(pos.y * ls, 32, 0x0400_0000_0000_0000);
            lemma_floor_multiple(pos.z * ls, 32, 0x0400_0000_0000_0000);
            lemma_scaled_floor_div(pos.x as int, ls, s);
            lemma_scaled_floor_div(pos.y as int, ls, s);
            lemma_scaled_floor_div(pos.z as int, ls, s);
            assert(ls * s == s * ls) by (nonlinear_arith);
            assert(region_pos == region_of(pos, level as nat));
        }
        let base = Self::level_pos_to_level_pos(region_pos, 0, level);
        proof {
            lemma_floor_div_multiple(region_pos.x as int, ls, s);
            lemma_floor_div_multiple(region_pos.y as int, ls, s);
            lemma_floor_div_multiple(region_pos.z as int, ls, s);
            let k = pow2((63 - level) as nat) as int;
            vstd::arithmetic::power2::lemma_pow2_adds(level as nat, (63 - level) as nat);
            vstd::arithmetic::power2::lemma2_to64_rest();
            vstd::arithmetic::power2::lemma_pow2_pos((63 - level) as nat);
            assert(pow2((level + (63 - level)) as nat) == pow2(63));
            assert(k * s == pow2(63)) by (nonlinear_arith)
                requires
                    pow2(63) == s * k,
            ;
            lemma_floor_multiple(pos.x as int, s, k);
            lemma_floor_multiple(pos.y as int, s, k);
            lemma_floor_multiple(pos.z as int, s, k);
        }
        (region_pos, pos - base)
    }

    /// Converts the position of a chunk of level `from_level` to the position, at level
    /// `to_level`, of the chunk that holds its first finest chunk.
    pub fn level_pos_to_level_pos(pos: ChunkPos, from_level: usize, to_level: usize) -> (r: ChunkPos)
        requires
            from_level <= Self::MAX_DETAIL_LEVEL,
            to_level <= Self::MAX_DETAIL_LEVEL,
            in_i64(pos.x * level_scale(from_level as int)),
            in_i64(pos.y * level_scale(from_level as int)),
            in_i64(pos.z * level_scale(from_level as int)),
        ensures
            r == level_pos_spec(pos, from_level as int, to_level as int),
    {
        let pos = pos * (Self::level_to_scale(from_level) as i64);
        Self::chunk_pos_to_level_pos(pos, to_level)
    }
}


/// Multiplying by `a` and floor-dividing by `a * b` floor-divides by `b`.
proof fn lemma_scaled_floor_div(p: int, a: int, b: int)
    requires
        a > 0,
        b > 0,
    ensures
        floor_div(p * a, a * b) == floor_div(p, b),
{
    vstd::arithmetic::div_mod::lemma_fundamental_div_mod(p, b);
    let q = p / b;
    let r = p % b;
    assert(p * a == q * (a * b) + a * r) by (nonlinear_arith)
        requires
            p == b * q + r,
    ;
    assert(0 <= a * r < a * b) by (nonlinear_arith)
        requires
            0 <= r < b,
            a > 0,
    ;
    vstd::arithmetic::div_mod::lemma_fundamental_div_mod_converse(p * a, a * b, q, a * r);
}

/// A chunk of level `level` spans `2^level` chunks of that level per region edge.
proof fn lemma_level_scale_pow2(level: int)
    requires
        0 <= level <= 5,
    ensures
        level_scale(level) * pow2(level as nat) == 32,
        level_scale(level) > 0,
        pow2(level as nat) > 0,
{
    vstd::arithmetic::power2::lemma2_to64();
}

/// The scale of a level is the scale of any finer level times the scale of the level that
/// many levels below the finest.
proof fn lemma_scale_ratio(from: int, to: int)
    requires
        0 <= from <= to <= 5,
    ensures
        level_scale(from) == level_scale(to) * level_scale(5 - (to - from)),
        level_scale(to) > 0,
        level_scale(5 - (to - from)) > 0,
{
}

/// Multiplying by `d * m` and floor-dividing by `d` multiplies by `m`.
proof fn lemma_floor_div_multiple(a: int, d: int, m: int)
    requires
        d > 0,
    ensures
        floor_div(a * (d * m), d) == a * m,
{
    assert(a * (d * m) == d * (a * m)) by (nonlinear_arith);
    vstd::arithmetic::div_mod::lemma_div_multiples_vanish(a * m, d);
}

/// Converting a position to its own level gives it back.
pub proof fn lemma_level_pos_same_level(pos: ChunkPos, level: int)
    requires
        0 <= level <= 5,
        in_i64(pos.x * level_scale(level)),
        in_i64(pos.y * level_scale(level)),
        in_i64(pos.z * level_scale(level)),
    ensures
        level_pos_spec(pos, level, level) == pos,
{
    let s = level_scale(level);
    lemma_floor_div_multiple(pos.x as int, s, 1);
    lemma_floor_div_multiple(pos.y as int, s, 1);
    lemma_floor_div_multiple(pos.z as int, s, 1);
}

/// Converting a position to a finer level and back gives it back.
pub proof fn lemma_level_pos_round_trip(pos: ChunkPos, from: int, to: int)
    requires
        0 <= from <= to <= 5,
        in_i64(pos.x * level_scale(from)),
        in_i64(pos.y * level_scale(from)),
        in_i64(pos.z * level_scale(from)),
    ensures
        in_i64(level_pos_spec(pos, from, to).x * level_scale(to)),
        in_i64(level_pos_spec(pos, from, to).y * level_scale(to)),
        in_i64(level_pos_spec(pos, from, to).z * level_scale(to)),
        level_pos_spec(level_pos_spec(pos, from, to), to, from) == pos,
{
    lemma_scale_ratio(from, to);
    let d = level_scale(to);
    let m = level_scale(5 - (to - from));
    let q = level_pos_spec(pos, from, to);
    lemma_floor_div_multiple(pos.x as int, d, m);
    lemma_floor_div_multiple(pos.y as int, d, m);
    lemma_floor_div_multiple(pos.z as int, d, m);
    assert(q.x * d == pos.x * level_scale(from)) by (nonlinear_arith)
        requires
            q.x == pos.x * m,
            level_scale(from) == d * m,
    ;
    assert(q.y * d == pos.y * level_scale(from)) by (nonlinear_arith)
        requires
            q.y == pos.y * m,
            level_scale(from) == d * m,
    ;
    assert(q.z * d == pos.z * level_scale(from)) by (nonlinear_arith)
        requires
            q.z == pos.z * m,
            level_scale(from) == d * m,
    ;
    lemma_floor_div_multiple(pos.x as int, level_scale(from), 1);
    lemma_floor_div_multiple(pos.y as int, level_scale(from), 1);
    lemma_floor_div_multiple(pos.z as int, level_scale(from), 1);
}

/// A finest chunk is the corner of its region, 32 chunks per region edge, plus its position
/// inside the region.
pub proof fn lemma_region_decomposition(pos: ChunkPos)
    ensures
        scale_down_spec(pos, 32).x * 32 + finest_in_region(pos).x == pos.x,
        scale_down_spec(pos, 32).y * 32 + finest_in_region(pos).y == pos.y,
        scale_down_spec(pos, 32).z * 32 + finest_in_region(pos).z == pos.z,
        finest_in_region(pos).x < 32,
        finest_in_region(pos).y < 32,
        finest_in_region(pos).z < 32,
{
    lemma_floor_multiple(pos.x as int, 32, 0x0400_0000_0000_0000);
    lemma_floor_multiple(pos.y as int, 32, 0x0400_0000_0000_0000);
    lemma_floor_multiple(pos.z as int, 32, 0x0400_0000_0000_0000);
}

/// A node written into the world is what a lookup of the same chunk finds afterwards, and
/// the path to it stays complete.
pub proof fn lemma_node_read_after_write(m: Map<ChunkPos, ChunkTree>, pos: ChunkPos, level: nat, new: ChunkTree)
    requires
        node_at(m, pos, level) is Some,
        node_path_ok(m, pos, level),
    ensures
        node_at(set_node(m, pos, level, new), pos, level) == Some(new),
        node_path_ok(set_node(m, pos, level, new), pos, level),
{
    if level > 0 {
        let r = region_of(pos, level);
        let p = pos_in_region(pos, level);
        lemma_sub_chunk_read_after_write(m[r], p, (level - 1) as nat, new);
        lemma_sub_chunk_ok_after_write(m[r], p, (level - 1) as nat, new);
    }
}


/// The chunk of the next level at `2 pos + c`, for a corner offset `c`.
pub open spec fn child_chunk(pos: ChunkPos, c: VoxelPos) -> ChunkPos {
    Pos {
        x: (2 * pos.x + c.x) as i64,
        y: (2 * pos.y + c.y) as i64,
        z: (2 * pos.z + c.z) as i64,
    }
}

/// One level below a node of sub chunks, the node at the corner `c` is child `c`, on a
/// complete path.
proof fn lemma_first_child(t: ChunkTree, c: VoxelPos, s: Seq<ChunkTree>)
    requires
        t == ChunkTree::SubChunks(s),
        is_corner(c),
        child_index(c) < s.len(),
    ensures
        sub_chunk_spec(t, c, 0) == Some(s[child_index(c)]),
        sub_chunk_ok(t, c, 0),
{
    vstd::arithmetic::power2::lemma2_to64();
    assert(div_pos(c, 1) == c);
}

/// The chunks `2 pos + c` of the next level are the children of a node of sub chunks found
/// at `pos`: looking one of them up finds child `c`, on a path that stays complete.
#[verifier::spinoff_prover]
pub proof fn lemma_node_child(m: Map<ChunkPos, ChunkTree>, pos: ChunkPos, level: nat, c: VoxelPos, s: Seq<ChunkTree>)
    requires
        node_at(m, pos, level) == Some(ChunkTree::SubChunks(s)),
        is_corner(c),
        child_index(c) < s.len(),
        level + 1 < 31,
        in_i64(2 * pos.x),
        in_i64(2 * pos.y),
        in_i64(2 * pos.z),
        in_i64(2 * pos.x + 1),
        in_i64(2 * pos.y + 1),
        in_i64(2 * pos.z + 1),
    ensures
        node_at(m, child_chunk(pos, c), level + 1) == Some(s[child_index(c)]),
        node_path_ok(m, pos, level) ==> node_path_ok(m, child_chunk(pos, c), level + 1),
{
    let ch = child_chunk(pos, c);
    vstd::arithmetic::power2::lemma_pow2_unfold(level + 1);
    vstd::arithmetic::power2::lemma_pow2_pos(level);
    vstd::arithmetic::power2::lemma_pow2_strictly_increases(level, 31);
    vstd::arithmetic::power2::lemma2_to64();
    let d = pow2(level) as int;
    lemma_double_div_mod(pos.x as int, c.x as int, d);
    lemma_double_div_mod(pos.y as int, c.y as int, d);
    lemma_double_div_mod(pos.z as int, c.z as int, d);
    assert(region_of(ch, level + 1) == region_of(pos, level));
    if level == 0 {
        assert(pos_in_region(ch, 1) == c);
        assert(region_of(ch, 1) == pos);
        lemma_first_child(m[pos], c, s);
    } else {
        let q = pos_in_region(pos, level);
        assert(pos_in_region(ch, level + 1) == child_of(q, c));
        lemma_sub_chunk_child(m[region_of(pos, level)], q, (level - 1) as nat, c, s);
    }
}


/// Writing back the node that a lookup finds leaves the world as it was.
pub proof fn lemma_node_write_back(m: Map<ChunkPos, ChunkTree>, pos: ChunkPos, level: nat)
    requires
        node_at(m, pos, level) is Some,
    ensures
        set_node(m, pos, level, node_at(m, pos, level)->0) == m,
{
    if level == 0 {
        assert(m.insert(pos, m[pos]) =~= m);
    } else {
        let r = region_of(pos, level);
        lemma_sub_chunk_write_back(m[r], pos_in_region(pos, level), (level - 1) as nat);
        assert(m.insert(r, m[r]) =~= m);
    }
}


/// The key of the region tree that holds the node of the chunk `pos` of level `level`.
pub open spec fn region_key(pos: ChunkPos, level: nat) -> ChunkPos {
    if level == 0 {
        pos
    } else {
        region_of(pos, level)
    }
}

/// Writing the node of a chunk leaves every region tree but its own as it was, so the nodes
/// of chunks in other regions read the same.
pub proof fn lemma_node_other_region(
    m: Map<ChunkPos, ChunkTree>,
    pos: ChunkPos,
    level: nat,
    new: ChunkTree,
    other: ChunkPos,
    other_level: nat,
)
    requires
        region_key(pos, level) != region_key(other, other_level),
    ensures
        node_at(set_node(m, pos, level, new), other, other_level) == node_at(m, other, other_level),
{
}


/// Every region tree of the world is well-formed: each list of sub chunks holds eight, and
/// no chunk of the finest level is split.
pub open spec fn world_wf(m: Map<ChunkPos, ChunkTree>) -> bool {
    forall|r: ChunkPos| #[trigger] m.contains_key(r) ==> tree_wf(m[r], 0)
}

/// In a well-formed world, looking up any chunk of a level below 31 walks only through
/// complete lists of sub chunks.
pub proof fn lemma_wf_node_path_ok(m: Map<ChunkPos, ChunkTree>, pos: ChunkPos, level: nat)
    requires
        world_wf(m),
        level < 31,
    ensures
        node_path_ok(m, pos, level),
{
    if level > 0 && m.contains_key(region_of(pos, level)) {
        let d = pow2(level) as int;
        vstd::arithmetic::power2::lemma_pow2_pos(level);
        assert(pow2(((level - 1) as nat + 1) as nat) == d);
        vstd::arithmetic::div_mod::lemma_mod_bound(pos.x as int, d);
        vstd::arithmetic::div_mod::lemma_mod_bound(pos.y as int, d);
        vstd::arithmetic::div_mod::lemma_mod_bound(pos.z as int, d);
        lemma_wf_sub_chunk_ok(m[region_of(pos, level)], pos_in_region(pos, level), (level - 1) as nat, 0);
    }
}

/// In a well-formed world, looking up the chunk of the finest level at any position walks
/// only through complete lists of sub chunks.
pub proof fn lemma_wf_real_lookup_ok(m: Map<ChunkPos, ChunkTree>, pos: ChunkPos)
    requires
        world_wf(m),
    ensures
        real_lookup_ok(m, pos),
{
    if m.contains_key(scale_down_spec(pos, 32)) {
        vstd::arithmetic::power2::lemma2_to64();
        lemma_region_decomposition(pos);
        lemma_wf_sub_chunk_ok(m[scale_down_spec(pos, 32)], finest_in_region(pos), 4, 0);
    }
}

/// In a well-formed world, the walk to the most detailed chunk at any position stays above
/// the finest level and finds every child it looks for.
pub proof fn lemma_wf_detailest_lookup_ok(m: Map<ChunkPos, ChunkTree>, pos: ChunkPos)
    requires
        world_wf(m),
    ensures
        m.contains_key(scale_down_spec(pos, 32)) ==> detailest_ok(
            m[scale_down_spec(pos, 32)],
            finest_in_region(pos),
            0,
        ),
{
    if m.contains_key(scale_down_spec(pos, 32)) {
        lemma_region_decomposition(pos);
        lemma_wf_detailest_ok(m[scale_down_spec(pos, 32)], finest_in_region(pos), 0);
    }
}

/// Writing a well-formed tree of the right level in place of a node keeps the world
/// well-formed.
pub proof fn lemma_wf_set_node(m: Map<ChunkPos, ChunkTree>, pos: ChunkPos, level: nat, new: ChunkTree)
    requires
        world_wf(m),
        node_at(m, pos, level) is Some,
        tree_wf(new, level as int),
    ensures
        world_wf(set_node(m, pos, level, new)),
{
    if level > 0 {
        let r = region_of(pos, level);
        lemma_wf_replace(m[r], pos_in_region(pos, level), (level - 1) as nat, 0, new);
    }
    let m2 = set_node(m, pos, level, new);
    assert forall|k: ChunkPos| #[trigger] m2.contains_key(k) implies tree_wf(m2[k], 0) by {
        if level == 0 {
            if k != pos {
                assert(m.contains_key(k));
            }
        } else if k != region_of(pos, level) {
            assert(m.contains_key(k));
        }
    }
}

} // verus!
