use super::voxel_types::VoxelId;
use super::{voxel_from_level, EmptyVoxel, Voxel, VOXEL_VALUE_MAX};
use crate::internal::chunks::{in_chunk, voxel_index, Chunk};
use crate::internal::pos::{Pos, VoxelPos};
use vstd::prelude::*;

verus! {

/// Index of the node in the middle of the lower north edge of a cell.
pub const NODE_DN: usize = 0;
/// Index of the node in the middle of the lower east edge of a cell.
pub const NODE_DE: usize = 1;
/// Index of the node in the middle of the lower south edge of a cell.
pub const NODE_DS: usize = 2;
/// Index of the node in the middle of the lower west edge of a cell.
pub const NODE_DW: usize = 3;
/// Index of the node in the middle of the upper north edge of a cell.
pub const NODE_UN: usize = 4;
/// Index of the node in the middle of the upper east edge of a cell.
pub const NODE_UE: usize = 5;
/// Index of the node in the middle of the upper south edge of a cell.
pub const NODE_US: usize = 6;
/// Index of the node in the middle of the upper west edge of a cell.
pub const NODE_UW: usize = 7;
/// Index of the node in the middle of the vertical north-west edge of a cell.
pub const NODE_NW: usize = 8;
/// Index of the node in the middle of the vertical north-east edge of a cell.
pub const NODE_NE: usize = 9;
/// Index of the node in the middle of the vertical south-east edge of a cell.
pub const NODE_SE: usize = 10;
/// Index of the node in the middle of the vertical south-west edge of a cell.
pub const NODE_SW: usize = 11;

/// Number of edge nodes of a cell.
pub const NODES_POS_COUNT: usize = 12;

/// One voxel per edge node of a cell.
pub type Nodes = [Voxel; 12];

/// The eight samples at the corners of a cell, indexed by x, y and z offset.
pub type VoxelsBlock = [[[Voxel; 2]; 2]; 2];

/// The sample of `chunk` at `pos`, or the empty voxel outside the chunk.
pub open spec fn sample_at(chunk: Chunk, pos: VoxelPos) -> Voxel {
    if in_chunk(pos) {
        chunk.voxels_view()[voxel_index(pos)]
    } else {
        Voxel::Empty(EmptyVoxel { value: 0, modified: false })
    }
}

/// `base` moved by `(i, j, k)`.
pub open spec fn corner(base: VoxelPos, i: int, j: int, k: int) -> VoxelPos {
    Pos { x: (base.x + i) as usize, y: (base.y + j) as usize, z: (base.z + k) as usize }
}

/// The level, in units of `1 / VOXEL_VALUE_MAX`, of the fraction `num / den` of a full
/// voxel, rounded towards zero. A fraction with a zero denominator counts as zero when its
/// numerator is zero and as a full voxel otherwise; a negative fraction gives a negative
/// level.
pub open spec fn fraction_level(num: int, den: int) -> int {
    if den == 0 {
        if num == 0 {
            0
        } else {
            65535
        }
    } else if den > 0 {
        (65535 * num) / den
    } else if num == 0 {
        0
    } else {
        -((65535 * num) / (-den))
    }
}

/// The voxel of the node on the edge from the sample `a` to the sample `b`.
///
/// Where `a` is empty, the node carries the material of `b` and the distance from `a` to
/// the surface, `-a / (b - a)`. Where only `b` is empty, it carries the material of `a` and
/// the distance `1 + b / (a - b)`. Between two solid samples the node has level zero, which
/// makes it an empty voxel.
pub open spec fn node_voxel(a: Voxel, b: Voxel) -> Voxel {
    if a is Empty {
        voxel_from_level(fraction_level(-a.level(), b.level() - a.level()), b.id_spec())
    } else if b is Empty {
        let den = a.level() - b.level();
        voxel_from_level(
            if den == 0 {
                0
            } else {
                (65535 * (den + b.level())) / den
            },
            a.id_spec(),
        )
    } else {
        voxel_from_level(0, VoxelId(0))
    }
}

/// The sample of `chunk` at `pos`, or the empty voxel outside the chunk.
fn get_voxel(chunk: &Chunk, pos: VoxelPos) -> (r: Voxel)
    requires
        chunk.wf(),
    ensures
        r == sample_at(*chunk, pos),
{
    match chunk.get_voxel_at(pos) {
        Some(voxel) => voxel,
        None => Voxel::empty(),
    }
}

/// The samples at the eight corners of the cell whose lowest corner is `base_pos`.
pub fn get_voxels_for_vertex(chunk: &Chunk, base_pos: VoxelPos) -> (r: VoxelsBlock)
    requires
        chunk.wf(),
        base_pos.x < usize::MAX,
        base_pos.y < usize::MAX,
        base_pos.z < usize::MAX,
    ensures
        forall|i: int, j: int, k: int|
            0 <= i < 2 && 0 <= j < 2 && 0 <= k < 2 ==> #[trigger] r[i][j][k] == sample_at(
                *chunk,
                corner(base_pos, i, j, k),
            ),
{
    let r = [
        [
            [
                get_voxel(chunk, base_pos + VoxelPos::new(0, 0, 0)),
                get_voxel(chunk, base_pos + VoxelPos::new(0, 0, 1)),
            ],
            [
                get_voxel(chunk, base_pos + VoxelPos::new(0, 1, 0)),
                get_voxel(chunk, base_pos + VoxelPos::new(0, 1, 1)),
            ],
        ],
        [
            [
                get_voxel(chunk, base_pos + VoxelPos::new(1, 0, 0)),
                get_voxel(chunk, base_pos + VoxelPos::new(1, 0, 1)),
            ],
            [
                get_voxel(chunk, base_pos + VoxelPos::new(1, 1, 0)),
                get_voxel(chunk, base_pos + VoxelPos::new(1, 1, 1)),
            ],
        ],
    ];
    proof {
        assert forall|i: int, j: int, k: int|
            0 <= i < 2 && 0 <= j < 2 && 0 <= k < 2 implies #[trigger] r[i][j][k] == sample_at(
            *chunk,
            corner(base_pos, i, j, k),
        ) by {
            assert(i == 0 || i == 1);
            assert(j == 0 || j == 1);
            assert(k == 0 || k == 1);
        }
    }
    r
}

/// `fraction_level(num, den)` for the numbers a node can see: `0 <= num <= 65535` and
/// `|den| <= 131070`.
fn fraction_level_exec(num: i64, den: i64) -> (r: i64)
    requires
        0 <= num <= 65535,
        -131070 <= den <= 131070,
    ensures
        r == fraction_level(num as int, den as int),
        -4294836225 <= r <= 4294836225,
{
    if den == 0 {
        if num == 0 {
            0
        } else {
            65535
        }
    } else if den > 0 {
        proof {
            vstd::arithmetic::div_mod::lemma_div_is_ordered_by_denominator(65535 * num as int, 1, den as int);
            vstd::arithmetic::div_mod::lemma_div_pos_is_pos(65535 * num as int, den as int);
        }
        (65535 * num) / den
    } else if num == 0 {
        0
    } else {
        proof {
            vstd::arithmetic::div_mod::lemma_div_is_ordered_by_denominator(65535 * num as int, 1, -den as int);
            vstd::arithmetic::div_mod::lemma_div_pos_is_pos(65535 * num as int, -den as int);
        }
        -((65535 * num) / (-den))
    }
}

/// The voxel of the node on the edge from the sample `a` to the sample `b`: where the
/// surface crosses the edge, and which material it shows there.
pub fn chose_voxel_for_node(a: Voxel, b: Voxel) -> (r: Voxel)
    ensures
        r == node_voxel(a, b),
{
    let al = a.value() as i64;
    let bl = b.value() as i64;
    if a.is_empty() {
        let level = fraction_level_exec(-al, bl - al);
        return Voxel::new(clamp_to_i32(level), b.id());
    }
    if b.is_empty() {
        let den = al - bl;
        let level: i64 = if den == 0 {
            0
        } else {
            proof {
                vstd::arithmetic::div_mod::lemma_div_is_ordered_by_denominator(
                    65535 * (den + bl) as int,
                    1,
                    den as int,
                );
                vstd::arithmetic::div_mod::lemma_div_pos_is_pos(65535 * (den + bl) as int, den as int);
            }
            (65535 * (den + bl)) / den
        };
        return Voxel::new(clamp_to_i32(level), a.id());
    }
    Voxel::new(0, VoxelId::new(0))
}

/// `level` limited to one past the voxel range on either side, which keeps what
/// `Voxel::new` makes of it.
fn clamp_to_i32(level: i64) -> (r: i32)
    ensures
        forall|id: VoxelId| #[trigger] voxel_from_level(r as int, id) == voxel_from_level(level as int, id),
{
    if level < -(VOXEL_VALUE_MAX as i64) - 1 {
        -VOXEL_VALUE_MAX - 1
    } else if level > VOXEL_VALUE_MAX as i64 + 1 {
        VOXEL_VALUE_MAX + 1
    } else {
        level as i32
    }
}

/// The voxels of the twelve edge nodes of a cell, from the samples at its corners.
pub fn get_vertex_nodes(voxels: VoxelsBlock) -> (r: Nodes)
    ensures
        r[NODE_DS as int] == node_voxel(voxels[0][0][0], voxels[1][0][0]),
        r[NODE_DE as int] == node_voxel(voxels[1][0][0], voxels[1][0][1]),
        r[NODE_DN as int] == node_voxel(voxels[0][0][1], voxels[1][0][1]),
        r[NODE_DW as int] == node_voxel(voxels[0][0][0], voxels[0][0][1]),
        r[NODE_NE as int] == node_voxel(voxels[1][0][1], voxels[1][1][1]),
        r[NODE_NW as int] == node_voxel(voxels[0][0][1], voxels[0][1][1]),
        r[NODE_SE as int] == node_voxel(voxels[1][0][0], voxels[1][1][0]),
        r[NODE_SW as int] == node_voxel(voxels[0][0][0], voxels[0][1][0]),
        r[NODE_US as int] == node_voxel(voxels[0][1][0], voxels[1][1][0]),
        r[NODE_UE as int] == node_voxel(voxels[1][1][0], voxels[1][1][1]),
        r[NODE_UN as int] == node_voxel(voxels[0][1][1], voxels[1][1][1]),
        r[NODE_UW as int] == node_voxel(voxels[0][1][0], voxels[0][1][1]),
{
    let mut result: Nodes = [Voxel::empty(), Voxel::empty(), Voxel::empty(), Voxel::empty(),
        Voxel::empty(), Voxel::empty(), Voxel::empty(), Voxel::empty(), Voxel::empty(),
        Voxel::empty(), Voxel::empty(), Voxel::empty()];

    result[NODE_DS] = chose_voxel_for_node(voxels[0][0][0], voxels[1][0][0]);
    result[NODE_DE] = chose_voxel_for_node(voxels[1][0][0], voxels[1][0][1]);
    result[NODE_DN] = chose_voxel_for_node(voxels[0][0][1], voxels[1][0][1]);
    result[NODE_DW] = chose_voxel_for_node(voxels[0][0][0], voxels[0][0][1]);

    result[NODE_NE] = chose_voxel_for_node(voxels[1][0][1], voxels[1][1][1]);
    result[NODE_NW] = chose_voxel_for_node(voxels[0][0][1], voxels[0][1][1]);
    result[NODE_SE] = chose_voxel_for_node(voxels[1][0][0], voxels[1][1][0]);
    result[NODE_SW] = chose_voxel_for_node(voxels[0][0][0], voxels[0][1][0]);

    result[NODE_US] = chose_voxel_for_node(voxels[0][1][0], voxels[1][1][0]);
    result[NODE_UE] = chose_voxel_for_node(voxels[1][1][0], voxels[1][1][1]);
    result[NODE_UN] = chose_voxel_for_node(voxels[0][1][1], voxels[1][1][1]);
    result[NODE_UW] = chose_voxel_for_node(voxels[0][1][0], voxels[0][1][1]);

    result
}

} // verus!
verus! {

/// `q = 65535 num / den` rounded down is the level in `[0, 65535]` with
/// `q den <= 65535 num < (q + 1) den`.
proof fn lemma_floor_fraction(num: int, den: int)
    requires
        0 <= num <= den,
        0 < den,
    ensures
        0 <= (65535 * num) / den <= 65535,
        ((65535 * num) / den) * den <= 65535 * num,
        65535 * num < ((65535 * num) / den + 1) * den,
{
    let q = (65535 * num) / den;
    vstd::arithmetic::div_mod::lemma_fundamental_div_mod(65535 * num, den);
    let r = (65535 * num) % den;
    assert(0 <= r < den);
    assert(den * q + r == 65535 * num);
    assert(q * den <= 65535 * num) by (nonlinear_arith)
        requires
            den * q + r == 65535 * num,
            0 <= r,
    ;
    assert(65535 * num < (q + 1) * den) by (nonlinear_arith)
        requires
            den * q + r == 65535 * num,
            r < den,
    ;
    assert(0 <= q) by (nonlinear_arith)
        requires
            den * q + r == 65535 * num,
            r < den,
            0 <= num,
            0 < den,
    ;
    assert(q <= 65535) by (nonlinear_arith)
        requires
            den * q + r == 65535 * num,
            0 <= r,
            num <= den,
            0 < den,
    ;
}

/// `q = 65535 num / den` rounded down, for `num >= 0`, is a level with
/// `q den <= 65535 num < (q + 1) den`.
proof fn lemma_floor_quotient(num: int, den: int)
    requires
        0 <= num,
        0 < den,
    ensures
        0 <= (65535 * num) / den,
        ((65535 * num) / den) * den <= 65535 * num,
        65535 * num < ((65535 * num) / den + 1) * den,
{
    let q = (65535 * num) / den;
    vstd::arithmetic::div_mod::lemma_fundamental_div_mod(65535 * num, den);
    let r = (65535 * num) % den;
    assert(q * den <= 65535 * num) by (nonlinear_arith)
        requires
            den * q + r == 65535 * num,
            0 <= r,
    ;
    assert(65535 * num < (q + 1) * den) by (nonlinear_arith)
        requires
            den * q + r == 65535 * num,
            r < den,
    ;
    vstd::arithmetic::div_mod::lemma_div_pos_is_pos(65535 * num, den);
}

/// Where the surface crosses the edge from sample `a` to sample `b`, as the node's level
/// out of 65535. From an empty `a` to a solid `b`, the crossing lies at the fraction
/// `-a / (b - a)` of the edge from `a`, rounded down, and the node shows `b`'s material;
/// from a solid `a` to an empty `b`, it lies at `a / (a - b)`, and the node shows `a`'s
/// material; between two solid samples the edge has no crossing and the node is empty with
/// level zero.
pub proof fn lemma_node_crossing(a: Voxel, b: Voxel)
    ensures
        a is Empty && b is NotEmpty && b.level() - a.level() > 0 ==> ({
            let n = node_voxel(a, b);
            let den = b.level() - a.level();
            &&& 0 <= n.level() <= 65535
            &&& n.level() * den <= 65535 * (-a.level())
            &&& 65535 * (-a.level()) < (n.level() + 1) * den
            &&& n.level() > 0 ==> n.id_spec() == b.id_spec()
        }),
        a is NotEmpty && b is Empty && a.level() - b.level() > 0 ==> ({
            let n = node_voxel(a, b);
            let den = a.level() - b.level();
            &&& 0 <= n.level() <= 65535
            &&& n.level() * den <= 65535 * a.level()
            &&& 65535 * a.level() < (n.level() + 1) * den
            &&& n.level() > 0 ==> n.id_spec() == a.id_spec()
        }),
        a is NotEmpty && b is NotEmpty ==> node_voxel(a, b) is Empty && node_voxel(a, b).level() == 0,
        a is Empty && b is Empty && b.level() - a.level() > 0 ==> ({
            let n = node_voxel(a, b);
            let den = b.level() - a.level();
            &&& 0 <= n.level() <= 65535
            &&& n.level() * den <= 65535 * (-a.level())
            &&& n.level() < 65535 ==> 65535 * (-a.level()) < (n.level() + 1) * den
        }),
        a is Empty && b is Empty && b.level() < a.level() ==> node_voxel(a, b) is Empty,
{
    if a is Empty && b is NotEmpty && b.level() - a.level() > 0 {
        lemma_floor_fraction(-a.level(), b.level() - a.level());
    }
    if a is Empty && b is Empty && b.level() - a.level() > 0 {
        let (num, den) = (-a.level(), b.level() - a.level());
        lemma_floor_quotient(num, den);
        let q = (65535 * num) / den;
        if q > 65535 {
            assert(65535 * den <= q * den) by (nonlinear_arith)
                requires
                    q > 65535,
                    den > 0,
            ;
        }
    }
    if a is Empty && b is Empty && b.level() < a.level() && a.level() != 0 {
        vstd::arithmetic::div_mod::lemma_div_pos_is_pos(65535 * (-a.level()), a.level() - b.level());
    }
    if a is NotEmpty && b is Empty && a.level() - b.level() > 0 {
        let den = a.level() - b.level();
        assert(den + b.level() == a.level());
        lemma_floor_fraction(a.level(), den);
    }
}

} // verus!
