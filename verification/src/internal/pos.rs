use super::direction::{direction_offset, Direction};
use vstd::arithmetic::div_mod::{
    lemma_div_denominator, lemma_fundamental_div_mod, lemma_fundamental_div_mod_converse,
};
use vstd::arithmetic::mul::{lemma_mul_inequality, lemma_mul_nonnegative, lemma_mul_upper_bound};
use vstd::prelude::*;
use vstd::std_specs::convert::FromSpecImpl;
use vstd::std_specs::ops::{AddSpecImpl, DivSpecImpl, MulSpecImpl, SubSpecImpl};

verus! {

/// A position on a 3D integer grid.
#[derive(Debug, Default, Copy, Clone, PartialEq, Eq, PartialOrd, Ord, Hash, Structural)]
pub struct Pos<T> {
    pub x: T,
    pub y: T,
    pub z: T,
}

/// Position of a voxel inside a chunk.
pub type VoxelPos = Pos<usize>;

/// Position of a voxel in the world.
pub type GlobalVoxelPos = Pos<i64>;

/// Position of a chunk in the world (at some level of detail).
pub type ChunkPos = Pos<i64>;

pub open spec fn in_i64(v: int) -> bool {
    i64::MIN <= v <= i64::MAX
}

pub open spec fn in_usize(v: int) -> bool {
    0 <= v <= usize::MAX
}

pub open spec fn abs_int(v: int) -> int {
    if v < 0 {
        -v
    } else {
        v
    }
}

pub open spec fn max_int(a: int, b: int) -> int {
    if a >= b {
        a
    } else {
        b
    }
}

/// Index of `(x, y, z)` in a box whose rows are `sx` long and whose layers are `sx * sy` large.
pub open spec fn rect_index(x: int, y: int, z: int, sx: int, sy: int) -> int {
    x + y * sx + z * sx * sy
}

impl<T: Copy> Pos<T> {
    pub fn new(x: T, y: T, z: T) -> (r: Self)
        ensures
            r == (Pos { x, y, z }),
    {
        Self { x, y, z }
    }

    pub fn from_scalar(scalar: T) -> (r: Self)
        ensures
            r == (Pos { x: scalar, y: scalar, z: scalar }),
    {
        Self::new(scalar, scalar, scalar)
    }
}

impl Pos<i64> {
    pub fn zero() -> (r: Self)
        ensures
            r == (Pos::<i64> { x: 0, y: 0, z: 0 }),
    {
        Self { x: 0, y: 0, z: 0 }
    }

    /// Chebyshev distance from the origin.
    pub open spec fn dist_spec(self) -> int {
        max_int(max_int(abs_int(self.x as int), abs_int(self.y as int)), abs_int(self.z as int))
    }

    /// Chebyshev distance from the origin: the largest absolute coordinate.
    pub fn dist(self) -> (r: i64)
        requires
            self.x > i64::MIN,
            self.y > i64::MIN,
            self.z > i64::MIN,
        ensures
            r == self.dist_spec(),
    {
        let ax = if self.x < 0 { -self.x } else { self.x };
        let ay = if self.y < 0 { -self.y } else { self.y };
        let az = if self.z < 0 { -self.z } else { self.z };
        let m = if ax >= ay { ax } else { ay };
        if m >= az { m } else { az }
    }

    pub fn from_index_2d(index: usize, size: usize) -> (r: Self)
        requires
            size > 0,
            index % size <= i64::MAX,
            index / size <= i64::MAX,
        ensures
            r.x == index % size,
            r.y == 0,
            r.z == index / size,
    {
        let x = (index % size) as i64;
        let z = (index / size) as i64;
        Self::new(x, 0, z)
    }

    pub fn from_index(index: usize, size: usize) -> (r: Self)
        requires
            size > 0,
            size * size <= usize::MAX,
            size <= i64::MAX,
            index as int / (size * size) <= i64::MAX,
        ensures
            r.x == index % size,
            r.y == (index / size) % size,
            r.z == index as int / (size * size),
    {
        proof {
            vstd::arithmetic::mul::lemma_mul_strictly_positive(size as int, size as int);
        }
        let x = (index % size) as i64;
        let y = ((index / size) % size) as i64;
        let z = (index / (size * size)) as i64;
        Self::new(x, y, z)
    }

    pub fn from_index_rect(index: usize, size: VoxelPos) -> (r: Self)
        requires
            size.x > 0,
            size.y > 0,
            size.x * size.y <= usize::MAX,
            size.x <= i64::MAX,
            size.y <= i64::MAX,
            index as int / (size.x * size.y) <= i64::MAX,
        ensures
            r.x == index % size.x,
            r.y == (index / size.x) % size.y,
            r.z == index as int / (size.x * size.y),
    {
        proof {
            vstd::arithmetic::mul::lemma_mul_strictly_positive(size.x as int, size.y as int);
        }
        let x = (index % size.x) as i64;
        let y = ((index / size.x) % size.y) as i64;
        let z = (index / (size.x * size.y)) as i64;
        Self::new(x, y, z)
    }
}

impl Pos<usize> {
    pub fn zero() -> (r: Self)
        ensures
            r == (Pos::<usize> { x: 0, y: 0, z: 0 }),
    {
        Self { x: 0, y: 0, z: 0 }
    }

    pub fn from_index_2d(index: usize, size: usize) -> (r: Self)
        requires
            size > 0,
        ensures
            r.x == index % size,
            r.y == 0,
            r.z == index / size,
    {
        Self::new(index % size, 0, index / size)
    }

    pub fn from_index(index: usize, size: usize) -> (r: Self)
        requires
            size > 0,
            size * size <= usize::MAX,
        ensures
            r.x == index % size,
            r.y == (index / size) % size,
            r.z == index as int / (size * size),
    {
        proof {
            vstd::arithmetic::mul::lemma_mul_strictly_positive(size as int, size as int);
        }
        Self::new(index % size, (index / size) % size, index / (size * size))
    }

    pub fn from_index_rect(index: usize, size: VoxelPos) -> (r: Self)
        requires
            size.x > 0,
            size.y > 0,
            size.x * size.y <= usize::MAX,
        ensures
            r.x == index % size.x,
            r.y == (index / size.x) % size.y,
            r.z == index as int / (size.x * size.y),
    {
        proof {
            vstd::arithmetic::mul::lemma_mul_strictly_positive(size.x as int, size.y as int);
        }
        Self::new(index % size.x, (index / size.x) % size.y, index / (size.x * size.y))
    }

    /// Index of this position in a cube with edge `size`, `x` running fastest.
    pub fn to_index(&self, size: usize) -> (r: usize)
        requires
            rect_index(self.x as int, self.y as int, self.z as int, size as int, size as int)
                <= usize::MAX,
        ensures
            r == rect_index(self.x as int, self.y as int, self.z as int, size as int, size as int),
    {
        proof {
            lemma_rect_index_parts(self.x as int, self.y as int, self.z as int, size as int, size as int);
        }
        self.x + self.y * size + self.z * size * size
    }

    /// Index of this position in a box of extent `size`, `x` running fastest.
    pub fn to_index_rect(&self, size: Self) -> (r: usize)
        requires
            rect_index(self.x as int, self.y as int, self.z as int, size.x as int, size.y as int)
                <= usize::MAX,
            self.z * size.x <= usize::MAX,
        ensures
            r == rect_index(self.x as int, self.y as int, self.z as int, size.x as int, size.y as int),
    {
        proof {
            lemma_rect_index_parts(self.x as int, self.y as int, self.z as int, size.x as int, size.y as int);
        }
        self.x + self.y * size.x + self.z * size.x * size.y
    }
}


/// Component-wise arithmetic on positions. Each operator requires that no component
/// leaves the range of the coordinate type.
impl core::ops::Add for Pos<i64> {
    type Output = Pos<i64>;

    fn add(self, other: Pos<i64>) -> (r: Pos<i64>) {
        Pos { x: self.x + other.x, y: self.y + other.y, z: self.z + other.z }
    }
}

impl AddSpecImpl for Pos<i64> {
    open spec fn obeys_add_spec() -> bool {
        true
    }

    open spec fn add_req(self, other: Pos<i64>) -> bool {
        in_i64(self.x + other.x) && in_i64(self.y + other.y) && in_i64(self.z + other.z)
    }

    open spec fn add_spec(self, other: Pos<i64>) -> Pos<i64> {
        Pos { x: (self.x + other.x) as i64, y: (self.y + other.y) as i64, z: (self.z + other.z) as i64 }
    }
}

impl core::ops::Sub for Pos<i64> {
    type Output = Pos<i64>;

    fn sub(self, other: Pos<i64>) -> (r: Pos<i64>) {
        Pos { x: self.x - other.x, y: self.y - other.y, z: self.z - other.z }
    }
}

impl SubSpecImpl for Pos<i64> {
    open spec fn obeys_sub_spec() -> bool {
        true
    }

    open spec fn sub_req(self, other: Pos<i64>) -> bool {
        in_i64(self.x - other.x) && in_i64(self.y - other.y) && in_i64(self.z - other.z)
    }

    open spec fn sub_spec(self, other: Pos<i64>) -> Pos<i64> {
        Pos { x: (self.x - other.x) as i64, y: (self.y - other.y) as i64, z: (self.z - other.z) as i64 }
    }
}

impl core::ops::Mul for Pos<i64> {
    type Output = Pos<i64>;

    fn mul(self, other: Pos<i64>) -> (r: Pos<i64>) {
        Pos { x: self.x * other.x, y: self.y * other.y, z: self.z * other.z }
    }
}

impl MulSpecImpl for Pos<i64> {
    open spec fn obeys_mul_spec() -> bool {
        true
    }

    open spec fn mul_req(self, other: Pos<i64>) -> bool {
        in_i64(self.x * other.x) && in_i64(self.y * other.y) && in_i64(self.z * other.z)
    }

    open spec fn mul_spec(self, other: Pos<i64>) -> Pos<i64> {
        Pos { x: (self.x * other.x) as i64, y: (self.y * other.y) as i64, z: (self.z * other.z) as i64 }
    }
}

impl core::ops::Mul<i64> for Pos<i64> {
    type Output = Pos<i64>;

    fn mul(self, other: i64) -> (r: Pos<i64>) {
        Pos { x: self.x * other, y: self.y * other, z: self.z * other }
    }
}

impl MulSpecImpl<i64> for Pos<i64> {
    open spec fn obeys_mul_spec() -> bool {
        true
    }

    open spec fn mul_req(self, other: i64) -> bool {
        in_i64(self.x * other) && in_i64(self.y * other) && in_i64(self.z * other)
    }

    open spec fn mul_spec(self, other: i64) -> Pos<i64> {
        Pos { x: (self.x * other) as i64, y: (self.y * other) as i64, z: (self.z * other) as i64 }
    }
}

/// Moves one step in the given direction.
impl core::ops::Add<Direction> for Pos<i64> {
    type Output = Pos<i64>;

    fn add(self, rhs: Direction) -> (r: Pos<i64>) {
        let d: Pos<i64> = rhs.into();
        self + d
    }
}

impl AddSpecImpl<Direction> for Pos<i64> {
    open spec fn obeys_add_spec() -> bool {
        true
    }

    open spec fn add_req(self, rhs: Direction) -> bool {
        in_i64(self.x + direction_offset(rhs).0) && in_i64(self.y + direction_offset(rhs).1)
            && in_i64(self.z + direction_offset(rhs).2)
    }

    open spec fn add_spec(self, rhs: Direction) -> Pos<i64> {
        Pos {
            x: (self.x + direction_offset(rhs).0) as i64,
            y: (self.y + direction_offset(rhs).1) as i64,
            z: (self.z + direction_offset(rhs).2) as i64,
        }
    }
}

/// The unit step of a direction as a position.
impl From<Direction> for Pos<i64> {
    fn from(d: Direction) -> (r: Pos<i64>) {
        match d {
            Direction::UP => Pos { x: 0, y: 1, z: 0 },
            Direction::DOWN => Pos { x: 0, y: -1, z: 0 },
            Direction::WEST => Pos { x: -1, y: 0, z: 0 },
            Direction::EAST => Pos { x: 1, y: 0, z: 0 },
            Direction::NORTH => Pos { x: 0, y: 0, z: -1 },
            Direction::SOUTH => Pos { x: 0, y: 0, z: 1 },
        }
    }
}

impl FromSpecImpl<Direction> for Pos<i64> {
    open spec fn obeys_from_spec() -> bool {
        true
    }

    open spec fn from_spec(d: Direction) -> Pos<i64> {
        Pos {
            x: direction_offset(d).0 as i64,
            y: direction_offset(d).1 as i64,
            z: direction_offset(d).2 as i64,
        }
    }
}

impl From<(i64, i64, i64)> for Pos<i64> {
    fn from(t: (i64, i64, i64)) -> (r: Pos<i64>) {
        Pos { x: t.0, y: t.1, z: t.2 }
    }
}

impl FromSpecImpl<(i64, i64, i64)> for Pos<i64> {
    open spec fn obeys_from_spec() -> bool {
        true
    }

    open spec fn from_spec(t: (i64, i64, i64)) -> Pos<i64> {
        Pos { x: t.0, y: t.1, z: t.2 }
    }
}

impl From<(usize, usize, usize)> for Pos<usize> {
    fn from(t: (usize, usize, usize)) -> (r: Pos<usize>) {
        Pos { x: t.0, y: t.1, z: t.2 }
    }
}

impl FromSpecImpl<(usize, usize, usize)> for Pos<usize> {
    open spec fn obeys_from_spec() -> bool {
        true
    }

    open spec fn from_spec(t: (usize, usize, usize)) -> Pos<usize> {
        Pos { x: t.0, y: t.1, z: t.2 }
    }
}

impl core::ops::Add for Pos<usize> {
    type Output = Pos<usize>;

    fn add(self, other: Pos<usize>) -> (r: Pos<usize>) {
        Pos { x: self.x + other.x, y: self.y + other.y, z: self.z + other.z }
    }
}

impl AddSpecImpl for Pos<usize> {
    open spec fn obeys_add_spec() -> bool {
        true
    }

    open spec fn add_req(self, other: Pos<usize>) -> bool {
        in_usize(self.x + other.x) && in_usize(self.y + other.y) && in_usize(self.z + other.z)
    }

    open spec fn add_spec(self, other: Pos<usize>) -> Pos<usize> {
        Pos { x: (self.x + other.x) as usize, y: (self.y + other.y) as usize, z: (self.z + other.z) as usize }
    }
}

impl core::ops::Sub for Pos<usize> {
    type Output = Pos<usize>;

    fn sub(self, other: Pos<usize>) -> (r: Pos<usize>) {
        Pos { x: self.x - other.x, y: self.y - other.y, z: self.z - other.z }
    }
}

impl SubSpecImpl for Pos<usize> {
    open spec fn obeys_sub_spec() -> bool {
        true
    }

    open spec fn sub_req(self, other: Pos<usize>) -> bool {
        other.x <= self.x && other.y <= self.y && other.z <= self.z
    }

    open spec fn sub_spec(self, other: Pos<usize>) -> Pos<usize> {
        Pos { x: (self.x - other.x) as usize, y: (self.y - other.y) as usize, z: (self.z - other.z) as usize }
    }
}

impl core::ops::Mul for Pos<usize> {
    type Output = Pos<usize>;

    fn mul(self, other: Pos<usize>) -> (r: Pos<usize>) {
        Pos { x: self.x * other.x, y: self.y * other.y, z: self.z * other.z }
    }
}

impl MulSpecImpl for Pos<usize> {
    open spec fn obeys_mul_spec() -> bool {
        true
    }

    open spec fn mul_req(self, other: Pos<usize>) -> bool {
        in_usize(self.x * other.x) && in_usize(self.y * other.y) && in_usize(self.z * other.z)
    }

    open spec fn mul_spec(self, other: Pos<usize>) -> Pos<usize> {
        Pos { x: (self.x * other.x) as usize, y: (self.y * other.y) as usize, z: (self.z * other.z) as usize }
    }
}

impl core::ops::Mul<usize> for Pos<usize> {
    type Output = Pos<usize>;

    fn mul(self, other: usize) -> (r: Pos<usize>) {
        Pos { x: self.x * other, y: self.y * other, z: self.z * other }
    }
}

impl MulSpecImpl<usize> for Pos<usize> {
    open spec fn obeys_mul_spec() -> bool {
        true
    }

    open spec fn mul_req(self, other: usize) -> bool {
        in_usize(self.x * other) && in_usize(self.y * other) && in_usize(self.z * other)
    }

    open spec fn mul_spec(self, other: usize) -> Pos<usize> {
        Pos { x: (self.x * other) as usize, y: (self.y * other) as usize, z: (self.z * other) as usize }
    }
}

impl core::ops::Div<usize> for Pos<usize> {
    type Output = Pos<usize>;

    fn div(self, other: usize) -> (r: Pos<usize>) {
        Pos { x: self.x / other, y: self.y / other, z: self.z / other }
    }
}

impl DivSpecImpl<usize> for Pos<usize> {
    open spec fn obeys_div_spec() -> bool {
        true
    }

    open spec fn div_req(self, other: usize) -> bool {
        other != 0
    }

    open spec fn div_spec(self, other: usize) -> Pos<usize> {
        Pos { x: self.x / other, y: self.y / other, z: self.z / other }
    }
}

/// Each partial sum and product of a non-negative box index is bounded by the index.
proof fn lemma_rect_index_parts(x: int, y: int, z: int, sx: int, sy: int)
    requires
        0 <= x,
        0 <= y,
        0 <= z,
        0 <= sx,
        0 <= sy,
    ensures
        0 <= y * sx,
        0 <= z * sx,
        0 <= z * sx * sy,
        y * sx <= rect_index(x, y, z, sx, sy),
        z * sx * sy <= rect_index(x, y, z, sx, sy),
        x + y * sx <= rect_index(x, y, z, sx, sy),
        sy > 0 ==> z * sx <= z * sx * sy,
        sx == sy ==> z * sx <= rect_index(x, y, z, sx, sy),
{
    lemma_mul_nonnegative(y, sx);
    lemma_mul_nonnegative(z, sx);
    lemma_mul_nonnegative(z * sx, sy);
    if sx == sy && sx == 0 {
        assert(z * sx == 0) by (nonlinear_arith) requires sx == 0;
    }
    if sy > 0 {
        lemma_mul_inequality(1, sy, z * sx);
        assert(z * sx * 1 == z * sx);
        assert((z * sx) * sy == sy * (z * sx)) by (nonlinear_arith);
        assert(1 * (z * sx) <= sy * (z * sx));
    }
}

/// Reading a position back from its box index gives the same position.
pub proof fn lemma_index_round_trip(x: int, y: int, z: int, sx: int, sy: int)
    requires
        0 <= x < sx,
        0 <= y < sy,
        0 <= z,
    ensures
        rect_index(x, y, z, sx, sy) % sx == x,
        (rect_index(x, y, z, sx, sy) / sx) % sy == y,
        rect_index(x, y, z, sx, sy) / (sx * sy) == z,
{
    let i = rect_index(x, y, z, sx, sy);
    assert(x + y * sx + z * sx * sy == (y + z * sy) * sx + x) by (nonlinear_arith);
    assert(0 <= y + z * sy) by (nonlinear_arith)
        requires
            0 <= y,
            0 <= z,
            0 < sy,
    ;
    lemma_fundamental_div_mod_converse(i, sx, y + z * sy, x);
    assert(y + z * sy == z * sy + y);
    lemma_fundamental_div_mod_converse(y + z * sy, sy, z, y);
    lemma_div_denominator(i, sx, sy);
}

/// The box index of the position read from an index is that index.
pub proof fn lemma_position_round_trip(i: int, sx: int, sy: int)
    requires
        0 <= i,
        0 < sx,
        0 < sy,
    ensures
        rect_index(i % sx, (i / sx) % sy, i / (sx * sy), sx, sy) == i,
        0 <= i % sx < sx,
        0 <= (i / sx) % sy < sy,
        0 <= i / (sx * sy),
{
    lemma_fundamental_div_mod(i, sx);
    let q = i / sx;
    assert(0 <= q) by (nonlinear_arith)
        requires
            0 <= i,
            0 < sx,
            q == i / sx,
    ;
    lemma_fundamental_div_mod(q, sy);
    lemma_div_denominator(i, sx, sy);
    let z = q / sy;
    assert(0 <= z) by (nonlinear_arith)
        requires
            0 <= q,
            0 < sy,
            z == q / sy,
    ;
    assert(rect_index(i % sx, q % sy, z, sx, sy) == i % sx + (q % sy) * sx + z * sx * sy);
    assert(i == sx * q + i % sx);
    assert(q == sy * z + q % sy);
    assert(sx * q == sx * (sy * z + q % sy));
    assert(sx * (sy * z + q % sy) == (q % sy) * sx + z * sx * sy) by (nonlinear_arith);
}

} // verus!
verus! {

/// Iterator over all positions of the box `[0, size)`, `x` running fastest, then `y`, then `z`.
pub struct PosIter<T> {
    pos: Pos<T>,
    size: Pos<T>,
}

impl<T> View for PosIter<T> {
    /// The next position to look at and the extent of the box.
    type V = (Pos<T>, Pos<T>);

    closed spec fn view(&self) -> (Pos<T>, Pos<T>) {
        (self.pos, self.size)
    }
}

/// One step of the box walk over signed positions: the new cursor and the item returned.
pub open spec fn pos_iter_step_i64(cur: Pos<i64>, size: Pos<i64>) -> (Pos<i64>, Option<Pos<i64>>) {
    let c1 = if cur.x >= size.x {
        Pos { x: 0i64, y: (cur.y + 1) as i64, z: cur.z }
    } else {
        cur
    };
    let c2 = if c1.y >= size.y {
        Pos { x: c1.x, y: 0i64, z: (c1.z + 1) as i64 }
    } else {
        c1
    };
    if c2.z >= size.z {
        (c2, None)
    } else {
        (Pos { x: (c2.x + 1) as i64, y: c2.y, z: c2.z }, Some(c2))
    }
}

/// The counters of the signed box walk do not overflow in the next step.
pub open spec fn pos_iter_step_ok_i64(cur: Pos<i64>, size: Pos<i64>) -> bool {
    &&& cur.x >= size.x ==> cur.y < i64::MAX
    &&& cur.z < i64::MAX
}

/// One step of the box walk over unsigned positions: the new cursor and the item returned.
pub open spec fn pos_iter_step_usize(cur: Pos<usize>, size: Pos<usize>) -> (Pos<usize>, Option<Pos<usize>>) {
    let c1 = if cur.x >= size.x {
        Pos { x: 0usize, y: (cur.y + 1) as usize, z: cur.z }
    } else {
        cur
    };
    let c2 = if c1.y >= size.y {
        Pos { x: c1.x, y: 0usize, z: (c1.z + 1) as usize }
    } else {
        c1
    };
    if c2.z >= size.z {
        (c2, None)
    } else {
        (Pos { x: (c2.x + 1) as usize, y: c2.y, z: c2.z }, Some(c2))
    }
}

/// The counters of the unsigned box walk do not overflow in the next step.
pub open spec fn pos_iter_step_ok_usize(cur: Pos<usize>, size: Pos<usize>) -> bool {
    &&& cur.x >= size.x ==> cur.y < usize::MAX
    &&& cur.z < usize::MAX
}

impl Pos<i64> {
    /// Walks over every position of the box `[0, size)`.
    pub fn iter(size: Pos<i64>) -> (r: PosIter<i64>)
        ensures
            r@ == (Pos::<i64> { x: 0, y: 0, z: 0 }, size),
    {
        PosIter { pos: Pos::<i64>::zero(), size }
    }
}

impl Pos<usize> {
    /// Walks over every position of the box `[0, size)`.
    pub fn iter(size: Pos<usize>) -> (r: PosIter<usize>)
        ensures
            r@ == (Pos::<usize> { x: 0, y: 0, z: 0 }, size),
    {
        PosIter { pos: Pos::<usize>::zero(), size }
    }
}

impl PosIter<i64> {
    pub fn next(&mut self) -> (r: Option<Pos<i64>>)
        requires
            pos_iter_step_ok_i64(old(self)@.0, old(self)@.1),
        ensures
            final(self)@.1 == old(self)@.1,
            (final(self)@.0, r) == pos_iter_step_i64(old(self)@.0, old(self)@.1),
    {
        if self.pos.x >= self.size.x {
            self.pos.x = 0;
            self.pos.y = self.pos.y + 1;
        }
        if self.pos.y >= self.size.y {
            self.pos.y = 0;
            self.pos.z = self.pos.z + 1;
        }
        if self.pos.z >= self.size.z {
            return None;
        }
        let pos = self.pos;
        self.pos.x = self.pos.x + 1;
        Some(pos)
    }
}

impl PosIter<usize> {
    pub fn next(&mut self) -> (r: Option<Pos<usize>>)
        requires
            pos_iter_step_ok_usize(old(self)@.0, old(self)@.1),
        ensures
            final(self)@.1 == old(self)@.1,
            (final(self)@.0, r) == pos_iter_step_usize(old(self)@.0, old(self)@.1),
    {
        if self.pos.x >= self.size.x {
            self.pos.x = 0;
            self.pos.y = self.pos.y + 1;
        }
        if self.pos.y >= self.size.y {
            self.pos.y = 0;
            self.pos.z = self.pos.z + 1;
        }
        if self.pos.z >= self.size.z {
            return None;
        }
        let pos = self.pos;
        self.pos.x = self.pos.x + 1;
        Some(pos)
    }
}

/// The position of item `k` of the box walk.
pub open spec fn box_item(k: int, sx: int, sy: int) -> Pos<usize> {
    Pos { x: (k % sx) as usize, y: ((k / sx) % sy) as usize, z: (k / (sx * sy)) as usize }
}

/// The cursor of the box walk before it returns item `k`.
pub open spec fn box_cursor(k: int, sx: int, sy: int) -> Pos<usize> {
    if k == 0 {
        Pos { x: 0usize, y: 0usize, z: 0usize }
    } else {
        let p = box_item(k - 1, sx, sy);
        Pos { x: (p.x + 1) as usize, y: p.y, z: p.z }
    }
}

/// The item after `k` in the box walk: `x` advances, wrapping into `y`, then `z`.
proof fn lemma_box_item_next(k: int, sx: int, sy: int)
    requires
        0 <= k,
        0 < sx,
        0 < sy,
    ensures
        ({
            let (x, y, z) = (k % sx, (k / sx) % sy, k / (sx * sy));
            let (x1, y1, z1) = ((k + 1) % sx, ((k + 1) / sx) % sy, (k + 1) / (sx * sy));
            &&& 0 <= x < sx
            &&& 0 <= y < sy
            &&& 0 <= z
            &&& z <= k
            &&& (x + 1 < sx ==> x1 == x + 1 && y1 == y && z1 == z)
            &&& (x + 1 == sx && y + 1 < sy ==> x1 == 0 && y1 == y + 1 && z1 == z)
            &&& (x + 1 == sx && y + 1 == sy ==> x1 == 0 && y1 == 0 && z1 == z + 1)
        }),
{
    lemma_position_round_trip(k, sx, sy);
    let (x, y, z) = (k % sx, (k / sx) % sy, k / (sx * sy));
    assert(rect_index(x, y, z, sx, sy) == k);
    assert(z <= k) by (nonlinear_arith)
        requires
            rect_index(x, y, z, sx, sy) == k,
            0 <= x,
            0 <= y,
            0 <= z,
            0 < sx,
            0 < sy,
    ;
    if x + 1 < sx {
        assert(rect_index(x + 1, y, z, sx, sy) == k + 1);
        lemma_index_round_trip(x + 1, y, z, sx, sy);
    } else if y + 1 < sy {
        assert(rect_index(0, y + 1, z, sx, sy) == k + 1) by (nonlinear_arith)
            requires
                rect_index(x, y, z, sx, sy) == k,
                x + 1 == sx,
        ;
        lemma_index_round_trip(0, y + 1, z, sx, sy);
    } else {
        assert(rect_index(0, 0, z + 1, sx, sy) == k + 1) by (nonlinear_arith)
            requires
                rect_index(x, y, z, sx, sy) == k,
                x + 1 == sx,
                y + 1 == sy,
        ;
        lemma_index_round_trip(0, 0, z + 1, sx, sy);
    }
}

/// The box walk returns the positions of `[0, size)` in index order: before item `k` its
/// cursor is `box_cursor(k)`, and the next call returns `box_item(k)` and moves the cursor to
/// `box_cursor(k + 1)`; once all `size.x * size.y * size.z` items are out it returns `None`.
pub proof fn lemma_box_walk(size: Pos<usize>, k: int)
    requires
        size.x > 0,
        size.y > 0,
        size.z > 0,
        size.x * size.y * size.z <= usize::MAX,
        0 <= k <= size.x * size.y * size.z,
    ensures
        pos_iter_step_ok_usize(box_cursor(k, size.x as int, size.y as int), size),
        k < size.x * size.y * size.z ==> pos_iter_step_usize(box_cursor(k, size.x as int, size.y as int), size)
            == (box_cursor(k + 1, size.x as int, size.y as int), Some(box_item(k, size.x as int, size.y as int))),
        k == size.x * size.y * size.z ==> pos_iter_step_usize(box_cursor(k, size.x as int, size.y as int), size).1
            is None,
{
    let (sx, sy, sz) = (size.x as int, size.y as int, size.z as int);
    let v = sx * sy * sz;
    vstd::arithmetic::mul::lemma_mul_strictly_positive(sx, sy);
    vstd::arithmetic::mul::lemma_mul_strictly_positive(sx * sy, sz);
    if k < v {
        lemma_box_item_next(k, sx, sy);
        let z = k / (sx * sy);
        assert(z < sz) by {
            vstd::arithmetic::div_mod::lemma_div_is_ordered(k, v, sx * sy);
            vstd::arithmetic::div_mod::lemma_div_by_multiple(sz, sx * sy);
            assert(v == sz * (sx * sy)) by (nonlinear_arith)
                requires
                    v == sx * sy * sz,
            ;
            if z == sz {
                vstd::arithmetic::div_mod::lemma_fundamental_div_mod(k, sx * sy);
                assert(k >= sz * (sx * sy)) by (nonlinear_arith)
                    requires
                        k == (sx * sy) * z + k % (sx * sy),
                        z == sz,
                        k % (sx * sy) >= 0,
                ;
            }
        }
        let it = box_item(k, sx, sy);
        assert(it.x == k % sx && it.y == (k / sx) % sy && it.z == z);
        if k > 0 {
            lemma_box_item_next(k - 1, sx, sy);
            let pr = box_item(k - 1, sx, sy);
            let c = box_cursor(k, sx, sy);
            assert(c.x == pr.x + 1 && c.y == pr.y && c.z == pr.z);
            let (c2, o) = pos_iter_step_usize(c, size);
            if pr.x + 1 < sx {
                assert(c.x < size.x);
                assert(o == Some(c));
                assert(c == it);
            } else if pr.y + 1 < sy {
                assert(o == Some(Pos { x: 0usize, y: (pr.y + 1) as usize, z: pr.z }));
            } else {
                assert(o == Some(Pos { x: 0usize, y: 0usize, z: (pr.z + 1) as usize }));
            }
            assert(o == Some(it));
        } else {
            assert(rect_index(0, 0, 0, sx, sy) == 0) by (nonlinear_arith);
            lemma_index_round_trip(0, 0, 0, sx, sy);
            assert(it == Pos { x: 0usize, y: 0usize, z: 0usize });
        }
        assert(k < usize::MAX);
    } else {
        lemma_box_item_next(k - 1, sx, sy);
        let j = k - 1;
        assert(j == (sx - 1) + (sy - 1) * sx + (sz - 1) * sx * sy) by (nonlinear_arith)
            requires
                j == sx * sy * sz - 1,
        ;
        lemma_index_round_trip(sx - 1, sy - 1, sz - 1, sx, sy);
    }
}

/// The position of item `k` of the signed box walk.
pub open spec fn box_item_i64(k: int, sx: int, sy: int) -> Pos<i64> {
    Pos { x: (k % sx) as i64, y: ((k / sx) % sy) as i64, z: (k / (sx * sy)) as i64 }
}

/// The cursor of the signed box walk before it returns item `k`.
pub open spec fn box_cursor_i64(k: int, sx: int, sy: int) -> Pos<i64> {
    if k == 0 {
        Pos { x: 0i64, y: 0i64, z: 0i64 }
    } else {
        let p = box_item_i64(k - 1, sx, sy);
        Pos { x: (p.x + 1) as i64, y: p.y, z: p.z }
    }
}

/// The signed box walk returns the positions of `[0, size)` in index order, `x` fastest,
/// then `y`, then `z`: before item `k` its cursor is `box_cursor_i64(k)`, and the next call
/// returns `box_item_i64(k)` (the position whose `rect_index` is `k`) and moves the cursor
/// to `box_cursor_i64(k + 1)`; once all `size.x * size.y * size.z` items are out it
/// returns `None`.
pub proof fn lemma_box_walk_i64(size: Pos<i64>, k: int)
    requires
        size.x > 0,
        size.y > 0,
        size.z > 0,
        size.x * size.y * size.z <= i64::MAX,
        0 <= k <= size.x * size.y * size.z,
    ensures
        pos_iter_step_ok_i64(box_cursor_i64(k, size.x as int, size.y as int), size),
        k < size.x * size.y * size.z ==> pos_iter_step_i64(box_cursor_i64(k, size.x as int, size.y as int), size)
            == (box_cursor_i64(k + 1, size.x as int, size.y as int), Some(box_item_i64(k, size.x as int, size.y as int))),
        k < size.x * size.y * size.z ==> rect_index(
            box_item_i64(k, size.x as int, size.y as int).x as int,
            box_item_i64(k, size.x as int, size.y as int).y as int,
            box_item_i64(k, size.x as int, size.y as int).z as int,
            size.x as int,
            size.y as int,
        ) == k,
        k == size.x * size.y * size.z ==> pos_iter_step_i64(box_cursor_i64(k, size.x as int, size.y as int), size).1
            is None,
{
    let (sx, sy, sz) = (size.x as int, size.y as int, size.z as int);
    let v = sx * sy * sz;
    vstd::arithmetic::mul::lemma_mul_strictly_positive(sx, sy);
    vstd::arithmetic::mul::lemma_mul_strictly_positive(sx * sy, sz);
    if k < v {
        lemma_box_item_next(k, sx, sy);
        lemma_position_round_trip(k, sx, sy);
        let z = k / (sx * sy);
        assert(z < sz) by {
            vstd::arithmetic::div_mod::lemma_div_is_ordered(k, v, sx * sy);
            vstd::arithmetic::div_mod::lemma_div_by_multiple(sz, sx * sy);
            assert(v == sz * (sx * sy)) by (nonlinear_arith)
                requires
                    v == sx * sy * sz,
            ;
            if z == sz {
                vstd::arithmetic::div_mod::lemma_fundamental_div_mod(k, sx * sy);
                assert(k >= sz * (sx * sy)) by (nonlinear_arith)
                    requires
                        k == (sx * sy) * z + k % (sx * sy),
                        z == sz,
                        k % (sx * sy) >= 0,
                ;
            }
        }
        let it = box_item_i64(k, sx, sy);
        assert(it.x == k % sx && it.y == (k / sx) % sy && it.z == z);
        if k > 0 {
            lemma_box_item_next(k - 1, sx, sy);
            let pr = box_item_i64(k - 1, sx, sy);
            let c = box_cursor_i64(k, sx, sy);
            assert(c.x == pr.x + 1 && c.y == pr.y && c.z == pr.z);
            let (c2, o) = pos_iter_step_i64(c, size);
            if pr.x + 1 < sx {
                assert(c.x < size.x);
                assert(o == Some(c));
                assert(c == it);
            } else if pr.y + 1 < sy {
                assert(o == Some(Pos { x: 0i64, y: (pr.y + 1) as i64, z: pr.z }));
            } else {
                assert(o == Some(Pos { x: 0i64, y: 0i64, z: (pr.z + 1) as i64 }));
            }
            assert(o == Some(it));
        } else {
            assert(rect_index(0, 0, 0, sx, sy) == 0) by (nonlinear_arith);
            lemma_index_round_trip(0, 0, 0, sx, sy);
            assert(it == Pos { x: 0i64, y: 0i64, z: 0i64 });
        }
        assert(k < i64::MAX);
    } else {
        lemma_box_item_next(k - 1, sx, sy);
        let j = k - 1;
        assert(j == (sx - 1) + (sy - 1) * sx + (sz - 1) * sx * sy) by (nonlinear_arith)
            requires
                j == sx * sy * sz - 1,
        ;
        lemma_index_round_trip(sx - 1, sy - 1, sz - 1, sx, sy);
    }
}

/// Iterator over the 27 positions at Chebyshev distance at most 1 from a center
/// (26 when the center itself is left out), `x` running fastest, then `y`, then `z`.
pub struct PosIterNeighbors {
    x: i64,
    y: i64,
    z: i64,
    pos: Pos<i64>,
    include_self: bool,
}

impl View for PosIterNeighbors {
    /// The next offset, the center and whether the center is returned too.
    type V = (Pos<i64>, Pos<i64>, bool);

    closed spec fn view(&self) -> (Pos<i64>, Pos<i64>, bool) {
        (Pos { x: self.x, y: self.y, z: self.z }, self.pos, self.include_self)
    }
}

impl PosIterNeighbors {
    #[verifier::type_invariant]
    spec fn offsets_in_range(self) -> bool {
        &&& -1 <= self.x <= 1
        &&& -1 <= self.y <= 1
        &&& -1 <= self.z <= 2
    }

    pub fn new(pos: Pos<i64>, include_self: bool) -> (r: Self)
        ensures
            r@ == (Pos::<i64> { x: -1i64, y: -1i64, z: -1i64 }, pos, include_self),
    {
        Self { x: -1, y: -1, z: -1, pos, include_self }
    }
}

/// One step of the neighbor walk: the new offset and the item returned.
pub open spec fn neighbors_step(off: Pos<i64>, pos: Pos<i64>, include_self: bool) -> (Pos<i64>, Option<Pos<i64>>) {
    if off.z > 1 {
        (off, None)
    } else {
        let item = Pos { x: (pos.x + off.x) as i64, y: (pos.y + off.y) as i64, z: (pos.z + off.z) as i64 };
        let nx = off.x + 1;
        let next = if nx > 1 {
            if off.y + 1 > 1 {
                Pos { x: -1i64, y: -1i64, z: (off.z + 1) as i64 }
            } else {
                Pos { x: -1i64, y: (off.y + 1) as i64, z: off.z }
            }
        } else if !include_self && nx == 0 && off.y == 0 && off.z == 0 {
            Pos { x: (nx + 1) as i64, y: off.y, z: off.z }
        } else {
            Pos { x: nx as i64, y: off.y, z: off.z }
        };
        (next, Some(item))
    }
}

impl PosIterNeighbors {
    pub fn next(&mut self) -> (r: Option<Pos<i64>>)
        requires
            old(self)@.0.z <= 1 ==> in_i64(old(self)@.1.x + old(self)@.0.x) && in_i64(
                old(self)@.1.y + old(self)@.0.y,
            ) && in_i64(old(self)@.1.z + old(self)@.0.z),
        ensures
            final(self)@.1 == old(self)@.1,
            final(self)@.2 == old(self)@.2,
            (final(self)@.0, r) == neighbors_step(old(self)@.0, old(self)@.1, old(self)@.2),
    {
        proof {
            use_type_invariant(&*self);
        }
        if self.z > 1 {
            return None;
        }
        let result = Pos::new(self.pos.x + self.x, self.pos.y + self.y, self.pos.z + self.z);
        let (mut x, mut y, mut z) = (self.x + 1, self.y, self.z);
        if x > 1 {
            x = -1;
            y = y + 1;
            if y > 1 {
                y = -1;
                z = z + 1;
            }
        } else if !self.include_self && x == 0 && y == 0 && z == 0 {
            x = x + 1;
        }
        self.x = x;
        self.y = y;
        self.z = z;
        Some(result)
    }
}

/// Number of items of the neighbor walk.
pub open spec fn neighbors_count(include_self: bool) -> int {
    if include_self {
        27
    } else {
        26
    }
}

/// The cell of the 3x3x3 cube that item `k` of the neighbor walk comes from; the center
/// cell 13 is skipped when the center is left out.
pub open spec fn neighbors_slot(k: int, include_self: bool) -> int {
    if !include_self && k >= 13 {
        k + 1
    } else {
        k
    }
}

/// The offset of cell `j` of the 3x3x3 cube, `x` running fastest.
pub open spec fn slot_offset(j: int) -> Pos<i64> {
    Pos { x: (j % 3 - 1) as i64, y: ((j / 3) % 3 - 1) as i64, z: (j / 9 - 1) as i64 }
}

/// The neighbor walk returns, in order, the center plus each offset of
/// `{-1, 0, 1}^3` (`x` fastest), leaving the center out unless `include_self`,
/// and `None` after the last one: before item `k` its offset is
/// `slot_offset(neighbors_slot(k))`, starting from `(-1, -1, -1)`.
pub proof fn lemma_neighbors_walk(pos: Pos<i64>, include_self: bool, k: int)
    requires
        0 <= k <= neighbors_count(include_self),
        i64::MIN < pos.x < i64::MAX,
        i64::MIN < pos.y < i64::MAX,
        i64::MIN < pos.z < i64::MAX,
    ensures
        slot_offset(neighbors_slot(0, include_self)) == (Pos::<i64> { x: -1i64, y: -1i64, z: -1i64 }),
        k < neighbors_count(include_self) ==> ({
            let off = slot_offset(neighbors_slot(k, include_self));
            &&& -1 <= off.x <= 1 && -1 <= off.y <= 1 && -1 <= off.z <= 1
            &&& (include_self || off != Pos::<i64> { x: 0, y: 0, z: 0 })
            &&& neighbors_step(off, pos, include_self) == (
                slot_offset(neighbors_slot(k + 1, include_self)),
                Some(Pos::<i64> { x: (pos.x + off.x) as i64, y: (pos.y + off.y) as i64, z: (pos.z + off.z) as i64 }),
            )
        }),
        k == neighbors_count(include_self) ==> neighbors_step(
            slot_offset(neighbors_slot(k, include_self)),
            pos,
            include_self,
        ).1 is None,
{
    let j = neighbors_slot(k, include_self);
    assert(0 <= j <= 27);
}

/// Iterator that walks columns of positions ring by ring around a start position:
/// ring `r` is the set of columns at Chebyshev distance `r` in the `x`/`z` plane, and the
/// columns of outer rings are shorter.
pub struct PosAroundIterator {
    start: Pos<i64>,
    current: Pos<i64>,
    current_radius: i64,
    done: bool,
    radius: i64,
}

pub type ChunkPosAroundIterator = PosAroundIterator;

pub type GlobalVoxelPosAroundIterator = PosAroundIterator;

impl View for PosAroundIterator {
    /// Start, cursor offset, current ring, done flag and radius.
    type V = (Pos<i64>, Pos<i64>, i64, bool, i64);

    closed spec fn view(&self) -> (Pos<i64>, Pos<i64>, i64, bool, i64) {
        (self.start, self.current, self.current_radius, self.done, self.radius)
    }
}

/// Ring of an offset: its Chebyshev distance in the `x`/`z` plane.
pub open spec fn ring_of(p: Pos<i64>) -> int {
    max_int(abs_int(p.x as int), abs_int(p.z as int))
}

/// Half height of the columns of ring `r` for an iterator of radius `radius`.
pub open spec fn column_half_height(radius: int, r: int) -> int {
    radius - r + 1
}

/// The cursor of the ring walk is on ring `current_radius` inside its column, until the
/// last ring is finished.
pub open spec fn around_wf(current: Pos<i64>, current_radius: i64, done: bool, radius: i64) -> bool {
    &&& 0 <= current_radius <= radius < i64::MAX
    &&& current_radius < radius ==> {
        &&& ring_of(current) == current_radius
        &&& -column_half_height(radius as int, current_radius as int) <= current.y
        &&& current.y <= column_half_height(radius as int, current_radius as int)
    }
    &&& done ==> current_radius == radius
}

/// One step of the ring walk: the new cursor, ring and done flag, and the offset returned.
pub open spec fn around_step(current: Pos<i64>, r: i64, radius: i64) -> (Pos<i64>, i64, bool, Option<Pos<i64>>) {
    if radius == r {
        (current, r, true, None)
    } else {
        let yr = radius - r + 1;
        let p = current;
        if p.y < yr {
            let q = Pos { x: p.x, y: (p.y + 1) as i64, z: p.z };
            (q, r, false, Some(q))
        } else if p.z == r && p.x == -r {
            if radius == r + 1 {
                (current, (r + 1) as i64, true, None)
            } else {
                let q = Pos { x: p.x, y: (-yr + 1) as i64, z: (p.z + 1) as i64 };
                (q, (r + 1) as i64, false, Some(q))
            }
        } else if p.x < r && p.z == r {
            let q = Pos { x: (p.x + 1) as i64, y: (-yr) as i64, z: p.z };
            (q, r, false, Some(q))
        } else if p.z > -r && p.x == r {
            let q = Pos { x: p.x, y: (-yr) as i64, z: (p.z - 1) as i64 };
            (q, r, false, Some(q))
        } else if p.x > -r && p.z == -r {
            let q = Pos { x: (p.x - 1) as i64, y: (-yr) as i64, z: p.z };
            (q, r, false, Some(q))
        } else {
            let q = Pos { x: p.x, y: (-yr) as i64, z: (p.z + 1) as i64 };
            (q, r, false, Some(q))
        }
    }
}

impl PosAroundIterator {
    #[verifier::type_invariant]
    spec fn state_wf(self) -> bool {
        around_wf(self.current, self.current_radius, self.done, self.radius)
    }

    pub fn new(start: Pos<i64>, radius: usize) -> (r: Self)
        requires
            radius < i64::MAX,
        ensures
            r@ == (start, Pos::<i64> { x: 0i64, y: (-(radius as int)) as i64, z: 0i64 }, 0i64, false, radius as i64),
    {
        let radius = radius as i64;
        Self {
            radius,
            start,
            done: false,
            current_radius: 0,
            current: Pos::new(0, -radius, 0),
        }
    }

    pub fn is_done(&self) -> (r: bool)
        ensures
            r == self@.3,
    {
        self.done
    }

    /// Returns the next position of the walk, shifted by the start position.
    ///
    /// Every returned offset from the start lies on a ring below the radius, in a column
    /// whose half height is `radius - ring + 1`.
    pub fn next(&mut self) -> (r: Option<Pos<i64>>)
        requires
            ({
                let (q, nr, nd, o) = around_step(old(self)@.1, old(self)@.2, old(self)@.4);
                o matches Some(q) ==> in_i64(q.x + old(self)@.0.x) && in_i64(q.y + old(self)@.0.y)
                    && in_i64(q.z + old(self)@.0.z)
            }),
        ensures
            ({
                let (q, nr, nd, o) = around_step(old(self)@.1, old(self)@.2, old(self)@.4);
                &&& final(self)@.0 == old(self)@.0
                &&& final(self)@.1 == q
                &&& final(self)@.2 == nr
                &&& final(self)@.3 == (nd || old(self)@.3)
                &&& final(self)@.4 == old(self)@.4
                &&& r == match o {
                    Some(q) => Some(
                        Pos::<i64> {
                            x: (q.x + old(self)@.0.x) as i64,
                            y: (q.y + old(self)@.0.y) as i64,
                            z: (q.z + old(self)@.0.z) as i64,
                        },
                    ),
                    None => None,
                }
            }),
            r matches Some(p) ==> ({
                let d = Pos::<i64> {
                    x: (p.x - old(self)@.0.x) as i64,
                    y: (p.y - old(self)@.0.y) as i64,
                    z: (p.z - old(self)@.0.z) as i64,
                };
                &&& ring_of(d) < old(self)@.4
                &&& -column_half_height(old(self)@.4 as int, ring_of(d)) <= d.y
                &&& d.y <= column_half_height(old(self)@.4 as int, ring_of(d))
            }),
    {
        proof {
            use_type_invariant(&*self);
        }
        let r = self.current_radius;
        if self.radius == r {
            self.done = true;
            return None;
        }
        let y_r = self.radius - r + 1;
        let p = self.current;
        let new_pos;
        if p.y < y_r {
            new_pos = Pos::new(p.x, p.y + 1, p.z);
        } else if p.z == r && p.x == -r {
            let next_radius = r + 1;
            if self.radius == next_radius {
                *self = PosAroundIterator {
                    start: self.start,
                    current: p,
                    current_radius: next_radius,
                    done: true,
                    radius: self.radius,
                };
                return None;
            }
            new_pos = Pos::new(p.x, -y_r + 1, p.z + 1);
            *self = PosAroundIterator {
                start: self.start,
                current: new_pos,
                current_radius: next_radius,
                done: self.done,
                radius: self.radius,
            };
            return Some(new_pos + self.start);
        } else if p.x < r && p.z == r {
            new_pos = Pos::new(p.x + 1, -y_r, p.z);
        } else if p.z > -r && p.x == r {
            new_pos = Pos::new(p.x, -y_r, p.z - 1);
        } else if p.x > -r && p.z == -r {
            new_pos = Pos::new(p.x - 1, -y_r, p.z);
        } else if p.z < r && p.x == -r {
            new_pos = Pos::new(p.x, -y_r, p.z + 1);
        } else {
            // every cursor on the ring is covered by one of the cases above
            proof {
                assert(false);
            }
            new_pos = p;
        }
        self.current = new_pos;
        Some(new_pos + self.start)
    }
}

impl Pos<i64> {
    /// Walks the columns around this position, ring by ring, up to `radius`.
    pub fn iter_around(&self, radius: usize) -> (r: PosAroundIterator)
        requires
            radius < i64::MAX,
        ensures
            r@ == (*self, Pos::<i64> { x: 0i64, y: (-(radius as int)) as i64, z: 0i64 }, 0i64, false, radius as i64),
    {
        PosAroundIterator::new(*self, radius)
    }

    /// Walks the positions at Chebyshev distance at most 1 from this one.
    pub fn iter_neighbors(&self, include_self: bool) -> (r: PosIterNeighbors)
        ensures
            r@ == (Pos::<i64> { x: -1i64, y: -1i64, z: -1i64 }, *self, include_self),
    {
        PosIterNeighbors::new(*self, include_self)
    }
}

} // verus!
