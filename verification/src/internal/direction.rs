use vstd::prelude::*;
use vstd::std_specs::convert::TryFromSpecImpl;

verus! {

/// One of the six axis-aligned directions of the voxel grid.
#[allow(non_camel_case_types, clippy::upper_case_acronyms)]
#[derive(Debug, Clone, Copy, PartialEq, Eq, Hash, Structural)]
pub enum Direction {
    /// +y
    UP,
    /// -y
    DOWN,
    /// -x
    WEST,
    /// +x
    EAST,
    /// -z
    NORTH,
    /// +z
    SOUTH,
}

/// The unit step of a direction, as `(dx, dy, dz)`.
pub open spec fn direction_offset(d: Direction) -> (int, int, int) {
    match d {
        Direction::UP => (0, 1, 0),
        Direction::DOWN => (0, -1, 0),
        Direction::WEST => (-1, 0, 0),
        Direction::EAST => (1, 0, 0),
        Direction::NORTH => (0, 0, -1),
        Direction::SOUTH => (0, 0, 1),
    }
}

/// The position of a direction in the order `UP, DOWN, WEST, EAST, NORTH, SOUTH`.
pub open spec fn direction_index(d: Direction) -> nat {
    match d {
        Direction::UP => 0,
        Direction::DOWN => 1,
        Direction::WEST => 2,
        Direction::EAST => 3,
        Direction::NORTH => 4,
        Direction::SOUTH => 5,
    }
}

/// The direction at position `i` of the order `UP, DOWN, WEST, EAST, NORTH, SOUTH`.
pub open spec fn direction_at(i: int) -> Direction
    recommends
        0 <= i < 6,
{
    if i == 0 {
        Direction::UP
    } else if i == 1 {
        Direction::DOWN
    } else if i == 2 {
        Direction::WEST
    } else if i == 3 {
        Direction::EAST
    } else if i == 4 {
        Direction::NORTH
    } else {
        Direction::SOUTH
    }
}

impl Direction {
    pub const COUNT: usize = 6;
    pub const X: Self = Direction::EAST;
    pub const Y: Self = Direction::UP;
    pub const Z: Self = Direction::SOUTH;
    pub const X_NEG: Self = Direction::WEST;
    pub const Y_NEG: Self = Direction::DOWN;
    pub const Z_NEG: Self = Direction::NORTH;

    /// The direction pointing the other way along the same axis.
    pub open spec fn opposite_spec(self) -> Direction {
        match self {
            Direction::UP => Direction::DOWN,
            Direction::DOWN => Direction::UP,
            Direction::WEST => Direction::EAST,
            Direction::EAST => Direction::WEST,
            Direction::NORTH => Direction::SOUTH,
            Direction::SOUTH => Direction::NORTH,
        }
    }

    pub fn opposite(&self) -> (r: Self)
        ensures
            r == self.opposite_spec(),
    {
        match self {
            Direction::UP => Direction::DOWN,
            Direction::DOWN => Direction::UP,
            Direction::WEST => Direction::EAST,
            Direction::EAST => Direction::WEST,
            Direction::NORTH => Direction::SOUTH,
            Direction::SOUTH => Direction::NORTH,
        }
    }

    /// Applies `f` to every direction, in the order `UP, DOWN, WEST, EAST, NORTH, SOUTH`.
    pub fn iter_map<T, F: Fn(Self) -> T>(f: F) -> (r: [T; 6])
        requires
            forall|d: Direction| f.requires((d,)),
        ensures
            forall|i: int| 0 <= i < 6 ==> f.ensures((direction_at(i),), #[trigger] r@[i]),
    {
        let a = f(Direction::UP);
        let b = f(Direction::DOWN);
        let c = f(Direction::WEST);
        let d = f(Direction::EAST);
        let e = f(Direction::NORTH);
        let g = f(Direction::SOUTH);
        let r = [a, b, c, d, e, g];
        assert(r@[0] == a && r@[1] == b && r@[2] == c && r@[3] == d && r@[4] == e && r@[5] == g);
        r
    }
}

/// Opposite is an involution: turning around twice gives back the same direction.
pub proof fn lemma_opposite_involution(d: Direction)
    ensures
        d.opposite_spec().opposite_spec() == d,
        d.opposite_spec() != d,
{
}

/// The step of the opposite direction is the negated step.
pub proof fn lemma_opposite_offset(d: Direction)
    ensures
        direction_offset(d.opposite_spec()).0 == -direction_offset(d).0,
        direction_offset(d.opposite_spec()).1 == -direction_offset(d).1,
        direction_offset(d.opposite_spec()).2 == -direction_offset(d).2,
{
}

/// Every direction is a unit step along exactly one axis.
pub proof fn lemma_offset_is_unit(d: Direction)
    ensures
        ({
            let (dx, dy, dz) = direction_offset(d);
            (if dx < 0 { -dx } else { dx }) + (if dy < 0 { -dy } else { dy }) + (if dz < 0 { -dz } else { dz }) == 1
        }),
{
}

impl TryFrom<usize> for Direction {
    type Error = ();

    fn try_from(value: usize) -> (r: Result<Self, Self::Error>) {
        if value == 0 {
            Ok(Direction::UP)
        } else if value == 1 {
            Ok(Direction::DOWN)
        } else if value == 2 {
            Ok(Direction::WEST)
        } else if value == 3 {
            Ok(Direction::EAST)
        } else if value == 4 {
            Ok(Direction::NORTH)
        } else if value == 5 {
            Ok(Direction::SOUTH)
        } else {
            Err(())
        }
    }
}

impl TryFromSpecImpl<usize> for Direction {
    open spec fn obeys_try_from_spec() -> bool {
        true
    }

    open spec fn try_from_spec(value: usize) -> Result<Self, Self::Error> {
        if value < 6 {
            Ok(direction_at(value as int))
        } else {
            Err(())
        }
    }
}

/// Reading a direction back from its index gives the same direction.
pub proof fn lemma_index_round_trip(d: Direction)
    ensures
        direction_index(d) < 6,
        direction_at(direction_index(d) as int) == d,
        <Direction as vstd::std_specs::convert::TryFromSpec<usize>>::try_from_spec(direction_index(d) as usize) == Ok::<Direction, ()>(d),
{
}

} // verus!
