use self::voxel_types::VoxelId;
use vstd::prelude::*;
use vstd::std_specs::ops::SubSpecImpl;

pub mod voxel_types;
pub mod voxels_to_vertex;

verus! {

/// Magnitude of a voxel's density; `VoxelValue::MAX` stands for `1.0`.
pub type VoxelValue = u16;

/// The full scale of a voxel level: a level of `VOXEL_VALUE_MAX` is fully solid,
/// `-VOXEL_VALUE_MAX` is fully empty.
pub const VOXEL_VALUE_MAX: i32 = 65535i32;

#[derive(Debug, Clone, Copy, PartialEq, Eq, Default, Structural)]
pub struct NotEmptyVoxel {
    pub modified: bool,
    pub value: VoxelValue,
    pub id: VoxelId,
}

#[derive(Debug, Clone, Copy, PartialEq, Eq, Structural)]
pub struct EmptyVoxel {
    pub value: VoxelValue,
    pub modified: bool,
}

/// A sample of the density field: solid voxels carry a material, empty ones only how far
/// they are from being solid.
#[derive(Debug, Clone, Copy, PartialEq, Eq, Structural)]
pub enum Voxel {
    Empty(EmptyVoxel),
    NotEmpty(NotEmptyVoxel),
}

/// `level` limited to the range of a voxel value, `[-VOXEL_VALUE_MAX, VOXEL_VALUE_MAX]`.
pub open spec fn clamp_level(level: int) -> int {
    if level < -65535 {
        -65535
    } else if level > 65535 {
        65535
    } else {
        level
    }
}

/// The voxel made from a signed level: empty when the level is zero or below, and not
/// modified.
pub open spec fn voxel_from_level(level: int, id: VoxelId) -> Voxel {
    if level <= 0 {
        Voxel::Empty(EmptyVoxel { value: (-clamp_level(level)) as u16, modified: false })
    } else {
        Voxel::NotEmpty(NotEmptyVoxel { modified: false, value: clamp_level(level) as u16, id })
    }
}

impl Voxel {
    /// The empty voxel with level zero.
    pub fn empty() -> (r: Self)
        ensures
            r == Voxel::Empty(EmptyVoxel { value: 0, modified: false }),
    {
        Voxel::Empty(EmptyVoxel { value: 0, modified: false })
    }

    /// The signed level: negative for empty voxels.
    pub open spec fn level(self) -> int {
        match self {
            Voxel::Empty(v) => -(v.value as int),
            Voxel::NotEmpty(v) => v.value as int,
        }
    }

    pub open spec fn modified_spec(self) -> bool {
        match self {
            Voxel::Empty(v) => v.modified,
            Voxel::NotEmpty(v) => v.modified,
        }
    }

    pub open spec fn id_spec(self) -> VoxelId {
        match self {
            Voxel::Empty(_) => VoxelId(0),
            Voxel::NotEmpty(v) => v.id,
        }
    }

    pub open spec fn with_modified(self, modified: bool) -> Voxel {
        match self {
            Voxel::Empty(v) => Voxel::Empty(EmptyVoxel { modified, ..v }),
            Voxel::NotEmpty(v) => Voxel::NotEmpty(NotEmptyVoxel { modified, ..v }),
        }
    }

    /// Creates a voxel from a signed level in units of `1 / VOXEL_VALUE_MAX`.
    ///
    /// A level of zero or below gives an empty voxel. The level is clamped to
    /// `[-VOXEL_VALUE_MAX, VOXEL_VALUE_MAX]`.
    pub fn new(level: i32, id: VoxelId) -> (r: Self)
        ensures
            r == voxel_from_level(level as int, id),
    {
        if level <= 0 {
            let magnitude = if level < -VOXEL_VALUE_MAX {
                VOXEL_VALUE_MAX
            } else {
                -level
            };
            return Self::Empty(EmptyVoxel { value: magnitude as u16, modified: false });
        }
        let magnitude = if level > VOXEL_VALUE_MAX {
            VOXEL_VALUE_MAX
        } else {
            level
        };
        Self::NotEmpty(NotEmptyVoxel { modified: false, value: magnitude as u16, id })
    }

    pub fn is_modified(&self) -> (r: bool)
        ensures
            r == self.modified_spec(),
    {
        match self {
            Self::Empty(voxel) => voxel.modified,
            Self::NotEmpty(voxel) => voxel.modified,
        }
    }

    pub fn is_empty(&self) -> (r: bool)
        ensures
            r == (*self is Empty),
    {
        match self {
            Self::Empty(_) => true,
            Self::NotEmpty(_) => false,
        }
    }

    /// Returns the voxel id; an empty voxel has the default id.
    pub fn id(&self) -> (r: VoxelId)
        ensures
            r == self.id_spec(),
    {
        match self {
            Self::Empty(_) => VoxelId::new(0),
            Self::NotEmpty(voxel) => voxel.id,
        }
    }

    /// The signed level of the voxel in units of `1 / VOXEL_VALUE_MAX`.
    pub fn value(&self) -> (r: i32)
        ensures
            r == self.level(),
    {
        match self {
            Self::Empty(v) => -(v.value as i32),
            Self::NotEmpty(v) => v.value as i32,
        }
    }

    pub fn set_modified(&mut self, modified: bool)
        ensures
            *final(self) == old(self).with_modified(modified),
    {
        match self {
            Self::Empty(v) => v.modified = modified,
            Self::NotEmpty(v) => v.modified = modified,
        }
    }
}

impl Default for Voxel {
    fn default() -> (r: Self)
        ensures
            r == Voxel::Empty(EmptyVoxel { value: 0, modified: false }),
    {
        Self::empty()
    }
}

/// Lowers the level of a voxel by `rhs` (in units of `1 / VOXEL_VALUE_MAX`), keeping its
/// material and its modified flag; the voxel becomes empty once the level drops to zero or
/// below.
impl core::ops::Sub<i32> for Voxel {
    type Output = Self;

    fn sub(self, rhs: i32) -> (r: Self) {
        let level = self.value() as i64 - rhs as i64;
        let level = if level < -(VOXEL_VALUE_MAX as i64) - 1 {
            -VOXEL_VALUE_MAX - 1
        } else if level > VOXEL_VALUE_MAX as i64 + 1 {
            VOXEL_VALUE_MAX + 1
        } else {
            level as i32
        };
        let mut v = Self::new(level, self.id());
        v.set_modified(self.is_modified());
        v
    }
}

/// The voxel `v` with its level lowered by `rhs`, keeping its material and modified flag.
pub open spec fn voxel_sub(v: Voxel, rhs: int) -> Voxel {
    voxel_from_level(v.level() - rhs, v.id_spec()).with_modified(v.modified_spec())
}

impl SubSpecImpl<i32> for Voxel {
    open spec fn obeys_sub_spec() -> bool {
        true
    }

    open spec fn sub_req(self, rhs: i32) -> bool {
        true
    }

    open spec fn sub_spec(self, rhs: i32) -> Voxel {
        voxel_sub(self, rhs as int)
    }
}

impl core::ops::SubAssign<i32> for Voxel {
    fn sub_assign(&mut self, rhs: i32)
        ensures
            *final(self) == voxel_sub(*old(self), rhs as int),
    {
        *self = *self - rhs;
    }
}

/// A new voxel is not modified, and is empty exactly when its level is zero or below.
pub proof fn lemma_new_voxel(level: int, id: VoxelId)
    ensures
        !voxel_from_level(level, id).modified_spec(),
        (voxel_from_level(level, id) is Empty) == (level <= 0),
        voxel_from_level(level, id).level() == clamp_level(level),
        level > 0 ==> voxel_from_level(level, id).id_spec() == id,
{
}

/// Setting the modified flag is seen by `is_modified` and changes nothing else.
pub proof fn lemma_set_modified(v: Voxel, modified: bool)
    ensures
        v.with_modified(modified).modified_spec() == modified,
        v.with_modified(modified).level() == v.level(),
        v.with_modified(modified).id_spec() == v.id_spec(),
        (v.with_modified(modified) is Empty) == (v is Empty),
{
}

/// Subtraction keeps the modified flag, lowers the level by exactly `rhs` within the
/// voxel range, and keeps the material while the voxel stays solid.
pub proof fn lemma_sub_keeps_modified(v: Voxel, rhs: int)
    ensures
        voxel_sub(v, rhs).modified_spec() == v.modified_spec(),
        voxel_sub(v, rhs).level() == clamp_level(v.level() - rhs),
        (voxel_sub(v, rhs) is Empty) == (v.level() - rhs <= 0),
        v.level() - rhs > 0 ==> voxel_sub(v, rhs).id_spec() == v.id_spec(),
{
}

} // verus!
