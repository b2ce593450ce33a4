use crate::internal::color::Color;
use vstd::prelude::*;

verus! {

/// The material of a voxel.
#[derive(Debug, Default, Clone, Copy, PartialEq, Eq, Hash, Structural)]
pub struct VoxelId(pub u32);

/// The color of each known material, magenta for unknown ids.
pub open spec fn voxel_id_color(id: VoxelId) -> Color {
    if id.0 == 0 {
        Color { r: 40, g: 133, b: 7 }
    } else if id.0 == 1 {
        Color { r: 65, g: 40, b: 22 }
    } else if id.0 == 2 {
        Color { r: 100, g: 100, b: 100 }
    } else if id.0 == 3 {
        Color { r: 218, g: 185, b: 113 }
    } else if id.0 == 4 {
        Color { r: 200, g: 158, b: 100 }
    } else if id.0 == 5 {
        Color { r: 255, g: 255, b: 255 }
    } else {
        Color { r: 255, g: 0, b: 255 }
    }
}

impl VoxelId {
    pub fn grass() -> (r: Self)
        ensures
            r == VoxelId(0),
    {
        VoxelId(0)
    }

    pub fn dirt() -> (r: Self)
        ensures
            r == VoxelId(1),
    {
        VoxelId(1)
    }

    pub fn stone() -> (r: Self)
        ensures
            r == VoxelId(2),
    {
        VoxelId(2)
    }

    pub fn sand() -> (r: Self)
        ensures
            r == VoxelId(3),
    {
        VoxelId(3)
    }

    pub fn sand_stone() -> (r: Self)
        ensures
            r == VoxelId(4),
    {
        VoxelId(4)
    }

    pub fn snow() -> (r: Self)
        ensures
            r == VoxelId(5),
    {
        VoxelId(5)
    }

    pub fn new(id: u32) -> (r: Self)
        ensures
            r == VoxelId(id),
    {
        Self(id)
    }

    /// Id `0` counts as empty.
    pub fn is_empty(&self) -> (r: bool)
        ensures
            r == (self.0 == 0),
    {
        self.0 == 0
    }

    pub fn get_color(&self) -> (c: Color)
        ensures
            c == voxel_id_color(*self),
    {
        match self.0 {
            0 => Color::rgb_u8(40, 133, 7),
            1 => Color::rgb_u8(65, 40, 22),
            2 => Color::rgb_u8(100, 100, 100),
            3 => Color::rgb_u8(218, 185, 113),
            4 => Color::rgb_u8(200, 158, 100),
            5 => Color::rgb_u8(255, 255, 255),
            // Unknown voxel id.
            _ => Color::rgb_u8(255, 0, 255),
        }
    }
}

} // verus!
