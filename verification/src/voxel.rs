//! Voxel materials: a closed enumeration with a solidity predicate and a
//! flat display colour.

use vstd::prelude::*;

verus! {

/// A single voxel material. `Air` is the unique non-solid variant; all other
/// variants are solid. Solidity and colour are pure functions of the variant.
#[derive(Clone, Copy, Debug, PartialEq, Eq, Structural)]
pub enum VoxelType {
    Air,
    Stone,
    Grass,
    Dirt,
}

/// A flat RGB colour. Each channel is stored in tenths of a unit, so `10`
/// stands for a full channel value of 1.0; a renderer divides by ten to get
/// the usual floating-point channel in [0, 1].
#[derive(Clone, Copy, Debug, PartialEq, Eq, Structural)]
pub struct Color {
    pub r: u8,
    pub g: u8,
    pub b: u8,
}

impl VoxelType {
    /// Whether this material occupies space: true for every variant but `Air`.
    pub open spec fn spec_is_solid(&self) -> bool {
        !(*self is Air)
    }

    /// Executable solidity test.
    #[verifier::when_used_as_spec(spec_is_solid)]
    pub fn is_solid(&self) -> (solid: bool)
        ensures
            solid == self.spec_is_solid(),
    {
        match self {
            VoxelType::Air => false,
            _ => true,
        }
    }

    /// The flat display colour of this material, channels in tenths.
    pub open spec fn spec_get_color(&self) -> Color {
        match *self {
            VoxelType::Air => Color { r: 0, g: 0, b: 0 },
            VoxelType::Stone => Color { r: 5, g: 5, b: 5 },
            VoxelType::Grass => Color { r: 2, g: 8, b: 2 },
            VoxelType::Dirt => Color { r: 6, g: 4, b: 2 },
        }
    }

    /// Executable colour lookup.
    #[verifier::when_used_as_spec(spec_get_color)]
    pub fn get_color(&self) -> (color: Color)
        ensures
            color == self.spec_get_color(),
    {
        match self {
            VoxelType::Air => Color { r: 0, g: 0, b: 0 },
            VoxelType::Stone => Color { r: 5, g: 5, b: 5 },
            VoxelType::Grass => Color { r: 2, g: 8, b: 2 },
            VoxelType::Dirt => Color { r: 6, g: 4, b: 2 },
        }
    }
}

impl Default for VoxelType {
    /// A default voxel is empty space.
    fn default() -> (v: Self)
        ensures
            v is Air,
    {
        VoxelType::Air
    }
}

} // verus!
