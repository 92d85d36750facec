//! Terrain material assignment. A chunk's contents are decided by a
//! height field: one surface height per world column. The height field
//! itself comes from an outside coherent-noise oracle (deterministic for a
//! fixed seed) that the surrounding application samples; this module turns
//! those plain integer heights into voxels — stone below the surface,
//! grass at it, air above.

use vstd::prelude::*;

use crate::voxel::VoxelType;

verus! {

/// Number of columns in a chunk's horizontal footprint.
pub const COLUMN_COUNT: usize = 256;

/// Position of the column `(x, z)` in a flat per-chunk height array.
pub open spec fn column_index(x: int, z: int) -> int {
    x * 16 + z
}

/// The material of a voxel whose world height is `world_y` in a column
/// whose surface height is `height`.
pub open spec fn material_for(world_y: int, height: int) -> VoxelType {
    if world_y < height {
        VoxelType::Stone
    } else if world_y == height {
        VoxelType::Grass
    } else {
        VoxelType::Air
    }
}

/// The full voxel contents, in `voxel_index` order, of a chunk at grid
/// height `grid_y` generated from the per-column surface heights
/// `heights` (indexed by `column_index`).
pub open spec fn terrain_from(heights: Seq<i32>, grid_y: int) -> Seq<VoxelType> {
    Seq::new(
        4096,
        |i: int|
            material_for(
                grid_y * 16 + ((i / 16) % 16),
                heights[column_index(i / 256, i % 16)] as int,
            ),
    )
}

/// Generating a chunk twice from the same height field at the same grid
/// height produces identical voxel contents, byte for byte. Together with
/// a deterministic height oracle (same seed, same column, same height)
/// this makes regeneration after eviction reproducible.
pub proof fn lemma_generation_deterministic(
    a: crate::chunk::ChunkView,
    b: crate::chunk::ChunkView,
    heights: Seq<i32>,
)
    requires
        a.voxels == terrain_from(heights, a.grid_position.1 as int),
        b.voxels == terrain_from(heights, b.grid_position.1 as int),
        a.grid_position.1 == b.grid_position.1,
    ensures
        a.voxels == b.voxels,
{
}

} // verus!
