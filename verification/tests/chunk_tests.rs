//! Chunk and voxel behaviour: creation, bounds-tolerant access, dirty
//! tracking, and terrain generation from a height field.

use voxel_engine::chunk::Chunk;
use voxel_engine::voxel::{Color, VoxelType};

#[test]
fn new_chunk_is_dirty_and_all_air() {
    let chunk = Chunk::new((3, -2, 7));
    assert!(chunk.is_dirty());
    assert_eq!(chunk.grid_position(), (3, -2, 7));
    for x in 0..16 {
        for y in 0..16 {
            for z in 0..16 {
                assert_eq!(chunk.get_voxel(x, y, z), Some(VoxelType::Air));
            }
        }
    }
}

#[test]
fn get_voxel_out_of_range_is_none() {
    let chunk = Chunk::new((0, 0, 0));
    assert_eq!(chunk.get_voxel(16, 0, 0), None);
    assert_eq!(chunk.get_voxel(0, 16, 0), None);
    assert_eq!(chunk.get_voxel(0, 0, 16), None);
    assert_eq!(chunk.get_voxel(100, 100, 100), None);
    assert_eq!(chunk.get_voxel(15, 15, 15), Some(VoxelType::Air));
}

#[test]
fn set_voxel_stores_and_marks_dirty() {
    let mut chunk = Chunk::new((0, 0, 0));
    chunk.clear_dirty();
    assert!(!chunk.is_dirty());
    chunk.set_voxel(1, 2, 3, VoxelType::Stone);
    assert_eq!(chunk.get_voxel(1, 2, 3), Some(VoxelType::Stone));
    assert!(chunk.is_dirty());
}

#[test]
fn set_voxel_twice_is_idempotent() {
    let mut chunk = Chunk::new((0, 0, 0));
    chunk.set_voxel(4, 5, 6, VoxelType::Dirt);
    chunk.clear_dirty();
    // the second identical write must not re-dirty the chunk
    chunk.set_voxel(4, 5, 6, VoxelType::Dirt);
    assert!(!chunk.is_dirty());
    assert_eq!(chunk.get_voxel(4, 5, 6), Some(VoxelType::Dirt));
    // a real change does
    chunk.set_voxel(4, 5, 6, VoxelType::Grass);
    assert!(chunk.is_dirty());
}

#[test]
fn set_voxel_same_value_does_not_dirty() {
    let mut chunk = Chunk::new((0, 0, 0));
    chunk.clear_dirty();
    chunk.set_voxel(0, 0, 0, VoxelType::Air);
    assert!(!chunk.is_dirty());
}

#[test]
fn set_voxel_out_of_range_is_a_noop() {
    let mut chunk = Chunk::new((0, 0, 0));
    chunk.clear_dirty();
    chunk.set_voxel(16, 0, 0, VoxelType::Stone);
    chunk.set_voxel(0, 99, 0, VoxelType::Stone);
    assert!(!chunk.is_dirty());
    assert_eq!(chunk.get_voxel(15, 0, 0), Some(VoxelType::Air));
}

#[test]
fn world_origin_scales_by_chunk_side() {
    let chunk = Chunk::new((2, -3, 4));
    assert_eq!(chunk.world_origin(), (32, -48, 64));
    let origin_chunk = Chunk::new((0, 0, 0));
    assert_eq!(origin_chunk.world_origin(), (0, 0, 0));
}

#[test]
fn default_voxel_is_air() {
    assert_eq!(VoxelType::default(), VoxelType::Air);
}

#[test]
fn solidity_table() {
    assert!(!VoxelType::Air.is_solid());
    assert!(VoxelType::Stone.is_solid());
    assert!(VoxelType::Grass.is_solid());
    assert!(VoxelType::Dirt.is_solid());
}

#[test]
fn color_table_in_tenths() {
    assert_eq!(VoxelType::Air.get_color(), Color { r: 0, g: 0, b: 0 });
    assert_eq!(VoxelType::Stone.get_color(), Color { r: 5, g: 5, b: 5 });
    assert_eq!(VoxelType::Grass.get_color(), Color { r: 2, g: 8, b: 2 });
    assert_eq!(VoxelType::Dirt.get_color(), Color { r: 6, g: 4, b: 2 });
}

#[test]
fn generate_terrain_layers_by_height() {
    // every column's surface at world height 5
    let heights = vec![5i32; 256];
    let mut chunk = Chunk::new((0, 0, 0));
    chunk.generate_terrain(&heights);
    assert!(chunk.is_dirty());
    for x in 0..16 {
        for z in 0..16 {
            for y in 0..16 {
                let expected = if (y as i32) < 5 {
                    VoxelType::Stone
                } else if y == 5 {
                    VoxelType::Grass
                } else {
                    VoxelType::Air
                };
                assert_eq!(chunk.get_voxel(x, y, z), Some(expected));
            }
        }
    }
}

#[test]
fn generate_terrain_uses_world_height() {
    // a chunk one level up: world y runs 16..=31, surface at 20
    let heights = vec![20i32; 256];
    let mut chunk = Chunk::new((0, 1, 0));
    chunk.generate_terrain(&heights);
    assert_eq!(chunk.get_voxel(0, 3, 0), Some(VoxelType::Stone));
    assert_eq!(chunk.get_voxel(0, 4, 0), Some(VoxelType::Grass));
    assert_eq!(chunk.get_voxel(0, 5, 0), Some(VoxelType::Air));
}

#[test]
fn generate_terrain_varied_columns() {
    let mut heights = vec![0i32; 256];
    heights[3 * 16 + 9] = 2; // column (x=3, z=9)
    let mut chunk = Chunk::new((0, 0, 0));
    chunk.generate_terrain(&heights);
    assert_eq!(chunk.get_voxel(3, 0, 9), Some(VoxelType::Stone));
    assert_eq!(chunk.get_voxel(3, 1, 9), Some(VoxelType::Stone));
    assert_eq!(chunk.get_voxel(3, 2, 9), Some(VoxelType::Grass));
    assert_eq!(chunk.get_voxel(3, 3, 9), Some(VoxelType::Air));
    // an untouched column has grass at world height 0
    assert_eq!(chunk.get_voxel(0, 0, 0), Some(VoxelType::Grass));
    assert_eq!(chunk.get_voxel(0, 1, 0), Some(VoxelType::Air));
}
