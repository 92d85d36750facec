//! Face-culled meshing: face counts, winding order, index layout, and
//! culling at solid neighbours and chunk boundaries.

use voxel_engine::chunk::Chunk;
use voxel_engine::mesh::Vertex;
use voxel_engine::voxel::{Color, VoxelType};

#[test]
fn air_chunk_meshes_empty() {
    let chunk = Chunk::new((0, 0, 0));
    let (vertices, indices) = chunk.generate_mesh();
    assert_eq!(vertices.len(), 0);
    assert_eq!(indices.len(), 0);
}

#[test]
fn isolated_voxel_has_six_faces() {
    let mut chunk = Chunk::new((0, 0, 0));
    chunk.set_voxel(8, 8, 8, VoxelType::Stone);
    let (vertices, indices) = chunk.generate_mesh();
    assert_eq!(vertices.len(), 24);
    assert_eq!(indices.len(), 36);
}

#[test]
fn isolated_corner_voxel_has_six_faces() {
    // faces against the chunk boundary are drawn like faces against air
    let mut chunk = Chunk::new((0, 0, 0));
    chunk.set_voxel(0, 0, 0, VoxelType::Stone);
    let (vertices, indices) = chunk.generate_mesh();
    assert_eq!(vertices.len(), 24);
    assert_eq!(indices.len(), 36);
}

#[test]
fn winding_table_for_origin_voxel() {
    // a single stone voxel at local (0,0,0) of the origin chunk: its
    // centre is world (0,0,0), corners at ±0.5, stored doubled as ±1
    let mut chunk = Chunk::new((0, 0, 0));
    chunk.set_voxel(0, 0, 0, VoxelType::Stone);
    let (vertices, indices) = chunk.generate_mesh();
    let stone = Color { r: 5, g: 5, b: 5 };
    let v = |x: i64, y: i64, z: i64| Vertex { half_x: x, half_y: y, half_z: z, color: stone };
    // +X face, counter-clockwise
    assert_eq!(vertices[0], v(1, -1, 1));
    assert_eq!(vertices[1], v(1, 1, 1));
    assert_eq!(vertices[2], v(1, 1, -1));
    assert_eq!(vertices[3], v(1, -1, -1));
    // -X face
    assert_eq!(vertices[4], v(-1, -1, -1));
    assert_eq!(vertices[5], v(-1, 1, -1));
    assert_eq!(vertices[6], v(-1, 1, 1));
    assert_eq!(vertices[7], v(-1, -1, 1));
    // +Y face
    assert_eq!(vertices[8], v(-1, 1, 1));
    assert_eq!(vertices[9], v(1, 1, 1));
    assert_eq!(vertices[10], v(1, 1, -1));
    assert_eq!(vertices[11], v(-1, 1, -1));
    // two triangles per quad, base advancing by four
    assert_eq!(&indices[0..6], &[0, 1, 2, 0, 2, 3]);
    assert_eq!(&indices[6..12], &[4, 5, 6, 4, 6, 7]);
    assert_eq!(&indices[12..18], &[8, 9, 10, 8, 10, 11]);
}

#[test]
fn vertex_positions_use_world_coordinates() {
    // voxel (1, 2, 3) of chunk (1, 0, 0): world centre (17, 2, 3),
    // doubled (34, 4, 6)
    let mut chunk = Chunk::new((1, 0, 0));
    chunk.set_voxel(1, 2, 3, VoxelType::Grass);
    let (vertices, _) = chunk.generate_mesh();
    assert_eq!(vertices.len(), 24);
    let grass = Color { r: 2, g: 8, b: 2 };
    assert_eq!(
        vertices[0],
        Vertex { half_x: 35, half_y: 3, half_z: 7, color: grass },
    );
}

#[test]
fn enclosed_voxels_contribute_nothing() {
    // a fully solid chunk: only the 6 * 16 * 16 boundary faces remain,
    // every interior voxel is completely occluded
    let mut chunk = Chunk::new((0, 0, 0));
    for x in 0..16 {
        for y in 0..16 {
            for z in 0..16 {
                chunk.set_voxel(x, y, z, VoxelType::Stone);
            }
        }
    }
    let (vertices, indices) = chunk.generate_mesh();
    assert_eq!(vertices.len(), 6 * 16 * 16 * 4);
    assert_eq!(indices.len(), 6 * 16 * 16 * 6);
}

#[test]
fn touching_voxels_cull_shared_faces() {
    // two stone voxels in a row share one hidden wall: 10 faces remain
    let mut chunk = Chunk::new((0, 0, 0));
    chunk.set_voxel(8, 8, 8, VoxelType::Stone);
    chunk.set_voxel(9, 8, 8, VoxelType::Stone);
    let (vertices, indices) = chunk.generate_mesh();
    assert_eq!(vertices.len(), 40);
    assert_eq!(indices.len(), 60);
}

#[test]
fn boundary_face_is_always_emitted() {
    // a solid voxel on the -X boundary emits its -X face even though a
    // neighbouring chunk might cover it: there is no cross-chunk lookup
    let mut chunk = Chunk::new((0, 0, 0));
    chunk.set_voxel(0, 5, 5, VoxelType::Stone);
    chunk.set_voxel(1, 5, 5, VoxelType::Stone);
    let (vertices, _) = chunk.generate_mesh();
    // corner (-0.5, 4.5, 4.5) of the -X face, doubled
    let stone = Color { r: 5, g: 5, b: 5 };
    let corner = Vertex { half_x: -1, half_y: 9, half_z: 9, color: stone };
    assert!(vertices.contains(&corner));
}

#[test]
fn meshing_leaves_the_chunk_untouched() {
    let mut chunk = Chunk::new((0, 0, 0));
    chunk.set_voxel(1, 1, 1, VoxelType::Dirt);
    assert!(chunk.is_dirty());
    let _ = chunk.generate_mesh();
    // the mesher never clears the flag; that is the owner's job
    assert!(chunk.is_dirty());
    assert_eq!(chunk.get_voxel(1, 1, 1), Some(VoxelType::Dirt));
}

#[test]
fn mesh_carries_the_voxel_color() {
    let mut chunk = Chunk::new((0, 0, 0));
    chunk.set_voxel(2, 2, 2, VoxelType::Dirt);
    let (vertices, _) = chunk.generate_mesh();
    let dirt = Color { r: 6, g: 4, b: 2 };
    assert!(vertices.iter().all(|v| v.color == dirt));
}

#[test]
fn mesh_indices_stay_in_vertex_range() {
    let mut chunk = Chunk::new((0, 0, 0));
    for i in 0..16 {
        chunk.set_voxel(i, (i * 5) % 16, (i * 3) % 16, VoxelType::Stone);
    }
    let (vertices, indices) = chunk.generate_mesh();
    assert!(!indices.is_empty());
    assert!(indices.iter().all(|&i| (i as usize) < vertices.len()));
}
