//! The chunk store driven the way the application drives it: the required
//! set around an observer, reconcile with Perlin-generated chunks, and
//! dirty-tracked remeshing.

use noise::{NoiseFn, Perlin};
use voxel_engine::chunk::Chunk;
use voxel_engine::store::{world_to_grid, ChunkStore};
use voxel_engine::voxel::VoxelType;

/// Surface heights of one chunk's columns, sampled from seeded Perlin
/// noise exactly as the renderer does: scale 0.01, amplitude 10, base 20.
fn column_heights(seed: u32, grid: (i32, i32, i32)) -> Vec<i32> {
    let perlin = Perlin::new(seed);
    let mut heights = Vec::with_capacity(256);
    for x in 0..16 {
        for z in 0..16 {
            let world_x = (grid.0 * 16 + x) as f64;
            let world_z = (grid.2 * 16 + z) as f64;
            let value = perlin.get([world_x * 0.01, world_z * 0.01]);
            heights.push((value * 10.0 + 20.0).round() as i32);
        }
    }
    heights
}

fn generate_at(seed: u32, grid: (i32, i32, i32)) -> Chunk {
    let mut chunk = Chunk::new(grid);
    chunk.generate_terrain(&column_heights(seed, grid));
    chunk
}

/// One tick of the streaming loop around the given chunk-grid column:
/// required set, generation of the missing chunks, reconcile, remesh.
fn tick(store: &mut ChunkStore, seed: u32, center: (i64, i64)) -> Vec<(i32, i32, i32)> {
    let required = store.required_set(center.0, center.1);
    let missing = store.missing_chunks(&required);
    let fresh: Vec<Chunk> = missing.iter().map(|&g| generate_at(seed, g)).collect();
    store.reconcile(&required, fresh);
    store.remesh_dirty()
}

fn chunk_has_solid(chunk: &Chunk) -> bool {
    for x in 0..16 {
        for y in 0..16 {
            for z in 0..16 {
                if chunk.get_voxel(x, y, z).unwrap().is_solid() {
                    return true;
                }
            }
        }
    }
    false
}

#[test]
fn world_to_grid_floors() {
    assert_eq!(world_to_grid(0), 0);
    assert_eq!(world_to_grid(8), 0);
    assert_eq!(world_to_grid(15), 0);
    assert_eq!(world_to_grid(16), 1);
    assert_eq!(world_to_grid(31), 1);
    assert_eq!(world_to_grid(-1), -1);
    assert_eq!(world_to_grid(-16), -1);
    assert_eq!(world_to_grid(-17), -2);
}

#[test]
fn required_set_is_the_radius_one_square() {
    let store = ChunkStore::new(1, 0);
    let required = store.required_set(0, 0);
    assert_eq!(required.len(), 9);
    for x in -1..=1 {
        for z in -1..=1 {
            assert!(required.contains(&(x, 0, z)));
        }
    }
}

#[test]
fn required_set_spans_the_vertical_band() {
    // the band is [0, span] in grid units, regardless of the observer
    let store = ChunkStore::new(0, 2);
    let required = store.required_set(7, -3);
    assert_eq!(required.len(), 3);
    assert!(required.contains(&(7, 0, -3)));
    assert!(required.contains(&(7, 1, -3)));
    assert!(required.contains(&(7, 2, -3)));
}

#[test]
fn reconcile_creates_missing_chunks() {
    let mut store = ChunkStore::new(1, 0);
    let required = store.required_set(0, 0);
    let missing = store.missing_chunks(&required);
    assert_eq!(missing.len(), 9);
    let fresh: Vec<Chunk> = missing.iter().map(|&g| generate_at(123, g)).collect();
    store.reconcile(&required, fresh);
    for x in -1..=1 {
        for z in -1..=1 {
            assert!(store.has_chunk((x, 0, z)));
            // freshly generated chunks always need meshing
            assert!(store.chunk((x, 0, z)).unwrap().is_dirty());
        }
    }
    assert!(!store.has_chunk((2, 0, 0)));
}

#[test]
fn reconcile_evicts_everything_outside() {
    let mut store = ChunkStore::new(0, 0);
    tick(&mut store, 123, (0, 0));
    assert!(store.has_chunk((0, 0, 0)));
    // move far away: the old coordinate set is disjoint from the new one
    tick(&mut store, 123, (5, 5));
    assert!(!store.has_chunk((0, 0, 0)));
    assert!(store.mesh((0, 0, 0)).is_none());
    assert!(store.has_chunk((5, 0, 5)));
}

#[test]
fn reconcile_leaves_resident_chunks_untouched() {
    let mut store = ChunkStore::new(1, 0);
    tick(&mut store, 123, (0, 0));
    assert!(!store.chunk((0, 0, 0)).unwrap().is_dirty());
    // the same tick again: nothing is missing, nothing is re-generated,
    // so the resident chunks keep their cleared dirty flags
    let remeshed = tick(&mut store, 123, (0, 0));
    assert!(remeshed.is_empty());
    assert!(!store.chunk((0, 0, 0)).unwrap().is_dirty());
}

#[test]
fn remesh_reports_and_clears_dirty_chunks() {
    let mut store = ChunkStore::new(1, 0);
    let required = store.required_set(0, 0);
    let missing = store.missing_chunks(&required);
    let fresh: Vec<Chunk> = missing.iter().map(|&g| generate_at(123, g)).collect();
    store.reconcile(&required, fresh);
    let remeshed = store.remesh_dirty();
    assert_eq!(remeshed.len(), 9);
    for g in &remeshed {
        assert!(!store.chunk(*g).unwrap().is_dirty());
    }
    // nothing is dirty any more
    assert!(store.remesh_dirty().is_empty());
}

#[test]
fn mesh_entries_follow_solid_contents() {
    let mut store = ChunkStore::new(1, 3);
    tick(&mut store, 123, (0, 0));
    for g in store.positions() {
        let solid = chunk_has_solid(store.chunk(g).unwrap());
        match store.mesh(g) {
            Some(mesh) => {
                assert!(solid);
                assert!(!mesh.vertices.is_empty());
                assert!(!mesh.indices.is_empty());
            }
            None => assert!(!solid),
        }
    }
}

#[test]
fn sky_chunks_stay_meshless() {
    // the height map lies in [10, 30], so chunks at grid height 2 and up
    // (world height 32 and above) are pure air and keep no mesh entry
    let mut store = ChunkStore::new(0, 3);
    tick(&mut store, 123, (0, 0));
    assert!(store.has_chunk((0, 2, 0)));
    assert!(store.has_chunk((0, 3, 0)));
    assert!(!chunk_has_solid(store.chunk((0, 2, 0)).unwrap()));
    assert!(store.mesh((0, 2, 0)).is_none());
    assert!(store.mesh((0, 3, 0)).is_none());
    // ground-level chunks do hold terrain
    assert!(chunk_has_solid(store.chunk((0, 0, 0)).unwrap()));
    assert!(store.mesh((0, 0, 0)).is_some());
}

#[test]
fn regeneration_is_deterministic() {
    let a = generate_at(42, (3, 0, 2));
    let b = generate_at(42, (3, 0, 2));
    for x in 0..16 {
        for y in 0..16 {
            for z in 0..16 {
                assert_eq!(a.get_voxel(x, y, z), b.get_voxel(x, y, z));
            }
        }
    }
}

#[test]
fn eviction_and_reload_reproduce_the_chunk() {
    let mut store = ChunkStore::new(0, 0);
    tick(&mut store, 7, (0, 0));
    let mut before = Vec::new();
    {
        let chunk = store.chunk((0, 0, 0)).unwrap();
        for x in 0..16 {
            for y in 0..16 {
                for z in 0..16 {
                    before.push(chunk.get_voxel(x, y, z).unwrap());
                }
            }
        }
    }
    // wander away and back: the chunk is evicted, then re-generated
    tick(&mut store, 7, (100, 0));
    assert!(!store.has_chunk((0, 0, 0)));
    tick(&mut store, 7, (0, 0));
    let chunk = store.chunk((0, 0, 0)).unwrap();
    let mut i = 0;
    for x in 0..16 {
        for y in 0..16 {
            for z in 0..16 {
                assert_eq!(chunk.get_voxel(x, y, z).unwrap(), before[i]);
                i += 1;
            }
        }
    }
}

#[test]
fn end_to_end_radius_one_scenario() {
    // observer at world (8, 8, 8) stands in chunk column (0, 0)
    let mut store = ChunkStore::new(1, 0);
    let center_x = world_to_grid(8);
    let center_z = world_to_grid(8);
    assert_eq!((center_x, center_z), (0, 0));
    let required = store.required_set(center_x, center_z);
    assert_eq!(required.len(), 9);
    for x in -1..=1 {
        for z in -1..=1 {
            assert!(required.contains(&(x, 0, z)));
        }
    }
    let missing = store.missing_chunks(&required);
    let fresh: Vec<Chunk> = missing.iter().map(|&g| generate_at(123, g)).collect();
    store.reconcile(&required, fresh);
    let remeshed = store.remesh_dirty();
    assert_eq!(remeshed.len(), 9);
    for x in -1..=1 {
        for z in -1..=1 {
            let g = (x, 0, z);
            assert!(store.has_chunk(g));
            assert!(!store.chunk(g).unwrap().is_dirty());
            if chunk_has_solid(store.chunk(g).unwrap()) {
                let mesh = store.mesh(g).expect("solid chunk must keep a mesh entry");
                assert!(!mesh.vertices.is_empty());
            }
        }
    }
}

#[test]
fn terrain_surface_is_grass_over_stone() {
    // contract of generation: stone strictly below the surface, grass at
    // it, air above — visible in a real noise-generated chunk
    let chunk = generate_at(123, (0, 1, 0));
    let heights = column_heights(123, (0, 1, 0));
    for x in 0..16usize {
        for z in 0..16usize {
            let h = heights[x * 16 + z];
            for y in 0..16usize {
                let world_y = 16 + y as i32;
                let expected = if world_y < h {
                    VoxelType::Stone
                } else if world_y == h {
                    VoxelType::Grass
                } else {
                    VoxelType::Air
                };
                assert_eq!(chunk.get_voxel(x, y, z), Some(expected));
            }
        }
    }
}
