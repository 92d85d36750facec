//! A streaming voxel-terrain core: chunked voxel storage, deterministic
//! noise-based terrain generation, face-culled meshing, and a chunk store
//! that loads, meshes and evicts chunks around a moving observer.

pub mod chunk;
pub mod mesh;
pub mod store;
pub mod terrain;
pub mod voxel;
