//! Chunks: fixed-size cubic voxel grids with a chunk-grid position and a
//! dirty flag that tracks whether the contents changed since the last mesh.

use vstd::prelude::*;

use crate::terrain::terrain_from;
use crate::voxel::VoxelType;

verus! {

/// Number of voxels along each edge of a chunk.
pub const CHUNK_SIZE: usize = 16;

/// Total number of voxels in a chunk: `CHUNK_SIZE` cubed.
pub const CHUNK_VOLUME: usize = 4096;

/// Mathematical model of a chunk: the dense voxel contents in `voxel_index`
/// order, the chunk-grid position, and the dirty flag.
#[verifier::ext_equal]
pub ghost struct ChunkView {
    pub voxels: Seq<VoxelType>,
    pub grid_position: (i32, i32, i32),
    pub dirty: bool,
}

/// True when `(x, y, z)` is a local coordinate inside a chunk.
pub open spec fn valid_local(x: int, y: int, z: int) -> bool {
    0 <= x < 16 && 0 <= y < 16 && 0 <= z < 16
}

/// Position of local coordinate `(x, y, z)` in the flat voxel array.
pub open spec fn voxel_index(x: int, y: int, z: int) -> int {
    (x * 16 + y) * 16 + z
}

impl ChunkView {
    /// A chunk model is well formed when it holds exactly one voxel for
    /// every local coordinate.
    pub open spec fn wf(self) -> bool {
        self.voxels.len() == 4096
    }

    /// The voxel stored at local coordinate `(x, y, z)`.
    pub open spec fn voxel(self, x: int, y: int, z: int) -> VoxelType {
        self.voxels[voxel_index(x, y, z)]
    }

    /// True when `(x, y, z)` lies in the chunk and holds a solid voxel.
    /// A coordinate beyond the chunk boundary never counts as solid, so
    /// off-grid neighbour probes behave like empty space.
    pub open spec fn solid_at(self, x: int, y: int, z: int) -> bool {
        valid_local(x, y, z) && self.voxel(x, y, z).is_solid()
    }
}

/// Model of `set_voxel`: an out-of-range write changes nothing; writing the
/// value already stored changes nothing (in particular it does not mark the
/// chunk dirty); any other write stores the voxel and marks the chunk dirty.
pub open spec fn set_voxel_model(
    cv: ChunkView,
    x: int,
    y: int,
    z: int,
    voxel: VoxelType,
) -> ChunkView {
    if !valid_local(x, y, z) {
        cv
    } else if cv.voxel(x, y, z) == voxel {
        cv
    } else {
        ChunkView { voxels: cv.voxels.update(voxel_index(x, y, z), voxel), dirty: true, ..cv }
    }
}

/// One axis-aligned cubic region of the world, `CHUNK_SIZE` voxels on each
/// edge. The voxel grid is a dense flat array indexed by `voxel_index`.
pub struct Chunk {
    voxels: Vec<VoxelType>,
    grid_position: (i32, i32, i32),
    dirty: bool,
}

impl View for Chunk {
    type V = ChunkView;

    closed spec fn view(&self) -> ChunkView {
        ChunkView {
            voxels: self.voxels@,
            grid_position: self.grid_position,
            dirty: self.dirty,
        }
    }
}

impl Chunk {
    /// Creates a chunk at `grid_position` filled entirely with `Air` and
    /// marked dirty, so a fresh chunk is always meshed at least once.
    #[verifier::spinoff_prover]
    pub fn new(grid_position: (i32, i32, i32)) -> (chunk: Chunk)
        ensures
            chunk@.wf(),
            chunk@.grid_position == grid_position,
            chunk@.dirty == true,
            forall|i: int| 0 <= i < 4096 ==> chunk@.voxels[i] is Air,
    {
        let mut voxels: Vec<VoxelType> = Vec::with_capacity(CHUNK_VOLUME);
        let mut i: usize = 0;
        #[verifier::spinoff_prover]
        while i < CHUNK_VOLUME
            invariant
                i <= 4096,
                voxels@.len() == i,
                forall|k: int| 0 <= k < i ==> voxels@[k] is Air,
            decreases 4096 - i,
        {
            voxels.push(VoxelType::Air);
            i = i + 1;
        }
        Chunk { voxels, grid_position, dirty: true }
    }

    /// The chunk's position in chunk-grid space.
    pub fn grid_position(&self) -> (grid_position: (i32, i32, i32))
        ensures
            grid_position == self@.grid_position,
    {
        self.grid_position
    }

    /// Whether the voxel contents may differ from the last mesh built for
    /// this chunk.
    pub fn is_dirty(&self) -> (dirty: bool)
        ensures
            dirty == self@.dirty,
    {
        self.dirty
    }

    /// Marks the chunk clean. The owner calls this right after consuming a
    /// freshly built mesh, so that clearing stays atomic with "mesh used".
    pub fn clear_dirty(&mut self)
        ensures
            final(self)@ == (ChunkView { dirty: false, ..old(self)@ }),
    {
        self.dirty = false;
    }

    /// World coordinate of the chunk's minimum corner:
    /// `grid_position * CHUNK_SIZE` on each axis. The bounds keep the
    /// products inside `i32`.
    pub fn world_origin(&self) -> (origin: (i32, i32, i32))
        requires
            -134217728 <= self@.grid_position.0 <= 134217727,
            -134217728 <= self@.grid_position.1 <= 134217727,
            -134217728 <= self@.grid_position.2 <= 134217727,
        ensures
            origin.0 == self@.grid_position.0 * 16,
            origin.1 == self@.grid_position.1 * 16,
            origin.2 == self@.grid_position.2 * 16,
    {
        (self.grid_position.0 * 16, self.grid_position.1 * 16, self.grid_position.2 * 16)
    }

    /// Returns the voxel at local `(x, y, z)`, or `None` when any coordinate
    /// falls outside the chunk. An out-of-range query is an ordinary probe,
    /// not an error: the mesher asks for neighbours across the boundary.
    #[verifier::spinoff_prover]
    pub fn get_voxel(&self, x: usize, y: usize, z: usize) -> (voxel: Option<VoxelType>)
        requires
            self@.wf(),
        ensures
            valid_local(x as int, y as int, z as int) ==> voxel == Some(
                self@.voxel(x as int, y as int, z as int),
            ),
            !valid_local(x as int, y as int, z as int) ==> voxel is None,
    {
        if x < CHUNK_SIZE && y < CHUNK_SIZE && z < CHUNK_SIZE {
            Some(self.voxels[(x * CHUNK_SIZE + y) * CHUNK_SIZE + z])
        } else {
            None
        }
    }

    /// The voxel at a coordinate known to lie inside the chunk.
    pub(crate) fn voxel_at(&self, x: usize, y: usize, z: usize) -> (voxel: VoxelType)
        requires
            self@.wf(),
            valid_local(x as int, y as int, z as int),
        ensures
            voxel == self@.voxel(x as int, y as int, z as int),
    {
        self.voxels[(x * CHUNK_SIZE + y) * CHUNK_SIZE + z]
    }

    /// Stores `voxel` at local `(x, y, z)` as `set_voxel_model` describes:
    /// out-of-range writes and writes of the already-stored value are
    /// no-ops, and only a real change marks the chunk dirty.
    #[verifier::spinoff_prover]
    pub fn set_voxel(&mut self, x: usize, y: usize, z: usize, voxel: VoxelType)
        requires
            old(self)@.wf(),
        ensures
            final(self)@ == set_voxel_model(old(self)@, x as int, y as int, z as int, voxel),
            final(self)@.wf(),
    {
        if x < CHUNK_SIZE && y < CHUNK_SIZE && z < CHUNK_SIZE {
            let i = (x * CHUNK_SIZE + y) * CHUNK_SIZE + z;
            if self.voxels[i] != voxel {
                self.voxels.set(i, voxel);
                self.dirty = true;
                proof {
                    assert(self@ =~= set_voxel_model(
                        old(self)@,
                        x as int,
                        y as int,
                        z as int,
                        voxel,
                    ));
                }
            }
        }
    }

    /// Fills the chunk from a per-column height field and marks it dirty
    /// unconditionally: a freshly generated chunk always needs meshing.
    /// `heights` holds one surface height per column, in `column_index`
    /// order; each voxel becomes stone below its column's surface, grass
    /// at it, air above.
    #[verifier::spinoff_prover]
    pub fn generate_terrain(&mut self, heights: &Vec<i32>)
        requires
            old(self)@.wf(),
            heights@.len() == 256,
        ensures
            final(self)@.wf(),
            final(self)@.grid_position == old(self)@.grid_position,
            final(self)@.dirty == true,
            final(self)@.voxels == terrain_from(heights@, old(self)@.grid_position.1 as int),
    {
        let gp = self.grid_position;
        let mut n: usize = 0;
        #[verifier::spinoff_prover]
        while n < CHUNK_VOLUME
            invariant
                n <= 4096,
                self@.wf(),
                self@.grid_position == gp,
                heights@.len() == 256,
                forall|m: int|
                    0 <= m < n ==> self@.voxels[m] == terrain_from(heights@, gp.1 as int)[m],
            decreases 4096 - n,
        {
            let x = n / 256;
            let y = (n / 16) % 16;
            let z = n % 16;
            let height = heights[x * 16 + z];
            let world_y: i64 = (gp.1 as i64) * 16 + (y as i64);
            let voxel = if world_y < height as i64 {
                VoxelType::Stone
            } else if world_y == height as i64 {
                VoxelType::Grass
            } else {
                VoxelType::Air
            };
            self.voxels.set(n, voxel);
            n = n + 1;
        }
        self.dirty = true;
        proof {
            assert(self@.voxels =~= terrain_from(heights@, gp.1 as int));
        }
    }
}

/// Setting a voxel is idempotent: a second write of the same value leaves
/// the chunk — including its dirty flag — exactly as the first write left
/// it, because the second write sees the value already stored.
pub proof fn lemma_set_voxel_idempotent(
    cv: ChunkView,
    x: int,
    y: int,
    z: int,
    voxel: VoxelType,
)
    requires
        cv.wf(),
    ensures
        set_voxel_model(set_voxel_model(cv, x, y, z, voxel), x, y, z, voxel) == set_voxel_model(
            cv,
            x,
            y,
            z,
            voxel,
        ),
{
    let once = set_voxel_model(cv, x, y, z, voxel);
    if valid_local(x, y, z) && cv.voxel(x, y, z) != voxel {
        assert(once.voxel(x, y, z) == voxel);
    }
}

} // verus!
