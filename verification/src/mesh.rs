//! Face-culled meshing: turning a chunk's voxel grid into vertex and index
//! buffers. Every solid voxel emits one quad (four vertices, six indices)
//! for each of its six faces whose neighbour is empty space or lies beyond
//! the chunk boundary; faces hidden behind solid neighbours are culled.

use vstd::prelude::*;

use crate::chunk::{valid_local, Chunk, ChunkView, CHUNK_SIZE, CHUNK_VOLUME};
use crate::voxel::Color;

verus! {

/// One mesh vertex: a corner of a voxel cube carrying the voxel's flat
/// colour. Positions are stored in half-voxel units — the world coordinate
/// doubled — so the corners at ±0.5 around a voxel centre are exact
/// integers; a renderer halves them to recover world coordinates.
#[derive(Clone, Copy, Debug, PartialEq, Eq, Structural)]
pub struct Vertex {
    pub half_x: i64,
    pub half_y: i64,
    pub half_z: i64,
    pub color: Color,
}

/// Identifies one visible face of one voxel: local coordinates and a face
/// number (0: +X, 1: -X, 2: +Y, 3: -Y, 4: +Z, 5: -Z).
pub ghost struct FaceRef {
    pub x: int,
    pub y: int,
    pub z: int,
    pub face: int,
}

/// Unit offset from a voxel to the neighbour behind face `face`.
pub open spec fn face_normal(face: int) -> (int, int, int) {
    if face == 0 {
        (1, 0, 0)
    } else if face == 1 {
        (-1, 0, 0)
    } else if face == 2 {
        (0, 1, 0)
    } else if face == 3 {
        (0, -1, 0)
    } else if face == 4 {
        (0, 0, 1)
    } else {
        (0, 0, -1)
    }
}

/// Offset, in half-voxel units, of corner `k` of face `face` from the
/// voxel centre. The four corners of each face are listed in the fixed
/// counter-clockwise winding order of that face.
pub open spec fn corner_offset(face: int, k: int) -> (int, int, int) {
    if face == 0 {
        if k == 0 {
            (1, -1, 1)
        } else if k == 1 {
            (1, 1, 1)
        } else if k == 2 {
            (1, 1, -1)
        } else {
            (1, -1, -1)
        }
    } else if face == 1 {
        if k == 0 {
            (-1, -1, -1)
        } else if k == 1 {
            (-1, 1, -1)
        } else if k == 2 {
            (-1, 1, 1)
        } else {
            (-1, -1, 1)
        }
    } else if face == 2 {
        if k == 0 {
            (-1, 1, 1)
        } else if k == 1 {
            (1, 1, 1)
        } else if k == 2 {
            (1, 1, -1)
        } else {
            (-1, 1, -1)
        }
    } else if face == 3 {
        if k == 0 {
            (-1, -1, -1)
        } else if k == 1 {
            (1, -1, -1)
        } else if k == 2 {
            (1, -1, 1)
        } else {
            (-1, -1, 1)
        }
    } else if face == 4 {
        if k == 0 {
            (-1, -1, 1)
        } else if k == 1 {
            (-1, 1, 1)
        } else if k == 2 {
            (1, 1, 1)
        } else {
            (1, -1, 1)
        }
    } else {
        if k == 0 {
            (1, -1, -1)
        } else if k == 1 {
            (1, 1, -1)
        } else if k == 2 {
            (-1, 1, -1)
        } else {
            (-1, -1, -1)
        }
    }
}

/// A face of the voxel at `(x, y, z)` is visible exactly when that voxel
/// is solid and the neighbour behind the face is not: either a non-solid
/// voxel or a coordinate beyond the chunk boundary. Boundary faces are
/// always drawn — there is no cross-chunk occlusion query.
pub open spec fn face_visible(cv: ChunkView, x: int, y: int, z: int, face: int) -> bool {
    let n = face_normal(face);
    cv.solid_at(x, y, z) && !cv.solid_at(x + n.0, y + n.1, z + n.2)
}

/// Vertex `k` of the quad emitted for `face` of the voxel at `(x, y, z)`:
/// the voxel's world-space centre, doubled, plus the corner offset.
pub open spec fn quad_vertex(cv: ChunkView, x: int, y: int, z: int, face: int, k: int) -> Vertex {
    let gp = cv.grid_position;
    let off = corner_offset(face, k);
    Vertex {
        half_x: (2 * (gp.0 * 16 + x) + off.0) as i64,
        half_y: (2 * (gp.1 * 16 + y) + off.1) as i64,
        half_z: (2 * (gp.2 * 16 + z) + off.2) as i64,
        color: cv.voxel(x, y, z).get_color(),
    }
}

/// The four vertices of the quad `q`, in winding order.
pub open spec fn quad_vertices(cv: ChunkView, q: FaceRef) -> Seq<Vertex> {
    Seq::new(4, |k: int| quad_vertex(cv, q.x, q.y, q.z, q.face, k))
}

/// The quad emitted for `face` of the voxel at `(x, y, z)`: a singleton
/// when the face is visible, empty when it is culled.
pub open spec fn maybe_quad(cv: ChunkView, x: int, y: int, z: int, face: int) -> Seq<FaceRef> {
    if face_visible(cv, x, y, z, face) {
        seq![(FaceRef { x, y, z, face })]
    } else {
        Seq::empty()
    }
}

/// All visible faces of the voxel at `(x, y, z)`, in face order.
pub open spec fn voxel_quads(cv: ChunkView, x: int, y: int, z: int) -> Seq<FaceRef> {
    maybe_quad(cv, x, y, z, 0) + maybe_quad(cv, x, y, z, 1) + maybe_quad(cv, x, y, z, 2)
        + maybe_quad(cv, x, y, z, 3) + maybe_quad(cv, x, y, z, 4) + maybe_quad(cv, x, y, z, 5)
}

/// All visible faces of the first `n` voxels, in `voxel_index` order.
pub open spec fn quads_upto(cv: ChunkView, n: int) -> Seq<FaceRef>
    decreases n,
{
    if n <= 0 {
        Seq::empty()
    } else {
        quads_upto(cv, n - 1) + voxel_quads(
            cv,
            (n - 1) / 256,
            ((n - 1) / 16) % 16,
            (n - 1) % 16,
        )
    }
}

/// Every visible face of the chunk, in emission order.
pub open spec fn chunk_quads(cv: ChunkView) -> Seq<FaceRef> {
    quads_upto(cv, 4096)
}

/// The vertices emitted for the quads `qs`: four per quad, in order.
pub open spec fn quads_vertices(cv: ChunkView, qs: Seq<FaceRef>) -> Seq<Vertex>
    decreases qs.len(),
{
    if qs.len() == 0 {
        Seq::empty()
    } else {
        quads_vertices(cv, qs.drop_last()) + quad_vertices(cv, qs.last())
    }
}

/// The vertex list of the chunk's mesh.
pub open spec fn mesh_vertices(cv: ChunkView) -> Seq<Vertex> {
    quads_vertices(cv, chunk_quads(cv))
}

/// The six indices of the two counter-clockwise triangles of a quad whose
/// first vertex sits at `base`: `(base, base+1, base+2)` and
/// `(base, base+2, base+3)`.
pub open spec fn quad_indices(base: int) -> Seq<u32> {
    seq![
        base as u32,
        (base + 1) as u32,
        (base + 2) as u32,
        base as u32,
        (base + 2) as u32,
        (base + 3) as u32,
    ]
}

/// The index list for `quad_count` quads: six indices per quad, the base
/// advancing by four per quad.
pub open spec fn index_pattern(quad_count: int) -> Seq<u32>
    decreases quad_count,
{
    if quad_count <= 0 {
        Seq::empty()
    } else {
        index_pattern(quad_count - 1) + quad_indices(4 * (quad_count - 1))
    }
}

/// The index list of the chunk's mesh.
pub open spec fn mesh_indices(cv: ChunkView) -> Seq<u32> {
    index_pattern(chunk_quads(cv).len() as int)
}

/// Appending one quad appends exactly its four vertices.
proof fn lemma_quads_vertices_push(cv: ChunkView, qs: Seq<FaceRef>, q: FaceRef)
    ensures
        quads_vertices(cv, qs.push(q)) == quads_vertices(cv, qs) + quad_vertices(cv, q),
{
    assert(qs.push(q).drop_last() =~= qs);
    assert(qs.push(q).last() == q);
}

/// The vertex list is four entries per quad.
pub proof fn lemma_quads_vertices_len(cv: ChunkView, qs: Seq<FaceRef>)
    ensures
        quads_vertices(cv, qs).len() == 4 * qs.len(),
    decreases qs.len(),
{
    if qs.len() > 0 {
        lemma_quads_vertices_len(cv, qs.drop_last());
    }
}

/// The index list is six entries per quad.
pub proof fn lemma_index_pattern_len(quad_count: int)
    ensures
        index_pattern(quad_count).len() == if quad_count <= 0 {
            0
        } else {
            6 * quad_count
        },
    decreases quad_count,
{
    if quad_count > 0 {
        lemma_index_pattern_len(quad_count - 1);
    }
}

/// A voxel emits at most six quads, so the first `n` voxels emit at most
/// `6 * n`.
pub proof fn lemma_quads_upto_len(cv: ChunkView, n: int)
    ensures
        quads_upto(cv, n).len() <= if n <= 0 {
            0
        } else {
            6 * n
        },
    decreases n,
{
    if n > 0 {
        lemma_quads_upto_len(cv, n - 1);
    }
}

/// Local coordinates recovered from a flat voxel number `m` index the
/// same voxel again.
#[verifier::spinoff_prover]
pub proof fn lemma_coord_index(m: int)
    requires
        0 <= m < 4096,
    ensures
        valid_local(m / 256, (m / 16) % 16, m % 16),
        crate::chunk::voxel_index(m / 256, (m / 16) % 16, m % 16) == m,
{
    let w = m as u32;
    assert((((w / 256) * 16 + (w / 16) % 16) * 16 + w % 16) == w) by (bit_vector)
        requires w < 4096,
    ;
    assert(w / 256 == m / 256 && (w / 16) % 16 == (m / 16) % 16 && w % 16 == m % 16);
}

/// The flat number of a valid local coordinate decomposes back into that
/// coordinate.
#[verifier::spinoff_prover]
pub proof fn lemma_index_coord(x: int, y: int, z: int)
    requires
        valid_local(x, y, z),
    ensures
        0 <= crate::chunk::voxel_index(x, y, z) < 4096,
        crate::chunk::voxel_index(x, y, z) / 256 == x,
        (crate::chunk::voxel_index(x, y, z) / 16) % 16 == y,
        crate::chunk::voxel_index(x, y, z) % 16 == z,
{
    let m = crate::chunk::voxel_index(x, y, z);
    let a = x as u32;
    let b = y as u32;
    let c = z as u32;
    assert({
        let w = (a * 16 + b) * 16 + c;
        w / 256 == a && (w / 16) % 16 == b && w % 16 == c
    }) by (bit_vector)
        requires a < 16 && b < 16 && c < 16,
    ;
    assert(((a * 16 + b) * 16 + c) == m);
}

/// A voxel that is not solid emits no quads.
pub proof fn lemma_not_solid_no_quads(cv: ChunkView, x: int, y: int, z: int)
    requires
        !cv.solid_at(x, y, z),
    ensures
        voxel_quads(cv, x, y, z) =~= Seq::<FaceRef>::empty(),
{
}

/// No voxel of the first `n` emits a quad when the whole chunk is air.
#[verifier::spinoff_prover]
proof fn lemma_air_quads_upto(cv: ChunkView, n: int)
    requires
        cv.wf(),
        forall|i: int| 0 <= i < 4096 ==> !(#[trigger] cv.voxels[i]).is_solid(),
        0 <= n <= 4096,
    ensures
        quads_upto(cv, n) =~= Seq::<FaceRef>::empty(),
    decreases n,
{
    if n > 0 {
        lemma_air_quads_upto(cv, n - 1);
        let x = (n - 1) / 256;
        let y = ((n - 1) / 16) % 16;
        let z = (n - 1) % 16;
        assert(!cv.solid_at(x, y, z));
        lemma_not_solid_no_quads(cv, x, y, z);
    }
}

/// A chunk that holds no solid voxel meshes to empty vertex and index
/// lists; callers must accept zero-length mesh output as ordinary.
pub proof fn lemma_air_chunk_mesh_empty(cv: ChunkView)
    requires
        cv.wf(),
        forall|i: int| 0 <= i < 4096 ==> !(#[trigger] cv.voxels[i]).is_solid(),
    ensures
        mesh_vertices(cv).len() == 0,
        mesh_indices(cv).len() == 0,
{
    lemma_air_quads_upto(cv, 4096);
    lemma_quads_vertices_len(cv, chunk_quads(cv));
    lemma_index_pattern_len(chunk_quads(cv).len() as int);
}

/// A voxel that is enclosed — solid, with solid voxels behind all six of
/// its faces — contributes no quads at all to the mesh.
pub proof fn lemma_enclosed_voxel_no_quads(cv: ChunkView, x: int, y: int, z: int)
    requires
        cv.wf(),
        cv.solid_at(x, y, z),
        cv.solid_at(x + 1, y, z),
        cv.solid_at(x - 1, y, z),
        cv.solid_at(x, y + 1, z),
        cv.solid_at(x, y - 1, z),
        cv.solid_at(x, y, z + 1),
        cv.solid_at(x, y, z - 1),
    ensures
        voxel_quads(cv, x, y, z).len() == 0,
{
}

/// Quad count of a chunk whose only solid voxel sits at `(x0, y0, z0)`:
/// the running total jumps by that voxel's quads and by nothing else.
#[verifier::spinoff_prover]
proof fn lemma_single_voxel_quads_upto(cv: ChunkView, n: int, x0: int, y0: int, z0: int)
    requires
        cv.wf(),
        valid_local(x0, y0, z0),
        0 <= n <= 4096,
        forall|x: int, y: int, z: int|
            #[trigger] cv.solid_at(x, y, z) ==> x == x0 && y == y0 && z == z0,
    ensures
        quads_upto(cv, n).len() == if crate::chunk::voxel_index(x0, y0, z0) < n {
            voxel_quads(cv, x0, y0, z0).len()
        } else {
            0
        },
    decreases n,
{
    if n > 0 {
        lemma_single_voxel_quads_upto(cv, n - 1, x0, y0, z0);
        lemma_coord_index(n - 1);
        lemma_index_coord(x0, y0, z0);
        let x = (n - 1) / 256;
        let y = ((n - 1) / 16) % 16;
        let z = (n - 1) % 16;
        if x == x0 && y == y0 && z == z0 {
            assert(crate::chunk::voxel_index(x0, y0, z0) == n - 1);
        } else {
            assert(crate::chunk::voxel_index(x0, y0, z0) != n - 1);
            assert(!cv.solid_at(x, y, z));
            lemma_not_solid_no_quads(cv, x, y, z);
        }
    }
}

/// An isolated solid voxel — the only solid voxel of its chunk, so every
/// neighbour is air or lies beyond the boundary — produces exactly six
/// visible faces: 24 vertices and 36 indices.
#[verifier::spinoff_prover]
pub proof fn lemma_isolated_voxel_mesh(cv: ChunkView, x0: int, y0: int, z0: int)
    requires
        cv.wf(),
        cv.solid_at(x0, y0, z0),
        forall|x: int, y: int, z: int|
            #[trigger] cv.solid_at(x, y, z) ==> x == x0 && y == y0 && z == z0,
    ensures
        chunk_quads(cv).len() == 6,
        mesh_vertices(cv).len() == 24,
        mesh_indices(cv).len() == 36,
{
    assert(!cv.solid_at(x0 + 1, y0, z0));
    assert(!cv.solid_at(x0 - 1, y0, z0));
    assert(!cv.solid_at(x0, y0 + 1, z0));
    assert(!cv.solid_at(x0, y0 - 1, z0));
    assert(!cv.solid_at(x0, y0, z0 + 1));
    assert(!cv.solid_at(x0, y0, z0 - 1));
    assert(voxel_quads(cv, x0, y0, z0).len() == 6);
    lemma_index_coord(x0, y0, z0);
    lemma_single_voxel_quads_upto(cv, 4096, x0, y0, z0);
    lemma_quads_vertices_len(cv, chunk_quads(cv));
    lemma_index_pattern_len(chunk_quads(cv).len() as int);
}

/// A quad emitted by voxel number `m` stays in the chunk's quad list.
#[verifier::spinoff_prover]
proof fn lemma_quads_upto_contains(cv: ChunkView, n: int, m: int, q: FaceRef)
    requires
        0 <= m < n <= 4096,
        voxel_quads(cv, m / 256, (m / 16) % 16, m % 16).contains(q),
    ensures
        quads_upto(cv, n).contains(q),
    decreases n,
{
    if n == m + 1 {
        let vq = voxel_quads(cv, m / 256, (m / 16) % 16, m % 16);
        let i = choose|i: int| 0 <= i < vq.len() && vq[i] == q;
        assert(quads_upto(cv, n)[quads_upto(cv, m).len() + i] == q);
    } else {
        lemma_quads_upto_contains(cv, n - 1, m, q);
        let prev = quads_upto(cv, n - 1);
        let i = choose|i: int| 0 <= i < prev.len() && prev[i] == q;
        assert(quads_upto(cv, n)[i] == q);
    }
}

/// A solid voxel on the chunk's -X boundary always emits its -X face:
/// with no neighbouring chunk to consult, the face cannot be culled,
/// whatever lies beyond the boundary.
#[verifier::spinoff_prover]
pub proof fn lemma_boundary_face_emitted(cv: ChunkView, y: int, z: int)
    requires
        cv.wf(),
        cv.solid_at(0, y, z),
    ensures
        face_visible(cv, 0, y, z, 1),
        chunk_quads(cv).contains(FaceRef { x: 0, y, z, face: 1 }),
{
    let q = FaceRef { x: 0, y, z, face: 1 };
    assert(!valid_local(-1, y, z));
    let vq = voxel_quads(cv, 0, y, z);
    assert(vq[maybe_quad(cv, 0, y, z, 0).len() as int] == q);
    assert(vq.contains(q));
    lemma_index_coord(0, y, z);
    lemma_quads_upto_contains(cv, 4096, crate::chunk::voxel_index(0, y, z), q);
}

/// From any solid voxel, walking towards +X reaches a solid voxel whose
/// +X face is visible (a non-solid neighbour or the chunk boundary).
proof fn lemma_visible_face_exists(cv: ChunkView, x: int, y: int, z: int) -> (w: (int, int, int))
    requires
        cv.wf(),
        cv.solid_at(x, y, z),
    ensures
        cv.solid_at(w.0, w.1, w.2),
        face_visible(cv, w.0, w.1, w.2, 0),
    decreases 16 - x,
{
    if !cv.solid_at(x + 1, y, z) {
        (x, y, z)
    } else {
        lemma_visible_face_exists(cv, x + 1, y, z)
    }
}

/// A chunk that holds any solid voxel meshes to non-empty vertex and
/// index lists: some face of some solid voxel is always visible.
#[verifier::spinoff_prover]
pub proof fn lemma_solid_chunk_mesh_nonempty(cv: ChunkView, x: int, y: int, z: int)
    requires
        cv.wf(),
        cv.solid_at(x, y, z),
    ensures
        mesh_vertices(cv).len() > 0,
        mesh_indices(cv).len() > 0,
{
    let w = lemma_visible_face_exists(cv, x, y, z);
    let q = FaceRef { x: w.0, y: w.1, z: w.2, face: 0 };
    let vq = voxel_quads(cv, w.0, w.1, w.2);
    assert(vq[0] == q);
    assert(vq.contains(q));
    lemma_index_coord(w.0, w.1, w.2);
    lemma_quads_upto_contains(cv, 4096, crate::chunk::voxel_index(w.0, w.1, w.2), q);
    let i = choose|i: int| 0 <= i < chunk_quads(cv).len() && chunk_quads(cv)[i] == q;
    assert(chunk_quads(cv).len() > 0);
    lemma_quads_vertices_len(cv, chunk_quads(cv));
    lemma_index_pattern_len(chunk_quads(cv).len() as int);
}

/// Every entry of the index list for `quad_count` quads points below the
/// matching vertex count of `4 * quad_count`.
#[verifier::spinoff_prover]
proof fn lemma_index_pattern_in_range(quad_count: int)
    requires
        0 <= quad_count <= 24576,
    ensures
        forall|i: int|
            0 <= i < index_pattern(quad_count).len() ==> (index_pattern(quad_count)[i] as int)
                < 4 * quad_count,
    decreases quad_count,
{
    if quad_count > 0 {
        lemma_index_pattern_in_range(quad_count - 1);
        lemma_index_pattern_len(quad_count - 1);
        let whole = index_pattern(quad_count);
        let prev = index_pattern(quad_count - 1);
        assert forall|i: int| 0 <= i < whole.len() implies (whole[i] as int) < 4 * quad_count by {
            if i < prev.len() {
                assert(whole[i] == prev[i]);
            } else {
                assert(whole[i] == quad_indices(4 * (quad_count - 1))[i - prev.len()]);
            }
        }
    }
}

/// Every index the mesher emits refers to an existing vertex, so the
/// index buffer can be drawn against the vertex buffer as is.
#[verifier::spinoff_prover]
pub proof fn lemma_mesh_indices_in_range(cv: ChunkView)
    requires
        cv.wf(),
    ensures
        forall|i: int|
            0 <= i < mesh_indices(cv).len() ==> (mesh_indices(cv)[i] as int) < mesh_vertices(
                cv,
            ).len(),
{
    lemma_quads_upto_len(cv, 4096);
    lemma_quads_vertices_len(cv, chunk_quads(cv));
    lemma_index_pattern_in_range(chunk_quads(cv).len() as int);
}

/// Once all six faces of voxel `n` are processed, the emitted quads are
/// exactly the quad list of the first `n + 1` voxels.
#[verifier::spinoff_prover]
proof fn lemma_quads_step_assembled(cv: ChunkView, n: int, cur: Seq<FaceRef>)
    requires
        0 <= n < 4096,
        cur == quads_upto(cv, n) + maybe_quad(cv, n / 256, (n / 16) % 16, n % 16, 0)
            + maybe_quad(cv, n / 256, (n / 16) % 16, n % 16, 1)
            + maybe_quad(cv, n / 256, (n / 16) % 16, n % 16, 2)
            + maybe_quad(cv, n / 256, (n / 16) % 16, n % 16, 3)
            + maybe_quad(cv, n / 256, (n / 16) % 16, n % 16, 4)
            + maybe_quad(cv, n / 256, (n / 16) % 16, n % 16, 5),
    ensures
        cur == quads_upto(cv, n + 1),
{
    assert(cur =~= quads_upto(cv, n) + voxel_quads(cv, n / 256, (n / 16) % 16, n % 16));
}

/// A non-solid voxel leaves the quad list unchanged.
#[verifier::spinoff_prover]
proof fn lemma_quads_step_empty(cv: ChunkView, n: int)
    requires
        0 <= n < 4096,
        !cv.solid_at(n / 256, (n / 16) % 16, n % 16),
    ensures
        quads_upto(cv, n + 1) == quads_upto(cv, n),
{
    lemma_not_solid_no_quads(cv, n / 256, (n / 16) % 16, n % 16);
    assert(quads_upto(cv, n + 1) =~= quads_upto(cv, n));
}

impl Chunk {
    /// Appends the four vertices and six indices of one visible face quad.
    #[verifier::spinoff_prover]
    fn emit_quad(
        &self,
        vertices: &mut Vec<Vertex>,
        indices: &mut Vec<u32>,
        x: usize,
        y: usize,
        z: usize,
        face: usize,
    )
        requires
            self@.wf(),
            valid_local(x as int, y as int, z as int),
            face < 6,
            old(vertices)@.len() <= 100000,
        ensures
            final(vertices)@ == old(vertices)@ + quad_vertices(
                self@,
                (FaceRef { x: x as int, y: y as int, z: z as int, face: face as int }),
            ),
            final(indices)@ == old(indices)@ + quad_indices(old(vertices)@.len() as int),
    {
        let gp = self.grid_position();
        let cx: i64 = 2 * ((gp.0 as i64) * 16 + (x as i64));
        let cy: i64 = 2 * ((gp.1 as i64) * 16 + (y as i64));
        let cz: i64 = 2 * ((gp.2 as i64) * 16 + (z as i64));
        let color = self.voxel_at(x, y, z).get_color();
        let base: u32 = vertices.len() as u32;

        let o0 = corner(face, 0);
        let o1 = corner(face, 1);
        let o2 = corner(face, 2);
        let o3 = corner(face, 3);
        vertices.push(
            Vertex {
                half_x: cx + o0.0 as i64,
                half_y: cy + o0.1 as i64,
                half_z: cz + o0.2 as i64,
                color,
            },
        );
        vertices.push(
            Vertex {
                half_x: cx + o1.0 as i64,
                half_y: cy + o1.1 as i64,
                half_z: cz + o1.2 as i64,
                color,
            },
        );
        vertices.push(
            Vertex {
                half_x: cx + o2.0 as i64,
                half_y: cy + o2.1 as i64,
                half_z: cz + o2.2 as i64,
                color,
            },
        );
        vertices.push(
            Vertex {
                half_x: cx + o3.0 as i64,
                half_y: cy + o3.1 as i64,
                half_z: cz + o3.2 as i64,
                color,
            },
        );

        indices.push(base);
        indices.push(base + 1);
        indices.push(base + 2);
        indices.push(base);
        indices.push(base + 2);
        indices.push(base + 3);

        proof {
            let q = FaceRef { x: x as int, y: y as int, z: z as int, face: face as int };
            assert(vertices@ =~= old(vertices)@ + quad_vertices(self@, q));
            assert(indices@ =~= old(indices)@ + quad_indices(old(vertices)@.len() as int));
        }
    }

    /// Decides visibility of one face of a solid voxel and, when visible,
    /// appends its quad. The ghost argument `cur` is the list of quads
    /// emitted so far; the result extends it by `maybe_quad` of this face.
    #[verifier::spinoff_prover]
    fn process_face(
        &self,
        vertices: &mut Vec<Vertex>,
        indices: &mut Vec<u32>,
        x: usize,
        y: usize,
        z: usize,
        face: usize,
        cur: Ghost<Seq<FaceRef>>,
    ) -> (out: Ghost<Seq<FaceRef>>)
        requires
            self@.wf(),
            valid_local(x as int, y as int, z as int),
            self@.solid_at(x as int, y as int, z as int),
            face < 6,
            cur@.len() <= 24600,
            old(vertices)@ == quads_vertices(self@, cur@),
            old(indices)@ == index_pattern(cur@.len() as int),
        ensures
            out@ == cur@ + maybe_quad(self@, x as int, y as int, z as int, face as int),
            out@.len() <= cur@.len() + 1,
            final(vertices)@ == quads_vertices(self@, out@),
            final(indices)@ == index_pattern(out@.len() as int),
    {
        let ghost cv = self@;
        let ghost xi = x as int;
        let ghost yi = y as int;
        let ghost zi = z as int;
        proof {
            lemma_quads_vertices_len(cv, cur@);
        }
        let visible: bool;
        if face == 0 {
            visible = x + 1 >= CHUNK_SIZE || !self.voxel_at(x + 1, y, z).is_solid();
            proof {
                assert(visible == face_visible(cv, xi, yi, zi, 0));
            }
        } else if face == 1 {
            visible = x == 0 || !self.voxel_at(x - 1, y, z).is_solid();
            proof {
                assert(visible == face_visible(cv, xi, yi, zi, 1));
            }
        } else if face == 2 {
            visible = y + 1 >= CHUNK_SIZE || !self.voxel_at(x, y + 1, z).is_solid();
            proof {
                assert(visible == face_visible(cv, xi, yi, zi, 2));
            }
        } else if face == 3 {
            visible = y == 0 || !self.voxel_at(x, y - 1, z).is_solid();
            proof {
                assert(visible == face_visible(cv, xi, yi, zi, 3));
            }
        } else if face == 4 {
            visible = z + 1 >= CHUNK_SIZE || !self.voxel_at(x, y, z + 1).is_solid();
            proof {
                assert(visible == face_visible(cv, xi, yi, zi, 4));
            }
        } else {
            visible = z == 0 || !self.voxel_at(x, y, z - 1).is_solid();
            proof {
                assert(visible == face_visible(cv, xi, yi, zi, 5));
            }
        }
        let ghost q = FaceRef { x: xi, y: yi, z: zi, face: face as int };
        if visible {
            self.emit_quad(vertices, indices, x, y, z, face);
            proof {
                lemma_quads_vertices_push(cv, cur@, q);
                assert(cur@ + maybe_quad(cv, xi, yi, zi, face as int) =~= cur@.push(q));
            }
            Ghost(cur@.push(q))
        } else {
            proof {
                assert(cur@ + maybe_quad(cv, xi, yi, zi, face as int) =~= cur@);
            }
            Ghost(cur@)
        }
    }

    /// Builds the chunk's triangle mesh by face culling. The function is
    /// pure: it reads the voxels and leaves the chunk - dirty flag
    /// included - untouched; clearing the flag is the owner's job. An
    /// all-air chunk yields empty buffers. Indices are 32 bits wide, which
    /// rules out overflow of the running vertex base for any contents of a
    /// 16-voxel chunk.
    #[verifier::rlimit(50)]
    #[verifier::spinoff_prover]
    pub fn generate_mesh(&self) -> (mesh: (Vec<Vertex>, Vec<u32>))
        requires
            self@.wf(),
        ensures
            mesh.0@ == mesh_vertices(self@),
            mesh.1@ == mesh_indices(self@),
    {
        let mut vertices: Vec<Vertex> = Vec::new();
        let mut indices: Vec<u32> = Vec::new();
        let mut n: usize = 0;
        #[verifier::spinoff_prover]
        while n < CHUNK_VOLUME
            invariant
                self@.wf(),
                n <= 4096,
                vertices@ == quads_vertices(self@, quads_upto(self@, n as int)),
                indices@ == index_pattern(quads_upto(self@, n as int).len() as int),
            decreases 4096 - n,
        {
            let ghost cv = self@;
            let ghost qs0 = quads_upto(cv, n as int);
            proof {
                lemma_quads_upto_len(cv, n as int);
            }
            let x = n / 256;
            let y = (n / 16) % 16;
            let z = n % 16;
            let ghost xi = x as int;
            let ghost yi = y as int;
            let ghost zi = z as int;
            assert(valid_local(xi, yi, zi));

            if self.voxel_at(x, y, z).is_solid() {
                let mut cur: Ghost<Seq<FaceRef>> = Ghost(qs0);
                cur = self.process_face(&mut vertices, &mut indices, x, y, z, 0, cur);
                cur = self.process_face(&mut vertices, &mut indices, x, y, z, 1, cur);
                cur = self.process_face(&mut vertices, &mut indices, x, y, z, 2, cur);
                cur = self.process_face(&mut vertices, &mut indices, x, y, z, 3, cur);
                cur = self.process_face(&mut vertices, &mut indices, x, y, z, 4, cur);
                cur = self.process_face(&mut vertices, &mut indices, x, y, z, 5, cur);
                proof {
                    lemma_quads_step_assembled(cv, n as int, cur@);
                }
            } else {
                proof {
                    lemma_quads_step_empty(cv, n as int);
                }
            }
            n = n + 1;
        }
        (vertices, indices)
    }
}

/// The corner-offset table as executable data: corner `k` of face `face`.
fn corner(face: usize, k: usize) -> (off: (i8, i8, i8))
    requires
        face < 6,
        k < 4,
    ensures
        (off.0 as int, off.1 as int, off.2 as int) == corner_offset(face as int, k as int),
{
    match face {
        0 => match k {
            0 => (1, -1, 1),
            1 => (1, 1, 1),
            2 => (1, 1, -1),
            _ => (1, -1, -1),
        },
        1 => match k {
            0 => (-1, -1, -1),
            1 => (-1, 1, -1),
            2 => (-1, 1, 1),
            _ => (-1, -1, 1),
        },
        2 => match k {
            0 => (-1, 1, 1),
            1 => (1, 1, 1),
            2 => (1, 1, -1),
            _ => (-1, 1, -1),
        },
        3 => match k {
            0 => (-1, -1, -1),
            1 => (1, -1, -1),
            2 => (1, -1, 1),
            _ => (-1, -1, 1),
        },
        4 => match k {
            0 => (-1, -1, 1),
            1 => (-1, 1, 1),
            2 => (1, 1, 1),
            _ => (1, -1, 1),
        },
        _ => match k {
            0 => (1, -1, -1),
            1 => (1, 1, -1),
            2 => (-1, 1, -1),
            _ => (-1, -1, -1),
        },
    }
}

} // verus!
