//! The chunk store: owns the mapping from chunk-grid coordinate to chunk,
//! decides which coordinates must be resident around an observer, evicts
//! chunks that fell out of range, installs freshly generated chunks for
//! newly required coordinates, and re-meshes exactly the chunks whose
//! dirty flag is set.

use vstd::prelude::*;

mod proofs;

use proofs::{lemma_evict_drop_step, lemma_evict_keep_step, lemma_install_step, lemma_reconcile_realizes, lemma_remesh_realizes};

use crate::chunk::{Chunk, ChunkView};
use crate::mesh::{mesh_indices, mesh_vertices, Vertex};

verus! {

/// A built mesh kept for one chunk: vertex and index buffers ready for a
/// renderer. Only non-empty meshes are kept.
pub struct Mesh {
    pub vertices: Vec<Vertex>,
    pub indices: Vec<u32>,
}

/// Model of a kept mesh.
#[verifier::ext_equal]
pub ghost struct MeshView {
    pub vertices: Seq<Vertex>,
    pub indices: Seq<u32>,
}

impl View for Mesh {
    type V = MeshView;

    closed spec fn view(&self) -> MeshView {
        MeshView { vertices: self.vertices@, indices: self.indices@ }
    }
}

/// One resident chunk together with its kept mesh, if any.
pub(crate) struct StoreEntry {
    pub(crate) chunk: Chunk,
    pub(crate) mesh: Option<Mesh>,
}

/// Model of the store: the chunk mapping, the mesh mapping — holding
/// exactly the positions with a kept non-empty mesh — and the streaming
/// configuration. A position never appears in `meshes` without appearing
/// in `chunks`.
#[verifier::ext_equal]
pub ghost struct StoreView {
    pub chunks: Map<(i32, i32, i32), ChunkView>,
    pub meshes: Map<(i32, i32, i32), MeshView>,
    pub horizontal_radius: i32,
    pub vertical_span: i32,
}

impl StoreView {
    /// A store model is well formed when every mesh entry belongs to a
    /// resident chunk and every chunk is well formed and keyed by its own
    /// grid position.
    pub open spec fn wf(self) -> bool {
        &&& forall|g: (i32, i32, i32)|
            #[trigger] self.meshes.dom().contains(g) ==> self.chunks.dom().contains(g)
        &&& forall|g: (i32, i32, i32)|
            #[trigger] self.chunks.dom().contains(g) ==> self.chunks[g].wf()
                && self.chunks[g].grid_position == g
    }
}

pub(crate) open spec fn entry_pos(e: StoreEntry) -> (i32, i32, i32) {
    e.chunk@.grid_position
}

pub(crate) open spec fn has_pos(s: Seq<StoreEntry>, g: (i32, i32, i32)) -> bool {
    exists|i: int| 0 <= i < s.len() && #[trigger] entry_pos(s[i]) == g
}

pub(crate) open spec fn index_of(s: Seq<StoreEntry>, g: (i32, i32, i32)) -> int {
    choose|i: int| 0 <= i < s.len() && entry_pos(s[i]) == g
}

/// Every entry of `s` is one of the first `c` entries of `orig`, found
/// again at its own position.
pub(crate) open spec fn from_orig(orig: Seq<StoreEntry>, s: Seq<StoreEntry>, c: int) -> bool {
    forall|k: int|
        0 <= k < s.len() ==> {
            let g = entry_pos(#[trigger] s[k]);
            &&& has_pos(orig, g)
            &&& index_of(orig, g) < c
            &&& orig[index_of(orig, g)] == s[k]
        }
}

/// Entries from `base` on carry no mesh and hold chunks drawn from
/// `supplied[lo..]`.
pub(crate) open spec fn fresh_suffix(supplied: Seq<Chunk>, s: Seq<StoreEntry>, base: int, lo: int) -> bool {
    forall|k: int|
        base <= k < s.len() ==> (#[trigger] s[k]).mesh is None && exists|j: int|
            lo <= j < supplied.len() && s[k].chunk == supplied[j]
}

/// Every chunk of `supplied[lo..]` sits in an entry from `base` on.
pub(crate) open spec fn covers(supplied: Seq<Chunk>, s: Seq<StoreEntry>, base: int, lo: int) -> bool {
    forall|j: int|
        lo <= j < supplied.len() ==> exists|k: int|
            base <= k < s.len() && (#[trigger] supplied[j]) == s[k].chunk
}

pub(crate) open spec fn unique_positions(s: Seq<StoreEntry>) -> bool {
    forall|i: int, j: int|
        0 <= i < j < s.len() ==> #[trigger] entry_pos(s[i]) != #[trigger] entry_pos(s[j])
}

pub(crate) open spec fn entries_wf(s: Seq<StoreEntry>) -> bool {
    &&& unique_positions(s)
    &&& forall|i: int| 0 <= i < s.len() ==> (#[trigger] s[i]).chunk@.wf()
}

/// The view of an optional kept mesh; an absent mesh reads as empty.
pub(crate) open spec fn option_mesh_view(m: Option<Mesh>) -> MeshView {
    match m {
        Option::Some(mesh) => mesh@,
        Option::None => MeshView { vertices: Seq::empty(), indices: Seq::empty() },
    }
}

/// An entry found by position reads back as itself.
#[verifier::spinoff_prover]
proof fn lemma_lookup(s: Seq<StoreEntry>, i: int)
    requires
        unique_positions(s),
        0 <= i < s.len(),
    ensures
        has_pos(s, entry_pos(s[i])),
        index_of(s, entry_pos(s[i])) == i,
{
    let g = entry_pos(s[i]);
    assert(has_pos(s, g));
    let j = index_of(s, g);
    assert(0 <= j < s.len() && entry_pos(s[j]) == g);
    if i < j {
        assert(entry_pos(s[i]) != entry_pos(s[j]));
    } else if j < i {
        assert(entry_pos(s[j]) != entry_pos(s[i]));
    }
}

/// Membership in a sequence after a push.
#[verifier::spinoff_prover]
proof fn lemma_contains_push<T>(s: Seq<T>, v: T, x: T)
    ensures
        s.push(v).contains(x) <==> (s.contains(x) || x == v),
{
    if s.contains(x) {
        let i = choose|i: int| 0 <= i < s.len() && s[i] == x;
        assert(s.push(v)[i] == x);
    }
    assert(s.push(v)[s.len() as int] == v);
    if s.push(v).contains(x) {
        let i = choose|i: int| 0 <= i < s.push(v).len() && s.push(v)[i] == x;
        if i < s.len() {
            assert(s[i] == x);
        }
    }
}

/// The chunk-grid coordinates that must be resident for an observer whose
/// chunk-grid column is `(center_x, center_z)`: a square of Chebyshev
/// radius `radius` around the column, over the fixed vertical band
/// `[0, span]` — the band deliberately does not follow the observer's own
/// height.
pub open spec fn in_required_region(
    g: (i32, i32, i32),
    center_x: int,
    center_z: int,
    radius: int,
    span: int,
) -> bool {
    &&& center_x - radius <= g.0 <= center_x + radius
    &&& 0 <= g.1 <= span
    &&& center_z - radius <= g.2 <= center_z + radius
}

/// The chunk store. Chunks are owned exclusively by the store; the entry
/// list is kept free of duplicate positions, so it is a map in vector
/// clothing.
pub struct ChunkStore {
    pub(crate) entries: Vec<StoreEntry>,
    pub(crate) horizontal_radius: i32,
    pub(crate) vertical_span: i32,
}

impl View for ChunkStore {
    type V = StoreView;

    closed spec fn view(&self) -> StoreView {
        StoreView {
            chunks: Map::new(
                |g: (i32, i32, i32)| has_pos(self.entries@, g),
                |g: (i32, i32, i32)| self.entries@[index_of(self.entries@, g)].chunk@,
            ),
            meshes: Map::new(
                |g: (i32, i32, i32)|
                    has_pos(self.entries@, g) && self.entries@[index_of(
                        self.entries@,
                        g,
                    )].mesh is Some,
                |g: (i32, i32, i32)|
                    option_mesh_view(self.entries@[index_of(self.entries@, g)].mesh),
            ),
            horizontal_radius: self.horizontal_radius,
            vertical_span: self.vertical_span,
        }
    }
}

impl ChunkStore {
    /// Internal shape: positions are unique, every resident chunk is well
    /// formed, and the configuration lies in bounds that keep the grid
    /// arithmetic inside `i32`.
    pub closed spec fn wf(&self) -> bool {
        &&& entries_wf(self.entries@)
        &&& 0 <= self.horizontal_radius <= 1000000
        &&& 0 <= self.vertical_span <= 1000000
    }

    /// Creates an empty store with the given streaming configuration:
    /// chunks are kept in a square of Chebyshev radius `horizontal_radius`
    /// around the observer's column, over the vertical band
    /// `[0, vertical_span]`.
    #[verifier::spinoff_prover]
    pub fn new(horizontal_radius: i32, vertical_span: i32) -> (store: ChunkStore)
        requires
            0 <= horizontal_radius <= 1000000,
            0 <= vertical_span <= 1000000,
        ensures
            store.wf(),
            forall|g: (i32, i32, i32)| !store@.chunks.dom().contains(g),
            forall|g: (i32, i32, i32)| !store@.meshes.dom().contains(g),
            store@.horizontal_radius == horizontal_radius,
            store@.vertical_span == vertical_span,
    {
        ChunkStore { entries: Vec::new(), horizontal_radius, vertical_span }
    }

    /// The configured horizontal streaming radius.
    #[verifier::spinoff_prover]
    pub fn horizontal_radius(&self) -> (radius: i32)
        ensures
            radius == self@.horizontal_radius,
    {
        self.horizontal_radius
    }

    /// The configured vertical streaming span.
    #[verifier::spinoff_prover]
    pub fn vertical_span(&self) -> (span: i32)
        ensures
            span == self@.vertical_span,
    {
        self.vertical_span
    }

    /// Whether a chunk is resident at `g`.
    #[verifier::spinoff_prover]
    pub fn has_chunk(&self, g: (i32, i32, i32)) -> (present: bool)
        ensures
            present == self@.chunks.dom().contains(g),
    {
        let ghost s = self.entries@;
        let n = self.entries.len();
        let mut i: usize = 0;
        #[verifier::spinoff_prover]
        while i < n
            invariant
                n == s.len(),
                s == self.entries@,
                i <= n,
                forall|k: int| 0 <= k < i ==> #[trigger] entry_pos(s[k]) != g,
            decreases n - i,
        {
            let p = self.entries[i].chunk.grid_position();
            if p.0 == g.0 && p.1 == g.1 && p.2 == g.2 {
                proof {
                    assert(entry_pos(s[i as int]) == g);
                }
                return true;
            }
            i = i + 1;
        }
        proof {
            assert(!has_pos(s, g));
        }
        false
    }

    /// The resident chunk at `g`, if any.
    #[verifier::spinoff_prover]
    pub fn chunk(&self, g: (i32, i32, i32)) -> (chunk: Option<&Chunk>)
        requires
            self.wf(),
        ensures
            match chunk {
                Option::Some(c) => self@.chunks.dom().contains(g) && c@ == self@.chunks[g],
                Option::None => !self@.chunks.dom().contains(g),
            },
    {
        let ghost s = self.entries@;
        let n = self.entries.len();
        let mut i: usize = 0;
        #[verifier::spinoff_prover]
        while i < n
            invariant
                self.wf(),
                n == s.len(),
                s == self.entries@,
                i <= n,
                forall|k: int| 0 <= k < i ==> #[trigger] entry_pos(s[k]) != g,
            decreases n - i,
        {
            let p = self.entries[i].chunk.grid_position();
            if p.0 == g.0 && p.1 == g.1 && p.2 == g.2 {
                proof {
                    assert(entry_pos(s[i as int]) == g);
                    lemma_lookup(s, i as int);
                }
                return Some(&self.entries[i].chunk);
            }
            i = i + 1;
        }
        proof {
            assert(!has_pos(s, g));
        }
        None
    }

    /// The kept mesh at `g`, if any. A resident chunk has a mesh entry
    /// only once `remesh_dirty` has built one, and only when that mesh is
    /// non-empty.
    #[verifier::spinoff_prover]
    pub fn mesh(&self, g: (i32, i32, i32)) -> (mesh: Option<&Mesh>)
        requires
            self.wf(),
        ensures
            match mesh {
                Option::Some(m) => self@.meshes.dom().contains(g) && m@ == self@.meshes[g],
                Option::None => !self@.meshes.dom().contains(g),
            },
    {
        let ghost s = self.entries@;
        let n = self.entries.len();
        let mut i: usize = 0;
        #[verifier::spinoff_prover]
        while i < n
            invariant
                self.wf(),
                n == s.len(),
                s == self.entries@,
                i <= n,
                forall|k: int| 0 <= k < i ==> #[trigger] entry_pos(s[k]) != g,
            decreases n - i,
        {
            let p = self.entries[i].chunk.grid_position();
            if p.0 == g.0 && p.1 == g.1 && p.2 == g.2 {
                proof {
                    assert(entry_pos(s[i as int]) == g);
                    lemma_lookup(s, i as int);
                }
                return match &self.entries[i].mesh {
                    Option::Some(m) => Option::Some(m),
                    Option::None => Option::None,
                };
            }
            i = i + 1;
        }
        proof {
            assert(!has_pos(s, g));
        }
        None
    }

    /// All resident positions, each exactly once.
    #[verifier::spinoff_prover]
    pub fn positions(&self) -> (positions: Vec<(i32, i32, i32)>)
        requires
            self.wf(),
        ensures
            forall|g: (i32, i32, i32)|
                positions@.contains(g) == self@.chunks.dom().contains(g),
            forall|i: int, j: int|
                0 <= i < j < positions@.len() ==> positions@[i] != positions@[j],
    {
        let ghost s = self.entries@;
        let n = self.entries.len();
        let mut positions: Vec<(i32, i32, i32)> = Vec::new();
        let mut i: usize = 0;
        #[verifier::spinoff_prover]
        while i < n
            invariant
                n == s.len(),
                s == self.entries@,
                self.wf(),
                i <= n,
                positions@.len() == i,
                forall|k: int| 0 <= k < i ==> positions@[k] == entry_pos(s[k]),
            decreases n - i,
        {
            positions.push(self.entries[i].chunk.grid_position());
            i = i + 1;
        }
        proof {
            assert forall|g: (i32, i32, i32)|
                positions@.contains(g) == self@.chunks.dom().contains(g) by {
                if positions@.contains(g) {
                    let k = choose|k: int| 0 <= k < positions@.len() && positions@[k] == g;
                    assert(entry_pos(s[k]) == g);
                    assert(has_pos(s, g));
                }
                if has_pos(s, g) {
                    let k = choose|k: int| 0 <= k < s.len() && entry_pos(s[k]) == g;
                    assert(positions@[k] == g);
                    assert(positions@.contains(g));
                }
            }
        }
        positions
    }

    /// Enumerates the coordinates required for an observer standing in
    /// chunk-grid column `(center_x, center_z)`: every position of the
    /// configured region, each exactly once. The bounds on the centre keep
    /// the enumerated coordinates inside `i32`.
    #[verifier::spinoff_prover]
    pub fn required_set(&self, center_x: i64, center_z: i64) -> (required: Vec<(i32, i32, i32)>)
        requires
            self.wf(),
            -2000000000 <= center_x <= 2000000000,
            -2000000000 <= center_z <= 2000000000,
        ensures
            forall|g: (i32, i32, i32)|
                #[trigger] required@.contains(g) == in_required_region(
                    g,
                    center_x as int,
                    center_z as int,
                    self@.horizontal_radius as int,
                    self@.vertical_span as int,
                ),
            forall|i: int, j: int|
                0 <= i < j < required@.len() ==> required@[i] != required@[j],
    {
        let radius = self.horizontal_radius;
        let span = self.vertical_span;
        let ghost cx = center_x as int;
        let ghost cz = center_z as int;
        let ghost rr = radius as int;
        let ghost ss = span as int;
        let x_lo: i64 = center_x - radius as i64;
        let x_hi: i64 = center_x + radius as i64;
        let z_lo: i64 = center_z - radius as i64;
        let z_hi: i64 = center_z + radius as i64;
        let mut required: Vec<(i32, i32, i32)> = Vec::new();
        let mut y: i32 = 0;
        #[verifier::spinoff_prover]
        while y <= span
            invariant
                self.wf(),
                radius == self.horizontal_radius,
                span == self.vertical_span,
                rr == radius as int && ss == span as int,
                x_lo == cx - rr && x_hi == cx + rr && z_lo == cz - rr && z_hi == cz + rr,
                -2000000000 <= cx <= 2000000000,
                -2000000000 <= cz <= 2000000000,
                0 <= y <= ss + 1,
                forall|g: (i32, i32, i32)|
                    #[trigger] required@.contains(g) == (cx - rr <= g.0 <= cx + rr && 0 <= g.1 < y
                        && cz - rr <= g.2 <= cz + rr),
                forall|k: int| 0 <= k < required@.len() ==> (#[trigger] required@[k]).1 < y,
                forall|i: int, j: int|
                    0 <= i < j < required@.len() ==> required@[i] != required@[j],
            decreases ss + 1 - y,
        {
            let mut gx: i64 = x_lo;
            #[verifier::spinoff_prover]
            while gx <= x_hi
                invariant
                    self.wf(),
                    radius == self.horizontal_radius,
                    span == self.vertical_span,
                    rr == radius as int && ss == span as int,
                    x_lo == cx - rr && x_hi == cx + rr && z_lo == cz - rr && z_hi == cz + rr,
                    -2000000000 <= cx <= 2000000000,
                    -2000000000 <= cz <= 2000000000,
                    0 <= y <= ss,
                    x_lo <= gx <= x_hi + 1,
                    forall|g: (i32, i32, i32)|
                        #[trigger] required@.contains(g) == ((cx - rr <= g.0 <= cx + rr && 0 <= g.1
                            < y && cz - rr <= g.2 <= cz + rr) || (g.1 == y && cx - rr <= g.0 < gx
                            && cz - rr <= g.2 <= cz + rr)),
                    forall|k: int|
                        0 <= k < required@.len() ==> (#[trigger] required@[k]).1 < y || (
                        required@[k].1 == y && required@[k].0 < gx),
                    forall|i: int, j: int|
                        0 <= i < j < required@.len() ==> required@[i] != required@[j],
                decreases x_hi + 1 - gx,
            {
                let mut gz: i64 = z_lo;
                #[verifier::spinoff_prover]
                while gz <= z_hi
                    invariant
                        self.wf(),
                        radius == self.horizontal_radius,
                        span == self.vertical_span,
                        rr == radius as int && ss == span as int,
                        x_lo == cx - rr && x_hi == cx + rr && z_lo == cz - rr && z_hi == cz + rr,
                        -2000000000 <= cx <= 2000000000,
                        -2000000000 <= cz <= 2000000000,
                        0 <= y <= ss,
                        x_lo <= gx <= x_hi,
                        z_lo <= gz <= z_hi + 1,
                        forall|g: (i32, i32, i32)|
                            #[trigger] required@.contains(g) == ((cx - rr <= g.0 <= cx + rr && 0
                                <= g.1 < y && cz - rr <= g.2 <= cz + rr) || (g.1 == y && cx - rr
                                <= g.0 < gx && cz - rr <= g.2 <= cz + rr) || (g.1 == y && g.0 == gx
                                && cz - rr <= g.2 < gz)),
                        forall|k: int|
                            0 <= k < required@.len() ==> (#[trigger] required@[k]).1 < y || (
                            required@[k].1 == y && required@[k].0 < gx) || (required@[k].1 == y
                                && required@[k].0 == gx && required@[k].2 < gz),
                        forall|i: int, j: int|
                            0 <= i < j < required@.len() ==> required@[i] != required@[j],
                    decreases z_hi + 1 - gz,
                {
                    let t: (i32, i32, i32) = (gx as i32, y, gz as i32);
                    proof {
                        lemma_contains_push(required@, t, t);
                    }
                    let ghost before = required@;
                    required.push(t);
                    proof {
                        assert forall|g: (i32, i32, i32)|
                            #[trigger] required@.contains(g) == (before.contains(g) || g
                                == t) by {
                            lemma_contains_push(before, t, g);
                        }
                    }
                    gz = gz + 1;
                }
                gx = gx + 1;
            }
            y = y + 1;
        }
        required
    }

    /// The required coordinates that have no resident chunk yet — the
    /// ones a caller must generate and hand to `reconcile`.
    #[verifier::spinoff_prover]
    pub fn missing_chunks(&self, required: &Vec<(i32, i32, i32)>) -> (missing: Vec<
        (i32, i32, i32),
    >)
        requires
            self.wf(),
            forall|i: int, j: int|
                0 <= i < j < required@.len() ==> required@[i] != required@[j],
        ensures
            forall|g: (i32, i32, i32)|
                #[trigger] missing@.contains(g) == (required@.contains(g)
                    && !self@.chunks.dom().contains(g)),
            forall|i: int, j: int|
                0 <= i < j < missing@.len() ==> missing@[i] != missing@[j],
    {
        let n = required.len();
        let mut missing: Vec<(i32, i32, i32)> = Vec::new();
        let mut i: usize = 0;
        #[verifier::spinoff_prover]
        while i < n
            invariant
                self.wf(),
                n == required@.len(),
                i <= n,
                forall|i2: int, j2: int|
                    0 <= i2 < j2 < required@.len() ==> required@[i2] != required@[j2],
                forall|g: (i32, i32, i32)|
                    #[trigger] missing@.contains(g) == (required@.take(i as int).contains(g)
                        && !self@.chunks.dom().contains(g)),
                forall|k: int|
                    0 <= k < missing@.len() ==> exists|j: int|
                        0 <= j < i && #[trigger] missing@[k] == required@[j],
                forall|i2: int, j2: int|
                    0 <= i2 < j2 < missing@.len() ==> missing@[i2] != missing@[j2],
            decreases n - i,
        {
            let g = required[i];
            let ghost before = missing@;
            if !self.has_chunk(g) {
                missing.push(g);
                proof {
                    assert(missing@[before.len() as int] == required@[i as int]);
                    assert forall|h: (i32, i32, i32)|
                        #[trigger] missing@.contains(h) == (before.contains(h) || h == g) by {
                        lemma_contains_push(before, g, h);
                    }
                    assert forall|i2: int, j2: int|
                        0 <= i2 < j2 < missing@.len() implies missing@[i2] != missing@[j2] by {
                        if j2 == before.len() {
                            let jj = choose|jj: int|
                                0 <= jj < i && missing@[i2] == required@[jj];
                            assert(required@[jj] != required@[i as int]);
                        }
                    }
                }
            }
            proof {
                assert(required@.take(i as int + 1) =~= required@.take(i as int).push(
                    required@[i as int],
                ));
                assert forall|h: (i32, i32, i32)|
                    #[trigger] required@.take(i as int + 1).contains(h) == (required@.take(
                        i as int,
                    ).contains(h) || h == required@[i as int]) by {
                    lemma_contains_push(required@.take(i as int), required@[i as int], h);
                }
            }
            i = i + 1;
        }
        proof {
            assert(required@.take(n as int) =~= required@);
        }
        missing
    }
}

/// The supplied freshly generated chunks, keyed by their grid positions.
pub open spec fn chunk_seq_map(s: Seq<Chunk>) -> Map<(i32, i32, i32), ChunkView> {
    Map::new(
        |g: (i32, i32, i32)|
            exists|i: int| 0 <= i < s.len() && (#[trigger] s[i])@.grid_position == g,
        |g: (i32, i32, i32)| s[choose|i: int| 0 <= i < s.len() && s[i]@.grid_position == g]@,
    )
}

/// Model of `reconcile`: afterwards the store holds exactly the required
/// coordinates. A coordinate that was already resident keeps its chunk
/// and its mesh entry untouched; a newly required coordinate holds the
/// supplied fresh chunk and no mesh entry; everything else is evicted,
/// mesh entry included.
pub open spec fn reconcile_model(
    sv: StoreView,
    req: Set<(i32, i32, i32)>,
    fresh: Map<(i32, i32, i32), ChunkView>,
) -> StoreView {
    StoreView {
        chunks: Map::new(
            |g: (i32, i32, i32)| req.contains(g),
            |g: (i32, i32, i32)|
                if sv.chunks.dom().contains(g) {
                    sv.chunks[g]
                } else {
                    fresh[g]
                },
        ),
        meshes: Map::new(
            |g: (i32, i32, i32)| req.contains(g) && sv.meshes.dom().contains(g),
            |g: (i32, i32, i32)| sv.meshes[g],
        ),
        ..sv
    }
}

/// A chunk after remeshing: contents untouched, dirty flag cleared.
pub open spec fn remeshed_chunk(cv: ChunkView) -> ChunkView {
    ChunkView { dirty: false, ..cv }
}

/// The mesh built for a chunk's current contents.
pub open spec fn built_mesh(cv: ChunkView) -> MeshView {
    MeshView { vertices: mesh_vertices(cv), indices: mesh_indices(cv) }
}

/// Model of `remesh_dirty`: every resident chunk is clean afterwards. A
/// chunk that was dirty gets a mesh entry exactly when its freshly built
/// mesh is non-empty; a clean chunk keeps whatever entry it had.
pub open spec fn remesh_model(sv: StoreView) -> StoreView {
    StoreView {
        chunks: Map::new(
            |g: (i32, i32, i32)| sv.chunks.dom().contains(g),
            |g: (i32, i32, i32)| remeshed_chunk(sv.chunks[g]),
        ),
        meshes: Map::new(
            |g: (i32, i32, i32)|
                sv.chunks.dom().contains(g) && (if sv.chunks[g].dirty {
                    mesh_vertices(sv.chunks[g]).len() > 0
                } else {
                    sv.meshes.dom().contains(g)
                }),
            |g: (i32, i32, i32)|
                if sv.chunks[g].dirty {
                    built_mesh(sv.chunks[g])
                } else {
                    sv.meshes[g]
                },
        ),
        ..sv
    }
}

/// How one entry changes under `remesh_dirty`.
pub(crate) open spec fn remeshed_entry_ok(before: StoreEntry, after: StoreEntry) -> bool {
    &&& after.chunk@ == remeshed_chunk(before.chunk@)
    &&& if before.chunk@.dirty {
        if mesh_vertices(before.chunk@).len() > 0 {
            after.mesh is Some && option_mesh_view(after.mesh) == built_mesh(before.chunk@)
        } else {
            after.mesh is None
        }
    } else {
        after.mesh == before.mesh
    }
}

/// A chunk found by position in a duplicate-free chunk list reads back as
/// itself.
#[verifier::spinoff_prover]
proof fn lemma_chunk_lookup(s: Seq<Chunk>, i: int)
    requires
        forall|i2: int, j2: int|
            0 <= i2 < j2 < s.len() ==> (#[trigger] s[i2])@.grid_position != (#[trigger] s[j2])@.grid_position,
        0 <= i < s.len(),
    ensures
        chunk_seq_map(s).dom().contains(s[i]@.grid_position),
        chunk_seq_map(s)[s[i]@.grid_position] == s[i]@,
{
    let g = s[i]@.grid_position;
    assert(chunk_seq_map(s).dom().contains(g));
    let j = choose|j: int| 0 <= j < s.len() && s[j]@.grid_position == g;
    if i < j {
        assert(s[i]@.grid_position != s[j]@.grid_position);
    } else if j < i {
        assert(s[j]@.grid_position != s[i]@.grid_position);
    }
}

/// Whether `list` holds the coordinate `g`.
#[verifier::spinoff_prover]
fn contains_pos(list: &Vec<(i32, i32, i32)>, g: (i32, i32, i32)) -> (present: bool)
    ensures
        present == list@.contains(g),
{
    let n = list.len();
    let mut i: usize = 0;
    #[verifier::spinoff_prover]
    while i < n
        invariant
            n == list@.len(),
            i <= n,
            forall|k: int| 0 <= k < i ==> list@[k] != g,
        decreases n - i,
    {
        let p = list[i];
        if p.0 == g.0 && p.1 == g.1 && p.2 == g.2 {
            assert(list@[i as int] == g);
            return true;
        }
        i = i + 1;
    }
    false
}

impl ChunkStore {
    /// Reconciles the store against a required coordinate list, all in one
    /// tick: first every chunk whose coordinate is not required is evicted
    /// — unconditionally and immediately, together with its mesh entry —
    /// then the supplied freshly generated chunks are installed, one for
    /// each required coordinate that had no resident chunk. Chunks that
    /// stay resident are left untouched, voxel contents, dirty flag and
    /// kept mesh included. The caller generates `new_chunks` for exactly
    /// the coordinates that `missing_chunks` reports, in any order.
    #[verifier::rlimit(100)]
    #[verifier::spinoff_prover]
    pub fn reconcile(&mut self, required: &Vec<(i32, i32, i32)>, new_chunks: Vec<Chunk>)
        requires
            old(self).wf(),
            forall|i: int| 0 <= i < new_chunks@.len() ==> (#[trigger] new_chunks@[i])@.wf(),
            forall|i: int| 0 <= i < new_chunks@.len() ==> (#[trigger] new_chunks@[i])@.dirty,
            forall|i: int, j: int|
                0 <= i < j < new_chunks@.len() ==> (#[trigger] new_chunks@[i])@.grid_position != (
                #[trigger] new_chunks@[j])@.grid_position,
            forall|i: int|
                0 <= i < new_chunks@.len() ==> required@.contains(
                    (#[trigger] new_chunks@[i])@.grid_position,
                ) && !old(self)@.chunks.dom().contains(new_chunks@[i]@.grid_position),
            forall|g: (i32, i32, i32)|
                #[trigger] required@.contains(g) && !old(self)@.chunks.dom().contains(g)
                    ==> chunk_seq_map(new_chunks@).dom().contains(g),
        ensures
            final(self).wf(),
            final(self)@ == reconcile_model(
                old(self)@,
                required@.to_set(),
                chunk_seq_map(new_chunks@),
            ),
    {
        let ghost orig = self.entries@;

        // eviction: keep exactly the entries whose coordinate is required
        let mut kept: Vec<StoreEntry> = Vec::new();
        let ghost mut c: int = 0;
        #[verifier::spinoff_prover]
        while self.entries.len() > 0
            invariant
                orig == old(self).entries@,
                entries_wf(orig),
                self.horizontal_radius == old(self).horizontal_radius,
                self.vertical_span == old(self).vertical_span,
                0 <= c <= orig.len(),
                self.entries@ == orig.skip(c),
                from_orig(orig, kept@, c),
                forall|k: int|
                    0 <= k < kept@.len() ==> required@.contains(entry_pos(#[trigger] kept@[k])),
                forall|j: int|
                    0 <= j < c && required@.contains(entry_pos(#[trigger] orig[j])) ==> has_pos(
                        kept@,
                        entry_pos(orig[j]),
                    ),
                unique_positions(kept@),
            decreases self.entries.len(),
        {
            proof {
                assert(self.entries@[0] == orig.skip(c)[0]);
            }
            let entry = self.entries.remove(0);
            proof {
                assert(entry == orig[c]);
                assert(orig.skip(c).remove(0) =~= orig.skip(c + 1));
            }
            let p = entry.chunk.grid_position();
            let ghost kept_before = kept@;
            if contains_pos(required, p) {
                kept.push(entry);
                proof {
                    lemma_evict_keep_step(orig, required@, kept_before, kept@, c);
                }
            } else {
                proof {
                    lemma_evict_drop_step(orig, required@, kept@, c);
                }
            }
            proof {
                c = c + 1;
            }
        }
        let ghost keptv = kept@;
        self.entries = kept;
        let ghost phase1 = self.entries@;

        // installation: append one fresh chunk per newly required coordinate
        let mut new_chunks = new_chunks;
        let ghost supplied = new_chunks@;
        proof {
            assert(c == orig.len());
            assert(phase1 == keptv);
            assert(from_orig(orig, phase1, orig.len() as int));
            assert(unique_positions(phase1));
            assert(supplied.take(supplied.len() as int) =~= supplied);
            assert forall|i: int|
                0 <= i < supplied.len() implies !has_pos(
                    orig,
                    (#[trigger] supplied[i])@.grid_position,
                ) by {
                assert(!old(self)@.chunks.dom().contains(supplied[i]@.grid_position));
            }
        }
        #[verifier::spinoff_prover]
        while new_chunks.len() > 0
            invariant
                orig == old(self).entries@,
                entries_wf(orig),
                self.horizontal_radius == old(self).horizontal_radius,
                self.vertical_span == old(self).vertical_span,
                forall|i: int, j: int|
                    0 <= i < j < supplied.len() ==> (#[trigger] supplied[i])@.grid_position != (
                    #[trigger] supplied[j])@.grid_position,
                forall|i: int|
                    0 <= i < supplied.len() ==> !has_pos(
                        orig,
                        (#[trigger] supplied[i])@.grid_position,
                    ),
                from_orig(orig, phase1, orig.len() as int),
                unique_positions(phase1),
                new_chunks@.len() <= supplied.len(),
                new_chunks@ == supplied.take(new_chunks@.len() as int),
                self.entries@.len() == phase1.len() + supplied.len() - new_chunks@.len(),
                forall|k: int| 0 <= k < phase1.len() ==> #[trigger] self.entries@[k] == phase1[k],
                fresh_suffix(supplied, self.entries@, phase1.len() as int, new_chunks@.len() as int),
                covers(supplied, self.entries@, phase1.len() as int, new_chunks@.len() as int),
                unique_positions(self.entries@),
            decreases new_chunks.len(),
        {
            let ghost entries_before = self.entries@;
            let ghost m = new_chunks@.len() - 1;
            proof {
                assert(new_chunks@[m] == supplied.take(new_chunks@.len() as int)[m]);
                assert(new_chunks@[m] == supplied[m]);
            }
            let chunk = match new_chunks.pop() {
                Option::Some(chunk) => chunk,
                Option::None => {
                    proof {
                        assert(false);
                    }
                    unreached()
                },
            };
            proof {
                assert(chunk == supplied[m]);
                assert(new_chunks@ == supplied.take(m + 1).drop_last());
                assert(new_chunks@ =~= supplied.take(m));
            }
            self.entries.push(StoreEntry { chunk, mesh: None });
            proof {
                lemma_install_step(orig, phase1, supplied, entries_before, self.entries@, m);
            }
        }

        // the two phases together realize the reconcile model
        proof {
            assert(new_chunks@.len() == 0);
            lemma_reconcile_realizes(*old(self), *self, required@, supplied, phase1);
        }
    }

    /// Re-meshes exactly the chunks whose dirty flag is set at the moment
    /// of the call, clears their flags, and replaces — or removes, when
    /// the fresh mesh is empty — their mesh entries. Clean chunks and
    /// their entries stay untouched. Returns the coordinates that were
    /// re-meshed, so a renderer knows which buffers to upload anew.
    #[verifier::loop_isolation(false)]
    #[verifier::rlimit(100)]
    #[verifier::spinoff_prover]
    pub fn remesh_dirty(&mut self) -> (remeshed: Vec<(i32, i32, i32)>)
        requires
            old(self).wf(),
        ensures
            final(self).wf(),
            final(self)@ == remesh_model(old(self)@),
            forall|g: (i32, i32, i32)|
                #[trigger] remeshed@.contains(g) == (old(self)@.chunks.dom().contains(g) && old(
                    self,
                )@.chunks[g].dirty),
    {
        let ghost orig = self.entries@;
        let mut done: Vec<StoreEntry> = Vec::new();
        let mut remeshed: Vec<(i32, i32, i32)> = Vec::new();
        let ghost mut c: int = 0;
        #[verifier::spinoff_prover]
        while self.entries.len() > 0
            invariant
                orig == old(self).entries@,
                entries_wf(orig),
                self.horizontal_radius == old(self).horizontal_radius,
                self.vertical_span == old(self).vertical_span,
                0 <= c <= orig.len(),
                self.entries@ == orig.skip(c),
                done@.len() == c,
                forall|k: int|
                    0 <= k < c ==> remeshed_entry_ok(orig[k], #[trigger] done@[k]),
                forall|g: (i32, i32, i32)|
                    #[trigger] remeshed@.contains(g) == exists|j: int|
                        0 <= j < c && entry_pos(#[trigger] orig[j]) == g && orig[j].chunk@.dirty,
            decreases self.entries.len(),
        {
            proof {
                assert(self.entries@[0] == orig.skip(c)[0]);
            }
            let mut entry = self.entries.remove(0);
            proof {
                assert(entry == orig[c]);
                assert(orig.skip(c).remove(0) =~= orig.skip(c + 1));
            }
            let ghost remeshed_before = remeshed@;
            if entry.chunk.is_dirty() {
                let built = entry.chunk.generate_mesh();
                entry.chunk.clear_dirty();
                remeshed.push(entry.chunk.grid_position());
                if built.0.len() == 0 {
                    entry.mesh = None;
                } else {
                    entry.mesh = Some(Mesh { vertices: built.0, indices: built.1 });
                }
                proof {
                    assert forall|g: (i32, i32, i32)|
                        #[trigger] remeshed@.contains(g) == exists|j: int|
                            0 <= j < c + 1 && entry_pos(#[trigger] orig[j]) == g
                                && orig[j].chunk@.dirty by {
                        lemma_contains_push(remeshed_before, entry_pos(orig[c]), g);
                        if remeshed_before.contains(g) {
                            let j = choose|j: int|
                                0 <= j < c && entry_pos(orig[j]) == g && orig[j].chunk@.dirty;
                            assert(0 <= j < c + 1 && entry_pos(orig[j]) == g
                                && orig[j].chunk@.dirty);
                        }
                    }
                }
            } else {
                proof {
                    assert forall|g: (i32, i32, i32)|
                        #[trigger] remeshed@.contains(g) == exists|j: int|
                            0 <= j < c + 1 && entry_pos(#[trigger] orig[j]) == g
                                && orig[j].chunk@.dirty by {
                        if remeshed@.contains(g) {
                            let j = choose|j: int|
                                0 <= j < c && entry_pos(orig[j]) == g && orig[j].chunk@.dirty;
                            assert(0 <= j < c + 1 && entry_pos(orig[j]) == g
                                && orig[j].chunk@.dirty);
                        }
                        if exists|j: int|
                            0 <= j < c + 1 && entry_pos(#[trigger] orig[j]) == g
                                && orig[j].chunk@.dirty {
                            let j = choose|j: int|
                                0 <= j < c + 1 && entry_pos(orig[j]) == g && orig[j].chunk@.dirty;
                            assert(j < c);
                        }
                    }
                }
            }
            done.push(entry);
            proof {
                c = c + 1;
            }
        }
        self.entries = done;

        proof {
            lemma_remesh_realizes(*old(self), *self);
            let sv = old(self)@;
            assert forall|g: (i32, i32, i32)|
                #[trigger] remeshed@.contains(g) == (sv.chunks.dom().contains(g)
                    && sv.chunks[g].dirty) by {
                if remeshed@.contains(g) {
                    let j = choose|j: int|
                        0 <= j < orig.len() && entry_pos(orig[j]) == g && orig[j].chunk@.dirty;
                    lemma_lookup(orig, j);
                }
                if sv.chunks.dom().contains(g) && sv.chunks[g].dirty {
                    let j = index_of(orig, g);
                    assert(0 <= j < orig.len() && entry_pos(orig[j]) == g
                        && orig[j].chunk@.dirty);
                }
            }
        }
        remeshed
    }
}

/// Reconciling against a coordinate set disjoint from everything resident
/// evicts the whole store and leaves exactly the freshly generated chunks:
/// nothing of the old population survives.
#[verifier::spinoff_prover]
pub proof fn lemma_reconcile_disjoint_eviction(
    sv: StoreView,
    req: Set<(i32, i32, i32)>,
    fresh: Map<(i32, i32, i32), ChunkView>,
)
    requires
        sv.wf(),
        forall|g: (i32, i32, i32)| #[trigger] sv.chunks.dom().contains(g) ==> !req.contains(g),
    ensures
        forall|g: (i32, i32, i32)|
            #[trigger] reconcile_model(sv, req, fresh).chunks.dom().contains(g) == req.contains(g),
        forall|g: (i32, i32, i32)|
            #[trigger] sv.chunks.dom().contains(g) ==> !reconcile_model(
                sv,
                req,
                fresh,
            ).chunks.dom().contains(g),
        forall|g: (i32, i32, i32)|
            #[trigger] req.contains(g) ==> reconcile_model(sv, req, fresh).chunks[g] == fresh[g],
        forall|g: (i32, i32, i32)|
            !#[trigger] reconcile_model(sv, req, fresh).meshes.dom().contains(g),
{
}

/// Splits a world coordinate into its containing chunk-grid coordinate:
/// the floor of `w / CHUNK_SIZE`. The bounds on `w` leave room for the
/// internal offset that avoids signed division.
#[verifier::spinoff_prover]
pub fn world_to_grid(w: i64) -> (g: i64)
    requires
        -4611686018427387904 <= w <= 4611686018427387903,
    ensures
        g == w as int / 16,
{
    let shifted: u64 = (w + 4611686018427387904i64) as u64;
    let q: u64 = shifted / 16;
    proof {
        vstd::arithmetic::div_mod::lemma_hoist_over_denominator(
            w as int,
            288230376151711744,
            16nat,
        );
    }
    (q as i64) - 288230376151711744i64
}

} // verus!
