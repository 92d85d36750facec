//! Proofs that the store's eviction, installation and remeshing loops
//! realize their models.

use vstd::prelude::*;

use super::{
    built_mesh, chunk_seq_map, covers, entries_wf, entry_pos, fresh_suffix, from_orig, has_pos,
    index_of, lemma_chunk_lookup, lemma_lookup, option_mesh_view, reconcile_model,
    remesh_model, remeshed_entry_ok, unique_positions, ChunkStore, StoreEntry,
};
use crate::chunk::{Chunk, ChunkView};
use crate::mesh::{mesh_indices, mesh_vertices};

verus! {

/// One eviction step that keeps `orig[c]`: the kept list stays unique,
/// keeps coming from the first `c + 1` entries of `orig`, and still
/// holds every still-required one among them.
#[verifier::spinoff_prover]
pub(crate) proof fn lemma_evict_keep_step(
    orig: Seq<StoreEntry>,
    required: Seq<(i32, i32, i32)>,
    before: Seq<StoreEntry>,
    after: Seq<StoreEntry>,
    c: int,
)
    requires
        entries_wf(orig),
        0 <= c < orig.len(),
        from_orig(orig, before, c),
        forall|k: int|
            0 <= k < before.len() ==> required.contains(entry_pos(#[trigger] before[k])),
        forall|j: int|
            0 <= j < c && required.contains(entry_pos(#[trigger] orig[j])) ==> has_pos(
                before,
                entry_pos(orig[j]),
            ),
        unique_positions(before),
        required.contains(entry_pos(orig[c])),
        after == before.push(orig[c]),
    ensures
        from_orig(orig, after, c + 1),
        forall|k: int|
            0 <= k < after.len() ==> required.contains(entry_pos(#[trigger] after[k])),
        forall|j: int|
            0 <= j < c + 1 && required.contains(entry_pos(#[trigger] orig[j])) ==> has_pos(
                after,
                entry_pos(orig[j]),
            ),
        unique_positions(after),
{
    lemma_lookup(orig, c);
    assert(after[before.len() as int] == orig[c]);
    assert forall|k: int| 0 <= k < after.len() implies {
        let g = entry_pos(#[trigger] after[k]);
        &&& has_pos(orig, g)
        &&& index_of(orig, g) < c + 1
        &&& orig[index_of(orig, g)] == after[k]
    } by {
        if k < before.len() {
            assert(after[k] == before[k]);
        } else {
            assert(after[k] == orig[c]);
        }
    }
    assert forall|j: int|
        0 <= j < c + 1 && required.contains(entry_pos(#[trigger] orig[j])) implies has_pos(
        after,
        entry_pos(orig[j]),
    ) by {
        if j < c {
            if has_pos(before, entry_pos(orig[j])) {
                let k = choose|k: int|
                    0 <= k < before.len() && entry_pos(before[k]) == entry_pos(orig[j]);
                assert(entry_pos(after[k]) == entry_pos(orig[j]));
            }
        } else {
            assert(entry_pos(after[before.len() as int]) == entry_pos(orig[c]));
        }
    }
    assert forall|k1: int, k2: int|
        0 <= k1 < k2 < after.len() implies #[trigger] entry_pos(after[k1]) != (
    #[trigger] entry_pos(after[k2])) by {
        if k2 == before.len() && entry_pos(after[k1]) == entry_pos(orig[c]) {
            assert(after[k1] == before[k1]);
            assert(index_of(orig, entry_pos(after[k1])) < c);
            assert(false);
        }
    }
}

/// One eviction step that drops `orig[c]`: the kept list is untouched,
/// and the dropped entry was not required, so completeness still holds.
#[verifier::spinoff_prover]
pub(crate) proof fn lemma_evict_drop_step(
    orig: Seq<StoreEntry>,
    required: Seq<(i32, i32, i32)>,
    kept: Seq<StoreEntry>,
    c: int,
)
    requires
        0 <= c < orig.len(),
        forall|j: int|
            0 <= j < c && required.contains(entry_pos(#[trigger] orig[j])) ==> has_pos(
                kept,
                entry_pos(orig[j]),
            ),
        !required.contains(entry_pos(orig[c])),
    ensures
        forall|j: int|
            0 <= j < c + 1 && required.contains(entry_pos(#[trigger] orig[j])) ==> has_pos(
                kept,
                entry_pos(orig[j]),
            ),
{
}

/// After one push the fresh suffix still draws one-to-one from the
/// remaining supplied chunks.
#[verifier::spinoff_prover]
proof fn lemma_install_suffix(
    supplied: Seq<Chunk>,
    before: Seq<StoreEntry>,
    after: Seq<StoreEntry>,
    base: int,
    m: int,
)
    requires
        0 <= m < supplied.len(),
        0 <= base <= before.len(),
        fresh_suffix(supplied, before, base, m + 1),
        after.len() == before.len() + 1,
        forall|k: int| 0 <= k < before.len() ==> #[trigger] after[k] == before[k],
        after[before.len() as int].chunk == supplied[m],
        after[before.len() as int].mesh is None,
    ensures
        fresh_suffix(supplied, after, base, m),
{
    assert forall|k: int|
        base <= k < after.len() implies (#[trigger] after[k]).mesh is None && exists|j: int|
            m <= j < supplied.len() && after[k].chunk == supplied[j] by {
        if k < before.len() {
            assert(after[k] == before[k]);
            let j = choose|j: int|
                m + 1 <= j < supplied.len() && before[k].chunk == supplied[j];
            assert(after[k].chunk == supplied[j]);
        } else {
            assert(after[k].chunk == supplied[m]);
        }
    }
}

/// After one push every remaining supplied chunk still sits in the fresh
/// suffix.
#[verifier::spinoff_prover]
proof fn lemma_install_covers(
    supplied: Seq<Chunk>,
    before: Seq<StoreEntry>,
    after: Seq<StoreEntry>,
    base: int,
    m: int,
)
    requires
        0 <= m < supplied.len(),
        0 <= base <= before.len(),
        covers(supplied, before, base, m + 1),
        after.len() == before.len() + 1,
        forall|k: int| 0 <= k < before.len() ==> #[trigger] after[k] == before[k],
        after[before.len() as int].chunk == supplied[m],
    ensures
        covers(supplied, after, base, m),
{
    assert forall|j: int|
        m <= j < supplied.len() implies exists|k: int|
        base <= k < after.len() && (#[trigger] supplied[j]) == after[k].chunk by {
        if j >= m + 1 {
            let k = choose|k: int| base <= k < before.len() && supplied[j] == before[k].chunk;
            assert(supplied[j] == after[k].chunk);
        } else {
            assert(supplied[j] == after[before.len() as int].chunk);
        }
    }
}

/// Pushing the entry for `supplied[m]` cannot duplicate a position: the
/// kept prefix was already resident, the fresh chunks were not, and the
/// fresh chunks are pairwise distinct.
#[verifier::spinoff_prover]
proof fn lemma_install_unique(
    orig: Seq<StoreEntry>,
    supplied: Seq<Chunk>,
    before: Seq<StoreEntry>,
    after: Seq<StoreEntry>,
    base: int,
    m: int,
)
    requires
        forall|i: int, j: int|
            0 <= i < j < supplied.len() ==> (#[trigger] supplied[i])@.grid_position != (
            #[trigger] supplied[j])@.grid_position,
        forall|i: int|
            0 <= i < supplied.len() ==> !has_pos(orig, (#[trigger] supplied[i])@.grid_position),
        forall|k: int| 0 <= k < base ==> has_pos(orig, entry_pos(#[trigger] before[k])),
        0 <= base <= before.len(),
        fresh_suffix(supplied, before, base, m + 1),
        unique_positions(before),
        0 <= m < supplied.len(),
        after.len() == before.len() + 1,
        forall|k: int| 0 <= k < before.len() ==> #[trigger] after[k] == before[k],
        after[before.len() as int].chunk == supplied[m],
    ensures
        unique_positions(after),
{
    assert forall|k1: int, k2: int|
        0 <= k1 < k2 < after.len() implies #[trigger] entry_pos(after[k1]) != (
    #[trigger] entry_pos(after[k2])) by {
        if k2 == before.len() {
            assert(entry_pos(after[k2]) == supplied[m]@.grid_position);
            assert(after[k1] == before[k1]);
            if k1 < base {
                assert(has_pos(orig, entry_pos(before[k1])));
            } else {
                let j1 = choose|j1: int|
                    m + 1 <= j1 < supplied.len() && before[k1].chunk == supplied[j1];
                assert(supplied[m]@.grid_position != supplied[j1]@.grid_position);
            }
        } else {
            assert(after[k1] == before[k1] && after[k2] == before[k2]);
        }
    }
}

/// One step of the installation phase: pushing the fresh entry for
/// `supplied[m]` keeps the entry list's shape — stable kept prefix, fresh
/// suffix drawn one-to-one from the supplied chunks, no duplicate
/// positions.
#[verifier::spinoff_prover]
pub(crate) proof fn lemma_install_step(
    orig: Seq<StoreEntry>,
    phase1: Seq<StoreEntry>,
    supplied: Seq<Chunk>,
    before: Seq<StoreEntry>,
    after: Seq<StoreEntry>,
    m: int,
)
    requires
        forall|i: int, j: int|
            0 <= i < j < supplied.len() ==> (#[trigger] supplied[i])@.grid_position != (
            #[trigger] supplied[j])@.grid_position,
        forall|i: int|
            0 <= i < supplied.len() ==> !has_pos(orig, (#[trigger] supplied[i])@.grid_position),
        from_orig(orig, phase1, orig.len() as int),
        0 <= m < supplied.len(),
        before.len() == phase1.len() + supplied.len() - (m + 1),
        forall|k: int| 0 <= k < phase1.len() ==> #[trigger] before[k] == phase1[k],
        fresh_suffix(supplied, before, phase1.len() as int, m + 1),
        covers(supplied, before, phase1.len() as int, m + 1),
        unique_positions(before),
        after.len() == before.len() + 1,
        forall|k: int| 0 <= k < before.len() ==> #[trigger] after[k] == before[k],
        after[before.len() as int].chunk == supplied[m],
        after[before.len() as int].mesh is None,
    ensures
        after.len() == phase1.len() + supplied.len() - m,
        forall|k: int| 0 <= k < phase1.len() ==> #[trigger] after[k] == phase1[k],
        fresh_suffix(supplied, after, phase1.len() as int, m),
        covers(supplied, after, phase1.len() as int, m),
        unique_positions(after),
{
    assert forall|k: int|
        0 <= k < phase1.len() implies has_pos(orig, entry_pos(#[trigger] before[k])) by {
        assert(before[k] == phase1[k]);
    }
    lemma_install_suffix(supplied, before, after, phase1.len() as int, m);
    lemma_install_covers(supplied, before, after, phase1.len() as int, m);
    lemma_install_unique(orig, supplied, before, after, phase1.len() as int, m);
}

/// Every entry after the two phases holds a well-formed chunk.
#[verifier::spinoff_prover]
proof fn lemma_final_wf(
    orig: Seq<StoreEntry>,
    phase1: Seq<StoreEntry>,
    supplied: Seq<Chunk>,
    fin: Seq<StoreEntry>,
)
    requires
        forall|i: int| 0 <= i < orig.len() ==> (#[trigger] orig[i]).chunk@.wf(),
        forall|i: int| 0 <= i < supplied.len() ==> (#[trigger] supplied[i])@.wf(),
        from_orig(orig, phase1, orig.len() as int),
        fin.len() == phase1.len() + supplied.len(),
        forall|k: int| 0 <= k < phase1.len() ==> #[trigger] fin[k] == phase1[k],
        fresh_suffix(supplied, fin, phase1.len() as int, 0),
    ensures
        forall|k: int| 0 <= k < fin.len() ==> (#[trigger] fin[k]).chunk@.wf(),
{
    assert forall|k: int| 0 <= k < fin.len() implies (#[trigger] fin[k]).chunk@.wf() by {
        if k < phase1.len() {
            assert(orig[index_of(orig, entry_pos(phase1[k]))].chunk@.wf());
        } else {
            let j = choose|j: int| 0 <= j < supplied.len() && fin[k].chunk == supplied[j];
            assert(supplied[j]@.wf());
        }
    }
}

/// A position resident after the two phases is a required one.
#[verifier::spinoff_prover]
proof fn lemma_dom_forward(
    required: Seq<(i32, i32, i32)>,
    phase1: Seq<StoreEntry>,
    supplied: Seq<Chunk>,
    fin: Seq<StoreEntry>,
)
    requires
        forall|k: int|
            0 <= k < phase1.len() ==> required.contains(entry_pos(#[trigger] phase1[k])),
        forall|i: int|
            0 <= i < supplied.len() ==> required.contains((#[trigger] supplied[i])@.grid_position),
        fin.len() == phase1.len() + supplied.len(),
        forall|k: int| 0 <= k < phase1.len() ==> #[trigger] fin[k] == phase1[k],
        fresh_suffix(supplied, fin, phase1.len() as int, 0),
    ensures
        forall|g: (i32, i32, i32)| #[trigger] has_pos(fin, g) ==> required.contains(g),
{
    assert forall|g: (i32, i32, i32)| #[trigger] has_pos(fin, g) implies required.contains(g) by {
        let k = choose|k: int| 0 <= k < fin.len() && entry_pos(fin[k]) == g;
        if k < phase1.len() {
            assert(required.contains(entry_pos(phase1[k])));
        } else {
            let j = choose|j: int| 0 <= j < supplied.len() && fin[k].chunk == supplied[j];
            assert(required.contains(supplied[j]@.grid_position));
        }
    }
}

/// Every required position is resident after the two phases: kept when it
/// was resident, freshly installed when it was not.
#[verifier::spinoff_prover]
proof fn lemma_dom_backward(
    orig: Seq<StoreEntry>,
    required: Seq<(i32, i32, i32)>,
    phase1: Seq<StoreEntry>,
    supplied: Seq<Chunk>,
    fin: Seq<StoreEntry>,
)
    requires
        forall|j: int|
            0 <= j < orig.len() && required.contains(entry_pos(#[trigger] orig[j])) ==> has_pos(
                phase1,
                entry_pos(orig[j]),
            ),
        forall|g: (i32, i32, i32)|
            #[trigger] required.contains(g) && !has_pos(orig, g) ==> exists|j: int|
                0 <= j < supplied.len() && (#[trigger] supplied[j])@.grid_position == g,
        fin.len() == phase1.len() + supplied.len(),
        forall|k: int| 0 <= k < phase1.len() ==> #[trigger] fin[k] == phase1[k],
        covers(supplied, fin, phase1.len() as int, 0),
    ensures
        forall|g: (i32, i32, i32)| #[trigger] required.contains(g) ==> has_pos(fin, g),
{
    assert forall|g: (i32, i32, i32)| #[trigger] required.contains(g) implies has_pos(fin, g) by {
        if has_pos(orig, g) {
            let j = choose|j: int| 0 <= j < orig.len() && entry_pos(orig[j]) == g;
            assert(has_pos(phase1, g));
            let k = choose|k: int| 0 <= k < phase1.len() && entry_pos(phase1[k]) == g;
            assert(entry_pos(fin[k]) == g);
        } else {
            let j = choose|j: int|
                0 <= j < supplied.len() && supplied[j]@.grid_position == g;
            let k = choose|k: int| phase1.len() <= k < fin.len() && supplied[j] == fin[k].chunk;
            assert(entry_pos(fin[k]) == g);
        }
    }
}

/// After the two phases every final entry holds a well-formed chunk, and
/// the final positions are exactly the required ones.
#[verifier::spinoff_prover]
proof fn lemma_reconcile_dom(
    pre: ChunkStore,
    post: ChunkStore,
    required: Seq<(i32, i32, i32)>,
    supplied: Seq<Chunk>,
    phase1: Seq<StoreEntry>,
)
    requires
        pre.wf(),
        forall|i: int| 0 <= i < supplied.len() ==> (#[trigger] supplied[i])@.wf(),
        forall|i: int| 0 <= i < supplied.len() ==> (#[trigger] supplied[i])@.dirty,
        forall|i: int, j: int|
            0 <= i < j < supplied.len() ==> (#[trigger] supplied[i])@.grid_position != (
            #[trigger] supplied[j])@.grid_position,
        forall|i: int|
            0 <= i < supplied.len() ==> required.contains((#[trigger] supplied[i])@.grid_position)
                && !pre@.chunks.dom().contains(supplied[i]@.grid_position),
        forall|g: (i32, i32, i32)|
            #[trigger] required.contains(g) && !pre@.chunks.dom().contains(g)
                ==> chunk_seq_map(supplied).dom().contains(g),
        from_orig(pre.entries@, phase1, pre.entries@.len() as int),
        forall|k: int|
            0 <= k < phase1.len() ==> required.contains(entry_pos(#[trigger] phase1[k])),
        forall|j: int|
            0 <= j < pre.entries@.len() && required.contains(entry_pos(#[trigger] pre.entries@[j]))
                ==> has_pos(phase1, entry_pos(pre.entries@[j])),
        unique_positions(phase1),
        post.entries@.len() == phase1.len() + supplied.len(),
        forall|k: int| 0 <= k < phase1.len() ==> #[trigger] post.entries@[k] == phase1[k],
        fresh_suffix(supplied, post.entries@, phase1.len() as int, 0),
        covers(supplied, post.entries@, phase1.len() as int, 0),
        unique_positions(post.entries@),
        post.horizontal_radius == pre.horizontal_radius,
        post.vertical_span == pre.vertical_span,
    ensures
        forall|k: int| 0 <= k < post.entries@.len() ==> (#[trigger] post.entries@[k]).chunk@.wf(),
        forall|g: (i32, i32, i32)| #[trigger] has_pos(post.entries@, g) == required.contains(g),
{
    let orig = pre.entries@;
    let fin = post.entries@;
    assert forall|i: int|
        0 <= i < supplied.len() implies !has_pos(
            orig,
            (#[trigger] supplied[i])@.grid_position,
        ) by {
        assert(!pre@.chunks.dom().contains(supplied[i]@.grid_position));
    }
    assert forall|g: (i32, i32, i32)|
        #[trigger] required.contains(g) && !has_pos(orig, g) implies exists|j: int|
            0 <= j < supplied.len() && (#[trigger] supplied[j])@.grid_position == g by {
        assert(!pre@.chunks.dom().contains(g));
        assert(chunk_seq_map(supplied).dom().contains(g));
    }
    lemma_final_wf(orig, phase1, supplied, fin);
    lemma_dom_forward(required, phase1, supplied, fin);
    lemma_dom_backward(orig, required, phase1, supplied, fin);
    assert forall|g: (i32, i32, i32)|
        #[trigger] has_pos(fin, g) == required.contains(g) by {
        if has_pos(fin, g) {
            assert(required.contains(g));
        }
        if required.contains(g) {
            assert(has_pos(fin, g));
        }
    }
}

/// After the two phases a required coordinate reads back its old chunk
/// and mesh entry when it was resident, and the supplied fresh chunk with
/// no mesh entry when it was not.
#[verifier::rlimit(100)]
#[verifier::spinoff_prover]
proof fn lemma_reconcile_value_at(
    pre: ChunkStore,
    post: ChunkStore,
    required: Seq<(i32, i32, i32)>,
    supplied: Seq<Chunk>,
    phase1: Seq<StoreEntry>,
    g: (i32, i32, i32),
)
    requires
        pre.wf(),
        forall|i: int| 0 <= i < supplied.len() ==> (#[trigger] supplied[i])@.wf(),
        forall|i: int| 0 <= i < supplied.len() ==> (#[trigger] supplied[i])@.dirty,
        forall|i: int, j: int|
            0 <= i < j < supplied.len() ==> (#[trigger] supplied[i])@.grid_position != (
            #[trigger] supplied[j])@.grid_position,
        forall|i: int|
            0 <= i < supplied.len() ==> required.contains((#[trigger] supplied[i])@.grid_position)
                && !pre@.chunks.dom().contains(supplied[i]@.grid_position),
        forall|g: (i32, i32, i32)|
            #[trigger] required.contains(g) && !pre@.chunks.dom().contains(g)
                ==> chunk_seq_map(supplied).dom().contains(g),
        from_orig(pre.entries@, phase1, pre.entries@.len() as int),
        forall|k: int|
            0 <= k < phase1.len() ==> required.contains(entry_pos(#[trigger] phase1[k])),
        forall|j: int|
            0 <= j < pre.entries@.len() && required.contains(entry_pos(#[trigger] pre.entries@[j]))
                ==> has_pos(phase1, entry_pos(pre.entries@[j])),
        unique_positions(phase1),
        post.entries@.len() == phase1.len() + supplied.len(),
        forall|k: int| 0 <= k < phase1.len() ==> #[trigger] post.entries@[k] == phase1[k],
        fresh_suffix(supplied, post.entries@, phase1.len() as int, 0),
        covers(supplied, post.entries@, phase1.len() as int, 0),
        unique_positions(post.entries@),
        post.horizontal_radius == pre.horizontal_radius,
        post.vertical_span == pre.vertical_span,
        forall|k: int| 0 <= k < post.entries@.len() ==> (#[trigger] post.entries@[k]).chunk@.wf(),
        forall|h: (i32, i32, i32)| #[trigger] has_pos(post.entries@, h) == required.contains(h),
        required.contains(g),
    ensures
        ({
            let model = reconcile_model(pre@, required.to_set(), chunk_seq_map(supplied));
            &&& post@.chunks[g] == model.chunks[g]
            &&& (post@.meshes.dom().contains(g) == model.meshes.dom().contains(g))
            &&& (model.meshes.dom().contains(g) ==> post@.meshes[g] == model.meshes[g])
        }),
{
    let orig = pre.entries@;
    let fin = post.entries@;
    let sv = pre@;
    assert(has_pos(fin, g));
    let k = choose|k: int| 0 <= k < fin.len() && entry_pos(fin[k]) == g;
    lemma_lookup(fin, k);
    if sv.chunks.dom().contains(g) {
        // the resident entry was kept untouched
        let j = index_of(orig, g);
        assert(0 <= j < orig.len() && entry_pos(orig[j]) == g);
        assert(has_pos(phase1, g));
        let k1 = choose|k1: int| 0 <= k1 < phase1.len() && entry_pos(phase1[k1]) == g;
        assert(fin[k1] == phase1[k1]);
        if k != k1 {
            assert(entry_pos(fin[k]) != entry_pos(fin[k1]));
        }
        assert(phase1[k1] == orig[index_of(orig, g)]);
        assert(fin[k] == orig[j]);
    } else {
        // the entry is one of the supplied fresh chunks
        assert(k >= phase1.len()) by {
            if k < phase1.len() {
                assert(has_pos(orig, entry_pos(phase1[k])));
            }
        }
        let j = choose|j: int| 0 <= j < supplied.len() && fin[k].chunk == supplied[j];
        lemma_chunk_lookup(supplied, j);
    }
}

/// After the two phases a required coordinate reads back its old chunk
/// and mesh entry when it was resident, and the supplied fresh chunk with
/// no mesh entry when it was not.
#[verifier::spinoff_prover]
proof fn lemma_reconcile_values(
    pre: ChunkStore,
    post: ChunkStore,
    required: Seq<(i32, i32, i32)>,
    supplied: Seq<Chunk>,
    phase1: Seq<StoreEntry>,
)
    requires
        pre.wf(),
        forall|i: int| 0 <= i < supplied.len() ==> (#[trigger] supplied[i])@.wf(),
        forall|i: int| 0 <= i < supplied.len() ==> (#[trigger] supplied[i])@.dirty,
        forall|i: int, j: int|
            0 <= i < j < supplied.len() ==> (#[trigger] supplied[i])@.grid_position != (
            #[trigger] supplied[j])@.grid_position,
        forall|i: int|
            0 <= i < supplied.len() ==> required.contains((#[trigger] supplied[i])@.grid_position)
                && !pre@.chunks.dom().contains(supplied[i]@.grid_position),
        forall|g: (i32, i32, i32)|
            #[trigger] required.contains(g) && !pre@.chunks.dom().contains(g)
                ==> chunk_seq_map(supplied).dom().contains(g),
        from_orig(pre.entries@, phase1, pre.entries@.len() as int),
        forall|k: int|
            0 <= k < phase1.len() ==> required.contains(entry_pos(#[trigger] phase1[k])),
        forall|j: int|
            0 <= j < pre.entries@.len() && required.contains(entry_pos(#[trigger] pre.entries@[j]))
                ==> has_pos(phase1, entry_pos(pre.entries@[j])),
        unique_positions(phase1),
        post.entries@.len() == phase1.len() + supplied.len(),
        forall|k: int| 0 <= k < phase1.len() ==> #[trigger] post.entries@[k] == phase1[k],
        fresh_suffix(supplied, post.entries@, phase1.len() as int, 0),
        covers(supplied, post.entries@, phase1.len() as int, 0),
        unique_positions(post.entries@),
        post.horizontal_radius == pre.horizontal_radius,
        post.vertical_span == pre.vertical_span,
    ensures
        forall|g: (i32, i32, i32)| #[trigger] required.contains(g) ==> {
            let model = reconcile_model(pre@, required.to_set(), chunk_seq_map(supplied));
            &&& post@.chunks[g] == model.chunks[g]
            &&& (post@.meshes.dom().contains(g) == model.meshes.dom().contains(g))
            &&& (model.meshes.dom().contains(g) ==> post@.meshes[g] == model.meshes[g])
        },
{
    let model = reconcile_model(pre@, required.to_set(), chunk_seq_map(supplied));
    lemma_reconcile_dom(pre, post, required, supplied, phase1);
    assert forall|g: (i32, i32, i32)| #[trigger] required.contains(g) implies {
        &&& post@.chunks[g] == model.chunks[g]
        &&& (post@.meshes.dom().contains(g) == model.meshes.dom().contains(g))
        &&& (model.meshes.dom().contains(g) ==> post@.meshes[g] == model.meshes[g])
    } by {
        lemma_reconcile_value_at(pre, post, required, supplied, phase1, g);
    }
}

/// The two phases of `reconcile` — evicting into `phase1`, then pushing
/// the supplied chunks — produce exactly the reconcile model.
#[verifier::rlimit(100)]
#[verifier::spinoff_prover]
pub(crate) proof fn lemma_reconcile_realizes(
    pre: ChunkStore,
    post: ChunkStore,
    required: Seq<(i32, i32, i32)>,
    supplied: Seq<Chunk>,
    phase1: Seq<StoreEntry>,
)
    requires
        pre.wf(),
        forall|i: int| 0 <= i < supplied.len() ==> (#[trigger] supplied[i])@.wf(),
        forall|i: int| 0 <= i < supplied.len() ==> (#[trigger] supplied[i])@.dirty,
        forall|i: int, j: int|
            0 <= i < j < supplied.len() ==> (#[trigger] supplied[i])@.grid_position != (
            #[trigger] supplied[j])@.grid_position,
        forall|i: int|
            0 <= i < supplied.len() ==> required.contains((#[trigger] supplied[i])@.grid_position)
                && !pre@.chunks.dom().contains(supplied[i]@.grid_position),
        forall|g: (i32, i32, i32)|
            #[trigger] required.contains(g) && !pre@.chunks.dom().contains(g)
                ==> chunk_seq_map(supplied).dom().contains(g),
        from_orig(pre.entries@, phase1, pre.entries@.len() as int),
        forall|k: int|
            0 <= k < phase1.len() ==> required.contains(entry_pos(#[trigger] phase1[k])),
        forall|j: int|
            0 <= j < pre.entries@.len() && required.contains(entry_pos(#[trigger] pre.entries@[j]))
                ==> has_pos(phase1, entry_pos(pre.entries@[j])),
        unique_positions(phase1),
        post.entries@.len() == phase1.len() + supplied.len(),
        forall|k: int| 0 <= k < phase1.len() ==> #[trigger] post.entries@[k] == phase1[k],
        fresh_suffix(supplied, post.entries@, phase1.len() as int, 0),
        covers(supplied, post.entries@, phase1.len() as int, 0),
        unique_positions(post.entries@),
        post.horizontal_radius == pre.horizontal_radius,
        post.vertical_span == pre.vertical_span,
    ensures
        post.wf(),
        post@ == reconcile_model(pre@, required.to_set(), chunk_seq_map(supplied)),
{
    let req = required.to_set();
    let fresh = chunk_seq_map(supplied);
    let model = reconcile_model(pre@, req, fresh);
    lemma_reconcile_dom(pre, post, required, supplied, phase1);
    lemma_reconcile_values(pre, post, required, supplied, phase1);
    assert(post@.chunks =~= model.chunks);
    assert(post@.meshes =~= model.meshes);
    assert(post@ =~= model);
}

/// Rebuilding every entry as `remeshed_entry_ok` describes/// Rebuilding every entry as `remeshed_entry_ok` describes produces
/// exactly the remesh model.
#[verifier::rlimit(100)]
#[verifier::spinoff_prover]
pub(crate) proof fn lemma_remesh_realizes(pre: ChunkStore, post: ChunkStore)
    requires
        pre.wf(),
        post.entries@.len() == pre.entries@.len(),
        forall|k: int|
            0 <= k < pre.entries@.len() ==> remeshed_entry_ok(
                pre.entries@[k],
                #[trigger] post.entries@[k],
            ),
        post.horizontal_radius == pre.horizontal_radius,
        post.vertical_span == pre.vertical_span,
    ensures
        post.wf(),
        post@ == remesh_model(pre@),
{
    let orig = pre.entries@;
    let fin = post.entries@;
    let sv = pre@;
    let model = remesh_model(sv);
    assert forall|k: int|
        0 <= k < fin.len() implies #[trigger] entry_pos(fin[k]) == entry_pos(orig[k])
            && fin[k].chunk@.wf() by {
        assert(remeshed_entry_ok(orig[k], fin[k]));
    }
    assert forall|k1: int, k2: int|
        0 <= k1 < k2 < fin.len() implies #[trigger] entry_pos(fin[k1]) != (#[trigger] entry_pos(
        fin[k2],
    )) by {
        assert(entry_pos(orig[k1]) != entry_pos(orig[k2]));
    }
    assert forall|g: (i32, i32, i32)| #[trigger] has_pos(fin, g) == has_pos(orig, g) by {
        if has_pos(fin, g) {
            let k = choose|k: int| 0 <= k < fin.len() && entry_pos(fin[k]) == g;
            assert(entry_pos(orig[k]) == g);
        }
        if has_pos(orig, g) {
            let k = choose|k: int| 0 <= k < orig.len() && entry_pos(orig[k]) == g;
            assert(entry_pos(fin[k]) == g);
        }
    }
    assert forall|g: (i32, i32, i32)| #[trigger] has_pos(orig, g) implies {
        &&& post@.chunks[g] == model.chunks[g]
        &&& (post@.meshes.dom().contains(g) == model.meshes.dom().contains(g))
        &&& (model.meshes.dom().contains(g) ==> post@.meshes[g] == model.meshes[g])
    } by {
        let k = index_of(orig, g);
        assert(0 <= k < orig.len() && entry_pos(orig[k]) == g);
        lemma_lookup(fin, k);
        assert(remeshed_entry_ok(orig[k], fin[k]));
        if sv.chunks[g].dirty && mesh_vertices(sv.chunks[g]).len() == 0 {
            crate::mesh::lemma_quads_vertices_len(
                sv.chunks[g],
                crate::mesh::chunk_quads(sv.chunks[g]),
            );
            crate::mesh::lemma_index_pattern_len(
                crate::mesh::chunk_quads(sv.chunks[g]).len() as int,
            );
        }
    }
    assert(post@.chunks =~= model.chunks);
    assert(post@.meshes =~= model.meshes);
    assert(post@ =~= model);
}


} // verus!
