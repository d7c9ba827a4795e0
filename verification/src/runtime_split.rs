use vstd::prelude::*;
use vstd::string::StringExecFns;
use crate::graph::{
    spec_add_chunk, runtime_chunk_of, entrypoints_wf, membership_wf, Graph, GraphV, GroupV, ChunkV,
};

verus! {

// ----------------------------------------------------------------------------
// Runtime chunk isolation: an entrypoint whose runtime chunk coincides with
// its entry chunk, while that chunk sits in an eagerly loaded group of more
// than one chunk, gets a fresh dedicated runtime chunk.  Selection runs over
// the unmutated snapshot; the mutations replay sequentially.
// ----------------------------------------------------------------------------

/// Chunk `c` belongs to some initial group holding more than one chunk.
pub open spec fn in_initial_multi_group(g: GraphV, c: usize) -> bool {
    exists|k: int|
        0 <= k < g.chunks[c as int].groups.len() && g.groups[
            #[trigger] g.chunks[c as int].groups[k] as int
        ].initial && g.groups[g.chunks[c as int].groups[k] as int].chunks.len() > 1
}

/// Entrypoint group `ep` needs a separate runtime chunk.
pub open spec fn runtime_split_candidate(g: GraphV, ep: usize) -> bool {
    &&& g.groups[ep as int].entry_chunk is Some
    &&& runtime_chunk_of(g.groups[ep as int]) == g.groups[ep as int].entry_chunk
    &&& in_initial_multi_group(g, g.groups[ep as int].entry_chunk->0)
}

/// The selected entrypoints among the first `k`, in declaration order.
pub open spec fn runtime_split_list_prefix(g: GraphV, k: int) -> Seq<usize>
    decreases k,
{
    if k <= 0 {
        Seq::empty()
    } else {
        let rest = runtime_split_list_prefix(g, k - 1);
        if runtime_split_candidate(g, g.entrypoints[k - 1]) {
            rest.push(g.entrypoints[k - 1])
        } else {
            rest
        }
    }
}

/// Every entrypoint selected for runtime splitting.
pub open spec fn runtime_split_list(g: GraphV) -> Seq<usize> {
    runtime_split_list_prefix(g, g.entrypoints.len() as int)
}

/// One split: allocate a chunk, make it the entrypoint's runtime chunk and
/// first group member, copy the runtime identity from the old entry chunk,
/// tag it and protect it from integration.
pub open spec fn spec_runtime_split_step(g: GraphV, ep: usize) -> GraphV {
    let entry = g.groups[ep as int].entry_chunk->0;
    let new_c = g.chunks.len() as usize;
    let g1 = spec_add_chunk(g);
    let g2 = GraphV {
        groups: g1.groups.update(
            ep as int,
            GroupV {
                runtime_chunk: Some(new_c),
                chunks: g1.groups[ep as int].chunks.insert(0, new_c),
                ..g1.groups[ep as int]
            },
        ),
        ..g1
    };
    GraphV {
        chunks: g2.chunks.update(
            new_c as int,
            ChunkV {
                runtime: g2.chunks[entry as int].runtime,
                id_name_hints: g2.chunks[new_c as int].id_name_hints.push("runtime"@),
                prevent_integration: true,
                groups: g2.chunks[new_c as int].groups.push(ep),
                ..g2.chunks[new_c as int]
            },
        ),
        ..g2
    }
}

/// The state after replaying the first `k` selected splits.
pub open spec fn spec_apply_runtime_splits(g: GraphV, list: Seq<usize>, k: int) -> GraphV
    decreases k,
{
    if k <= 0 {
        g
    } else {
        spec_runtime_split_step(spec_apply_runtime_splits(g, list, k - 1), list[k - 1])
    }
}

/// The whole pass.
pub open spec fn spec_optimize_runtime_chunks(g: GraphV) -> GraphV {
    spec_apply_runtime_splits(g, runtime_split_list(g), runtime_split_list(g).len() as int)
}

/// Decides `in_initial_multi_group`.
fn initial_multi_group(g: &Graph, c: usize) -> (r: bool)
    requires
        c < g@.chunks.len(),
        forall|k: int|
            0 <= k < g@.chunks[c as int].groups.len() ==> (#[trigger] g@.chunks[c as int].groups[k])
                < g@.groups.len(),
    ensures
        r == in_initial_multi_group(g@, c),
{
    let n = g.chunks[c].groups.len();
    for k in 0..n
        invariant
            n == g@.chunks[c as int].groups.len(),
            c < g@.chunks.len(),
            forall|j: int|
                0 <= j < n ==> (#[trigger] g@.chunks[c as int].groups[j]) < g@.groups.len(),
            forall|j: int|
                0 <= j < k ==> !(g@.groups[#[trigger] g@.chunks[c as int].groups[j] as int].initial
                    && g@.groups[g@.chunks[c as int].groups[j] as int].chunks.len() > 1),
    {
        let gid = g.chunks[c].groups[k];
        if g.groups[gid].initial && g.groups[gid].chunks.len() > 1 {
            return true;
        }
    }
    false
}

/// Valid selection entries: each names a group with an in-range entry chunk.
pub open spec fn split_list_valid(g: GraphV, list: Seq<usize>) -> bool {
    forall|j: int|
        0 <= j < list.len() ==> (#[trigger] list[j]) < g.groups.len() && g.groups[list[j] as int].entry_chunk is Some
            && g.groups[list[j] as int].entry_chunk->0 < g.chunks.len()
}

/// Selected entrypoints are valid selection entries.
proof fn lemma_runtime_list_valid(g: GraphV, k: int)
    requires
        entrypoints_wf(g),
        0 <= k <= g.entrypoints.len(),
    ensures
        split_list_valid(g, runtime_split_list_prefix(g, k)),
    decreases k,
{
    if k > 0 {
        lemma_runtime_list_valid(g, k - 1);
    }
}

/// The selection among the first `k` entrypoints has at most `k` entries.
proof fn lemma_runtime_list_len(g: GraphV, k: int)
    requires
        0 <= k,
    ensures
        runtime_split_list_prefix(g, k).len() <= k,
    decreases k,
{
    if k > 0 {
        lemma_runtime_list_len(g, k - 1);
    }
}

/// What replaying `k` splits preserves and creates.
proof fn lemma_apply_runtime_facts(g: GraphV, list: Seq<usize>, k: int)
    requires
        split_list_valid(g, list),
        0 <= k <= list.len(),
        g.groups.len() <= usize::MAX,
        g.chunks.len() + k <= usize::MAX,
    ensures
        ({
            let gk = spec_apply_runtime_splits(g, list, k);
            &&& gk.modules == g.modules
            &&& gk.entrypoints == g.entrypoints
            &&& gk.groups.len() == g.groups.len()
            &&& gk.chunks.len() == g.chunks.len() + k
            &&& gk.added_chunks.len() == g.added_chunks.len() + k
            &&& forall|j: int|
                0 <= j < g.groups.len() && !list.subrange(0, k).contains(j as usize)
                    ==> gk.groups[j] == g.groups[j]
            &&& forall|j: int|
                0 <= j < g.groups.len() ==> (#[trigger] gk.groups[j]).entry_chunk == g.groups[j].entry_chunk
                    && gk.groups[j].initial == g.groups[j].initial
            &&& forall|j: int|
                0 <= j < g.groups.len() && list.subrange(0, k).contains(j as usize) ==> (
                #[trigger] gk.groups[j]).runtime_chunk is Some && gk.groups[j].runtime_chunk->0
                    >= g.chunks.len()
            &&& forall|c: int| 0 <= c < g.chunks.len() ==> gk.chunks[c] == g.chunks[c]
            &&& forall|c: int|
                g.chunks.len() <= c < gk.chunks.len() ==> (#[trigger] gk.chunks[c]).modules
                    == Seq::<usize>::empty() && gk.chunks[c].entry_modules == Seq::<
                    (usize, usize),
                >::empty()
        }),
    decreases k,
{
    if k > 0 {
        lemma_apply_runtime_facts(g, list, k - 1);
        let gp = spec_apply_runtime_splits(g, list, k - 1);
        let ep = list[k - 1];
        let gk = spec_apply_runtime_splits(g, list, k);
        assert(gk == spec_runtime_split_step(gp, ep));
        assert(list.subrange(0, k - 1).push(ep) =~= list.subrange(0, k));
        assert(list.subrange(0, k)[k - 1] == ep);
        assert forall|j: int|
            0 <= j < g.groups.len() && !list.subrange(0, k).contains(j as usize) implies gk.groups[j]
            == g.groups[j] by {
            assert(list.subrange(0, k).contains(ep));
            assert(j != ep as int);
            assert(!list.subrange(0, k - 1).contains(j as usize)) by {
                if list.subrange(0, k - 1).contains(j as usize) {
                    let w = choose|w: int|
                        0 <= w < k - 1 && (#[trigger] list.subrange(0, k - 1)[w]) == j as usize;
                    assert(list.subrange(0, k)[w] == j as usize);
                }
            }
        }
        assert forall|j: int|
            0 <= j < g.groups.len() && list.subrange(0, k).contains(j as usize) implies (
        #[trigger] gk.groups[j]).runtime_chunk is Some && gk.groups[j].runtime_chunk->0
            >= g.chunks.len() by {
            if j == ep as int {
                assert(gk.groups[j].runtime_chunk == Some((gp.chunks.len()) as usize));
            } else {
                let w = choose|w: int|
                    0 <= w < k && (#[trigger] list.subrange(0, k)[w]) == j as usize;
                assert(w != k - 1);
                assert(list.subrange(0, k - 1)[w] == j as usize);
                assert(list.subrange(0, k - 1).contains(j as usize));
            }
        }
    } else {
        assert(list.subrange(0, 0) =~= Seq::<usize>::empty());
    }
}

/// Runtime chunk isolation (the runtime splitter pass).  Selection completes
/// over the unmutated snapshot; each selected entrypoint then gets a fresh
/// runtime chunk placed first in its group.
pub fn optimize_runtime_chunks(g: &mut Graph)
    requires
        membership_wf(old(g)@),
        entrypoints_wf(old(g)@),
    ensures
        final(g)@ == spec_optimize_runtime_chunks(old(g)@),
{
    let ghost g0 = g@;
    // Phase 1: select entrypoints needing a split, over the unmutated graph.
    let mut cands: Vec<usize> = Vec::new();
    let n = g.entrypoints.len();
    for i in 0..n
        invariant
            g@ == g0,
            membership_wf(g0),
            entrypoints_wf(g0),
            n == g0.entrypoints.len(),
            cands@ == runtime_split_list_prefix(g0, i as int),
    {
        let ep = g.entrypoints[i];
        let is_cand = match g.groups[ep].entry_chunk {
            Some(entry) => {
                let rt = match g.groups[ep].runtime_chunk {
                    Some(r) => r,
                    None => entry,
                };
                if rt == entry {
                    initial_multi_group(g, entry)
                } else {
                    false
                }
            },
            None => false,
        };
        if is_cand {
            cands.push(ep);
        }
        proof {
            assert(cands@ =~= runtime_split_list_prefix(g0, i + 1));
        }
    }
    proof {
        lemma_runtime_list_valid(g0, g0.entrypoints.len() as int);
    }
    // Phase 2: replay the splits sequentially.
    let m = cands.len();
    for i in 0..m
        invariant
            m == cands@.len(),
            cands@ == runtime_split_list(g0),
            split_list_valid(g0, cands@),
            g@ == spec_apply_runtime_splits(g0, cands@, i as int),
            g@.chunks.len() == g0.chunks.len() + i,
            g@.groups.len() == g0.groups.len(),
    {
        let n_groups = g.groups.len();
        let n_chunks = g.chunks.len();
        proof {
            assert(g0.groups.len() <= usize::MAX);
            assert(g0.chunks.len() + i <= usize::MAX);
            lemma_apply_runtime_facts(g0, cands@, i as int);
        }
        let ep = cands[i];
        let entry = match g.groups[ep].entry_chunk {
            Some(e) => e,
            None => unreached(),
        };
        proof {
            assert(g@.groups[ep as int].entry_chunk == g0.groups[ep as int].entry_chunk);
            assert(entry < g0.chunks.len());
        }
        let new_c = g.add_chunk();
        proof {
            assert(g@.chunks.len() == g0.chunks.len() + i + 1);
            assert(g@.chunks.len() == g.chunks@.len());
            assert(new_c < g.chunks@.len());
            assert(entry < g.chunks@.len());
        }
        let rt = g.chunks[entry].runtime;
        g.chunks[new_c].runtime = rt;
        g.chunks[new_c].id_name_hints.push(String::from_str("runtime"));
        g.chunks[new_c].prevent_integration = true;
        g.chunks[new_c].groups.push(ep);
        g.groups[ep].runtime_chunk = Some(new_c);
        g.groups[ep].chunks.insert(0, new_c);
        proof {
            assert(g@ =~~= spec_apply_runtime_splits(g0, cands@, i + 1));
        }
    }
}

/// Public face of the preservation facts for the whole pass: what the
/// replayed splits keep and create.
pub proof fn lemma_runtime_facts_public(g: GraphV)
    requires
        membership_wf(g),
        entrypoints_wf(g),
        g.groups.len() <= usize::MAX,
        g.chunks.len() + g.entrypoints.len() <= usize::MAX,
    ensures
        ({
            let gk = spec_optimize_runtime_chunks(g);
            &&& gk.modules == g.modules
            &&& gk.entrypoints == g.entrypoints
            &&& gk.groups.len() == g.groups.len()
            &&& gk.chunks.len() >= g.chunks.len()
            &&& forall|c: int| 0 <= c < g.chunks.len() ==> gk.chunks[c] == g.chunks[c]
            &&& forall|c: int|
                g.chunks.len() <= c < gk.chunks.len() ==> (#[trigger] gk.chunks[c]).modules
                    == Seq::<usize>::empty()
            &&& forall|j: int|
                0 <= j < g.groups.len() ==> (#[trigger] gk.groups[j]).entry_chunk == g.groups[j].entry_chunk
                    && gk.groups[j].initial == g.groups[j].initial
        }),
{
    lemma_runtime_list_valid(g, g.entrypoints.len() as int);
    lemma_runtime_list_len(g, g.entrypoints.len() as int);
    lemma_apply_runtime_facts(g, runtime_split_list(g), runtime_split_list(g).len() as int);
}

/// After the pass no entrypoint is a candidate any more: every entrypoint
/// whose entry chunk sits in an initial group of more than one chunk has a
/// runtime chunk distinct from its entry chunk, and the pass is at a fixed
/// point.
pub proof fn lemma_runtime_split_settled(g: GraphV)
    requires
        membership_wf(g),
        entrypoints_wf(g),
        g.groups.len() <= usize::MAX,
        g.chunks.len() + g.entrypoints.len() <= usize::MAX,
    ensures
        forall|i: int|
            0 <= i < g.entrypoints.len() ==> !runtime_split_candidate(
                spec_optimize_runtime_chunks(g),
                #[trigger] g.entrypoints[i],
            ),
{
    let list = runtime_split_list(g);
    let gk = spec_optimize_runtime_chunks(g);
    lemma_runtime_list_valid(g, g.entrypoints.len() as int);
    lemma_runtime_list_len(g, g.entrypoints.len() as int);
    lemma_apply_runtime_facts(g, list, list.len() as int);
    lemma_runtime_list_complete(g, g.entrypoints.len() as int);
    assert(list.subrange(0, list.len() as int) =~= list);
    assert forall|i: int|
        0 <= i < g.entrypoints.len() implies !runtime_split_candidate(
        gk,
        #[trigger] g.entrypoints[i],
    ) by {
        let ep = g.entrypoints[i];
        if runtime_split_candidate(gk, ep) {
            let entry = g.groups[ep as int].entry_chunk->0;
            assert(gk.groups[ep as int].entry_chunk == g.groups[ep as int].entry_chunk);
            if list.contains(ep) {
                // A split entrypoint points at its fresh runtime chunk.
                assert(gk.groups[ep as int].runtime_chunk->0 >= g.chunks.len());
                assert(entry < g.chunks.len());
            } else {
                // Untouched entrypoint: it was not a candidate before, and no
                // step made its situation worse.
                assert(gk.groups[ep as int] == g.groups[ep as int]);
                assert(!runtime_split_candidate(g, ep));
                assert(runtime_chunk_of(g.groups[ep as int]) == g.groups[ep as int].entry_chunk);
                assert(!in_initial_multi_group(g, entry));
                // The entry chunk's own membership list is unchanged.
                assert(gk.chunks[entry as int] == g.chunks[entry as int]);
                let k = choose|k: int|
                    0 <= k < gk.chunks[entry as int].groups.len() && gk.groups[
                        #[trigger] gk.chunks[entry as int].groups[k] as int
                    ].initial && gk.groups[gk.chunks[entry as int].groups[k] as int].chunks.len()
                        > 1;
                let gr = gk.chunks[entry as int].groups[k] as int;
                assert(gr < g.groups.len());
                assert(g.groups[gr].chunks.contains(entry));
                assert(!(g.groups[gr].initial && g.groups[gr].chunks.len() > 1));
                if list.contains(gr as usize) {
                    // That group belongs to a split entrypoint; before the
                    // split it held only that entrypoint's entry chunk, which
                    // therefore is `entry` itself - but then `ep` would have
                    // been a candidate too.
                    assert(runtime_split_candidate(g, gr as usize));
                    let entry2 = g.groups[gr].entry_chunk->0;
                    assert(g.groups[gr].chunks.contains(entry2));
                    assert(g.groups[gr].initial ==> g.groups[gr].chunks.len() <= 1);
                    if g.groups[gr].initial {
                        let wi = choose|wi: int|
                            0 <= wi < g.groups[gr].chunks.len() && g.groups[gr].chunks[wi] == entry;
                        let wj = choose|wj: int|
                            0 <= wj < g.groups[gr].chunks.len() && g.groups[gr].chunks[wj]
                                == entry2;
                        assert(wi == wj);
                        assert(entry == entry2);
                        assert(in_initial_multi_group(g, entry2));
                        assert(false);
                    } else {
                        assert(gk.groups[gr].initial == g.groups[gr].initial);
                        assert(false);
                    }
                } else {
                    assert(gk.groups[gr] == g.groups[gr]);
                    assert(false);
                }
            }
        }
    }
}

/// Membership in the selection list implies the candidate predicate.
pub open spec fn runtime_split_candidate_elem(g: GraphV, list: Seq<usize>, j: int) -> bool {
    runtime_split_candidate(g, list[j])
}

/// Everything in the selection list is a candidate, and every candidate
/// entrypoint is in the list.
proof fn lemma_runtime_list_complete(g: GraphV, k: int)
    requires
        0 <= k <= g.entrypoints.len(),
    ensures
        forall|j: int|
            0 <= j < runtime_split_list_prefix(g, k).len() ==> runtime_split_candidate_elem(
                g,
                runtime_split_list_prefix(g, k),
                j,
            ),
        forall|i: int|
            0 <= i < k && runtime_split_candidate(g, #[trigger] g.entrypoints[i])
                ==> runtime_split_list_prefix(g, k).contains(g.entrypoints[i]),
        forall|x: usize|
            runtime_split_list_prefix(g, k).contains(x) ==> runtime_split_candidate(g, x),
    decreases k,
{
    if k > 0 {
        lemma_runtime_list_complete(g, k - 1);
        let prev = runtime_split_list_prefix(g, k - 1);
        let cur = runtime_split_list_prefix(g, k);
        assert forall|i: int|
            0 <= i < k && runtime_split_candidate(g, #[trigger] g.entrypoints[i]) implies cur.contains(
            g.entrypoints[i],
        ) by {
            if i < k - 1 {
                assert(prev.contains(g.entrypoints[i]));
                let w = choose|w: int| 0 <= w < prev.len() && prev[w] == g.entrypoints[i];
                assert(cur[w] == g.entrypoints[i]);
            } else {
                assert(cur[cur.len() - 1] == g.entrypoints[i]);
            }
        }
        assert forall|x: usize| cur.contains(x) implies runtime_split_candidate(g, x) by {
            let w = choose|w: int| 0 <= w < cur.len() && cur[w] == x;
            if w < prev.len() {
                assert(prev.contains(x));
            }
        }
    }
}

} // verus!
