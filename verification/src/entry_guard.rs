use vstd::prelude::*;
use rayon::iter::IntoParallelIterator;
use rayon::iter::ParallelIterator;
use crate::graph::{
    spec_add_chunk, spec_split_chunk, chunk_of, is_entry_chunk, chunk_modules_wf, membership_wf,
    entrypoints_wf, edges_wf, entry_modules_wf, wf, contains_usize, copy_usize_vec, Graph, GraphV,
    GroupV, ChunkV,
};

verus! {

// ----------------------------------------------------------------------------
// Entry export isolation: when a module residing in a non-entry chunk
// requires a module residing in an entrypoint's entry chunk, that entry chunk
// would have to re-export the symbols.  The guard empties every such "dirty"
// entry chunk into a fresh non-entry chunk, carrying the entry linkage and,
// when needed, the runtime pointer along.  The group's designated entry
// chunk stays what it was: it remains the entrypoint's output surface and
// now merely re-exports, while the relocated modules live in a chunk no
// entry status attaches to - repointing the designation at the fresh chunk
// would recreate the very violation on the next detection.  Detection runs
// in parallel over the immutable snapshot; the fixes replay sequentially in
// ascending chunk order.
// ----------------------------------------------------------------------------

/// Edge `j` of module `u` targets a module residing in an entry chunk.
pub open spec fn edge_hits_entry(g: GraphV, u: usize, j: int) -> bool {
    &&& g.modules[u as int].edges[j].active
    &&& chunk_of(g, g.modules[u as int].edges[j].target) is Some
    &&& is_entry_chunk(g, chunk_of(g, g.modules[u as int].edges[j].target)->0)
}

/// The entry chunk hit by the first hitting edge of `u` at or after `j`;
/// scanning a module stops at its first hit.
pub open spec fn first_hit_from(g: GraphV, u: usize, j: int) -> Option<usize>
    decreases g.modules[u as int].edges.len() - j,
{
    if j < 0 || j >= g.modules[u as int].edges.len() {
        None
    } else if edge_hits_entry(g, u, j) {
        Some(chunk_of(g, g.modules[u as int].edges[j].target)->0)
    } else {
        first_hit_from(g, u, j + 1)
    }
}

/// The entry chunk hit by module `u`, if any.
pub open spec fn module_hit(g: GraphV, u: usize) -> Option<usize> {
    first_hit_from(g, u, 0)
}

/// Entry chunk `ec` is dirty: some module of a non-entry chunk hits it.
pub open spec fn chunk_dirty(g: GraphV, ec: usize) -> bool {
    exists|x: int, k: int|
        0 <= x < g.chunks.len() && !is_entry_chunk(g, x as usize) && 0 <= k < g.chunks[x].modules.len()
            && module_hit(g, #[trigger] g.chunks[x].modules[k]) == Some(ec)
}

/// The dirty chunks below `k`, in ascending (canonical) order.
pub open spec fn dirty_list_prefix(g: GraphV, k: int) -> Seq<usize>
    decreases k,
{
    if k <= 0 {
        Seq::empty()
    } else {
        let rest = dirty_list_prefix(g, k - 1);
        if chunk_dirty(g, (k - 1) as usize) {
            rest.push((k - 1) as usize)
        } else {
            rest
        }
    }
}

/// Every dirty chunk, in ascending order.
pub open spec fn dirty_list(g: GraphV) -> Seq<usize> {
    dirty_list_prefix(g, g.chunks.len() as int)
}

/// The entrypoint owning entry chunk `c`: the last declared one pointing at
/// it, searching below `i`.
pub open spec fn entry_owner_from(g: GraphV, c: usize, i: int) -> Option<usize>
    decreases i,
{
    if i <= 0 {
        None
    } else if g.groups[g.entrypoints[i - 1] as int].entry_chunk == Some(c) {
        Some(g.entrypoints[i - 1])
    } else {
        entry_owner_from(g, c, i - 1)
    }
}

/// The entrypoint owning entry chunk `c`.
pub open spec fn entry_owner(g: GraphV, c: usize) -> Option<usize> {
    entry_owner_from(g, c, g.entrypoints.len() as int)
}

/// The state of one fix just before the structural split: a chunk has been
/// allocated, the owner's runtime pointer retargeted when it sat on the
/// dirty chunk, and every module of the dirty chunk (membership and entry
/// linkage) moved to the fresh chunk.
pub open spec fn entry_guard_premove(g: GraphV, c: usize) -> GraphV {
    let ms = g.chunks[c as int].modules;
    let new_c = g.chunks.len() as usize;
    let owner = entry_owner(g, c);
    let g1 = spec_add_chunk(g);
    let g2 = if owner is Some && crate::graph::runtime_chunk_of(g.groups[owner->0 as int]) == Some(
        c,
    ) {
        GraphV {
            groups: g1.groups.update(
                owner->0 as int,
                GroupV { runtime_chunk: Some(new_c), ..g1.groups[owner->0 as int] },
            ),
            ..g1
        }
    } else {
        g1
    };
    GraphV {
        chunks: g2.chunks.update(
            c as int,
            ChunkV {
                modules: Seq::empty(),
                entry_modules: Seq::empty(),
                ..g2.chunks[c as int]
            },
        ).update(
            new_c as int,
            ChunkV {
                modules: ms,
                entry_modules: ms.map_values(|m: usize| (m, owner->0)),
                ..g2.chunks[new_c as int]
            },
        ),
        ..g2
    }
}

/// One fix, finished by the structural split into the dirty chunk's groups.
pub open spec fn entry_guard_step(g: GraphV, c: usize) -> GraphV {
    spec_split_chunk(entry_guard_premove(g, c), c, g.chunks.len() as usize)
}

/// The state after fixing the first `k` dirty chunks.
pub open spec fn spec_apply_entry_guard(g: GraphV, list: Seq<usize>, k: int) -> GraphV
    decreases k,
{
    if k <= 0 {
        g
    } else {
        entry_guard_step(spec_apply_entry_guard(g, list, k - 1), list[k - 1])
    }
}

/// The whole pass.
pub open spec fn spec_ensure_entry_exports(g: GraphV) -> GraphV {
    spec_apply_entry_guard(g, dirty_list(g), dirty_list(g).len() as int)
}

/// Decides `module_hit`.
fn first_hit_exec(g: &Graph, u: usize) -> (r: Option<usize>)
    requires
        u < g@.modules.len(),
        forall|i: int|
            0 <= i < g@.entrypoints.len() ==> (#[trigger] g@.entrypoints[i]) < g@.groups.len(),
    ensures
        r == module_hit(g@, u),
{
    let n = g.modules[u].edges.len();
    for j in 0..n
        invariant
            n == g@.modules[u as int].edges.len(),
            u < g@.modules.len(),
            forall|i: int|
                0 <= i < g@.entrypoints.len() ==> (#[trigger] g@.entrypoints[i]) < g@.groups.len(),
            module_hit(g@, u) == first_hit_from(g@, u, j as int),
    {
        let e = &g.modules[u].edges[j];
        if e.active {
            match g.module_chunk(e.target) {
                Some(tc) => {
                    if crate::facade::is_entry_chunk_exec(g, tc) {
                        proof {
                            assert(g@.modules[u as int].edges[j as int] == e@);
                            assert(edge_hits_entry(g@, u, j as int));
                        }
                        return Some(tc);
                    }
                    proof {
                        assert(g@.modules[u as int].edges[j as int] == e@);
                        assert(!edge_hits_entry(g@, u, j as int));
                    }
                },
                None => {
                    proof {
                        assert(g@.modules[u as int].edges[j as int] == e@);
                        assert(!edge_hits_entry(g@, u, j as int));
                    }
                },
            }
        } else {
            proof {
                assert(g@.modules[u as int].edges[j as int] == e@);
            }
        }
    }
    None
}

/// Per-chunk detection: the entry chunks hit by the members of non-entry
/// chunk `x` (empty for an entry chunk).
pub fn scan_chunk_hits(g: &Graph, x: usize) -> (r: Vec<usize>)
    requires
        x < g@.chunks.len(),
        chunk_modules_wf(g@),
        forall|i: int|
            0 <= i < g@.entrypoints.len() ==> (#[trigger] g@.entrypoints[i]) < g@.groups.len(),
    ensures
        forall|ec: usize|
            r@.contains(ec) <==> (!is_entry_chunk(g@, x) && exists|k: int|
                0 <= k < g@.chunks[x as int].modules.len() && module_hit(
                    g@,
                    #[trigger] g@.chunks[x as int].modules[k],
                ) == Some(ec)),
{
    let mut r: Vec<usize> = Vec::new();
    if crate::facade::is_entry_chunk_exec(g, x) {
        proof {
            assert(forall|ec: usize| !r@.contains(ec));
        }
        return r;
    }
    let n = g.chunks[x].modules.len();
    for k in 0..n
        invariant
            n == g@.chunks[x as int].modules.len(),
            x < g@.chunks.len(),
            chunk_modules_wf(g@),
            !is_entry_chunk(g@, x),
            forall|i: int|
                0 <= i < g@.entrypoints.len() ==> (#[trigger] g@.entrypoints[i]) < g@.groups.len(),
            forall|ec: usize|
                r@.contains(ec) <==> exists|k2: int|
                    0 <= k2 < k && module_hit(g@, #[trigger] g@.chunks[x as int].modules[k2])
                        == Some(ec),
    {
        let ghost r_pre = r@;
        let u = g.chunks[x].modules[k];
        match first_hit_exec(g, u) {
            Some(ec) => {
                r.push(ec);
                proof {
                    assert forall|ec2: usize| r@.contains(ec2) implies exists|k2: int|
                        0 <= k2 < k + 1 && module_hit(g@, #[trigger] g@.chunks[x as int].modules[k2])
                            == Some(ec2) by {
                        let w = choose|w: int| 0 <= w < r@.len() && r@[w] == ec2;
                        if w < r_pre.len() {
                            assert(r_pre.contains(ec2));
                            let k2 = choose|k2: int|
                                0 <= k2 < k && module_hit(
                                    g@,
                                    #[trigger] g@.chunks[x as int].modules[k2],
                                ) == Some(ec2);
                            assert(module_hit(g@, g@.chunks[x as int].modules[k2]) == Some(ec2));
                        } else {
                            assert(module_hit(g@, g@.chunks[x as int].modules[k as int]) == Some(
                                ec2,
                            ));
                        }
                    }
                    assert forall|ec2: usize|
                        (exists|k2: int|
                            0 <= k2 < k + 1 && module_hit(
                                g@,
                                #[trigger] g@.chunks[x as int].modules[k2],
                            ) == Some(ec2)) implies r@.contains(ec2) by {
                        let k2 = choose|k2: int|
                            0 <= k2 < k + 1 && module_hit(
                                g@,
                                #[trigger] g@.chunks[x as int].modules[k2],
                            ) == Some(ec2);
                        if k2 < k {
                            assert(r_pre.contains(ec2));
                            let w = choose|w: int| 0 <= w < r_pre.len() && r_pre[w] == ec2;
                            assert(r@[w] == ec2);
                        } else {
                            assert(r@[r_pre.len() as int] == ec2);
                        }
                    }
                }
            },
            None => {
                proof {
                    assert forall|ec2: usize|
                        (exists|k2: int|
                            0 <= k2 < k + 1 && module_hit(
                                g@,
                                #[trigger] g@.chunks[x as int].modules[k2],
                            ) == Some(ec2)) implies r@.contains(ec2) by {
                        let k2 = choose|k2: int|
                            0 <= k2 < k + 1 && module_hit(
                                g@,
                                #[trigger] g@.chunks[x as int].modules[k2],
                            ) == Some(ec2);
                        assert(k2 < k);
                    }
                }
            },
        }
    }
    r
}

/// Relies on rayon's parallel iterator: `into_par_iter` over the chunk
/// indices, `flat_map_iter` applying the verified per-chunk scan
/// `scan_chunk_hits`, and `collect` gathering exactly the elements the scans
/// produce, so the result holds an entry chunk if and only if some per-chunk
/// scan reports it.
#[verifier::external_body]
fn par_scan_dirty(g: &Graph) -> (r: Vec<usize>)
    requires
        chunk_modules_wf(g@),
        forall|i: int|
            0 <= i < g@.entrypoints.len() ==> (#[trigger] g@.entrypoints[i]) < g@.groups.len(),
    ensures
        forall|ec: usize| r@.contains(ec) <==> chunk_dirty(g@, ec),
{
    (0..g.chunks.len()).into_par_iter().flat_map_iter(|x| scan_chunk_hits(g, x)).collect()
}

/// Decides `entry_owner`.
fn entry_owner_exec(g: &Graph, c: usize) -> (r: Option<usize>)
    requires
        forall|i: int|
            0 <= i < g@.entrypoints.len() ==> (#[trigger] g@.entrypoints[i]) < g@.groups.len(),
    ensures
        r == entry_owner(g@, c),
{
    let mut i = g.entrypoints.len();
    proof {
        assert(i as int == g@.entrypoints.len());
    }
    while i > 0
        invariant
            i <= g@.entrypoints.len(),
            forall|i2: int|
                0 <= i2 < g@.entrypoints.len() ==> (#[trigger] g@.entrypoints[i2])
                    < g@.groups.len(),
            entry_owner(g@, c) == entry_owner_from(g@, c, i as int),
        decreases i,
    {
        let ep = g.entrypoints[i - 1];
        match g.groups[ep].entry_chunk {
            Some(e) => {
                if e == c {
                    return Some(ep);
                }
            },
            None => {},
        }
        i = i - 1;
    }
    None
}

/// An entry chunk has an owner.
proof fn lemma_entry_owner_some(g: GraphV, c: usize, i: int)
    requires
        0 <= i <= g.entrypoints.len(),
        exists|w: int|
            0 <= w < i && g.groups[#[trigger] g.entrypoints[w] as int].entry_chunk == Some(c),
    ensures
        entry_owner_from(g, c, i) is Some,
    decreases i,
{
    if i > 0 {
        if g.groups[g.entrypoints[i - 1] as int].entry_chunk != Some(c) {
            let w = choose|w: int|
                0 <= w < i && g.groups[#[trigger] g.entrypoints[w] as int].entry_chunk == Some(c);
            assert(w < i - 1);
            lemma_entry_owner_some(g, c, i - 1);
        }
    }
}

/// An owner is an entrypoint pointing at `c`.
proof fn lemma_entry_owner_props(g: GraphV, c: usize, i: int)
    requires
        0 <= i <= g.entrypoints.len(),
    ensures
        entry_owner_from(g, c, i) is Some ==> g.entrypoints.contains(entry_owner_from(g, c, i)->0)
            && g.groups[entry_owner_from(g, c, i)->0 as int].entry_chunk == Some(c),
    decreases i,
{
    if i > 0 {
        if g.groups[g.entrypoints[i - 1] as int].entry_chunk == Some(c) {
            assert(g.entrypoints[i - 1] == g.entrypoints[i - 1]);
        } else {
            lemma_entry_owner_props(g, c, i - 1);
        }
    }
}

/// A hit names an entry chunk: witness extraction for `first_hit_from`.
proof fn lemma_first_hit_witness(g: GraphV, u: usize, j: int)
    requires
        j >= 0,
    ensures
        first_hit_from(g, u, j) is Some ==> exists|j2: int|
            j <= j2 < g.modules[u as int].edges.len() && #[trigger] edge_hits_entry(g, u, j2)
                && chunk_of(g, g.modules[u as int].edges[j2].target)->0 == first_hit_from(g, u, j)->0,
    decreases g.modules[u as int].edges.len() - j,
{
    if j < g.modules[u as int].edges.len() && !edge_hits_entry(g, u, j) {
        lemma_first_hit_witness(g, u, j + 1);
    }
}

/// If no edge at or after `j` hits, the scan misses.
proof fn lemma_first_hit_none(g: GraphV, u: usize, j: int)
    requires
        j >= 0,
        forall|j2: int|
            j <= j2 < g.modules[u as int].edges.len() ==> !#[trigger] edge_hits_entry(g, u, j2),
    ensures
        first_hit_from(g, u, j) is None,
    decreases g.modules[u as int].edges.len() - j,
{
    if j < g.modules[u as int].edges.len() {
        lemma_first_hit_none(g, u, j + 1);
    }
}

/// Structure of the dirty list: ascending dirty entry chunks, complete.
proof fn lemma_dirty_list_facts(g: GraphV, k: int)
    requires
        0 <= k <= g.chunks.len(),
        g.chunks.len() <= usize::MAX,
    ensures
        ({
            let l = dirty_list_prefix(g, k);
            &&& l.len() <= k
            &&& forall|i: int|
                0 <= i < l.len() ==> ((#[trigger] l[i]) as int) < k && chunk_dirty(g, l[i])
                    && is_entry_chunk(g, l[i])
            &&& forall|i1: int, i2: int| 0 <= i1 < i2 < l.len() ==> l[i1] < l[i2]
            &&& forall|c: int|
                0 <= c < k && chunk_dirty(g, c as usize) ==> l.contains(#[trigger] (c as usize))
        }),
    decreases k,
{
    if k > 0 {
        lemma_dirty_list_facts(g, k - 1);
        let l = dirty_list_prefix(g, k);
        let lp = dirty_list_prefix(g, k - 1);
        if chunk_dirty(g, (k - 1) as usize) {
            let ec = (k - 1) as usize;
            assert(is_entry_chunk(g, ec)) by {
                let (x, k2) = choose|x: int, k2: int|
                    0 <= x < g.chunks.len() && !is_entry_chunk(g, x as usize) && 0 <= k2
                        < g.chunks[x].modules.len() && module_hit(
                        g,
                        #[trigger] g.chunks[x].modules[k2],
                    ) == Some(ec);
                lemma_first_hit_witness(g, g.chunks[x].modules[k2], 0);
            }
            assert(l[l.len() - 1] == ec);
        }
        assert forall|c: int|
            0 <= c < k && chunk_dirty(g, c as usize) implies l.contains(#[trigger] (c as usize)) by {
            if c < k - 1 {
                assert(lp.contains((c as usize)));
                let w = choose|w: int| 0 <= w < lp.len() && lp[w] == c as usize;
                assert(l[w] == c as usize);
            }
        }
    }
}

/// What fixing `k` dirty chunks preserves and creates.
#[verifier::rlimit(100)]
#[verifier::spinoff_prover]
proof fn lemma_apply_guard_facts(g: GraphV, list: Seq<usize>, k: int)
    requires
        0 <= k <= list.len(),
        wf(g),
        g.chunks.len() + k <= usize::MAX,
        forall|i: int|
            0 <= i < list.len() ==> ((#[trigger] list[i]) as int) < g.chunks.len()
                && is_entry_chunk(g, list[i]),
        forall|i1: int, i2: int| 0 <= i1 < i2 < list.len() ==> list[i1] < list[i2],
    ensures
        ({
            let gk = spec_apply_entry_guard(g, list, k);
            &&& gk.modules == g.modules
            &&& gk.entrypoints == g.entrypoints
            &&& gk.groups.len() == g.groups.len()
            &&& gk.chunks.len() == g.chunks.len() + k
            &&& gk.added_chunks.len() == g.added_chunks.len() + k
            &&& forall|j: int|
                0 <= j < g.groups.len() ==> (#[trigger] gk.groups[j]).entry_chunk == g.groups[j].entry_chunk
                    && gk.groups[j].initial == g.groups[j].initial
            &&& forall|j: int, y: usize|
                0 <= j < g.groups.len() && g.groups[j].chunks.contains(y) ==> (
                #[trigger] gk.groups[j].chunks.contains(y))
            &&& forall|c: int|
                0 <= c < g.chunks.len() ==> (#[trigger] gk.chunks[c]).groups == g.chunks[c].groups
                    && (if list.subrange(0, k).contains(c as usize) {
                    gk.chunks[c].modules == Seq::<usize>::empty() && gk.chunks[c].entry_modules
                        == Seq::<(usize, usize)>::empty()
                } else {
                    gk.chunks[c].modules == g.chunks[c].modules && gk.chunks[c].entry_modules
                        == g.chunks[c].entry_modules
                })
            &&& forall|i: int|
                0 <= i < k ==> (#[trigger] gk.chunks[g.chunks.len() + i]).modules
                    == g.chunks[list[i] as int].modules && gk.chunks[g.chunks.len() + i].groups
                    == g.chunks[list[i] as int].groups
            &&& chunk_modules_wf(gk)
            &&& forall|m: usize|
                #[trigger] chunk_of(g, m) is Some && list.subrange(0, k).contains(
                    chunk_of(g, m)->0,
                ) ==> chunk_of(gk, m) is Some && (chunk_of(gk, m)->0 as int) >= g.chunks.len()
            &&& forall|m: usize|
                !(#[trigger] chunk_of(g, m) is Some && list.subrange(0, k).contains(
                    chunk_of(g, m)->0,
                )) ==> chunk_of(gk, m) == chunk_of(g, m)
            &&& forall|x: usize| is_entry_chunk(gk, x) <==> is_entry_chunk(g, x)
        }),
    decreases k,
{
    if k <= 0 {
        assert(list.subrange(0, 0) =~= Seq::<usize>::empty());
        assert forall|x: usize| is_entry_chunk(g, x) <==> is_entry_chunk(g, x) by {}
    } else {
        lemma_apply_guard_facts(g, list, k - 1);
        let gp = spec_apply_entry_guard(g, list, k - 1);
        let gk = spec_apply_entry_guard(g, list, k);
        let c = list[k - 1];
        assert(((c as int) as usize) == c);
        let new_c = gp.chunks.len() as usize;
        let ms = gp.chunks[c as int].modules;
        assert(gk == entry_guard_step(gp, c));
        assert(list.subrange(0, k)[k - 1] == c);
        assert(list.subrange(0, k - 1).push(c) =~= list.subrange(0, k));
        assert(!list.subrange(0, k - 1).contains(c)) by {
            if list.subrange(0, k - 1).contains(c) {
                let w = choose|w: int|
                    0 <= w < k - 1 && (#[trigger] list.subrange(0, k - 1)[w]) == c;
                assert(list[w] == list[k - 1]);
            }
        }
        assert(ms == g.chunks[c as int].modules);
        // the split's group-table effects
        let owner = entry_owner(gp, c);
        let g1s = spec_add_chunk(gp);
        let g2s = if owner is Some && crate::graph::runtime_chunk_of(gp.groups[owner->0 as int])
            == Some(c) {
            GraphV {
                groups: g1s.groups.update(
                    owner->0 as int,
                    GroupV { runtime_chunk: Some(new_c), ..g1s.groups[owner->0 as int] },
                ),
                ..g1s
            }
        } else {
            g1s
        };
        if owner is Some {
            lemma_entry_owner_props(gp, c, gp.entrypoints.len() as int);
            let wi = choose|wi: int|
                0 <= wi < gp.entrypoints.len() && gp.entrypoints[wi] == owner->0;
            assert(g.entrypoints[wi] < g.groups.len());
            assert((owner->0 as int) < g.groups.len());
        }
        let src_groups = gp.chunks[c as int].groups;
        assert(src_groups == g.chunks[c as int].groups);
        assert forall|i: int|
            0 <= i < src_groups.len() implies (#[trigger] src_groups[i]) < g2s.groups.len() by {
            assert(g.chunks[c as int].groups[i] < g.groups.len());
        }
        assert(gk.groups == crate::graph::split_groups_prefix(
            g2s.groups,
            src_groups,
            src_groups.len() as int,
            c,
            new_c,
        ));
        crate::facade::lemma_split_groups_facts(
            g2s.groups,
            src_groups,
            src_groups.len() as int,
            c,
            new_c,
        );
        assert forall|j: int|
            0 <= j < gp.groups.len() implies (#[trigger] g2s.groups[j]).chunks == gp.groups[j].chunks
                && g2s.groups[j].entry_chunk == gp.groups[j].entry_chunk && g2s.groups[j].initial
                == gp.groups[j].initial by {}
        assert forall|j: int|
            0 <= j < g.groups.len() implies (#[trigger] gk.groups[j]).entry_chunk == g.groups[j].entry_chunk
                && gk.groups[j].initial == g.groups[j].initial by {
            assert(gk.groups[j].entry_chunk == g2s.groups[j].entry_chunk);
            assert(gk.groups[j].initial == g2s.groups[j].initial);
        }
        assert forall|j: int, y: usize|
            0 <= j < g.groups.len() && g.groups[j].chunks.contains(y) implies (
        #[trigger] gk.groups[j].chunks.contains(y)) by {
            assert(gp.groups[j].chunks.contains(y));
            assert(g2s.groups[j].chunks.contains(y));
        }
        // membership bookkeeping: the step moves the members of c to new_c
        assert forall|c2: int|
            0 <= c2 < g.chunks.len() implies (#[trigger] gk.chunks[c2]).groups
            == g.chunks[c2].groups && (if list.subrange(0, k).contains(c2 as usize) {
            gk.chunks[c2].modules == Seq::<usize>::empty() && gk.chunks[c2].entry_modules == Seq::<
                (usize, usize),
            >::empty()
        } else {
            gk.chunks[c2].modules == g.chunks[c2].modules && gk.chunks[c2].entry_modules
                == g.chunks[c2].entry_modules
        }) by {
            if c2 != c as int {
                if list.subrange(0, k).contains(c2 as usize) {
                    assert(list.subrange(0, k - 1).contains(c2 as usize)) by {
                        let w = choose|w: int|
                            0 <= w < k && (#[trigger] list.subrange(0, k)[w]) == c2 as usize;
                        assert(w != k - 1);
                        assert(list.subrange(0, k - 1)[w] == c2 as usize);
                    }
                } else {
                    assert(!list.subrange(0, k - 1).contains(c2 as usize));
                }
            }
        }
        // uniqueness of membership is preserved
        assert(chunk_modules_wf(gk)) by {
            assert forall|c1: int, k1: int, c2: int, k2: int|
                0 <= c1 < gk.chunks.len() && 0 <= k1 < gk.chunks[c1].modules.len() && 0 <= c2
                    < gk.chunks.len() && 0 <= k2 < gk.chunks[c2].modules.len() && #[trigger] gk.chunks[c1].modules[k1]
                    == #[trigger] gk.chunks[c2].modules[k2] implies c1 == c2 && k1 == k2 by {
                let d1 = if c1 == new_c as int { c as int } else { c1 };
                let d2 = if c2 == new_c as int { c as int } else { c2 };
                assert(gk.chunks[c1].modules[k1] == gp.chunks[d1].modules[k1]);
                assert(gk.chunks[c2].modules[k2] == gp.chunks[d2].modules[k2]);
            }
            assert forall|c1: int, k1: int|
                0 <= c1 < gk.chunks.len() && 0 <= k1 < gk.chunks[c1].modules.len() implies (
            #[trigger] gk.chunks[c1].modules[k1]) < gk.modules.len() by {
                let d1 = if c1 == new_c as int { c as int } else { c1 };
                assert(gk.chunks[c1].modules[k1] == gp.chunks[d1].modules[k1]);
            }
        }
        // placement
        assert forall|m: usize|
            #[trigger] chunk_of(g, m) is Some && list.subrange(0, k).contains(chunk_of(g, m)->0) implies chunk_of(
            gk,
            m,
        ) is Some && (chunk_of(gk, m)->0 as int) >= g.chunks.len() by {
            let hc = chunk_of(g, m)->0;
            if hc == c {
                crate::facade::lemma_chunk_of_from_props(g, m, 0);
                assert(gk.chunks[new_c as int].modules.contains(m));
                crate::graph::lemma_chunk_of_unique(gk, m, new_c);
            } else {
                assert(list.subrange(0, k - 1).contains(hc)) by {
                    let w = choose|w: int|
                        0 <= w < k && (#[trigger] list.subrange(0, k)[w]) == hc;
                    assert(w != k - 1);
                    assert(list.subrange(0, k - 1)[w] == hc);
                }
                let d = chunk_of(gp, m)->0;
                crate::facade::lemma_chunk_of_from_props(gp, m, 0);
                assert(gp.chunks[d as int].modules.contains(m));
                assert((d as int) < (new_c as int));
                assert(d != c) by {
                    if d == c {
                        crate::facade::lemma_chunk_of_from_props(g, m, 0);
                        assert(g.chunks[hc as int].modules.contains(m));
                        assert(gp.chunks[c as int].modules == g.chunks[c as int].modules);
                        let ka = choose|ka: int|
                            0 <= ka < g.chunks[hc as int].modules.len() && g.chunks[hc as int].modules[ka]
                                == m;
                        let kb = choose|kb: int|
                            0 <= kb < g.chunks[c as int].modules.len() && g.chunks[c as int].modules[kb]
                                == m;
                        assert(g.chunks[hc as int].modules[ka] == g.chunks[c as int].modules[kb]);
                    }
                }
                assert(gk.chunks[d as int].modules.contains(m));
                crate::graph::lemma_chunk_of_unique(gk, m, d);
            }
        }
        assert forall|m: usize|
            !(#[trigger] chunk_of(g, m) is Some && list.subrange(0, k).contains(chunk_of(g, m)->0)) implies chunk_of(
            gk,
            m,
        ) == chunk_of(g, m) by {
            assert(!(chunk_of(g, m) is Some && list.subrange(0, k - 1).contains(chunk_of(g, m)->0)))
                by {
                if chunk_of(g, m) is Some && list.subrange(0, k - 1).contains(chunk_of(g, m)->0) {
                    let w = choose|w: int|
                        0 <= w < k - 1 && (#[trigger] list.subrange(0, k - 1)[w]) == chunk_of(
                            g,
                            m,
                        )->0;
                    assert(list.subrange(0, k)[w] == chunk_of(g, m)->0);
                }
            }
            assert(chunk_of(gp, m) == chunk_of(g, m));
            match chunk_of(g, m) {
                Some(d) => {
                    assert(d != c) by {
                        if d == c {
                            assert(list.subrange(0, k).contains(c));
                        }
                    }
                    crate::facade::lemma_chunk_of_from_props(gp, m, 0);
                    assert(gp.chunks[d as int].modules.contains(m));
                    assert(gk.chunks[d as int].modules.contains(m));
                    crate::graph::lemma_chunk_of_unique(gk, m, d);
                },
                None => {
                    crate::graph::lemma_chunk_of_none(gp, m, 0);
                    assert forall|x: int|
                        0 <= x < gk.chunks.len() implies !(#[trigger] gk.chunks[x]).modules.contains(
                        m,
                    ) by {
                        if x == new_c as int {
                            assert(gp.chunks[c as int].modules.contains(m)
                                ==> gk.chunks[x].modules.contains(m));
                            if gk.chunks[x].modules.contains(m) {
                                assert(gp.chunks[c as int].modules.contains(m));
                            }
                        } else if x == c as int {
                        } else {
                            if gk.chunks[x].modules.contains(m) {
                                assert(gp.chunks[x].modules.contains(m));
                            }
                        }
                    }
                    crate::graph::lemma_chunk_of_none(gk, m, 0);
                },
            }
        }
        // entry-chunk set is unchanged
        assert forall|x: usize| is_entry_chunk(gk, x) <==> is_entry_chunk(g, x) by {
            if is_entry_chunk(gk, x) {
                let w = choose|w: int|
                    0 <= w < gk.entrypoints.len() && gk.groups[#[trigger] gk.entrypoints[w] as int].entry_chunk
                        == Some(x);
                assert(g.groups[g.entrypoints[w] as int].entry_chunk == Some(x));
            }
            if is_entry_chunk(g, x) {
                let w = choose|w: int|
                    0 <= w < g.entrypoints.len() && g.groups[#[trigger] g.entrypoints[w] as int].entry_chunk
                        == Some(x);
                assert(gk.groups[gk.entrypoints[w] as int].entry_chunk == Some(x));
            }
        }
    }
}

/// Entry export isolation (the guard pass).  Detection runs in parallel over
/// the immutable snapshot, accumulating the dirty entry chunks; each dirty
/// chunk is then fixed sequentially in ascending (canonical) order.
#[verifier::rlimit(100)]
#[verifier::spinoff_prover]
pub fn ensure_entry_exports(g: &mut Graph)
    requires
        wf(old(g)@),
    ensures
        final(g)@ == spec_ensure_entry_exports(old(g)@),
{
    let ghost g0 = g@;
    let hits = par_scan_dirty(g);
    let mut list: Vec<usize> = Vec::new();
    let nch = g.chunks.len();
    for c in 0..nch
        invariant
            g@ == g0,
            wf(g0),
            nch == g0.chunks.len(),
            forall|ec: usize| hits@.contains(ec) <==> chunk_dirty(g0, ec),
            list@ == dirty_list_prefix(g0, c as int),
    {
        if contains_usize(&hits, c) {
            list.push(c);
        }
        proof {
            assert(list@ =~= dirty_list_prefix(g0, c + 1));
        }
    }
    let ln = list.len();
    for i in 0..ln
        invariant
            ln == list@.len(),
            list@ == dirty_list(g0),
            wf(g0),
            g0.chunks.len() <= usize::MAX,
            g@ == spec_apply_entry_guard(g0, list@, i as int),
            g@.chunks.len() == g0.chunks.len() + i,
            g@.groups.len() == g0.groups.len(),
    {
        let _ncur = g.chunks.len();
        proof {
            lemma_dirty_list_facts(g0, g0.chunks.len() as int);
            lemma_apply_guard_facts(g0, list@, i as int);
        }
        let c = list[i];
        proof {
            assert((c as int) < g0.chunks.len());
            assert(is_entry_chunk(g0, c));
            assert(!list@.subrange(0, i as int).contains(c)) by {
                if list@.subrange(0, i as int).contains(c) {
                    let w = choose|w: int|
                        0 <= w < i && (#[trigger] list@.subrange(0, i as int)[w]) == c;
                    assert(list@[w] == list@[i as int]);
                }
            }
            assert(g@.chunks[c as int].groups == g0.chunks[c as int].groups);
            assert(g@.chunks[c as int].modules == g0.chunks[c as int].modules);
            assert forall|k3: int|
                0 <= k3 < g0.chunks[c as int].groups.len() implies (#[trigger] g0.chunks[c as int].groups[k3])
                < g0.groups.len() && g0.groups[g0.chunks[c as int].groups[k3] as int].chunks.contains(
                c,
            ) && g@.groups[g0.chunks[c as int].groups[k3] as int].chunks.contains(c) by {
                assert(g0.chunks[c as int].groups[k3] < g0.groups.len());
                assert(g0.groups[g0.chunks[c as int].groups[k3] as int].chunks.contains(c));
            }
            assert(is_entry_chunk(g@, c));
            assert(forall|i2: int|
                0 <= i2 < g@.entrypoints.len() ==> (#[trigger] g@.entrypoints[i2])
                    < g@.groups.len());
            lemma_entry_owner_some(g@, c, g@.entrypoints.len() as int);
        }
        let ms = copy_usize_vec(&g.chunks[c].modules);
        let owner = match entry_owner_exec(g, c) {
            Some(ep) => ep,
            None => unreached(),
        };
        proof {
            lemma_entry_owner_props(g@, c, g@.entrypoints.len() as int);
            let wi = choose|wi: int|
                0 <= wi < g@.entrypoints.len() && g@.entrypoints[wi] == owner;
            assert(g@.entrypoints[wi] < g@.groups.len());
            assert((owner as int) < g@.groups.len());
        }
        let ghost gpre = g@;
        let rt_is_c = match g.groups[owner].runtime_chunk {
            Some(r) => r == c,
            None => true,
        };
        proof {
            assert(rt_is_c == (crate::graph::runtime_chunk_of(g@.groups[owner as int]) == Some(c)));
        }
        let new_c = g.add_chunk();
        proof {
            assert(g@.chunks.len() == g0.chunks.len() + i + 1);
            assert(g@.chunks.len() == g.chunks@.len());
            assert(new_c < g.chunks@.len());
            assert((c as int) < g.chunks@.len());
            assert(g@.chunks[new_c as int] =~~= crate::graph::empty_chunk());
        }
        if rt_is_c {
            g.groups[owner].runtime_chunk = Some(new_c);
        }
        proof {
            assert(g@.chunks[c as int] == gpre.chunks[c as int]);
        }
        g.chunks[c].modules = Vec::new();
        proof {
            assert(g@.chunks[c as int].groups == gpre.chunks[c as int].groups);
        }
        g.chunks[c].entry_modules = Vec::new();
        proof {
            assert(g@.chunks[c as int].groups == gpre.chunks[c as int].groups);
        }
        let ms2 = copy_usize_vec(&ms);
        g.chunks[new_c].modules = ms2;
        proof {
            assert(g@.chunks[c as int].groups == gpre.chunks[c as int].groups);
            assert(g@.chunks[new_c as int].groups.len() == 0);
            assert(g@.chunks[new_c as int].modules == ms@);
        }
        let mut pairs: Vec<(usize, usize)> = Vec::new();
        let mlen = ms.len();
        for k2 in 0..mlen
            invariant
                mlen == ms@.len(),
                pairs@ == ms@.subrange(0, k2 as int).map_values(|m: usize| (m, owner)),
        {
            pairs.push((ms[k2], owner));
            proof {
                assert(pairs@ =~= ms@.subrange(0, k2 + 1).map_values(|m: usize| (m, owner)));
            }
        }
        proof {
            assert(ms@.subrange(0, ms@.len() as int) =~= ms@);
        }
        g.chunks[new_c].entry_modules = pairs;
        proof {
            assert(g@.chunks[new_c as int].groups.len() == 0);
            assert(g@.chunks[new_c as int].modules == ms@);
            assert(g@.chunks[new_c as int].entry_modules == pairs@);
            assert(g@.chunks[c as int].groups == g0.chunks[c as int].groups);
            assert forall|k3: int|
                0 <= k3 < g@.chunks[c as int].groups.len() implies (#[trigger] g@.chunks[c as int].groups[k3])
                < g@.groups.len() && g@.groups[g@.chunks[c as int].groups[k3] as int].chunks.contains(
                c,
            ) by {
                assert(g0.chunks[c as int].groups[k3] < g0.groups.len());
                assert(g0.groups[g0.chunks[c as int].groups[k3] as int].chunks.contains(c));
            }
        }
        proof {
            assert(g@.chunks[new_c as int].groups.len() == 0);
            let gi = spec_apply_entry_guard(g0, list@, i as int);
            assert(g@ =~~= entry_guard_premove(gi, c));
            assert(g@ == entry_guard_premove(gi, c));
            assert(new_c == gi.chunks.len() as usize);
        }
        g.split_chunk(c, new_c);
        let _nafter = g.chunks.len();
        proof {
            let gi = spec_apply_entry_guard(g0, list@, i as int);
            assert(g@ == spec_split_chunk(entry_guard_premove(gi, c), c, new_c));
            assert(g@ == spec_apply_entry_guard(g0, list@, i + 1));
            assert(g@.chunks.len() == g0.chunks.len() + i + 1);
            lemma_apply_guard_facts(g0, list@, i + 1);
        }
    }
}

/// Hypothesis for the isolation laws: no module residing in an entry chunk
/// has an active edge to a module residing in a different entry chunk.
pub open spec fn entry_isolated(g: GraphV) -> bool {
    forall|u: int, j: int|
        0 <= u < g.modules.len() && 0 <= j < g.modules[u].edges.len() && (
        #[trigger] g.modules[u].edges[j]).active && chunk_of(g, u as usize) is Some
            && is_entry_chunk(g, chunk_of(g, u as usize)->0) && chunk_of(
            g,
            g.modules[u].edges[j].target,
        ) is Some && is_entry_chunk(g, chunk_of(g, g.modules[u].edges[j].target)->0) ==> chunk_of(
            g,
            g.modules[u].edges[j].target,
        ) == chunk_of(g, u as usize)
}

/// Hypothesis for the isolation laws: each module's active edges reach
/// modules of at most one entry chunk.
pub open spec fn single_entry_target(g: GraphV) -> bool {
    forall|u: usize, j1: int, j2: int|
        (u as int) < g.modules.len() && 0 <= j1 < g.modules[u as int].edges.len() && 0 <= j2
            < g.modules[u as int].edges.len() && #[trigger] edge_hits_entry(g, u, j1)
            && #[trigger] edge_hits_entry(g, u, j2) ==> chunk_of(
            g,
            g.modules[u as int].edges[j1].target,
        ) == chunk_of(g, g.modules[u as int].edges[j2].target)
}

/// A hitting edge makes the module's scan hit.
proof fn lemma_hit_exists(g: GraphV, u: usize, j: int)
    requires
        0 <= j < g.modules[u as int].edges.len(),
        edge_hits_entry(g, u, j),
    ensures
        module_hit(g, u) is Some,
{
    lemma_hit_exists_from(g, u, 0, j);
}

/// Helper: a scan starting at or before a hitting edge hits.
proof fn lemma_hit_exists_from(g: GraphV, u: usize, from: int, j: int)
    requires
        0 <= from <= j < g.modules[u as int].edges.len(),
        edge_hits_entry(g, u, j),
    ensures
        first_hit_from(g, u, from) is Some,
    decreases j - from,
{
    if from < j && !edge_hits_entry(g, u, from) {
        lemma_hit_exists_from(g, u, from + 1, j);
    }
}

/// After the pass no entry chunk is dirty any more: no module required by a
/// module of a non-entry chunk resides in any entrypoint's entry chunk, and
/// re-running the detection finds nothing.
#[verifier::rlimit(100)]
#[verifier::spinoff_prover]
pub proof fn lemma_entry_exports_settled(g: GraphV)
    requires
        wf(g),
        g.chunks.len() + g.chunks.len() <= usize::MAX,
        entry_isolated(g),
        single_entry_target(g),
    ensures
        forall|ec: usize| !chunk_dirty(spec_ensure_entry_exports(g), ec),
{
    let list = dirty_list(g);
    let g1 = spec_ensure_entry_exports(g);
    lemma_dirty_list_facts(g, g.chunks.len() as int);
    lemma_apply_guard_facts(g, list, list.len() as int);
    assert(list.subrange(0, list.len() as int) =~= list);
    assert forall|ec: usize| !chunk_dirty(g1, ec) by {
        if chunk_dirty(g1, ec) {
            let (x, k) = choose|x: int, k: int|
                0 <= x < g1.chunks.len() && !is_entry_chunk(g1, x as usize) && 0 <= k
                    < g1.chunks[x].modules.len() && module_hit(
                    g1,
                    #[trigger] g1.chunks[x].modules[k],
                ) == Some(ec);
            let u = g1.chunks[x].modules[k];
            lemma_first_hit_witness(g1, u, 0);
            let j = choose|j: int|
                0 <= j < g1.modules[u as int].edges.len() && #[trigger] edge_hits_entry(g1, u, j)
                    && chunk_of(g1, g1.modules[u as int].edges[j].target)->0 == ec;
            let t = g1.modules[u as int].edges[j].target;
            assert(is_entry_chunk(g1, ec)) by {
                assert(chunk_of(g1, t)->0 == ec);
            }
            assert(is_entry_chunk(g, ec));
            let we = choose|we: int|
                0 <= we < g.entrypoints.len() && g.groups[#[trigger] g.entrypoints[we] as int].entry_chunk
                    == Some(ec);
            assert((ec as int) < g.chunks.len());
            assert(chunk_of(g1, t) == Some(ec));
            if chunk_of(g, t) is Some && list.contains(chunk_of(g, t)->0) {
                assert((chunk_of(g1, t)->0 as int) >= g.chunks.len());
                assert(false);
            }
            assert(chunk_of(g, t) == Some(ec));
            assert(!list.contains(ec));
            assert(u < g.modules.len()) by {
                assert(g1.chunks[x].modules[k] < g1.modules.len());
            }
            assert(g1.modules[u as int] == g.modules[u as int]);
            assert(edge_hits_entry(g, u, j)) by {
                assert(g.modules[u as int].edges[j].active);
                assert(g.modules[u as int].edges[j].target == t);
            }
            if x < g.chunks.len() {
                assert(!is_entry_chunk(g, x as usize));
                assert(!list.contains(x as usize)) by {
                    if list.contains(x as usize) {
                        assert(g1.chunks[x].modules == Seq::<usize>::empty());
                    }
                }
                assert(g1.chunks[x].modules == g.chunks[x].modules);
                assert(g.chunks[x].modules[k] == u);
                lemma_hit_exists(g, u, j);
                lemma_first_hit_witness(g, u, 0);
                let j0 = choose|j0: int|
                    0 <= j0 < g.modules[u as int].edges.len() && #[trigger] edge_hits_entry(
                        g,
                        u,
                        j0,
                    ) && chunk_of(g, g.modules[u as int].edges[j0].target)->0 == module_hit(
                        g,
                        u,
                    )->0;
                assert(chunk_of(g, g.modules[u as int].edges[j0].target) == chunk_of(
                    g,
                    g.modules[u as int].edges[j].target,
                ));
                assert(module_hit(g, u) == Some(ec)) by {
                    assert(chunk_of(g, g.modules[u as int].edges[j0].target) is Some);
                }
                assert(chunk_dirty(g, ec)) by {
                    assert(0 <= x < g.chunks.len() && !is_entry_chunk(g, x as usize) && 0 <= k
                        < g.chunks[x].modules.len() && module_hit(g, g.chunks[x].modules[k])
                        == Some(ec));
                }
                assert(((ec as int) as usize) == ec);
                assert(list.contains((((ec as int)) as usize)));
                assert(false);
            } else {
                let idx = x - g.chunks.len();
                assert(g1.chunks.len() == g.chunks.len() + list.len());
                assert(0 <= idx < list.len());
                assert(x == g.chunks.len() + idx);
                assert(g1.chunks[g.chunks.len() + idx].modules == g.chunks[list[idx] as int].modules);
                assert(g1.chunks[x].modules == g.chunks[list[idx] as int].modules);
                let d = list[idx];
                assert(is_entry_chunk(g, d));
                assert(g.chunks[d as int].modules.contains(u)) by {
                    assert(g.chunks[d as int].modules[k] == u);
                }
                crate::graph::lemma_chunk_of_unique(g, u, d);
                assert(chunk_of(g, u) == Some(d));
                assert(chunk_of(g, t) == chunk_of(g, u)) by {
                    assert(g.modules[u as int].edges[j].active);
                    assert(g.modules[u as int].edges[j].target == t);
                }
                assert(ec == d);
                assert(list.contains(ec)) by {
                    assert(list[idx] == ec);
                }
                assert(false);
            }
        }
    }
}

/// The literal reading of a clean detection: no module residing in an
/// entrypoint's entry chunk is required by any module residing in a
/// non-entry chunk.
pub proof fn lemma_no_entry_chunk_required(g: GraphV)
    requires
        forall|ec: usize| !chunk_dirty(g, ec),
    ensures
        forall|x: int, k: int, j: int|
            0 <= x < g.chunks.len() && !is_entry_chunk(g, x as usize) && 0 <= k < g.chunks[x].modules.len()
                && 0 <= j < g.modules[g.chunks[x].modules[k] as int].edges.len() && (
            #[trigger] g.modules[g.chunks[x].modules[k] as int].edges[j]).active && chunk_of(
                g,
                g.modules[g.chunks[x].modules[k] as int].edges[j].target,
            ) is Some ==> !is_entry_chunk(
                g,
                chunk_of(g, g.modules[g.chunks[x].modules[k] as int].edges[j].target)->0,
            ),
{
    assert forall|x: int, k: int, j: int|
        0 <= x < g.chunks.len() && !is_entry_chunk(g, x as usize) && 0 <= k < g.chunks[x].modules.len()
            && 0 <= j < g.modules[g.chunks[x].modules[k] as int].edges.len() && (
        #[trigger] g.modules[g.chunks[x].modules[k] as int].edges[j]).active && chunk_of(
            g,
            g.modules[g.chunks[x].modules[k] as int].edges[j].target,
        ) is Some implies !is_entry_chunk(
        g,
        chunk_of(g, g.modules[g.chunks[x].modules[k] as int].edges[j].target)->0,
    ) by {
        let u = g.chunks[x].modules[k];
        let t = g.modules[u as int].edges[j].target;
        if is_entry_chunk(g, chunk_of(g, t)->0) {
            assert(edge_hits_entry(g, u, j));
            lemma_hit_exists(g, u, j);
            let e = module_hit(g, u)->0;
            assert(chunk_dirty(g, e)) by {
                assert(module_hit(g, u) == Some(e));
            }
        }
    }
}

} // verus!
