use vstd::prelude::*;
use crate::graph::{
    chunk_of, chunk_of_from, is_entry_chunk, chunk_modules_wf, membership_wf, entrypoints_wf,
    GraphV,
};
use crate::entry_guard::{edge_hits_entry, first_hit_from, module_hit, chunk_dirty};
use crate::runtime_split::{
    spec_optimize_runtime_chunks, runtime_split_list, runtime_split_candidate,
    in_initial_multi_group,
};
use crate::facade::{
    module_dyn_imports, module_dyn_imports_ns, is_dyn_target, is_namespace_target, member_refs,
    chunk_refs, cross_chunk_referenced, has_cross_sibling, considered, effective_chunk, fac_wf,
    targets_placed, bucketed, needs_facade, facade_queue, facade_queue_prefix, spec_apply_facades,
    spec_facade_mapping, lemma_apply_facade_facts, lemma_facade_queue_facts,
    lemma_chunk_of_from_props,
};

verus! {

// ----------------------------------------------------------------------------
// The fixed-point law: running facade building on its own output queues no
// further split.  The core is a congruence: the pass only adds module-less
// chunks and group memberships, and every classification ingredient is
// blind to both.
// ----------------------------------------------------------------------------

/// `g1` is `g` with some module-less chunks added and group memberships
/// extended: the module table, the entrypoints, every old chunk's members
/// and every group's entry pointer are untouched.
pub open spec fn extends_with_empty_chunks(g: GraphV, g1: GraphV) -> bool {
    &&& g1.modules == g.modules
    &&& g1.entrypoints == g.entrypoints
    &&& g1.groups.len() == g.groups.len()
    &&& g1.chunks.len() >= g.chunks.len()
    &&& forall|c: int|
        0 <= c < g.chunks.len() ==> (#[trigger] g1.chunks[c]).modules == g.chunks[c].modules
    &&& forall|c: int|
        g.chunks.len() <= c < g1.chunks.len() ==> (#[trigger] g1.chunks[c]).modules == Seq::<
            usize,
        >::empty()
    &&& forall|j: int|
        0 <= j < g.groups.len() ==> (#[trigger] g1.groups[j]).entry_chunk
            == g.groups[j].entry_chunk
}

/// Module placement is blind to added empty chunks.
pub proof fn lemma_extend_chunk_of(g: GraphV, g1: GraphV, m: usize, i: int)
    requires
        extends_with_empty_chunks(g, g1),
        0 <= i,
    ensures
        chunk_of_from(g1, m, i) == chunk_of_from(g, m, i),
    decreases g1.chunks.len() - i,
{
    if i < g.chunks.len() {
        if !g1.chunks[i].modules.contains(m) {
            lemma_extend_chunk_of(g, g1, m, i + 1);
        }
    } else if i < g1.chunks.len() {
        assert(!g1.chunks[i].modules.contains(m));
        lemma_extend_chunk_of(g, g1, m, i + 1);
    }
}

/// The entry-chunk set is blind to added empty chunks.
pub proof fn lemma_extend_entry_set(g: GraphV, g1: GraphV)
    requires
        extends_with_empty_chunks(g, g1),
        entrypoints_wf(g),
    ensures
        forall|x: usize| #[trigger] is_entry_chunk(g1, x) <==> is_entry_chunk(g, x),
{
    assert forall|x: usize| #[trigger] is_entry_chunk(g1, x) <==> is_entry_chunk(g, x) by {
        if is_entry_chunk(g1, x) {
            let w = choose|w: int|
                0 <= w < g1.entrypoints.len() && g1.groups[#[trigger] g1.entrypoints[w] as int].entry_chunk
                    == Some(x);
            assert(g.entrypoints[w] < g.groups.len());
            assert(g.groups[g.entrypoints[w] as int].entry_chunk == Some(x));
        }
        if is_entry_chunk(g, x) {
            let w = choose|w: int|
                0 <= w < g.entrypoints.len() && g.groups[#[trigger] g.entrypoints[w] as int].entry_chunk
                    == Some(x);
            assert(g.entrypoints[w] < g.groups.len());
            assert(g1.groups[g1.entrypoints[w] as int].entry_chunk == Some(x));
        }
    }
}

/// Edge-level classification is blind to added empty chunks.
pub proof fn lemma_extend_edges(g: GraphV, g1: GraphV, concat: Seq<bool>, t: usize)
    requires
        extends_with_empty_chunks(g, g1),
    ensures
        is_dyn_target(g1, concat, t) == is_dyn_target(g, concat, t),
        is_namespace_target(g1, concat, t) == is_namespace_target(g, concat, t),
        forall|m: usize| #[trigger] member_refs(g1, m, t) == member_refs(g, m, t),
{
    assert forall|u: usize| #[trigger] module_dyn_imports(g1, u, t) == module_dyn_imports(
        g,
        u,
        t,
    ) by {
        assert(g1.modules[u as int] == g.modules[u as int] || g1.modules == g.modules);
    }
    assert forall|u: usize| #[trigger] module_dyn_imports_ns(g1, u, t) == module_dyn_imports_ns(
        g,
        u,
        t,
    ) by {
        assert(g1.modules[u as int] == g.modules[u as int] || g1.modules == g.modules);
    }
    assert(is_dyn_target(g1, concat, t) == is_dyn_target(g, concat, t)) by {
        if is_dyn_target(g1, concat, t) {
            let u = choose|u: int|
                0 <= u < g1.modules.len() && concat[u] && module_dyn_imports(
                    g1,
                    #[trigger] (u as usize),
                    t,
                );
            assert(module_dyn_imports(g, (u as usize), t));
        }
        if is_dyn_target(g, concat, t) {
            let u = choose|u: int|
                0 <= u < g.modules.len() && concat[u] && module_dyn_imports(
                    g,
                    #[trigger] (u as usize),
                    t,
                );
            assert(module_dyn_imports(g1, (u as usize), t));
        }
    }
    assert(is_namespace_target(g1, concat, t) == is_namespace_target(g, concat, t)) by {
        if is_namespace_target(g1, concat, t) {
            let u = choose|u: int|
                0 <= u < g1.modules.len() && concat[u] && module_dyn_imports_ns(
                    g1,
                    #[trigger] (u as usize),
                    t,
                );
            assert(module_dyn_imports_ns(g, (u as usize), t));
        }
        if is_namespace_target(g, concat, t) {
            let u = choose|u: int|
                0 <= u < g.modules.len() && concat[u] && module_dyn_imports_ns(
                    g,
                    #[trigger] (u as usize),
                    t,
                );
            assert(module_dyn_imports_ns(g1, (u as usize), t));
        }
    }
    assert forall|m: usize| #[trigger] member_refs(g1, m, t) == member_refs(g, m, t) by {
        assert(g1.modules[m as int] == g.modules[m as int] || g1.modules == g.modules);
    }
}

/// Cross-chunk reference is blind to added empty chunks.
pub proof fn lemma_extend_cross_refs(g: GraphV, g1: GraphV, t: usize)
    requires
        extends_with_empty_chunks(g, g1),
    ensures
        cross_chunk_referenced(g1, t) == cross_chunk_referenced(g, t),
{
    lemma_extend_edges(g, g1, Seq::empty(), t);
    assert forall|c: int|
        0 <= c < g1.chunks.len() implies #[trigger] chunk_refs(g1, c, t) == (c < g.chunks.len()
        && chunk_refs(g, c, t)) by {
        if c < g.chunks.len() {
            if chunk_refs(g1, c, t) {
                let k = choose|k: int|
                    0 <= k < g1.chunks[c].modules.len() && member_refs(
                        g1,
                        #[trigger] g1.chunks[c].modules[k],
                        t,
                    );
                assert(member_refs(g, g.chunks[c].modules[k], t));
            }
            if chunk_refs(g, c, t) {
                let k = choose|k: int|
                    0 <= k < g.chunks[c].modules.len() && member_refs(
                        g,
                        #[trigger] g.chunks[c].modules[k],
                        t,
                    );
                assert(member_refs(g1, g1.chunks[c].modules[k], t));
            }
        } else {
            if chunk_refs(g1, c, t) {
                let k = choose|k: int|
                    0 <= k < g1.chunks[c].modules.len() && member_refs(
                        g1,
                        #[trigger] g1.chunks[c].modules[k],
                        t,
                    );
            }
        }
    }
    lemma_extend_chunk_of(g, g1, t, 0);
    if cross_chunk_referenced(g1, t) {
        let c = choose|c: int|
            0 <= c < g1.chunks.len() && #[trigger] chunk_refs(g1, c, t) && chunk_of(g1, t) is Some
                && chunk_of(g1, t) != Some(c as usize);
        assert(chunk_refs(g, c, t));
    }
    if cross_chunk_referenced(g, t) {
        let c = choose|c: int|
            0 <= c < g.chunks.len() && #[trigger] chunk_refs(g, c, t) && chunk_of(g, t) is Some
                && chunk_of(g, t) != Some(c as usize);
        assert(chunk_refs(g1, c, t));
    }
}

/// The whole per-target classification is blind to added empty chunks, as
/// long as the target's effective chunk is an old chunk.
pub proof fn lemma_extend_needs_facade(
    g: GraphV,
    g1: GraphV,
    concat: Seq<bool>,
    fac: Seq<Option<usize>>,
    fac1: Seq<Option<usize>>,
    t: usize,
)
    requires
        extends_with_empty_chunks(g, g1),
        entrypoints_wf(g),
        (t as int) < g.modules.len(),
        fac.len() == g.modules.len(),
        fac1.len() == g.modules.len(),
        fac1[t as int] == fac[t as int],
        forall|m: int|
            0 <= m < fac.len() && (#[trigger] fac1[m]) is Some ==> fac[m] == fac1[m] || (fac1[m]->0
                as int) >= g.chunks.len(),
        forall|m: int|
            0 <= m < fac.len() && (#[trigger] fac1[m]) is None ==> fac[m] is None,
        fac[t as int] is Some ==> (fac[t as int]->0 as int) < g.chunks.len(),
        g.chunks.len() <= usize::MAX,
        !needs_facade(g, concat, fac, t),
    ensures
        !needs_facade(g1, concat, fac1, t),
{
    lemma_extend_edges(g, g1, concat, t);
    lemma_extend_chunk_of(g, g1, t, 0);
    lemma_extend_entry_set(g, g1);
    if needs_facade(g1, concat, fac1, t) {
        assert(considered(g, concat, t));
        assert(effective_chunk(g1, fac1, t) == effective_chunk(g, fac, t));
        let c = effective_chunk(g, fac, t)->0;
        // The chunk is an old one: its size and entry status agree.
        assert((c as int) < g.chunks.len()) by {
            if !(fac[t as int] is Some) {
                lemma_chunk_of_from_props(g, t, 0);
            }
        }
        if (c as int) < g.chunks.len() {
            assert(g1.chunks[c as int].modules == g.chunks[c as int].modules);
            assert(g.chunks[c as int].modules.len() > 1);
            assert(!is_entry_chunk(g, c));
            if is_namespace_target(g, concat, t) {
                assert(has_cross_sibling(g1, c as int, t));
                let k = choose|k: int|
                    0 <= k < g1.chunks[c as int].modules.len() && g1.chunks[c as int].modules[k]
                        != t && cross_chunk_referenced(
                        g1,
                        #[trigger] g1.chunks[c as int].modules[k],
                    );
                lemma_extend_cross_refs(g, g1, g.chunks[c as int].modules[k]);
                assert(cross_chunk_referenced(g, g.chunks[c as int].modules[k]));
                assert(has_cross_sibling(g, c as int, t));
                assert(needs_facade(g, concat, fac, t));
            } else {
                let t2 = choose|t2: int|
                    0 <= t2 < g1.modules.len() && t2 != t as int && bucketed(
                        g1,
                        concat,
                        fac1,
                        #[trigger] (t2 as usize),
                        c,
                    );
                lemma_extend_bucketed(g, g1, concat, fac, fac1, t2 as usize, c);
                assert(bucketed(g, concat, fac, (t2 as usize), c));
                assert(needs_facade(g, concat, fac, t));
            }
        } else {
            // A fresh chunk owns no modules, so it can never be oversized.
            assert(g1.chunks[c as int].modules.len() == 0);
        }
    }
}

/// A target bucketed in the extended graph was bucketed before, on the same
/// old chunk.
proof fn lemma_extend_bucketed(
    g: GraphV,
    g1: GraphV,
    concat: Seq<bool>,
    fac: Seq<Option<usize>>,
    fac1: Seq<Option<usize>>,
    t2: usize,
    c: usize,
)
    requires
        extends_with_empty_chunks(g, g1),
        entrypoints_wf(g),
        (t2 as int) < g.modules.len(),
        fac.len() == g.modules.len(),
        fac1.len() == g.modules.len(),
        forall|m: int|
            0 <= m < fac.len() && (#[trigger] fac1[m]) is Some ==> fac[m] == fac1[m] || (fac1[m]->0
                as int) >= g.chunks.len(),
        forall|m: int|
            0 <= m < fac.len() && (#[trigger] fac1[m]) is None ==> fac[m] is None,
        (c as int) < g.chunks.len(),
        bucketed(g1, concat, fac1, t2, c),
    ensures
        bucketed(g, concat, fac, t2, c),
{
    lemma_extend_edges(g, g1, concat, t2);
    lemma_extend_chunk_of(g, g1, t2, 0);
    lemma_extend_entry_set(g, g1);
    assert(effective_chunk(g1, fac1, t2) == Some(c));
    if fac1[t2 as int] is Some {
        assert(fac1[t2 as int]->0 == c);
        assert(fac[t2 as int] == fac1[t2 as int]);
        assert(effective_chunk(g, fac, t2) == Some(c));
    } else {
        assert(fac[t2 as int] is None);
        assert(effective_chunk(g, fac, t2) == Some(c));
    }
    assert(g1.chunks[c as int].modules == g.chunks[c as int].modules);
}

/// Facade building is a fixed point: running it again on its own output,
/// with the mapping it produced, queues no further split.
pub proof fn lemma_facade_splits_settled(g: GraphV, concat: Seq<bool>, fac: Seq<Option<usize>>)
    requires
        chunk_modules_wf(g),
        membership_wf(g),
        entrypoints_wf(g),
        fac_wf(g, fac),
        targets_placed(g, concat, fac),
        concat.len() == g.modules.len(),
        g.modules.len() <= usize::MAX,
        g.chunks.len() + g.modules.len() <= usize::MAX,
    ensures
        ({
            let q = facade_queue(g, concat, fac);
            let g1 = spec_apply_facades(g, q, q.len() as int);
            let fac1 = Seq::new(fac.len(), |m: int| spec_facade_mapping(g, concat, fac, m));
            facade_queue(g1, concat, fac1).len() == 0
        }),
{
    let q = facade_queue(g, concat, fac);
    let g1 = spec_apply_facades(g, q, q.len() as int);
    let fac1 = Seq::new(fac.len(), |m: int| spec_facade_mapping(g, concat, fac, m));
    lemma_facade_queue_facts(g, concat, fac, g.modules.len() as int);
    lemma_apply_facade_facts(g, q, q.len() as int);
    assert forall|c: int|
        g.chunks.len() <= c < g1.chunks.len() implies (#[trigger] g1.chunks[c]).modules == Seq::<
        usize,
    >::empty() by {
        let i = c - g.chunks.len();
        assert(g1.chunks[g.chunks.len() + i].modules == Seq::<usize>::empty());
    }
    assert(extends_with_empty_chunks(g, g1));
    assert forall|t: int|
        0 <= t < g.modules.len() implies !needs_facade(g1, concat, fac1, #[trigger] (t as usize)) by {
        if needs_facade(g, concat, fac, t as usize) {
            // A split target now resolves to its empty facade chunk.
            let r = facade_queue_prefix(g, concat, fac, t).len() as int;
            assert(fac1[t] == Some((g.chunks.len() + r) as usize));
            assert(q[r] == (((t as usize), effective_chunk(g, fac, (t as usize))->0)));
            assert(g1.chunks[g.chunks.len() + r].modules == Seq::<usize>::empty());
            if needs_facade(g1, concat, fac1, t as usize) {
                assert(effective_chunk(g1, fac1, t as usize) == fac1[t]);
                assert(g1.chunks[fac1[t]->0 as int].modules.len() == 0);
            }
        } else {
            assert(fac1[t] == fac[t]);
            assert forall|m: int|
                0 <= m < fac.len() && (#[trigger] fac1[m]) is Some implies fac[m] == fac1[m] || (
            fac1[m]->0 as int) >= g.chunks.len() by {
                if fac[m] != fac1[m] {
                    assert(needs_facade(g, concat, fac, m as usize));
                }
            }
            assert forall|m: int|
                0 <= m < fac.len() && (#[trigger] fac1[m]) is None implies fac[m] is None by {
                if fac1[m] is None {
                    assert(!(0 <= m < g.modules.len() && needs_facade(g, concat, fac, m as usize))
                        || fac[m] is None);
                    if !needs_facade(g, concat, fac, m as usize) {
                        assert(fac1[m] == fac[m]);
                    }
                }
            }
            lemma_extend_needs_facade(g, g1, concat, fac, fac1, t as usize);
        }
    }
    lemma_queue_empty(g1, concat, fac1, g1.modules.len() as int);
}

/// A classification that queues nothing yields an empty queue.
proof fn lemma_queue_empty(g: GraphV, concat: Seq<bool>, fac: Seq<Option<usize>>, k: int)
    requires
        0 <= k,
        forall|t: int| 0 <= t < k ==> !needs_facade(g, concat, fac, #[trigger] (t as usize)),
    ensures
        facade_queue_prefix(g, concat, fac, k).len() == 0,
    decreases k,
{
    if k > 0 {
        lemma_queue_empty(g, concat, fac, k - 1);
    }
}

/// A module's first entry-chunk hit is blind to added empty chunks.
proof fn lemma_extend_first_hit(g: GraphV, g1: GraphV, u: usize, j: int)
    requires
        extends_with_empty_chunks(g, g1),
        entrypoints_wf(g),
        0 <= j,
    ensures
        first_hit_from(g1, u, j) == first_hit_from(g, u, j),
    decreases g.modules[u as int].edges.len() - j,
{
    assert(g1.modules[u as int] == g.modules[u as int]);
    lemma_extend_entry_set(g, g1);
    if j < g.modules[u as int].edges.len() {
        let t = g.modules[u as int].edges[j].target;
        lemma_extend_chunk_of(g, g1, t, 0);
        assert(edge_hits_entry(g1, u, j) == edge_hits_entry(g, u, j));
        if !edge_hits_entry(g, u, j) {
            lemma_extend_first_hit(g, g1, u, j + 1);
        }
    }
}

/// A pass that only adds module-less chunks cannot dirty an entry chunk:
/// once detection finds nothing, it keeps finding nothing through the later
/// passes.
pub proof fn lemma_dirty_preserved(g: GraphV, g1: GraphV)
    requires
        extends_with_empty_chunks(g, g1),
        entrypoints_wf(g),
        forall|ec: usize| !chunk_dirty(g, ec),
    ensures
        forall|ec: usize| !chunk_dirty(g1, ec),
{
    assert forall|ec: usize| !chunk_dirty(g1, ec) by {
        if chunk_dirty(g1, ec) {
            let (x, k) = choose|x: int, k: int|
                0 <= x < g1.chunks.len() && !is_entry_chunk(g1, x as usize) && 0 <= k
                    < g1.chunks[x].modules.len() && module_hit(
                    g1,
                    #[trigger] g1.chunks[x].modules[k],
                ) == Some(ec);
            assert((x as int) < g.chunks.len()) by {
                if x >= g.chunks.len() {
                    assert(g1.chunks[x].modules.len() == 0);
                }
            }
            let u = g1.chunks[x].modules[k];
            lemma_extend_first_hit(g, g1, u, 0);
            lemma_extend_entry_set(g, g1);
            assert(g.chunks[x].modules[k] == u);
            assert(module_hit(g, u) == Some(ec));
            assert(chunk_dirty(g, ec));
        }
    }
}

/// Runtime chunk isolation only adds module-less chunks: the module table,
/// the old chunks' members and every entry pointer stay put.
pub proof fn lemma_runtime_split_extends(g: GraphV)
    requires
        membership_wf(g),
        entrypoints_wf(g),
        g.groups.len() <= usize::MAX,
        g.chunks.len() + g.entrypoints.len() <= usize::MAX,
    ensures
        extends_with_empty_chunks(g, spec_optimize_runtime_chunks(g)),
{
    let list = runtime_split_list(g);
    let g1 = spec_optimize_runtime_chunks(g);
    crate::runtime_split::lemma_runtime_facts_public(g);
    assert forall|c: int|
        g.chunks.len() <= c < g1.chunks.len() implies (#[trigger] g1.chunks[c]).modules == Seq::<
        usize,
    >::empty() by {}
    assert forall|c: int|
        0 <= c < g.chunks.len() implies (#[trigger] g1.chunks[c]).modules == g.chunks[c].modules by {}
}

/// Facade building only adds module-less chunks.
pub proof fn lemma_facades_extend(g: GraphV, concat: Seq<bool>, fac: Seq<Option<usize>>)
    requires
        membership_wf(g),
        fac_wf(g, fac),
        g.modules.len() <= usize::MAX,
        g.chunks.len() + g.modules.len() <= usize::MAX,
    ensures
        ({
            let q = facade_queue(g, concat, fac);
            extends_with_empty_chunks(g, spec_apply_facades(g, q, q.len() as int))
        }),
{
    let q = facade_queue(g, concat, fac);
    let g1 = spec_apply_facades(g, q, q.len() as int);
    lemma_facade_queue_facts(g, concat, fac, g.modules.len() as int);
    lemma_apply_facade_facts(g, q, q.len() as int);
    assert forall|c: int|
        g.chunks.len() <= c < g1.chunks.len() implies (#[trigger] g1.chunks[c]).modules == Seq::<
        usize,
    >::empty() by {
        let i = c - g.chunks.len();
        assert(g1.chunks[g.chunks.len() + i].modules == Seq::<usize>::empty());
    }
}

/// Runtime separation survives facade building: a facade joins a group only
/// beside its source chunk, which is never an entry chunk, so no entrypoint
/// whose runtime chunk was split off regains an initial multi-chunk group
/// around its entry chunk.
pub proof fn lemma_runtime_separation_preserved(
    g: GraphV,
    concat: Seq<bool>,
    fac: Seq<Option<usize>>,
)
    requires
        membership_wf(g),
        entrypoints_wf(g),
        fac_wf(g, fac),
        g.modules.len() <= usize::MAX,
        g.chunks.len() + g.modules.len() <= usize::MAX,
        forall|i: int|
            0 <= i < g.entrypoints.len() ==> !runtime_split_candidate(
                g,
                #[trigger] g.entrypoints[i],
            ),
    ensures
        ({
            let q = facade_queue(g, concat, fac);
            let g1 = spec_apply_facades(g, q, q.len() as int);
            forall|i: int|
                0 <= i < g1.entrypoints.len() ==> !runtime_split_candidate(
                    g1,
                    #[trigger] g1.entrypoints[i],
                )
        }),
{
    let q = facade_queue(g, concat, fac);
    let g1 = spec_apply_facades(g, q, q.len() as int);
    lemma_facade_queue_facts(g, concat, fac, g.modules.len() as int);
    lemma_apply_facade_facts(g, q, q.len() as int);
    assert forall|i: int|
        0 <= i < g1.entrypoints.len() implies !runtime_split_candidate(
        g1,
        #[trigger] g1.entrypoints[i],
    ) by {
        let ep = g1.entrypoints[i];
        if runtime_split_candidate(g1, ep) {
            assert(g.entrypoints[i] == ep);
            assert((ep as int) < g.groups.len());
            assert(g1.groups[ep as int].entry_chunk == g.groups[ep as int].entry_chunk);
            assert(g1.groups[ep as int].runtime_chunk == g.groups[ep as int].runtime_chunk);
            let entry = g.groups[ep as int].entry_chunk->0;
            assert((entry as int) < g.chunks.len());
            assert(!runtime_split_candidate(g, ep));
            assert(!in_initial_multi_group(g, entry));
            assert(g1.chunks[entry as int] == g.chunks[entry as int]);
            let k = choose|k: int|
                0 <= k < g1.chunks[entry as int].groups.len() && g1.groups[
                    #[trigger] g1.chunks[entry as int].groups[k] as int
                ].initial && g1.groups[g1.chunks[entry as int].groups[k] as int].chunks.len() > 1;
            let gr = g1.chunks[entry as int].groups[k] as int;
            assert(g.chunks[entry as int].groups[k] == gr as usize);
            assert(gr < g.groups.len());
            assert(g.groups[gr].chunks.contains(entry));
            assert(g1.groups[gr].initial == g.groups[gr].initial);
            assert(!(g.groups[gr].initial && g.groups[gr].chunks.len() > 1));
            assert(g.groups[gr].chunks.len() <= 1);
            if g1.groups[gr].chunks.len() == g.groups[gr].chunks.len() {
                assert(false);
            } else {
                // The group grew, so some facade's source chunk belongs to
                // it; a singleton group makes that source the entry chunk,
                // but facade sources are never entry chunks.
                let w = choose|w: int|
                    0 <= w < q.len() && g.chunks[(#[trigger] q[w]).1 as int].groups.contains(
                        gr as usize,
                    );
                let src = q[w].1;
                assert(g.groups[gr].chunks.contains(src)) by {
                    let kk = choose|kk: int|
                        0 <= kk < g.chunks[src as int].groups.len() && (
                        #[trigger] g.chunks[src as int].groups[kk]) == gr as usize;
                    assert(g.groups[g.chunks[src as int].groups[kk] as int].chunks.contains(src));
                }
                let we = choose|we: int|
                    0 <= we < g.groups[gr].chunks.len() && (#[trigger] g.groups[gr].chunks[we])
                        == entry;
                let ws = choose|ws: int|
                    0 <= ws < g.groups[gr].chunks.len() && (#[trigger] g.groups[gr].chunks[ws])
                        == src;
                assert(we == ws);
                assert(src == entry);
                assert(needs_facade(g, concat, fac, q[w].0));
                assert(q[w].1 == effective_chunk(g, fac, q[w].0)->0);
                assert(!is_entry_chunk(g, src));
                assert(is_entry_chunk(g, entry));
                assert(false);
            }
        }
    }
}

/// Extension by module-less chunks composes.
pub proof fn lemma_extends_transitive(g: GraphV, g1: GraphV, g2: GraphV)
    requires
        extends_with_empty_chunks(g, g1),
        extends_with_empty_chunks(g1, g2),
    ensures
        extends_with_empty_chunks(g, g2),
{
    assert forall|c: int|
        0 <= c < g.chunks.len() implies (#[trigger] g2.chunks[c]).modules == g.chunks[c].modules by {
        assert(g1.chunks[c].modules == g.chunks[c].modules);
    }
    assert forall|c: int|
        g.chunks.len() <= c < g2.chunks.len() implies (#[trigger] g2.chunks[c]).modules == Seq::<
        usize,
    >::empty() by {
        if c < g1.chunks.len() {
            assert(g1.chunks[c].modules == Seq::<usize>::empty());
        }
    }
}

/// The guard's result stands through the rest of the pipeline: runtime
/// isolation and facade building only add module-less chunks, so an entry
/// chunk that detection found clean stays clean.
pub proof fn lemma_dirt_stays_gone(g1: GraphV, concat: Seq<bool>, fac: Seq<Option<usize>>)
    requires
        membership_wf(g1),
        entrypoints_wf(g1),
        g1.groups.len() <= usize::MAX,
        g1.chunks.len() + g1.entrypoints.len() <= usize::MAX,
        membership_wf(spec_optimize_runtime_chunks(g1)),
        fac_wf(spec_optimize_runtime_chunks(g1), fac),
        spec_optimize_runtime_chunks(g1).modules.len() <= usize::MAX,
        spec_optimize_runtime_chunks(g1).chunks.len() + spec_optimize_runtime_chunks(
            g1,
        ).modules.len() <= usize::MAX,
        forall|ec: usize| !chunk_dirty(g1, ec),
    ensures
        ({
            let g2 = spec_optimize_runtime_chunks(g1);
            let q = facade_queue(g2, concat, fac);
            forall|ec: usize| !chunk_dirty(spec_apply_facades(g2, q, q.len() as int), ec)
        }),
{
    let g2 = spec_optimize_runtime_chunks(g1);
    let q = facade_queue(g2, concat, fac);
    let g3 = spec_apply_facades(g2, q, q.len() as int);
    lemma_runtime_split_extends(g1);
    lemma_facades_extend(g2, concat, fac);
    lemma_extends_transitive(g1, g2, g3);
    lemma_dirty_preserved(g1, g3);
}

} // verus!
