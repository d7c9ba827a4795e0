use vstd::prelude::*;
use crate::graph::{
    spec_add_chunk, spec_split_chunk, split_groups_prefix, insert_after_first, find_index,
    chunk_of_from,
    lemma_find_index_bounds, chunk_of, is_entry_chunk, chunk_modules_wf, membership_wf,
    entrypoints_wf, contains_usize, Graph, GraphV, GroupV,
};

verus! {

// ----------------------------------------------------------------------------
// Facade building for dynamic-import targets.  A read-only classification
// over the unmutated snapshot decides, per live dynamic-import target,
// whether its chunk's export surface is already exact ("strict") or whether
// the target needs its own empty facade chunk; the mutations then replay
// sequentially in ascending target order.
// ----------------------------------------------------------------------------

/// The target-to-facade mapping.  It is owned by the optimizer; code
/// generation reads it through a shared reference.
pub struct FacadeMap {
    /// One slot per module: the facade chunk recorded for it, if any.
    pub slots: Vec<Option<usize>>,
}

impl View for FacadeMap {
    type V = Seq<Option<usize>>;

    open spec fn view(&self) -> Seq<Option<usize>> {
        self.slots@
    }
}

impl FacadeMap {
    /// A mapping with no entries, for `n` modules.
    pub fn empty(n: usize) -> (r: FacadeMap)
        ensures
            r@.len() == n,
            forall|m: int| 0 <= m < n ==> r@[m] is None,
    {
        let mut slots: Vec<Option<usize>> = Vec::new();
        for i in 0..n
            invariant
                slots@.len() == i,
                forall|m: int| 0 <= m < i ==> slots@[m] is None,
        {
            slots.push(None);
        }
        FacadeMap { slots }
    }

    /// The facade chunk recorded for module `m`, if any.
    pub fn get(&self, m: usize) -> (r: Option<usize>)
        requires
            m < self@.len(),
        ensures
            r == self@[m as int],
    {
        self.slots[m]
    }
}

/// Module `u` holds an active dynamic-import edge to `t`.
pub open spec fn module_dyn_imports(g: GraphV, u: usize, t: usize) -> bool {
    exists|j: int|
        0 <= j < g.modules[u as int].edges.len() && (#[trigger] g.modules[u as int].edges[j]).dynamic
            && g.modules[u as int].edges[j].active && g.modules[u as int].edges[j].target == t
}

/// Module `u` holds an active dynamic-import edge to `t` that needs the full
/// namespace.
pub open spec fn module_dyn_imports_ns(g: GraphV, u: usize, t: usize) -> bool {
    exists|j: int|
        0 <= j < g.modules[u as int].edges.len() && (#[trigger] g.modules[u as int].edges[j]).dynamic
            && g.modules[u as int].edges[j].active && g.modules[u as int].edges[j].full_namespace
            && g.modules[u as int].edges[j].target == t
}

/// `t` is a live dynamic-import target of some concatenation participant.
pub open spec fn is_dyn_target(g: GraphV, concat: Seq<bool>, t: usize) -> bool {
    exists|u: int|
        0 <= u < g.modules.len() && concat[u] && module_dyn_imports(g, #[trigger] (u as usize), t)
}

/// `t` is a namespace target: itself a concatenation participant, consumed as
/// a full namespace by some concatenated importer.
pub open spec fn is_namespace_target(g: GraphV, concat: Seq<bool>, t: usize) -> bool {
    &&& concat[t as int]
    &&& exists|u: int|
        0 <= u < g.modules.len() && concat[u] && module_dyn_imports_ns(
            g,
            #[trigger] (u as usize),
            t,
        )
}

/// Module `m` has an active edge to `t`.
pub open spec fn member_refs(g: GraphV, m: usize, t: usize) -> bool {
    exists|j: int|
        0 <= j < g.modules[m as int].edges.len() && (#[trigger] g.modules[m as int].edges[j]).active
            && g.modules[m as int].edges[j].target == t
}

/// Some member of chunk `c` has an active edge to `t`.
pub open spec fn chunk_refs(g: GraphV, c: int, t: usize) -> bool {
    exists|k: int|
        0 <= k < g.chunks[c].modules.len() && member_refs(g, #[trigger] g.chunks[c].modules[k], t)
}

/// `t` receives an active edge from a module residing in a chunk other than
/// `t`'s own.
pub open spec fn cross_chunk_referenced(g: GraphV, t: usize) -> bool {
    exists|c: int|
        0 <= c < g.chunks.len() && #[trigger] chunk_refs(g, c, t) && chunk_of(g, t) is Some
            && chunk_of(g, t) != Some(c as usize)
}

/// Some member of chunk `c` other than `t` is cross-chunk referenced.
pub open spec fn has_cross_sibling(g: GraphV, c: int, t: usize) -> bool {
    exists|k: int|
        0 <= k < g.chunks[c].modules.len() && g.chunks[c].modules[k] != t
            && cross_chunk_referenced(g, #[trigger] g.chunks[c].modules[k])
}

/// Decides `module_dyn_imports` / `module_dyn_imports_ns` (`ns` selects the
/// namespace variant).
fn module_dyn_imports_exec(g: &Graph, u: usize, t: usize, ns: bool) -> (r: bool)
    requires
        u < g@.modules.len(),
    ensures
        !ns ==> r == module_dyn_imports(g@, u, t),
        ns ==> r == module_dyn_imports_ns(g@, u, t),
{
    let edges = &g.modules[u].edges;
    let n = edges.len();
    for j in 0..n
        invariant
            n == g@.modules[u as int].edges.len(),
            u < g@.modules.len(),
            forall|i: int|
                0 <= i < j ==> !((#[trigger] g@.modules[u as int].edges[i]).dynamic
                    && g@.modules[u as int].edges[i].active && (!ns || g@.modules[u as int].edges[i].full_namespace)
                    && g@.modules[u as int].edges[i].target == t),
    {
        let e = &g.modules[u].edges[j];
        if e.dynamic && e.active && (!ns || e.full_namespace) && e.target == t {
            proof {
                assert(g@.modules[u as int].edges[j as int] == e@);
            }
            return true;
        }
    }
    false
}

/// Decides `is_dyn_target` / `is_namespace_target`.
fn is_dyn_target_exec(g: &Graph, concat: &Vec<bool>, t: usize, ns: bool) -> (r: bool)
    requires
        concat@.len() == g@.modules.len(),
        t < g@.modules.len(),
    ensures
        !ns ==> r == is_dyn_target(g@, concat@, t),
        ns ==> r == is_namespace_target(g@, concat@, t),
{
    if ns && !concat[t] {
        return false;
    }
    let n = g.modules.len();
    for u in 0..n
        invariant
            n == g@.modules.len(),
            t < g@.modules.len(),
            concat@.len() == g@.modules.len(),
            ns ==> concat@[t as int],
            forall|i: int|
                0 <= i < u ==> !(concat@[i] && (if ns {
                    module_dyn_imports_ns(g@, #[trigger] (i as usize), t)
                } else {
                    module_dyn_imports(g@, i as usize, t)
                })),
    {
        if concat[u] {
            if module_dyn_imports_exec(g, u, t, ns) {
                return true;
            }
        }
    }
    false
}

/// Decides `member_refs`.
fn member_refs_exec(g: &Graph, m: usize, t: usize) -> (r: bool)
    requires
        m < g@.modules.len(),
    ensures
        r == member_refs(g@, m, t),
{
    let edges = &g.modules[m].edges;
    let n = edges.len();
    for j in 0..n
        invariant
            n == g@.modules[m as int].edges.len(),
            m < g@.modules.len(),
            forall|i: int|
                0 <= i < j ==> !((#[trigger] g@.modules[m as int].edges[i]).active
                    && g@.modules[m as int].edges[i].target == t),
    {
        let e = &g.modules[m].edges[j];
        if e.active && e.target == t {
            proof {
                assert(g@.modules[m as int].edges[j as int] == e@);
            }
            return true;
        }
    }
    false
}

/// Decides `chunk_refs`.
fn chunk_refs_exec(g: &Graph, c: usize, t: usize) -> (r: bool)
    requires
        c < g@.chunks.len(),
        chunk_modules_wf(g@),
    ensures
        r == chunk_refs(g@, c as int, t),
{
    let members = &g.chunks[c].modules;
    let n = members.len();
    for k in 0..n
        invariant
            n == g@.chunks[c as int].modules.len(),
            c < g@.chunks.len(),
            chunk_modules_wf(g@),
            forall|i: int|
                0 <= i < k ==> !member_refs(g@, #[trigger] g@.chunks[c as int].modules[i], t),
    {
        let m = g.chunks[c].modules[k];
        if member_refs_exec(g, m, t) {
            return true;
        }
    }
    false
}

/// Decides `cross_chunk_referenced`.
fn cross_chunk_referenced_exec(g: &Graph, t: usize) -> (r: bool)
    requires
        chunk_modules_wf(g@),
    ensures
        r == cross_chunk_referenced(g@, t),
{
    let tc = g.module_chunk(t);
    let tc = match tc {
        Some(x) => x,
        None => {
            return false;
        },
    };
    let n = g.chunks.len();
    for c in 0..n
        invariant
            n == g@.chunks.len(),
            chunk_modules_wf(g@),
            chunk_of(g@, t) == Some(tc),
            forall|i: int|
                0 <= i < c ==> !(#[trigger] chunk_refs(g@, i, t) && i != tc as int),
    {
        if c != tc {
            if chunk_refs_exec(g, c, t) {
                return true;
            }
        }
    }
    false
}

/// Decides `has_cross_sibling`.
fn has_cross_sibling_exec(g: &Graph, c: usize, t: usize) -> (r: bool)
    requires
        c < g@.chunks.len(),
        chunk_modules_wf(g@),
    ensures
        r == has_cross_sibling(g@, c as int, t),
{
    let n = g.chunks[c].modules.len();
    for k in 0..n
        invariant
            n == g@.chunks[c as int].modules.len(),
            c < g@.chunks.len(),
            chunk_modules_wf(g@),
            forall|i: int|
                0 <= i < k ==> !(g@.chunks[c as int].modules[i] != t && cross_chunk_referenced(
                    g@,
                    #[trigger] g@.chunks[c as int].modules[i],
                )),
    {
        let m = g.chunks[c].modules[k];
        if m != t {
            if cross_chunk_referenced_exec(g, m) {
                return true;
            }
        }
    }
    false
}

/// Decides `is_entry_chunk`.
pub fn is_entry_chunk_exec(g: &Graph, c: usize) -> (r: bool)
    requires
        forall|i: int|
            0 <= i < g@.entrypoints.len() ==> (#[trigger] g@.entrypoints[i]) < g@.groups.len(),
    ensures
        r == is_entry_chunk(g@, c),
{
    let n = g.entrypoints.len();
    for i in 0..n
        invariant
            n == g@.entrypoints.len(),
            forall|i2: int|
                0 <= i2 < g@.entrypoints.len() ==> (#[trigger] g@.entrypoints[i2])
                    < g@.groups.len(),
            forall|i2: int|
                0 <= i2 < i ==> g@.groups[#[trigger] g@.entrypoints[i2] as int].entry_chunk
                    != Some(c),
    {
        let ep = g.entrypoints[i];
        match g.groups[ep].entry_chunk {
            Some(e) => {
                if e == c {
                    return true;
                }
            },
            None => {},
        }
    }
    false
}

/// A target the classification looks at: live, in range, not host-provided.
pub open spec fn considered(g: GraphV, concat: Seq<bool>, t: usize) -> bool {
    &&& (t as int) < g.modules.len()
    &&& is_dyn_target(g, concat, t)
    &&& !g.modules[t as int].external
}

/// The chunk a target resolves to: its recorded facade when one exists, else
/// the chunk holding it.
pub open spec fn effective_chunk(g: GraphV, fac: Seq<Option<usize>>, t: usize) -> Option<usize> {
    if fac[t as int] is Some {
        fac[t as int]
    } else {
        chunk_of(g, t)
    }
}

/// The mapping covers every module and names existing chunks.
pub open spec fn fac_wf(g: GraphV, fac: Seq<Option<usize>>) -> bool {
    &&& fac.len() == g.modules.len()
    &&& forall|m: int|
        0 <= m < fac.len() && (#[trigger] fac[m]) is Some ==> fac[m]->0 < g.chunks.len()
}

/// Caller obligation: every considered target resolves to a chunk.
pub open spec fn targets_placed(g: GraphV, concat: Seq<bool>, fac: Seq<Option<usize>>) -> bool {
    forall|t: usize|
        considered(g, concat, t) ==> (#[trigger] effective_chunk(g, fac, t)) is Some
}

/// Classification: target `t` marks chunk `c` as strict (its exports are
/// already exact; no split needed).
pub open spec fn marks_strict(
    g: GraphV,
    concat: Seq<bool>,
    fac: Seq<Option<usize>>,
    t: usize,
    c: usize,
) -> bool {
    &&& considered(g, concat, t)
    &&& effective_chunk(g, fac, t) == Some(c)
    &&& (g.chunks[c as int].modules.len() <= 1 || is_entry_chunk(g, c) || (is_namespace_target(
        g,
        concat,
        t,
    ) && !has_cross_sibling(g, c as int, t)))
}

/// Classification: a named-only target sitting in a multi-module non-entry
/// chunk, bucketed for conflict detection.
pub open spec fn bucketed(
    g: GraphV,
    concat: Seq<bool>,
    fac: Seq<Option<usize>>,
    t: usize,
    c: usize,
) -> bool {
    &&& considered(g, concat, t)
    &&& effective_chunk(g, fac, t) == Some(c)
    &&& g.chunks[c as int].modules.len() > 1
    &&& !is_entry_chunk(g, c)
    &&& !is_namespace_target(g, concat, t)
    &&& concat[t as int]
}

/// Classification: target `t` needs a facade chunk split off its effective
/// chunk.
pub open spec fn needs_facade(
    g: GraphV,
    concat: Seq<bool>,
    fac: Seq<Option<usize>>,
    t: usize,
) -> bool {
    &&& considered(g, concat, t)
    &&& effective_chunk(g, fac, t) is Some
    &&& ({
        let c = effective_chunk(g, fac, t)->0;
        &&& g.chunks[c as int].modules.len() > 1
        &&& !is_entry_chunk(g, c)
        &&& if is_namespace_target(g, concat, t) {
            has_cross_sibling(g, c as int, t)
        } else {
            concat[t as int] && exists|t2: int|
                0 <= t2 < g.modules.len() && t2 != t as int && bucketed(
                    g,
                    concat,
                    fac,
                    #[trigger] (t2 as usize),
                    c,
                )
        }
    })
}

/// The queued (target, source chunk) pairs among targets below `k`, in
/// ascending target order.
pub open spec fn facade_queue_prefix(
    g: GraphV,
    concat: Seq<bool>,
    fac: Seq<Option<usize>>,
    k: int,
) -> Seq<(usize, usize)>
    decreases k,
{
    if k <= 0 {
        Seq::empty()
    } else {
        let rest = facade_queue_prefix(g, concat, fac, k - 1);
        let t = (k - 1) as usize;
        if needs_facade(g, concat, fac, t) {
            rest.push((t, effective_chunk(g, fac, t)->0))
        } else {
            rest
        }
    }
}

/// The whole split queue, sorted by target identity.
pub open spec fn facade_queue(g: GraphV, concat: Seq<bool>, fac: Seq<Option<usize>>) -> Seq<
    (usize, usize),
> {
    facade_queue_prefix(g, concat, fac, g.modules.len() as int)
}

/// One facade split: allocate an empty chunk and structurally split it off
/// the source chunk; no module moves.
pub open spec fn spec_facade_step(g: GraphV, src: usize) -> GraphV {
    spec_split_chunk(spec_add_chunk(g), src, g.chunks.len() as usize)
}

/// The state after replaying the first `k` queued splits.
pub open spec fn spec_apply_facades(g: GraphV, queue: Seq<(usize, usize)>, k: int) -> GraphV
    decreases k,
{
    if k <= 0 {
        g
    } else {
        spec_facade_step(spec_apply_facades(g, queue, k - 1), queue[k - 1].1)
    }
}

/// The mapping after the pass: a queued target points at its facade chunk
/// (allocated in ascending target order); every other slot is unchanged.
pub open spec fn spec_facade_mapping(
    g: GraphV,
    concat: Seq<bool>,
    fac: Seq<Option<usize>>,
    m: int,
) -> Option<usize> {
    if 0 <= m < g.modules.len() && needs_facade(g, concat, fac, m as usize) {
        Some((g.chunks.len() + facade_queue_prefix(g, concat, fac, m).len()) as usize)
    } else {
        fac[m]
    }
}

/// What `insert_after_first` does to membership.
proof fn lemma_insert_after_first_facts(s: Seq<usize>, x: usize, n: usize)
    ensures
        insert_after_first(s, x, n).len() == s.len() + 1,
        forall|y: usize| s.contains(y) ==> #[trigger] insert_after_first(s, x, n).contains(y),
        forall|y: usize| #[trigger] insert_after_first(s, x, n).contains(y) ==> s.contains(y) || y == n,
{
    let r = insert_after_first(s, x, n);
    let fi = find_index(s, x, 0);
    if fi >= 0 {
        lemma_find_index_bounds(s, x, 0);
        s.insert_ensures(fi + 1, n);
        assert forall|y: usize| s.contains(y) implies #[trigger] r.contains(y) by {
            let w = choose|w: int| 0 <= w < s.len() && s[w] == y;
            if w <= fi {
                assert(r[w] == y);
            } else {
                assert(r[w + 1] == y);
            }
        }
        assert forall|y: usize| #[trigger] r.contains(y) implies s.contains(y) || y == n by {
            let w = choose|w: int| 0 <= w < r.len() && r[w] == y;
            if w < fi + 1 {
                assert(s[w] == y);
            } else if w == fi + 1 {
            } else {
                assert(s[w - 1] == y);
            }
        }
    } else {
        assert(r == s.push(n));
        assert forall|y: usize| s.contains(y) implies #[trigger] r.contains(y) by {
            let w = choose|w: int| 0 <= w < s.len() && s[w] == y;
            assert(r[w] == y);
        }
        assert forall|y: usize| #[trigger] r.contains(y) implies s.contains(y) || y == n by {
            let w = choose|w: int| 0 <= w < r.len() && r[w] == y;
            if w < s.len() {
                assert(s[w] == y);
            }
        }
    }
}

/// What the group-table part of one split preserves.
pub proof fn lemma_split_groups_facts(
    groups: Seq<GroupV>,
    src_groups: Seq<usize>,
    k: int,
    source: usize,
    new_c: usize,
)
    requires
        0 <= k <= src_groups.len(),
        forall|i: int| 0 <= i < src_groups.len() ==> (#[trigger] src_groups[i]) < groups.len(),
    ensures
        ({
            let gs = split_groups_prefix(groups, src_groups, k, source, new_c);
            &&& gs.len() == groups.len()
            &&& forall|j: int|
                0 <= j < groups.len() ==> (#[trigger] gs[j]).initial == groups[j].initial
                    && gs[j].entry_chunk == groups[j].entry_chunk && gs[j].runtime_chunk
                    == groups[j].runtime_chunk
            &&& forall|j: int, y: usize|
                0 <= j < groups.len() && groups[j].chunks.contains(y) ==> (#[trigger] gs[j].chunks.contains(
                    y,
                ))
            &&& forall|j: int, y: usize|
                0 <= j < groups.len() && #[trigger] gs[j].chunks.contains(y)
                    ==> groups[j].chunks.contains(y) || y == new_c
            &&& forall|j: int|
                0 <= j < groups.len() && gs[j].chunks.len() != groups[j].chunks.len()
                    ==> src_groups.subrange(0, k).contains(j as usize)
        }),
    decreases k,
{
    if k > 0 {
        lemma_split_groups_facts(groups, src_groups, k - 1, source, new_c);
        let gp = split_groups_prefix(groups, src_groups, k - 1, source, new_c);
        let gs = split_groups_prefix(groups, src_groups, k, source, new_c);
        let gid = src_groups[k - 1] as int;
        lemma_insert_after_first_facts(gp[gid].chunks, source, new_c);
        assert(src_groups.subrange(0, k)[k - 1] == src_groups[k - 1]);
        assert forall|j: int|
            0 <= j < groups.len() && (#[trigger] gs[j]).chunks.len() != groups[j].chunks.len() implies src_groups.subrange(
            0,
            k,
        ).contains(j as usize) by {
            if j != gid {
                if src_groups.subrange(0, k - 1).contains(j as usize) {
                    let w = choose|w: int|
                        0 <= w < k - 1 && (#[trigger] src_groups.subrange(0, k - 1)[w]) == j as usize;
                    assert(src_groups.subrange(0, k)[w] == j as usize);
                }
            } else {
                assert(src_groups.subrange(0, k).contains(src_groups[k - 1]));
            }
        }
    } else {
        assert(src_groups.subrange(0, 0) =~= Seq::<usize>::empty());
    }
}

/// What replaying `k` facade splits preserves and creates.
pub proof fn lemma_apply_facade_facts(g: GraphV, queue: Seq<(usize, usize)>, k: int)
    requires
        0 <= k <= queue.len(),
        forall|i: int| 0 <= i < queue.len() ==> ((#[trigger] queue[i]).1 as int) < g.chunks.len(),
        g.chunks.len() + k <= usize::MAX,
        membership_wf(g),
    ensures
        ({
            let gk = spec_apply_facades(g, queue, k);
            &&& gk.modules == g.modules
            &&& gk.entrypoints == g.entrypoints
            &&& gk.groups.len() == g.groups.len()
            &&& gk.chunks.len() == g.chunks.len() + k
            &&& gk.added_chunks.len() == g.added_chunks.len() + k
            &&& forall|c: int| 0 <= c < g.chunks.len() ==> gk.chunks[c] == g.chunks[c]
            &&& forall|i: int|
                0 <= i < k ==> (#[trigger] gk.chunks[g.chunks.len() + i]).modules == Seq::<
                    usize,
                >::empty() && gk.chunks[g.chunks.len() + i].entry_modules == Seq::<
                    (usize, usize),
                >::empty() && gk.chunks[g.chunks.len() + i].groups == g.chunks[queue[i].1 as int].groups
            &&& forall|j: int|
                0 <= j < g.groups.len() ==> (#[trigger] gk.groups[j]).initial == g.groups[j].initial
                    && gk.groups[j].entry_chunk == g.groups[j].entry_chunk
                    && gk.groups[j].runtime_chunk == g.groups[j].runtime_chunk
            &&& forall|j: int, y: usize|
                0 <= j < g.groups.len() && g.groups[j].chunks.contains(y) ==> (
                #[trigger] gk.groups[j].chunks.contains(y))
            &&& forall|j: int, y: usize|
                0 <= j < g.groups.len() && #[trigger] gk.groups[j].chunks.contains(y)
                    ==> g.groups[j].chunks.contains(y) || y as int >= g.chunks.len()
            &&& forall|j: int|
                0 <= j < g.groups.len() && (#[trigger] gk.groups[j]).chunks.len()
                    != g.groups[j].chunks.len() ==> exists|i: int|
                    0 <= i < k && g.chunks[(#[trigger] queue[i]).1 as int].groups.contains(
                        j as usize,
                    )
        }),
    decreases k,
{
    if k > 0 {
        lemma_apply_facade_facts(g, queue, k - 1);
        let gp = spec_apply_facades(g, queue, k - 1);
        let gk = spec_apply_facades(g, queue, k);
        let src = queue[k - 1].1;
        let new_c = gp.chunks.len() as usize;
        let g1 = spec_add_chunk(gp);
        assert(gk == spec_split_chunk(g1, src, new_c));
        assert(g1.chunks[src as int] == g.chunks[src as int]);
        let src_groups = g1.chunks[src as int].groups;
        assert forall|i: int|
            0 <= i < src_groups.len() implies (#[trigger] src_groups[i]) < g1.groups.len() by {
            assert(g.chunks[src as int].groups[i] < g.groups.len());
        }
        lemma_split_groups_facts(g1.groups, src_groups, src_groups.len() as int, src, new_c);
        assert forall|j: int|
            0 <= j < g.groups.len() && (#[trigger] gk.groups[j]).chunks.len()
                != g.groups[j].chunks.len() implies exists|i: int|
            0 <= i < k && g.chunks[(#[trigger] queue[i]).1 as int].groups.contains(j as usize) by {
            if gp.groups[j].chunks.len() != g.groups[j].chunks.len() {
                let i = choose|i: int|
                    0 <= i < k - 1 && g.chunks[(#[trigger] queue[i]).1 as int].groups.contains(
                        j as usize,
                    );
                assert(0 <= i < k);
            } else {
                assert(src_groups.subrange(0, src_groups.len() as int) =~= src_groups);
                assert(src_groups.contains(j as usize));
                assert(g.chunks[queue[k - 1].1 as int].groups.contains(j as usize));
            }
        }
    }
}

/// A located module sits in an existing chunk, which indeed holds it.
pub proof fn lemma_chunk_of_from_props(g: GraphV, m: usize, c: int)
    requires
        c >= 0,
        g.chunks.len() <= usize::MAX,
    ensures
        chunk_of_from(g, m, c) is Some ==> c <= chunk_of_from(g, m, c)->0 < g.chunks.len()
            && g.chunks[chunk_of_from(g, m, c)->0 as int].modules.contains(m),
    decreases g.chunks.len() - c,
{
    if c < g.chunks.len() && !g.chunks[c].modules.contains(m) {
        lemma_chunk_of_from_props(g, m, c + 1);
    }
}

/// An effective chunk is an existing chunk.
pub proof fn lemma_effective_chunk_bound(g: GraphV, fac: Seq<Option<usize>>, t: usize)
    requires
        fac_wf(g, fac),
        (t as int) < fac.len(),
        g.chunks.len() <= usize::MAX,
    ensures
        effective_chunk(g, fac, t) is Some ==> (effective_chunk(g, fac, t)->0 as int)
            < g.chunks.len(),
{
    if !(fac[t as int] is Some) {
        lemma_chunk_of_from_props(g, t, 0);
    }
}

/// Structure of the split queue: entries are valid, strictly ascending by
/// target, and each queued target sits at the position its rank gives.
pub proof fn lemma_facade_queue_facts(g: GraphV, concat: Seq<bool>, fac: Seq<Option<usize>>, k: int)
    requires
        0 <= k <= g.modules.len(),
        fac_wf(g, fac),
        g.chunks.len() <= usize::MAX,
        g.modules.len() <= usize::MAX,
    ensures
        ({
            let q = facade_queue_prefix(g, concat, fac, k);
            &&& q.len() <= k
            &&& forall|i: int|
                0 <= i < q.len() ==> needs_facade(g, concat, fac, (#[trigger] q[i]).0) && (q[i].0
                    as int) < k && q[i].1 == effective_chunk(g, fac, q[i].0)->0 && (q[i].1 as int)
                    < g.chunks.len()
            &&& forall|i1: int, i2: int|
                0 <= i1 < i2 < q.len() ==> (#[trigger] q[i1]).0 < (#[trigger] q[i2]).0
            &&& forall|t: int|
                0 <= t < k && needs_facade(g, concat, fac, t as usize) ==> (facade_queue_prefix(
                    g,
                    concat,
                    fac,
                    t,
                ).len() as int) < q.len() && q[facade_queue_prefix(g, concat, fac, t).len() as int]
                    == ((t as usize, effective_chunk(g, fac, #[trigger] (t as usize))->0))
        }),
    decreases k,
{
    if k > 0 {
        lemma_facade_queue_facts(g, concat, fac, k - 1);
        let t = (k - 1) as usize;
        if needs_facade(g, concat, fac, t) {
            lemma_effective_chunk_bound(g, fac, t);
        }
    }
}

/// The `i`-th queue entry has rank `i`, and no other target shares that rank.
proof fn lemma_facade_rank(g: GraphV, concat: Seq<bool>, fac: Seq<Option<usize>>, i: int)
    requires
        fac_wf(g, fac),
        g.chunks.len() <= usize::MAX,
        g.modules.len() <= usize::MAX,
        0 <= i < facade_queue(g, concat, fac).len(),
    ensures
        ({
            let q = facade_queue(g, concat, fac);
            let t = q[i].0;
            &&& needs_facade(g, concat, fac, t)
            &&& (t as int) < g.modules.len()
            &&& q[i].1 == effective_chunk(g, fac, t)->0
            &&& (q[i].1 as int) < g.chunks.len()
            &&& facade_queue_prefix(g, concat, fac, t as int).len() as int == i
            &&& forall|m: int|
                0 <= m < g.modules.len() && m != t as int && needs_facade(
                    g,
                    concat,
                    fac,
                    #[trigger] (m as usize),
                ) ==> facade_queue_prefix(g, concat, fac, m).len() as int != i
        }),
{
    lemma_facade_queue_facts(g, concat, fac, g.modules.len() as int);
    let q = facade_queue(g, concat, fac);
    let t = q[i].0;
    let rank = facade_queue_prefix(g, concat, fac, t as int).len() as int;
    assert(((t as int) as usize) == t);
    assert(needs_facade(g, concat, fac, ((t as int) as usize)));
    assert(q[rank] == ((t, effective_chunk(g, fac, t)->0)));
    assert(rank == i) by {
        if rank < i {
            assert(q[rank].0 < q[i].0);
        } else if rank > i {
            assert(q[i].0 < q[rank].0);
        }
    }
    assert forall|m: int|
        0 <= m < g.modules.len() && m != t as int && needs_facade(
            g,
            concat,
            fac,
            #[trigger] (m as usize),
        ) implies facade_queue_prefix(g, concat, fac, m).len() as int != i by {
        let r2 = facade_queue_prefix(g, concat, fac, m).len() as int;
        if r2 == i {
            assert(q[r2] == ((m as usize, effective_chunk(g, fac, m as usize)->0)));
        }
    }
}

/// The ascending list of all live dynamic-import targets below `k`.
pub open spec fn dyn_targets_prefix(g: GraphV, concat: Seq<bool>, k: int) -> Seq<usize>
    decreases k,
{
    if k <= 0 {
        Seq::empty()
    } else {
        let rest = dyn_targets_prefix(g, concat, k - 1);
        if is_dyn_target(g, concat, (k - 1) as usize) {
            rest.push((k - 1) as usize)
        } else {
            rest
        }
    }
}

/// A chunk marked strict by the read-only classification.
pub open spec fn chunk_already_strict(
    g: GraphV,
    concat: Seq<bool>,
    fac: Seq<Option<usize>>,
    c: usize,
) -> bool {
    exists|t: int|
        0 <= t < g.modules.len() && marks_strict(g, concat, fac, #[trigger] (t as usize), c)
}

/// Appends `x` unless already present; the vector keeps set semantics.
fn push_unique(v: &mut Vec<usize>, x: usize)
    ensures
        forall|y: usize| final(v)@.contains(y) <==> old(v)@.contains(y) || y == x,
{
    if !contains_usize(v, x) {
        v.push(x);
        proof {
            let nv = v@;
            let ov = old(v)@;
            assert forall|y: usize| nv.contains(y) implies ov.contains(y) || y == x by {
                let w = choose|w: int| 0 <= w < nv.len() && nv[w] == y;
                if w < ov.len() {
                    assert(ov[w] == y);
                }
            }
            assert forall|y: usize| ov.contains(y) || y == x implies nv.contains(y) by {
                if ov.contains(y) {
                    let w = choose|w: int| 0 <= w < ov.len() && ov[w] == y;
                    assert(nv[w] == y);
                } else {
                    assert(nv[ov.len() as int] == y);
                }
            }
        }
    }
}

/// Decides the effective chunk of a target.
fn effective_chunk_exec(g: &Graph, fm: &FacadeMap, t: usize) -> (r: Option<usize>)
    requires
        (t as int) < fm@.len(),
    ensures
        r == effective_chunk(g@, fm@, t),
{
    match fm.get(t) {
        Some(c) => Some(c),
        None => g.module_chunk(t),
    }
}

/// Decides `bucketed`.
fn bucketed_exec(g: &Graph, concat: &Vec<bool>, fm: &FacadeMap, t2: usize, c: usize) -> (r: bool)
    requires
        concat@.len() == g@.modules.len(),
        fm@.len() == g@.modules.len(),
        (t2 as int) < g@.modules.len(),
        chunk_modules_wf(g@),
        entrypoints_wf(g@),
        fac_wf(g@, fm@),
        targets_placed(g@, concat@, fm@),
        (c as int) < g@.chunks.len(),
    ensures
        r == bucketed(g@, concat@, fm@, t2, c),
{
    if g.modules[t2].external {
        return false;
    }
    if !is_dyn_target_exec(g, concat, t2, false) {
        return false;
    }
    let c2 = match effective_chunk_exec(g, fm, t2) {
        Some(x) => x,
        None => unreached(),
    };
    if c2 != c {
        return false;
    }
    if g.chunks[c].modules.len() <= 1 {
        return false;
    }
    if is_entry_chunk_exec(g, c) {
        return false;
    }
    if is_dyn_target_exec(g, concat, t2, true) {
        return false;
    }
    concat[t2]
}

/// Decides `needs_facade`.
fn needs_facade_exec(g: &Graph, concat: &Vec<bool>, fm: &FacadeMap, t: usize) -> (r: bool)
    requires
        concat@.len() == g@.modules.len(),
        fm@.len() == g@.modules.len(),
        (t as int) < g@.modules.len(),
        chunk_modules_wf(g@),
        entrypoints_wf(g@),
        fac_wf(g@, fm@),
        targets_placed(g@, concat@, fm@),
    ensures
        r == needs_facade(g@, concat@, fm@, t),
{
    if g.modules[t].external {
        return false;
    }
    if !is_dyn_target_exec(g, concat, t, false) {
        return false;
    }
    let c = match effective_chunk_exec(g, fm, t) {
        Some(x) => x,
        None => unreached(),
    };
    let _nc = g.chunks.len();
    proof {
        lemma_effective_chunk_bound(g@, fm@, t);
    }
    if g.chunks[c].modules.len() <= 1 {
        return false;
    }
    if is_entry_chunk_exec(g, c) {
        return false;
    }
    if is_dyn_target_exec(g, concat, t, true) {
        return has_cross_sibling_exec(g, c, t);
    }
    if !concat[t] {
        return false;
    }
    let n = g.modules.len();
    for t2 in 0..n
        invariant
            n == g@.modules.len(),
            concat@.len() == g@.modules.len(),
            fm@.len() == g@.modules.len(),
            (t as int) < g@.modules.len(),
            (c as int) < g@.chunks.len(),
            chunk_modules_wf(g@),
            entrypoints_wf(g@),
            fac_wf(g@, fm@),
            targets_placed(g@, concat@, fm@),
            considered(g@, concat@, t),
            effective_chunk(g@, fm@, t) == Some(c),
            g@.chunks[c as int].modules.len() > 1,
            !is_entry_chunk(g@, c),
            !is_namespace_target(g@, concat@, t),
            concat@[t as int],
            forall|i: int|
                0 <= i < t2 ==> !(i != t as int && bucketed(
                    g@,
                    concat@,
                    fm@,
                    #[trigger] (i as usize),
                    c,
                )),
    {
        if t2 != t {
            if bucketed_exec(g, concat, fm, t2, c) {
                proof {
                    let ghost ti = t2 as int;
                    assert(bucketed(g@, concat@, fm@, (ti as usize), c));
                }
                return true;
            }
        }
    }
    false
}

/// Decides whether `t` marks its effective chunk strict, and which chunk.
fn marks_strict_exec(g: &Graph, concat: &Vec<bool>, fm: &FacadeMap, t: usize) -> (r: Option<usize>)
    requires
        concat@.len() == g@.modules.len(),
        fm@.len() == g@.modules.len(),
        (t as int) < g@.modules.len(),
        chunk_modules_wf(g@),
        entrypoints_wf(g@),
        fac_wf(g@, fm@),
        targets_placed(g@, concat@, fm@),
    ensures
        match r {
            Some(c) => marks_strict(g@, concat@, fm@, t, c),
            None => forall|c: usize| !marks_strict(g@, concat@, fm@, t, c),
        },
{
    if g.modules[t].external {
        return None;
    }
    if !is_dyn_target_exec(g, concat, t, false) {
        return None;
    }
    let c = match effective_chunk_exec(g, fm, t) {
        Some(x) => x,
        None => unreached(),
    };
    let _nc = g.chunks.len();
    proof {
        lemma_effective_chunk_bound(g@, fm@, t);
    }
    if g.chunks[c].modules.len() <= 1 {
        return Some(c);
    }
    if is_entry_chunk_exec(g, c) {
        return Some(c);
    }
    if is_dyn_target_exec(g, concat, t, true) {
        if !has_cross_sibling_exec(g, c, t) {
            return Some(c);
        }
    }
    None
}

/// Facade building.  The read-only classification first decides, per live
/// dynamic-import target, whether its effective chunk is already strict or a
/// facade split is queued; the queue, sorted by target identity, then replays
/// sequentially, and each queued target is recorded in the mapping.  Returns
/// the set of strict chunks and the set of all live dynamic-import targets.
#[verifier::rlimit(100)]
pub fn ensure_dyn_import_namespace_facades(
    g: &mut Graph,
    concat: &Vec<bool>,
    facades: &mut FacadeMap,
) -> (r: (Vec<usize>, Vec<usize>))
    requires
        concat@.len() == old(g)@.modules.len(),
        old(facades)@.len() == old(g)@.modules.len(),
        chunk_modules_wf(old(g)@),
        membership_wf(old(g)@),
        entrypoints_wf(old(g)@),
        fac_wf(old(g)@, old(facades)@),
        targets_placed(old(g)@, concat@, old(facades)@),
    ensures
        ({
            let g0 = old(g)@;
            let fac0 = old(facades)@;
            let queue = facade_queue(g0, concat@, fac0);
            &&& final(g)@ == spec_apply_facades(g0, queue, queue.len() as int)
            &&& final(facades)@.len() == fac0.len()
            &&& forall|m: int|
                0 <= m < fac0.len() ==> final(facades)@[m] == spec_facade_mapping(
                    g0,
                    concat@,
                    fac0,
                    m,
                )
            &&& forall|x: usize|
                r.0@.contains(x) <==> chunk_already_strict(g0, concat@, fac0, x) || (g0.chunks.len()
                    <= (x as int) && (x as int) < g0.chunks.len() + queue.len())
            &&& r.1@ == dyn_targets_prefix(g0, concat@, g0.modules.len() as int)
        }),
{
    let ghost g0 = g@;
    let ghost fac0 = facades@;
    let n = g.modules.len();
    // Read-only classification over the unmutated snapshot.
    let mut all_dyn: Vec<usize> = Vec::new();
    let mut strict: Vec<usize> = Vec::new();
    let mut queue: Vec<(usize, usize)> = Vec::new();
    for t in 0..n
        invariant
            g@ == g0,
            facades@ == fac0,
            n == g0.modules.len(),
            concat@.len() == g0.modules.len(),
            fac0.len() == g0.modules.len(),
            chunk_modules_wf(g0),
            membership_wf(g0),
            entrypoints_wf(g0),
            fac_wf(g0, fac0),
            targets_placed(g0, concat@, fac0),
            all_dyn@ == dyn_targets_prefix(g0, concat@, t as int),
            queue@ == facade_queue_prefix(g0, concat@, fac0, t as int),
            forall|x: usize|
                strict@.contains(x) <==> exists|t2: int|
                    0 <= t2 < t && marks_strict(g0, concat@, fac0, #[trigger] (t2 as usize), x),
    {
        let ghost strict_pre = strict@;
        if is_dyn_target_exec(g, concat, t, false) {
            all_dyn.push(t);
        }
        proof {
            assert(all_dyn@ =~= dyn_targets_prefix(g0, concat@, t + 1));
        }
        match marks_strict_exec(g, concat, facades, t) {
            Some(c) => {
                push_unique(&mut strict, c);
                proof {
                    assert forall|x: usize| strict@.contains(x) implies exists|t2: int|
                        0 <= t2 < t + 1 && marks_strict(
                            g0,
                            concat@,
                            fac0,
                            #[trigger] (t2 as usize),
                            x,
                        ) by {
                        if strict_pre.contains(x) {
                            let w = choose|w: int|
                                0 <= w < t && marks_strict(
                                    g0,
                                    concat@,
                                    fac0,
                                    #[trigger] (w as usize),
                                    x,
                                );
                            assert(marks_strict(g0, concat@, fac0, (w as usize), x));
                        } else {
                            assert(marks_strict(g0, concat@, fac0, ((t as int) as usize), x));
                        }
                    }
                }
            },
            None => {
                proof {
                    assert forall|x: usize| strict@.contains(x) implies exists|t2: int|
                        0 <= t2 < t + 1 && marks_strict(
                            g0,
                            concat@,
                            fac0,
                            #[trigger] (t2 as usize),
                            x,
                        ) by {
                        let w = choose|w: int|
                            0 <= w < t && marks_strict(g0, concat@, fac0, #[trigger] (w as usize), x);
                        assert(marks_strict(g0, concat@, fac0, (w as usize), x));
                    }
                }
            },
        }
        if needs_facade_exec(g, concat, facades, t) {
            let c = match effective_chunk_exec(g, facades, t) {
                Some(x) => x,
                None => unreached(),
            };
            queue.push((t, c));
        }
        proof {
            assert(queue@ =~= facade_queue_prefix(g0, concat@, fac0, t + 1));
        }
    }
    let _nc0 = g.chunks.len();
    proof {
        lemma_facade_queue_facts(g0, concat@, fac0, g0.modules.len() as int);
    }
    // Sequential mutation replay in ascending target order.
    let ghost q = queue@;
    let qn = queue.len();
    for i in 0..qn
        invariant
            qn == q.len(),
            queue@ == q,
            q == facade_queue(g0, concat@, fac0),
            q.len() <= g0.modules.len(),
            g0.modules.len() <= usize::MAX,
            g0.chunks.len() <= usize::MAX,
            concat@.len() == g0.modules.len(),
            chunk_modules_wf(g0),
            membership_wf(g0),
            entrypoints_wf(g0),
            fac_wf(g0, fac0),
            g@ == spec_apply_facades(g0, q, i as int),
            g@.chunks.len() == g0.chunks.len() + i,
            facades@.len() == fac0.len(),
            fac0.len() == g0.modules.len(),
            forall|m: int|
                0 <= m < fac0.len() ==> facades@[m] == (if needs_facade(
                    g0,
                    concat@,
                    fac0,
                    m as usize,
                ) && (facade_queue_prefix(g0, concat@, fac0, m).len() as int) < i {
                    Some(
                        (g0.chunks.len() + facade_queue_prefix(g0, concat@, fac0, m).len()) as usize,
                    )
                } else {
                    fac0[m]
                }),
            forall|x: usize|
                strict@.contains(x) <==> chunk_already_strict(g0, concat@, fac0, x) || (
                g0.chunks.len() <= (x as int) && (x as int) < g0.chunks.len() + i),
    {
        let _nci = g.chunks.len();
        proof {
            lemma_facade_rank(g0, concat@, fac0, i as int);
            lemma_facade_queue_facts(g0, concat@, fac0, g0.modules.len() as int);
            lemma_apply_facade_facts(g0, q, i as int);
        }
        let (t, src) = queue[i];
        let ghost strict_pre = strict@;
        let ghost fac_pre = facades@;
        let new_c = g.add_chunk();
        proof {
            assert(g@.chunks[src as int] == g0.chunks[src as int]);
            assert forall|k2: int|
                0 <= k2 < g@.chunks[src as int].groups.len() implies (#[trigger] g@.chunks[src as int].groups[k2])
                < g@.groups.len() && g@.groups[g@.chunks[src as int].groups[k2] as int].chunks.contains(
                src,
            ) by {
                assert(g0.chunks[src as int].groups[k2] < g0.groups.len());
                assert(g0.groups[g0.chunks[src as int].groups[k2] as int].chunks.contains(src));
            }
        }
        g.split_chunk(src, new_c);
        facades.slots[t] = Some(new_c);
        push_unique(&mut strict, new_c);
        proof {
            assert(g@ == spec_apply_facades(g0, q, i + 1));
            assert forall|m: int|
                0 <= m < fac0.len() implies facades@[m] == (if needs_facade(
                g0,
                concat@,
                fac0,
                m as usize,
            ) && (facade_queue_prefix(g0, concat@, fac0, m).len() as int) < i + 1 {
                Some((g0.chunks.len() + facade_queue_prefix(g0, concat@, fac0, m).len()) as usize)
            } else {
                fac0[m]
            }) by {
                if m != t as int {
                    assert(facades@[m] == fac_pre[m]);
                }
            }
            assert forall|x: usize|
                strict@.contains(x) <==> chunk_already_strict(g0, concat@, fac0, x) || (
            g0.chunks.len() <= (x as int) && (x as int) < g0.chunks.len() + i + 1) by {
                assert(strict@.contains(x) <==> strict_pre.contains(x) || x == new_c);
            }
        }
    }
    proof {
        assert(q.len() <= g0.modules.len());
    }
    (strict, all_dyn)
}

/// A namespace target is in particular a live dynamic-import target.
proof fn lemma_ns_implies_dyn(g: GraphV, concat: Seq<bool>, t: usize)
    requires
        is_namespace_target(g, concat, t),
    ensures
        is_dyn_target(g, concat, t),
{
    let u = choose|u: int|
        0 <= u < g.modules.len() && concat[u] && module_dyn_imports_ns(g, #[trigger] (u as usize), t);
    let uu = u as usize;
    let j = choose|j: int|
        0 <= j < g.modules[uu as int].edges.len() && (#[trigger] g.modules[uu as int].edges[j]).dynamic
            && g.modules[uu as int].edges[j].active && g.modules[uu as int].edges[j].full_namespace
            && g.modules[uu as int].edges[j].target == t;
    assert(g.modules[uu as int].edges[j].dynamic && g.modules[uu as int].edges[j].active
        && g.modules[uu as int].edges[j].target == t);
    assert(module_dyn_imports(g, uu, t));
}

/// Facade chunks own no modules and inherit exactly the group memberships
/// their source chunk had when split.
pub proof fn lemma_facade_chunks_empty(g: GraphV, concat: Seq<bool>, fac: Seq<Option<usize>>)
    requires
        membership_wf(g),
        fac_wf(g, fac),
        g.modules.len() <= usize::MAX,
        g.chunks.len() + g.modules.len() <= usize::MAX,
    ensures
        ({
            let q = facade_queue(g, concat, fac);
            let g1 = spec_apply_facades(g, q, q.len() as int);
            forall|t: int|
                0 <= t < g.modules.len() && needs_facade(g, concat, fac, #[trigger] (t as usize))
                    ==> spec_facade_mapping(g, concat, fac, t) is Some && (spec_facade_mapping(
                    g,
                    concat,
                    fac,
                    t,
                )->0 as int) < g1.chunks.len() && g1.chunks[spec_facade_mapping(
                    g,
                    concat,
                    fac,
                    t,
                )->0 as int].modules == Seq::<usize>::empty() && g1.chunks[spec_facade_mapping(
                    g,
                    concat,
                    fac,
                    t,
                )->0 as int].groups == g.chunks[effective_chunk(g, fac, (t as usize))->0 as int].groups
        }),
{
    let q = facade_queue(g, concat, fac);
    let g1 = spec_apply_facades(g, q, q.len() as int);
    lemma_facade_queue_facts(g, concat, fac, g.modules.len() as int);
    lemma_apply_facade_facts(g, q, q.len() as int);
    assert forall|t: int|
        0 <= t < g.modules.len() && needs_facade(g, concat, fac, #[trigger] (t as usize)) implies (
    spec_facade_mapping(g, concat, fac, t) is Some && (spec_facade_mapping(g, concat, fac, t)->0
        as int) < g1.chunks.len() && g1.chunks[spec_facade_mapping(g, concat, fac, t)->0 as int].modules
        == Seq::<usize>::empty() && g1.chunks[spec_facade_mapping(g, concat, fac, t)->0 as int].groups
        == g.chunks[effective_chunk(g, fac, (t as usize))->0 as int].groups) by {
        let r = facade_queue_prefix(g, concat, fac, t).len() as int;
        assert(q[r] == (((t as usize), effective_chunk(g, fac, (t as usize))->0)));
        assert(g1.chunks[g.chunks.len() + r].modules == Seq::<usize>::empty());
        assert(g1.chunks[g.chunks.len() + r].groups == g.chunks[q[r].1 as int].groups);
        assert(spec_facade_mapping(g, concat, fac, t) == Some(
            (g.chunks.len() + r) as usize,
        ));
    }
}

/// Two distinct namespace targets sharing one multi-module, non-entry chunk,
/// each referenced from outside that chunk, both receive facades, and the
/// facades differ.
pub proof fn lemma_distinct_namespace_facades(
    g: GraphV,
    concat: Seq<bool>,
    fac: Seq<Option<usize>>,
    t1: usize,
    t2: usize,
)
    requires
        membership_wf(g),
        fac_wf(g, fac),
        g.modules.len() <= usize::MAX,
        g.chunks.len() + g.modules.len() <= usize::MAX,
        t1 != t2,
        (t1 as int) < g.modules.len(),
        (t2 as int) < g.modules.len(),
        is_namespace_target(g, concat, t1),
        is_namespace_target(g, concat, t2),
        !g.modules[t1 as int].external,
        !g.modules[t2 as int].external,
        fac[t1 as int] is None,
        fac[t2 as int] is None,
        chunk_of(g, t1) is Some,
        chunk_of(g, t1) == chunk_of(g, t2),
        !is_entry_chunk(g, chunk_of(g, t1)->0),
        cross_chunk_referenced(g, t1),
        cross_chunk_referenced(g, t2),
    ensures
        spec_facade_mapping(g, concat, fac, t1 as int) is Some,
        spec_facade_mapping(g, concat, fac, t2 as int) is Some,
        spec_facade_mapping(g, concat, fac, t1 as int) != spec_facade_mapping(
            g,
            concat,
            fac,
            t2 as int,
        ),
{
    let c = chunk_of(g, t1)->0;
    lemma_ns_implies_dyn(g, concat, t1);
    lemma_ns_implies_dyn(g, concat, t2);
    lemma_chunk_of_from_props(g, t1, 0);
    lemma_chunk_of_from_props(g, t2, 0);
    let k1 = choose|k: int| 0 <= k < g.chunks[c as int].modules.len() && g.chunks[c as int].modules[k] == t1;
    let k2 = choose|k: int| 0 <= k < g.chunks[c as int].modules.len() && g.chunks[c as int].modules[k] == t2;
    assert(k1 != k2);
    assert(g.chunks[c as int].modules.len() > 1);
    assert(has_cross_sibling(g, c as int, t1)) by {
        assert(g.chunks[c as int].modules[k2] != t1 && cross_chunk_referenced(
            g,
            g.chunks[c as int].modules[k2],
        ));
    }
    assert(has_cross_sibling(g, c as int, t2)) by {
        assert(g.chunks[c as int].modules[k1] != t2 && cross_chunk_referenced(
            g,
            g.chunks[c as int].modules[k1],
        ));
    }
    assert(effective_chunk(g, fac, t1) == Some(c));
    assert(effective_chunk(g, fac, t2) == Some(c));
    assert(needs_facade(g, concat, fac, t1));
    assert(needs_facade(g, concat, fac, t2));
    lemma_facade_queue_facts(g, concat, fac, g.modules.len() as int);
    let q = facade_queue(g, concat, fac);
    let r1 = facade_queue_prefix(g, concat, fac, t1 as int).len() as int;
    let r2 = facade_queue_prefix(g, concat, fac, t2 as int).len() as int;
    assert(((t1 as int) as usize) == t1);
    assert(needs_facade(g, concat, fac, ((t1 as int) as usize)));
    assert(((t2 as int) as usize) == t2);
    assert(needs_facade(g, concat, fac, ((t2 as int) as usize)));
    assert(q[r1] == ((t1, effective_chunk(g, fac, t1)->0)));
    assert(q[r2] == ((t2, effective_chunk(g, fac, t2)->0)));
    assert(r1 != r2);
    assert(q.len() <= g.modules.len());
    assert(spec_facade_mapping(g, concat, fac, t1 as int) == Some(
        (g.chunks.len() + r1) as usize,
    ));
    assert(spec_facade_mapping(g, concat, fac, t2 as int) == Some(
        (g.chunks.len() + r2) as usize,
    ));
}

} // verus!
