use vstd::prelude::*;

verus! {

// ----------------------------------------------------------------------------
// The chunk-graph store: modules with their active import edges, chunks with
// their member modules and group memberships, chunk groups, and the
// entrypoints among them.  The optimizer rewrites this store; code generation
// reads it.  Every structure has a ghost model over `Seq`, and every mutation
// is specified as a function on that model.
// ----------------------------------------------------------------------------

/// An active outgoing import edge of a module.
pub struct Edge {
    /// Index of the imported module.
    pub target: usize,
    /// True for a dynamic (lazily loaded) import, false for a static one.
    pub dynamic: bool,
    /// True while export-usage analysis keeps the edge live.
    pub active: bool,
    /// For dynamic edges: the consumer needs the full, unenumerable namespace.
    pub full_namespace: bool,
}

#[verifier::ext_equal]
pub struct EdgeV {
    pub target: usize,
    pub dynamic: bool,
    pub active: bool,
    pub full_namespace: bool,
}

impl View for Edge {
    type V = EdgeV;

    open spec fn view(&self) -> EdgeV {
        EdgeV {
            target: self.target,
            dynamic: self.dynamic,
            active: self.active,
            full_namespace: self.full_namespace,
        }
    }
}

/// A module of the graph snapshot.
pub struct Module {
    /// The module identifier used inside emitted expressions.
    pub id: String,
    /// Host-provided (external) module.
    pub external: bool,
    /// The module needs asynchronous evaluation.
    pub is_async: bool,
    /// Active outgoing import edges.
    pub edges: Vec<Edge>,
}

#[verifier::ext_equal]
pub struct ModuleV {
    pub id: Seq<char>,
    pub external: bool,
    pub is_async: bool,
    pub edges: Seq<EdgeV>,
}

impl View for Module {
    type V = ModuleV;

    open spec fn view(&self) -> ModuleV {
        ModuleV {
            id: self.id@,
            external: self.external,
            is_async: self.is_async,
            edges: self.edges@.map_values(|e: Edge| e@),
        }
    }
}

/// A deliverable output unit owning a set of modules.
pub struct Chunk {
    /// Member modules.
    pub modules: Vec<usize>,
    /// Groups this chunk belongs to.
    pub groups: Vec<usize>,
    /// Entry linkage: (module, entrypoint group) pairs attached to this chunk.
    pub entry_modules: Vec<(usize, usize)>,
    /// Runtime assignment.
    pub runtime: u64,
    /// Never eligible for later chunk merging.
    pub prevent_integration: bool,
    /// Hints for id naming.
    pub id_name_hints: Vec<String>,
}

#[verifier::ext_equal]
pub struct ChunkV {
    pub modules: Seq<usize>,
    pub groups: Seq<usize>,
    pub entry_modules: Seq<(usize, usize)>,
    pub runtime: u64,
    pub prevent_integration: bool,
    pub id_name_hints: Seq<Seq<char>>,
}

impl View for Chunk {
    type V = ChunkV;

    open spec fn view(&self) -> ChunkV {
        ChunkV {
            modules: self.modules@,
            groups: self.groups@,
            entry_modules: self.entry_modules@,
            runtime: self.runtime,
            prevent_integration: self.prevent_integration,
            id_name_hints: self.id_name_hints.deep_view(),
        }
    }
}

/// An ordered collection of chunks delivered together.
pub struct Group {
    /// The chunks of the group, in load order.
    pub chunks: Vec<usize>,
    /// Eagerly loaded.
    pub initial: bool,
    /// For an entrypoint: its designated entry chunk.
    pub entry_chunk: Option<usize>,
    /// Explicit runtime chunk; an entrypoint without one uses its entry chunk.
    pub runtime_chunk: Option<usize>,
}

#[verifier::ext_equal]
pub struct GroupV {
    pub chunks: Seq<usize>,
    pub initial: bool,
    pub entry_chunk: Option<usize>,
    pub runtime_chunk: Option<usize>,
}

impl View for Group {
    type V = GroupV;

    open spec fn view(&self) -> GroupV {
        GroupV {
            chunks: self.chunks@,
            initial: self.initial,
            entry_chunk: self.entry_chunk,
            runtime_chunk: self.runtime_chunk,
        }
    }
}

/// The whole store, together with the stream of chunk-added mutation events.
pub struct Graph {
    pub modules: Vec<Module>,
    pub chunks: Vec<Chunk>,
    pub groups: Vec<Group>,
    /// Indices of the entrypoint groups, in declaration order.
    pub entrypoints: Vec<usize>,
    /// Every chunk allocated by this subsystem, reported for incremental
    /// observers, in allocation order.
    pub added_chunks: Vec<usize>,
}

#[verifier::ext_equal]
pub struct GraphV {
    pub modules: Seq<ModuleV>,
    pub chunks: Seq<ChunkV>,
    pub groups: Seq<GroupV>,
    pub entrypoints: Seq<usize>,
    pub added_chunks: Seq<usize>,
}

impl View for Graph {
    type V = GraphV;

    open spec fn view(&self) -> GraphV {
        GraphV {
            modules: self.modules@.map_values(|m: Module| m@),
            chunks: self.chunks@.map_values(|c: Chunk| c@),
            groups: self.groups@.map_values(|gr: Group| gr@),
            entrypoints: self.entrypoints@,
            added_chunks: self.added_chunks@,
        }
    }
}

// ----------------------------------------------------------------------------
// Well-formedness
// ----------------------------------------------------------------------------

/// Every edge targets a module of the graph.
pub open spec fn edges_wf(g: GraphV) -> bool {
    forall|m: int, j: int|
        0 <= m < g.modules.len() && 0 <= j < g.modules[m].edges.len() ==> (
        #[trigger] g.modules[m].edges[j]).target < g.modules.len()
}

/// Chunk member lists name modules of the graph, and no module appears twice,
/// in one chunk or in two.
pub open spec fn chunk_modules_wf(g: GraphV) -> bool {
    &&& forall|c: int, k: int|
        0 <= c < g.chunks.len() && 0 <= k < g.chunks[c].modules.len() ==> (#[trigger] g.chunks[c]
            .modules[k]) < g.modules.len()
    &&& forall|c1: int, k1: int, c2: int, k2: int|
        0 <= c1 < g.chunks.len() && 0 <= k1 < g.chunks[c1].modules.len() && 0 <= c2
            < g.chunks.len() && 0 <= k2 < g.chunks[c2].modules.len() && #[trigger] g.chunks[c1]
            .modules[k1] == #[trigger] g.chunks[c2].modules[k2] ==> c1 == c2 && k1 == k2
}

/// Chunk and group membership lists agree in both directions and hold no
/// duplicates.
pub open spec fn membership_wf(g: GraphV) -> bool {
    &&& forall|c: int, k: int|
        0 <= c < g.chunks.len() && 0 <= k < g.chunks[c].groups.len() ==> (#[trigger] g.chunks[c]
            .groups[k]) < g.groups.len() && g.groups[g.chunks[c].groups[k] as int].chunks.contains(
            c as usize,
        )
    &&& forall|c: int, k1: int, k2: int|
        0 <= c < g.chunks.len() && 0 <= k1 < g.chunks[c].groups.len() && 0 <= k2 < g.chunks[c]
            .groups.len() && #[trigger] g.chunks[c].groups[k1] == #[trigger] g.chunks[c].groups[k2]
            ==> k1 == k2
    &&& forall|gr: int, k: int|
        0 <= gr < g.groups.len() && 0 <= k < g.groups[gr].chunks.len() ==> (#[trigger] g.groups[gr]
            .chunks[k]) < g.chunks.len() && g.chunks[g.groups[gr].chunks[k] as int].groups.contains(
            gr as usize,
        )
    &&& forall|gr: int, k1: int, k2: int|
        0 <= gr < g.groups.len() && 0 <= k1 < g.groups[gr].chunks.len() && 0 <= k2 < g.groups[gr]
            .chunks.len() && #[trigger] g.groups[gr].chunks[k1] == #[trigger] g.groups[gr]
            .chunks[k2] ==> k1 == k2
}

/// Entrypoints name groups that have an in-range entry chunk among their
/// chunks; every explicit runtime chunk is in range.
pub open spec fn entrypoints_wf(g: GraphV) -> bool {
    &&& forall|i: int|
        0 <= i < g.entrypoints.len() ==> (#[trigger] g.entrypoints[i]) < g.groups.len()
            && g.groups[g.entrypoints[i] as int].entry_chunk is Some
    &&& forall|gr: int|
        0 <= gr < g.groups.len() && #[trigger] g.groups[gr].entry_chunk is Some
            ==> g.groups[gr].entry_chunk->0 < g.chunks.len() && g.groups[gr].chunks.contains(
            g.groups[gr].entry_chunk->0,
        )
    &&& forall|gr: int|
        0 <= gr < g.groups.len() && #[trigger] g.groups[gr].runtime_chunk is Some
            ==> g.groups[gr].runtime_chunk->0 < g.chunks.len()
}

/// Entry linkage names modules and groups of the graph.
pub open spec fn entry_modules_wf(g: GraphV) -> bool {
    forall|c: int, k: int|
        0 <= c < g.chunks.len() && 0 <= k < g.chunks[c].entry_modules.len() ==> (
        #[trigger] g.chunks[c].entry_modules[k]).0 < g.modules.len() && g.chunks[c]
            .entry_modules[k].1 < g.groups.len()
}

/// Well-formedness of the whole store.
pub open spec fn wf(g: GraphV) -> bool {
    &&& edges_wf(g)
    &&& chunk_modules_wf(g)
    &&& membership_wf(g)
    &&& entrypoints_wf(g)
    &&& entry_modules_wf(g)
}

// ----------------------------------------------------------------------------
// Spec helpers
// ----------------------------------------------------------------------------

/// First index of `x` in `s` at or after `from`, or -1.
pub open spec fn find_index(s: Seq<usize>, x: usize, from: int) -> int
    decreases s.len() - from,
{
    if from < 0 || from >= s.len() {
        -1
    } else if s[from] == x {
        from
    } else {
        find_index(s, x, from + 1)
    }
}

/// Inserts `n` directly after the first occurrence of `x`, or at the end when
/// `x` does not occur.
pub open spec fn insert_after_first(s: Seq<usize>, x: usize, n: usize) -> Seq<usize> {
    let i = find_index(s, x, 0);
    if i >= 0 {
        s.insert(i + 1, n)
    } else {
        s.push(n)
    }
}

/// The chunk holding module `m`, searching from chunk `c` upward.
pub open spec fn chunk_of_from(g: GraphV, m: usize, c: int) -> Option<usize>
    decreases g.chunks.len() - c,
{
    if c < 0 || c >= g.chunks.len() {
        None
    } else if g.chunks[c].modules.contains(m) {
        Some(c as usize)
    } else {
        chunk_of_from(g, m, c + 1)
    }
}

/// The chunk holding module `m`: the lowest-numbered one, which under
/// `chunk_modules_wf` is the only one.
pub open spec fn chunk_of(g: GraphV, m: usize) -> Option<usize> {
    chunk_of_from(g, m, 0)
}

/// Chunk `c` is the designated entry chunk of some entrypoint.
pub open spec fn is_entry_chunk(g: GraphV, c: usize) -> bool {
    exists|i: int|
        0 <= i < g.entrypoints.len() && g.groups[#[trigger] g.entrypoints[i] as int].entry_chunk
            == Some(c)
}

/// The runtime chunk of an entrypoint group: the explicit one, or its entry
/// chunk.
pub open spec fn runtime_chunk_of(gr: GroupV) -> Option<usize> {
    match gr.runtime_chunk {
        Some(r) => Some(r),
        None => gr.entry_chunk,
    }
}

/// A freshly allocated chunk: empty, unflagged, in no group.
pub open spec fn empty_chunk() -> ChunkV {
    ChunkV {
        modules: Seq::empty(),
        groups: Seq::empty(),
        entry_modules: Seq::empty(),
        runtime: 0,
        prevent_integration: false,
        id_name_hints: Seq::empty(),
    }
}

/// The model of `add_chunk`: one fresh chunk plus its mutation event.
pub open spec fn spec_add_chunk(g: GraphV) -> GraphV {
    GraphV {
        chunks: g.chunks.push(empty_chunk()),
        added_chunks: g.added_chunks.push(g.chunks.len() as usize),
        ..g
    }
}

/// The group table after inserting `new_c` after `source` in the first `k`
/// groups of `src_groups`.
pub open spec fn split_groups_prefix(
    groups: Seq<GroupV>,
    src_groups: Seq<usize>,
    k: int,
    source: usize,
    new_c: usize,
) -> Seq<GroupV>
    decreases k,
{
    if k <= 0 {
        groups
    } else {
        let prev = split_groups_prefix(groups, src_groups, k - 1, source, new_c);
        let gid = src_groups[k - 1] as int;
        prev.update(
            gid,
            GroupV { chunks: insert_after_first(prev[gid].chunks, source, new_c), ..prev[gid] },
        )
    }
}

/// The model of the structural split primitive: `new_c` inherits the group
/// memberships `source` has and joins each of those groups right after
/// `source`; no module moves.
pub open spec fn spec_split_chunk(g: GraphV, source: usize, new_c: usize) -> GraphV {
    let src_groups = g.chunks[source as int].groups;
    GraphV {
        chunks: g.chunks.update(
            new_c as int,
            ChunkV { groups: src_groups, ..g.chunks[new_c as int] },
        ),
        groups: split_groups_prefix(g.groups, src_groups, src_groups.len() as int, source, new_c),
        ..g
    }
}

// ----------------------------------------------------------------------------
// Exec helpers
// ----------------------------------------------------------------------------

/// Copies a vector of indices.
pub fn copy_usize_vec(v: &Vec<usize>) -> (r: Vec<usize>)
    ensures
        r@ == v@,
{
    let mut r: Vec<usize> = Vec::new();
    for i in 0..v.len()
        invariant
            r@ == v@.subrange(0, i as int),
    {
        r.push(v[i]);
        proof {
            assert(r@ =~= v@.subrange(0, i + 1));
        }
    }
    proof {
        assert(v@.subrange(0, v@.len() as int) =~= v@);
    }
    r
}

/// Membership test on a vector of indices.
pub fn contains_usize(v: &Vec<usize>, x: usize) -> (r: bool)
    ensures
        r == v@.contains(x),
{
    for i in 0..v.len()
        invariant
            forall|j: int| 0 <= j < i ==> v@[j] != x,
    {
        if v[i] == x {
            return true;
        }
    }
    false
}

/// First position of `x` in `v`, matching `find_index`.
pub fn index_of_usize(v: &Vec<usize>, x: usize) -> (r: Option<usize>)
    ensures
        match r {
            Some(i) => find_index(v@, x, 0) == i as int,
            None => find_index(v@, x, 0) == -1,
        },
{
    for i in 0..v.len()
        invariant
            find_index(v@, x, 0) == find_index(v@, x, i as int),
    {
        if v[i] == x {
            return Some(i);
        }
    }
    None
}

impl Graph {
    /// Allocates a fresh empty chunk, registers it, and reports the mutation
    /// event; returns its index.
    pub fn add_chunk(&mut self) -> (c: usize)
        ensures
            final(self)@ == spec_add_chunk(old(self)@),
            c as int == old(self)@.chunks.len(),
    {
        let c = self.chunks.len();
        self.chunks.push(
            Chunk {
                modules: Vec::new(),
                groups: Vec::new(),
                entry_modules: Vec::new(),
                runtime: 0,
                prevent_integration: false,
                id_name_hints: Vec::new(),
            },
        );
        self.added_chunks.push(c);
        proof {
            assert(self@.chunks =~~= spec_add_chunk(old(self)@).chunks);
            assert(self@ =~~= spec_add_chunk(old(self)@));
        }
        c
    }

    /// The chunk holding module `m`, if any.
    pub fn module_chunk(&self, m: usize) -> (r: Option<usize>)
        ensures
            r == chunk_of(self@, m),
    {
        for c in 0..self.chunks.len()
            invariant
                chunk_of(self@, m) == chunk_of_from(self@, m, c as int),
        {
            if contains_usize(&self.chunks[c].modules, m) {
                return Some(c);
            }
        }
        None
    }

    /// The structural split primitive shared by every chunk-creating pass:
    /// `new_c` (a fresh chunk in no group) inherits `source`'s group
    /// memberships and joins each of those groups right after `source`.
    pub fn split_chunk(&mut self, source: usize, new_c: usize)
        requires
            source < old(self)@.chunks.len(),
            new_c < old(self)@.chunks.len(),
            source != new_c,
            old(self)@.chunks[new_c as int].groups.len() == 0,
            forall|k: int|
                0 <= k < old(self)@.chunks[source as int].groups.len() ==> (
                #[trigger] old(self)@.chunks[source as int].groups[k]) < old(self)@.groups.len()
                    && old(self)@.groups[old(self)@.chunks[source as int].groups[k] as int].chunks.contains(
                    source,
                ),
        ensures
            final(self)@ == spec_split_chunk(old(self)@, source, new_c),
    {
        let src_groups = copy_usize_vec(&self.chunks[source].groups);
        let copied = copy_usize_vec(&src_groups);
        self.chunks[new_c].groups = copied;
        proof {
            assert(self@.chunks =~= spec_split_chunk(old(self)@, source, new_c).chunks);
            assert(self@.groups =~= split_groups_prefix(
                old(self)@.groups,
                src_groups@,
                0,
                source,
                new_c,
            ));
        }
        for k in 0..src_groups.len()
            invariant
                src_groups@ == old(self)@.chunks[source as int].groups,
                self@.chunks == spec_split_chunk(old(self)@, source, new_c).chunks,
                self@.modules == old(self)@.modules,
                self@.entrypoints == old(self)@.entrypoints,
                self@.added_chunks == old(self)@.added_chunks,
                self@.groups == split_groups_prefix(
                    old(self)@.groups,
                    src_groups@,
                    k as int,
                    source,
                    new_c,
                ),
                self@.groups.len() == old(self)@.groups.len(),
                forall|j: int|
                    0 <= j < src_groups@.len() ==> (#[trigger] src_groups@[j])
                        < old(self)@.groups.len(),
                forall|j: int|
                    k <= j < src_groups@.len() ==> self@.groups[#[trigger] src_groups@[j] as int].chunks.contains(
                        source,
                    ),
        {
            let gid = src_groups[k];
            let pos = match index_of_usize(&self.groups[gid].chunks, source) {
                Some(p) => p,
                None => {
                    proof {
                        lemma_find_index_contains(self@.groups[gid as int].chunks, source);
                    }
                    unreached()
                },
            };
            proof {
                lemma_find_index_bounds(self@.groups[gid as int].chunks, source, 0);
            }
            let glen = self.groups[gid].chunks.len();
            assert(pos < glen);
            self.groups[gid].chunks.insert(pos + 1, new_c);
            proof {
                let prev = split_groups_prefix(
                    old(self)@.groups,
                    src_groups@,
                    k as int,
                    source,
                    new_c,
                );
                assert(self@.groups =~= split_groups_prefix(
                    old(self)@.groups,
                    src_groups@,
                    k + 1,
                    source,
                    new_c,
                ));
                assert forall|j: int|
                    k + 1 <= j < src_groups@.len() implies self@.groups[
                #[trigger] src_groups@[j] as int].chunks.contains(source) by {
                    let gj = src_groups@[j] as int;
                    if gj == gid as int {
                        let cs = prev[gj].chunks;
                        let idx = choose|x: int| 0 <= x < cs.len() && cs[x] == source;
                        let ncs = self@.groups[gj].chunks;
                        if idx <= find_index(cs, source, 0) {
                            assert(ncs[idx] == source);
                        } else {
                            assert(ncs[idx + 1] == source);
                        }
                    }
                }
            }
        }
        proof {
            assert(self@ =~~= spec_split_chunk(old(self)@, source, new_c));
        }
    }
}

/// If `find_index` misses, the sequence does not contain the element.
pub proof fn lemma_find_index_contains(s: Seq<usize>, x: usize)
    requires
        s.contains(x),
    ensures
        find_index(s, x, 0) >= 0,
{
    let w = choose|i: int| 0 <= i < s.len() && s[i] == x;
    lemma_find_index_finds(s, x, 0, w);
}

/// `find_index` starting at or before a witness succeeds.
proof fn lemma_find_index_finds(s: Seq<usize>, x: usize, from: int, w: int)
    requires
        0 <= from <= w < s.len(),
        s[w] == x,
    ensures
        find_index(s, x, from) >= 0,
    decreases w - from,
{
    if s[from] != x {
        lemma_find_index_finds(s, x, from + 1, w);
    }
}

/// A successful `find_index` is in range and points at the element.
pub proof fn lemma_find_index_bounds(s: Seq<usize>, x: usize, from: int)
    requires
        from >= 0,
    ensures
        find_index(s, x, from) == -1 || (from <= find_index(s, x, from) < s.len() && s[find_index(
            s,
            x,
            from,
        )] == x),
    decreases s.len() - from,
{
    if from < s.len() && s[from] != x {
        lemma_find_index_bounds(s, x, from + 1);
    }
}

/// Under unique membership, the chunk found for a member module is exactly
/// the chunk holding it.
pub proof fn lemma_chunk_of_unique(g: GraphV, m: usize, c: usize)
    requires
        chunk_modules_wf(g),
        (c as int) < g.chunks.len(),
        g.chunks[c as int].modules.contains(m),
    ensures
        chunk_of(g, m) == Some(c),
{
    lemma_chunk_of_scan(g, m, c, 0);
}

/// Helper: scanning from any point at or before the unique holder finds it.
proof fn lemma_chunk_of_scan(g: GraphV, m: usize, c: usize, i: int)
    requires
        chunk_modules_wf(g),
        (c as int) < g.chunks.len(),
        g.chunks[c as int].modules.contains(m),
        0 <= i <= c as int,
    ensures
        chunk_of_from(g, m, i) == Some(c),
    decreases (c as int) - i,
{
    if i < c as int {
        assert(!g.chunks[i].modules.contains(m)) by {
            if g.chunks[i].modules.contains(m) {
                let k1 = choose|k1: int|
                    0 <= k1 < g.chunks[i].modules.len() && g.chunks[i].modules[k1] == m;
                let k2 = choose|k2: int|
                    0 <= k2 < g.chunks[c as int].modules.len() && g.chunks[c as int].modules[k2]
                        == m;
                assert(g.chunks[i].modules[k1] == g.chunks[c as int].modules[k2]);
            }
        }
        lemma_chunk_of_scan(g, m, c, i + 1);
    }
}

/// A module in no chunk resolves to no chunk, and conversely.
pub proof fn lemma_chunk_of_none(g: GraphV, m: usize, i: int)
    requires
        0 <= i,
    ensures
        chunk_of_from(g, m, i) is None <==> forall|x: int|
            i <= x < g.chunks.len() ==> !(#[trigger] g.chunks[x]).modules.contains(m),
    decreases g.chunks.len() - i,
{
    if i < g.chunks.len() {
        lemma_chunk_of_none(g, m, i + 1);
    }
}

} // verus!
