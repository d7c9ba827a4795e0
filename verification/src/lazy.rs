use vstd::prelude::*;
use crate::graph::contains_usize;

verus! {

// ----------------------------------------------------------------------------
// Promoting lazily made dependencies: when the build requests some of a
// module's lazy dependencies, those that were still lazy are unset and handed
// back as a processing task.
// ----------------------------------------------------------------------------

/// Which modules keep lazily made dependencies, and which.
pub struct ModuleToLazyMake {
    /// Per module: the dependency ids made lazily, when the module has any.
    pub lazy_dependencies: Vec<Option<Vec<usize>>>,
}

/// The dependency ids a graph-update round asks for.
pub struct ForwardedIdSet {
    pub ids: Vec<usize>,
}

/// The mutable per-dependency lazy flags of the module graph.
pub struct ModuleGraphDeps {
    pub lazy: Vec<bool>,
}

/// A follow-up processing task over freshly unset dependencies.
pub struct ProcessDependenciesTask {
    pub dependencies: Vec<usize>,
    pub original_module_identifier: usize,
    pub from_unlazy: bool,
}

/// The requested lazy dependencies: the module's lazy dependency ids that the
/// forwarded set names, in declaration order, among the first `k`.
pub open spec fn spec_requested(lazy_deps: Seq<usize>, fwd: Seq<usize>, k: int) -> Seq<usize>
    decreases k,
{
    if k <= 0 {
        Seq::empty()
    } else {
        let rest = spec_requested(lazy_deps, fwd, k - 1);
        if fwd.contains(lazy_deps[k - 1]) {
            rest.push(lazy_deps[k - 1])
        } else {
            rest
        }
    }
}

/// Of the requested ids, those whose lazy flag was still set when reached:
/// a repeated id is collected only at its first occurrence.
pub open spec fn spec_still_lazy(requested: Seq<usize>, flags: Seq<bool>, k: int) -> Seq<usize>
    decreases k,
{
    if k <= 0 {
        Seq::empty()
    } else {
        let rest = spec_still_lazy(requested, flags, k - 1);
        if flags[requested[k - 1] as int] && !requested.subrange(0, k - 1).contains(
            requested[k - 1],
        ) {
            rest.push(requested[k - 1])
        } else {
            rest
        }
    }
}

/// Unsets the requested lazy dependencies of a module and returns the task
/// processing those that were still lazy, or nothing when none was.
pub fn process_unlazy_dependencies(
    module_to_lazy_make: &ModuleToLazyMake,
    module_graph: &mut ModuleGraphDeps,
    forwarded_ids: &ForwardedIdSet,
    original_module_identifier: usize,
) -> (r: Option<ProcessDependenciesTask>)
    requires
        original_module_identifier < module_to_lazy_make.lazy_dependencies@.len(),
        module_to_lazy_make.lazy_dependencies@[original_module_identifier as int] is Some,
        forall|j: int|
            0 <= j < module_to_lazy_make.lazy_dependencies@[original_module_identifier as int]->0@.len()
                ==> (#[trigger] module_to_lazy_make.lazy_dependencies@[original_module_identifier as int]->0@[j])
                < old(module_graph).lazy@.len(),
    ensures
        ({
            let deps = module_to_lazy_make.lazy_dependencies@[original_module_identifier as int]->0;
            let requested = spec_requested(deps@, forwarded_ids.ids@, deps@.len() as int);
            let collected = spec_still_lazy(
                requested,
                old(module_graph).lazy@,
                requested.len() as int,
            );
            &&& final(module_graph).lazy@.len() == old(module_graph).lazy@.len()
            &&& forall|d: int|
                0 <= d < old(module_graph).lazy@.len() ==> final(module_graph).lazy@[d] == (
                if requested.contains(d as usize) {
                    false
                } else {
                    old(module_graph).lazy@[d]
                })
            &&& (r is None <==> collected.len() == 0)
            &&& r matches Some(task) ==> (task.dependencies@ == collected
                && task.original_module_identifier == original_module_identifier
                && task.from_unlazy)
        }),
{
    let _nflags = module_graph.lazy.len();
    let deps = match &module_to_lazy_make.lazy_dependencies[original_module_identifier] {
        Some(d) => d,
        None => unreached(),
    };
    let ghost depsv = deps@;
    let ghost fwd = forwarded_ids.ids@;
    let ghost flags0 = module_graph.lazy@;
    // Phase 1: the requested lazy dependencies, in declaration order.
    let mut requested: Vec<usize> = Vec::new();
    let n = deps.len();
    for j in 0..n
        invariant
            n == depsv.len(),
            deps@ == depsv,
            fwd == forwarded_ids.ids@,
            requested@ == spec_requested(depsv, fwd, j as int),
            module_graph.lazy@ == flags0,
    {
        if contains_usize(&forwarded_ids.ids, deps[j]) {
            requested.push(deps[j]);
        }
        proof {
            assert(requested@ =~= spec_requested(depsv, fwd, j + 1));
        }
    }
    // Phase 2: unset each requested dependency, collecting those still lazy.
    let ghost reqv = requested@;
    let mut collected: Vec<usize> = Vec::new();
    let m = requested.len();
    proof {
        lemma_requested_in_range(depsv, fwd, depsv.len() as int, flags0.len() as int);
    }
    for j in 0..m
        invariant
            m == reqv.len(),
            requested@ == reqv,
            flags0.len() <= usize::MAX,
            forall|i: int| 0 <= i < reqv.len() ==> (#[trigger] reqv[i] as int) < flags0.len(),
            module_graph.lazy@.len() == flags0.len(),
            collected@ == spec_still_lazy(reqv, flags0, j as int),
            forall|d: int|
                0 <= d < flags0.len() ==> module_graph.lazy@[d] == (if reqv.subrange(
                    0,
                    j as int,
                ).contains(d as usize) {
                    false
                } else {
                    flags0[d]
                }),
    {
        let dep = requested[j];
        let ghost cur = module_graph.lazy@;
        let was = module_graph.lazy[dep];
        module_graph.lazy[dep] = false;
        if was {
            collected.push(dep);
        }
        proof {
            assert(((dep as int) as usize) == dep);
            assert(cur[dep as int] == (if reqv.subrange(0, j as int).contains(
                ((dep as int) as usize),
            ) {
                false
            } else {
                flags0[dep as int]
            }));
            assert(reqv.subrange(0, j as int).push(reqv[j as int]) =~= reqv.subrange(0, j + 1));
            assert(was == (flags0[reqv[j as int] as int] && !reqv.subrange(0, j as int).contains(
                reqv[j as int],
            )));
            assert(collected@ =~= spec_still_lazy(reqv, flags0, j + 1));
            assert forall|d: int|
                0 <= d < flags0.len() implies module_graph.lazy@[d] == (if reqv.subrange(
                0,
                j + 1,
            ).contains(d as usize) {
                false
            } else {
                flags0[d]
            }) by {
                if reqv.subrange(0, j as int).contains(d as usize) {
                    let w = choose|w: int|
                        0 <= w < j && (#[trigger] reqv.subrange(0, j as int)[w]) == d as usize;
                    assert(reqv.subrange(0, j + 1)[w] == d as usize);
                } else if reqv.subrange(0, j + 1).contains(d as usize) {
                    let w = choose|w: int|
                        0 <= w < j + 1 && (#[trigger] reqv.subrange(0, j + 1)[w]) == d as usize;
                    assert(w == j);
                    assert(reqv[j as int] == d as usize);
                    assert(d == dep as int);
                } else {
                    assert(reqv.subrange(0, j + 1)[j as int] == dep);
                    assert(reqv.subrange(0, j + 1).contains(dep));
                    assert(d != dep as int);
                    assert(module_graph.lazy@[d] == cur[d]);
                }
            }
        }
    }
    proof {
        assert(reqv.subrange(0, reqv.len() as int) =~= reqv);
    }
    if collected.len() == 0 {
        proof {
            assert(spec_still_lazy(reqv, flags0, reqv.len() as int).len() == 0);
        }
        return None;
    }
    Some(
        ProcessDependenciesTask {
            dependencies: collected,
            original_module_identifier,
            from_unlazy: true,
        },
    )
}

/// Every requested id stays within the dependency table.
proof fn lemma_requested_in_range(deps: Seq<usize>, fwd: Seq<usize>, k: int, bound: int)
    requires
        0 <= k <= deps.len(),
        forall|j: int| 0 <= j < deps.len() ==> (#[trigger] deps[j] as int) < bound,
    ensures
        forall|i: int|
            0 <= i < spec_requested(deps, fwd, k).len() ==> (#[trigger] spec_requested(
                deps,
                fwd,
                k,
            )[i] as int) < bound,
    decreases k,
{
    if k > 0 {
        lemma_requested_in_range(deps, fwd, k - 1, bound);
        let prev = spec_requested(deps, fwd, k - 1);
        let curq = spec_requested(deps, fwd, k);
        assert forall|i: int| 0 <= i < curq.len() implies (#[trigger] curq[i] as int) < bound by {
            if i < prev.len() {
                assert((prev[i] as int) < bound);
                assert(prev[i] == curq[i]);
            } else {
                assert(curq[i] == deps[k - 1]);
            }
        }
    }
}

} // verus!
