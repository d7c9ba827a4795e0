use esm_chunks::codegen::{
    missing_module_promise, then_expr, DynamicImportDependencyTemplate, ExportsType, RenderedImport,
};
use esm_chunks::entry_guard::ensure_entry_exports;
use esm_chunks::facade::{ensure_dyn_import_namespace_facades, FacadeMap};
use esm_chunks::graph::{Chunk, Edge, Graph, Group, Module};
use esm_chunks::runtime_split::optimize_runtime_chunks;

fn module(id: &str, edges: Vec<Edge>) -> Module {
    Module { id: id.to_string(), external: false, is_async: false, edges }
}

fn edge(target: usize, dynamic: bool, full_namespace: bool) -> Edge {
    Edge { target, dynamic, active: true, full_namespace }
}

fn chunk(modules: Vec<usize>, groups: Vec<usize>) -> Chunk {
    Chunk {
        modules,
        groups,
        entry_modules: Vec::new(),
        runtime: 0,
        prevent_integration: false,
        id_name_hints: Vec::new(),
    }
}

/// Scenario: a single entry holding a single module, with no dynamic
/// imports, creates no chunk in any pass.
#[test]
fn single_entry_no_dynamic_imports_creates_nothing() {
    let mut g = Graph {
        modules: vec![module("a", vec![])],
        chunks: vec![chunk(vec![0], vec![0])],
        groups: vec![Group {
            chunks: vec![0],
            initial: true,
            entry_chunk: Some(0),
            runtime_chunk: None,
        }],
        entrypoints: vec![0],
        added_chunks: vec![],
    };
    ensure_entry_exports(&mut g);
    optimize_runtime_chunks(&mut g);
    let concat = vec![true];
    let mut facades = FacadeMap::empty(1);
    let (strict, all_dyn) = ensure_dyn_import_namespace_facades(&mut g, &concat, &mut facades);
    assert_eq!(g.chunks.len(), 1);
    assert!(g.added_chunks.is_empty());
    assert!(strict.is_empty());
    assert!(all_dyn.is_empty());
    assert_eq!(facades.get(0), None);
}

/// Scenario: a non-entry chunk statically importing from the entry chunk
/// forces the entry modules into a fresh chunk carrying the entry linkage,
/// and the runtime pointer follows.
#[test]
fn entry_chunk_required_from_outside_is_emptied() {
    // chunk 0 = { a } is the entry chunk; chunk 1 = { b }; b imports a.
    let mut g = Graph {
        modules: vec![module("a", vec![]), module("b", vec![edge(0, false, false)])],
        chunks: vec![chunk(vec![0], vec![0]), chunk(vec![1], vec![1])],
        groups: vec![
            Group { chunks: vec![0], initial: true, entry_chunk: Some(0), runtime_chunk: None },
            Group { chunks: vec![1], initial: false, entry_chunk: None, runtime_chunk: None },
        ],
        entrypoints: vec![0],
        added_chunks: vec![],
    };
    ensure_entry_exports(&mut g);
    assert_eq!(g.chunks.len(), 3);
    assert_eq!(g.added_chunks, vec![2]);
    // The old entry chunk owns nothing any more.
    assert!(g.chunks[0].modules.is_empty());
    assert!(g.chunks[0].entry_modules.is_empty());
    // The fresh chunk holds the entry module with its entry linkage, and
    // joined the entrypoint's group.
    assert_eq!(g.chunks[2].modules, vec![0]);
    assert_eq!(g.chunks[2].entry_modules, vec![(0, 0)]);
    assert_eq!(g.chunks[2].groups, vec![0]);
    assert_eq!(g.groups[0].chunks, vec![0, 2]);
    // The runtime pointer moved off the emptied chunk.
    assert_eq!(g.groups[0].runtime_chunk, Some(2));
    // Re-running the guard finds nothing new: a fixed point.
    let before = g.chunks.len();
    ensure_entry_exports(&mut g);
    assert_eq!(g.chunks.len(), before);
}

/// Scenario: an entrypoint whose runtime chunk equals its entry chunk inside
/// an initial group of two chunks gets a dedicated runtime chunk, placed
/// first in the group.
#[test]
fn runtime_chunk_is_split_from_multi_chunk_initial_group() {
    let mut g = Graph {
        modules: vec![module("a", vec![]), module("v", vec![])],
        chunks: vec![
            Chunk {
                modules: vec![0],
                groups: vec![0],
                entry_modules: vec![(0, 0)],
                runtime: 7,
                prevent_integration: false,
                id_name_hints: vec![],
            },
            chunk(vec![1], vec![0]),
        ],
        groups: vec![Group {
            chunks: vec![0, 1],
            initial: true,
            entry_chunk: Some(0),
            runtime_chunk: None,
        }],
        entrypoints: vec![0],
        added_chunks: vec![],
    };
    optimize_runtime_chunks(&mut g);
    assert_eq!(g.chunks.len(), 3);
    assert_eq!(g.groups[0].runtime_chunk, Some(2));
    assert_eq!(g.groups[0].chunks, vec![2, 0, 1]);
    assert_eq!(g.chunks[2].runtime, 7);
    assert!(g.chunks[2].prevent_integration);
    assert_eq!(g.chunks[2].id_name_hints, vec!["runtime".to_string()]);
    assert_eq!(g.chunks[2].groups, vec![0]);
    // Re-running splits nothing further.
    optimize_runtime_chunks(&mut g);
    assert_eq!(g.chunks.len(), 3);
}

/// Scenario: a namespace-consumed dynamic target sharing a three-module
/// chunk with a cross-chunk-referenced sibling is split into its own facade,
/// and its import site fetches that facade with no continuation.
#[test]
fn namespace_target_with_conflicting_sibling_gets_facade() {
    // chunk 0 = { m, p, q }; chunk 1 = { d, u }; d imports q (cross-chunk);
    // u dynamically imports m as a full namespace.
    let mut g = Graph {
        modules: vec![
            module("m", vec![]),
            module("p", vec![]),
            module("q", vec![]),
            module("d", vec![edge(2, false, false)]),
            module("u", vec![edge(0, true, true)]),
        ],
        chunks: vec![chunk(vec![0, 1, 2], vec![0]), chunk(vec![3, 4], vec![1])],
        groups: vec![
            Group { chunks: vec![0], initial: false, entry_chunk: None, runtime_chunk: None },
            Group { chunks: vec![1], initial: false, entry_chunk: None, runtime_chunk: None },
        ],
        entrypoints: vec![],
        added_chunks: vec![],
    };
    let concat = vec![true, true, true, true, true];
    let mut facades = FacadeMap::empty(5);
    let (strict, all_dyn) = ensure_dyn_import_namespace_facades(&mut g, &concat, &mut facades);
    assert_eq!(all_dyn, vec![0]);
    assert_eq!(g.chunks.len(), 3);
    assert_eq!(facades.get(0), Some(2));
    // The facade owns no modules and inherits the source chunk's groups.
    assert!(g.chunks[2].modules.is_empty());
    assert_eq!(g.chunks[2].groups, vec![0]);
    assert_eq!(g.groups[0].chunks, vec![0, 2]);
    assert!(strict.contains(&2));
    // Code generation fetches the facade with no continuation.
    let template = DynamicImportDependencyTemplate { facade_chunks: facades };
    let rendered = template.render(&g, 4, Some(0), "./m", ExportsType::Namespace, true, &concat);
    match rendered {
        RenderedImport::Expr(e) => assert_eq!(e, "import(\"__RSPACK_ESM_CHUNK_2\")"),
        RenderedImport::External => panic!("not an external target"),
    }
    // Re-running the builder against its own mapping splits nothing new.
    let mut g2 = g;
    let mut facades2 = template.facade_chunks;
    let (strict2, _) = ensure_dyn_import_namespace_facades(&mut g2, &concat, &mut facades2);
    assert_eq!(g2.chunks.len(), 3);
    assert_eq!(facades2.get(0), Some(2));
    assert!(strict2.contains(&2));
}

/// Scenario: an unresolved dynamic-import target renders to a rejected
/// promise embedding the original request string.
#[test]
fn unresolved_target_renders_rejected_promise() {
    let g = Graph {
        modules: vec![module("u", vec![])],
        chunks: vec![chunk(vec![0], vec![])],
        groups: vec![],
        entrypoints: vec![],
        added_chunks: vec![],
    };
    let concat = vec![true];
    let template = DynamicImportDependencyTemplate { facade_chunks: FacadeMap::empty(1) };
    let rendered = template.render(
        &g,
        0,
        None,
        "./missing",
        ExportsType::Namespace,
        true,
        &concat,
    );
    match rendered {
        RenderedImport::Expr(e) => {
            assert!(e.contains("./missing"));
            assert_eq!(
                e,
                "Promise.resolve().then(function() { var e = new Error(\"Cannot find module \
                 './missing'\"); e.code = 'MODULE_NOT_FOUND'; throw e; })"
            );
        },
        RenderedImport::External => panic!("not an external target"),
    }
    assert!(missing_module_promise("./x").contains("'./x'"));
}

/// A shared multi-module chunk with two named-only dynamic targets splits a
/// facade for each, and the facades differ.
#[test]
fn two_named_targets_sharing_a_chunk_both_get_facades() {
    // chunk 0 = { a, b, filler }; u and v (chunk 1) each dynamically import
    // one of them by name.
    let mut g = Graph {
        modules: vec![
            module("a", vec![]),
            module("b", vec![]),
            module("filler", vec![]),
            module("u", vec![edge(0, true, false)]),
            module("v", vec![edge(1, true, false)]),
        ],
        chunks: vec![chunk(vec![0, 1, 2], vec![0]), chunk(vec![3, 4], vec![1])],
        groups: vec![
            Group { chunks: vec![0], initial: false, entry_chunk: None, runtime_chunk: None },
            Group { chunks: vec![1], initial: false, entry_chunk: None, runtime_chunk: None },
        ],
        entrypoints: vec![],
        added_chunks: vec![],
    };
    let concat = vec![true, true, true, true, true];
    let mut facades = FacadeMap::empty(5);
    let (strict, all_dyn) = ensure_dyn_import_namespace_facades(&mut g, &concat, &mut facades);
    assert_eq!(all_dyn, vec![0, 1]);
    assert_eq!(g.chunks.len(), 4);
    let fa = facades.get(0).expect("facade for a");
    let fb = facades.get(1).expect("facade for b");
    assert_ne!(fa, fb);
    assert!(strict.contains(&fa) && strict.contains(&fb));
    assert!(g.chunks[fa].modules.is_empty() && g.chunks[fb].modules.is_empty());
}

/// A dynamic target alone in its chunk needs no facade: the chunk is already
/// strict, and a co-located import site resolves without a fetch.
#[test]
fn single_module_target_chunk_is_strict() {
    let mut g = Graph {
        modules: vec![module("m", vec![]), module("u", vec![edge(0, true, true)])],
        chunks: vec![chunk(vec![0], vec![]), chunk(vec![1], vec![])],
        groups: vec![],
        entrypoints: vec![],
        added_chunks: vec![],
    };
    let concat = vec![true, true];
    let mut facades = FacadeMap::empty(2);
    let (strict, all_dyn) = ensure_dyn_import_namespace_facades(&mut g, &concat, &mut facades);
    assert_eq!(all_dyn, vec![0]);
    assert_eq!(g.chunks.len(), 2);
    assert_eq!(facades.get(0), None);
    assert_eq!(strict, vec![0]);
    // Co-located import: a pre-resolved promise.
    let template = DynamicImportDependencyTemplate { facade_chunks: facades };
    let mut g2 = g;
    g2.chunks[0].modules.push(1);
    g2.chunks[1].modules.clear();
    let rendered = template.render(&g2, 1, Some(0), "./m", ExportsType::Namespace, true, &concat);
    match rendered {
        RenderedImport::Expr(e) => assert_eq!(e, "Promise.resolve()"),
        RenderedImport::External => panic!("not an external target"),
    }
}

/// The continuation decision table over exports classifications.
#[test]
fn then_expr_decision_table() {
    let id = "\"./m\"";
    assert_eq!(
        then_expr(ExportsType::Namespace, false, id),
        ".then(__webpack_require__.bind(__webpack_require__, \"./m\"))"
    );
    assert_eq!(
        then_expr(ExportsType::DefaultOnly, false, id),
        ".then(__webpack_require__.t.bind(__webpack_require__, \"./m\", 17))"
    );
    assert_eq!(
        then_expr(ExportsType::DefaultWithNamed, false, id),
        ".then(__webpack_require__.t.bind(__webpack_require__, \"./m\", 19))"
    );
    assert_eq!(
        then_expr(ExportsType::Dynamic, false, id),
        ".then(__webpack_require__.t.bind(__webpack_require__, \"./m\", 23))"
    );
    assert_eq!(
        then_expr(ExportsType::Dynamic, true, id),
        ".then(__webpack_require__.bind(__webpack_require__, \"./m\"))\
         .then(function(m){\n return __webpack_require__.t(m, 22) \n})"
    );
}

/// A non-concatenated target keeps its continuation even through a facade.
#[test]
fn non_concatenated_target_keeps_continuation() {
    let g = Graph {
        modules: vec![module("m", vec![]), module("u", vec![edge(0, true, false)])],
        chunks: vec![chunk(vec![0], vec![]), chunk(vec![1], vec![])],
        groups: vec![],
        entrypoints: vec![],
        added_chunks: vec![],
    };
    let concat = vec![false, true];
    let template = DynamicImportDependencyTemplate { facade_chunks: FacadeMap::empty(2) };
    let rendered = template.render(&g, 1, Some(0), "./m", ExportsType::DefaultOnly, true, &concat);
    match rendered {
        RenderedImport::Expr(e) => assert_eq!(
            e,
            "import(\"__RSPACK_ESM_CHUNK_0\")\
             .then(__webpack_require__.t.bind(__webpack_require__, \"m\", 17))"
        ),
        RenderedImport::External => panic!("not an external target"),
    }
}
