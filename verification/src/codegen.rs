use vstd::prelude::*;
use vstd::string::StringExecFns;
use crate::graph::{chunk_of, Graph, GraphV};
use crate::facade::FacadeMap;
use crate::jsonstr::{json_quote, json_quoted};
use crate::strutil::{decimal_string, spec_decimal};

verus! {

// ----------------------------------------------------------------------------
// Dynamic-import code generation: given a call site's target module, render
// the exact runtime expression, mirroring the optimizer's structural
// decisions.  An unresolved target degrades to a rejected-promise
// expression; a host-provided target is delegated to the external renderer;
// otherwise the fetch expression targets the facade chunk when one was
// recorded, and a continuation is appended only outside full concatenation.
// ----------------------------------------------------------------------------

/// The exports classification of an import site's target, as the upstream
/// classifier reports it.
#[derive(Clone, Copy, Debug)]
pub enum ExportsType {
    /// A plain namespace of named exports.
    Namespace,
    /// Only a default export.
    DefaultOnly,
    /// A default export merged with named exports.
    DefaultWithNamed,
    /// Exports only known at runtime.
    Dynamic,
}

/// Mode flag: the continuation argument is a module id to require.
pub const FAKE_NS_MODULE_ID: u8 = 1;

/// Mode flag: merge the value's own properties into the namespace.
pub const FAKE_NS_MERGE_PROPERTIES: u8 = 2;

/// Mode flag: treat the return value as the default export.
pub const FAKE_NS_RETURN_VALUE: u8 = 4;

/// Mode flag: the fetched value is promise-like.
pub const FAKE_NS_PROMISE_LIKE: u8 = 16;

/// The synthetic-namespace mode for a non-namespace exports classification;
/// `sync` adds the module-id flag for the single-continuation form.
pub open spec fn spec_fake_type(et: ExportsType, sync: bool) -> nat {
    (16 + (if et is Dynamic {
        4int
    } else {
        0int
    }) + (if et is Dynamic || et is DefaultWithNamed {
        2int
    } else {
        0int
    }) + (if sync {
        1int
    } else {
        0int
    })) as nat
}

/// The continuation normalizing a fetched chunk namespace into the shape the
/// import site expects.
pub open spec fn spec_then_expr(et: ExportsType, is_async: bool, id_expr: Seq<char>) -> Seq<char> {
    match et {
        ExportsType::Namespace => ".then(__webpack_require__.bind(__webpack_require__, "@
            + id_expr + "))"@,
        _ => {
            if is_async {
                ".then(__webpack_require__.bind(__webpack_require__, "@ + id_expr + "))"@
                    + ".then(function(m){\n return __webpack_require__.t(m, "@ + spec_decimal(
                    spec_fake_type(et, false),
                ) + ") \n})"@
            } else {
                ".then(__webpack_require__.t.bind(__webpack_require__, "@ + id_expr + ", "@
                    + spec_decimal(spec_fake_type(et, true)) + "))"@
            }
        },
    }
}

/// The rejected-promise expression for an unresolved target, embedding the
/// original request string.
pub open spec fn spec_missing_module_promise(request: Seq<char>) -> Seq<char> {
    "Promise.resolve().then(function() { var e = new Error(\"Cannot find module '"@ + request
        + "'\"); e.code = 'MODULE_NOT_FOUND'; throw e; })"@
}

/// The fetch expression: a pre-resolved promise for a co-located target,
/// else an asynchronous import of the target chunk's identifier.
pub open spec fn spec_import_promise(ref_chunk: usize, already_in_chunk: bool) -> Seq<char> {
    if already_in_chunk {
        "Promise.resolve()"@
    } else {
        "import(\"__RSPACK_ESM_CHUNK_"@ + spec_decimal(ref_chunk as nat) + "\")"@
    }
}

/// The chunk an import site fetches: the facade recorded for the target, or
/// the chunk holding it.
pub open spec fn spec_ref_chunk(g: GraphV, fac: Seq<Option<usize>>, t: usize) -> usize {
    if fac[t as int] is Some {
        fac[t as int]->0
    } else {
        chunk_of(g, t)->0
    }
}

/// The full expression for a resolved, non-external target.
pub open spec fn spec_rendered_import(
    g: GraphV,
    fac: Seq<Option<usize>>,
    importer: usize,
    t: usize,
    et: ExportsType,
    in_concat_scope: bool,
    concat: Seq<bool>,
) -> Seq<char> {
    let ref_chunk = spec_ref_chunk(g, fac, t);
    let already = ref_chunk == chunk_of(g, importer)->0;
    let prom = spec_import_promise(ref_chunk, already);
    if !in_concat_scope || !concat[t as int] {
        prom + spec_then_expr(et, g.modules[t as int].is_async, json_quoted(g.modules[t as int].id))
    } else {
        prom
    }
}

/// What code generation hands back for one import site.
pub enum RenderedImport {
    /// The runtime expression replacing the call site.
    Expr(String),
    /// A host-provided target: delegated to the external-module renderer.
    External,
}

/// Renders the rejected-promise expression for an unresolved target.
pub fn missing_module_promise(request: &str) -> (r: String)
    ensures
        r@ == spec_missing_module_promise(request@),
{
    let mut s = String::from_str(
        "Promise.resolve().then(function() { var e = new Error(\"Cannot find module '",
    );
    s.append(request);
    s.append("'\"); e.code = 'MODULE_NOT_FOUND'; throw e; })");
    s
}

/// Renders the continuation for a fetch whose target is not fully
/// concatenated: the namespace shape is rebuilt at runtime, by requiring the
/// module or by constructing a synthetic namespace.
pub fn then_expr(et: ExportsType, is_async: bool, id_expr: &str) -> (r: String)
    ensures
        r@ == spec_then_expr(et, is_async, id_expr@),
{
    match et {
        ExportsType::Namespace => {
            let mut s = String::from_str(".then(__webpack_require__.bind(__webpack_require__, ");
            s.append(id_expr);
            s.append("))");
            s
        },
        _ => {
            let mut fake: u8 = FAKE_NS_PROMISE_LIKE;
            if matches!(et, ExportsType::Dynamic) {
                fake = fake + FAKE_NS_RETURN_VALUE;
            }
            if matches!(et, ExportsType::DefaultWithNamed | ExportsType::Dynamic) {
                fake = fake + FAKE_NS_MERGE_PROPERTIES;
            }
            if is_async {
                let mut s = String::from_str(
                    ".then(__webpack_require__.bind(__webpack_require__, ",
                );
                s.append(id_expr);
                s.append("))");
                s.append(".then(function(m){\n return __webpack_require__.t(m, ");
                proof {
                    assert(fake as nat == spec_fake_type(et, false));
                }
                let d = decimal_string(fake as u64);
                s.append(d.as_str());
                s.append(") \n})");
                s
            } else {
                fake = fake + FAKE_NS_MODULE_ID;
                let mut s = String::from_str(
                    ".then(__webpack_require__.t.bind(__webpack_require__, ",
                );
                s.append(id_expr);
                s.append(", ");
                proof {
                    assert(fake as nat == spec_fake_type(et, true));
                }
                let d = decimal_string(fake as u64);
                s.append(d.as_str());
                s.append("))");
                s
            }
        },
    }
}

/// Renders the fetch expression.
pub fn import_promise(ref_chunk: usize, already_in_chunk: bool) -> (r: String)
    ensures
        r@ == spec_import_promise(ref_chunk, already_in_chunk),
{
    if already_in_chunk {
        String::from_str("Promise.resolve()")
    } else {
        let mut s = String::from_str("import(\"__RSPACK_ESM_CHUNK_");
        let d = decimal_string(ref_chunk as u64);
        s.append(d.as_str());
        s.append("\")");
        s
    }
}

/// The dynamic-import template: it owns the read-only view of the facade
/// mapping the optimizer produced, and renders each import call site.
pub struct DynamicImportDependencyTemplate {
    /// Target module to facade chunk, as recorded by facade building.
    pub facade_chunks: FacadeMap,
}

impl DynamicImportDependencyTemplate {
    /// Renders the runtime expression for one dynamic-import call site.
    /// An unresolved target yields the rejected-promise expression embedding
    /// the request; an external target is delegated; otherwise the fetch
    /// targets the facade chunk when one is recorded, with a continuation
    /// only when importer or target stand outside full concatenation.
    pub fn render(
        &self,
        g: &Graph,
        importer: usize,
        target: Option<usize>,
        request: &str,
        exports_type: ExportsType,
        in_concat_scope: bool,
        concat: &Vec<bool>,
    ) -> (r: RenderedImport)
        requires
            importer < g@.modules.len(),
            concat@.len() == g@.modules.len(),
            self.facade_chunks@.len() == g@.modules.len(),
            chunk_of(g@, importer) is Some,
            target is Some ==> (target->0 < g@.modules.len() && (g@.modules[target->0 as int].external
                || chunk_of(g@, target->0) is Some)),
        ensures
            target is None ==> (r matches RenderedImport::Expr(e) && e@
                == spec_missing_module_promise(request@)),
            (target is Some && g@.modules[target->0 as int].external) ==> r is External,
            (target is Some && !g@.modules[target->0 as int].external) ==> (
            r matches RenderedImport::Expr(e) && e@ == spec_rendered_import(
                g@,
                self.facade_chunks@,
                importer,
                target->0,
                exports_type,
                in_concat_scope,
                concat@,
            )),
    {
        let t = match target {
            Some(t) => t,
            None => {
                return RenderedImport::Expr(missing_module_promise(request));
            },
        };
        if g.modules[t].external {
            return RenderedImport::External;
        }
        let source_chunk = match g.module_chunk(t) {
            Some(c) => c,
            None => unreached(),
        };
        let orig_chunk = match g.module_chunk(importer) {
            Some(c) => c,
            None => unreached(),
        };
        let ref_chunk = match self.facade_chunks.get(t) {
            Some(f) => f,
            None => source_chunk,
        };
        let already_in_chunk = ref_chunk == orig_chunk;
        let mut s = import_promise(ref_chunk, already_in_chunk);
        if !in_concat_scope || !concat[t] {
            let id_expr = json_quote(g.modules[t].id.as_str());
            let cont = then_expr(exports_type, g.modules[t].is_async, id_expr.as_str());
            s.append(cont.as_str());
            proof {
                assert(g@.modules[t as int].id == g.modules@[t as int].id@);
            }
            return RenderedImport::Expr(s);
        }
        RenderedImport::Expr(s)
    }
}

} // verus!
