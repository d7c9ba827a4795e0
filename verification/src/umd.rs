use vstd::prelude::*;
use vstd::string::StrSliceExecFns;
use vstd::string::StringExecFns;
use crate::jsonstr::{json_quote, json_quoted};
use crate::strutil::str_eq;

verus! {

// ----------------------------------------------------------------------------
// UMD library output: parsing the library-name options and rendering the
// universal module definition wrapper around a chunk's source.
// ----------------------------------------------------------------------------

/// The three name slots of a custom UMD object.
pub struct LibraryCustomUmdObject {
    pub commonjs: Option<String>,
    pub root: Option<Vec<String>>,
    pub amd: Option<String>,
}

#[verifier::ext_equal]
pub struct LibraryCustomUmdObjectV {
    pub commonjs: Option<Seq<char>>,
    pub root: Option<Seq<Seq<char>>>,
    pub amd: Option<Seq<char>>,
}

impl View for LibraryCustomUmdObject {
    type V = LibraryCustomUmdObjectV;

    open spec fn view(&self) -> LibraryCustomUmdObjectV {
        LibraryCustomUmdObjectV {
            commonjs: match self.commonjs {
                Some(s) => Some(s@),
                None => None,
            },
            root: match self.root {
                Some(r) => Some(r.deep_view()),
                None => None,
            },
            amd: match self.amd {
                Some(s) => Some(s@),
                None => None,
            },
        }
    }
}

/// A configured library name.
pub enum LibraryName {
    /// An explicit UMD object.
    UmdObject(LibraryCustomUmdObject),
    /// A single name.
    NonUmdString(String),
    /// An accessor path of names.
    NonUmdArray(Vec<String>),
}

#[verifier::ext_equal]
pub enum LibraryNameV {
    UmdObject(LibraryCustomUmdObjectV),
    NonUmdString(Seq<char>),
    NonUmdArray(Seq<Seq<char>>),
}

impl View for LibraryName {
    type V = LibraryNameV;

    open spec fn view(&self) -> LibraryNameV {
        match self {
            LibraryName::UmdObject(o) => LibraryNameV::UmdObject(o@),
            LibraryName::NonUmdString(s) => LibraryNameV::NonUmdString(s@),
            LibraryName::NonUmdArray(a) => LibraryNameV::NonUmdArray(a.deep_view()),
        }
    }
}

/// Comments placed above each factory branch.
pub struct LibraryAuxiliaryComment {
    pub amd: Option<String>,
    pub commonjs: Option<String>,
    pub commonjs2: Option<String>,
    pub root: Option<String>,
}

#[verifier::ext_equal]
pub struct LibraryAuxiliaryCommentV {
    pub amd: Option<Seq<char>>,
    pub commonjs: Option<Seq<char>>,
    pub commonjs2: Option<Seq<char>>,
    pub root: Option<Seq<char>>,
}

impl View for LibraryAuxiliaryComment {
    type V = LibraryAuxiliaryCommentV;

    open spec fn view(&self) -> LibraryAuxiliaryCommentV {
        LibraryAuxiliaryCommentV {
            amd: match self.amd {
                Some(s) => Some(s@),
                None => None,
            },
            commonjs: match self.commonjs {
                Some(s) => Some(s@),
                None => None,
            },
            commonjs2: match self.commonjs2 {
                Some(s) => Some(s@),
                None => None,
            },
            root: match self.root {
                Some(s) => Some(s@),
                None => None,
            },
        }
    }
}

/// The library options a chunk resolves to.
pub struct LibraryOptions {
    pub name: Option<LibraryName>,
    pub auxiliary_comment: Option<LibraryAuxiliaryComment>,
    pub umd_named_define: Option<bool>,
    pub library_type: String,
}

/// The parsed options the renderer consumes.
pub struct UmdLibraryPluginParsed {
    pub names: LibraryCustomUmdObject,
    pub auxiliary_comment: Option<LibraryAuxiliaryComment>,
    pub named_define: Option<bool>,
}

/// The names a configured library name parses to: an explicit UMD object is
/// taken as is; a single name fills every slot; an accessor path fills the
/// root and uses its head elsewhere.
pub open spec fn spec_parse_names(name: Option<LibraryNameV>) -> LibraryCustomUmdObjectV {
    match name {
        Some(LibraryNameV::UmdObject(o)) => o,
        Some(LibraryNameV::NonUmdString(s)) => LibraryCustomUmdObjectV {
            commonjs: Some(s),
            root: Some(seq![s]),
            amd: Some(s),
        },
        Some(LibraryNameV::NonUmdArray(arr)) => {
            if arr.len() == 0 {
                LibraryCustomUmdObjectV { commonjs: None, root: None, amd: None }
            } else {
                LibraryCustomUmdObjectV { commonjs: Some(arr[0]), root: Some(arr), amd: Some(arr[0]) }
            }
        },
        None => LibraryCustomUmdObjectV { commonjs: None, root: None, amd: None },
    }
}

/// Copies a vector of strings.
fn copy_string_vec(v: &Vec<String>) -> (r: Vec<String>)
    ensures
        r.deep_view() == v.deep_view(),
{
    let mut r: Vec<String> = Vec::new();
    let n = v.len();
    for i in 0..n
        invariant
            n == v@.len(),
            r.deep_view() == v.deep_view().subrange(0, i as int),
    {
        let ghost rpre = r.deep_view();
        let ghost rv = r@;
        let c = v[i].clone();
        proof {
            assert(c@ == v@[i as int]@);
        }
        r.push(c);
        proof {
            assert(r@.len() == rpre.len() + 1);
            assert forall|j: int| 0 <= j < rpre.len() implies r.deep_view()[j] == rpre[j] by {
                assert(r@[j] == rv[j]);
            }
            assert(r.deep_view()[i as int] == v.deep_view()[i as int]);
            assert(r.deep_view() =~~= v.deep_view().subrange(0, i + 1));
        }
    }
    proof {
        assert(v.deep_view().subrange(0, v.deep_view().len() as int) =~= v.deep_view());
    }
    r
}

/// The UMD library plugin: wraps chunks whose library type matches.
pub struct UmdLibraryPlugin {
    pub _optional_amd_external_as_global: bool,
    pub library_type: String,
}

impl UmdLibraryPlugin {
    /// Builds the plugin for one library type.
    pub fn new(optional_amd_external_as_global: bool, library_type: String) -> (r:
        UmdLibraryPlugin)
        ensures
            r.library_type@ == library_type@,
            r._optional_amd_external_as_global == optional_amd_external_as_global,
    {
        UmdLibraryPlugin { _optional_amd_external_as_global: optional_amd_external_as_global, library_type }
    }

    /// Parses the configured library name into the three UMD name slots.
    pub fn parse_options(&self, library: &LibraryOptions) -> (r: UmdLibraryPluginParsed)
        ensures
            r.names@ == spec_parse_names(
                match library.name {
                    Some(n) => Some(n@),
                    None => None,
                },
            ),
            r.auxiliary_comment is Some <==> library.auxiliary_comment is Some,
            r.auxiliary_comment matches Some(a) ==> (library.auxiliary_comment matches Some(b)
                && a@ == b@),
            r.named_define == library.umd_named_define,
    {
        let names = match &library.name {
            Some(LibraryName::UmdObject(o)) => LibraryCustomUmdObject {
                commonjs: match &o.commonjs {
                    Some(s) => Some(s.clone()),
                    None => None,
                },
                root: match &o.root {
                    Some(r) => Some(copy_string_vec(r)),
                    None => None,
                },
                amd: match &o.amd {
                    Some(s) => Some(s.clone()),
                    None => None,
                },
            },
            Some(LibraryName::NonUmdString(s)) => {
                let mut root: Vec<String> = Vec::new();
                root.push(s.clone());
                proof {
                    assert(root.deep_view() =~= seq![s@]);
                }
                LibraryCustomUmdObject {
                    commonjs: Some(s.clone()),
                    root: Some(root),
                    amd: Some(s.clone()),
                }
            },
            Some(LibraryName::NonUmdArray(arr)) => {
                if arr.len() == 0 {
                    LibraryCustomUmdObject { commonjs: None, root: None, amd: None }
                } else {
                    LibraryCustomUmdObject {
                        commonjs: Some(arr[0].clone()),
                        root: Some(copy_string_vec(arr)),
                        amd: Some(arr[0].clone()),
                    }
                }
            },
            None => LibraryCustomUmdObject { commonjs: None, root: None, amd: None },
        };
        let auxiliary_comment = match &library.auxiliary_comment {
            Some(a) => Some(
                LibraryAuxiliaryComment {
                    amd: match &a.amd {
                        Some(s) => Some(s.clone()),
                        None => None,
                    },
                    commonjs: match &a.commonjs {
                        Some(s) => Some(s.clone()),
                        None => None,
                    },
                    commonjs2: match &a.commonjs2 {
                        Some(s) => Some(s.clone()),
                        None => None,
                    },
                    root: match &a.root {
                        Some(s) => Some(s.clone()),
                        None => None,
                    },
                },
            ),
            None => None,
        };
        UmdLibraryPluginParsed { names, auxiliary_comment, named_define: library.umd_named_define }
    }

    /// Parses the chunk's options when their library type matches this
    /// plugin's.
    pub fn get_options_for_chunk(&self, library: Option<&LibraryOptions>) -> (r: Option<
        UmdLibraryPluginParsed,
    >)
        ensures
            r is Some <==> (library matches Some(l) && l.library_type@ == self.library_type@),
    {
        match library {
            Some(l) => {
                if str_eq(l.library_type.as_str(), self.library_type.as_str()) {
                    Some(self.parse_options(l))
                } else {
                    None
                }
            },
            None => None,
        }
    }
}

/// The auxiliary comment line for one factory branch: a tab-indented line
/// comment when configured, empty otherwise.
pub open spec fn spec_auxiliary_comment(
    t: Seq<char>,
    aux: Option<LibraryAuxiliaryCommentV>,
) -> Seq<char> {
    match aux {
        Some(a) => {
            let slot = if t == "amd"@ {
                a.amd
            } else if t == "commonjs"@ {
                a.commonjs
            } else if t == "commonjs2"@ {
                a.commonjs2
            } else if t == "root"@ {
                a.root
            } else {
                None
            };
            match slot {
                Some(v) => "\t// "@ + v + " \n"@,
                None => Seq::empty(),
            }
        },
        None => Seq::empty(),
    }
}

/// Renders the auxiliary comment for one factory branch.
pub fn get_auxiliary_comment(t: &str, auxiliary_comment: Option<&LibraryAuxiliaryComment>) -> (r:
    String)
    ensures
        r@ == spec_auxiliary_comment(
            t@,
            match auxiliary_comment {
                Some(a) => Some(a@),
                None => None,
            },
        ),
{
    match auxiliary_comment {
        Some(a) => {
            let slot = if str_eq(t, "amd") {
                &a.amd
            } else if str_eq(t, "commonjs") {
                &a.commonjs
            } else if str_eq(t, "commonjs2") {
                &a.commonjs2
            } else if str_eq(t, "root") {
                &a.root
            } else {
                &None
            };
            match slot {
                Some(v) => {
                    let mut s = String::from_str("\t// ");
                    s.append(v.as_str());
                    s.append(" \n");
                    s
                },
                None => String::new(),
            }
        },
        None => String::new(),
    }
}

/// Bracketed object access for the accessor parts in `[from, to)`, each
/// JSON-quoted.
pub open spec fn spec_object_access(parts: Seq<Seq<char>>, from: int, to: int) -> Seq<char>
    decreases to - from,
{
    if from < 0 || from >= to || to > parts.len() {
        Seq::empty()
    } else {
        "["@ + json_quoted(parts[from]) + "]"@ + spec_object_access(parts, from + 1, to)
    }
}

/// Renders bracketed object access for the accessor parts in `[from, to)`.
pub fn object_access_range(parts: &Vec<String>, from: usize, to: usize) -> (r: String)
    requires
        to <= parts@.len(),
    ensures
        r@ == spec_object_access(parts.deep_view(), from as int, to as int),
{
    let mut s = String::new();
    if from >= to {
        proof {
            assert(s@ =~= spec_object_access(parts.deep_view(), from as int, to as int));
        }
        return s;
    }
    for i in from..to
        invariant
            from < to <= parts@.len(),
            parts.deep_view().len() == parts@.len(),
            s@ + spec_object_access(parts.deep_view(), i as int, to as int)
                == spec_object_access(parts.deep_view(), from as int, to as int),
    {
        let q = json_quote(parts[i].as_str());
        s.append("[");
        s.append(q.as_str());
        s.append("]");
        proof {
            let pv = parts.deep_view();
            assert(pv[i as int] == parts@[i as int]@);
            assert((s@ + spec_object_access(pv, i + 1, to as int)) =~= (s@ + spec_object_access(
                pv,
                i + 1,
                to as int,
            )));
            assert(spec_object_access(pv, i as int, to as int) == "["@ + json_quoted(pv[i as int])
                + "]"@ + spec_object_access(pv, i + 1, to as int));
        }
    }
    proof {
        assert(s@ + Seq::<char>::empty() =~= s@);
    }
    s
}

/// Renders bracketed object access for a whole accessor.
pub fn accessor_to_object_access(accessor: &Vec<String>) -> (r: String)
    ensures
        r@ == spec_object_access(accessor.deep_view(), 0, accessor.deep_view().len() as int),
{
    object_access_range(accessor, 0, accessor.len())
}

/// One line of the root-accessor chain: the accessor prefix of length
/// `i + 1`, with the defaulting assignment every step but the last.
pub open spec fn spec_accessor_line(
    base: Option<Seq<char>>,
    acc: Seq<Seq<char>>,
    i: int,
) -> Seq<char> {
    let a = match base {
        Some(b) => b + spec_object_access(acc, 0, i + 1),
        None => acc[0] + spec_object_access(acc, 1, i + 1),
    };
    if i == acc.len() - 1 {
        a
    } else if i == 0 && base is None {
        a + " = typeof "@ + a + " === 'object' ? "@ + a + " : {}"@
    } else {
        a + " = "@ + a + " || {}"@
    }
}

/// The first `k` lines of the root-accessor chain, comma-joined.
pub open spec fn spec_accessor_access(base: Option<Seq<char>>, acc: Seq<Seq<char>>, k: int) -> Seq<
    char,
>
    decreases k,
{
    if k <= 0 {
        Seq::empty()
    } else if k == 1 {
        spec_accessor_line(base, acc, 0)
    } else {
        spec_accessor_access(base, acc, k - 1) + ", "@ + spec_accessor_line(base, acc, k - 1)
    }
}

/// Renders the root-accessor chain: each prefix of the accessor defaulted to
/// an object, the full accessor last.
pub fn accessor_access(base: Option<&str>, accessor: &Vec<String>) -> (r: String)
    ensures
        r@ == spec_accessor_access(
            match base {
                Some(b) => Some(b@),
                None => None,
            },
            accessor.deep_view(),
            accessor.deep_view().len() as int,
        ),
{
    let ghost basev: Option<Seq<char>> = match base {
        Some(b) => Some(b@),
        None => None,
    };
    let mut s = String::new();
    let n = accessor.len();
    for i in 0..n
        invariant
            n == accessor@.len(),
            accessor.deep_view().len() == accessor@.len(),
            basev == (match base {
                Some(b) => Some(b@),
                None => None,
            }),
            s@ == spec_accessor_access(basev, accessor.deep_view(), i as int),
    {
        if i > 0 {
            s.append(", ");
        }
        let line = accessor_line(base, accessor, i);
        s.append(line.as_str());
        proof {
            assert(s@ == spec_accessor_access(basev, accessor.deep_view(), i + 1));
        }
    }
    s
}

/// Renders one line of the root-accessor chain.
fn accessor_line(base: Option<&str>, accessor: &Vec<String>, i: usize) -> (r: String)
    requires
        i < accessor@.len(),
    ensures
        r@ == spec_accessor_line(
            match base {
                Some(b) => Some(b@),
                None => None,
            },
            accessor.deep_view(),
            i as int,
        ),
{
    let n = accessor.len();
    let mut a = match base {
        Some(b) => {
            let mut a = String::from_str(b);
            let acc = object_access_range(accessor, 0, i + 1);
            a.append(acc.as_str());
            a
        },
        None => {
            let mut a = String::from_str(accessor[0].as_str());
            let acc = object_access_range(accessor, 1, i + 1);
            a.append(acc.as_str());
            proof {
                assert(accessor.deep_view()[0] == accessor@[0]@);
            }
            a
        },
    };
    if i == n - 1 {
        a
    } else if i == 0 && base.is_none() {
        let mut s = a.clone();
        s.append(" = typeof ");
        s.append(a.as_str());
        s.append(" === 'object' ? ");
        s.append(a.as_str());
        s.append(" : {}");
        s
    } else {
        let mut s = a.clone();
        s.append(" = ");
        s.append(a.as_str());
        s.append(" || {}");
        s
    }
}

/// A host-provided (external) module of the chunk, with its request.
pub struct ExternalModel {
    /// The identifier used for the factory argument name.
    pub id: String,
    /// The configured request.
    pub request: ExternalRequest,
}

/// A request: one accessor path, or one per external type.
pub enum ExternalRequest {
    Single(Vec<String>),
    PerType(Vec<(String, Vec<String>)>),
}

#[verifier::ext_equal]
pub struct ExternalModelV {
    pub id: Seq<char>,
    pub request: ExternalRequestV,
}

#[verifier::ext_equal]
pub enum ExternalRequestV {
    Single(Seq<Seq<char>>),
    PerType(Seq<(Seq<char>, Seq<Seq<char>>)>),
}

impl View for ExternalRequest {
    type V = ExternalRequestV;

    open spec fn view(&self) -> ExternalRequestV {
        match self {
            ExternalRequest::Single(v) => ExternalRequestV::Single(v.deep_view()),
            ExternalRequest::PerType(m) => ExternalRequestV::PerType(
                m@.map_values(|p: (String, Vec<String>)| (p.0@, p.1.deep_view())),
            ),
        }
    }
}

impl View for ExternalModel {
    type V = ExternalModelV;

    open spec fn view(&self) -> ExternalModelV {
        ExternalModelV { id: self.id@, request: self.request@ }
    }
}

/// The error of this component: an external lacks a configuration for the
/// requested type.
#[derive(Debug)]
pub struct UmdError {
    /// The external type whose configuration is missing.
    pub typ: String,
}

impl UmdError {
    /// The error text.
    pub fn message(&self) -> (r: String)
        ensures
            r@ == "Missing external configuration for type: "@ + self.typ@,
    {
        let mut s = String::from_str("Missing external configuration for type: ");
        s.append(self.typ.as_str());
        s
    }
}

/// The first value stored under key `k`, searching from `i`.
pub open spec fn spec_map_get(
    m: Seq<(Seq<char>, Seq<Seq<char>>)>,
    k: Seq<char>,
    i: int,
) -> Option<Seq<Seq<char>>>
    decreases m.len() - i,
{
    if i < 0 || i >= m.len() {
        None
    } else if m[i].0 == k {
        Some(m[i].1)
    } else {
        spec_map_get(m, k, i + 1)
    }
}

/// The accessor path an external resolves to for type `typ`.
pub open spec fn spec_request_for(r: ExternalRequestV, typ: Seq<char>) -> Option<Seq<Seq<char>>> {
    match r {
        ExternalRequestV::Single(v) => Some(v),
        ExternalRequestV::PerType(m) => spec_map_get(m, typ, 0),
    }
}

/// One require expression: `require(<primary>)` with bracket access for the
/// remaining path.
pub open spec fn spec_require_item(m: ExternalModelV, typ: Seq<char>) -> Option<Seq<char>> {
    match spec_request_for(m.request, typ) {
        Some(parts) => {
            if parts.len() == 0 {
                None
            } else {
                Some(
                    "require("@ + json_quoted(parts[0]) + ")"@ + spec_object_access(
                        parts,
                        1,
                        parts.len() as int,
                    ),
                )
            }
        },
        None => None,
    }
}

/// The first `k` require expressions, comma-joined; `None` when an external
/// lacks the type.
pub open spec fn spec_require_array(ex: Seq<ExternalModelV>, typ: Seq<char>, k: int) -> Option<
    Seq<char>,
>
    decreases k,
{
    if k <= 0 {
        Some(Seq::empty())
    } else {
        match (spec_require_array(ex, typ, k - 1), spec_require_item(ex[k - 1], typ)) {
            (Some(pre), Some(item)) => Some(
                if k == 1 {
                    item
                } else {
                    pre + ", "@ + item
                },
            ),
            _ => None,
        }
    }
}

/// One root expression: `root` with bracket access for the whole path.
pub open spec fn spec_root_item(m: ExternalModelV) -> Option<Seq<char>> {
    match spec_request_for(m.request, "root"@) {
        Some(parts) => Some("root"@ + spec_object_access(parts, 0, parts.len() as int)),
        None => None,
    }
}

/// The first `k` root expressions, comma-joined.
pub open spec fn spec_root_array(ex: Seq<ExternalModelV>, k: int) -> Option<Seq<char>>
    decreases k,
{
    if k <= 0 {
        Some(Seq::empty())
    } else {
        match (spec_root_array(ex, k - 1), spec_root_item(ex[k - 1])) {
            (Some(pre), Some(item)) => Some(
                if k == 1 {
                    item
                } else {
                    pre + ", "@ + item
                },
            ),
            _ => None,
        }
    }
}

/// Every external has the requested type configured with a non-empty path.
pub open spec fn externals_typed(ex: Seq<ExternalModelV>, typ: Seq<char>) -> bool {
    forall|i: int|
        0 <= i < ex.len() ==> (#[trigger] spec_request_for(ex[i].request, typ)) is Some
            && spec_request_for(ex[i].request, typ)->0.len() > 0
}

/// Looks an external type up in a request map.
fn map_get(m: &Vec<(String, Vec<String>)>, k: &str) -> (r: Option<Vec<String>>)
    ensures
        ({
            let mv = m@.map_values(|p: (String, Vec<String>)| (p.0@, p.1.deep_view()));
            match r {
                Some(v) => spec_map_get(mv, k@, 0) == Some(v.deep_view()),
                None => spec_map_get(mv, k@, 0) is None,
            }
        }),
{
    let ghost mv = m@.map_values(|p: (String, Vec<String>)| (p.0@, p.1.deep_view()));
    let n = m.len();
    for i in 0..n
        invariant
            n == m@.len(),
            mv == m@.map_values(|p: (String, Vec<String>)| (p.0@, p.1.deep_view())),
            spec_map_get(mv, k@, 0) == spec_map_get(mv, k@, i as int),
    {
        if str_eq(m[i].0.as_str(), k) {
            let r = copy_string_vec(&m[i].1);
            proof {
                assert(mv[i as int] == (m@[i as int].0@, m@[i as int].1.deep_view()));
            }
            return Some(r);
        }
        proof {
            assert(mv[i as int] == (m@[i as int].0@, m@[i as int].1.deep_view()));
        }
    }
    None
}

/// Resolves an external's accessor path for type `typ`.
fn request_for(m: &ExternalModel, typ: &str) -> (r: Option<Vec<String>>)
    ensures
        match r {
            Some(v) => spec_request_for(m.request@, typ@) == Some(v.deep_view()),
            None => spec_request_for(m.request@, typ@) is None,
        },
{
    match &m.request {
        ExternalRequest::Single(v) => Some(copy_string_vec(v)),
        ExternalRequest::PerType(map) => map_get(map, typ),
    }
}

/// Renders the comma-joined require expressions handed to the factory for
/// the given external type.
pub fn externals_require_array(typ: &str, externals: &Vec<ExternalModel>) -> (r: Result<
    String,
    UmdError,
>)
    ensures
        ({
            let exv = externals@.map_values(|m: ExternalModel| m@);
            match r {
                Ok(out) => spec_require_array(exv, typ@, exv.len() as int) == Some(out@),
                Err(e) => spec_require_array(exv, typ@, exv.len() as int) is None && e.typ@
                    == typ@,
            }
        }),
{
    let ghost exv = externals@.map_values(|m: ExternalModel| m@);
    let mut s = String::new();
    let n = externals.len();
    for i in 0..n
        invariant
            n == externals@.len(),
            exv == externals@.map_values(|m: ExternalModel| m@),
            spec_require_array(exv, typ@, i as int) == Some(s@),
    {
        let parts = match request_for(&externals[i], typ) {
            Some(p) => p,
            None => {
                proof {
                    assert(exv[i as int] == externals@[i as int]@);
                    lemma_require_array_none(exv, typ@, i as int, exv.len() as int);
                }
                return Err(UmdError { typ: String::from_str(typ) });
            },
        };
        if parts.len() == 0 {
            proof {
                assert(exv[i as int] == externals@[i as int]@);
                lemma_require_array_none(exv, typ@, i as int, exv.len() as int);
            }
            // An empty accessor path cannot name a module to require; treat
            // it as a missing configuration.
            return Err(UmdError { typ: String::from_str(typ) });
        }
        if i > 0 {
            s.append(", ");
        }
        let q = json_quote(parts[0].as_str());
        s.append("require(");
        s.append(q.as_str());
        s.append(")");
        let acc = object_access_range(&parts, 1, parts.len());
        s.append(acc.as_str());
        proof {
            assert(exv[i as int] == externals@[i as int]@);
            assert(parts.deep_view()[0] == parts@[0]@);
            assert(spec_require_array(exv, typ@, i + 1) == Some(s@));
        }
    }
    Ok(s)
}

/// A missing type at one position makes the whole join missing.
proof fn lemma_require_array_none(ex: Seq<ExternalModelV>, typ: Seq<char>, i: int, k: int)
    requires
        0 <= i < k <= ex.len(),
        spec_require_item(ex[i], typ) is None,
    ensures
        spec_require_array(ex, typ, k) is None,
    decreases k,
{
    if i < k - 1 {
        lemma_require_array_none(ex, typ, i, k - 1);
    }
}

/// A missing root at one position makes the whole join missing.
proof fn lemma_root_array_none(ex: Seq<ExternalModelV>, i: int, k: int)
    requires
        0 <= i < k <= ex.len(),
        spec_root_item(ex[i]) is None,
    ensures
        spec_root_array(ex, k) is None,
    decreases k,
{
    if i < k - 1 {
        lemma_root_array_none(ex, i, k - 1);
    }
}

/// Renders the comma-joined root-global accessors handed to the factory.
pub fn externals_root_array(modules: &Vec<ExternalModel>) -> (r: Result<String, UmdError>)
    ensures
        ({
            let exv = modules@.map_values(|m: ExternalModel| m@);
            match r {
                Ok(out) => spec_root_array(exv, exv.len() as int) == Some(out@),
                Err(e) => spec_root_array(exv, exv.len() as int) is None && e.typ@ == "root"@,
            }
        }),
{
    let ghost exv = modules@.map_values(|m: ExternalModel| m@);
    let mut s = String::new();
    let n = modules.len();
    for i in 0..n
        invariant
            n == modules@.len(),
            exv == modules@.map_values(|m: ExternalModel| m@),
            spec_root_array(exv, i as int) == Some(s@),
    {
        let parts = match request_for(&modules[i], "root") {
            Some(p) => p,
            None => {
                proof {
                    assert(exv[i as int] == modules@[i as int]@);
                    lemma_root_array_none(exv, i as int, exv.len() as int);
                }
                return Err(UmdError { typ: String::from_str("root") });
            },
        };
        if i > 0 {
            s.append(", ");
        }
        s.append("root");
        let acc = object_access_range(&parts, 0, parts.len());
        s.append(acc.as_str());
        proof {
            assert(exv[i as int] == modules@[i as int]@);
            assert(spec_root_array(exv, i + 1) == Some(s@));
        }
    }
    Ok(s)
}

/// Values substituted into a library-name template for one chunk.
pub struct ChunkPathData {
    pub id: Option<String>,
    pub hash: Option<String>,
    pub name: Option<String>,
    pub content_hash: Option<String>,
}

#[verifier::ext_equal]
pub struct ChunkPathDataV {
    pub id: Option<Seq<char>>,
    pub hash: Option<Seq<char>>,
    pub name: Option<Seq<char>>,
    pub content_hash: Option<Seq<char>>,
}

impl View for ChunkPathData {
    type V = ChunkPathDataV;

    open spec fn view(&self) -> ChunkPathDataV {
        ChunkPathDataV {
            id: match self.id {
                Some(s) => Some(s@),
                None => None,
            },
            hash: match self.hash {
                Some(s) => Some(s@),
                None => None,
            },
            name: match self.name {
                Some(s) => Some(s@),
                None => None,
            },
            content_hash: match self.content_hash {
                Some(s) => Some(s@),
                None => None,
            },
        }
    }
}

/// The `[id]` placeholder.
pub open spec fn pat_id() -> Seq<char> {
    seq!['[', 'i', 'd', ']']
}

/// The `[chunkhash]` placeholder.
pub open spec fn pat_chunkhash() -> Seq<char> {
    seq!['[', 'c', 'h', 'u', 'n', 'k', 'h', 'a', 's', 'h', ']']
}

/// The `[name]` placeholder.
pub open spec fn pat_name() -> Seq<char> {
    seq!['[', 'n', 'a', 'm', 'e', ']']
}

/// The `[contenthash]` placeholder.
pub open spec fn pat_contenthash() -> Seq<char> {
    seq!['[', 'c', 'o', 'n', 't', 'e', 'n', 't', 'h', 'a', 's', 'h', ']']
}

/// The pattern `pat` occurs in `s` at position `i`.
pub open spec fn starts_at(s: Seq<char>, i: int, pat: Seq<char>) -> bool {
    0 <= i && i + pat.len() <= s.len() && s.subrange(i, i + pat.len()) == pat
}

/// The template from position `i` on, with each known placeholder replaced
/// by the chunk value it names; placeholders without a value stay as they
/// are.
pub open spec fn spec_replace_keys(s: Seq<char>, d: ChunkPathDataV, i: int) -> Seq<char>
    decreases s.len() - i,
{
    if i < 0 || i >= s.len() {
        Seq::empty()
    } else if starts_at(s, i, pat_id()) && d.id is Some {
        d.id->0 + spec_replace_keys(s, d, i + 4)
    } else if starts_at(s, i, pat_chunkhash()) && d.hash is Some {
        d.hash->0 + spec_replace_keys(s, d, i + 11)
    } else if starts_at(s, i, pat_name()) && d.name is Some {
        d.name->0 + spec_replace_keys(s, d, i + 6)
    } else if starts_at(s, i, pat_contenthash()) && d.content_hash is Some {
        d.content_hash->0 + spec_replace_keys(s, d, i + 13)
    } else {
        seq![s[i]] + spec_replace_keys(s, d, i + 1)
    }
}

/// Decides `starts_at`.
fn match_at(s: &str, i: usize, pat: &str) -> (r: bool)
    ensures
        r == starts_at(s@, i as int, pat@),
{
    let n = s.unicode_len();
    let m = pat.unicode_len();
    if i > n || m > n - i {
        return false;
    }
    for j in 0..m
        invariant
            n == s@.len(),
            m == pat@.len(),
            i + m <= n,
            forall|j2: int| 0 <= j2 < j ==> s@[i + j2] == pat@[j2],
    {
        if s.get_char(i + j) != pat.get_char(j) {
            proof {
                assert(s@.subrange(i as int, i + m) != pat@) by {
                    if s@.subrange(i as int, i + m) == pat@ {
                        assert(s@.subrange(i as int, i + m)[j as int] == s@[i + j]);
                    }
                }
            }
            return false;
        }
    }
    proof {
        assert(s@.subrange(i as int, i + m) =~= pat@);
    }
    true
}

/// Substitutes the chunk's identity values into a library-name template.
pub fn replace_keys(v: String, data: &ChunkPathData) -> (r: String)
    ensures
        r@ == spec_replace_keys(v@, data@, 0),
{
    proof {
        reveal_strlit("[id]");
        reveal_strlit("[chunkhash]");
        reveal_strlit("[name]");
        reveal_strlit("[contenthash]");
        assert("[id]"@ =~= pat_id());
        assert("[chunkhash]"@ =~= pat_chunkhash());
        assert("[name]"@ =~= pat_name());
        assert("[contenthash]"@ =~= pat_contenthash());
    }
    let s = v.as_str();
    let n = s.unicode_len();
    let mut out = String::new();
    let mut i: usize = 0;
    while i < n
        invariant
            n == v@.len(),
            i <= n,
            out@ + spec_replace_keys(v@, data@, i as int) == spec_replace_keys(v@, data@, 0),
            "[id]"@ == pat_id(),
            "[chunkhash]"@ == pat_chunkhash(),
            "[name]"@ == pat_name(),
            "[contenthash]"@ == pat_contenthash(),
        decreases n - i,
    {
        let s = v.as_str();
        let ghost out_pre = out@;
        if match_at(s, i, "[id]") && data.id.is_some() {
            match &data.id {
                Some(val) => out.append(val.as_str()),
                None => unreached(),
            }
            proof {
                assert((out_pre + (data@.id->0 + spec_replace_keys(v@, data@, i + 4))) =~= (out_pre
                    + data@.id->0) + spec_replace_keys(v@, data@, i + 4));
            }
            i = i + 4;
        } else if match_at(s, i, "[chunkhash]") && data.hash.is_some() {
            match &data.hash {
                Some(val) => out.append(val.as_str()),
                None => unreached(),
            }
            proof {
                assert((out_pre + (data@.hash->0 + spec_replace_keys(v@, data@, i + 11))) =~= (
                out_pre + data@.hash->0) + spec_replace_keys(v@, data@, i + 11));
            }
            i = i + 11;
        } else if match_at(s, i, "[name]") && data.name.is_some() {
            match &data.name {
                Some(val) => out.append(val.as_str()),
                None => unreached(),
            }
            proof {
                assert((out_pre + (data@.name->0 + spec_replace_keys(v@, data@, i + 6))) =~= (
                out_pre + data@.name->0) + spec_replace_keys(v@, data@, i + 6));
            }
            i = i + 6;
        } else if match_at(s, i, "[contenthash]") && data.content_hash.is_some() {
            match &data.content_hash {
                Some(val) => out.append(val.as_str()),
                None => unreached(),
            }
            proof {
                assert((out_pre + (data@.content_hash->0 + spec_replace_keys(v@, data@, i + 13)))
                    =~= (out_pre + data@.content_hash->0) + spec_replace_keys(v@, data@, i + 13));
            }
            i = i + 13;
        } else {
            let one = s.substring_char(i, i + 1);
            out.append(one);
            proof {
                assert(one@ =~= seq![v@[i as int]]);
                assert((out_pre + (seq![v@[i as int]] + spec_replace_keys(v@, data@, i + 1))) =~= (
                out_pre + seq![v@[i as int]]) + spec_replace_keys(v@, data@, i + 1));
            }
            i = i + 1;
        }
    }
    proof {
        assert(out@ + Seq::<char>::empty() =~= out@);
    }
    out
}

/// The JSON-quoted last name of an accessor, with its placeholders
/// substituted.
pub open spec fn spec_library_name(v: Seq<Seq<char>>, d: ChunkPathDataV) -> Seq<char> {
    spec_replace_keys(json_quoted(v[v.len() - 1]), d, 0)
}

/// Renders the library name: the accessor's last part, JSON-quoted, with
/// chunk identity placeholders substituted.
pub fn library_name(v: &Vec<String>, data: &ChunkPathData) -> (r: String)
    requires
        v@.len() > 0,
    ensures
        r@ == spec_library_name(v.deep_view(), data@),
{
    let q = json_quote(v[v.len() - 1].as_str());
    proof {
        assert(v.deep_view()[v.deep_view().len() - 1] == v@[v@.len() - 1]@);
    }
    replace_keys(q, data)
}

/// One AMD dependency item: the JSON-quoted primary request for type `amd`.
pub open spec fn spec_dep_item(m: ExternalModelV) -> Option<Seq<char>> {
    match spec_request_for(m.request, "amd"@) {
        Some(parts) => {
            if parts.len() == 0 {
                None
            } else {
                Some(json_quoted(parts[0]))
            }
        },
        None => None,
    }
}

/// The first `k` AMD dependency items, comma-joined.
pub open spec fn spec_dep_array(ex: Seq<ExternalModelV>, k: int) -> Option<Seq<char>>
    decreases k,
{
    if k <= 0 {
        Some(Seq::empty())
    } else {
        match (spec_dep_array(ex, k - 1), spec_dep_item(ex[k - 1])) {
            (Some(pre), Some(item)) => Some(
                if k == 1 {
                    item
                } else {
                    pre + ", "@ + item
                },
            ),
            _ => None,
        }
    }
}

/// A missing AMD request at one position makes the whole array missing.
proof fn lemma_dep_array_none(ex: Seq<ExternalModelV>, i: int, k: int)
    requires
        0 <= i < k <= ex.len(),
        spec_dep_item(ex[i]) is None,
    ensures
        spec_dep_array(ex, k) is None,
    decreases k,
{
    if i < k - 1 {
        lemma_dep_array_none(ex, i, k - 1);
    }
}

/// Renders the bracketed AMD dependency array of the externals.
pub fn externals_dep_array(externals: &Vec<ExternalModel>) -> (r: Result<String, UmdError>)
    ensures
        ({
            let exv = externals@.map_values(|m: ExternalModel| m@);
            match r {
                Ok(out) => spec_dep_array(exv, exv.len() as int) is Some && out@ == "["@
                    + spec_dep_array(exv, exv.len() as int)->0 + "]"@,
                Err(e) => spec_dep_array(exv, exv.len() as int) is None && e.typ@ == "amd"@,
            }
        }),
{
    let ghost exv = externals@.map_values(|m: ExternalModel| m@);
    let mut s = String::new();
    let n = externals.len();
    for i in 0..n
        invariant
            n == externals@.len(),
            exv == externals@.map_values(|m: ExternalModel| m@),
            spec_dep_array(exv, i as int) == Some(s@),
    {
        let parts = match request_for(&externals[i], "amd") {
            Some(p) => p,
            None => {
                proof {
                    assert(exv[i as int] == externals@[i as int]@);
                    lemma_dep_array_none(exv, i as int, exv.len() as int);
                }
                return Err(UmdError { typ: String::from_str("amd") });
            },
        };
        if parts.len() == 0 {
            proof {
                assert(exv[i as int] == externals@[i as int]@);
                lemma_dep_array_none(exv, i as int, exv.len() as int);
            }
            return Err(UmdError { typ: String::from_str("amd") });
        }
        if i > 0 {
            s.append(", ");
        }
        let q = json_quote(parts[0].as_str());
        s.append(q.as_str());
        proof {
            assert(exv[i as int] == externals@[i as int]@);
            assert(parts.deep_view()[0] == parts@[0]@);
            assert(spec_dep_array(exv, i + 1) == Some(s@));
        }
    }
    let mut out = String::from_str("[");
    out.append(s.as_str());
    out.append("]");
    Ok(out)
}

/// One factory argument name for an external.
pub open spec fn spec_external_arg(m: ExternalModelV) -> Seq<char> {
    "__WEBPACK_EXTERNAL_MODULE_"@ + m.id + "__"@
}

/// The first `k` factory argument names, comma-joined.
pub open spec fn spec_external_args(ex: Seq<ExternalModelV>, k: int) -> Seq<char>
    decreases k,
{
    if k <= 0 {
        Seq::empty()
    } else if k == 1 {
        spec_external_arg(ex[0])
    } else {
        spec_external_args(ex, k - 1) + ", "@ + spec_external_arg(ex[k - 1])
    }
}

/// Renders the factory's argument list, one name per external.
pub fn external_arguments(externals: &Vec<ExternalModel>) -> (r: String)
    ensures
        ({
            let exv = externals@.map_values(|m: ExternalModel| m@);
            r@ == spec_external_args(exv, exv.len() as int)
        }),
{
    let ghost exv = externals@.map_values(|m: ExternalModel| m@);
    let mut s = String::new();
    let n = externals.len();
    for i in 0..n
        invariant
            n == externals@.len(),
            exv == externals@.map_values(|m: ExternalModel| m@),
            s@ == spec_external_args(exv, i as int),
    {
        if i > 0 {
            s.append(", ");
        }
        s.append("__WEBPACK_EXTERNAL_MODULE_");
        s.append(externals[i].id.as_str());
        s.append("__");
        proof {
            assert(exv[i as int] == externals@[i as int]@);
            assert(s@ == spec_external_args(exv, i + 1));
        }
    }
    s
}

/// The external type whose configuration the renderer misses first, in its
/// evaluation order, if any.
pub open spec fn spec_umd_error_typ(
    names: LibraryCustomUmdObjectV,
    exv: Seq<ExternalModelV>,
) -> Option<Seq<char>> {
    let n = exv.len() as int;
    if spec_dep_array(exv, n) is None {
        Some("amd"@)
    } else if names.commonjs is Some || names.root is Some {
        if spec_require_array(exv, "commonjs"@, n) is None {
            Some("commonjs"@)
        } else if spec_root_array(exv, n) is None {
            Some("root"@)
        } else if spec_require_array(exv, "commonjs2"@, n) is None {
            Some("commonjs2"@)
        } else {
            None
        }
    } else {
        if n > 0 && spec_require_array(exv, "commonjs"@, n) is None {
            Some("commonjs"@)
        } else if n > 0 && spec_root_array(exv, n) is None {
            Some("root"@)
        } else if spec_require_array(exv, "commonjs2"@, n) is None {
            Some("commonjs2"@)
        } else {
            None
        }
    }
}

/// The `define(...)` call of the AMD branch.
pub open spec fn spec_umd_define(
    names: LibraryCustomUmdObjectV,
    named_define: Option<bool>,
    exv: Seq<ExternalModelV>,
    d: ChunkPathDataV,
) -> Seq<char> {
    let deps = "["@ + spec_dep_array(exv, exv.len() as int)->0 + "]"@;
    if names.amd is Some && named_define is Some {
        "define("@ + spec_library_name(seq![names.amd->0], d) + ", "@ + deps + ", factory);\n"@
    } else {
        "define("@ + deps + ", factory);\n"@
    }
}

/// The CommonJS / root factory branches.
pub open spec fn spec_umd_factory(
    names: LibraryCustomUmdObjectV,
    aux: Option<LibraryAuxiliaryCommentV>,
    exv: Seq<ExternalModelV>,
    d: ChunkPathDataV,
) -> Seq<char> {
    let n = exv.len() as int;
    if names.commonjs is Some || names.root is Some {
        let commonjs_name = if names.commonjs is Some {
            spec_library_name(seq![names.commonjs->0], d)
        } else if names.root is Some && names.root->0.len() > 0 {
            spec_library_name(names.root->0, d)
        } else {
            Seq::empty()
        };
        let commonjs_code = spec_auxiliary_comment("commonjs"@, aux) + "\n      exports["@
            + commonjs_name + "] = factory("@ + spec_require_array(exv, "commonjs"@, n)->0
            + ");\n"@;
        let root_acc: Seq<Seq<char>> = if names.root is Some {
            names.root->0
        } else if names.commonjs is Some {
            seq![names.commonjs->0]
        } else {
            Seq::empty()
        };
        let root_code = spec_auxiliary_comment("root"@, aux) + "\n      "@ + spec_replace_keys(
            spec_accessor_access(Some("root"@), root_acc, root_acc.len() as int),
            d,
            0,
        ) + " = factory("@ + spec_root_array(exv, n)->0 + ");"@;
        "} else if(typeof exports === 'object'){\n\n          "@ + commonjs_code
            + "\n      } else {\n\n          "@ + root_code + "\n      }\n"@
    } else {
        let value = if n == 0 {
            "var a = factory();\n"@
        } else {
            "var a = typeof exports === 'object' ? factory("@ + spec_require_array(
                exv,
                "commonjs"@,
                n,
            )->0 + ") : factory("@ + spec_root_array(exv, n)->0 + ");\n"@
        };
        "} else {\n          "@ + value
            + "\n          for(var i in a) (typeof exports === 'object' ? exports : root)[i] = a[i];\n\n      }\n"@
    }
}

/// The whole universal module definition wrapper around a chunk's source.
pub open spec fn spec_render_umd(
    names: LibraryCustomUmdObjectV,
    aux: Option<LibraryAuxiliaryCommentV>,
    named_define: Option<bool>,
    exv: Seq<ExternalModelV>,
    d: ChunkPathDataV,
    source: Seq<char>,
    global_object: Seq<char>,
    supports_arrow_function: bool,
) -> Seq<char> {
    let n = exv.len() as int;
    let args = spec_external_args(exv, n);
    "(function webpackUniversalModuleDefinition(root, factory) {\n"@ + spec_auxiliary_comment(
        "commonjs2"@,
        aux,
    )
        + "\n      if(typeof exports === 'object' && typeof module === 'object') {\n          module.exports = factory("@
        + spec_require_array(exv, "commonjs2"@, n)->0 + ");\n      }"@
        + "else if(typeof define === 'function' && define.amd) {\n          "@
        + spec_auxiliary_comment("amd"@, aux) + "\n          "@ + spec_umd_define(
        names,
        named_define,
        exv,
        d,
    ) + "\n          "@ + spec_umd_factory(names, aux, exv, d) + "\n      })("@ + global_object
        + ", "@ + (if supports_arrow_function {
        "("@ + args + ") =>"@
    } else {
        "function("@ + args + ")"@
    }) + " {\n          return "@ + source + "\n})"@
}

/// Whether every array the factory branches need is available.
pub open spec fn spec_umd_factory_ok(
    names: LibraryCustomUmdObjectV,
    exv: Seq<ExternalModelV>,
) -> bool {
    let n = exv.len() as int;
    if names.commonjs is Some || names.root is Some {
        spec_require_array(exv, "commonjs"@, n) is Some && spec_root_array(exv, n) is Some
    } else {
        n == 0 || (spec_require_array(exv, "commonjs"@, n) is Some && spec_root_array(exv, n) is Some)
    }
}

/// Renders the `define(...)` call of the AMD branch.
fn render_define(
    options: &UmdLibraryPluginParsed,
    chunk: &ChunkPathData,
    deps: &String,
    Ghost(exv): Ghost<Seq<ExternalModelV>>,
) -> (r: String)
    requires
        spec_dep_array(exv, exv.len() as int) is Some,
        deps@ == "["@ + spec_dep_array(exv, exv.len() as int)->0 + "]"@,
    ensures
        r@ == spec_umd_define(options.names@, options.named_define, exv, chunk@),
{
    let mut define = String::from_str("define(");
    let has_named_amd = match (&options.names.amd, &options.named_define) {
        (Some(_), Some(_)) => true,
        _ => false,
    };
    if has_named_amd {
        let amd = match &options.names.amd {
            Some(a) => a.clone(),
            None => unreached(),
        };
        let mut v: Vec<String> = Vec::new();
        v.push(amd);
        let ln = library_name(&v, chunk);
        proof {
            assert(v.deep_view() =~= seq![options.names@.amd->0]);
            assert(v.deep_view() == seq![options.names@.amd->0]);
        }
        define.append(ln.as_str());
        define.append(", ");
        define.append(deps.as_str());
        define.append(", factory);\n");
    } else {
        define.append(deps.as_str());
        define.append(", factory);\n");
    }
    proof {
        assert(define@ == spec_umd_define(options.names@, options.named_define, exv, chunk@));
    }
    define
}

/// Renders the CommonJS / root factory branches.
#[verifier::rlimit(100)]
fn render_factory(
    options: &UmdLibraryPluginParsed,
    externals: &Vec<ExternalModel>,
    chunk: &ChunkPathData,
) -> (r: Result<String, UmdError>)
    ensures
        ({
            let exv = externals@.map_values(|m: ExternalModel| m@);
            let auxv = match options.auxiliary_comment {
                Some(a) => Some(a@),
                None => None,
            };
            match r {
                Ok(out) => spec_umd_factory_ok(options.names@, exv) && out@ == spec_umd_factory(
                    options.names@,
                    auxv,
                    exv,
                    chunk@,
                ),
                Err(e) => !spec_umd_factory_ok(options.names@, exv) && e.typ@ == (
                if spec_require_array(exv, "commonjs"@, exv.len() as int) is None {
                    "commonjs"@
                } else {
                    "root"@
                }),
            }
        }),
{
    let ghost exv = externals@.map_values(|m: ExternalModel| m@);
    let aux = match &options.auxiliary_comment {
        Some(a) => Some(a),
        None => None,
    };
    let has_names = options.names.commonjs.is_some() || options.names.root.is_some();
    let mut factory = if has_names {
        String::from_str("} else if(typeof exports === 'object'){\n\n          ")
    } else {
        String::from_str("} else {\n          ")
    };
    if has_names {
        let cj = match externals_require_array("commonjs", externals) {
            Ok(s) => s,
            Err(e) => {
                return Err(e);
            },
        };
        let rt = match externals_root_array(externals) {
            Ok(s) => s,
            Err(e) => {
                return Err(e);
            },
        };
        let commonjs_name = match &options.names.commonjs {
            Some(c) => {
                let mut v: Vec<String> = Vec::new();
                v.push(c.clone());
                let ln = library_name(&v, chunk);
                proof {
                    assert(v.deep_view() =~= seq![options.names@.commonjs->0]);
                    assert(v.deep_view() == seq![options.names@.commonjs->0]);
                }
                ln
            },
            None => {
                match &options.names.root {
                    Some(rv) => {
                        if rv.len() > 0 {
                            library_name(rv, chunk)
                        } else {
                            // An empty accessor has no last part to name.
                            String::new()
                        }
                    },
                    None => unreached(),
                }
            },
        };
        let mut commonjs_code = get_auxiliary_comment("commonjs", aux);
        commonjs_code.append("\n      exports[");
        commonjs_code.append(commonjs_name.as_str());
        commonjs_code.append("] = factory(");
        commonjs_code.append(cj.as_str());
        commonjs_code.append(");\n");
        let root_acc: Vec<String> = match &options.names.root {
            Some(rv) => copy_string_vec(rv),
            None => {
                match &options.names.commonjs {
                    Some(c) => {
                        let mut v: Vec<String> = Vec::new();
                        v.push(c.clone());
                        v
                    },
                    None => unreached(),
                }
            },
        };
        proof {
            assert(root_acc.deep_view() =~~= (if options.names@.root is Some {
                options.names@.root->0
            } else {
                seq![options.names@.commonjs->0]
            }));
        }
        let acc = accessor_access(Some("root"), &root_acc);
        let racc = replace_keys(acc, chunk);
        let mut root_code = get_auxiliary_comment("root", aux);
        root_code.append("\n      ");
        root_code.append(racc.as_str());
        root_code.append(" = factory(");
        root_code.append(rt.as_str());
        root_code.append(");");
        factory.append(commonjs_code.as_str());
        factory.append("\n      } else {\n\n          ");
        factory.append(root_code.as_str());
        factory.append("\n      }\n");
        proof {
            assert(factory@ =~= spec_umd_factory(
                options.names@,
                match options.auxiliary_comment {
                    Some(a) => Some(a@),
                    None => None,
                },
                exv,
                chunk@,
            ));
        }
    } else {
        let mut value = String::from_str("");
        if externals.len() == 0 {
            value = String::from_str("var a = factory();\n");
        } else {
            let cj = match externals_require_array("commonjs", externals) {
                Ok(s) => s,
                Err(e) => {
                    return Err(e);
                },
            };
            let rt = match externals_root_array(externals) {
                Ok(s) => s,
                Err(e) => {
                    return Err(e);
                },
            };
            value = String::from_str("var a = typeof exports === 'object' ? factory(");
            value.append(cj.as_str());
            value.append(") : factory(");
            value.append(rt.as_str());
            value.append(");\n");
        }
        factory.append(value.as_str());
        factory.append(
            "\n          for(var i in a) (typeof exports === 'object' ? exports : root)[i] = a[i];\n\n      }\n",
        );
        proof {
            assert(factory@ =~= spec_umd_factory(
                options.names@,
                match options.auxiliary_comment {
                    Some(a) => Some(a@),
                    None => None,
                },
                exv,
                chunk@,
            ));
        }
    }
    Ok(factory)
}

/// Renders the UMD wrapper around a chunk's source: the module definition
/// dispatches between CommonJS, AMD and root-global consumption, handing the
/// externals to the factory in each branch's own form.
#[verifier::rlimit(100)]
pub fn render(
    options: &UmdLibraryPluginParsed,
    externals: &Vec<ExternalModel>,
    chunk: &ChunkPathData,
    source: &str,
    global_object: &str,
    supports_arrow_function: bool,
) -> (r: Result<String, UmdError>)
    ensures
        ({
            let exv = externals@.map_values(|m: ExternalModel| m@);
            let auxv = match options.auxiliary_comment {
                Some(a) => Some(a@),
                None => None,
            };
            match r {
                Ok(out) => spec_umd_error_typ(options.names@, exv) is None && out@
                    == spec_render_umd(
                    options.names@,
                    auxv,
                    options.named_define,
                    exv,
                    chunk@,
                    source@,
                    global_object@,
                    supports_arrow_function,
                ),
                Err(e) => spec_umd_error_typ(options.names@, exv) == Some(e.typ@),
            }
        }),
{
    let ghost exv = externals@.map_values(|m: ExternalModel| m@);
    let aux = match &options.auxiliary_comment {
        Some(a) => Some(a),
        None => None,
    };
    // The AMD dependency array, evaluated first.
    let deps = match externals_dep_array(externals) {
        Ok(d) => d,
        Err(e) => {
            return Err(e);
        },
    };
    let define = render_define(options, chunk, &deps, Ghost(exv));
    let factory = match render_factory(options, externals, chunk) {
        Ok(f) => f,
        Err(e) => {
            return Err(e);
        },
    };
    // the commonjs2 head, evaluated last
    let cj2 = match externals_require_array("commonjs2", externals) {
        Ok(s) => s,
        Err(e) => {
            return Err(e);
        },
    };
    let args = external_arguments(externals);
    let mut out = String::from_str("(function webpackUniversalModuleDefinition(root, factory) {\n");
    let aux2 = get_auxiliary_comment("commonjs2", aux);
    out.append(aux2.as_str());
    out.append(
        "\n      if(typeof exports === 'object' && typeof module === 'object') {\n          module.exports = factory(",
    );
    out.append(cj2.as_str());
    out.append(");\n      }");
    out.append("else if(typeof define === 'function' && define.amd) {\n          ");
    let auxa = get_auxiliary_comment("amd", aux);
    out.append(auxa.as_str());
    out.append("\n          ");
    out.append(define.as_str());
    out.append("\n          ");
    out.append(factory.as_str());
    out.append("\n      })(");
    out.append(global_object);
    out.append(", ");
    let mut arrow_part = if supports_arrow_function {
        String::from_str("(")
    } else {
        String::from_str("function(")
    };
    arrow_part.append(args.as_str());
    arrow_part.append(if supports_arrow_function {
        ") =>"
    } else {
        ")"
    });
    out.append(arrow_part.as_str());
    out.append(" {\n          return ");
    out.append(source);
    out.append("\n})");
    proof {
        assert(out@ =~= spec_render_umd(
            options.names@,
            match options.auxiliary_comment {
                Some(a) => Some(a@),
                None => None,
            },
            options.named_define,
            exv,
            chunk@,
            source@,
            global_object@,
            supports_arrow_function,
        ));
    }
    Ok(out)
}

} // verus!
