use esm_chunks::html::{has_doctype, HtmlCompiler, HtmlPluginOptions};
use esm_chunks::lazy::{
    process_unlazy_dependencies, ForwardedIdSet, ModuleGraphDeps, ModuleToLazyMake,
};
use esm_chunks::property_access::{reserved_word, safe_identifier};
use esm_chunks::strutil::{decimal_string, str_eq};
use esm_chunks::umd::{
    accessor_access, accessor_to_object_access, external_arguments, externals_dep_array,
    externals_require_array, externals_root_array, get_auxiliary_comment, render, replace_keys,
    ChunkPathData, ExternalModel, ExternalRequest, LibraryAuxiliaryComment, LibraryName,
    LibraryOptions, UmdLibraryPlugin,
};

fn strs(v: &[&str]) -> Vec<String> {
    v.iter().map(|s| s.to_string()).collect()
}

fn no_path_data() -> ChunkPathData {
    ChunkPathData { id: None, hash: None, name: None, content_hash: None }
}

#[test]
fn decimal_rendering() {
    assert_eq!(decimal_string(0), "0");
    assert_eq!(decimal_string(12345), "12345");
    assert_eq!(decimal_string(u64::MAX), "18446744073709551615");
}

#[test]
fn string_equality_and_identifiers() {
    assert!(str_eq("abc", "abc"));
    assert!(!str_eq("abc", "abd"));
    assert!(safe_identifier("_foo$1"));
    assert!(!safe_identifier("1foo"));
    assert!(!safe_identifier(""));
    assert!(reserved_word("class"));
    assert!(reserved_word("await"));
    assert!(!reserved_word("classy"));
}

#[test]
fn doctype_detection() {
    assert!(has_doctype("<!doctype html>"));
    assert!(has_doctype("  \n\t<!DOCTYPE html>"));
    assert!(!has_doctype("<div>no doctype</div>"));
    assert!(!has_doctype("   "));
}

#[test]
fn minify_follows_mode_unless_configured() {
    let explicit = HtmlCompiler::new(HtmlPluginOptions { minify: Some(false) });
    assert!(!explicit.should_minify(true));
    let by_mode = HtmlCompiler::new(HtmlPluginOptions { minify: None });
    assert!(by_mode.should_minify(true));
    assert!(!by_mode.should_minify(false));
}

#[test]
fn unlazy_dependencies_are_promoted_once() {
    let lazy_make = ModuleToLazyMake { lazy_dependencies: vec![Some(vec![0, 2, 3])] };
    let mut deps = ModuleGraphDeps { lazy: vec![true, true, false, true] };
    let forwarded = ForwardedIdSet { ids: vec![2, 3, 9] };
    let task = process_unlazy_dependencies(&lazy_make, &mut deps, &forwarded, 0)
        .expect("two dependencies were still lazy");
    assert_eq!(task.dependencies, vec![3]);
    assert_eq!(task.original_module_identifier, 0);
    assert!(task.from_unlazy);
    assert_eq!(deps.lazy, vec![true, true, false, false]);
    // A second round finds nothing left to promote.
    let again = process_unlazy_dependencies(&lazy_make, &mut deps, &forwarded, 0);
    assert!(again.is_none());
}

#[test]
fn auxiliary_comments() {
    let aux = LibraryAuxiliaryComment {
        amd: Some("amd comment".to_string()),
        commonjs: None,
        commonjs2: None,
        root: None,
    };
    assert_eq!(get_auxiliary_comment("amd", Some(&aux)), "\t// amd comment \n");
    assert_eq!(get_auxiliary_comment("commonjs", Some(&aux)), "");
    assert_eq!(get_auxiliary_comment("amd", None), "");
}

#[test]
fn accessor_rendering() {
    assert_eq!(accessor_to_object_access(&strs(&["a-b", "c"])), "[\"a-b\"][\"c\"]");
    assert_eq!(
        accessor_access(None, &strs(&["a", "b"])),
        "a = typeof a === 'object' ? a : {}, a[\"b\"]"
    );
    assert_eq!(
        accessor_access(Some("root"), &strs(&["x", "y"])),
        "root[\"x\"] = root[\"x\"] || {}, root[\"x\"][\"y\"]"
    );
}

#[test]
fn key_replacement() {
    let data = ChunkPathData {
        id: Some("7".to_string()),
        hash: Some("abcd".to_string()),
        name: None,
        content_hash: None,
    };
    assert_eq!(replace_keys("lib-[id]-[chunkhash]".to_string(), &data), "lib-7-abcd");
    // A placeholder without a value stays as written.
    assert_eq!(replace_keys("lib-[name]".to_string(), &data), "lib-[name]");
}

#[test]
fn externals_arrays() {
    let externals = vec![
        ExternalModel {
            id: "lodash".to_string(),
            request: ExternalRequest::Single(strs(&["lodash", "fp"])),
        },
        ExternalModel {
            id: "react".to_string(),
            request: ExternalRequest::PerType(vec![
                ("commonjs".to_string(), strs(&["react"])),
                ("root".to_string(), strs(&["React"])),
            ]),
        },
    ];
    assert_eq!(
        externals_require_array("commonjs", &externals).unwrap(),
        "require(\"lodash\")[\"fp\"], require(\"react\")"
    );
    assert_eq!(
        externals_root_array(&externals).unwrap(),
        "root[\"lodash\"][\"fp\"], root[\"React\"]"
    );
    let missing = externals_require_array("commonjs2", &externals).unwrap_err();
    assert_eq!(missing.message(), "Missing external configuration for type: commonjs2");
    assert_eq!(
        external_arguments(&externals),
        "__WEBPACK_EXTERNAL_MODULE_lodash__, __WEBPACK_EXTERNAL_MODULE_react__"
    );
    let amd_missing = externals_dep_array(&externals).unwrap_err();
    assert_eq!(amd_missing.typ, "amd");
}

#[test]
fn umd_wrapper_with_externals() {
    let plugin = UmdLibraryPlugin::new(false, "umd".to_string());
    let options = LibraryOptions {
        name: None,
        auxiliary_comment: None,
        umd_named_define: None,
        library_type: "umd".to_string(),
    };
    let parsed = plugin
        .get_options_for_chunk(Some(&options))
        .expect("the library type matches");
    let externals = vec![ExternalModel {
        id: "dep".to_string(),
        request: ExternalRequest::Single(strs(&["dep"])),
    }];
    let out = render(&parsed, &externals, &no_path_data(), "S", "self", false)
        .expect("a single request serves every type");
    assert!(out.contains("module.exports = factory(require(\"dep\"));"));
    assert!(out.contains("define([\"dep\"], factory);"));
    assert!(out.contains(
        "var a = typeof exports === 'object' ? factory(require(\"dep\")) : factory(root[\"dep\"]);"
    ));
    assert!(out.contains("function(__WEBPACK_EXTERNAL_MODULE_dep__)"));
}

#[test]
fn umd_wrapper_shapes() {
    let plugin = UmdLibraryPlugin::new(false, "umd".to_string());
    let options = LibraryOptions {
        name: Some(LibraryName::NonUmdString("MyLib".to_string())),
        auxiliary_comment: None,
        umd_named_define: None,
        library_type: "umd".to_string(),
    };
    let parsed = plugin
        .get_options_for_chunk(Some(&options))
        .expect("the library type matches");
    let out = render(&parsed, &vec![], &no_path_data(), "SOURCE", "self", false)
        .expect("no externals can miss a configuration");
    assert!(out.starts_with("(function webpackUniversalModuleDefinition(root, factory) {\n"));
    assert!(out.contains("module.exports = factory();"));
    assert!(out.contains("define([], factory);"));
    assert!(out.contains("exports[\"MyLib\"] = factory();"));
    assert!(out.contains("root[\"MyLib\"] = factory();"));
    assert!(out.contains("function()"));
    assert!(out.contains("SOURCE"));
    assert!(out.ends_with("\n})"));

    // Without a configured name the wrapper copies every export over.
    let unnamed = LibraryOptions {
        name: None,
        auxiliary_comment: None,
        umd_named_define: None,
        library_type: "umd".to_string(),
    };
    let parsed2 = plugin
        .get_options_for_chunk(Some(&unnamed))
        .expect("the library type matches");
    let out2 = render(&parsed2, &vec![], &no_path_data(), "SRC2", "self", true)
        .expect("no externals can miss a configuration");
    assert!(out2.contains("var a = factory();"));
    assert!(out2.contains("for(var i in a) (typeof exports === 'object' ? exports : root)[i] = a[i];"));
    assert!(out2.contains("() =>"));
    // A mismatched library type parses to nothing.
    assert!(plugin
        .get_options_for_chunk(Some(&LibraryOptions {
            name: None,
            auxiliary_comment: None,
            umd_named_define: None,
            library_type: "var".to_string(),
        }))
        .is_none());
}
