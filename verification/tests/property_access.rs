use esm_chunks::property_access::{property_access, property_access_with_optional};

fn strs(v: &[&str]) -> Vec<String> {
    v.iter().map(|s| s.to_string()).collect()
}

#[test]
fn test_property_access_basic() {
    assert_eq!(property_access(&strs(&["a", "b", "c"]), 0), ".a.b.c");
}

#[test]
fn test_property_access_with_start() {
    assert_eq!(property_access(&strs(&["a", "b", "c"]), 1), ".b.c");
}

#[test]
fn test_property_access_special_chars() {
    assert_eq!(property_access(&strs(&["a-b", "c d"]), 0), "[\"a-b\"][\"c d\"]");
}

#[test]
fn test_property_access_reserved_words() {
    assert_eq!(
        property_access(&strs(&["class", "default"]), 0),
        "[\"class\"][\"default\"]"
    );
}

#[test]
fn test_property_access_with_optional_all_required() {
    let props = strs(&["a", "b", "c"]);
    let optionals = vec![false, false, false];
    assert_eq!(property_access_with_optional(&props, &optionals, 0), ".a.b.c");
}

#[test]
fn test_property_access_with_optional_all_optional() {
    let props = strs(&["a", "b", "c"]);
    let optionals = vec![true, true, true];
    assert_eq!(property_access_with_optional(&props, &optionals, 0), "?.a?.b?.c");
}

#[test]
fn test_property_access_with_optional_mixed() {
    let props = strs(&["a", "b", "c"]);
    let optionals = vec![false, true, false];
    assert_eq!(property_access_with_optional(&props, &optionals, 0), ".a?.b.c");
}

#[test]
fn test_property_access_with_optional_special_chars() {
    let props = strs(&["a-b", "c"]);
    let optionals = vec![true, false];
    assert_eq!(property_access_with_optional(&props, &optionals, 0), "?.[\"a-b\"].c");
}

#[test]
fn test_property_access_with_optional_with_start() {
    let props = strs(&["a", "b", "c"]);
    let optionals = vec![false, true, true];
    assert_eq!(property_access_with_optional(&props, &optionals, 1), "?.b?.c");
}

#[test]
fn test_property_access_with_optional_empty_optionals() {
    let props = strs(&["a", "b"]);
    let optionals: Vec<bool> = vec![];
    assert_eq!(property_access_with_optional(&props, &optionals, 0), ".a.b");
}

#[test]
fn test_property_access_unicode_property() {
    assert_eq!(property_access(&strs(&["日本"]), 0), "[\"日本\"]");
}

#[test]
fn test_property_access_empty_property() {
    assert_eq!(property_access(&strs(&[""]), 0), "[\"\"]");
}

#[test]
fn test_property_access_quote_in_property() {
    assert_eq!(property_access(&strs(&["a\"b"]), 0), "[\"a\\\"b\"]");
}
