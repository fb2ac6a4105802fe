use gpuitop::data::merge::{deep_merge, ConfigValue};

fn rec(fields: Vec<(&str, ConfigValue)>) -> ConfigValue {
    ConfigValue::Struct(fields.into_iter().map(|(n, v)| (n.to_string(), v)).collect())
}

fn val(text: &str) -> ConfigValue {
    ConfigValue::Other(text.to_string())
}

#[test]
fn test_merge_structs_adds_new_field() {
    let mut base = rec(vec![("a", val("1"))]);
    let overlay = rec(vec![("b", val("2"))]);
    deep_merge(&mut base, &overlay);
    let expected = rec(vec![("a", val("1")), ("b", val("2"))]);
    assert_eq!(base, expected);
}

#[test]
fn test_merge_structs_overwrites_field() {
    let mut base = rec(vec![("a", val("1")), ("b", val("2"))]);
    let overlay = rec(vec![("b", val("3"))]);
    deep_merge(&mut base, &overlay);
    assert_eq!(base, rec(vec![("a", val("1")), ("b", val("3"))]));
}

#[test]
fn test_merge_nested_structs() {
    let mut base = rec(vec![("x", rec(vec![("a", val("1")), ("b", val("2"))]))]);
    let overlay = rec(vec![("x", rec(vec![("b", val("3")), ("c", val("4"))]))]);
    deep_merge(&mut base, &overlay);
    assert_eq!(base, rec(vec![("x", rec(vec![("a", val("1")), ("b", val("3")), ("c", val("4"))]))]));
}

#[test]
fn test_merge_with_enums() {
    let mut base = rec(vec![("theme", val("Dark")), ("refresh_ms", val("1500"))]);
    let overlay = rec(vec![("refresh_ms", val("500"))]);
    deep_merge(&mut base, &overlay);
    assert_eq!(base, rec(vec![("theme", val("Dark")), ("refresh_ms", val("500"))]));
}

#[test]
fn test_merge_scalar_into_struct() {
    let mut base = rec(vec![("a", val("1"))]);
    let overlay = val("5");
    deep_merge(&mut base, &overlay);
    assert_eq!(base, val("5"));
}

#[test]
fn merge_struct_over_scalar_replaces() {
    let mut base = val("1");
    let overlay = rec(vec![("a", rec(vec![("b", val("2"))]))]);
    deep_merge(&mut base, &overlay);
    assert_eq!(base, rec(vec![("a", rec(vec![("b", val("2"))]))]));
}

#[test]
fn merge_into_first_of_repeated_names() {
    let mut base = rec(vec![("a", val("1")), ("a", val("2"))]);
    deep_merge(&mut base, &rec(vec![("a", val("9"))]));
    assert_eq!(base, rec(vec![("a", val("9")), ("a", val("2"))]));
}

#[test]
fn merge_keeps_base_fields_in_place() {
    let mut base = rec(vec![("a", val("1")), ("b", val("2"))]);
    let overlay = rec(vec![("c", val("3")), ("a", val("5"))]);
    deep_merge(&mut base, &overlay);
    assert_eq!(base, rec(vec![("a", val("5")), ("b", val("2")), ("c", val("3"))]));
}

#[test]
fn merge_empty_overlay_changes_nothing() {
    let mut base = rec(vec![("a", val("1")), ("x", rec(vec![("y", val("2"))]))]);
    deep_merge(&mut base, &rec(vec![]));
    assert_eq!(base, rec(vec![("a", val("1")), ("x", rec(vec![("y", val("2"))]))]));
}
