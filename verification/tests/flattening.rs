use serde_conv::flatten::deflate_attr;
use serde_conv::value::{dup, mapping_get, Value};

fn text(s: &str) -> Value {
    Value::Text(s.to_string())
}

fn mapping(entries: Vec<(&str, Value)>) -> Value {
    Value::Mapping(entries.into_iter().map(|(k, v)| (k.to_string(), v)).collect())
}

fn get(out: &Vec<(String, Value)>, key: &str) -> Value {
    dup(mapping_get(out, key).expect("key missing from flat map"))
}

#[test]
fn deflate_resolves_marker_and_leaf() {
    let input = mapping(vec![
        ("a", mapping(vec![("#text", text("hello"))])),
        ("b", text("world")),
    ]);
    let out = deflate_attr(input, "#text");
    assert_eq!(out.len(), 2);
    assert_eq!(get(&out, "a"), text("hello"));
    assert_eq!(get(&out, "b"), text("world"));
    // keys appear in first-write order
    assert_eq!(out[0].0, "a");
    assert_eq!(out[1].0, "b");
}

#[test]
fn deflate_searches_marker_at_depth() {
    let deep = mapping(vec![(
        "outer",
        mapping(vec![("inner", mapping(vec![("#text", Value::UInt64(5))]))]),
    )]);
    let out = deflate_attr(deep, "#text");
    assert_eq!(out.len(), 1);
    assert_eq!(get(&out, "outer"), Value::UInt64(5));
}

#[test]
fn deflate_last_write_wins() {
    // two marker-less subtrees under one key: the later one's leaf wins
    let input = mapping(vec![(
        "k",
        mapping(vec![("first", text("one")), ("second", text("two"))]),
    )]);
    let out = deflate_attr(input, "#text");
    assert_eq!(out.len(), 1);
    assert_eq!(get(&out, "k"), text("two"));
}

#[test]
fn deflate_non_mapping_input_is_empty() {
    assert_eq!(deflate_attr(text("leaf"), "#text"), Vec::new());
    assert_eq!(deflate_attr(Value::Null, "#text"), Vec::new());
    assert_eq!(deflate_attr(Value::Sequence(vec![text("a")]), "#text"), Vec::new());
}

#[test]
fn deflate_is_fixed_point_on_flat_output() {
    let input = mapping(vec![
        ("a", mapping(vec![("#text", text("hello"))])),
        ("b", text("world")),
        ("c", Value::UInt64(7)),
    ]);
    let once = Value::Mapping(deflate_attr(input, "#text"));
    let twice = deflate_attr(dup(&once), "#text");
    match once {
        Value::Mapping(entries) => assert_eq!(twice, entries),
        _ => unreachable!(),
    }
}

#[test]
fn deflate_end_to_end_scenario() {
    // the marker key is present nowhere: every branch degrades to its leaves,
    // the last leaf of each branch winning
    let input = mapping(vec![
        (
            "Person",
            mapping(vec![("Name", text("Alfred")), ("Age", text("042"))]),
        ),
        ("Foo", mapping(vec![("Bar", text("Test"))])),
        ("Test", text("Foo")),
    ]);
    let out = deflate_attr(input, "#text");
    assert_eq!(out.len(), 3);
    assert_eq!(get(&out, "Person"), text("042"));
    assert_eq!(get(&out, "Foo"), text("Test"));
    assert_eq!(get(&out, "Test"), text("Foo"));
    assert_eq!(out[0].0, "Person");
    assert_eq!(out[1].0, "Foo");
    assert_eq!(out[2].0, "Test");
}
