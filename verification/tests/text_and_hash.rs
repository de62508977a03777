use newbound_agent::fnv::{hex128, hex64, tree_fingerprint, fnv64_update, fnv128_update, Fnv64Stream, FNV64_OFFSET, FNV128_OFFSET};
use newbound_agent::text::{bracketed_span, int_string, join_strings, take_str, trim_str, decimal_string, has_string};
use newbound_agent::json::{json_escape, render_json, Json};

#[test]
fn fnv64_known_vectors() {
    assert_eq!(hex64(fnv64_update(FNV64_OFFSET, b"")), "cbf29ce484222325");
    assert_eq!(hex64(fnv64_update(FNV64_OFFSET, b"a")), "af63dc4c8601ec8c");
    assert_eq!(hex64(fnv64_update(FNV64_OFFSET, b"foobar")), "85944171f73967e8");
}

#[test]
fn fnv128_known_vector() {
    assert_eq!(hex128(fnv128_update(FNV128_OFFSET, b"a")), "d228cb696f1a8caf78912b704e4a8964");
}

#[test]
fn fnv_stream_in_pieces_is_the_whole() {
    let mut s = Fnv64Stream::new();
    s.update(b"foo");
    s.update(b"");
    s.update(b"bar");
    assert_eq!(s.hex(), "85944171f73967e8");
    assert_eq!(s.digest(), fnv64_update(FNV64_OFFSET, b"foobar"));
}

#[test]
fn tree_fingerprint_runs_over_names_and_sizes() {
    let entries = vec![("a/b.txt".to_string(), 12u64), ("c.bin".to_string(), 0u64)];
    assert_eq!(hex64(tree_fingerprint(&entries)), "2ee445cfa2c4da4a");
    assert_eq!(tree_fingerprint(&Vec::new()), FNV64_OFFSET);
}

#[test]
fn json_escape_short_and_unicode_escapes() {
    assert_eq!(json_escape("a\"b\\c\nd\re\tf"), "a\\\"b\\\\c\\nd\\re\\tf");
    assert_eq!(json_escape("\u{1}x\u{1f}"), "\\u0001x\\u001f");
    assert_eq!(json_escape("héllo"), "héllo");
}

#[test]
fn render_orders_members_canonically() {
    let v = Json::Obj(vec![
        ("zeta".to_string(), Json::Int(-3)),
        ("time".to_string(), Json::Int(5)),
        ("alpha".to_string(), Json::Bool(true)),
        ("claim".to_string(), Json::Str("x \"y\"".to_string())),
        ("tags".to_string(), Json::Arr(vec![Json::Null, Json::Num("1.5".to_string())])),
    ]);
    let expected = "{\n  \"claim\": \"x \\\"y\\\"\",\n  \"tags\": [\n    null,\n    1.5\n  ],\n  \"time\": 5,\n  \"alpha\": true,\n  \"zeta\": -3\n}";
    assert_eq!(render_json(&v), expected);
}

#[test]
fn render_empty_containers_inline() {
    assert_eq!(render_json(&Json::Arr(Vec::new())), "[]");
    assert_eq!(render_json(&Json::Obj(Vec::new())), "{}");
    assert_eq!(render_json(&Json::Arr(vec![Json::Obj(Vec::new())])), "[\n  {}\n]");
}

#[test]
fn render_does_not_depend_on_member_order() {
    let a = Json::Obj(vec![
        ("b".to_string(), Json::Int(1)),
        ("doc".to_string(), Json::Int(2)),
        ("a".to_string(), Json::Int(3)),
    ]);
    let b = Json::Obj(vec![
        ("a".to_string(), Json::Int(3)),
        ("b".to_string(), Json::Int(1)),
        ("doc".to_string(), Json::Int(2)),
    ]);
    assert_eq!(render_json(&a), render_json(&b));
}

#[test]
fn bracketed_span_first_open_last_close() {
    assert_eq!(bracketed_span("say [\"a\", \"b\"] ok ]", '[', ']'), Some("[\"a\", \"b\"] ok ]".to_string()));
    assert_eq!(bracketed_span("] before [", '[', ']'), None);
    assert_eq!(bracketed_span("none", '{', '}'), None);
}

#[test]
fn small_text_helpers() {
    assert_eq!(int_string(-42), "-42");
    assert_eq!(int_string(i64::MIN), "-9223372036854775808");
    assert_eq!(decimal_string(0), "0");
    assert_eq!(join_strings(&vec!["a".to_string(), "b".to_string(), "c".to_string()], ", "), "a, b, c");
    assert_eq!(join_strings(&Vec::new(), ", "), "");
    assert_eq!(take_str("héllo", 2), "hé");
    assert_eq!(trim_str("\t x y \n"), "x y");
    assert!(has_string(&vec!["q".to_string()], "q"));
    assert!(!has_string(&vec!["q".to_string()], "r"));
}
