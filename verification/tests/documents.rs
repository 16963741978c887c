use docstore::json::Json;
use docstore::jsontext::json_to_string;
use docstore::store::Store;
use docstore::strutil;

#[test]
fn structural_equality_is_deep() {
    let a = Json::Obj(vec![
        ("x".to_string(), Json::Arr(vec![Json::Int(1), Json::Str("s".to_string())])),
        ("y".to_string(), Json::Null),
    ]);
    let b = a.deep_clone();
    assert!(a.same_as(&b));
    let c = Json::Obj(vec![
        ("x".to_string(), Json::Arr(vec![Json::Int(2), Json::Str("s".to_string())])),
        ("y".to_string(), Json::Null),
    ]);
    assert!(!a.same_as(&c));
    // Member order is part of the shape.
    let d = Json::Obj(vec![
        ("y".to_string(), Json::Null),
        ("x".to_string(), Json::Arr(vec![Json::Int(1), Json::Str("s".to_string())])),
    ]);
    assert!(!a.same_as(&d));
}

#[test]
fn object_lookup_finds_the_first_member() {
    let doc = Json::Obj(vec![
        ("a".to_string(), Json::Int(1)),
        ("a".to_string(), Json::Int(2)),
    ]);
    match doc.get_field("a") {
        Some(Json::Int(1)) => {},
        _ => panic!("the first member wins"),
    }
    assert!(doc.get_field("b").is_none());
    assert!(Json::Null.get_field("a").is_none());
}

#[test]
fn set_field_replaces_or_appends() {
    let doc = Json::Obj(vec![("a".to_string(), Json::Int(1))]);
    let replaced = doc.deep_clone().set_field("a", Json::Int(2));
    match replaced.get_field("a") {
        Some(Json::Int(2)) => {},
        _ => panic!("expected the replacement"),
    }
    let appended = doc.set_field("b", Json::Bool(true));
    match appended.get_field("b") {
        Some(Json::Bool(true)) => {},
        _ => panic!("expected the appended member"),
    }
}

#[test]
fn string_order_is_lexicographic() {
    assert!(strutil::str_lt("a", "b"));
    assert!(strutil::str_lt("a", "ab"));
    assert!(!strutil::str_lt("ab", "a"));
    assert!(!strutil::str_lt("a", "a"));
    assert!(strutil::str_lt("", "a"));
    assert!(strutil::str_lt("Z", "a"));
    assert!(strutil::str_eq("same", "same"));
    assert!(!strutil::str_eq("a", "ab"));
}

#[test]
fn number_text_round_trips_verbatim() {
    let doc = Json::Obj(vec![
        ("x".to_string(), Json::Num("1.5".to_string())),
        ("y".to_string(), Json::Num("-2.25e10".to_string())),
        ("z".to_string(), Json::Int(3)),
    ]);
    assert_eq!(json_to_string(&doc), "{\"x\":1.5,\"y\":-2.25e10,\"z\":3}");
    let mut store = Store::new();
    store.create_cf("cf").unwrap();
    store.insert_cf("cf", "k", doc.deep_clone()).unwrap();
    assert!(store.get_cf("cf", "k").unwrap().same_as(&doc));
}

#[test]
fn cf_size_counts_keys_and_minified_text() {
    let mut store = Store::new();
    store.create_cf("cf").unwrap();
    // "k" (1) + "7" (1), and "ab" (2) + "true" (4).
    store.insert_cf("cf", "k", Json::Int(7)).unwrap();
    store.insert_cf("cf", "ab", Json::Bool(true)).unwrap();
    let size = store.get_cf_size("cf").unwrap();
    assert_eq!(size.sst_bytes, 8);
    assert_eq!(size.mem_table_bytes, 0);
    assert_eq!(size.blob_bytes, 0);
    assert!(store.get_cf_size("absent").is_err());
}
