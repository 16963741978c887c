use docstore::api::{self, RangeQuery, SortOrder};
use docstore::json::Json;
use docstore::jsonpath::{parse_query, select_docs, Query};
use docstore::jsontext::json_to_string;
use docstore::store::Store;

fn user(id: i64, premium: bool) -> Json {
    Json::Obj(vec![
        ("id".to_string(), Json::Int(id)),
        ("premium".to_string(), Json::Bool(premium)),
        ("score".to_string(), Json::Int(id * 10)),
        (
            "tags".to_string(),
            Json::Arr(vec![Json::Str(if premium { "alpha" } else { "beta" }.to_string())]),
        ),
        (
            "data".to_string(),
            Json::Obj(vec![("email".to_string(), Json::Str(format!("u{}@x", id)))]),
        ),
    ])
}

fn bench_store(n: i64) -> Store {
    let mut store = Store::new();
    store.create_cf("bench").unwrap();
    for i in 0..n {
        store
            .insert_cf("bench", &format!("key{:03}", i), user(i, i % 2 == 0))
            .unwrap();
    }
    store
}

#[test]
fn serializer_produces_minified_json() {
    let doc = Json::Obj(vec![
        ("a".to_string(), Json::Int(1)),
        ("b".to_string(), Json::Str("x".to_string())),
        ("c".to_string(), Json::Arr(vec![Json::Null, Json::Bool(true), Json::Int(-2)])),
    ]);
    assert_eq!(json_to_string(&doc), "{\"a\":1,\"b\":\"x\",\"c\":[null,true,-2]}");
}

#[test]
fn serializer_escapes_strings() {
    let doc = Json::Str("a\"b\\c\nd\te\r\u{1}".to_string());
    assert_eq!(json_to_string(&doc), "\"a\\\"b\\\\c\\nd\\te\\r\\u0001\"");
}

#[test]
fn serializer_prints_integer_extremes() {
    assert_eq!(json_to_string(&Json::Int(0)), "0");
    assert_eq!(json_to_string(&Json::Int(i64::MIN)), "-9223372036854775808");
    assert_eq!(json_to_string(&Json::Int(i64::MAX)), "9223372036854775807");
}

#[test]
fn parse_accepts_the_documented_forms() {
    assert!(matches!(parse_query("$"), Some(Query::All)));
    assert!(matches!(parse_query("$[*]"), Some(Query::All)));
    assert!(matches!(parse_query("$[0]"), Some(Query::Index(0))));
    assert!(matches!(parse_query("$[17]"), Some(Query::Index(17))));
    assert!(parse_query("$[?@.premium==true]").is_some());
    assert!(parse_query("$[?@.status=='active']").is_some());
    assert!(parse_query("$[?@.score>800]").is_some());
    assert!(parse_query("$[?@.age<30&&@.premium==true]").is_some());
    assert!(parse_query("$[?@.tags[*]=='alpha']").is_some());
    assert!(parse_query("$[?@.metadata.login_count>500]").is_some());
    assert!(parse_query("$[?@.age>50&&@.status!='inactive'&&@.score<500]").is_some());
    assert!(parse_query("$[?@.a>=1||@.b<=2]").is_some());
}

#[test]
fn parse_rejects_what_is_not_in_the_grammar() {
    assert!(parse_query("").is_none());
    assert!(parse_query("$$").is_none());
    assert!(parse_query("$[").is_none());
    assert!(parse_query("$[?]").is_none());
    assert!(parse_query("$[?@]").is_none());
    assert!(parse_query("$[?premium==true]").is_none());
    assert!(parse_query("$[abc]").is_none());
}

#[test]
fn parse_accepts_only_canonical_texts() {
    // A non-canonical spelling of an index is refused; its canonical
    // spelling is owed.
    assert!(parse_query("$[007]").is_none());
    assert!(parse_query("$[7]").is_some());
    assert!(parse_query("$[ 7]").is_none());
    // Connectives inside a quoted string do not split the filter.
    let quoted = parse_query("$[?@.name=='a&&b']").unwrap();
    let mut store = Store::new();
    store.create_cf("cf").unwrap();
    store
        .insert_cf(
            "cf",
            "k",
            Json::Obj(vec![("name".to_string(), Json::Str("a&&b".to_string()))]),
        )
        .unwrap();
    assert_eq!(select_docs(&quoted, store.export_cf("cf").unwrap()).len(), 1);
}

#[test]
fn filter_selects_matching_documents() {
    let store = bench_store(10);
    let docs = store.export_cf("bench").unwrap();
    let q = parse_query("$[?@.premium==true]").unwrap();
    let hit = select_docs(&q, docs);
    assert_eq!(hit.len(), 5);
    for (_, v) in &hit {
        match v.get_field("premium") {
            Some(Json::Bool(true)) => {},
            _ => panic!("non-premium document selected"),
        }
    }
}

#[test]
fn filter_handles_numbers_strings_wildcards_and_connectives() {
    let store = bench_store(10);
    let docs = store.export_cf("bench").unwrap();
    let gt = parse_query("$[?@.score>50]").unwrap();
    assert_eq!(select_docs(&gt, store.export_cf("bench").unwrap()).len(), 4);
    let tagged = parse_query("$[?@.tags[*]=='alpha']").unwrap();
    assert_eq!(select_docs(&tagged, store.export_cf("bench").unwrap()).len(), 5);
    let nested = parse_query("$[?@.data.email=='u3@x']").unwrap();
    assert_eq!(select_docs(&nested, store.export_cf("bench").unwrap()).len(), 1);
    let both = parse_query("$[?@.premium==true&&@.score>50]").unwrap();
    assert_eq!(select_docs(&both, store.export_cf("bench").unwrap()).len(), 2);
    let either = parse_query("$[?@.id==0||@.id==9]").unwrap();
    assert_eq!(select_docs(&either, docs).len(), 2);
}

#[test]
fn index_query_selects_one_position() {
    let store = bench_store(4);
    let q = parse_query("$[2]").unwrap();
    let hit = select_docs(&q, store.export_cf("bench").unwrap());
    assert_eq!(hit.len(), 1);
    assert_eq!(hit[0].0, "key002");
    let beyond = parse_query("$[9]").unwrap();
    assert_eq!(select_docs(&beyond, store.export_cf("bench").unwrap()).len(), 0);
}

#[test]
fn posted_filter_over_one_hundred_documents() {
    let store = bench_store(100);
    let q = RangeQuery {
        from: None,
        to: None,
        limit: None,
        order: None,
        keys: false,
        query: Some("$[?@.premium==true]".to_string()),
    };
    let resp = api::run_query(&store, "bench", &q);
    assert_eq!(resp.status, 200);
    match &resp.body {
        Json::Arr(items) => assert_eq!(items.len(), 50),
        _ => panic!("expected an array body"),
    }
}

#[test]
fn posted_compound_filter_is_answered() {
    let store = bench_store(10);
    let q = RangeQuery {
        from: None,
        to: None,
        limit: None,
        order: None,
        keys: false,
        query: Some("$[?@.premium==true&&@.score>50||@.id==1]".to_string()),
    };
    let resp = api::run_query(&store, "bench", &q);
    assert_eq!(resp.status, 200);
    match &resp.body {
        Json::Arr(items) => assert_eq!(items.len(), 3),
        _ => panic!("expected an array body"),
    }
}

#[test]
fn posted_bad_expression_is_rejected() {
    let store = bench_store(1);
    let q = RangeQuery {
        from: None,
        to: None,
        limit: None,
        order: None,
        keys: false,
        query: Some("$[?nonsense]".to_string()),
    };
    let resp = api::run_query(&store, "bench", &q);
    assert_eq!(resp.status, 400);
}

#[test]
fn listed_range_applies_defaults_and_keys_flag() {
    let store = bench_store(5);
    let all = RangeQuery {
        from: None,
        to: None,
        limit: None,
        order: None,
        keys: true,
        query: None,
    };
    let resp = api::list_range(&store, "bench", &all);
    assert_eq!(resp.status, 200);
    match &resp.body {
        Json::Arr(items) => {
            assert_eq!(items.len(), 5);
            match items[0].get_field("key") {
                Some(Json::Str(k)) => assert_eq!(k, "key000"),
                _ => panic!("expected a key member"),
            }
            assert!(items[0].get_field("value").is_some());
        },
        _ => panic!("expected an array body"),
    }
    let window = RangeQuery {
        from: Some("key001".to_string()),
        to: Some("key004".to_string()),
        limit: Some(2),
        order: Some(SortOrder::Descending),
        keys: false,
        query: None,
    };
    let resp2 = api::list_range(&store, "bench", &window);
    match &resp2.body {
        Json::Arr(items) => {
            assert_eq!(items.len(), 2);
            match items[0].get_field("id") {
                Some(Json::Int(3)) => {},
                _ => panic!("descending scan should lead with the top of the window"),
            }
        },
        _ => panic!("expected an array body"),
    }
    let missing = api::list_range(&store, "absent", &all);
    assert_eq!(missing.status, 404);
}
