use docstore::json::Json;
use docstore::store::{Store, StoreError};

fn doc(n: i64) -> Json {
    Json::Obj(vec![("n".to_string(), Json::Int(n))])
}

#[test]
fn create_and_probe_collection() {
    let mut store = Store::new();
    assert!(!store.cf_exists("docs"));
    assert!(store.create_cf("docs").is_ok());
    assert!(store.cf_exists("docs"));
    assert!(matches!(store.create_cf("docs"), Err(StoreError::InvalidColumnFamily)));
    assert!(store.drop_cf("docs").is_ok());
    assert!(!store.cf_exists("docs"));
    assert!(matches!(store.drop_cf("docs"), Err(StoreError::InvalidColumnFamily)));
}

#[test]
fn put_then_get_returns_the_document() {
    let mut store = Store::new();
    store.create_cf("docs").unwrap();
    store.insert_cf("docs", "k", doc(1)).unwrap();
    let got = store.get_cf("docs", "k").unwrap();
    assert!(got.same_as(&doc(1)));
}

#[test]
fn put_overwrites_in_place() {
    let mut store = Store::new();
    store.create_cf("docs").unwrap();
    store.insert_cf("docs", "k", doc(1)).unwrap();
    store.insert_cf("docs", "k", doc(2)).unwrap();
    let got = store.get_cf("docs", "k").unwrap();
    assert!(got.same_as(&doc(2)));
    let all = store.export_cf("docs").unwrap();
    assert_eq!(all.len(), 1);
}

#[test]
fn put_delete_then_head_is_gone() {
    let mut store = Store::new();
    store.create_cf("docs").unwrap();
    store.insert_cf("docs", "k", doc(1)).unwrap();
    store.delete_cf("docs", "k").unwrap();
    assert!(matches!(store.get_cf("docs", "k"), Err(StoreError::KeyNotFound)));
}

#[test]
fn delete_of_missing_key_is_accepted() {
    let mut store = Store::new();
    store.create_cf("docs").unwrap();
    assert!(store.delete_cf("docs", "never").is_ok());
}

#[test]
fn batch_equals_individual_puts() {
    let mut a = Store::new();
    a.create_cf("docs").unwrap();
    let items = vec![
        ("b".to_string(), doc(2)),
        ("a".to_string(), doc(1)),
        ("c".to_string(), doc(3)),
    ];
    a.batch_insert_cf("docs", &items).unwrap();

    let mut b = Store::new();
    b.create_cf("docs").unwrap();
    b.insert_cf("docs", "b", doc(2)).unwrap();
    b.insert_cf("docs", "a", doc(1)).unwrap();
    b.insert_cf("docs", "c", doc(3)).unwrap();

    let ea = a.export_cf("docs").unwrap();
    let eb = b.export_cf("docs").unwrap();
    assert_eq!(ea.len(), eb.len());
    for (x, y) in ea.iter().zip(eb.iter()) {
        assert_eq!(x.0, y.0);
        assert!(x.1.same_as(&y.1));
    }
}

#[test]
fn export_is_in_key_order() {
    let mut store = Store::new();
    store.create_cf("docs").unwrap();
    for key in ["m", "a", "z", "b"] {
        store.insert_cf("docs", key, doc(0)).unwrap();
    }
    let all = store.export_cf("docs").unwrap();
    let keys: Vec<&str> = all.iter().map(|p| p.0.as_str()).collect();
    assert_eq!(keys, vec!["a", "b", "m", "z"]);
}

#[test]
fn range_scan_respects_window_limit_and_order() {
    let mut store = Store::new();
    store.create_cf("docs").unwrap();
    for (i, key) in ["a", "b", "c", "d", "e"].iter().enumerate() {
        store.insert_cf("docs", key, doc(i as i64)).unwrap();
    }
    // Forward window [b, e): b, c, d.
    let fwd = store.get_range_cf("docs", "b", "e", usize::MAX, false).unwrap();
    let keys: Vec<&str> = fwd.iter().map(|p| p.0.as_str()).collect();
    assert_eq!(keys, vec!["b", "c", "d"]);
    // Limit cuts after two entries: min(limit, hits).
    let limited = store.get_range_cf("docs", "b", "e", 2, false).unwrap();
    let keys: Vec<&str> = limited.iter().map(|p| p.0.as_str()).collect();
    assert_eq!(keys, vec!["b", "c"]);
    // Reverse walks the same window descending.
    let rev = store.get_range_cf("docs", "b", "e", usize::MAX, true).unwrap();
    let keys: Vec<&str> = rev.iter().map(|p| p.0.as_str()).collect();
    assert_eq!(keys, vec!["d", "c", "b"]);
    // Reverse with a limit takes the top of the descending walk.
    let rev2 = store.get_range_cf("docs", "a", "\u{fff0}", 2, true).unwrap();
    let keys: Vec<&str> = rev2.iter().map(|p| p.0.as_str()).collect();
    assert_eq!(keys, vec!["e", "d"]);
}

#[test]
fn range_scan_has_no_duplicates_and_exact_length() {
    let mut store = Store::new();
    store.create_cf("docs").unwrap();
    for i in 0..10 {
        store.insert_cf("docs", &format!("k{}", i), doc(i)).unwrap();
    }
    let out = store.get_range_cf("docs", "k2", "k7", usize::MAX, false).unwrap();
    assert_eq!(out.len(), 5);
    for i in 0..out.len() {
        for j in (i + 1)..out.len() {
            assert_ne!(out[i].0, out[j].0);
        }
    }
    let capped = store.get_range_cf("docs", "k2", "k7", 3, false).unwrap();
    assert_eq!(capped.len(), 3);
}

#[test]
fn distinct_collections_are_independent() {
    let mut store = Store::new();
    store.create_cf("one").unwrap();
    store.create_cf("two").unwrap();
    store.insert_cf("one", "k", doc(1)).unwrap();
    store.insert_cf("two", "k", doc(2)).unwrap();
    assert!(store.get_cf("one", "k").unwrap().same_as(&doc(1)));
    assert!(store.get_cf("two", "k").unwrap().same_as(&doc(2)));
    store.drop_cf("one").unwrap();
    assert!(store.get_cf("two", "k").unwrap().same_as(&doc(2)));
}
