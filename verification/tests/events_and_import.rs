use docstore::events::{
    connected_frame, event_frame, sse_next, with_server_time, CollectionEvent, Operation,
    RecvOutcome, SseStep,
};
use docstore::idgen;
use docstore::import::{
    db_batch_size, import_response, item_key, nested_get, plan_import, use_delay, ImportOutcome,
};
use docstore::json::Json;
use docstore::jsontext::json_to_string;
use docstore::pubsub::SubscriptionManager;
use docstore::store::Store;

fn obj(pairs: Vec<(&str, Json)>) -> Json {
    Json::Obj(pairs.into_iter().map(|(k, v)| (k.to_string(), v)).collect())
}

#[test]
fn connected_frame_is_one_sse_message() {
    assert_eq!(
        connected_frame("users"),
        "data: {\"type\":\"connected\",\"collection\":\"users\"}\n\n"
    );
}

#[test]
fn event_frame_injects_server_time_into_objects() {
    let event = CollectionEvent {
        operation: Operation::Create,
        key: "u2".to_string(),
        value: obj(vec![("name", Json::Str("Bob".to_string()))]),
    };
    assert_eq!(
        event_frame(&event, 1700000000123),
        "data: {\"operation\":\"create\",\"key\":\"u2\",\"value\":{\"name\":\"Bob\",\"serverTime\":1700000000123}}\n\n"
    );
}

#[test]
fn server_time_replaces_an_existing_member_and_skips_non_objects() {
    let stamped = with_server_time(obj(vec![("serverTime", Json::Int(1))]), 2);
    assert_eq!(json_to_string(&stamped), "{\"serverTime\":2}");
    let untouched = with_server_time(Json::Int(7), 2);
    assert_eq!(json_to_string(&untouched), "7");
}

#[test]
fn delete_events_carry_a_null_value_unchanged() {
    let event = CollectionEvent {
        operation: Operation::Delete,
        key: "k".to_string(),
        value: Json::Null,
    };
    assert_eq!(
        event_frame(&event, 5),
        "data: {\"operation\":\"delete\",\"key\":\"k\",\"value\":null}\n\n"
    );
}

#[test]
fn subscription_loop_decisions() {
    let event = CollectionEvent {
        operation: Operation::Update,
        key: "k".to_string(),
        value: Json::Null,
    };
    match sse_next(RecvOutcome::Event(event), 1) {
        SseStep::Emit(frame) => assert!(frame.starts_with("data: ")),
        _ => panic!("an event becomes a frame"),
    }
    assert!(matches!(sse_next(RecvOutcome::Lagged(42), 1), SseStep::Skip(42)));
    assert!(matches!(sse_next(RecvOutcome::Closed, 1), SseStep::End));
}

#[test]
fn published_event_reaches_a_connected_subscriber_once() {
    let mut manager = SubscriptionManager::new();
    let sender = manager.get_or_create_channel("ns-users");
    let mut receiver = sender.subscribe();
    let event = CollectionEvent {
        operation: Operation::Create,
        key: "u2".to_string(),
        value: obj(vec![("name", Json::Str("Bob".to_string()))]),
    };
    let reached = manager.publish("ns-users", event);
    assert_eq!(reached, Some(1));
    let got = receiver.try_recv().expect("one frame is owed");
    assert_eq!(got.key, "u2");
    assert!(matches!(got.operation, Operation::Create));
    assert!(receiver.try_recv().is_err());
}

#[test]
fn publish_without_subscribers_drops_the_event() {
    let manager = SubscriptionManager::new();
    let event = CollectionEvent {
        operation: Operation::Create,
        key: "k".to_string(),
        value: Json::Null,
    };
    assert_eq!(manager.publish("nowhere", event), None);
}

#[test]
fn generated_ids_have_the_asked_length() {
    assert_eq!(idgen::generate_id(21).chars().count(), 21);
    assert_eq!(idgen::generate_id(32).chars().count(), 32);
    assert_ne!(idgen::generate_id(21), idgen::generate_id(21));
}

#[test]
fn nested_get_walks_dot_paths() {
    let doc = obj(vec![(
        "data",
        obj(vec![("email", Json::Str("a@x".to_string()))]),
    )]);
    match nested_get(&doc, "data.email") {
        Some(Json::Str(s)) => assert_eq!(s, "a@x"),
        _ => panic!("expected the nested member"),
    }
    assert!(nested_get(&doc, "data.missing").is_none());
    assert!(nested_get(&doc, "other").is_none());
}

#[test]
fn import_plan_derives_keys_from_the_field() {
    let items = vec![
        obj(vec![("email", Json::Str("a@x".to_string())), ("n", Json::Int(1))]),
        obj(vec![("email", Json::Str("b@x".to_string())), ("n", Json::Int(2))]),
    ];
    let plan = plan_import(&items, Some("email"));
    assert_eq!(plan.batch.len(), 2);
    assert_eq!(plan.batch[0].0, "a@x");
    assert_eq!(plan.batch[1].0, "b@x");
    assert_eq!(plan.events.len(), 2);
    assert_eq!(plan.events[0].key, "a@x");
    assert!(plan.errors.is_empty());
}

#[test]
fn import_plan_falls_back_and_counts_anomalies() {
    let items = vec![
        obj(vec![("email", Json::Str("a@x".to_string()))]),
        obj(vec![("other", Json::Int(1))]),
        Json::Int(42),
        obj(vec![("email", Json::Bool(true))]),
        obj(vec![("email", Json::Int(7))]),
    ];
    let plan = plan_import(&items, Some("email"));
    // The non-object is skipped; the others land.
    assert_eq!(plan.batch.len(), 4);
    assert_eq!(plan.batch[0].0, "a@x");
    assert_eq!(plan.batch[1].0, "item_2");
    assert_eq!(plan.batch[2].0, "item_4");
    assert_eq!(plan.batch[3].0, "7");
    // Missing field, non-object, and a boolean field: three anomalies.
    assert_eq!(plan.errors.len(), 3);
}

#[test]
fn import_plan_stringifies_numeric_key_fields() {
    let items = vec![
        obj(vec![("id", Json::Int(7))]),
        obj(vec![("id", Json::Num("1.5".to_string()))]),
        obj(vec![("id", Json::Num("-2.25e10".to_string()))]),
    ];
    let plan = plan_import(&items, Some("id"));
    assert_eq!(plan.batch[0].0, "7");
    assert_eq!(plan.batch[1].0, "1.5");
    assert_eq!(plan.batch[2].0, "-2.25e10");
    assert!(plan.errors.is_empty());
}

#[test]
fn import_plan_without_field_numbers_every_item() {
    let items = vec![obj(vec![("a", Json::Int(1))]), obj(vec![("b", Json::Int(2))])];
    let plan = plan_import(&items, None);
    assert_eq!(plan.batch[0].0, "item_1");
    assert_eq!(plan.batch[1].0, "item_2");
    assert!(plan.errors.is_empty());
}

#[test]
fn imported_documents_land_in_the_store() {
    let mut store = Store::new();
    store.create_cf("ns-users").unwrap();
    let items = vec![
        obj(vec![("email", Json::Str("a@x".to_string())), ("n", Json::Int(1))]),
        obj(vec![("email", Json::Str("b@x".to_string())), ("n", Json::Int(2))]),
    ];
    let plan = plan_import(&items, Some("email"));
    let imported_count = plan.batch.len();
    store.batch_insert_cf("ns-users", &plan.batch).unwrap();
    assert_eq!(imported_count, 2);
    let got = store.get_cf("ns-users", "a@x").unwrap();
    assert!(got.same_as(&items[0]));
}

#[test]
fn import_pacing_decisions() {
    assert_eq!(db_batch_size(10), 10);
    assert_eq!(db_batch_size(4999), 4999);
    assert_eq!(db_batch_size(5000), 5000);
    assert_eq!(db_batch_size(123456), 5000);
    assert!(!use_delay(199));
    assert!(use_delay(200));
    assert_eq!(item_key(12), "item_12");
}

#[test]
fn execute_import_counts_only_committed_batches() {
    let mut store = Store::new();
    store.create_cf("cf").unwrap();
    let items: Vec<Json> = (0..7)
        .map(|i| obj(vec![("n", Json::Int(i))]))
        .collect();
    let plan = plan_import(&items, None);
    let outcome = store.execute_import("cf", &plan.batch);
    assert_eq!(outcome.imported_count, 7);
    assert!(outcome.errors.is_empty());
    assert_eq!(store.export_cf("cf").unwrap().len(), 7);
    // Without the collection nothing commits and the failure is recorded.
    let mut empty_store = Store::new();
    let missing = empty_store.execute_import("cf", &plan.batch);
    assert_eq!(missing.imported_count, 0);
    assert!(!missing.errors.is_empty());
}

#[test]
fn import_response_reports_count_or_refuses() {
    let ok = import_response(
        ImportOutcome { imported_count: 2, errors: vec![] },
        "users",
    );
    assert_eq!(ok.status, 201);
    assert_eq!(
        json_to_string(&ok.body),
        "{\"message\":\"Successfully imported 2 items\",\"imported_count\":2,\"collection\":\"users\",\"errors\":null}"
    );
    let none = import_response(
        ImportOutcome { imported_count: 0, errors: vec!["Failed to insert batch".to_string()] },
        "users",
    );
    assert_eq!(none.status, 400);
}
