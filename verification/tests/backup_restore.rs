use docstore::json::Json;
use docstore::records::{validate_restore, BackupRecord, OperationStatus, RestoreCheck};
use docstore::store::Store;
use docstore::backup::RestorePrep;

fn doc(n: i64) -> Json {
    Json::Obj(vec![("n".to_string(), Json::Int(n))])
}

#[test]
fn backup_round_trip_restores_contents() {
    let mut store = Store::new();
    store.create_cf("cf").unwrap();
    for key in ["a", "b", "c"] {
        store.insert_cf("cf", key, doc(key.len() as i64)).unwrap();
    }
    let artifact = store.create_backup_json("cf").unwrap();
    let before = store.export_cf("cf").unwrap();
    store.drop_cf("cf").unwrap();
    store.create_cf("cf").unwrap();
    store.restore_backup_json("cf", artifact).unwrap();
    let after = store.export_cf("cf").unwrap();
    assert_eq!(before.len(), after.len());
    for (x, y) in before.iter().zip(after.iter()) {
        assert_eq!(x.0, y.0);
        assert!(x.1.same_as(&y.1));
    }
}

#[test]
fn restore_ingests_over_existing_keys() {
    let mut store = Store::new();
    store.create_cf("cf").unwrap();
    store.insert_cf("cf", "a", doc(1)).unwrap();
    let artifact = store.create_backup_json("cf").unwrap();
    store.insert_cf("cf", "a", doc(9)).unwrap();
    store.insert_cf("cf", "z", doc(26)).unwrap();
    store.restore_backup_json("cf", artifact).unwrap();
    assert!(store.get_cf("cf", "a").unwrap().same_as(&doc(1)));
    assert!(store.get_cf("cf", "z").unwrap().same_as(&doc(26)));
}

#[test]
fn restore_refuses_a_non_object_artifact() {
    let mut store = Store::new();
    store.create_cf("cf").unwrap();
    assert!(store.restore_backup_json("cf", Json::Arr(vec![])).is_err());
}

#[test]
fn record_state_machine_runs_once() {
    let rec = BackupRecord::start("id1".to_string(), "users".to_string(), "t0".to_string());
    assert_eq!(rec.status, OperationStatus::InProgress);
    assert!(rec.finished_at.is_none());
    let done = rec.finish(Ok("/backups/users-id1.sst".to_string()), "t1".to_string());
    assert_eq!(done.status, OperationStatus::Completed);
    assert_eq!(done.url.as_deref(), Some("/backups/users-id1.sst"));
    assert_eq!(done.finished_at.as_deref(), Some("t1"));
    let rec2 = BackupRecord::start("id2".to_string(), "users".to_string(), "t0".to_string());
    let failed = rec2.finish(Err("disk full".to_string()), "t1".to_string());
    assert_eq!(failed.status, OperationStatus::Failed);
    assert_eq!(failed.error.as_deref(), Some("disk full"));
    assert!(failed.url.is_none());
}

#[test]
fn start_backup_stores_records_in_both_collections() {
    let mut store = Store::init();
    store.create_cf("ns-users").unwrap();
    store.create_cf("ns-users-backups").unwrap();
    let resp = store.start_backup("users", "ns-users", "backup-id-000000000-1", "t0");
    assert_eq!(resp.status, 200);
    match resp.body.get_field("id") {
        Some(Json::Str(id)) => assert_eq!(id, "backup-id-000000000-1"),
        _ => panic!("expected the id in the body"),
    }
    let global = store.record_status("backups", "backup-id-000000000-1");
    assert_eq!(global.status, 200);
    match global.body.get_field("status") {
        Some(Json::Str(s)) => assert_eq!(s, "in_progress"),
        _ => panic!("expected a status member"),
    }
    let sibling = store.record_status("ns-users-backups", "backup-id-000000000-1");
    assert_eq!(sibling.status, 200);
}

#[test]
fn start_backup_of_missing_collection_is_404() {
    let mut store = Store::init();
    let resp = store.start_backup("users", "ns-users", "id", "t0");
    assert_eq!(resp.status, 404);
}

#[test]
fn finishing_a_backup_completes_its_record() {
    let mut store = Store::init();
    store.create_cf("ns-users").unwrap();
    store.create_cf("ns-users-backups").unwrap();
    store.start_backup("users", "ns-users", "bid", "t0");
    store
        .finish_backup("users", "ns-users", "bid", Ok("/backups/users-bid.sst".to_string()), "t1")
        .unwrap();
    let row = store.record_status("backups", "bid");
    match row.body.get_field("status") {
        Some(Json::Str(s)) => assert_eq!(s, "completed"),
        _ => panic!("expected a status member"),
    }
    match row.body.get_field("url") {
        Some(Json::Str(u)) => assert_eq!(u, "/backups/users-bid.sst"),
        _ => panic!("expected a url member"),
    }
    match row.body.get_field("finished_at") {
        Some(Json::Str(t)) => assert_eq!(t, "t1"),
        _ => panic!("expected a finished_at member"),
    }
}

#[test]
fn failing_a_backup_records_the_error() {
    let mut store = Store::init();
    store.create_cf("ns-users").unwrap();
    store.create_cf("ns-users-backups").unwrap();
    store.start_backup("users", "ns-users", "bid", "t0");
    store
        .finish_backup("users", "ns-users", "bid", Err("task failed".to_string()), "t1")
        .unwrap();
    let row = store.record_status("backups", "bid");
    match row.body.get_field("status") {
        Some(Json::Str(s)) => assert_eq!(s, "failed"),
        _ => panic!("expected a status member"),
    }
    match row.body.get_field("error") {
        Some(Json::Str(e)) => assert_eq!(e, "task failed"),
        _ => panic!("expected an error member"),
    }
}

#[test]
fn closing_a_record_twice_leaves_it_as_first_closed() {
    let mut store = Store::init();
    store.create_cf("ns-users").unwrap();
    store.create_cf("ns-users-backups").unwrap();
    store.start_backup("users", "ns-users", "bid", "t0");
    store
        .finish_backup("users", "ns-users", "bid", Ok("/backups/users-bid.sst".to_string()), "t1")
        .unwrap();
    // A later failure report cannot reopen or overwrite the closed record.
    store
        .finish_backup("users", "ns-users", "bid", Err("late failure".to_string()), "t2")
        .unwrap();
    let row = store.record_status("backups", "bid");
    match row.body.get_field("status") {
        Some(Json::Str(s)) => assert_eq!(s, "completed"),
        _ => panic!("expected the first closing to stand"),
    }
    match row.body.get_field("finished_at") {
        Some(Json::Str(t)) => assert_eq!(t, "t1"),
        _ => panic!("expected the first closing's timestamp"),
    }
}

#[test]
fn validate_restore_walks_the_rejection_ladder() {
    let fresh = BackupRecord::start("b".to_string(), "users".to_string(), "t0".to_string());
    let fresh_json = fresh.to_json();
    assert!(matches!(validate_restore(&fresh_json, true), RestoreCheck::NotCompleted));
    let done = BackupRecord::start("b".to_string(), "users".to_string(), "t0".to_string())
        .finish(Ok("/backups/users-b.sst".to_string()), "t1".to_string());
    let done_json = done.to_json();
    assert!(matches!(validate_restore(&done_json, false), RestoreCheck::FileMissing));
    assert!(matches!(validate_restore(&done_json, true), RestoreCheck::Ready));
    // A completed record whose url member is null has no file to restore.
    let no_url = done_json.set_field("url", Json::Null);
    assert!(matches!(validate_restore(&no_url, true), RestoreCheck::NoUrl));
}

#[test]
fn prepare_restore_requires_a_completed_backup() {
    let mut store = Store::init();
    store.create_cf("ns-users").unwrap();
    store.create_cf("ns-users-backups").unwrap();
    // Missing parameter.
    match store.prepare_restore("users", "ns-users", "r1", None, "t0") {
        RestorePrep::Refused(resp) => assert_eq!(resp.status, 400),
        _ => panic!("expected a refusal"),
    }
    // Unknown backup id.
    match store.prepare_restore("users", "ns-users", "r2", Some("nope"), "t0") {
        RestorePrep::Refused(resp) => assert_eq!(resp.status, 400),
        _ => panic!("expected a refusal"),
    }
    // A backup still in progress is refused and the restore record fails.
    store.start_backup("users", "ns-users", "bip", "t0");
    match store.prepare_restore("users", "ns-users", "r3", Some("bip"), "t0") {
        RestorePrep::Refused(resp) => assert_eq!(resp.status, 400),
        _ => panic!("expected a refusal"),
    }
    let failed_row = store.record_status("restores", "r3");
    match failed_row.body.get_field("status") {
        Some(Json::Str(s)) => assert_eq!(s, "failed"),
        _ => panic!("expected a failed restore record"),
    }
    // A completed backup yields the artifact's disk path.
    store
        .finish_backup("users", "ns-users", "bip", Ok("/backups/users-bip.sst".to_string()), "t1")
        .unwrap();
    match store.prepare_restore("users", "ns-users", "r4", Some("bip"), "t2") {
        RestorePrep::Pending { path } => assert_eq!(path, "./backups/users-bip.sst"),
        _ => panic!("expected a pending restore"),
    }
    let pending_row = store.record_status("restores", "r4");
    match pending_row.body.get_field("status") {
        Some(Json::Str(s)) => assert_eq!(s, "in_progress"),
        _ => panic!("expected an in-progress restore record"),
    }
    // Restore records have no url member.
    assert!(pending_row.body.get_field("url").is_none());
}

#[test]
fn finish_restore_updates_the_single_record() {
    let mut store = Store::init();
    store.create_cf("ns-users").unwrap();
    store.create_cf("ns-users-backups").unwrap();
    store.start_backup("users", "ns-users", "b", "t0");
    store
        .finish_backup("users", "ns-users", "b", Ok("/backups/users-b.sst".to_string()), "t1")
        .unwrap();
    match store.prepare_restore("users", "ns-users", "r", Some("b"), "t2") {
        RestorePrep::Pending { .. } => {},
        _ => panic!("expected a pending restore"),
    }
    store.finish_restore("users", "r", Ok(String::new()), "t3").unwrap();
    let row = store.record_status("restores", "r");
    match row.body.get_field("status") {
        Some(Json::Str(s)) => assert_eq!(s, "completed"),
        _ => panic!("expected a completed restore record"),
    }
}

#[test]
fn upload_backup_completes_or_fails_on_receipt() {
    let mut store = Store::init();
    store.create_cf("ns-users").unwrap();
    let ok = store.upload_backup("users", "ns-users", "u1", "t0", true);
    assert_eq!(ok.status, 201);
    let row = store.record_status("backups", "u1");
    match row.body.get_field("url") {
        Some(Json::Str(u)) => assert_eq!(u, "/backups/users-u1.sst"),
        _ => panic!("expected the artifact path"),
    }
    // The backups sibling was created on demand and holds the record too.
    assert!(store.cf_exists("ns-users-backups"));
    assert_eq!(store.record_status("ns-users-backups", "u1").status, 200);
    let bad = store.upload_backup("users", "ns-users", "u2", "t0", false);
    assert_eq!(bad.status, 400);
    let row2 = store.record_status("backups", "u2");
    match row2.body.get_field("status") {
        Some(Json::Str(s)) => assert_eq!(s, "failed"),
        _ => panic!("expected a failed record"),
    }
}

#[test]
fn listing_filters_records_by_collection() {
    let mut store = Store::init();
    store.create_cf("ns-users").unwrap();
    store.create_cf("ns-users-backups").unwrap();
    store.create_cf("other").unwrap();
    store.create_cf("other-backups").unwrap();
    store.start_backup("users", "ns-users", "b1", "t0");
    store.start_backup("users", "ns-users", "b2", "t0");
    store.start_backup("elsewhere", "other", "b3", "t0");
    let listed = store.list_operation_records("backups", "ns-users", "users");
    assert_eq!(listed.status, 200);
    match &listed.body {
        Json::Arr(items) => {
            assert_eq!(items.len(), 2);
            for row in items {
                match row.get_field("collection") {
                    Some(Json::Str(c)) => assert_eq!(c, "users"),
                    _ => panic!("expected a collection member"),
                }
            }
        },
        _ => panic!("expected an array body"),
    }
    let missing = store.list_operation_records("backups", "nowhere", "users");
    assert_eq!(missing.status, 404);
}
