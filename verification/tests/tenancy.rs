use docstore::api;
use docstore::hash;
use docstore::json::Json;
use docstore::store::Store;
use docstore::tenant;

#[test]
fn sha256_hex_of_known_input() {
    // The digest of the empty input is a published constant.
    let hashed = hash::hash_secret_key("");
    assert_eq!(
        hashed,
        "e3b0c44298fc1c149afbf4c8996fb92427ae41e4649b934ca495991b7852b855"
    );
    let abc = hash::hash_secret_key("abc");
    assert_eq!(
        abc,
        "ba7816bf8f01cfea414140de5dae2223b00361a396177a9cb410ff61f20015ad"
    );
}

#[test]
fn hex_encoding_is_two_lowercase_digits_per_byte() {
    let bytes: Vec<u8> = vec![0x00, 0x0f, 0xa5, 0xff];
    assert_eq!(hash::hex_lower(bytes.as_slice()), "000fa5ff");
}

#[test]
fn namespace_token_is_the_hash_prefix() {
    let token = tenant::hash_collection_namespace("abc");
    assert_eq!(token, "ba7816bf");
    let name = tenant::internal_name("abc", "users");
    assert_eq!(name, "ba7816bf-users");
}

#[test]
fn distinct_secrets_give_distinct_internal_names() {
    let n1 = tenant::internal_name("secret-one", "docs");
    let n2 = tenant::internal_name("secret-two", "docs");
    assert_ne!(n1, n2);
}

#[test]
fn same_secret_always_gives_the_same_name() {
    let n1 = tenant::internal_name("secret-one", "docs");
    let n2 = tenant::internal_name("secret-one", "docs");
    assert_eq!(n1, n2);
}

#[test]
fn admin_token_check_is_byte_exact() {
    assert!(tenant::verify_admin_token(Some("supersecret"), "supersecret"));
    assert!(!tenant::verify_admin_token(Some("supersecreT"), "supersecret"));
    assert!(!tenant::verify_admin_token(None, "supersecret"));
}

#[test]
fn collection_secret_gates_requests() {
    let stored = tenant::create_secret("open-sesame", "2024-01-01T00:00:00Z".to_string());
    assert!(tenant::verify_collection_secret(Some("open-sesame"), Some(&stored)));
    assert!(!tenant::verify_collection_secret(Some("wrong"), Some(&stored)));
    assert!(!tenant::verify_collection_secret(None, Some(&stored)));
    assert!(!tenant::verify_collection_secret(Some("open-sesame"), None));
}

#[test]
fn create_then_use_collection() {
    let mut store = Store::init();
    let secret = "a-fresh-32-character-secret-key!";
    let resolution = api::resolve_internal(true, "users", Some(secret), None, String::new());
    let internal = resolution.internal.clone();
    let created = api::create_collection(
        &mut store,
        "users",
        internal.as_str(),
        secret,
        "2024-01-01T00:00:00Z".to_string(),
    );
    assert_eq!(created.status, 201);
    // The body returns the plaintext secret once.
    match created.body.get_field("secret_key") {
        Some(Json::Str(s)) => assert_eq!(s, secret),
        other => panic!("unexpected secret_key member: {:?}", other.is_some()),
    }
    // A request carrying the returned secret is authorized.
    assert!(api::authorize_request(&store, internal.as_str(), None, "admintok", Some(secret)));
    // Any other non-admin value is refused.
    assert!(!api::authorize_request(
        &store,
        internal.as_str(),
        None,
        "admintok",
        Some("some-other-secret")
    ));
    assert!(!api::authorize_request(&store, internal.as_str(), None, "admintok", None));
    // The admin token passes regardless.
    assert!(api::authorize_request(
        &store,
        internal.as_str(),
        Some("admintok"),
        "admintok",
        None
    ));
    // Writing and reading a document through the handlers.
    let body = Json::Obj(vec![("name".to_string(), Json::Str("Ada".to_string()))]);
    let (resp, event) = api::put_doc(&mut store, internal.as_str(), "u1", body.clone());
    assert_eq!(resp.status, 201);
    assert!(event.is_some());
    let got = api::get_doc(&store, internal.as_str(), "u1");
    assert_eq!(got.status, 200);
    assert!(got.body.same_as(&body));
    // Creating the same collection again conflicts.
    let again = api::create_collection(
        &mut store,
        "users",
        internal.as_str(),
        secret,
        "2024-01-01T00:00:01Z".to_string(),
    );
    assert_eq!(again.status, 409);
}

#[test]
fn tenant_isolation_under_one_user_name() {
    let mut store = Store::init();
    let s1 = "tenant-one-secret";
    let s2 = "tenant-two-secret";
    let r1 = api::resolve_internal(true, "docs", Some(s1), None, String::new());
    let r2 = api::resolve_internal(true, "docs", Some(s2), None, String::new());
    assert_ne!(r1.internal, r2.internal);
    api::create_collection(&mut store, "docs", r1.internal.as_str(), s1, "t".to_string());
    api::create_collection(&mut store, "docs", r2.internal.as_str(), s2, "t".to_string());
    let v1 = Json::Obj(vec![("t".to_string(), Json::Int(1))]);
    let v2 = Json::Obj(vec![("t".to_string(), Json::Int(2))]);
    api::put_doc(&mut store, r1.internal.as_str(), "k", v1.clone());
    api::put_doc(&mut store, r2.internal.as_str(), "k", v2.clone());
    assert!(api::get_doc(&store, r1.internal.as_str(), "k").body.same_as(&v1));
    assert!(api::get_doc(&store, r2.internal.as_str(), "k").body.same_as(&v2));
}

#[test]
fn resolver_uses_legacy_row_then_header_then_user_name() {
    // Legacy row: the stored hash's eight-character prefix is the
    // namespace token itself.
    let legacy = tenant::create_secret("legacy-secret", "t".to_string());
    let r = api::resolve_internal(false, "old", None, Some(&legacy), String::new());
    let prefix: String = legacy.secret.chars().take(8).collect();
    assert_eq!(r.internal, format!("{}-old", prefix));
    assert!(r.fresh_secret.is_none());
    // A presented secret derives the name directly.
    let r2 = api::resolve_internal(false, "mine", Some("shh"), None, String::new());
    assert_eq!(r2.internal, tenant::internal_name("shh", "mine"));
    // Nothing at hand: the user name stands.
    let r3 = api::resolve_internal(false, "plain", None, None, String::new());
    assert_eq!(r3.internal, "plain");
}

#[test]
fn resolver_generates_at_creation_without_header() {
    let generated = "generated-secret-token".to_string();
    let r = api::resolve_internal(true, "fresh", None, None, generated.clone());
    assert_eq!(r.fresh_secret.as_deref(), Some("generated-secret-token"));
    assert_eq!(r.internal, tenant::internal_name("generated-secret-token", "fresh"));
}

#[test]
fn bookkeeping_collections_cannot_be_dropped() {
    let mut store = Store::init();
    for name in ["secrets", "backups", "restores"] {
        let refused = api::drop_collection(&mut store, name, name);
        assert_eq!(refused.status, 400);
        assert!(store.cf_exists(name));
    }
}

#[test]
fn create_without_secrets_records_is_refused() {
    let mut store = Store::new();
    let refused = api::create_collection(
        &mut store,
        "users",
        "ns-users",
        "secret",
        "t".to_string(),
    );
    assert_eq!(refused.status, 500);
    assert!(!store.cf_exists("ns-users"));
    assert!(!store.cf_exists("ns-users-backups"));
}

#[test]
fn drop_refuses_backups_while_base_stands() {
    let mut store = Store::init();
    store.create_cf("ns-docs").unwrap();
    store.create_cf("ns-docs-backups").unwrap();
    // The backups sibling is protected while the base exists.
    let refused = api::drop_collection(&mut store, "docs-backups", "ns-docs-backups");
    assert_eq!(refused.status, 200);
    assert!(store.cf_exists("ns-docs-backups"));
    // Dropping the base leaves the sibling.
    let dropped = api::drop_collection(&mut store, "docs", "ns-docs");
    assert_eq!(dropped.status, 200);
    assert!(!store.cf_exists("ns-docs"));
    assert!(store.cf_exists("ns-docs-backups"));
    // Now the sibling can go.
    let gone = api::drop_collection(&mut store, "docs-backups", "ns-docs-backups");
    assert_eq!(gone.status, 200);
    assert!(!store.cf_exists("ns-docs-backups"));
}
