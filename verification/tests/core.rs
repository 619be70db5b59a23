use wastebin::cache::{Cache, CacheKey};
use wastebin::errors::{DecodeError, ServiceError, StorageError};
use wastebin::id;
use wastebin::password;
use wastebin::render::render_plain;
use wastebin::service::{parse_path, to_url_path, Entry, RedirectResponse, Service};
use wastebin::store::{Database, PasswordDigest, StoredEntry};

fn entry(text: &str) -> Entry {
    Entry {
        text: text.to_string(),
        extension: None,
        expires: None,
        burn_after_reading: None,
        password: None,
        title: None,
    }
}

fn stored(text: &str) -> StoredEntry {
    StoredEntry {
        text: text.to_string(),
        extension: None,
        expires: None,
        burn_after_reading: false,
        uid: None,
        password: None,
        title: None,
        created: 0,
    }
}

#[test]
fn encode_is_fixed_width_hex() {
    assert_eq!(id::encode(0), "00000000");
    assert_eq!(id::encode(0xdeadbeef), "deadbeef");
    assert_eq!(id::encode(u32::MAX), "ffffffff");
    assert_eq!(id::encode(1), "00000001");
}

#[test]
fn decode_round_trips_generated_identifiers() {
    for v in [0u32, 1, 9, 0xa, 0xff, 0x1234, 0xdeadbeef, u32::MAX, 0x80000000] {
        assert_eq!(id::decode(&id::encode(v)), Ok(v));
    }
}

#[test]
fn decode_rejects_malformed_input() {
    assert_eq!(id::decode(""), Err(DecodeError::Malformed));
    assert_eq!(id::decode("1234567"), Err(DecodeError::Malformed));
    assert_eq!(id::decode("123456789"), Err(DecodeError::Malformed));
    assert_eq!(id::decode("DEADBEEF"), Err(DecodeError::Malformed));
    assert_eq!(id::decode("0000000g"), Err(DecodeError::Malformed));
    assert_eq!(id::decode("abc..def"), Err(DecodeError::Malformed));
}

#[test]
fn password_digest_verifies_only_matching_password() {
    let d = password::digest(42, "pw");
    assert!(password::verify(42, d, "pw"));
    assert!(!password::verify(42, d, "wrong"));
    assert!(!password::verify(42, d, ""));
    assert_ne!(password::digest(1, "pw"), password::digest(2, "pw"));
    assert_eq!(password::digest(0, ""), 0xcbf29ce484222325);
    assert_eq!(password::digest(0, "a"), 0xaf63dc4c8601ec8c);
    assert_eq!(password::digest(42, "pw"), 0x9645107b5ef2c0e);
}

#[test]
fn render_escapes_markup_characters() {
    assert_eq!(render_plain("hello"), "<pre>hello</pre>");
    assert_eq!(render_plain(""), "<pre></pre>");
    assert_eq!(render_plain("a<b&c>d"), "<pre>a&lt;b&amp;c&gt;d</pre>");
}

#[test]
fn url_path_includes_extension() {
    assert_eq!(to_url_path(0xdeadbeef, &None), "/deadbeef");
    assert_eq!(to_url_path(0xdeadbeef, &Some("rs".to_string())), "/deadbeef.rs");
}

#[test]
fn redirect_response_carries_path() {
    let mut svc = Service::new(4, None);
    let created = svc.create(entry("x"), 0).unwrap();
    let r = RedirectResponse::new(&created);
    assert_eq!(r.path, created.path);
}

#[test]
fn store_fetch_after_insert_returns_entry() {
    let mut db = Database::new();
    assert_eq!(db.len(), 0);
    db.insert(7, stored("body"), 5).unwrap();
    assert_eq!(db.len(), 1);
    let got = db.fetch(7, None, 5).unwrap();
    assert_eq!(got.text, "body");
    assert_eq!(got.created, 5);
    let again = db.fetch(7, None, 6).unwrap();
    assert_eq!(again.text, "body");
}

#[test]
fn store_insert_collides_only_with_live_entry() {
    let mut db = Database::new();
    db.insert(1, stored("a"), 0).unwrap();
    assert_eq!(db.insert(1, stored("b"), 0), Err(StorageError::Collision));
    let mut e = stored("c");
    e.expires = Some(10);
    let mut db2 = Database::new();
    db2.insert(2, e, 0).unwrap();
    assert_eq!(db2.insert(2, stored("d"), 5), Err(StorageError::Collision));
    db2.insert(2, stored("d"), 10).unwrap();
    assert_eq!(db2.fetch(2, None, 10).unwrap().text, "d");
}

#[test]
fn store_expiry_boundary() {
    let mut db = Database::new();
    let mut e = stored("soon gone");
    e.expires = Some(3);
    db.insert(9, e, 100).unwrap();
    assert_eq!(db.fetch(9, None, 102).unwrap().text, "soon gone");
    assert_eq!(db.fetch(9, None, 103).unwrap_err(), StorageError::NotFound);
    assert_eq!(db.fetch(9, None, 102).unwrap_err(), StorageError::NotFound);
}

#[test]
fn store_burn_after_reading_fetched_once() {
    let mut db = Database::new();
    let mut e = stored("secret");
    e.burn_after_reading = true;
    db.insert(3, e, 0).unwrap();
    assert_eq!(db.fetch(3, None, 0).unwrap().text, "secret");
    assert_eq!(db.fetch(3, None, 0).unwrap_err(), StorageError::NotFound);
}

#[test]
fn store_password_gate() {
    let mut db = Database::new();
    let salt = 77;
    let mut e = stored("guarded");
    e.password = Some(PasswordDigest { salt, digest: password::digest(salt, "pw") });
    db.insert(4, e, 0).unwrap();
    assert_eq!(db.fetch(4, None, 0).unwrap_err(), StorageError::PasswordRequired);
    assert_eq!(db.fetch(4, Some("wrong"), 0).unwrap_err(), StorageError::PasswordMismatch);
    assert_eq!(db.fetch(4, Some("nope"), 0).unwrap_err(), StorageError::PasswordMismatch);
    assert_eq!(db.fetch(4, Some("pw"), 0).unwrap().text, "guarded");
}

#[test]
fn store_delete_requires_owner_token() {
    let mut db = Database::new();
    let mut e = stored("mine");
    e.uid = Some(99);
    db.insert(5, e, 0).unwrap();
    assert_eq!(db.delete(5, 98, 0), Err(StorageError::Forbidden));
    assert_eq!(db.delete(5, 99, 0), Ok(()));
    assert_eq!(db.fetch(5, None, 0).unwrap_err(), StorageError::NotFound);
    assert_eq!(db.delete(5, 99, 0), Err(StorageError::NotFound));
}

#[test]
fn cache_returns_cached_value_without_recomputing() {
    let mut cache = Cache::new(4);
    let k = || CacheKey { id: 1, extension: None };
    let first = cache.get_or_compute(k(), || "first".to_string());
    assert_eq!(first, "first");
    let second = cache.get_or_compute(k(), || "second".to_string());
    assert_eq!(second, "first");
}

#[test]
fn cache_distinguishes_extension_variants() {
    let mut cache = Cache::new(4);
    let plain = cache.get_or_compute(CacheKey { id: 1, extension: None }, || "p".to_string());
    let rs = cache.get_or_compute(
        CacheKey { id: 1, extension: Some("rs".to_string()) },
        || "r".to_string(),
    );
    assert_eq!(plain, "p");
    assert_eq!(rs, "r");
}

#[test]
fn cache_evicts_least_recently_used_first() {
    let mut cache = Cache::new(2);
    let k1 = || CacheKey { id: 1, extension: None };
    let k2 = || CacheKey { id: 2, extension: None };
    let k3 = || CacheKey { id: 3, extension: None };
    cache.get_or_compute(k1(), || "a".to_string());
    cache.get_or_compute(k2(), || "b".to_string());
    // touch k1 so that k2 is the least recently used
    assert_eq!(cache.get_or_compute(k1(), || "x".to_string()), "a");
    cache.get_or_compute(k3(), || "c".to_string());
    assert_eq!(cache.get_or_compute(k1(), || "y".to_string()), "a");
    assert_eq!(cache.get_or_compute(k2(), || "recomputed".to_string()), "recomputed");
}

#[test]
fn cache_invalidate_forces_recomputation() {
    let mut cache = Cache::new(4);
    let k = || CacheKey { id: 8, extension: None };
    assert_eq!(cache.get_or_compute(k(), || "v1".to_string()), "v1");
    cache.invalidate(&k());
    assert_eq!(cache.get_or_compute(k(), || "v2".to_string()), "v2");
}

#[test]
fn create_then_read_plain_text_twice() {
    let mut svc = Service::new(8, None);
    let created = svc.create(entry("hello"), 0).unwrap();
    assert_eq!(created.path, format!("/{}", id::encode(created.id)));
    let first = svc.read(created.id, None, None, 0).unwrap();
    assert!(first.markup.contains("hello"));
    assert_eq!(first.markup, "<pre>hello</pre>");
    let second = svc.read(created.id, None, None, 0).unwrap();
    assert_eq!(second.markup, first.markup);
}

#[test]
fn create_burn_after_reading_reads_once() {
    let mut svc = Service::new(8, None);
    let mut e = entry("secret");
    e.burn_after_reading = Some(true);
    let created = svc.create(e, 0).unwrap();
    let first = svc.read(created.id, None, None, 0).unwrap();
    assert!(first.markup.contains("secret"));
    assert_eq!(svc.read(created.id, None, None, 0).unwrap_err(), ServiceError::NotFound);
}

#[test]
fn create_with_expiry_lapses() {
    let mut svc = Service::new(8, None);
    let mut e = entry("short lived");
    e.expires = Some(1);
    let created = svc.create(e, 100).unwrap();
    assert!(svc.read(created.id, None, None, 100).is_ok());
    assert_eq!(svc.read(created.id, None, None, 101).unwrap_err(), ServiceError::NotFound);
}

#[test]
fn create_with_password_gates_reads() {
    let mut svc = Service::new(8, None);
    let mut e = entry("guarded");
    e.password = Some("pw".to_string());
    let created = svc.create(e, 0).unwrap();
    assert_eq!(
        svc.read(created.id, None, None, 0).unwrap_err(),
        ServiceError::PasswordRequired
    );
    assert_eq!(
        svc.read(created.id, None, Some("wrong"), 0).unwrap_err(),
        ServiceError::PasswordMismatch
    );
    let ok = svc.read(created.id, None, Some("pw"), 0).unwrap();
    assert!(ok.markup.contains("guarded"));
}

#[test]
fn create_rejects_zero_expiry() {
    let mut svc = Service::new(8, None);
    let mut e = entry("x");
    e.expires = Some(0);
    assert_eq!(svc.create(e, 0).unwrap_err(), ServiceError::ValidationError);
}

#[test]
fn create_caps_expiry_at_configured_maximum() {
    let mut svc = Service::new(8, Some(10));
    let mut e = entry("capped");
    e.expires = Some(1000);
    let created = svc.create(e, 0).unwrap();
    assert!(svc.read(created.id, None, None, 9).is_ok());
    assert_eq!(svc.read(created.id, None, None, 10).unwrap_err(), ServiceError::NotFound);
    let created2 = svc.create(entry("defaulted"), 0).unwrap();
    assert!(svc.read(created2.id, None, None, 9).is_ok());
    assert_eq!(svc.read(created2.id, None, None, 10).unwrap_err(), ServiceError::NotFound);
}

#[test]
fn create_exhausts_identifier_space_on_collisions() {
    let mut svc = Service::new(8, None);
    let created = svc.create(entry("first"), 0).unwrap();
    let ids = vec![created.id, created.id, created.id];
    let r = svc.create_with_ids(entry("second"), &ids, 1, 2, 0);
    assert_eq!(r.unwrap_err(), ServiceError::IdSpaceExhausted);
    let free = svc.create_with_ids(entry("third"), &vec![created.id.wrapping_add(1)], 1, 2, 0);
    assert!(free.is_ok());
}

#[test]
fn service_delete_requires_owner_token() {
    let mut svc = Service::new(8, None);
    let created = svc.create(entry("to delete"), 0).unwrap();
    assert_eq!(
        svc.delete(created.id, created.uid.wrapping_add(1), 0),
        Err(ServiceError::Forbidden)
    );
    assert_eq!(svc.delete(created.id, created.uid, 0), Ok(()));
    assert_eq!(svc.read(created.id, None, None, 0).unwrap_err(), ServiceError::NotFound);
    assert_eq!(svc.delete(created.id, created.uid, 0), Err(ServiceError::NotFound));
}

#[test]
fn reading_missing_identifier_is_not_found() {
    let mut svc = Service::new(8, None);
    assert_eq!(svc.read(12345, None, None, 0).unwrap_err(), ServiceError::NotFound);
}

#[test]
fn parse_path_splits_identifier_and_extension() {
    assert!(matches!(parse_path("deadbeef"), Ok((0xdeadbeef, None))));
    let (id, ext) = parse_path("deadbeef.rs").unwrap();
    assert_eq!(id, 0xdeadbeef);
    assert_eq!(ext, Some("rs".to_string()));
    assert_eq!(parse_path("nothexx!").unwrap_err(), DecodeError::Malformed);
    assert_eq!(parse_path("short.rs").unwrap_err(), DecodeError::Malformed);
}

#[test]
fn read_paste_serves_by_url_path() {
    let mut svc = Service::new(8, None);
    let mut e = entry("routed");
    e.extension = Some("rs".to_string());
    let created = svc.create(e, 0).unwrap();
    let paste = svc.read_paste(created.path.trim_start_matches('/'), None, 0).unwrap();
    assert!(paste.markup.contains("routed"));
    assert_eq!(
        svc.read_paste("not a path", None, 0).unwrap_err(),
        ServiceError::Malformed
    );
}

#[test]
fn delete_paste_removes_by_url_path() {
    let mut svc = Service::new(8, None);
    let created = svc.create(entry("gone soon"), 0).unwrap();
    let segment = format!("{}", id::encode(created.id));
    assert_eq!(svc.delete_paste(&segment, created.uid, 0), Ok(()));
    assert_eq!(svc.read(created.id, None, None, 0).unwrap_err(), ServiceError::NotFound);
    assert_eq!(
        svc.delete_paste("!!!bad!!", created.uid, 0),
        Err(ServiceError::Malformed)
    );
}

#[test]
fn read_paste_passes_password_through() {
    let mut svc = Service::new(8, None);
    let mut e = entry("locked");
    e.password = Some("pw".to_string());
    let created = svc.create(e, 0).unwrap();
    let segment = id::encode(created.id);
    assert_eq!(
        svc.read_paste(&segment, None, 0).unwrap_err(),
        ServiceError::PasswordRequired
    );
    let paste = svc.read_paste(&segment, Some("pw"), 0).unwrap();
    assert!(paste.markup.contains("locked"));
}
