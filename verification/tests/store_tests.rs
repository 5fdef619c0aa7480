use regbridge::handlers::{handle_delete, registration_for, DeleteOutcome, RegistrationParam};
use regbridge::store::{MemoryStorage, Storage, StoreState};
use regbridge::types::{Host, TagEntry};

fn tag(key: &str, value: &str) -> TagEntry {
    TagEntry { key: key.to_owned(), value: value.to_owned() }
}

fn host(service: &str, ip: &str, port: u16, revision: &str, tags: Vec<TagEntry>) -> Host {
    Host {
        ip_address: ip.to_owned(),
        port,
        last_check_in: "2024-01-01 00:00:00+00:00".to_owned(),
        expire_time: 0,
        revision: revision.to_owned(),
        service: service.to_owned(),
        tags,
    }
}

fn unix_now_secs() -> u64 {
    std::time::SystemTime::now()
        .duration_since(std::time::UNIX_EPOCH)
        .unwrap()
        .as_secs()
}

#[test]
fn round_trip_register_and_query() {
    let s = MemoryStorage::new(30);
    let before = unix_now_secs();
    s.store_item("web", host("web", "10.0.0.1", 8080, "r1", Vec::new())).unwrap();
    let after = unix_now_secs();
    let hosts = s.query_items("web").unwrap();
    assert_eq!(hosts.len(), 1);
    let h = &hosts[0];
    assert_eq!(h.ip_address, "10.0.0.1");
    assert_eq!(h.port, 8080);
    assert_eq!(h.revision, "r1");
    assert_eq!(h.service, "web");
    assert!(h.expire_time >= before + 30);
    assert!(h.expire_time <= after + 30);
}

#[test]
fn repeated_store_keeps_one_record() {
    let s = MemoryStorage::new(60);
    for _ in 0..5 {
        s.store_item("web", host("web", "10.0.0.1", 8080, "r1", Vec::new())).unwrap();
    }
    let hosts = s.query_items("web").unwrap();
    assert_eq!(hosts.len(), 1);
}

#[test]
fn store_at_refreshes_deadline() {
    let mut st = StoreState::new(10);
    st.store_at("web", host("web", "10.0.0.1", 80, "r1", Vec::new()), 100);
    st.store_at("web", host("web", "10.0.0.1", 80, "r2", Vec::new()), 200);
    let hosts = st.query_at("web", 205);
    assert_eq!(hosts.len(), 1);
    assert_eq!(hosts[0].expire_time, 210);
    assert_eq!(hosts[0].revision, "r2");
}

#[test]
fn upsert_overwrites_attributes_and_ignores_caller_expiry() {
    let mut st = StoreState::new(10);
    let mut h = host("web", "10.0.0.1", 80, "r1", vec![tag("zone", "a")]);
    h.expire_time = 9999;
    st.store_at("web", h, 100);
    let hosts = st.query_at("web", 105);
    assert_eq!(hosts.len(), 1);
    assert_eq!(hosts[0].expire_time, 110);
    assert_eq!(hosts[0].tags.len(), 1);
    assert_eq!(hosts[0].tags[0].key, "zone");
}

#[test]
fn query_filters_by_expiry_boundary() {
    let mut st = StoreState::new(10);
    st.store_at("web", host("web", "10.0.0.1", 80, "r1", Vec::new()), 100);
    // deadline is 110: live strictly before it, gone from then on
    assert_eq!(st.query_at("web", 109).len(), 1);
    assert_eq!(st.query_at("web", 110).len(), 0);
    assert_eq!(st.query_at("web", 111).len(), 0);
}

#[test]
fn query_filters_by_service() {
    let mut st = StoreState::new(10);
    st.store_at("web", host("web", "10.0.0.1", 80, "r1", Vec::new()), 100);
    st.store_at("db", host("db", "10.0.0.2", 5432, "r1", Vec::new()), 100);
    assert_eq!(st.query_at("web", 100).len(), 1);
    assert_eq!(st.query_at("db", 100).len(), 1);
    assert_eq!(st.query_at("cache", 100).len(), 0);
}

#[test]
fn delete_returns_prior_record_then_none() {
    let s = MemoryStorage::new(30);
    s.store_item("web", host("web", "10.0.0.1", 8080, "r1", Vec::new())).unwrap();
    let first = s.delete_item("web", "10.0.0.1".to_owned(), 8080).unwrap();
    let removed = first.expect("first delete returns the record");
    assert_eq!(removed.ip_address, "10.0.0.1");
    assert_eq!(removed.port, 8080);
    assert_eq!(removed.service, "web");
    let second = s.delete_item("web", "10.0.0.1".to_owned(), 8080).unwrap();
    assert!(second.is_none());
}

#[test]
fn delete_removes_expired_records_too() {
    let mut st = StoreState::new(10);
    st.store_at("web", host("web", "10.0.0.1", 80, "r1", Vec::new()), 100);
    // long expired at 500, yet deletion still finds it
    assert_eq!(st.query_at("web", 500).len(), 0);
    let removed = st.delete_at("web", "10.0.0.1", 80);
    assert!(removed.is_some());
    assert!(st.delete_at("web", "10.0.0.1", 80).is_none());
}

#[test]
fn many_distinct_identities_all_kept() {
    let s = MemoryStorage::new(300);
    for i in 0..50u16 {
        let ip = format!("10.0.0.{}", i);
        s.store_item("web", host("web", &ip, 8000 + i, "r1", Vec::new())).unwrap();
    }
    let hosts = s.query_items("web").unwrap();
    assert_eq!(hosts.len(), 50);
    for i in 0..50u16 {
        let ip = format!("10.0.0.{}", i);
        assert!(hosts.iter().any(|h| h.ip_address == ip && h.port == 8000 + i));
    }
}

#[test]
fn identity_distinguishes_service_ip_and_port() {
    let s = MemoryStorage::new(300);
    s.store_item("web", host("web", "10.0.0.1", 80, "r1", Vec::new())).unwrap();
    s.store_item("web", host("web", "10.0.0.1", 81, "r1", Vec::new())).unwrap();
    s.store_item("web", host("web", "10.0.0.2", 80, "r1", Vec::new())).unwrap();
    s.store_item("api", host("api", "10.0.0.1", 80, "r1", Vec::new())).unwrap();
    assert_eq!(s.query_items("web").unwrap().len(), 3);
    assert_eq!(s.query_items("api").unwrap().len(), 1);
}

#[test]
fn ttl_is_fixed_at_construction() {
    let s = MemoryStorage::new(42);
    assert_eq!(s.ttl(), 42);
    let t = s.clone();
    assert_eq!(t.ttl(), 42);
}

#[test]
fn clones_share_one_store() {
    let s = MemoryStorage::new(30);
    let t = s.clone();
    t.store_item("web", host("web", "10.0.0.1", 8080, "r1", Vec::new())).unwrap();
    assert_eq!(s.query_items("web").unwrap().len(), 1);
}

#[test]
fn registration_for_wraps_hosts() {
    let s = MemoryStorage::new(30);
    s.store_item("web", host("web", "10.0.0.1", 8080, "r1", Vec::new())).unwrap();
    let reg = registration_for(&s, "web").unwrap();
    assert_eq!(reg.service, "web");
    assert_eq!(reg.env, "production");
    assert_eq!(reg.hosts.len(), 1);
}

#[test]
fn register_host_via_param() {
    let s = MemoryStorage::new(30);
    let p = RegistrationParam {
        ip: "10.0.0.9".to_owned(),
        port: 9090,
        revision: "abc".to_owned(),
        tags: vec![tag("zone", "z1")],
    };
    regbridge::handlers::register_host(&s, "svc", p).unwrap();
    let hosts = s.query_items("svc").unwrap();
    assert_eq!(hosts.len(), 1);
    assert_eq!(hosts[0].ip_address, "10.0.0.9");
    assert_eq!(hosts[0].port, 9090);
    assert_eq!(hosts[0].revision, "abc");
}

#[test]
fn handle_delete_rejects_bad_port_text() {
    let s = MemoryStorage::new(30);
    assert!(matches!(handle_delete(&s, "web", "10.0.0.1".to_owned(), "80a"), DeleteOutcome::InvalidPort));
    assert!(matches!(handle_delete(&s, "web", "10.0.0.1".to_owned(), ""), DeleteOutcome::InvalidPort));
    assert!(matches!(handle_delete(&s, "web", "10.0.0.1".to_owned(), "65536"), DeleteOutcome::InvalidPort));
    assert!(matches!(handle_delete(&s, "web", "10.0.0.1".to_owned(), "+"), DeleteOutcome::InvalidPort));
    assert!(matches!(handle_delete(&s, "web", "10.0.0.1".to_owned(), "-1"), DeleteOutcome::InvalidPort));
}

#[test]
fn handle_delete_takes_plus_prefixed_port() {
    let s = MemoryStorage::new(30);
    s.store_item("web", host("web", "10.0.0.1", 8080, "r1", Vec::new())).unwrap();
    match handle_delete(&s, "web", "10.0.0.1".to_owned(), "+8080") {
        DeleteOutcome::Deleted(h) => assert_eq!(h.port, 8080),
        _ => panic!("expected the record back"),
    }
}

#[test]
fn handle_delete_miss_and_hit() {
    let s = MemoryStorage::new(30);
    assert!(matches!(
        handle_delete(&s, "web", "10.0.0.1".to_owned(), "8080"),
        DeleteOutcome::NotFound
    ));
    s.store_item("web", host("web", "10.0.0.1", 8080, "r1", Vec::new())).unwrap();
    match handle_delete(&s, "web", "10.0.0.1".to_owned(), "8080") {
        DeleteOutcome::Deleted(h) => {
            assert_eq!(h.ip_address, "10.0.0.1");
            assert_eq!(h.port, 8080);
        }
        _ => panic!("expected the record back"),
    }
}

#[test]
fn store_error_describe_carries_reason() {
    let e = regbridge::types::StoreError::Backend { reason: "disk gone".to_owned() };
    assert_eq!(e.describe(), "disk gone");
    let t = regbridge::types::StoreError::TimeSource { reason: "no clock".to_owned() };
    assert_eq!(t.describe(), "no clock");
}
