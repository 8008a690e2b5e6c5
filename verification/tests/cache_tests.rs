use icon_cache::cache::IconCache;
use icon_cache::model::FileMeta;
use icon_cache::model::IconResult;

fn meta(size: u64, modified: u64) -> FileMeta {
    FileMeta { size, modified }
}

fn icon(data: &str) -> IconResult {
    IconResult {
        icon_data: data.to_string(),
        icon_format: "png".to_string(),
        from_cache: false,
        file_hash: Some("h".to_string()),
    }
}

#[test]
fn get_on_empty_cache_is_none() {
    let cache = IconCache::new(10, 3600);
    assert!(cache.get("C:\\a.exe", 100, Some(meta(1, 1))).is_none());
}

#[test]
fn set_then_get_serves_from_cache() {
    let mut cache = IconCache::new(10, 3600);
    cache.set("C:\\a.exe", &icon("payload"), 100, meta(5, 50)).unwrap();
    let got = cache.get("C:\\a.exe", 100, Some(meta(5, 50))).unwrap();
    assert_eq!(got.icon_data, "payload");
    assert_eq!(got.icon_format, "png");
    assert!(got.from_cache);
    assert_eq!(got.file_hash.as_deref(), Some("h"));
}

#[test]
fn freshness_size_change_invalidates() {
    let mut cache = IconCache::new(10, 3600);
    cache.set("C:\\a.exe", &icon("payload"), 100, meta(5, 50)).unwrap();
    assert!(cache.get("C:\\a.exe", 100, Some(meta(6, 50))).is_none());
}

#[test]
fn freshness_mtime_change_invalidates() {
    let mut cache = IconCache::new(10, 3600);
    cache.set("C:\\a.exe", &icon("payload"), 100, meta(5, 50)).unwrap();
    assert!(cache.get("C:\\a.exe", 100, Some(meta(5, 51))).is_none());
}

#[test]
fn freshness_unreadable_metadata_invalidates() {
    let mut cache = IconCache::new(10, 3600);
    cache.set("C:\\a.exe", &icon("payload"), 100, meta(5, 50)).unwrap();
    assert!(cache.get("C:\\a.exe", 100, None).is_none());
}

#[test]
fn ttl_boundary_still_served() {
    let mut cache = IconCache::new(10, 60);
    cache.set("C:\\a.exe", &icon("payload"), 100, meta(5, 50)).unwrap();
    assert!(cache.get("C:\\a.exe", 160, Some(meta(5, 50))).is_some());
}

#[test]
fn ttl_expiry_invalidates() {
    let mut cache = IconCache::new(10, 60);
    cache.set("C:\\a.exe", &icon("payload"), 100, meta(5, 50)).unwrap();
    assert!(cache.get("C:\\a.exe", 161, Some(meta(5, 50))).is_none());
}

#[test]
fn entry_stamped_in_the_future_counts_expired() {
    let mut cache = IconCache::new(10, 60);
    cache.set("C:\\a.exe", &icon("payload"), 100, meta(5, 50)).unwrap();
    assert!(cache.get("C:\\a.exe", 99, Some(meta(5, 50))).is_none());
}

#[test]
fn stale_read_does_not_remove_the_entry() {
    let mut cache = IconCache::new(10, 60);
    cache.set("C:\\a.exe", &icon("payload"), 100, meta(5, 50)).unwrap();
    assert!(cache.get("C:\\a.exe", 200, Some(meta(5, 50))).is_none());
    assert_eq!(cache.get_stats().unwrap().total_entries, 1);
}

#[test]
fn set_same_path_overwrites() {
    let mut cache = IconCache::new(10, 3600);
    cache.set("C:\\a.exe", &icon("one"), 100, meta(5, 50)).unwrap();
    cache.set("C:\\a.exe", &icon("two"), 101, meta(5, 50)).unwrap();
    assert_eq!(cache.get_stats().unwrap().total_entries, 1);
    let got = cache.get("C:\\a.exe", 101, Some(meta(5, 50))).unwrap();
    assert_eq!(got.icon_data, "two");
}

#[test]
fn distinct_spellings_are_distinct_keys() {
    let mut cache = IconCache::new(10, 3600);
    cache.set("C:\\a.exe", &icon("one"), 100, meta(5, 50)).unwrap();
    cache.set("C:/a.exe", &icon("two"), 100, meta(5, 50)).unwrap();
    assert_eq!(cache.get_stats().unwrap().total_entries, 2);
}

#[test]
fn capacity_never_exceeded() {
    let mut cache = IconCache::new(3, 3600);
    for i in 0..20u64 {
        let path = format!("C:\\file{}.exe", i);
        cache.set(&path, &icon("x"), 100 + i, meta(i, i)).unwrap();
        assert!(cache.get_stats().unwrap().total_entries <= 3);
    }
}

#[test]
fn eviction_of_expired_leaves_only_the_new_entry() {
    let mut cache = IconCache::new(3, 10);
    cache.set("a", &icon("a"), 0, meta(1, 1)).unwrap();
    cache.set("b", &icon("b"), 1, meta(2, 2)).unwrap();
    cache.set("c", &icon("c"), 2, meta(3, 3)).unwrap();
    assert_eq!(cache.get_stats().unwrap().total_entries, 3);
    // Every record has expired by now; the store sweeps them all.
    cache.set("d", &icon("d"), 1000, meta(4, 4)).unwrap();
    let stats = cache.get_stats().unwrap();
    assert_eq!(stats.total_entries, 1);
    assert!(cache.get("d", 1000, Some(meta(4, 4))).is_some());
    assert!(cache.get("a", 1000, Some(meta(1, 1))).is_none());
    assert!(cache.get("b", 1000, Some(meta(2, 2))).is_none());
    assert!(cache.get("c", 1000, Some(meta(3, 3))).is_none());
}

#[test]
fn capacity_stress_drops_the_earliest_inserted() {
    let mut cache = IconCache::new(10, 1_000_000);
    for i in 0..15u64 {
        let path = format!("p{}", i);
        cache.set(&path, &icon("x"), i, meta(i, i)).unwrap();
    }
    let now = 20u64;
    let stats = cache.get_stats().unwrap();
    assert!(stats.total_entries <= 10);
    for i in 0..5u64 {
        let path = format!("p{}", i);
        assert!(cache.get(&path, now, Some(meta(i, i))).is_none());
    }
    for i in 5..15u64 {
        let path = format!("p{}", i);
        assert!(cache.get(&path, now, Some(meta(i, i))).is_some());
    }
}

#[test]
fn clear_empties_the_cache() {
    let mut cache = IconCache::new(10, 3600);
    cache.set("a", &icon("a"), 0, meta(1, 1)).unwrap();
    cache.set("b", &icon("b"), 0, meta(2, 2)).unwrap();
    cache.clear().unwrap();
    let stats = cache.get_stats().unwrap();
    assert_eq!(stats.total_entries, 0);
    assert!(cache.get("a", 0, Some(meta(1, 1))).is_none());
}

#[test]
fn stats_reports_configuration() {
    let cache = IconCache::new(123, 456);
    let stats = cache.get_stats().unwrap();
    assert_eq!(stats.total_entries, 0);
    assert_eq!(stats.max_entries, 123);
    assert_eq!(stats.cache_duration, 456);
}

#[test]
fn set_keeps_given_fingerprint() {
    let mut cache = IconCache::new(10, 3600);
    let mut res = icon("payload");
    res.file_hash = Some("deadbeef".to_string());
    cache.set("a", &res, 100, meta(5, 50)).unwrap();
    let got = cache.get("a", 100, Some(meta(5, 50))).unwrap();
    assert_eq!(got.file_hash.as_deref(), Some("deadbeef"));
}

#[test]
fn set_derives_fingerprint_when_absent() {
    let mut cache = IconCache::new(10, 3600);
    let mut res = icon("payload");
    res.file_hash = None;
    cache.set("a", &res, 100, meta(1, 2)).unwrap();
    let got = cache.get("a", 100, Some(meta(1, 2))).unwrap();
    // FNV-1a over the path bytes, then one round each for size and
    // modification time, in lowercase hex.
    assert_eq!(got.file_hash.as_deref(), Some("e5d65b190429e62f"));
}
