use alt_recipes::cache::{AssetCache, CacheEntry, LoadStep};

#[test]
fn nothing_is_visible_before_a_request() {
    let c: AssetCache<u32> = AssetCache::new(3);
    assert_eq!(c.len(), 3);
    assert_eq!(c.get(0), None);
    assert!(matches!(c.entry(2), CacheEntry::Unloaded));
}

#[test]
fn first_request_fetches_second_waits() {
    let mut c: AssetCache<u32> = AssetCache::new(2);
    assert_eq!(c.ensure_loaded(1), LoadStep::Fetch);
    assert!(matches!(c.entry(1), CacheEntry::Loading));
    assert_eq!(c.ensure_loaded(1), LoadStep::InFlight);
    assert_eq!(c.get(1), None);
    assert!(matches!(c.entry(0), CacheEntry::Unloaded));
}

#[test]
fn loaded_asset_is_read_back() {
    let mut c: AssetCache<u32> = AssetCache::new(2);
    assert_eq!(c.ensure_loaded(0), LoadStep::Fetch);
    c.complete(0, Some(42));
    assert_eq!(c.get(0), Some(&42));
    assert_eq!(c.ensure_loaded(0), LoadStep::Loaded);
    assert_eq!(c.ensure_loaded(0), LoadStep::Loaded);
    assert_eq!(c.get(0), Some(&42));
}

#[test]
fn failed_load_is_absent_and_not_retried() {
    let mut c: AssetCache<String> = AssetCache::new(1);
    assert_eq!(c.ensure_loaded(0), LoadStep::Fetch);
    c.complete(0, None);
    assert_eq!(c.get(0), None);
    assert!(matches!(c.entry(0), CacheEntry::Failed));
    assert_eq!(c.ensure_loaded(0), LoadStep::Failed);
    assert_eq!(c.ensure_loaded(0), LoadStep::Failed);
}

#[test]
fn empty_cache() {
    let c: AssetCache<u8> = AssetCache::new(0);
    assert_eq!(c.len(), 0);
}
