use alt_recipes::cache::{AssetCache, CacheEntry, LoadStep};
use alt_recipes::catalog::Catalog;
use alt_recipes::pipeline::{warm_keys, Poll, PrefetchPipeline};

fn two_recipes() -> Catalog {
    let mut c = Catalog::new();
    c.register_asset("Wire".to_string(), "Wire.png".to_string());
    c.register_asset("Copper Ingot".to_string(), "Copper_Ingot.png".to_string());
    c.register_asset("Cable".to_string(), "Cable.png".to_string());
    c.add_recipe("Fused Wire".to_string(), "Wire".to_string(), &vec![("Copper Ingot".to_string(), 12_000)], 90_000);
    c.add_recipe("Insulated Cable".to_string(), "Cable".to_string(), &vec![("Wire".to_string(), 9_000)], 20_000);
    c
}

#[test]
fn warming_hands_out_each_missing_key_in_order() {
    let mut cache: AssetCache<u32> = AssetCache::new(3);
    let keys = vec![2usize, 0, 2];
    assert_eq!(warm_keys(&keys, &mut cache), Poll::Fetch(2));
    assert_eq!(warm_keys(&keys, &mut cache), Poll::Running);
    cache.complete(2, Some(7));
    assert_eq!(warm_keys(&keys, &mut cache), Poll::Fetch(0));
    cache.complete(0, None);
    assert_eq!(warm_keys(&keys, &mut cache), Poll::Ready);
    assert!(matches!(cache.entry(1), CacheEntry::Unloaded));
}

#[test]
fn item_and_recipe_load_through_the_cache() {
    let c = two_recipes();
    let mut cache: AssetCache<u32> = AssetCache::new(c.n_assets());
    let r = c.recipe(0);
    assert_eq!(r.product.load(&mut cache), LoadStep::Fetch);
    cache.complete(r.product.key, Some(1));
    assert_eq!(r.load(&mut cache), Poll::Fetch(1));
    cache.complete(1, Some(2));
    assert_eq!(r.load(&mut cache), Poll::Ready);
    assert_eq!(r.product.load(&mut cache), LoadStep::Loaded);
}

#[test]
fn prefetch_runs_then_is_ready_and_taken() {
    let c = two_recipes();
    let mut cache: AssetCache<u32> = AssetCache::new(c.n_assets());
    let mut p = PrefetchPipeline::start(&c, vec![1, 0]);
    assert!(!p.ready());
    // Recipe 1 first: Cable, then Wire; then recipe 0: Wire, Copper Ingot.
    assert_eq!(p.poll(&mut cache), Poll::Fetch(2));
    assert_eq!(p.poll(&mut cache), Poll::Running);
    assert!(!p.ready());
    cache.complete(2, Some(20));
    assert_eq!(p.poll(&mut cache), Poll::Fetch(0));
    cache.complete(0, None);
    assert_eq!(p.poll(&mut cache), Poll::Fetch(1));
    cache.complete(1, Some(10));
    assert_eq!(p.poll(&mut cache), Poll::Ready);
    assert!(p.ready());
    assert_eq!(p.poll(&mut cache), Poll::Ready);
    let b = p.take();
    assert_eq!(b.picks(), &vec![1, 0]);
    for k in 0..3 {
        assert!(matches!(cache.entry(k), CacheEntry::Loaded(_) | CacheEntry::Failed));
    }
}

#[test]
fn prefetch_of_warm_keys_is_ready_at_once() {
    let c = two_recipes();
    let mut cache: AssetCache<u32> = AssetCache::new(c.n_assets());
    for k in 0..3 {
        assert_eq!(cache.ensure_loaded(k), LoadStep::Fetch);
        cache.complete(k, Some(k as u32));
    }
    let mut p = PrefetchPipeline::start(&c, vec![0]);
    assert_eq!(p.poll(&mut cache), Poll::Ready);
}

#[test]
fn empty_prefetch_is_ready() {
    let c = two_recipes();
    let mut cache: AssetCache<u32> = AssetCache::new(c.n_assets());
    let mut p = PrefetchPipeline::start(&c, vec![]);
    assert_eq!(p.poll(&mut cache), Poll::Ready);
    assert_eq!(p.take().picks().len(), 0);
}
