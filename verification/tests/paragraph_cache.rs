use std::sync::Arc;
use std::time::{Duration, Instant};

use iced_logic::geometry::Size;
use iced_logic::paragraph_cache::{
    cache_paragraph, cached_paragraph, keep_resized, lookup_key, lookup_plain, lookup_spans, reuse_on_resize,
    trim_cache, ParagraphCache, ParagraphLookup, GENERATION_CAP,
};

fn bounds(width: f32) -> Size {
    Size::new(width.to_bits(), f32::MAX.to_bits())
}

fn warm(lookup: ParagraphLookup<Arc<String>>) -> Arc<String> {
    match lookup {
        ParagraphLookup::Warm(paragraph) => paragraph,
        ParagraphLookup::Pending => panic!("a warm paragraph was expected"),
    }
}

#[test]
fn cache_identity_eviction_and_invalidation() {
    let mut cache = ParagraphCache::new(0);
    let first = Arc::new(String::from("cached paragraph"));
    cache.insert(1, &first, 0);
    let hit = cache.get(1, 0).expect("identical content must share");
    assert!(Arc::ptr_eq(&first, &hit));

    assert!(cache.get(2, 0).is_none(), "distinct content must not share");

    cache.rotate();
    cache.rotate();
    assert!(cache.get(1, 0).is_none(), "two untouched generations must evict");

    cache.insert(1, &first, 0);
    assert!(cache.get(1, 0).is_some());
    assert!(cache.get(1, 1).is_none(), "a font epoch bump must flush the cache");
}

#[test]
fn a_hit_survives_one_rotation_and_moves_back() {
    let mut cache = ParagraphCache::new(3);
    let paragraph = Arc::new(String::from("kept"));
    cache.insert(42, &paragraph, 3);
    cache.rotate();
    let hit = cache.get(42, 3).expect("one rotation keeps the entry");
    assert!(Arc::ptr_eq(&paragraph, &hit));
    cache.rotate();
    assert!(cache.get(42, 3).is_some(), "the hit moved into the current generation");
    cache.rotate();
    cache.rotate();
    assert!(cache.get(42, 3).is_none());
}

#[test]
fn pending_keys_queue_once() {
    let mut cache: ParagraphCache<String> = ParagraphCache::new(0);
    assert!(cache.try_pend(7, 0));
    assert!(!cache.try_pend(7, 0), "in flight keys are not queued twice");
    cache.insert(7, &Arc::new(String::from("shaped")), 0);
    assert!(!cache.try_pend(7, 0), "warm keys are not queued");
    assert!(cache.try_pend(7, 1), "a new epoch re-queues");
}

#[test]
fn lookup_warms_after_insert() {
    let mut cache = ParagraphCache::new(0);
    let (first, queued) = lookup_key(&mut cache, 5, 0);
    assert!(matches!(first, ParagraphLookup::Pending));
    assert!(queued);
    let (again, queued_again) = lookup_key(&mut cache, 5, 0);
    assert!(matches!(again, ParagraphLookup::Pending));
    assert!(!queued_again);

    let paragraph = Arc::new(String::from("done"));
    cache.insert(5, &paragraph, 0);
    let (found, queued) = lookup_key(&mut cache, 5, 0);
    assert!(!queued);
    assert!(Arc::ptr_eq(&paragraph, &warm(found)));
}

#[test]
fn plain_and_span_lookups_key_by_bounds() {
    let mut cache: ParagraphCache<String> = ParagraphCache::new(0);
    let wide = Size::new(320.0f32.to_bits(), f32::MAX.to_bits());
    let narrow = Size::new(100.0f32.to_bits(), f32::MAX.to_bits());
    let (lookup, queued) = lookup_plain(&mut cache, 11, wide, 0);
    assert!(matches!(lookup, ParagraphLookup::Pending));
    assert!(queued);
    let (_, queued) = lookup_plain(&mut cache, 11, wide, 0);
    assert!(!queued, "the same base key and bounds give the same key");
    let (_, queued) = lookup_plain(&mut cache, 11, narrow, 0);
    assert!(queued, "the width is part of the key");
    let (_, queued) = lookup_spans(&mut cache, 11, wide, 0);
    assert!(!queued, "spans and plain text share the full key of a base key");
}

#[test]
fn a_full_generation_rotates_on_insert() {
    let mut cache = ParagraphCache::new(0);
    let paragraph = Arc::new(String::from("p"));
    for key in 0..GENERATION_CAP as u64 {
        cache.insert(key, &paragraph, 0);
    }
    // The next insert rotates: everything so far is now the previous
    // generation, still reachable once.
    cache.insert(u64::MAX, &paragraph, 0);
    assert!(cache.get(0, 0).is_some());
    cache.rotate();
    cache.rotate();
    assert!(cache.get(1, 0).is_none());
}

#[test]
fn trim_keeps_a_young_generation() {
    let mut cache = ParagraphCache::new(0);
    let paragraph = Arc::new(String::from("young"));
    cache.insert(9, &paragraph, 0);
    trim_cache(&mut cache);
    trim_cache(&mut cache);
    assert!(cache.get(9, 0).is_some(), "rotations wait for the interval");
    cache.trim_after(0, Instant::now());
    assert!(cache.get(9, 0).is_some());
    cache.trim_after(1_000_000_000, Instant::now());
    cache.trim_after(1_000_000_000, Instant::now());
    assert!(cache.get(9, 0).is_none());
}

#[test]
fn resize_to_a_cached_width_reuses_the_cached_shape() {
    let mut cache = ParagraphCache::new(0);
    let wide = Arc::new(String::from("cached paragraph at 320"));
    let narrow = Arc::new(String::from("cached paragraph at 100"));
    cache_paragraph(&mut cache, 77, bounds(320.0), &wide, 0);
    cache_paragraph(&mut cache, 77, bounds(100.0), &narrow, 0);

    let first = cached_paragraph(&mut cache, 77, bounds(320.0), 0).expect("identical content must share");
    assert!(Arc::ptr_eq(&wide, &first));
    let other = cached_paragraph(&mut cache, 77, bounds(100.0), 0).expect("the narrow shape is cached");
    assert!(!Arc::ptr_eq(&first, &other), "wrap width is part of identity");
    assert!(cached_paragraph(&mut cache, 78, bounds(320.0), 0).is_none(), "distinct content must not share");

    let resized = reuse_on_resize(&mut cache, 77, bounds(320.0), 0).expect("resize must reuse the cached shape");
    assert!(Arc::ptr_eq(&wide, &resized));
}

#[test]
fn a_zero_base_key_opts_out_of_the_cache() {
    let mut cache = ParagraphCache::new(0);
    let paragraph = Arc::new(String::from("default"));
    keep_resized(&mut cache, 0, bounds(50.0), &paragraph, 0);
    assert!(reuse_on_resize(&mut cache, 0, bounds(50.0), 0).is_none());
    assert!(cached_paragraph(&mut cache, 0, bounds(50.0), 0).is_none(), "nothing was stored");

    keep_resized(&mut cache, 5, bounds(50.0), &paragraph, 0);
    let kept = reuse_on_resize(&mut cache, 5, bounds(50.0), 0).expect("a keyed resize is cached");
    assert!(Arc::ptr_eq(&paragraph, &kept));
}

#[test]
fn insert_ends_the_queueing_of_its_key() {
    let mut cache = ParagraphCache::new(0);
    assert!(cache.try_pend(3, 0));
    cache.insert(3, &Arc::new(String::from("shaped")), 0);
    cache.rotate();
    cache.rotate();
    assert!(cache.try_pend(3, 0), "evicted and no longer in flight, the key queues again");
}

#[test]
fn a_rotation_restarts_the_interval() {
    let mut cache: ParagraphCache<String> = ParagraphCache::new(0);
    let paragraph = Arc::new(String::from("aged"));
    cache.insert(9, &paragraph, 0);

    let long_ago = Instant::now().checked_sub(Duration::from_secs(2)).expect("an instant two seconds ago");
    cache.rotate_at(long_ago);
    cache.insert(9, &paragraph, 0);
    // The generation started two seconds ago: trimming rotates, and the
    // new generation starts now.
    cache.trim();
    cache.trim();
    assert!(cache.get(9, 0).is_some(), "the second trim finds a young generation and keeps it");
}

#[test]
fn trim_after_rotates_at_the_given_instant_only_when_old_enough() {
    let mut cache: ParagraphCache<String> = ParagraphCache::new(0);
    let paragraph = Arc::new(String::from("x"));
    cache.insert(4, &paragraph, 0);
    cache.trim_after(999_999_999, Instant::now());
    assert!(Arc::ptr_eq(&cache.get(4, 0).expect("young entries stay"), &paragraph));
    cache.trim_after(1_000_000_000, Instant::now());
    cache.trim_after(1_000_000_000, Instant::now());
    assert!(cache.get(4, 0).is_none(), "two rotations evict");
}

#[test]
fn a_cached_paragraph_is_found_under_its_base_key_and_bounds_only() {
    let mut cache: ParagraphCache<String> = ParagraphCache::new(0);
    let paragraph = Arc::new(String::from("keyed"));
    let wide = Size::new(200.0f32.to_bits(), 50.0f32.to_bits());
    let swapped = Size::new(50.0f32.to_bits(), 200.0f32.to_bits());
    cache_paragraph(&mut cache, 42, wide, &paragraph, 0);
    let found = cached_paragraph(&mut cache, 42, wide, 0).expect("read after write");
    assert!(Arc::ptr_eq(&found, &paragraph));
    assert!(cached_paragraph(&mut cache, 42, swapped, 0).is_none(), "width and height are not interchangeable");
    assert!(cached_paragraph(&mut cache, 43, wide, 0).is_none());
}

#[test]
fn traffic_on_other_keys_leaves_an_entry_alone() {
    let mut cache: ParagraphCache<String> = ParagraphCache::new(0);
    let paragraph = Arc::new(String::from("kept"));
    cache.insert(1, &paragraph, 0);
    cache.rotate();
    for other in 2..10u64 {
        cache.insert(other, &Arc::new(other.to_string()), 0);
        assert!(cache.get(other, 0).is_some());
        assert!(!cache.try_pend(other, 0));
    }
    assert!(cache.try_pend(100, 0));
    let found = cache.get(1, 0).expect("one rotation and other keys' traffic keep the entry");
    assert!(Arc::ptr_eq(&found, &paragraph));
}
