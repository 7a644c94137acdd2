use frame_cache::cache::FrameCache;
use frame_cache::cache::FrameCacheItem;
use frame_cache::frame::CacheError;
use frame_cache::frame::Frame;

fn entry(id: usize, resolved_pts: i64, asked_time: i64) -> FrameCacheItem {
    FrameCacheItem {
        resolved_pts,
        resolved_dts: resolved_pts,
        asked_time,
        frame: Frame::deferred(vec![id as u8]),
        id,
        created_at: 0,
    }
}

#[test]
fn new_store_is_empty() {
    let cache = FrameCache::new();
    assert!(cache.is_empty());
    let refs = cache.get_references(String::from("a.mp4"), false, 0).unwrap();
    assert!(refs.is_empty());
}

#[test]
fn exact_match_wins_with_threshold_zero() {
    let mut cache = FrameCache::new();
    cache.add_item(entry(1, 50, 999));
    cache.add_item(entry(2, 60, 999));
    let got = cache.get_item_id(50, 0).unwrap();
    assert_eq!(got, Some(1));
}

#[test]
fn exact_match_beats_fast_path_at_later_index() {
    // The scan checks indices in order: the exact match at index 0 returns
    // before the scan ever reaches the fast-path entry at index 2.
    let mut cache = FrameCache::new();
    cache.add_item(entry(1, 50, 999));
    cache.add_item(entry(2, 60, 999));
    cache.add_item(entry(3, 10, 999));
    cache.set_last_frame(3);
    let got = cache.get_item_id(50, 0).unwrap();
    assert_eq!(got, Some(1));
}

#[test]
fn fast_path_at_earlier_index_beats_later_exact_match() {
    // The asymmetric ordering is deliberate: when the current-frame entry
    // stands first, its fast path fires before a later exact match is seen.
    let mut cache = FrameCache::new();
    cache.add_item(entry(1, 10, 999));
    cache.add_item(entry(2, 15, 999));
    cache.set_last_frame(1);
    let got = cache.get_item_id(15, 0).unwrap();
    assert_eq!(got, Some(1));
}

#[test]
fn sequential_fast_path_ignores_threshold() {
    let mut cache = FrameCache::new();
    cache.add_item(entry(7, 10, 1000));
    cache.set_last_frame(7);
    let got = cache.get_item_id(15, 0).unwrap();
    assert_eq!(got, Some(7));
}

#[test]
fn fast_path_needs_strictly_earlier_pts() {
    // The current frame's pts must lie strictly before the requested time;
    // at equal time the exact branch answers instead, and for an earlier
    // time neither applies.
    let mut cache = FrameCache::new();
    cache.add_item(entry(7, 10, 1000));
    cache.set_last_frame(7);
    assert_eq!(cache.get_item_id(10, 0).unwrap(), Some(7));
    assert_eq!(cache.get_item_id(5, 0).unwrap(), None);
}

#[test]
fn threshold_is_inclusive() {
    let mut cache = FrameCache::new();
    cache.add_item(entry(1, 7000, 100));
    assert_eq!(cache.get_item_id(105, 5).unwrap(), Some(1));
}

#[test]
fn one_past_threshold_misses() {
    let mut cache = FrameCache::new();
    cache.add_item(entry(1, 7000, 100));
    assert_eq!(cache.get_item_id(106, 5).unwrap(), None);
}

#[test]
fn tie_break_prefers_later_insertion() {
    let mut cache = FrameCache::new();
    cache.add_item(entry(1, 7000, 100));
    cache.add_item(entry(2, 7000, 200));
    let got = cache.get_item_id(150, 60).unwrap();
    assert_eq!(got, Some(2));
}

#[test]
fn end_to_end_tie_then_miss() {
    let mut cache = FrameCache::new();
    cache.add_item(entry(1, 100, 100));
    cache.add_item(entry(2, 200, 200));
    assert_eq!(cache.get_item_id(150, 60).unwrap(), Some(2));
    assert_eq!(cache.get_item_id(150, 40).unwrap(), None);
}

#[test]
fn duplicate_exact_matches_return_first_insertion() {
    // Exact matching short-circuits on the first occurrence, unlike the
    // approximate tie-break, which prefers the latest.
    let mut cache = FrameCache::new();
    cache.add_item(entry(1, 100, 0));
    cache.add_item(entry(2, 100, 0));
    assert_eq!(cache.get_item_id(100, 0).unwrap(), Some(1));
}

#[test]
fn removal_clears_fast_path_until_marked_again() {
    let mut cache = FrameCache::new();
    cache.add_item(entry(1, 10, 5000));
    cache.add_item(entry(2, 0, 5000));
    cache.set_last_frame(1);
    cache.remove_item_by_id(1).unwrap();
    // With the role cleared, nothing satisfies lookup(15, 0) even though
    // entry 2 would qualify for the fast path if it were marked.
    assert_eq!(cache.get_item_id(15, 0).unwrap(), None);
    cache.set_last_frame(2);
    assert_eq!(cache.get_item_id(15, 0).unwrap(), Some(2));
}

#[test]
fn removing_other_entry_keeps_fast_path() {
    let mut cache = FrameCache::new();
    cache.add_item(entry(1, 10, 5000));
    cache.add_item(entry(2, 999, 5000));
    cache.set_last_frame(1);
    cache.remove_item_by_id(2).unwrap();
    assert_eq!(cache.get_item_id(15, 0).unwrap(), Some(1));
}

#[test]
fn remove_of_absent_id_is_a_no_op() {
    let mut cache = FrameCache::new();
    cache.add_item(entry(1, 10, 10));
    cache.remove_item_by_id(99).unwrap();
    assert!(!cache.is_empty());
}

#[test]
fn insert_then_remove_round_trips_to_empty() {
    let mut cache = FrameCache::new();
    cache.add_item(entry(5, 10, 10));
    cache.remove_item_by_id(5).unwrap();
    assert!(cache.is_empty());
    let refs = cache.get_references(String::from("a.mp4"), false, 0).unwrap();
    assert!(refs.is_empty());
}

#[test]
fn fetch_by_id_returns_data_and_moves_anchor() {
    let mut cache = FrameCache::new();
    cache.add_item(FrameCacheItem {
        resolved_pts: 999,
        resolved_dts: 999,
        asked_time: 100,
        frame: Frame::deferred(vec![1, 2, 3]),
        id: 1,
        created_at: 0,
    });
    cache.add_item(entry(2, 998, 500));
    let data = cache.get_item_from_id(1).unwrap();
    assert_eq!(data, Some(vec![1, 2, 3]));
    // Before the fetch, entry 1 sat at distance 0 from time 100; its anchor
    // now sits at zero, so lookup(100, 50) no longer matches it.
    assert_eq!(cache.get_item_id(100, 50).unwrap(), None);
}

#[test]
fn fetch_of_absent_id_is_not_found() {
    let mut cache = FrameCache::new();
    cache.add_item(entry(1, 10, 10));
    assert_eq!(cache.get_item_from_id(42).unwrap(), None);
}

#[test]
fn lookup_hydration_failure_propagates_and_preserves_entries() {
    let mut cache = FrameCache::new();
    cache.add_item(FrameCacheItem {
        resolved_pts: 100,
        resolved_dts: 100,
        asked_time: 100,
        frame: Frame::broken(),
        id: 1,
        created_at: 0,
    });
    assert_eq!(cache.get_item_id(100, 0), Err(CacheError::HydrationFailure));
    // The entry stays; the same lookup keeps failing the same way.
    assert_eq!(cache.get_item_id(100, 0), Err(CacheError::HydrationFailure));
    assert!(!cache.is_empty());
    cache.remove_item_by_id(1).unwrap();
    assert!(cache.is_empty());
}

#[test]
fn fetch_hydration_failure_keeps_anchor() {
    let mut cache = FrameCache::new();
    cache.add_item(FrameCacheItem {
        resolved_pts: 999,
        resolved_dts: 999,
        asked_time: 100,
        frame: Frame::broken(),
        id: 1,
        created_at: 0,
    });
    assert_eq!(cache.get_item_from_id(1), Err(CacheError::HydrationFailure));
    // The reset happens only on success: the anchor still matches time 100.
    assert_eq!(cache.get_item_id(100, 0), Err(CacheError::HydrationFailure));
}
