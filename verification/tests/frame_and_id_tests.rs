use frame_cache::cache::FrameCache;
use frame_cache::cache::FrameCacheItem;
use frame_cache::frame::CacheError;
use frame_cache::frame::Frame;
use frame_cache::ids::FrameCacheIdAllocator;
use frame_cache::ids::get_frame_cache_id;

fn timed_entry(id: usize, created_at: i64) -> FrameCacheItem {
    FrameCacheItem {
        resolved_pts: 0,
        resolved_dts: 0,
        asked_time: 0,
        frame: Frame::deferred(Vec::new()),
        id,
        created_at,
    }
}

#[test]
fn ids_start_at_one_and_strictly_increase() {
    let mut allocator = FrameCacheIdAllocator::new();
    let a = get_frame_cache_id(&mut allocator);
    let b = get_frame_cache_id(&mut allocator);
    let c = get_frame_cache_id(&mut allocator);
    assert_eq!(a, 1);
    assert_eq!(b, 2);
    assert_eq!(c, 3);
}

#[test]
fn deferred_frame_hydrates_once_and_stays_hydrated() {
    let mut frame = Frame::deferred(vec![9, 8, 7]);
    assert_eq!(frame.get_data(), Err(CacheError::NotHydrated));
    frame.ensure_data().unwrap();
    assert_eq!(frame.get_data(), Ok(vec![9, 8, 7]));
    // Idempotent: a second hydration changes nothing.
    frame.ensure_data().unwrap();
    assert_eq!(frame.get_data(), Ok(vec![9, 8, 7]));
}

#[test]
fn ready_frame_needs_no_hydration() {
    let frame = Frame::ready(vec![4]);
    assert_eq!(frame.get_data(), Ok(vec![4]));
}

#[test]
fn broken_frame_fails_hydration() {
    let mut frame = Frame::broken();
    assert_eq!(frame.ensure_data(), Err(CacheError::HydrationFailure));
    assert_eq!(frame.get_data(), Err(CacheError::NotHydrated));
}

#[test]
fn references_carry_age_source_and_order() {
    let mut cache = FrameCache::new();
    cache.add_item(timed_entry(1, 100));
    cache.add_item(timed_entry(2, 200));
    let refs = cache.get_references(String::from("clip.mp4"), true, 250).unwrap();
    assert_eq!(refs.len(), 2);
    assert_eq!(refs[0].id, 1);
    assert_eq!(refs[0].created_at, 150);
    assert_eq!(refs[0].src, "clip.mp4");
    assert!(refs[0].transparent);
    assert_eq!(refs[1].id, 2);
    assert_eq!(refs[1].created_at, 50);
    assert_eq!(refs[1].src, "clip.mp4");
    assert!(refs[1].transparent);
}

#[test]
fn remove_by_reference_removes_its_entry() {
    let mut cache = FrameCache::new();
    cache.add_item(timed_entry(1, 0));
    cache.add_item(timed_entry(2, 0));
    let refs = cache.get_references(String::from("clip.mp4"), false, 0).unwrap();
    cache.remove_from_frame_reference(refs[0].clone()).unwrap();
    let left = cache.get_references(String::from("clip.mp4"), false, 0).unwrap();
    assert_eq!(left.len(), 1);
    assert_eq!(left[0].id, 2);
}

#[test]
fn reference_age_saturates_instead_of_wrapping() {
    let mut cache = FrameCache::new();
    cache.add_item(timed_entry(1, i64::MIN));
    let refs = cache.get_references(String::from("clip.mp4"), false, i64::MAX).unwrap();
    assert_eq!(refs[0].created_at, i64::MAX);
}

#[test]
fn lookup_with_extreme_anchor_does_not_overflow() {
    let mut cache = FrameCache::new();
    cache.add_item(timed_entry(1, 0));
    let mut far = timed_entry(2, 0);
    far.asked_time = i64::MIN;
    far.resolved_pts = 1;
    cache.add_item(far);
    // Entry 1 sits at distance i64::MAX from the requested time; entry 2
    // is farther still; a small threshold misses both.
    assert_eq!(cache.get_item_id(i64::MAX, 10).unwrap(), None);
}
