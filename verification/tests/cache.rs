use std::sync::Arc;

use rvalt::cache::RollingCache;
use rvalt::exr::ExrImage;

fn frame(tag: u16) -> ExrImage {
    ExrImage { width: 1, height: 1, r: vec![tag], g: vec![tag], b: vec![tag], a: vec![tag] }
}

fn tag(img: &Arc<ExrImage>) -> u16 {
    img.r[0]
}

#[test]
fn frame_is_there_once_it_came_in() {
    let mut cache = RollingCache::with_limits(4, 1, 1);
    assert!(cache.get(3).is_none());
    let (index, thumb) = cache.insert(3, frame(30), 0);
    assert_eq!((index, tag(&thumb)), (3, 30));
    assert_eq!(cache.get(3).map(|i| tag(&i)), Some(30));
    cache.insert(3, frame(31), 0);
    assert_eq!(cache.get(3).map(|i| tag(&i)), Some(31));
}

#[test]
fn frames_outside_the_window_leave_a_full_cache() {
    let mut cache = RollingCache::with_limits(3, 1, 1);
    for f in [4, 9, 10] {
        cache.insert(f, frame(f as u16), 10);
    }
    assert!(cache.contains(4));
    cache.insert(11, frame(11), 10);
    assert!(!cache.contains(4));
    for f in [9, 10, 11] {
        assert!(cache.contains(f));
    }
    cache.insert(20, frame(20), 10);
    assert!(!cache.contains(20));
    assert!(cache.contains(9) && cache.contains(10) && cache.contains(11));
}

#[test]
fn new_cache_keeps_the_frame_at_the_playhead_alone() {
    let mut cache = RollingCache::new();
    cache.insert(1, frame(1), 1);
    assert!(cache.contains(1));
    cache.insert(2, frame(2), 1);
    assert!(cache.contains(1) && !cache.contains(2));
}

#[test]
fn frame_is_reserved_once() {
    let mut cache = RollingCache::with_limits(4, 1, 1);
    assert!(cache.try_reserve(5));
    assert!(cache.contains(5));
    assert!(cache.get(5).is_none());
    assert!(!cache.try_reserve(5));
    cache.remove_pending(5);
    assert!(!cache.contains(5));
    assert!(cache.try_reserve(5));
    cache.insert(5, frame(5), 5);
    assert!(!cache.try_reserve(5));
    cache.remove_pending(5);
    assert!(cache.contains(5));
}

#[test]
fn sweep_drops_what_is_no_longer_wanted() {
    let mut cache = RollingCache::with_limits(4, 2, 3);
    for f in 0..20 {
        assert!(cache.try_reserve(f));
    }
    cache.sweep_pending(10);
    for f in 0..20 {
        assert_eq!(cache.contains(f), (8..=13).contains(&f));
    }
    cache.sweep_pending(10);
    for f in 0..20 {
        assert_eq!(cache.contains(f), (8..=13).contains(&f));
    }
}

#[test]
fn cache_stays_bounded() {
    let mut cache = RollingCache::with_limits(5, 2, 3);
    for f in 0..100 {
        cache.insert(f, frame(f as u16), f);
        let held = (0..100).filter(|g| cache.contains(*g)).count();
        assert!(held <= 6);
    }
}

#[test]
fn window_past_the_largest_frame_cannot_be_told() {
    let mut cache = RollingCache::with_limits(0, 40, 40);
    assert!(cache.can_sweep(u64::MAX));
    assert!(!cache.can_insert(u64::MAX, 0));
    assert!(cache.can_insert(0, u64::MAX));
    assert!(!cache.can_insert(u64::MAX - 40, u64::MAX));
    assert!(cache.can_insert(u64::MAX - 80, u64::MAX - 40));
    assert!(cache.try_reserve(u64::MAX));
    assert!(!cache.can_sweep(0));
    let roomy = RollingCache::with_limits(1, 40, 40);
    assert!(roomy.can_insert(u64::MAX, 0));
}
