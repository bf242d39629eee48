use rvalt::cache::RollingCache;
use rvalt::exr::ExrImage;
use rvalt::playback::claim_target;
use rvalt::playback::frame_paths;
use rvalt::playback::next_target;
use rvalt::playback::worker_count;
use rvalt::playback::Backfill;
use rvalt::playback::DirItem;
use rvalt::playback::BACKFILL_WORKERS;

fn item(name: &str) -> DirItem {
    DirItem { name: Some(name.to_string()), path: Some(format!("/seq/{name}")) }
}

#[test]
fn frames_of_a_directory_come_in_order() {
    let items: Vec<DirItem> = ["shot.0010.exr", "shot.0002.exr", "notes.txt", "shot.0001.exr"]
        .iter()
        .map(|n| item(n))
        .collect();
    assert_eq!(
        frame_paths(&items),
        vec!["/seq/shot.0001.exr", "/seq/shot.0002.exr", "/seq/shot.0010.exr"]
    );
}

#[test]
fn only_the_extension_makes_a_frame() {
    let names = ["a.exr", ".exr", "exr", "b.EXR", "c.exr.bak", "..exr", "d.e.exr", "", "e.exr."];
    let items: Vec<DirItem> = names.iter().map(|n| item(n)).collect();
    assert_eq!(frame_paths(&items), vec!["/seq/..exr", "/seq/a.exr", "/seq/d.e.exr"]);
}

#[test]
fn entries_that_are_not_unicode_are_passed_over() {
    let items = vec![
        DirItem { name: None, path: Some("/seq/a.exr".to_string()) },
        DirItem { name: Some("b.exr".to_string()), path: None },
        item("c.exr"),
    ];
    assert_eq!(frame_paths(&items), vec!["/seq/c.exr"]);
    assert!(frame_paths(&Vec::new()).is_empty());
}

#[test]
fn the_order_of_entries_does_not_matter() {
    let names = ["é.exr", "z.exr", "ab.exr", "a.exr", "aa.exr", "Z.exr"];
    let there: Vec<DirItem> = names.iter().map(|n| item(n)).collect();
    let back: Vec<DirItem> = names.iter().rev().map(|n| item(n)).collect();
    let sorted = frame_paths(&there);
    assert_eq!(sorted, frame_paths(&back));
    assert_eq!(
        sorted,
        vec!["/seq/Z.exr", "/seq/a.exr", "/seq/aa.exr", "/seq/ab.exr", "/seq/z.exr", "/seq/é.exr"]
    );
}

#[test]
fn loaders_are_at_most_twelve() {
    assert_eq!(worker_count(None), 4);
    assert_eq!(worker_count(Some(1)), 1);
    assert_eq!(worker_count(Some(12)), 12);
    assert_eq!(worker_count(Some(64)), 12);
}

#[test]
fn nearest_frame_ahead_is_loaded_next() {
    let mut cache = RollingCache::with_limits(80, 40, 40);
    assert_eq!(next_target(&cache, 5, 40, 100, false), Some(5));
    assert_eq!(claim_target(&mut cache, 5, 40, 100, false), Some(5));
    assert_eq!(claim_target(&mut cache, 5, 40, 100, false), Some(6));
    cache.insert(7, ExrImage::default(), 5);
    assert_eq!(claim_target(&mut cache, 5, 40, 100, false), Some(8));
}

#[test]
fn nearest_frame_back_is_loaded_next_in_reverse() {
    let mut cache = RollingCache::with_limits(80, 40, 40);
    let order: Vec<u64> = std::iter::from_fn(|| claim_target(&mut cache, 3, 2, 100, true)).collect();
    assert_eq!(order, vec![3, 2, 1]);
    let mut cache = RollingCache::with_limits(80, 40, 40);
    let order: Vec<u64> =
        std::iter::from_fn(|| claim_target(&mut cache, 1, 40, 100, true)).collect();
    assert_eq!(order, vec![1, 0]);
}

#[test]
fn loading_ahead_ends_with_the_lookahead_or_the_sequence() {
    let mut cache = RollingCache::with_limits(80, 40, 40);
    let order: Vec<u64> =
        std::iter::from_fn(|| claim_target(&mut cache, 7, 2, 100, false)).collect();
    assert_eq!(order, vec![7, 8, 9]);
    let mut cache = RollingCache::with_limits(80, 40, 40);
    let order: Vec<u64> =
        std::iter::from_fn(|| claim_target(&mut cache, 8, 40, 10, false)).collect();
    assert_eq!(order, vec![8, 9]);
    assert_eq!(claim_target(&mut cache, 10, 40, 10, false), None);
}

#[test]
fn empty_sequence_counts_as_one_frame() {
    let cache = RollingCache::with_limits(80, 40, 40);
    assert_eq!(next_target(&cache, 0, 40, 0, false), Some(0));
    assert_eq!(next_target(&cache, 1, 40, 0, false), None);
}

#[test]
fn backfill_threads_share_the_frames() {
    let cache = RollingCache::with_limits(80, 40, 40);
    let mut seen: Vec<usize> = Vec::new();
    for worker in 0..BACKFILL_WORKERS {
        let mut backfill = Backfill::new(worker, BACKFILL_WORKERS, 7);
        while let Some(frame) = backfill.next_frame(&cache) {
            assert_eq!(frame % BACKFILL_WORKERS, worker);
            seen.push(frame);
        }
        assert_eq!(backfill.next_frame(&cache), None);
    }
    assert_eq!(seen, vec![0, 2, 4, 6, 1, 3, 5]);
}

#[test]
fn backfill_passes_over_what_is_at_hand() {
    let mut cache = RollingCache::with_limits(80, 40, 40);
    cache.insert(0, ExrImage::default(), 0);
    assert!(cache.try_reserve(4));
    let mut backfill = Backfill::new(0, 2, 7);
    assert_eq!(backfill.next_frame(&cache), Some(2));
    assert_eq!(backfill.next_frame(&cache), Some(6));
    assert_eq!(backfill.next_frame(&cache), None);
    assert_eq!(Backfill::new(3, 2, 3).next_frame(&cache), None);
}
