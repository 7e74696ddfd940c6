use armbian_imager::cache::calculate_cache_size;
use armbian_imager::cache::clear_cache;
use armbian_imager::cache::evict_to_size;
use armbian_imager::cache::get_cached_files_by_age;
use armbian_imager::cache::get_cached_image;
use armbian_imager::cache::get_images_cache_dir;
use armbian_imager::cache::is_partial_download;
use armbian_imager::cache::may_delete;
use armbian_imager::cache::CacheEntry;
use armbian_imager::cache::CacheError;

fn entry(name: &str, size: u64, modified: u64) -> CacheEntry {
    CacheEntry { name: name.to_string(), size, modified }
}

fn names(entries: &Vec<CacheEntry>) -> Vec<String> {
    entries.iter().map(|e| e.name.clone()).collect()
}

#[test]
fn test_calculate_cache_size_empty() {
    // An absent directory is an empty listing: size 0, no error.
    let result = calculate_cache_size(&Vec::new());
    assert!(result.is_ok());
    assert_eq!(result.unwrap(), 0);
}

#[test]
fn test_get_cached_files_by_age() {
    let order = get_cached_files_by_age(&Vec::new());
    assert!(order.is_empty());
}

#[test]
fn test_clear_cache_nonexistent() {
    // Clearing an absent directory succeeds.
    let mut listing: Vec<CacheEntry> = Vec::new();
    let result = clear_cache(&mut listing, |_| true);
    assert!(result.is_ok());
}

#[test]
fn cache_size_sums_all_files() {
    let listing = vec![entry("a.img", 10, 3), entry("b.img", 0, 1), entry("c.img", 32, 2)];
    assert_eq!(calculate_cache_size(&listing).unwrap(), 42);
}

#[test]
fn cache_size_overflow_is_reported() {
    let listing = vec![entry("a.img", u64::MAX, 3), entry("b.img", 1, 1)];
    assert!(matches!(calculate_cache_size(&listing), Err(CacheError::SizeOverflow)));
}

#[test]
fn age_order_is_oldest_first_and_stable() {
    let listing = vec![
        entry("new", 1, 30),
        entry("tie_first", 1, 10),
        entry("old", 1, 5),
        entry("tie_second", 1, 10),
    ];
    assert_eq!(get_cached_files_by_age(&listing), vec![2, 1, 3, 0]);
}

#[test]
fn evict_on_empty_cache_is_a_no_op() {
    let mut listing: Vec<CacheEntry> = Vec::new();
    assert_eq!(calculate_cache_size(&listing).unwrap(), 0);
    for max in [0u64, 1, 1 << 30, u64::MAX] {
        let report = evict_to_size(&mut listing, max, |_| panic!("nothing to remove")).unwrap();
        assert_eq!(report.attempts, 0);
        assert_eq!(report.freed, 0);
        assert!(listing.is_empty());
    }
}

#[test]
fn evict_within_limit_touches_nothing() {
    let mut listing = vec![entry("a", 10, 1), entry("b", 20, 2)];
    let report = evict_to_size(&mut listing, 30, |_| panic!("within the limit")).unwrap();
    assert_eq!(report.attempts, 0);
    assert_eq!(report.removed, vec![false, false]);
    assert_eq!(names(&listing), vec!["a", "b"]);
}

#[test]
fn evict_removes_oldest_until_enough_is_freed() {
    let mut listing =
        vec![entry("newest", 40, 9), entry("oldest", 10, 1), entry("middle", 30, 5)];
    let report = evict_to_size(&mut listing, 50, |_| true).unwrap();
    assert_eq!(report.order, vec![1, 2, 0]);
    assert_eq!(report.attempts, 2);
    assert_eq!(report.freed, 40);
    assert_eq!(report.removed, vec![false, true, true]);
    assert_eq!(names(&listing), vec!["newest"]);
    assert!(calculate_cache_size(&listing).unwrap() <= 50);
}

#[test]
fn evict_stops_as_soon_as_the_target_is_met() {
    let mut listing = vec![entry("a", 10, 1), entry("b", 10, 2), entry("c", 10, 3)];
    let report = evict_to_size(&mut listing, 25, |_| true).unwrap();
    assert_eq!(report.attempts, 1);
    assert_eq!(report.freed, 10);
    assert_eq!(names(&listing), vec!["b", "c"]);
}

#[test]
fn evict_single_oversized_file_goes_whole() {
    let mut listing = vec![entry("huge", 100, 1)];
    let report = evict_to_size(&mut listing, 60, |_| true).unwrap();
    assert_eq!(report.freed, 100);
    assert!(listing.is_empty());
    assert_eq!(calculate_cache_size(&listing).unwrap(), 0);
}

#[test]
fn evict_skips_files_that_cannot_be_removed() {
    let mut listing = vec![entry("stuck", 50, 1), entry("b", 20, 2), entry("c", 20, 3)];
    let report = evict_to_size(&mut listing, 60, |e| e.name != "stuck").unwrap();
    // target is 30: "stuck" fails and is not counted, then b and c go.
    assert_eq!(report.attempts, 3);
    assert_eq!(report.freed, 40);
    assert_eq!(report.removed, vec![false, true, true]);
    assert_eq!(names(&listing), vec!["stuck"]);
}

#[test]
fn evict_may_miss_the_limit_when_removal_fails() {
    let mut listing = vec![entry("stuck", 10, 1)];
    let report = evict_to_size(&mut listing, 5, |_| false).unwrap();
    assert_eq!(report.attempts, 1);
    assert_eq!(report.freed, 0);
    assert_eq!(calculate_cache_size(&listing).unwrap(), 10);
}

#[test]
fn evict_copes_with_sizes_beyond_64_bits() {
    let mut listing = vec![entry("a", u64::MAX, 1), entry("b", 5, 2)];
    assert!(matches!(calculate_cache_size(&listing), Err(CacheError::SizeOverflow)));
    let report = evict_to_size(&mut listing, 5, |_| true).unwrap();
    assert_eq!(report.freed, u64::MAX as u128);
    assert_eq!(report.attempts, 1);
    assert_eq!(names(&listing), vec!["b"]);

    let mut listing = vec![entry("a", u64::MAX, 3), entry("b", u64::MAX, 2), entry("c", u64::MAX, 1)];
    let report = evict_to_size(&mut listing, u64::MAX, |_| true).unwrap();
    assert_eq!(report.freed, 2 * (u64::MAX as u128));
    assert_eq!(names(&listing), vec!["a"]);
}

#[test]
fn the_file_that_was_hit_last_outlives_the_others() {
    let mut listing = vec![entry("old", 30, 5), entry("hit", 40, 1), entry("mid", 30, 7)];
    let path = get_cached_image(&mut listing, "/cache/images", "hit", 100);
    assert_eq!(path, Some("/cache/images/hit".to_string()));
    assert_eq!(listing[1].modified, 100);
    let report = evict_to_size(&mut listing, 40, |_| true).unwrap();
    assert_eq!(report.freed, 60);
    assert_eq!(names(&listing), vec!["hit"]);
    assert_eq!(listing[0].size, 40);
    // a file that does not fit the limit by itself goes too
    let mut listing = vec![entry("old", 30, 5), entry("hit", 40, 1)];
    get_cached_image(&mut listing, "/cache/images", "hit", 100);
    evict_to_size(&mut listing, 39, |_| true).unwrap();
    assert!(listing.is_empty());
}

#[test]
fn clear_removes_everything() {
    let mut listing = vec![entry("a", 1, 1), entry("b", 2, 2)];
    assert!(clear_cache(&mut listing, |_| true).is_ok());
    assert!(listing.is_empty());
}

#[test]
fn clear_tallies_failures_after_trying_all() {
    let mut listing = vec![entry("a", 1, 1), entry("keep1", 2, 2), entry("b", 3, 3), entry("keep2", 4, 4)];
    let result = clear_cache(&mut listing, |e| !e.name.starts_with("keep"));
    assert!(matches!(result, Err(CacheError::RemoveFailed { failed: 2 })));
    assert_eq!(names(&listing), vec!["keep1", "keep2"]);
}

#[test]
fn lookup_hit_returns_path_and_refreshes_timestamp() {
    let mut listing = vec![entry("a.img", 1, 10), entry("b.img", 2, 20)];
    let path = get_cached_image(&mut listing, "/cache/images", "a.img", 99);
    assert_eq!(path, Some("/cache/images/a.img".to_string()));
    assert_eq!(listing[0].modified, 99);
    assert_eq!(listing[1].modified, 20);
    assert_eq!(listing[0].size, 1);
}

#[test]
fn lookup_miss_changes_nothing() {
    let mut listing = vec![entry("a.img", 1, 10)];
    assert_eq!(get_cached_image(&mut listing, "/cache/images", "zzz.img", 99), None);
    assert_eq!(listing[0].modified, 10);
}

#[test]
fn repeated_lookup_same_result_and_hit_file_is_evicted_last() {
    let mut listing = vec![entry("a", 10, 1), entry("b", 10, 2), entry("c", 10, 3)];
    let first = get_cached_image(&mut listing, "d", "a", 4);
    let second = get_cached_image(&mut listing, "d", "a", 5);
    assert_eq!(first, second);
    assert_eq!(listing[0].modified, 5);
    assert_eq!(get_cached_files_by_age(&listing), vec![1, 2, 0]);
    let report = evict_to_size(&mut listing, 10, |_| true).unwrap();
    assert_eq!(report.freed, 20);
    assert_eq!(names(&listing), vec!["a"]);
}

#[test]
fn lookups_between_removals_never_see_a_half_deleted_file() {
    // The listing is owned exclusively by whoever works on it, so a lookup
    // runs either before or after a removal, and sees the file whole or not
    // at all.
    let mut listing = vec![entry("a", 10, 1), entry("b", 10, 2)];
    let before_1 = get_cached_image(&mut listing, "d", "a", 3);
    let before_2 = get_cached_image(&mut listing, "d", "a", 3);
    assert_eq!(before_1, Some("d/a".to_string()));
    assert_eq!(before_1, before_2);
    assert_eq!(listing[0].size, 10);
    evict_to_size(&mut listing, 0, |_| true).unwrap();
    let after_1 = get_cached_image(&mut listing, "d", "a", 4);
    let after_2 = get_cached_image(&mut listing, "d", "a", 4);
    assert_eq!(after_1, None);
    assert_eq!(after_2, None);
}

#[test]
fn images_dir_is_below_the_cache_root() {
    assert_eq!(get_images_cache_dir("/home/u/.cache/armbian-imager"), "/home/u/.cache/armbian-imager/images");
}

#[test]
fn partial_downloads_are_told_by_their_suffix() {
    assert!(is_partial_download("a.img.xz.downloading"));
    assert!(is_partial_download(".downloading"));
    assert!(!is_partial_download("a.img.xz"));
    assert!(!is_partial_download("a.downloading.img"));
    assert!(!is_partial_download("downloading"));
    assert!(!is_partial_download(""));
}

#[test]
fn only_files_inside_the_cache_may_be_deleted() {
    assert!(may_delete("/home/u/.cache/armbian-imager/images/a.img", "/home/u/.cache/armbian-imager"));
    assert!(may_delete("/home/u/.cache/armbian-imager", "/home/u/.cache/armbian-imager"));
    assert!(may_delete("/c/a.img", "/c/"));
    assert!(!may_delete("/home/u/.cache/armbian-imager-old/a.img", "/home/u/.cache/armbian-imager"));
    assert!(!may_delete("/etc/passwd", "/home/u/.cache/armbian-imager"));
    assert!(!may_delete("", "/c"));
    assert!(!may_delete("/c/a.img", ""));
    assert!(!may_delete("/c", "/c/a.img"));
}
