use slate_framework::image_cache::{AtlasSlot, ImageCache, UploadStep};

fn slot(alloc_id: u64, token: u64) -> AtlasSlot {
    AtlasSlot { alloc_id, token }
}

#[test]
fn new_cache_is_empty() {
    let cache = ImageCache::new();
    assert_eq!(cache.len(), 0);
}

#[test]
fn clear_allocations_preserves_entries() {
    let mut cache = ImageCache::new();
    let key = (12345u64, 1u32, 1u32);
    assert_eq!(cache.begin_upload(key, false), UploadStep::Insert);
    assert!(!cache.finish_upload(key, vec![255u8; 4], Some(slot(1, 1))));
    assert_eq!(cache.len(), 1);

    cache.clear_allocations();
    assert_eq!(cache.len(), 1); // Entry preserved
    assert_eq!(cache.cached_slot(key), None);
    assert_eq!(cache.pixels(key), Some(&vec![255u8; 4]));
}

#[test]
fn live_slot_is_a_hit_without_reallocation() {
    let mut cache = ImageCache::new();
    let key = (0xBEEF, 256, 256);
    assert_eq!(cache.begin_upload(key, false), UploadStep::Insert);
    cache.finish_upload(key, vec![7u8; 16], Some(slot(3, 10)));
    assert_eq!(cache.cached_slot(key), Some(slot(3, 10)));
    assert_eq!(cache.begin_upload(key, true), UploadStep::Hit(slot(3, 10)));
    assert_eq!(cache.cached_slot(key), Some(slot(3, 10)));
}

#[test]
fn evicted_slot_is_dropped_and_reuploaded_from_kept_pixels() {
    let mut cache = ImageCache::new();
    let key = (0xA11CE, 256, 256);
    cache.finish_upload(key, vec![10u8; 8], Some(slot(5, 1)));
    assert_eq!(cache.begin_upload(key, false), UploadStep::Reupload);
    assert_eq!(cache.cached_slot(key), None, "stale handle dropped");
    assert_eq!(cache.pixels(key), Some(&vec![10u8; 8]));
    cache.finish_upload(key, Vec::new(), Some(slot(5, 2)));
    assert_eq!(cache.cached_slot(key), Some(slot(5, 2)), "fresh token");
    assert_eq!(cache.pixels(key), Some(&vec![10u8; 8]), "kept pixels stay");
    assert_eq!(cache.len(), 1);
}

#[test]
fn same_hash_other_size_is_another_image() {
    let mut cache = ImageCache::new();
    cache.finish_upload((9, 1, 1), vec![1u8; 4], Some(slot(1, 1)));
    assert_eq!(cache.begin_upload((9, 2, 1), true), UploadStep::Insert);
    cache.finish_upload((9, 2, 1), vec![2u8; 8], Some(slot(2, 2)));
    assert_eq!(cache.len(), 2);
    assert_eq!(cache.cached_slot((9, 1, 1)), Some(slot(1, 1)));
}

#[test]
fn out_of_memory_is_reported_once_until_cleared() {
    let mut cache = ImageCache::new();
    let key = (1, 1, 1);
    assert!(cache.finish_upload(key, vec![0u8; 4], None), "first failure reported");
    assert!(!cache.finish_upload(key, vec![0u8; 4], None), "later failures are not");
    assert_eq!(cache.len(), 0, "nothing cached on failure");
    cache.clear_allocations();
    assert!(cache.finish_upload(key, vec![0u8; 4], None), "reported again after a clear");
}
