use hummock::managed_lru::{new_unbounded, ManagedLruCache, KEY_SIZE, REPORT_SIZE_THRESHOLD_BYTES};
use std::sync::atomic::{AtomicU64, Ordering};
use std::sync::Arc;

fn cache_with_watermark(w: u64) -> (ManagedLruCache, Arc<AtomicU64>) {
    let watermark = Arc::new(AtomicU64::new(w));
    (new_unbounded(watermark.clone()), watermark)
}

#[test]
fn test_evict_removes_all_entries_below_watermark() {
    let (mut cache, watermark) = cache_with_watermark(0);
    cache.update_epoch(5);
    for k in 0..16u64 {
        assert_eq!(cache.put(k, vec![k as u8; 3]), None);
    }
    // use them in another order: recency does not save an entry
    cache.update_epoch(5);
    for k in [3u64, 1, 15, 7] {
        assert!(cache.get(&k).is_some());
    }
    cache.evict();
    assert_eq!(cache.len(), 16);
    watermark.store(6, Ordering::Relaxed);
    cache.evict();
    assert!(cache.is_empty());
    assert_eq!(cache.len(), 0);
    assert_eq!(cache.kv_heap_size(), 0);
}

#[test]
fn test_evict_except_cur_epoch_keeps_current_entries() {
    let (mut cache, watermark) = cache_with_watermark(0);
    cache.update_epoch(1);
    cache.put(1, b"one".to_vec());
    cache.put(2, b"two".to_vec());
    cache.update_epoch(2);
    cache.put(3, b"three".to_vec());
    assert!(cache.get(&1).is_some());
    watermark.store(100, Ordering::Relaxed);
    cache.evict_except_cur_epoch();
    assert_eq!(cache.len(), 2);
    assert!(cache.contains(&1));
    assert!(!cache.contains(&2));
    assert!(cache.contains(&3));
    cache.evict();
    assert!(cache.is_empty());
}

#[test]
fn test_evict_takes_stale_entries_however_recently_used() {
    let (mut cache, _w) = cache_with_watermark(0);
    cache.update_epoch(1);
    cache.put(1, vec![]);
    cache.put(2, vec![]);
    cache.update_epoch(9);
    cache.put(3, vec![]);
    cache.update_epoch(9);
    // peeking touches nothing: entry 1 stays stale, though it was looked at last
    assert!(cache.peek_mut(&1).is_some());
    assert!(cache.contains(&1));
    cache.evict_by_epoch(5);
    assert_eq!(cache.len(), 1);
    assert!(cache.contains(&3));
    assert!(!cache.contains(&1));
    assert!(!cache.contains(&2));
    // an entry that is touched takes the current epoch and stays
    cache.update_epoch(12);
    cache.put(4, vec![]);
    assert!(cache.get(&3).is_some());
    cache.evict_by_epoch(12);
    assert_eq!(cache.len(), 2);
    cache.evict_by_epoch(13);
    assert!(cache.is_empty());
}

#[test]
fn test_put_get_push_and_sizes() {
    let (mut cache, _w) = cache_with_watermark(0);
    assert_eq!(cache.current_epoch(), 0);
    assert_eq!(cache.put(7, vec![1, 2, 3]), None);
    assert_eq!(cache.kv_heap_size(), KEY_SIZE + 3);
    assert_eq!(cache.put(7, vec![4; 10]), Some(vec![1, 2, 3]));
    assert_eq!(cache.kv_heap_size(), KEY_SIZE + 10);
    assert_eq!(cache.get(&7), Some(vec![4; 10]));
    assert_eq!(cache.get(&8), None);
    assert_eq!(cache.push(8, vec![9]), None);
    assert_eq!(cache.push(8, vec![]), Some((8, vec![9])));
    assert_eq!(cache.kv_heap_size(), 2 * KEY_SIZE + 10);
    assert_eq!(cache.values(), vec![vec![], vec![4u8; 10]]);
    assert!(cache.get(&7).is_some());
    assert_eq!(cache.values(), vec![vec![4u8; 10], vec![]]);
    cache.clear();
    assert!(cache.is_empty());
    assert_eq!(cache.len(), 0);
    assert_eq!(cache.kv_heap_size(), 0);
}

#[test]
fn test_clear_reports_the_fall_of_the_estimate() {
    let (mut cache, _w) = cache_with_watermark(0);
    cache.put(1, vec![0; REPORT_SIZE_THRESHOLD_BYTES]);
    let size = KEY_SIZE + REPORT_SIZE_THRESHOLD_BYTES;
    assert_eq!(cache.kv_heap_size(), size);
    assert_eq!(cache.memory_usage_metrics(), size);
    cache.clear();
    assert!(cache.is_empty());
    assert_eq!(cache.kv_heap_size(), 0);
    assert_eq!(cache.memory_usage_metrics(), 0);
    // a small cache that is cleared moves the estimate too little to report
    cache.put(2, vec![0; REPORT_SIZE_THRESHOLD_BYTES]);
    cache.put(3, vec![0; 10]);
    cache.clear();
    cache.put(4, vec![0; 10]);
    cache.clear();
    assert_eq!(cache.kv_heap_size(), 0);
    assert_eq!(cache.memory_usage_metrics(), 0);
}

#[test]
fn test_metric_is_reported_only_past_the_threshold() {
    let (mut cache, _w) = cache_with_watermark(0);
    cache.put(1, vec![0; 100]);
    assert_eq!(cache.memory_usage_metrics(), 0);
    cache.put(2, vec![0; REPORT_SIZE_THRESHOLD_BYTES]);
    let size = 2 * KEY_SIZE + 100 + REPORT_SIZE_THRESHOLD_BYTES;
    assert_eq!(cache.kv_heap_size(), size);
    assert_eq!(cache.memory_usage_metrics(), size);
    cache.put(3, vec![0; 5]);
    assert_eq!(cache.memory_usage_metrics(), size);
    assert_eq!(REPORT_SIZE_THRESHOLD_BYTES, 4096 << 10);
}

#[test]
fn test_mut_guard_corrects_the_size() {
    let (mut cache, watermark) = cache_with_watermark(0);
    cache.update_epoch(1);
    cache.put(1, vec![1; 4]);
    cache.put(2, vec![2; 4]);
    cache.update_epoch(2);
    {
        let mut guard = cache.peek_mut(&1).unwrap();
        assert_eq!(guard.value(), &vec![1u8; 4]);
        guard.set(vec![7; 20]);
        guard.commit();
    }
    assert_eq!(cache.kv_heap_size(), 2 * KEY_SIZE + 4 + 20);
    // peeking did not touch the entry: it is still the least recently used, of epoch 1
    assert_eq!(cache.values(), vec![vec![2u8; 4], vec![7u8; 20]]);
    {
        let mut guard = cache.get_mut(&1).unwrap();
        guard.set(vec![]);
        guard.commit();
    }
    assert_eq!(cache.kv_heap_size(), 2 * KEY_SIZE + 4);
    assert_eq!(cache.values(), vec![vec![], vec![2u8; 4]]);
    assert!(cache.get_mut(&9).is_none());
    assert!(cache.peek_mut(&9).is_none());
    // a guard that is dropped changes nothing
    {
        let mut guard = cache.get_mut(&2).unwrap();
        guard.set(vec![1; 100]);
    }
    assert_eq!(cache.get(&2), Some(vec![2u8; 4]));
    watermark.store(2, Ordering::Relaxed);
    cache.evict();
    assert_eq!(cache.len(), 2);
    watermark.store(3, Ordering::Relaxed);
    cache.evict();
    assert_eq!(cache.len(), 0);
}

#[test]
fn test_evict_in_epoch_order_leaves_exactly_the_fresh_entries() {
    let (mut cache, watermark) = cache_with_watermark(0);
    for epoch in 1..=6u64 {
        cache.update_epoch(epoch);
        cache.put(epoch * 10, vec![epoch as u8]);
        cache.put(epoch * 10 + 1, vec![epoch as u8; 2]);
    }
    // touching moves an entry to the current epoch
    assert!(cache.get(&10).is_some());
    cache.evict_by_epoch(4);
    assert_eq!(cache.len(), 7);
    for key in [40u64, 41, 50, 51, 60, 61, 10] {
        assert!(cache.contains(&key));
    }
    for key in [11u64, 20, 21, 30, 31] {
        assert!(!cache.contains(&key));
    }
    assert_eq!(
        cache.values(),
        vec![vec![1u8], vec![6, 6], vec![6], vec![5, 5], vec![5], vec![4, 4], vec![4]]
    );
    // the watermark lies above the current epoch: only the current entries stay
    watermark.store(100, Ordering::Relaxed);
    cache.evict_except_cur_epoch();
    assert_eq!(cache.values(), vec![vec![1u8], vec![6, 6], vec![6]]);
    assert_eq!(cache.kv_heap_size(), 3 * KEY_SIZE + 4);
}
