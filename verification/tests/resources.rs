use hummock::context::{CompactorContext, StorageOpts};
use hummock::error::HummockError;
use hummock::memory_limiter::{
    compactor_memory_limit_bytes, is_memory_limit_sufficient, Acquire, MemoryLimiter,
};
use hummock::object_id::{
    FetchedIds, NextObjectId, SstObjectIdRange, SstableObjectIdManager,
};

#[test]
fn test_limiter_never_grants_past_the_quota() {
    let mut limiter = MemoryLimiter::new(100);
    let a = limiter.try_require_memory(60).unwrap();
    assert_eq!(a.quota(), 60);
    assert!(limiter.try_require_memory(41).is_none());
    assert_eq!(limiter.get_memory_usage(), 60);
    let b = limiter.try_require_memory(40).unwrap();
    assert_eq!(limiter.get_memory_usage(), 100);
    assert!(limiter.try_require_memory(1).is_none());
    assert!(limiter.try_require_memory(0).is_some());
    assert!(limiter.can_release(&a));
    limiter.release(a);
    assert_eq!(limiter.get_memory_usage(), 40);
    assert!(limiter.try_require_memory(60).is_some());
    limiter.release(b);
    assert_eq!(limiter.quota(), 100);
}

#[test]
fn test_limiter_answers() {
    let mut limiter = MemoryLimiter::new(10);
    assert_eq!(
        limiter.require_memory(11).err(),
        Some(HummockError::ResourceExhausted { requested: 11, limit: 10 })
    );
    let t = match limiter.require_memory(10) {
        Ok(Acquire::Granted(t)) => t,
        _ => panic!("a request of the whole quota is granted to an idle limiter"),
    };
    assert!(matches!(limiter.require_memory(1), Ok(Acquire::Wait)));
    assert!(matches!(limiter.require_memory(10), Ok(Acquire::Wait)));
    limiter.release(t);
    assert!(matches!(limiter.require_memory(10), Ok(Acquire::Granted(_))));
    let mut unlimited = MemoryLimiter::unlimit();
    assert_eq!(unlimited.quota(), u64::MAX);
    assert!(matches!(unlimited.require_memory(u64::MAX), Ok(Acquire::Granted(_))));
    let other = MemoryLimiter::new(5);
    let mut third = MemoryLimiter::new(50);
    let big = third.try_require_memory(50).unwrap();
    assert!(!other.can_release(&big));
}

#[test]
fn test_memory_config() {
    // 1 MiB tables, 1 KiB blocks: the limit must exceed 2 * (1 MiB + 1 KiB)
    let min = 2 * ((1u64 << 20) + (1 << 10));
    assert!(!is_memory_limit_sufficient(min, 1, 1));
    assert!(is_memory_limit_sufficient(min + 1, 1, 1));
    assert_eq!(compactor_memory_limit_bytes(Some(512), 0, 0), 512 << 20);
    assert_eq!(compactor_memory_limit_bytes(None, 1000, 400), 600);
    let opts = StorageOpts {
        sstable_size_mb: 256,
        block_size_kb: 64,
        meta_cache_capacity_mb: 64,
        compactor_memory_limit_mb: None,
        share_buffer_compaction_worker_threads_number: 4,
        sstable_id_remote_fetch_number: 10,
    };
    assert!(!CompactorContext::bootable(&opts, 10 << 20));
    assert!(!CompactorContext::bootable(&opts, (64 << 20) + 2 * ((256 << 20) + (64 << 10))));
    let enough = (64 << 20) + 2 * ((256 << 20) + (64 << 10)) + 1;
    assert!(CompactorContext::bootable(&opts, enough));
    let ctx = CompactorContext::for_compactor(opts, enough);
    assert_eq!(ctx.memory_limiter.quota(), 2 * ((256 << 20) + (64 << 10)) + 1);
    assert!(!ctx.is_share_buffer_compact);
    let mut local = CompactorContext::new_local_compact_context(opts);
    assert!(local.is_share_buffer_compact);
    assert_eq!(local.compaction_executor_threads, Some(4));
    assert_eq!(local.memory_limiter.quota(), u64::MAX);
    local.task_started();
    local.task_started();
    local.task_ended();
    assert_eq!(local.running_task_count, 1);
    let none = CompactorContext::new_local_compact_context(StorageOpts {
        share_buffer_compaction_worker_threads_number: 0,
        ..opts
    });
    assert_eq!(none.compaction_executor_threads, None);
}

#[test]
fn test_object_ids_come_in_batches() {
    let mut manager = SstableObjectIdManager::new(3);
    assert_eq!(manager.get_new_sst_object_id(), NextObjectId::Fetch(3));
    assert_eq!(manager.add_fetched_ids(FetchedIds::Unreachable), Err(HummockError::Connectivity));
    assert_eq!(manager.get_new_sst_object_id(), NextObjectId::Fetch(3));
    assert_eq!(manager.add_fetched_ids(FetchedIds::Range(SstObjectIdRange::new(10, 13))), Ok(()));
    assert_eq!(manager.get_new_sst_object_id(), NextObjectId::Ready(10));
    assert_eq!(manager.get_new_sst_object_id(), NextObjectId::Ready(11));
    assert_eq!(manager.get_new_sst_object_id(), NextObjectId::Ready(12));
    assert_eq!(manager.get_new_sst_object_id(), NextObjectId::Fetch(3));
    // a batch that overlaps what was handed out is refused, and so is an empty one
    assert_eq!(
        manager.add_fetched_ids(FetchedIds::Range(SstObjectIdRange::new(12, 15))),
        Err(HummockError::ObjectIdMovesBackwards { expected_at_least: 13, found: 12 })
    );
    assert_eq!(
        manager.add_fetched_ids(FetchedIds::Range(SstObjectIdRange::new(20, 20))),
        Err(HummockError::ObjectIdMovesBackwards { expected_at_least: 13, found: 20 })
    );
    assert_eq!(manager.get_new_sst_object_id(), NextObjectId::Fetch(3));
    assert_eq!(manager.add_fetched_ids(FetchedIds::Range(SstObjectIdRange::new(13, 14))), Ok(()));
    assert_eq!(manager.get_new_sst_object_id(), NextObjectId::Ready(13));
    let mut range = SstObjectIdRange::new(1, 2);
    assert_eq!(range.peek_next_sst_object_id(), Some(1));
    assert_eq!(range.get_next_sst_object_id(), Some(1));
    assert_eq!(range.get_next_sst_object_id(), None);
    assert_eq!(range.peek_next_sst_object_id(), None);
}
