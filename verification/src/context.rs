//! What a compactor is configured with.

use crate::memory_limiter::{
    compactor_memory_limit_bytes, is_memory_limit_sufficient, spec_compactor_memory_limit_bytes,
    spec_min_compactor_memory_limit_bytes, MemoryLimiter,
};
use vstd::prelude::*;

verus! {

/// The options of the store that a compactor reads.
#[derive(Clone, Copy, Debug, PartialEq, Eq, Structural)]
pub struct StorageOpts {
    /// Target size of a table file, in MiB.
    pub sstable_size_mb: u32,
    /// Size of a block, in KiB.
    pub block_size_kb: u32,
    /// Capacity of the cache of table file metadata, in MiB.
    pub meta_cache_capacity_mb: u32,
    /// The memory limit of a compactor, in MiB, where one is set.
    pub compactor_memory_limit_mb: Option<u32>,
    /// Number of worker threads for compaction of the shared buffer; 0
    /// leaves the number to the runtime.
    pub share_buffer_compaction_worker_threads_number: u32,
    /// Number of ids to fetch from the metadata service at a time.
    pub sstable_id_remote_fetch_number: u32,
}

/// The context of a compactor.
pub struct CompactorContext {
    /// Storage options.
    pub storage_opts: StorageOpts,
    /// True if it is a memory compaction (from shared buffer).
    pub is_share_buffer_compact: bool,
    /// Number of worker threads, where it is fixed.
    pub compaction_executor_threads: Option<usize>,
    pub memory_limiter: MemoryLimiter,
    pub running_task_count: u32,
}

/// The number of worker threads that the options fix: none for 0.
pub open spec fn spec_executor_threads(worker_threads_number: u32) -> Option<usize> {
    if worker_threads_number == 0 {
        None
    } else {
        Some(worker_threads_number as usize)
    }
}

impl CompactorContext {
    /// The context for compaction of the shared buffer inside a compute
    /// node: memory is not limited.
    pub fn new_local_compact_context(storage_opts: StorageOpts) -> (r: Self)
        ensures
            r.storage_opts == storage_opts,
            r.is_share_buffer_compact,
            r.compaction_executor_threads == spec_executor_threads(
                storage_opts.share_buffer_compaction_worker_threads_number,
            ),
            r.memory_limiter.wf(),
            r.memory_limiter.spec_quota() == u64::MAX,
            r.memory_limiter.spec_memory_usage() == 0,
            r.running_task_count == 0,
    {
        let compaction_executor_threads =
            if storage_opts.share_buffer_compaction_worker_threads_number == 0 {
            None
        } else {
            Some(storage_opts.share_buffer_compaction_worker_threads_number as usize)
        };
        // not limit memory for local compact
        CompactorContext {
            storage_opts,
            is_share_buffer_compact: true,
            compaction_executor_threads,
            memory_limiter: MemoryLimiter::unlimit(),
            running_task_count: 0,
        }
    }

    /// The memory limit that a compactor node works under: what the options
    /// set, or else what is left of `total_memory_available_bytes` behind the
    /// cache of table file metadata.
    pub open spec fn spec_memory_limit(
        storage_opts: StorageOpts,
        total_memory_available_bytes: u64,
    ) -> int {
        spec_compactor_memory_limit_bytes(
            storage_opts.compactor_memory_limit_mb,
            total_memory_available_bytes,
            (storage_opts.meta_cache_capacity_mb * 0x10_0000) as u64,
        )
    }

    /// Whether a compactor node can be booted with these options: the
    /// memory that is left behind the cache of table file metadata is more
    /// than twice a table file and a block.
    pub open spec fn spec_bootable(
        storage_opts: StorageOpts,
        total_memory_available_bytes: u64,
    ) -> bool {
        &&& storage_opts.compactor_memory_limit_mb is None ==> storage_opts.meta_cache_capacity_mb
            * 0x10_0000 <= total_memory_available_bytes
        &&& Self::spec_memory_limit(storage_opts, total_memory_available_bytes)
            > spec_min_compactor_memory_limit_bytes(
            storage_opts.sstable_size_mb,
            storage_opts.block_size_kb,
        )
    }

    /// Whether a compactor node can be booted with these options.
    pub fn bootable(storage_opts: &StorageOpts, total_memory_available_bytes: u64) -> (r: bool)
        ensures
            r == Self::spec_bootable(*storage_opts, total_memory_available_bytes),
    {
        let mb: u64 = storage_opts.meta_cache_capacity_mb as u64;
        let meta_cache_capacity_bytes: u64 = mb * 0x10_0000;
        if storage_opts.compactor_memory_limit_mb.is_none() && meta_cache_capacity_bytes
            > total_memory_available_bytes {
            return false;
        }
        let limit = compactor_memory_limit_bytes(
            storage_opts.compactor_memory_limit_mb,
            total_memory_available_bytes,
            meta_cache_capacity_bytes,
        );
        is_memory_limit_sufficient(limit, storage_opts.sstable_size_mb, storage_opts.block_size_kb)
    }

    /// The context of a compactor node. The options must leave enough
    /// memory: a node that could not go on is not booted.
    pub fn for_compactor(storage_opts: StorageOpts, total_memory_available_bytes: u64) -> (r: Self)
        requires
            Self::spec_bootable(storage_opts, total_memory_available_bytes),
        ensures
            r.storage_opts == storage_opts,
            !r.is_share_buffer_compact,
            r.compaction_executor_threads is None,
            r.memory_limiter.wf(),
            r.memory_limiter.spec_quota() == Self::spec_memory_limit(
                storage_opts,
                total_memory_available_bytes,
            ),
            r.memory_limiter.spec_memory_usage() == 0,
            r.running_task_count == 0,
    {
        let mb: u64 = storage_opts.meta_cache_capacity_mb as u64;
        let limit = compactor_memory_limit_bytes(
            storage_opts.compactor_memory_limit_mb,
            total_memory_available_bytes,
            mb * 0x10_0000,
        );
        CompactorContext {
            storage_opts,
            is_share_buffer_compact: false,
            compaction_executor_threads: None,
            memory_limiter: MemoryLimiter::new(limit),
            running_task_count: 0,
        }
    }

    /// Counts a task that begins to run.
    pub fn task_started(&mut self)
        ensures
            final(self).running_task_count == old(self).running_task_count.saturating_add(1),
            final(self).storage_opts == old(self).storage_opts,
            final(self).is_share_buffer_compact == old(self).is_share_buffer_compact,
            final(self).compaction_executor_threads == old(self).compaction_executor_threads,
            final(self).memory_limiter == old(self).memory_limiter,
    {
        self.running_task_count = self.running_task_count.saturating_add(1);
    }

    /// Counts a task that has ended.
    pub fn task_ended(&mut self)
        ensures
            final(self).running_task_count == old(self).running_task_count.saturating_sub(1),
            final(self).storage_opts == old(self).storage_opts,
            final(self).is_share_buffer_compact == old(self).is_share_buffer_compact,
            final(self).compaction_executor_threads == old(self).compaction_executor_threads,
            final(self).memory_limiter == old(self).memory_limiter,
    {
        self.running_task_count = self.running_task_count.saturating_sub(1);
    }
}

} // verus!
