//! The quota of memory that compaction tasks share.
//!
//! A task asks for quota before it allocates a buffer and gives the quota
//! back when the buffer is gone. The limiter only decides: a request is
//! granted, has to wait for quota to come back, or can never be granted.
//! Waiting itself is the caller's business.

use crate::error::HummockError;
use vstd::prelude::*;

verus! {

/// A limiter of outstanding memory.
pub struct MemoryLimiter {
    quota: u64,
    total_size: u64,
}

/// The quota that one request was granted. Giving it back to the limiter
/// releases the quota.
pub struct MemoryTracker {
    quota: u64,
}

/// What the limiter says to a request.
pub enum Acquire {
    /// The quota was granted.
    Granted(MemoryTracker),
    /// The quota is not available now; it will be once others have released
    /// theirs.
    Wait,
}

impl MemoryTracker {
    /// The bytes that were granted.
    pub closed spec fn spec_quota(&self) -> u64 {
        self.quota
    }

    /// The bytes that were granted.
    pub fn quota(&self) -> (r: u64)
        ensures
            r == self.spec_quota(),
    {
        self.quota
    }
}

impl MemoryLimiter {
    /// The bytes that may be outstanding at once.
    pub closed spec fn spec_quota(&self) -> u64 {
        self.quota
    }

    /// The bytes that are outstanding.
    pub closed spec fn spec_memory_usage(&self) -> u64 {
        self.total_size
    }

    /// The invariant: no more is outstanding than the limit allows.
    pub open spec fn wf(&self) -> bool {
        self.spec_memory_usage() <= self.spec_quota()
    }

    /// A limiter of `quota` bytes with nothing outstanding.
    pub fn new(quota: u64) -> (r: Self)
        ensures
            r.wf(),
            r.spec_quota() == quota,
            r.spec_memory_usage() == 0,
    {
        MemoryLimiter { quota, total_size: 0 }
    }

    /// A limiter that every request passes.
    pub fn unlimit() -> (r: Self)
        ensures
            r.wf(),
            r.spec_quota() == u64::MAX,
            r.spec_memory_usage() == 0,
    {
        Self::new(u64::MAX)
    }

    /// The bytes that may be outstanding at once.
    pub fn quota(&self) -> (r: u64)
        ensures
            r == self.spec_quota(),
    {
        self.quota
    }

    /// The bytes that are outstanding.
    pub fn get_memory_usage(&self) -> (r: u64)
        ensures
            r == self.spec_memory_usage(),
    {
        self.total_size
    }

    /// Grants `quota` bytes if that many are available, and leaves the
    /// limiter as it is if not.
    pub fn try_require_memory(&mut self, quota: u64) -> (r: Option<MemoryTracker>)
        requires
            old(self).wf(),
        ensures
            final(self).wf(),
            final(self).spec_quota() == old(self).spec_quota(),
            final(self).spec_memory_usage() == spec_step(
                old(self).spec_quota(),
                old(self).spec_memory_usage(),
                LimiterEvent::Require(quota),
            ),
            match r {
                Some(tracker) => {
                    &&& spec_grants(old(self).spec_quota(), old(self).spec_memory_usage(), quota)
                    &&& tracker.spec_quota() == quota
                },
                None => !spec_grants(old(self).spec_quota(), old(self).spec_memory_usage(), quota),
            },
    {
        if quota <= self.quota - self.total_size {
            self.total_size = self.total_size + quota;
            Some(MemoryTracker { quota })
        } else {
            None
        }
    }

    /// Answers a request for `quota` bytes: granted if that many are
    /// available; to wait if they are not but can be; and an error if the
    /// request is larger than the limit, so that waiting would never end.
    pub fn require_memory(&mut self, quota: u64) -> (r: Result<Acquire, HummockError>)
        requires
            old(self).wf(),
        ensures
            final(self).wf(),
            final(self).spec_quota() == old(self).spec_quota(),
            final(self).spec_memory_usage() == spec_step(
                old(self).spec_quota(),
                old(self).spec_memory_usage(),
                LimiterEvent::Require(quota),
            ),
            match r {
                Ok(Acquire::Granted(tracker)) => {
                    &&& spec_grants(old(self).spec_quota(), old(self).spec_memory_usage(), quota)
                    &&& tracker.spec_quota() == quota
                },
                Ok(Acquire::Wait) => {
                    &&& quota <= old(self).spec_quota()
                    &&& !spec_grants(old(self).spec_quota(), old(self).spec_memory_usage(), quota)
                },
                Err(e) => {
                    &&& quota > old(self).spec_quota()
                    &&& e == (HummockError::ResourceExhausted {
                        requested: quota,
                        limit: old(self).spec_quota(),
                    })
                },
            },
    {
        if quota > self.quota {
            return Err(HummockError::ResourceExhausted { requested: quota, limit: self.quota });
        }
        match self.try_require_memory(quota) {
            Some(tracker) => Ok(Acquire::Granted(tracker)),
            None => Ok(Acquire::Wait),
        }
    }

    /// Whether `tracker` can be one of this limiter's: it holds no more
    /// than is outstanding.
    pub fn can_release(&self, tracker: &MemoryTracker) -> (r: bool)
        ensures
            r == (tracker.spec_quota() <= self.spec_memory_usage()),
    {
        tracker.quota <= self.total_size
    }

    /// Takes back the quota that `tracker` was granted.
    pub fn release(&mut self, tracker: MemoryTracker)
        requires
            old(self).wf(),
            tracker.spec_quota() <= old(self).spec_memory_usage(),
        ensures
            final(self).wf(),
            final(self).spec_quota() == old(self).spec_quota(),
            final(self).spec_memory_usage() == spec_step(
                old(self).spec_quota(),
                old(self).spec_memory_usage(),
                LimiterEvent::Release(tracker.spec_quota()),
            ),
    {
        self.total_size = self.total_size - tracker.quota;
    }
}

/// The least that a compactor's memory limit must exceed: twice the size of
/// a table file and a block.
pub open spec fn spec_min_compactor_memory_limit_bytes(
    sstable_size_mb: u32,
    block_size_kb: u32,
) -> int {
    2 * (sstable_size_mb * 0x10_0000 + block_size_kb * 0x400)
}

/// Whether a compactor with this memory limit can always go on: one table
/// file under construction, with its block, fits twice, and more.
pub fn is_memory_limit_sufficient(
    compactor_memory_limit_bytes: u64,
    sstable_size_mb: u32,
    block_size_kb: u32,
) -> (r: bool)
    ensures
        r == (compactor_memory_limit_bytes > spec_min_compactor_memory_limit_bytes(
            sstable_size_mb,
            block_size_kb,
        )),
{
    let sstable: u64 = sstable_size_mb as u64;
    let block: u64 = block_size_kb as u64;
    let min_compactor_memory_limit_bytes: u64 = sstable * 0x10_0000 + block * 0x400;
    compactor_memory_limit_bytes > min_compactor_memory_limit_bytes * 2
}

/// The memory limit of a compactor: what the configuration sets, in MiB, or
/// else what is left of the available memory behind the cache of table file
/// metadata.
pub open spec fn spec_compactor_memory_limit_bytes(
    compactor_memory_limit_mb: Option<u32>,
    total_memory_available_bytes: u64,
    meta_cache_capacity_bytes: u64,
) -> int {
    match compactor_memory_limit_mb {
        Some(mb) => mb * 0x10_0000,
        None => total_memory_available_bytes - meta_cache_capacity_bytes,
    }
}

/// The memory limit of a compactor: what the configuration sets, in MiB, or
/// else what is left of the available memory behind the cache of table file
/// metadata.
pub fn compactor_memory_limit_bytes(
    compactor_memory_limit_mb: Option<u32>,
    total_memory_available_bytes: u64,
    meta_cache_capacity_bytes: u64,
) -> (r: u64)
    requires
        compactor_memory_limit_mb is None ==> meta_cache_capacity_bytes
            <= total_memory_available_bytes,
    ensures
        r == spec_compactor_memory_limit_bytes(
            compactor_memory_limit_mb,
            total_memory_available_bytes,
            meta_cache_capacity_bytes,
        ),
{
    match compactor_memory_limit_mb {
        Some(compactor_memory_limit_mb) => {
            let mb: u64 = compactor_memory_limit_mb as u64;
            mb * 0x10_0000
        },
        None => total_memory_available_bytes - meta_cache_capacity_bytes,
    }
}

/// What a limiter sees: a request for so many bytes, or the release of so
/// many.
#[derive(Clone, Copy, Debug, PartialEq, Eq, Structural)]
pub enum LimiterEvent {
    Require(u64),
    Release(u64),
}

/// Whether a limiter of `quota` bytes with `total_size` outstanding grants
/// a request for `request` bytes.
pub open spec fn spec_grants(quota: u64, total_size: u64, request: u64) -> bool {
    total_size + request <= quota
}

/// The bytes outstanding after an event: a request that is granted adds its
/// bytes, one that is not adds nothing; a release takes its bytes off.
pub open spec fn spec_step(quota: u64, total_size: u64, event: LimiterEvent) -> u64 {
    match event {
        LimiterEvent::Require(request) => if spec_grants(quota, total_size, request) {
            (total_size + request) as u64
        } else {
            total_size
        },
        LimiterEvent::Release(released) => if released <= total_size {
            (total_size - released) as u64
        } else {
            total_size
        },
    }
}

/// The bytes outstanding after a new limiter has seen `events` in turn.
pub open spec fn spec_run(quota: u64, events: Seq<LimiterEvent>) -> u64
    decreases events.len(),
{
    if events.len() == 0 {
        0
    } else {
        spec_step(quota, spec_run(quota, events.drop_last()), events.last())
    }
}

/// Outstanding memory stays within the limit: whatever requests and
/// releases a limiter has seen, in whatever order, the bytes outstanding do
/// not exceed its quota.
pub proof fn lemma_outstanding_never_exceeds_limit(quota: u64, events: Seq<LimiterEvent>)
    ensures
        spec_run(quota, events) <= quota,
    decreases events.len(),
{
    if events.len() > 0 {
        lemma_outstanding_never_exceeds_limit(quota, events.drop_last());
    }
}

/// No request waits forever: a request that is no larger than the quota is
/// granted once everything that was granted has been released.
pub proof fn lemma_request_within_quota_is_granted_when_idle(quota: u64, request: u64)
    requires
        request <= quota,
    ensures
        spec_grants(quota, 0, request),
        spec_step(quota, 0, LimiterEvent::Require(request)) == request,
{
}

/// A release gives back what was granted: a request that is granted and
/// then released leaves as many bytes outstanding as before.
pub proof fn lemma_release_gives_back_what_was_granted(quota: u64, total_size: u64, request: u64)
    requires
        spec_grants(quota, total_size, request),
    ensures
        spec_step(
            quota,
            spec_step(quota, total_size, LimiterEvent::Require(request)),
            LimiterEvent::Release(request),
        ) == total_size,
{
}

/// The bytes of the permits together.
pub open spec fn spec_permits_total(permits: Seq<u64>) -> int
    decreases permits.len(),
{
    if permits.len() == 0 {
        0
    } else {
        spec_permits_total(permits.drop_last()) + permits.last()
    }
}

/// The bytes outstanding after each of the permits was released, the last
/// one first.
pub open spec fn spec_release_all(quota: u64, total_size: u64, permits: Seq<u64>) -> u64
    decreases permits.len(),
{
    if permits.len() == 0 {
        total_size
    } else {
        spec_release_all(
            quota,
            spec_step(quota, total_size, LimiterEvent::Release(permits.last())),
            permits.drop_last(),
        )
    }
}

/// A waiting request is served: where the bytes outstanding are those of
/// the permits that were granted, a request that is no larger than the
/// quota is granted after these permits, which are finitely many, have been
/// released, however many bytes were outstanding while it waited.
pub proof fn lemma_waiting_request_is_served(
    quota: u64,
    total_size: u64,
    permits: Seq<u64>,
    request: u64,
)
    requires
        total_size == spec_permits_total(permits),
        request <= quota,
    ensures
        spec_release_all(quota, total_size, permits) == 0,
        spec_grants(quota, spec_release_all(quota, total_size, permits), request),
    decreases permits.len(),
{
    if permits.len() > 0 {
        lemma_permits_total_is_no_less(permits.drop_last());
        lemma_waiting_request_is_served(
            quota,
            (total_size - permits.last()) as u64,
            permits.drop_last(),
            request,
        );
    }
}

/// The bytes of permits together are not negative.
proof fn lemma_permits_total_is_no_less(permits: Seq<u64>)
    ensures
        spec_permits_total(permits) >= 0,
    decreases permits.len(),
{
    if permits.len() > 0 {
        lemma_permits_total_is_no_less(permits.drop_last());
    }
}

} // verus!
