//! A cache whose memory is bounded by epoch.
//!
//! Every entry remembers the epoch at which it was last touched. The
//! current epoch only moves forward, so the entries stand in the order of
//! their epochs, and eviction, which takes entries from the least recently
//! used end for as long as their epoch lies below a watermark, takes every
//! entry below it. A memory manager moves the watermark forward. The
//! cache keeps an estimate of the bytes it holds, and reports the estimate
//! only when it has moved far enough from what was reported last.

use crate::lru_store::{
    lemma_position, lru_clear, lru_contains, lru_len, lru_peek, lru_peek_lru, lru_peek_mut,
    lru_pop_lru, lru_push, lru_unbounded, lru_values, spec_lru_cap, spec_lru_entries,
    spec_position,
};
use std::sync::atomic::{AtomicU64, Ordering};
use std::sync::Arc;
use vstd::prelude::*;

verus! {

/// The estimate is reported when it has moved by more than this many bytes
/// (4096 KiB).
pub const REPORT_SIZE_THRESHOLD_BYTES: usize = 4194304;

/// The bytes that a key counts for in the estimate.
pub const KEY_SIZE: usize = 8;

/// What a cache holds, as plain values.
pub struct ManagedLruCacheView {
    /// The entries as (key, epoch, bytes), the least recently used first.
    pub entries: Seq<(u64, u64, Seq<u8>)>,
    /// The epoch that touched entries get.
    pub current_epoch: u64,
    /// The estimate of the bytes held.
    pub kv_heap_size: usize,
    /// The estimate as it was reported last.
    pub last_reported_size_bytes: usize,
    /// What the memory usage metric shows.
    pub memory_usage_metrics: usize,
    /// The handle of the watermark that eviction reads. The memory manager
    /// holds the same handle and moves the watermark through it.
    pub watermark_epoch: Arc<AtomicU64>,
}

/// The bytes that an entry counts for in the estimate.
pub open spec fn spec_entry_size(value: Seq<u8>) -> usize {
    KEY_SIZE.saturating_add(value.len() as usize)
}

/// How far two sizes lie apart.
pub open spec fn spec_abs_diff(a: usize, b: usize) -> nat {
    if a >= b {
        (a - b) as nat
    } else {
        (b - a) as nat
    }
}

/// The cache after it had the chance to report: where the estimate has
/// moved by more than the threshold, the metric and the last report take it.
pub open spec fn spec_reported(c: ManagedLruCacheView) -> ManagedLruCacheView {
    if spec_abs_diff(c.kv_heap_size, c.last_reported_size_bytes) > REPORT_SIZE_THRESHOLD_BYTES {
        ManagedLruCacheView {
            last_reported_size_bytes: c.kv_heap_size,
            memory_usage_metrics: c.kv_heap_size,
            ..c
        }
    } else {
        c
    }
}

/// The cache after the estimate has grown by `size`, stopping at the
/// largest `usize`.
pub open spec fn spec_size_inc(c: ManagedLruCacheView, size: usize) -> ManagedLruCacheView {
    spec_reported(ManagedLruCacheView { kv_heap_size: c.kv_heap_size.saturating_add(size), ..c })
}

/// The cache after the estimate has shrunk by `size`, stopping at zero.
pub open spec fn spec_size_dec(c: ManagedLruCacheView, size: usize) -> ManagedLruCacheView {
    spec_reported(ManagedLruCacheView { kv_heap_size: c.kv_heap_size.saturating_sub(size), ..c })
}

/// The entries after `key` was pushed with `value` at `epoch`: an entry of
/// that key is replaced; without one, a cache that holds as many entries as
/// a `usize` counts loses its least recently used one; the new entry is the
/// most recently used.
pub open spec fn spec_entries_after_push(
    entries: Seq<(u64, u64, Seq<u8>)>,
    key: u64,
    epoch: u64,
    value: Seq<u8>,
) -> Seq<(u64, u64, Seq<u8>)> {
    let i = spec_position(entries, key);
    if i >= 0 {
        entries.remove(i).push((key, epoch, value))
    } else if entries.len() == usize::MAX {
        entries.skip(1).push((key, epoch, value))
    } else {
        entries.push((key, epoch, value))
    }
}

/// The cache after `put(key, value)`.
pub open spec fn spec_put(c: ManagedLruCacheView, key: u64, value: Seq<u8>) -> ManagedLruCacheView {
    let grown = spec_size_inc(c, spec_entry_size(value));
    let i = spec_position(c.entries, key);
    let sized = if i >= 0 {
        spec_size_dec(grown, spec_entry_size(c.entries[i].2))
    } else {
        grown
    };
    ManagedLruCacheView {
        entries: spec_entries_after_push(c.entries, key, c.current_epoch, value),
        ..sized
    }
}

/// The cache after `push(key, value)`.
pub open spec fn spec_push(c: ManagedLruCacheView, key: u64, value: Seq<u8>) -> ManagedLruCacheView {
    let grown = spec_size_inc(c, spec_entry_size(value));
    let i = spec_position(c.entries, key);
    let sized = if i >= 0 {
        spec_size_dec(grown, spec_entry_size(c.entries[i].2))
    } else if c.entries.len() == usize::MAX {
        spec_size_dec(grown, spec_entry_size(c.entries[0].2))
    } else {
        grown
    };
    ManagedLruCacheView {
        entries: spec_entries_after_push(c.entries, key, c.current_epoch, value),
        ..sized
    }
}

/// The entry that `push(key, value)` hands back: the one it replaced or
/// drove out.
pub open spec fn spec_pushed_out(c: ManagedLruCacheView, key: u64) -> Option<(u64, Seq<u8>)> {
    let i = spec_position(c.entries, key);
    if i >= 0 {
        Some((key, c.entries[i].2))
    } else if c.entries.len() == usize::MAX {
        Some((c.entries[0].0, c.entries[0].2))
    } else {
        None
    }
}

/// The entries after `key` was touched at `epoch`: its entry becomes the
/// most recently used and takes the epoch. Without such an entry nothing
/// changes.
pub open spec fn spec_touched(entries: Seq<(u64, u64, Seq<u8>)>, key: u64, epoch: u64) -> Seq<
    (u64, u64, Seq<u8>),
> {
    let i = spec_position(entries, key);
    if i >= 0 {
        entries.remove(i).push((key, epoch, entries[i].2))
    } else {
        entries
    }
}

/// The bytes under `key`, or `None` where no entry has the key.
pub open spec fn spec_lookup(entries: Seq<(u64, u64, Seq<u8>)>, key: u64) -> Option<Seq<u8>> {
    let i = spec_position(entries, key);
    if i >= 0 {
        Some(entries[i].2)
    } else {
        None
    }
}

/// How many entries, from the least recently used on, have an epoch below
/// `epoch` without a break.
pub open spec fn spec_stale_prefix(entries: Seq<(u64, u64, Seq<u8>)>, epoch: u64) -> nat
    decreases entries.len(),
{
    if entries.len() == 0 || entries[0].1 >= epoch {
        0
    } else {
        1 + spec_stale_prefix(entries.skip(1), epoch)
    }
}

/// The cache after eviction by `epoch`: entries leave from the least
/// recently used end for as long as their epoch lies below `epoch`; with
/// each the estimate shrinks, and may be reported.
pub open spec fn spec_evict(c: ManagedLruCacheView, epoch: u64) -> ManagedLruCacheView
    decreases c.entries.len(),
{
    if c.entries.len() == 0 || c.entries[0].1 >= epoch {
        c
    } else {
        spec_evict(
            spec_size_dec(
                ManagedLruCacheView { entries: c.entries.skip(1), ..c },
                spec_entry_size(c.entries[0].2),
            ),
            epoch,
        )
    }
}

/// The cache after a guard over the entry of `key` was committed with
/// `value`: the entry holds the value, at its place and with its epoch; the
/// estimate gives up the size that the value had when the guard was made and
/// takes the size it has now.
pub open spec fn spec_commit(
    c: ManagedLruCacheView,
    key: u64,
    value: Seq<u8>,
    original_val_size: usize,
) -> ManagedLruCacheView {
    let i = spec_position(c.entries, key);
    spec_reported(
        ManagedLruCacheView {
            entries: if i >= 0 {
                c.entries.update(i, (key, c.entries[i].1, value))
            } else {
                c.entries
            },
            kv_heap_size: c.kv_heap_size.saturating_sub(original_val_size).saturating_add(
                value.len() as usize,
            ),
            ..c
        },
    )
}

/// The cache after `clear`: no entry is left, the estimate is zero, and may
/// be reported.
pub open spec fn spec_cleared(c: ManagedLruCacheView) -> ManagedLruCacheView {
    spec_reported(ManagedLruCacheView { entries: Seq::empty(), kv_heap_size: 0, ..c })
}

/// The smaller of two epochs.
pub open spec fn spec_min(a: u64, b: u64) -> u64 {
    if a <= b {
        a
    } else {
        b
    }
}

/// No two entries have the same key.
pub open spec fn spec_keys_distinct(entries: Seq<(u64, u64, Seq<u8>)>) -> bool {
    forall|i: int, j: int| 0 <= i < j < entries.len() ==> entries[i].0 != entries[j].0
}

/// What eviction leaves: the entries behind the stale ones at the least
/// recently used end. The epoch that touched entries get stays.
pub proof fn lemma_evict_entries(c: ManagedLruCacheView, epoch: u64)
    ensures
        spec_stale_prefix(c.entries, epoch) <= c.entries.len(),
        spec_evict(c, epoch).entries == c.entries.skip(spec_stale_prefix(c.entries, epoch) as int),
        spec_evict(c, epoch).current_epoch == c.current_epoch,
        forall|i: int|
            0 <= i < spec_stale_prefix(c.entries, epoch) ==> (#[trigger] c.entries[i]).1 < epoch,
    decreases c.entries.len(),
{
    if c.entries.len() == 0 || c.entries[0].1 >= epoch {
        assert(c.entries.skip(0) =~= c.entries);
    } else {
        let next = spec_size_dec(
            ManagedLruCacheView { entries: c.entries.skip(1), ..c },
            spec_entry_size(c.entries[0].2),
        );
        lemma_evict_entries(next, epoch);
        let n = spec_stale_prefix(c.entries.skip(1), epoch);
        assert(c.entries.skip(1).skip(n as int) =~= c.entries.skip(n as int + 1));
        assert forall|i: int| 0 <= i < n + 1 implies (#[trigger] c.entries[i]).1 < epoch by {
            if i > 0 {
                assert(c.entries.skip(1)[i - 1] == c.entries[i]);
            }
        }
    }
}

/// Eviction by epoch: where every entry was last touched before `epoch`,
/// eviction by `epoch` leaves the cache empty, in whatever order the entries
/// were used.
pub proof fn lemma_evict_all_stale(c: ManagedLruCacheView, epoch: u64)
    requires
        forall|i: int| 0 <= i < c.entries.len() ==> (#[trigger] c.entries[i]).1 < epoch,
    ensures
        spec_evict(c, epoch).entries.len() == 0,
    decreases c.entries.len(),
{
    if c.entries.len() > 0 {
        let next = spec_size_dec(
            ManagedLruCacheView { entries: c.entries.skip(1), ..c },
            spec_entry_size(c.entries[0].2),
        );
        assert forall|i: int| 0 <= i < next.entries.len() implies (#[trigger] next.entries[i]).1
            < epoch by {
            assert(next.entries[i] == c.entries[i + 1]);
        }
        lemma_evict_all_stale(next, epoch);
    }
}

/// Entries of the current epoch stay: eviction by an epoch that is no
/// larger than the current one keeps every entry that was touched in the
/// current epoch.
pub proof fn lemma_evict_keeps_current(c: ManagedLruCacheView, epoch: u64, i: int)
    requires
        epoch <= c.current_epoch,
        0 <= i < c.entries.len(),
        c.entries[i].1 == c.current_epoch,
    ensures
        spec_evict(c, epoch).entries.contains(c.entries[i]),
{
    lemma_evict_entries(c, epoch);
    let n = spec_stale_prefix(c.entries, epoch) as int;
    if i < n {
        assert(c.entries[i].1 < epoch);
    }
    assert(c.entries.skip(n)[i - n] == c.entries[i]);
}

/// The epochs follow the use: from the least to the most recently used
/// entry no epoch falls, and none lies above the current epoch. Every cache
/// is in this state: its current epoch never moves back.
pub open spec fn spec_epochs_ascend(c: ManagedLruCacheView) -> bool {
    &&& forall|i: int, j: int|
        0 <= i <= j < c.entries.len() ==> c.entries[i].1 <= c.entries[j].1
    &&& forall|i: int| 0 <= i < c.entries.len() ==> (#[trigger] c.entries[i]).1 <= c.current_epoch
}

/// Whether an entry was last touched at `epoch` or later.
pub open spec fn spec_fresh(epoch: u64) -> spec_fn((u64, u64, Seq<u8>)) -> bool {
    |e: (u64, u64, Seq<u8>)| e.1 >= epoch
}

/// Whether the epochs follow the use hangs on the entries and the current
/// epoch alone.
proof fn lemma_order_of_same_entries(a: ManagedLruCacheView, b: ManagedLruCacheView)
    requires
        spec_epochs_ascend(a),
        a.entries == b.entries,
        a.current_epoch == b.current_epoch,
    ensures
        spec_epochs_ascend(b),
{
    assert forall|i: int, j: int| 0 <= i <= j < b.entries.len() implies b.entries[i].1
        <= b.entries[j].1 by {
        assert(a.entries[i].1 <= a.entries[j].1);
    }
    assert forall|i: int| 0 <= i < b.entries.len() implies (#[trigger] b.entries[i]).1
        <= b.current_epoch by {
        assert(a.entries[i].1 <= a.current_epoch);
    }
}

/// A cache without entries has its epochs in order.
pub proof fn lemma_empty_epochs_ascend(c: ManagedLruCacheView)
    requires
        c.entries.len() == 0,
    ensures
        spec_epochs_ascend(c),
{
}

/// Moving the current epoch forward keeps the epochs in order.
pub proof fn lemma_update_epoch_keeps_order(c: ManagedLruCacheView, epoch: u64)
    requires
        spec_epochs_ascend(c),
        epoch >= c.current_epoch,
    ensures
        spec_epochs_ascend(ManagedLruCacheView { current_epoch: epoch, ..c }),
{
}

/// Pushing an entry at the current epoch keeps the epochs in order.
proof fn lemma_entries_after_push_ascend(c: ManagedLruCacheView, key: u64, value: Seq<u8>)
    requires
        spec_epochs_ascend(c),
    ensures
        spec_epochs_ascend(
            ManagedLruCacheView {
                entries: spec_entries_after_push(c.entries, key, c.current_epoch, value),
                ..c
            },
        ),
{
    lemma_position(c.entries, key);
    let i = spec_position(c.entries, key);
    let after = spec_entries_after_push(c.entries, key, c.current_epoch, value);
    assert forall|a: int| 0 <= a < after.len() - 1 implies #[trigger] after[a] == c.entries[if i
        >= 0 {
        if a < i {
            a
        } else {
            a + 1
        }
    } else if c.entries.len() == usize::MAX {
        a + 1
    } else {
        a
    }] by {}
    assert(after[after.len() - 1].1 == c.current_epoch);
}

/// `put` keeps the epochs in order.
pub proof fn lemma_put_keeps_order(c: ManagedLruCacheView, key: u64, value: Seq<u8>)
    requires
        spec_epochs_ascend(c),
    ensures
        spec_epochs_ascend(spec_put(c, key, value)),
{
    lemma_entries_after_push_ascend(c, key, value);
    let after = spec_put(c, key, value);
    assert(after.entries == spec_entries_after_push(c.entries, key, c.current_epoch, value));
    assert(after.current_epoch == c.current_epoch);
    let pushed = ManagedLruCacheView { entries: after.entries, ..c };
    assert(spec_epochs_ascend(pushed));
    assert forall|i: int| 0 <= i < after.entries.len() implies (#[trigger] after.entries[i]).1
        <= after.current_epoch by {
        assert(pushed.entries[i].1 <= pushed.current_epoch);
    }
    assert forall|i: int, j: int| 0 <= i <= j < after.entries.len() implies after.entries[i].1
        <= after.entries[j].1 by {
        assert(pushed.entries[i].1 <= pushed.entries[j].1);
    }
}

/// `push` keeps the epochs in order.
pub proof fn lemma_push_keeps_order(c: ManagedLruCacheView, key: u64, value: Seq<u8>)
    requires
        spec_epochs_ascend(c),
    ensures
        spec_epochs_ascend(spec_push(c, key, value)),
{
    lemma_entries_after_push_ascend(c, key, value);
    let after = spec_push(c, key, value);
    assert(after.entries == spec_entries_after_push(c.entries, key, c.current_epoch, value));
    assert(after.current_epoch == c.current_epoch);
    let pushed = ManagedLruCacheView { entries: after.entries, ..c };
    assert(spec_epochs_ascend(pushed));
    assert forall|i: int| 0 <= i < after.entries.len() implies (#[trigger] after.entries[i]).1
        <= after.current_epoch by {
        assert(pushed.entries[i].1 <= pushed.current_epoch);
    }
    assert forall|i: int, j: int| 0 <= i <= j < after.entries.len() implies after.entries[i].1
        <= after.entries[j].1 by {
        assert(pushed.entries[i].1 <= pushed.entries[j].1);
    }
}

/// Touching an entry, as `get` and `get_mut` do, keeps the epochs in order.
pub proof fn lemma_touch_keeps_order(c: ManagedLruCacheView, key: u64)
    requires
        spec_epochs_ascend(c),
    ensures
        spec_epochs_ascend(
            ManagedLruCacheView {
                entries: spec_touched(c.entries, key, c.current_epoch),
                ..c
            },
        ),
{
    lemma_position(c.entries, key);
    let i = spec_position(c.entries, key);
    if i >= 0 {
        lemma_entries_after_push_ascend(c, key, c.entries[i].2);
    }
}

/// Committing a guard keeps the epochs in order: the entry keeps its
/// epoch.
pub proof fn lemma_commit_keeps_order(
    c: ManagedLruCacheView,
    key: u64,
    value: Seq<u8>,
    original_val_size: usize,
)
    requires
        spec_epochs_ascend(c),
    ensures
        spec_epochs_ascend(spec_commit(c, key, value, original_val_size)),
{
    lemma_position(c.entries, key);
}

/// Eviction and `clear` keep the epochs in order.
pub proof fn lemma_evict_keeps_order(c: ManagedLruCacheView, epoch: u64)
    requires
        spec_epochs_ascend(c),
    ensures
        spec_epochs_ascend(spec_evict(c, epoch)),
        spec_epochs_ascend(spec_cleared(c)),
{
    lemma_evict_entries(c, epoch);
}

/// Eviction by epoch on a cache whose epochs are in order: no entry that
/// was last touched before `epoch` is left, and every other entry is left,
/// at its place.
pub proof fn lemma_evict_leaves_no_stale_entry(c: ManagedLruCacheView, epoch: u64)
    requires
        spec_epochs_ascend(c),
    ensures
        forall|i: int|
            0 <= i < spec_evict(c, epoch).entries.len() ==> (#[trigger] spec_evict(
                c,
                epoch,
            ).entries[i]).1 >= epoch,
        spec_evict(c, epoch).entries == c.entries.filter(spec_fresh(epoch)),
{
    lemma_evict_entries(c, epoch);
    lemma_stale_prefix_is_filter(c.entries, epoch);
    let n = spec_stale_prefix(c.entries, epoch) as int;
    lemma_stale_prefix_stops(c.entries, epoch);
    assert forall|i: int| 0 <= i < c.entries.skip(n).len() implies (#[trigger] c.entries.skip(
        n,
    )[i]).1 >= epoch by {
        assert(c.entries[n].1 <= c.entries[n + i].1);
    }
}

/// Behind the stale entries at the least recently used end stands an entry
/// that is not stale, or none.
proof fn lemma_stale_prefix_stops(entries: Seq<(u64, u64, Seq<u8>)>, epoch: u64)
    ensures
        spec_stale_prefix(entries, epoch) <= entries.len(),
        spec_stale_prefix(entries, epoch) < entries.len() ==> entries[spec_stale_prefix(
            entries,
            epoch,
        ) as int].1 >= epoch,
    decreases entries.len(),
{
    if entries.len() != 0 && entries[0].1 < epoch {
        lemma_stale_prefix_stops(entries.skip(1), epoch);
    }
}

/// Where no epoch falls from one entry to the next, what stands behind the
/// stale entries at the least recently used end is what a filter by epoch
/// keeps.
proof fn lemma_stale_prefix_is_filter(entries: Seq<(u64, u64, Seq<u8>)>, epoch: u64)
    requires
        forall|i: int, j: int| 0 <= i <= j < entries.len() ==> entries[i].1 <= entries[j].1,
    ensures
        spec_stale_prefix(entries, epoch) <= entries.len(),
        entries.skip(spec_stale_prefix(entries, epoch) as int) == entries.filter(
            spec_fresh(epoch),
        ),
    decreases entries.len(),
{
    let keep = spec_fresh(epoch);
    lemma_stale_prefix_stops(entries, epoch);
    if entries.len() == 0 {
        assert(entries.skip(0) =~= entries);
        assert(entries.filter(keep) =~= Seq::empty()) by {
            reveal(Seq::filter);
        }
    } else if entries[0].1 >= epoch {
        assert(entries.skip(0) =~= entries);
        assert forall|i: int| 0 <= i < entries.len() implies keep(#[trigger] entries[i]) by {
            assert(entries[0].1 <= entries[i].1);
        }
        lemma_filter_keeps_all(entries, epoch);
    } else {
        let rest = entries.skip(1);
        assert forall|i: int, j: int| 0 <= i <= j < rest.len() implies rest[i].1
            <= rest[j].1 by {
            assert(rest[i] == entries[i + 1]);
            assert(rest[j] == entries[j + 1]);
        }
        lemma_stale_prefix_is_filter(rest, epoch);
        let n = spec_stale_prefix(rest, epoch) as int;
        assert(rest.skip(n) =~= entries.skip(n + 1));
        assert(entries =~= seq![entries[0]] + rest);
        rest.lemma_filter_prepend(entries[0], keep);
        assert(Seq::<(u64, u64, Seq<u8>)>::empty() + rest.filter(keep) =~= rest.filter(keep));
    }
}

/// A filter by epoch keeps a run of entries none of which is stale.
proof fn lemma_filter_keeps_all(entries: Seq<(u64, u64, Seq<u8>)>, epoch: u64)
    requires
        forall|i: int| 0 <= i < entries.len() ==> (#[trigger] entries[i]).1 >= epoch,
    ensures
        entries.filter(spec_fresh(epoch)) == entries,
    decreases entries.len(),
{
    let keep = spec_fresh(epoch);
    reveal(Seq::filter);
    if entries.len() > 0 {
        let front = entries.drop_last();
        assert forall|i: int| 0 <= i < front.len() implies (#[trigger] front[i]).1 >= epoch by {
            assert(front[i] == entries[i]);
        }
        lemma_filter_keeps_all(front, epoch);
        assert(entries.filter(keep) =~= entries);
    } else {
        assert(entries.filter(keep) =~= entries);
    }
}

/// The watermark as it stands at the time of the call.
fn load_watermark(watermark_epoch: &Arc<AtomicU64>) -> u64 {
    watermark_epoch.load(Ordering::Relaxed)
}

/// A cache from numbers to byte strings that is evicted by epoch.
pub struct ManagedLruCache {
    inner: lru::LruCache<u64, (u64, Vec<u8>)>,
    current_epoch: u64,
    /// Entries with an epoch below the watermark are evicted. The memory
    /// manager moves it.
    watermark_epoch: Arc<AtomicU64>,
    kv_heap_size: usize,
    memory_usage_metrics: usize,
    last_reported_size_bytes: usize,
}

impl ManagedLruCache {
    /// What the cache holds.
    pub closed spec fn view(&self) -> ManagedLruCacheView {
        ManagedLruCacheView {
            entries: spec_lru_entries(self.inner),
            current_epoch: self.current_epoch,
            kv_heap_size: self.kv_heap_size,
            last_reported_size_bytes: self.last_reported_size_bytes,
            memory_usage_metrics: self.memory_usage_metrics,
            watermark_epoch: self.watermark_epoch,
        }
    }

    /// The invariant: no two entries have the same key, and the epochs
    /// follow the use.
    pub closed spec fn wf(&self) -> bool {
        &&& spec_keys_distinct(spec_lru_entries(self.inner))
        &&& spec_lru_cap(self.inner) == usize::MAX
        &&& spec_epochs_ascend(self@)
    }

    /// What the invariant gives: no two entries have the same key, and the
    /// epochs follow the use.
    pub proof fn lemma_wf(&self)
        requires
            self.wf(),
        ensures
            spec_keys_distinct(self@.entries),
            spec_epochs_ascend(self@),
    {
    }

    /// An empty cache that is evicted by `watermark_epoch`.
    pub fn new_inner(watermark_epoch: Arc<AtomicU64>) -> (r: Self)
        ensures
            r.wf(),
            r@ == (ManagedLruCacheView {
                entries: Seq::empty(),
                current_epoch: 0,
                kv_heap_size: 0,
                last_reported_size_bytes: 0,
                memory_usage_metrics: 0,
                watermark_epoch,
            }),
    {
        ManagedLruCache {
            inner: lru_unbounded(),
            current_epoch: 0,
            watermark_epoch,
            kv_heap_size: 0,
            memory_usage_metrics: 0,
            last_reported_size_bytes: 0,
        }
    }

    /// Evicts the entries that were last touched before the watermark.
    pub fn evict(&mut self)
        requires
            old(self).wf(),
        ensures
            final(self).wf(),
            exists|watermark: u64|
                final(self)@ == spec_evict(old(self)@, watermark) && final(self)@.entries == old(
                    self,
                )@.entries.filter(spec_fresh(watermark)),
    {
        let watermark = self.load_cur_epoch();
        self.evict_by_epoch(watermark);
    }

    /// Evicts the entries that were last touched before the watermark, but
    /// none that was touched in the current epoch.
    pub fn evict_except_cur_epoch(&mut self)
        requires
            old(self).wf(),
        ensures
            final(self).wf(),
            exists|watermark: u64|
                final(self)@ == spec_evict(
                    old(self)@,
                    spec_min(watermark, old(self)@.current_epoch),
                ) && final(self)@.entries == old(self)@.entries.filter(
                    spec_fresh(spec_min(watermark, old(self)@.current_epoch)),
                ),
    {
        let watermark = self.load_cur_epoch();
        let epoch = if watermark <= self.current_epoch {
            watermark
        } else {
            self.current_epoch
        };
        self.evict_by_epoch(epoch);
        assert(self@ == spec_evict(old(self)@, spec_min(watermark, old(self)@.current_epoch))
            && self@.entries == old(self)@.entries.filter(
            spec_fresh(spec_min(watermark, old(self)@.current_epoch)),
        ));
    }

    /// Evicts every entry whose epoch lies below `epoch`, however recently
    /// it was used: the entries leave from the least recently used end, and
    /// with each the estimate shrinks.
    pub fn evict_by_epoch(&mut self, epoch: u64)
        requires
            old(self).wf(),
        ensures
            final(self).wf(),
            final(self)@ == spec_evict(old(self)@, epoch),
            final(self)@.entries == old(self)@.entries.filter(spec_fresh(epoch)),
    {
        proof {
            lemma_evict_leaves_no_stale_entry(old(self)@, epoch);
        }
        loop
            invariant
                self.wf(),
                spec_evict(self@, epoch) == spec_evict(old(self)@, epoch),
            ensures
                self.wf(),
                self@ == spec_evict(old(self)@, epoch),
            decreases self@.entries.len(),
        {
            let stale = match lru_peek_lru(&self.inner) {
                Some((_, entry_epoch)) => entry_epoch < epoch,
                None => false,
            };
            if !stale {
                break ;
            }
            let ghost before = self@;
            match lru_pop_lru(&mut self.inner) {
                Some((_key, (_epoch, value))) => {
                    proof {
                        let entries = before.entries;
                        assert forall|i: int, j: int|
                            0 <= i < j < entries.skip(1).len() implies entries.skip(1)[i].0
                            != entries.skip(1)[j].0 by {
                            assert(entries.skip(1)[i] == entries[i + 1]);
                            assert(entries.skip(1)[j] == entries[j + 1]);
                        }
                    }
                    self.kv_heap_size_dec(KEY_SIZE.saturating_add(value.len()));
                },
                None => {},
            }
        }
    }

    /// Moves the epoch that touched entries get forward to `epoch`.
    pub fn update_epoch(&mut self, epoch: u64)
        requires
            old(self).wf(),
            epoch >= old(self)@.current_epoch,
        ensures
            final(self).wf(),
            final(self)@ == (ManagedLruCacheView { current_epoch: epoch, ..old(self)@ }),
    {
        self.current_epoch = epoch;
    }

    /// The epoch that touched entries get.
    pub fn current_epoch(&mut self) -> (r: u64)
        ensures
            r == old(self)@.current_epoch,
            *final(self) == *old(self),
    {
        self.current_epoch
    }

    /// The bytes of the entries, the most recently used first.
    pub fn values(&self) -> (r: Vec<Vec<u8>>)
        ensures
            r@.len() == self@.entries.len(),
            forall|i: int|
                0 <= i < r@.len() ==> (#[trigger] r@[i])@ == self@.entries[r@.len() - 1 - i].2,
    {
        lru_values(&self.inner)
    }

    /// Puts `v` under `k` and makes the entry the most recently used, of
    /// the current epoch. Returns the bytes that `k` had before.
    pub fn put(&mut self, k: u64, v: Vec<u8>) -> (r: Option<Vec<u8>>)
        requires
            old(self).wf(),
        ensures
            final(self).wf(),
            final(self)@ == spec_put(old(self)@, k, v@),
            match r {
                Some(bytes) => spec_lookup(old(self)@.entries, k) == Some(bytes@),
                None => spec_lookup(old(self)@.entries, k) is None,
            },
    {
        let key_size = KEY_SIZE;
        self.kv_heap_size_inc(key_size.saturating_add(v.len()));
        let ghost before = spec_lru_entries(self.inner);
        proof {
            lemma_position(before, k);
            lemma_push_keeps_distinct(before, k, self.current_epoch, v@);
        }
        let old_kv = lru_push(&mut self.inner, k, self.current_epoch, v);
        match old_kv {
            Some((old_key, (_, old_val))) => {
                if old_key == k {
                    self.kv_heap_size_dec(key_size.saturating_add(old_val.len()));
                    Some(old_val)
                } else {
                    None
                }
            },
            None => None,
        }
    }

    /// The bytes under `k`, or `None` where no entry has the key. The entry
    /// becomes the most recently used, of the current epoch.
    pub fn get(&mut self, k: &u64) -> (r: Option<Vec<u8>>)
        requires
            old(self).wf(),
        ensures
            final(self).wf(),
            final(self)@ == (ManagedLruCacheView {
                entries: spec_touched(old(self)@.entries, *k, old(self)@.current_epoch),
                ..old(self)@
            }),
            match r {
                Some(bytes) => spec_lookup(old(self)@.entries, *k) == Some(bytes@),
                None => spec_lookup(old(self)@.entries, *k) is None,
            },
    {
        let ghost before = spec_lru_entries(self.inner);
        proof {
            lemma_position(before, *k);
        }
        match lru_peek(&self.inner, *k) {
            Some((_, value)) => {
                proof {
                    lemma_push_keeps_distinct(before, *k, self.current_epoch, value@);
                }
                let _ = lru_push(&mut self.inner, *k, self.current_epoch, value.clone());
                Some(value)
            },
            None => None,
        }
    }

    /// Puts `v` under `k` and makes the entry the most recently used, of
    /// the current epoch. Returns the entry that had the key, or the one
    /// that had to leave for the new one.
    pub fn push(&mut self, k: u64, v: Vec<u8>) -> (r: Option<(u64, Vec<u8>)>)
        requires
            old(self).wf(),
        ensures
            final(self).wf(),
            final(self)@ == spec_push(old(self)@, k, v@),
            match r {
                Some(e) => spec_pushed_out(old(self)@, k) == Some((e.0, e.1@)),
                None => spec_pushed_out(old(self)@, k) is None,
            },
    {
        self.kv_heap_size_inc(KEY_SIZE.saturating_add(v.len()));
        let ghost before = spec_lru_entries(self.inner);
        proof {
            lemma_position(before, k);
            lemma_push_keeps_distinct(before, k, self.current_epoch, v@);
        }
        let old_kv = lru_push(&mut self.inner, k, self.current_epoch, v);
        match old_kv {
            Some((old_key, (_, old_val))) => {
                self.kv_heap_size_dec(KEY_SIZE.saturating_add(old_val.len()));
                Some((old_key, old_val))
            },
            None => None,
        }
    }

    /// A guard over the entry of `k`, to change its bytes; `None` where no
    /// entry has the key. The entry becomes the most recently used, of the
    /// current epoch.
    pub fn get_mut(&mut self, k: &u64) -> (r: Option<MutGuard<'_>>)
        requires
            old(self).wf(),
        ensures
            match r {
                Some(guard) => {
                    &&& spec_lookup(old(self)@.entries, *k) == Some(guard.spec_value())
                    &&& guard.wf()
                    &&& guard.spec_key() == *k
                    &&& guard.spec_original_val_size() == guard.spec_value().len()
                    &&& guard.spec_cache()@ == (ManagedLruCacheView {
                        entries: spec_touched(old(self)@.entries, *k, old(self)@.current_epoch),
                        ..old(self)@
                    })
                    &&& *final(self) == *final(guard.spec_cache())
                },
                None => spec_lookup(old(self)@.entries, *k) is None && *final(self) == *old(self),
            },
    {
        let ghost before = spec_lru_entries(self.inner);
        proof {
            lemma_position(before, *k);
        }
        match lru_peek(&self.inner, *k) {
            Some((_, value)) => {
                proof {
                    lemma_push_keeps_distinct(before, *k, self.current_epoch, value@);
                }
                let _ = lru_push(&mut self.inner, *k, self.current_epoch, value.clone());
                Some(MutGuard::new(self, *k, value))
            },
            None => None,
        }
    }

    /// A guard over the entry of `k`, to change its bytes; `None` where no
    /// entry has the key. Nothing is touched.
    pub fn peek_mut(&mut self, k: &u64) -> (r: Option<MutGuard<'_>>)
        requires
            old(self).wf(),
        ensures
            match r {
                Some(guard) => {
                    &&& spec_lookup(old(self)@.entries, *k) == Some(guard.spec_value())
                    &&& guard.wf()
                    &&& guard.spec_key() == *k
                    &&& guard.spec_original_val_size() == guard.spec_value().len()
                    &&& guard.spec_cache()@ == old(self)@
                    &&& *final(self) == *final(guard.spec_cache())
                },
                None => spec_lookup(old(self)@.entries, *k) is None && *final(self) == *old(self),
            },
    {
        proof {
            lemma_position(spec_lru_entries(self.inner), *k);
        }
        match lru_peek(&self.inner, *k) {
            Some((_, value)) => Some(MutGuard::new(self, *k, value)),
            None => None,
        }
    }

    /// Whether an entry has the key. Nothing is touched.
    pub fn contains(&self, k: &u64) -> (r: bool)
        ensures
            r == spec_lookup(self@.entries, *k) is Some,
    {
        lru_contains(&self.inner, *k)
    }

    /// Number of entries.
    pub fn len(&self) -> (r: usize)
        ensures
            r == self@.entries.len(),
    {
        lru_len(&self.inner)
    }

    /// Whether the cache holds no entry.
    pub fn is_empty(&self) -> (r: bool)
        ensures
            r == (self@.entries.len() == 0),
    {
        lru_len(&self.inner) == 0
    }

    /// Takes out every entry. The estimate of the bytes held falls to zero,
    /// and may be reported.
    pub fn clear(&mut self)
        requires
            old(self).wf(),
        ensures
            final(self).wf(),
            final(self)@ == spec_cleared(old(self)@),
    {
        lru_clear(&mut self.inner);
        self.kv_heap_size = 0;
        self.report_memory_usage();
    }

    /// The estimate of the bytes held.
    pub fn kv_heap_size(&self) -> (r: usize)
        ensures
            r == self@.kv_heap_size,
    {
        self.kv_heap_size
    }

    /// What the memory usage metric shows.
    pub fn memory_usage_metrics(&self) -> (r: usize)
        ensures
            r == self@.memory_usage_metrics,
    {
        self.memory_usage_metrics
    }

    fn kv_heap_size_inc(&mut self, size: usize)
        requires
            old(self).wf(),
        ensures
            final(self).wf(),
            final(self)@ == spec_size_inc(old(self)@, size),
    {
        self.kv_heap_size = self.kv_heap_size.saturating_add(size);
        proof {
            lemma_order_of_same_entries(old(self)@, self@);
        }
        self.report_memory_usage();
    }

    fn kv_heap_size_dec(&mut self, size: usize)
        requires
            old(self).wf(),
        ensures
            final(self).wf(),
            final(self)@ == spec_size_dec(old(self)@, size),
    {
        self.kv_heap_size = self.kv_heap_size.saturating_sub(size);
        proof {
            lemma_order_of_same_entries(old(self)@, self@);
        }
        self.report_memory_usage();
    }

    /// Reports the estimate if it has moved by more than the threshold
    /// since the last report, and says whether it did.
    fn report_memory_usage(&mut self) -> (r: bool)
        requires
            old(self).wf(),
        ensures
            final(self).wf(),
            final(self)@ == spec_reported(old(self)@),
            r == (spec_abs_diff(old(self)@.kv_heap_size, old(self)@.last_reported_size_bytes)
                > REPORT_SIZE_THRESHOLD_BYTES),
    {
        let diff = if self.kv_heap_size >= self.last_reported_size_bytes {
            self.kv_heap_size - self.last_reported_size_bytes
        } else {
            self.last_reported_size_bytes - self.kv_heap_size
        };
        let moved = diff > REPORT_SIZE_THRESHOLD_BYTES;
        if moved {
            self.memory_usage_metrics = self.kv_heap_size;
            self.last_reported_size_bytes = self.kv_heap_size;
        }
        proof {
            lemma_order_of_same_entries(old(self)@, self@);
        }
        moved
    }

    fn load_cur_epoch(&self) -> u64 {
        load_watermark(&self.watermark_epoch)
    }
}

/// Pushing a key keeps the keys distinct.
proof fn lemma_push_keeps_distinct(
    entries: Seq<(u64, u64, Seq<u8>)>,
    key: u64,
    epoch: u64,
    value: Seq<u8>,
)
    requires
        spec_keys_distinct(entries),
    ensures
        spec_keys_distinct(spec_entries_after_push(entries, key, epoch, value)),
{
    lemma_position(entries, key);
    let i = spec_position(entries, key);
    let after = spec_entries_after_push(entries, key, epoch, value);
    assert forall|a: int, b: int| 0 <= a < b < after.len() implies after[a].0 != after[b].0 by {
        if i >= 0 {
            let a0 = if a < i { a } else { a + 1 };
            assert(after[a] == entries[a0]);
            if b < after.len() - 1 {
                let b0 = if b < i { b } else { b + 1 };
                assert(after[b] == entries[b0]);
            }
        } else if entries.len() == usize::MAX {
            assert(after[a] == entries[a + 1]);
            if b < after.len() - 1 {
                assert(after[b] == entries[b + 1]);
            }
        } else {
            assert(after[a] == entries[a]);
            if b < after.len() - 1 {
                assert(after[b] == entries[b]);
            }
        }
    }
}

/// An empty cache that is evicted by `watermark_epoch`.
pub fn new_unbounded(watermark_epoch: Arc<AtomicU64>) -> (r: ManagedLruCache)
    ensures
        r.wf(),
        r@ == (ManagedLruCacheView {
            entries: Seq::empty(),
            current_epoch: 0,
            kv_heap_size: 0,
            last_reported_size_bytes: 0,
            memory_usage_metrics: 0,
            watermark_epoch,
        }),
{
    ManagedLruCache::new_inner(watermark_epoch)
}

/// A working copy of the bytes of one entry, together with the cache that
/// the entry is in. Committing the guard puts the bytes back and corrects
/// the cache's estimate by how much they have grown or shrunk; a guard that
/// is dropped leaves the cache as it is.
#[must_use]
pub struct MutGuard<'a> {
    cache: &'a mut ManagedLruCache,
    key: u64,
    value: Vec<u8>,
    // The size of the value when the guard was made.
    original_val_size: usize,
}

impl<'a> MutGuard<'a> {
    /// The cache that the entry is in.
    pub closed spec fn spec_cache(&self) -> &'a mut ManagedLruCache {
        self.cache
    }

    /// The key of the entry.
    pub closed spec fn spec_key(&self) -> u64 {
        self.key
    }

    /// The working copy of the bytes.
    pub closed spec fn spec_value(&self) -> Seq<u8> {
        self.value@
    }

    /// The size of the bytes when the guard was made.
    pub closed spec fn spec_original_val_size(&self) -> usize {
        self.original_val_size
    }

    /// The invariant: the cache of the guard is well formed.
    pub closed spec fn wf(&self) -> bool {
        self.cache.wf()
    }

    /// A guard over the entry of `key` in `cache`, which holds `value`.
    pub fn new(cache: &'a mut ManagedLruCache, key: u64, value: Vec<u8>) -> (r: Self)
        requires
            old(cache).wf(),
        ensures
            r.wf(),
            r.spec_cache()@ == old(cache)@,
            *final(cache) == *final(r.spec_cache()),
            r.spec_key() == key,
            r.spec_value() == value@,
            r.spec_original_val_size() == value@.len(),
    {
        let original_val_size = value.len();
        MutGuard { cache, key, value, original_val_size }
    }

    /// The working copy of the bytes.
    pub fn value(&self) -> (r: &Vec<u8>)
        ensures
            r@ == self.spec_value(),
    {
        &self.value
    }

    /// Replaces the working copy of the bytes.
    pub fn set(&mut self, value: Vec<u8>)
        ensures
            final(self).spec_value() == value@,
            final(self).spec_key() == old(self).spec_key(),
            final(self).spec_original_val_size() == old(self).spec_original_val_size(),
            final(self).spec_cache() == old(self).spec_cache(),
            final(self).wf() == old(self).wf(),
    {
        self.value = value;
    }

    /// Puts the working copy back into the entry and corrects the cache's
    /// estimate.
    pub fn commit(self)
        requires
            self.wf(),
        ensures
            final(self.spec_cache()).wf(),
            final(self.spec_cache())@ == spec_commit(
                self.spec_cache()@,
                self.spec_key(),
                self.spec_value(),
                self.spec_original_val_size(),
            ),
    {
        let MutGuard { cache, key, value, original_val_size } = self;
        let new_size = value.len();
        let ghost before = spec_lru_entries(cache.inner);
        let ghost view_before = cache@;
        proof {
            lemma_position(before, key);
            let i = spec_position(before, key);
            if i >= 0 {
                let after = before.update(i, (key, before[i].1, value@));
                assert forall|a: int, b: int| 0 <= a < b < after.len() implies after[a].0
                    != after[b].0 by {
                    assert(after[a].0 == before[a].0);
                    assert(after[b].0 == before[b].0);
                }
            }
            lemma_commit_keeps_order(view_before, key, value@, original_val_size);
        }
        match lru_peek_mut(&mut cache.inner, key) {
            Some(slot) => {
                let epoch = slot.0;
                *slot = (epoch, value);
            },
            None => {},
        }
        cache.kv_heap_size = cache.kv_heap_size.saturating_sub(original_val_size).saturating_add(
            new_size,
        );
        cache.report_memory_usage();
    }
}

} // verus!
