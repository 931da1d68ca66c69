//! Which versions a compaction keeps.
//!
//! A compaction reads the versions of its input in order: by user key, and
//! for one user key from the newest version to the oldest. It drops a
//! version that is
//!
//! * older than the watermark while a newer version of its key is not newer
//!   than the watermark: no reader can see it any more;
//! * deleted by a range delete: a range delete that is newer than the
//!   version covers its key;
//! * older than the retention time of its table allows, where the task asks
//!   for that filter;
//! * of a table that is no longer registered, where the task asks for that
//!   filter.

use crate::delete_range::spec_tombstones_view;
use crate::key::{lemma_compare_user_key_equal, FullKey, FullKeyView, HummockEpoch, KeyOrder};
use crate::sweep::{is_covered_by_newer_tombstone, spec_covered_by_newer};
use crate::tombstone::{DeleteRangeTombstone, DeleteRangeTombstoneView};
use std::collections::{HashMap, HashSet};
use vstd::prelude::*;
use vstd::std_specs::hash::*;

verus! {

/// No filter.
pub const COMPACTION_FILTER_NONE: u32 = 0;

/// The flag of the filter that drops the keys of tables that are no longer
/// registered.
pub const COMPACTION_FILTER_STATE_CLEAN: u32 = 2;

/// The flag of the filter that drops versions past the retention time of
/// their table.
pub const COMPACTION_FILTER_TTL: u32 = 4;

/// One version of a key with its value.
#[derive(Clone, Debug, PartialEq, Eq)]
pub struct KeyedEntry {
    pub key: FullKey,
    pub value: Vec<u8>,
}

/// What a `KeyedEntry` holds, as plain values.
pub struct KeyedEntryView {
    pub key: FullKeyView,
    pub value: Seq<u8>,
}

impl View for KeyedEntry {
    type V = KeyedEntryView;

    open spec fn view(&self) -> KeyedEntryView {
        KeyedEntryView { key: self.key@, value: self.value@ }
    }
}

/// The views of a vector of entries.
pub open spec fn spec_entries_view(v: Seq<KeyedEntry>) -> Seq<KeyedEntryView> {
    Seq::new(v.len(), |i: int| v[i]@)
}

impl KeyedEntry {
    /// A copy of the entry.
    pub fn duplicate(&self) -> (r: Self)
        ensures
            r@ == self@,
    {
        KeyedEntry {
            key: FullKey { user_key: self.key.user_key.duplicate(), epoch: self.key.epoch },
            value: self.value.clone(),
        }
    }
}

/// What a compaction task asks for.
pub struct CompactTask {
    /// Versions older than this may go once a newer one is no newer than it.
    pub watermark: HummockEpoch,
    /// The filters to apply, as flags.
    pub compaction_filter_mask: u32,
    /// For each table with a retention time, the time in seconds.
    pub table_options: HashMap<u32, u32>,
    /// The tables that are registered.
    pub existing_table_ids: HashSet<u32>,
    /// The epoch that the retention time counts back from.
    pub current_epoch_time: HummockEpoch,
    /// The level that the output goes to.
    pub target_level: u32,
}

/// What a `CompactTask` holds, as plain values.
pub struct CompactTaskView {
    pub watermark: u64,
    pub compaction_filter_mask: u32,
    pub table_options: Map<u32, u32>,
    pub existing_table_ids: Set<u32>,
    pub current_epoch_time: u64,
    pub target_level: u32,
}

impl View for CompactTask {
    type V = CompactTaskView;

    open spec fn view(&self) -> CompactTaskView {
        CompactTaskView {
            watermark: self.watermark,
            compaction_filter_mask: self.compaction_filter_mask,
            table_options: self.table_options@,
            existing_table_ids: self.existing_table_ids@,
            current_epoch_time: self.current_epoch_time,
            target_level: self.target_level,
        }
    }
}

/// The epoch that lies `relative_time_ms` milliseconds before `epoch`: the
/// time of an epoch is what stands above its lowest sixteen bits. Before the
/// beginning of time lies epoch 0.
pub open spec fn spec_subtract_ms(epoch: u64, relative_time_ms: u64) -> u64 {
    let physical_time = epoch >> 16;
    if physical_time < relative_time_ms {
        0
    } else {
        ((physical_time - relative_time_ms) as u64) << 16
    }
}

/// The epoch that lies `relative_time_ms` milliseconds before `epoch`.
pub fn subtract_ms(epoch: HummockEpoch, relative_time_ms: u64) -> (r: HummockEpoch)
    ensures
        r == spec_subtract_ms(epoch, relative_time_ms),
{
    let physical_time = epoch >> 16;
    if physical_time < relative_time_ms {
        0
    } else {
        (physical_time - relative_time_ms) << 16
    }
}

/// Whether the retention filter drops a version: the task asks for the
/// filter, the version's table has a retention time, and the version is
/// older than that time allows.
pub open spec fn spec_ttl_expired(task: CompactTaskView, table_id: u32, epoch: u64) -> bool {
    &&& task.compaction_filter_mask & COMPACTION_FILTER_TTL != 0
    &&& task.table_options.contains_key(table_id)
    &&& epoch < spec_subtract_ms(
        task.current_epoch_time,
        (task.table_options[table_id] * 1000) as u64,
    )
}

/// Whether the state-clean filter drops a key: the task asks for the filter
/// and the key's table is not registered.
pub open spec fn spec_dangling(task: CompactTaskView, table_id: u32) -> bool {
    &&& task.compaction_filter_mask & COMPACTION_FILTER_STATE_CLEAN != 0
    &&& !task.existing_table_ids.contains(table_id)
}

/// Whether, among the versions that stand directly before version `i` and
/// have its user key, one is no newer than the watermark.
pub open spec fn spec_watermark_can_see(entries: Seq<KeyedEntryView>, i: int, watermark: u64) -> bool
    decreases i,
{
    if i <= 0 {
        false
    } else if entries[i - 1].key.user_key != entries[i].key.user_key {
        false
    } else {
        entries[i - 1].key.epoch <= watermark || spec_watermark_can_see(entries, i - 1, watermark)
    }
}

/// Whether the compaction drops version `i` of `entries`.
pub open spec fn spec_should_drop(
    entries: Seq<KeyedEntryView>,
    i: int,
    task: CompactTaskView,
    tombstones: Seq<DeleteRangeTombstoneView>,
) -> bool {
    let key = entries[i].key;
    ||| (key.epoch < task.watermark && spec_watermark_can_see(entries, i, task.watermark))
    ||| spec_covered_by_newer(tombstones, key.user_key, key.epoch)
    ||| spec_ttl_expired(task, key.user_key.table_id, key.epoch)
    ||| spec_dangling(task, key.user_key.table_id)
}

/// The versions that the compaction keeps of the first `n`, in their order.
pub open spec fn spec_compact(
    entries: Seq<KeyedEntryView>,
    task: CompactTaskView,
    tombstones: Seq<DeleteRangeTombstoneView>,
    n: nat,
) -> Seq<KeyedEntryView>
    decreases n,
{
    if n == 0 {
        Seq::empty()
    } else if spec_should_drop(entries, n - 1, task, tombstones) {
        spec_compact(entries, task, tombstones, (n - 1) as nat)
    } else {
        spec_compact(entries, task, tombstones, (n - 1) as nat).push(entries[n - 1])
    }
}

/// Whether the retention filter drops a version of `table_id` written at
/// `epoch`.
pub fn ttl_expired(task: &CompactTask, table_id: u32, epoch: HummockEpoch) -> (r: bool)
    ensures
        r == spec_ttl_expired(task@, table_id, epoch),
{
    broadcast use group_hash_axioms;

    if task.compaction_filter_mask & COMPACTION_FILTER_TTL == 0 {
        return false;
    }
    match task.table_options.get(&table_id) {
        Some(retention_seconds) => {
            let retention: u64 = *retention_seconds as u64;
            let ttl_mill: u64 = retention * 1000;
            epoch < subtract_ms(task.current_epoch_time, ttl_mill)
        },
        None => false,
    }
}

/// Whether the state-clean filter drops the keys of `table_id`.
pub fn dangling(task: &CompactTask, table_id: u32) -> (r: bool)
    ensures
        r == spec_dangling(task@, table_id),
{
    broadcast use group_hash_axioms;

    task.compaction_filter_mask & COMPACTION_FILTER_STATE_CLEAN != 0
        && !task.existing_table_ids.contains(&table_id)
}

/// The versions that a compaction keeps of `entries`, which hold the merged
/// input in order. `tombstones` are the range deletes of the input.
pub fn compact_entries(
    entries: &Vec<KeyedEntry>,
    task: &CompactTask,
    tombstones: &Vec<DeleteRangeTombstone>,
) -> (r: Vec<KeyedEntry>)
    ensures
        spec_entries_view(r@) == spec_compact(
            spec_entries_view(entries@),
            task@,
            spec_tombstones_view(tombstones@),
            entries@.len(),
        ),
{
    let ghost views = spec_entries_view(entries@);
    let ghost evs = spec_tombstones_view(tombstones@);
    let mut kept: Vec<KeyedEntry> = Vec::new();
    let mut watermark_can_see_last_key = false;
    let mut i: usize = 0;
    while i < entries.len()
        invariant
            i <= entries@.len(),
            views == spec_entries_view(entries@),
            evs == spec_tombstones_view(tombstones@),
            spec_entries_view(kept@) == spec_compact(views, task@, evs, i as nat),
            i > 0 ==> watermark_can_see_last_key == (views[i - 1].key.epoch <= task.watermark
                || spec_watermark_can_see(views, i - 1, task.watermark)),
        decreases entries@.len() - i,
    {
        let entry = &entries[i];
        assert(views[i as int] == entry@);
        let is_new_user_key = i == 0 || !matches!(
            entries[i - 1].key.user_key.compare(&entry.key.user_key),
            KeyOrder::Equal
        );
        proof {
            if i > 0 {
                assert(views[i - 1] == entries@[i - 1]@);
                lemma_compare_user_key_equal(views[i - 1].key.user_key, views[i as int].key.user_key);
            }
        }
        if is_new_user_key {
            watermark_can_see_last_key = false;
        }
        assert(watermark_can_see_last_key == spec_watermark_can_see(
            views,
            i as int,
            task.watermark,
        ));
        let epoch = entry.key.epoch;
        let table_id = entry.key.user_key.table_id.table_id;
        let mut drop = epoch < task.watermark && watermark_can_see_last_key;
        if !drop && is_covered_by_newer_tombstone(tombstones, &entry.key.user_key, epoch) {
            drop = true;
        }
        if !drop && ttl_expired(task, table_id, epoch) {
            drop = true;
        }
        if !drop && dangling(task, table_id) {
            drop = true;
        }
        if epoch <= task.watermark {
            watermark_can_see_last_key = true;
        }
        if !drop {
            let ghost before = spec_entries_view(kept@);
            kept.push(entry.duplicate());
            assert(spec_entries_view(kept@) =~= before.push(views[i as int]));
        }
        i += 1;
    }
    kept
}

/// A compaction only drops: what it keeps of the first `n` versions are
/// versions among the first `n`, and there are no more of them.
pub proof fn lemma_compact_keeps_input(
    entries: Seq<KeyedEntryView>,
    task: CompactTaskView,
    tombstones: Seq<DeleteRangeTombstoneView>,
    n: nat,
)
    requires
        n <= entries.len(),
    ensures
        spec_compact(entries, task, tombstones, n).len() <= n,
        forall|k: int|
            0 <= k < spec_compact(entries, task, tombstones, n).len() ==> exists|i: int|
                0 <= i < n && !spec_should_drop(entries, i, task, tombstones) && entries[i]
                    == #[trigger] spec_compact(entries, task, tombstones, n)[k],
    decreases n,
{
    if n > 0 {
        lemma_compact_keeps_input(entries, task, tombstones, (n - 1) as nat);
        let before = spec_compact(entries, task, tombstones, (n - 1) as nat);
        let after = spec_compact(entries, task, tombstones, n);
        assert forall|k: int| 0 <= k < after.len() implies exists|i: int|
            0 <= i < n && !spec_should_drop(entries, i, task, tombstones) && entries[i]
                == #[trigger] after[k] by {
            if k < before.len() {
                assert(after[k] == before[k]);
                let i = choose|i: int|
                    0 <= i < n - 1 && !spec_should_drop(entries, i, task, tombstones) && entries[i]
                        == before[k];
                assert(0 <= i < n && entries[i] == after[k]);
            } else {
                assert(entries[n - 1] == after[k]);
            }
        }
    }
}

/// A version that no rule drops is kept.
pub proof fn lemma_compact_keeps_what_no_rule_drops(
    entries: Seq<KeyedEntryView>,
    task: CompactTaskView,
    tombstones: Seq<DeleteRangeTombstoneView>,
    n: nat,
    i: int,
)
    requires
        0 <= i < n <= entries.len(),
        !spec_should_drop(entries, i, task, tombstones),
    ensures
        spec_compact(entries, task, tombstones, n).contains(entries[i]),
    decreases n,
{
    let after = spec_compact(entries, task, tombstones, n);
    if i == n - 1 {
        assert(after[after.len() - 1] == entries[i]);
    } else {
        lemma_compact_keeps_what_no_rule_drops(entries, task, tombstones, (n - 1) as nat, i);
        let before = spec_compact(entries, task, tombstones, (n - 1) as nat);
        let k = choose|k: int| 0 <= k < before.len() && before[k] == entries[i];
        assert(after[k] == entries[i]);
    }
}

/// A table that is not registered leaves no key behind: under the
/// state-clean filter no version that the compaction keeps belongs to a
/// table outside the registered ones.
pub proof fn lemma_dropped_table_leaves_nothing(
    entries: Seq<KeyedEntryView>,
    task: CompactTaskView,
    tombstones: Seq<DeleteRangeTombstoneView>,
    k: int,
)
    requires
        task.compaction_filter_mask & COMPACTION_FILTER_STATE_CLEAN != 0,
        0 <= k < spec_compact(entries, task, tombstones, entries.len()).len(),
    ensures
        task.existing_table_ids.contains(
            spec_compact(entries, task, tombstones, entries.len())[k].key.user_key.table_id,
        ),
{
    lemma_compact_keeps_input(entries, task, tombstones, entries.len());
}

/// Below the watermark one version is enough: of the versions of one user
/// key that stand together, the compaction keeps at most one that is older
/// than the watermark; it has no newer neighbour that the watermark can see.
pub proof fn lemma_one_version_below_watermark(
    entries: Seq<KeyedEntryView>,
    task: CompactTaskView,
    tombstones: Seq<DeleteRangeTombstoneView>,
    i: int,
)
    requires
        0 < i < entries.len(),
        entries[i - 1].key.user_key == entries[i].key.user_key,
        entries[i - 1].key.epoch <= task.watermark,
        entries[i].key.epoch < task.watermark,
    ensures
        spec_should_drop(entries, i, task, tombstones),
{
}

/// What a compaction keeps stands in order: of sorted input the kept
/// versions are sorted too.
pub proof fn lemma_compact_keeps_order(
    entries: Seq<KeyedEntryView>,
    task: CompactTaskView,
    tombstones: Seq<DeleteRangeTombstoneView>,
    n: nat,
)
    requires
        n <= entries.len(),
        crate::merge::spec_sorted(entries),
    ensures
        crate::merge::spec_sorted(spec_compact(entries, task, tombstones, n)),
    decreases n,
{
    if n > 0 {
        lemma_compact_keeps_order(entries, task, tombstones, (n - 1) as nat);
        lemma_compact_keeps_input(entries, task, tombstones, (n - 1) as nat);
        let before = spec_compact(entries, task, tombstones, (n - 1) as nat);
        let after = spec_compact(entries, task, tombstones, n);
        assert forall|a: int, b: int|
            0 <= a < b < after.len() implies crate::merge::spec_compare_full_key(
            after[a].key,
            after[b].key,
        ) != KeyOrder::Greater by {
            assert(after[a] == before[a]);
            if b < before.len() {
                assert(after[b] == before[b]);
            } else {
                let i = choose|i: int|
                    0 <= i < n - 1 && !spec_should_drop(entries, i, task, tombstones) && entries[i]
                        == before[a];
                assert(after[b] == entries[n - 1]);
            }
        }
    }
}

/// No version stays under a newer range delete: a compaction keeps no
/// version whose key a range delete covers that is newer than the version.
/// Of two range deletes over one range, the newer one decides: a version
/// that lies between their epochs is dropped.
pub proof fn lemma_covered_version_is_dropped(
    entries: Seq<KeyedEntryView>,
    task: CompactTaskView,
    tombstones: Seq<DeleteRangeTombstoneView>,
    k: int,
)
    requires
        0 <= k < spec_compact(entries, task, tombstones, entries.len()).len(),
    ensures
        !spec_covered_by_newer(
            tombstones,
            spec_compact(entries, task, tombstones, entries.len())[k].key.user_key,
            spec_compact(entries, task, tombstones, entries.len())[k].key.epoch,
        ),
{
    lemma_compact_keeps_input(entries, task, tombstones, entries.len());
}

/// A range delete spares what is not older than it: a version that no
/// other rule drops, and that is as new as every range delete that covers
/// its key, or newer, is kept.
pub proof fn lemma_version_not_older_than_its_deletes_is_kept(
    entries: Seq<KeyedEntryView>,
    task: CompactTaskView,
    tombstones: Seq<DeleteRangeTombstoneView>,
    i: int,
)
    requires
        0 <= i < entries.len(),
        forall|t: int|
            0 <= t < tombstones.len() && crate::sweep::spec_covers(
                #[trigger] tombstones[t],
                crate::delete_range::spec_point_of(entries[i].key.user_key),
            ) ==> tombstones[t].sequence <= entries[i].key.epoch,
        !(entries[i].key.epoch < task.watermark && spec_watermark_can_see(
            entries,
            i,
            task.watermark,
        )),
        !spec_ttl_expired(task, entries[i].key.user_key.table_id, entries[i].key.epoch),
        !spec_dangling(task, entries[i].key.user_key.table_id),
    ensures
        spec_compact(entries, task, tombstones, entries.len()).contains(entries[i]),
{
    lemma_compact_keeps_what_no_rule_drops(entries, task, tombstones, entries.len(), i);
}

/// Where the rules judge each version by itself, a compaction is a
/// filter: if, among the first `n` versions, the versions that `keep` holds
/// of are those that no rule drops, then the compaction keeps of them what
/// the filter by `keep` keeps, every such version as often as it stands in
/// the input, and in its order.
pub proof fn lemma_compact_is_filter(
    entries: Seq<KeyedEntryView>,
    task: CompactTaskView,
    tombstones: Seq<DeleteRangeTombstoneView>,
    n: nat,
    keep: spec_fn(KeyedEntryView) -> bool,
)
    requires
        n <= entries.len(),
        forall|i: int| 0 <= i < n ==> keep(entries[i]) == !spec_should_drop(entries, i, task, tombstones),
    ensures
        spec_compact(entries, task, tombstones, n) == entries.take(n as int).filter(keep),
    decreases n,
{
    if n == 0 {
        assert(entries.take(0).filter(keep) =~= Seq::empty()) by {
            reveal(Seq::filter);
        }
    } else {
        lemma_compact_is_filter(entries, task, tombstones, (n - 1) as nat, keep);
        assert(entries.take(n as int) =~= entries.take(n - 1).push(entries[n - 1]));
        entries.take(n - 1).lemma_filter_push(entries[n - 1], keep);
    }
}

/// Whether a version belongs to a table that the task has registered.
pub open spec fn spec_of_registered_table(task: CompactTaskView) -> spec_fn(KeyedEntryView) -> bool {
    |e: KeyedEntryView| task.existing_table_ids.contains(e.key.user_key.table_id)
}

/// The state-clean filter by itself: where no other rule drops a version,
/// a compaction under the state-clean filter keeps the versions of the
/// registered tables, each once for each time it stands in the input and in
/// its order, and nothing else.
pub proof fn lemma_state_clean_keeps_registered_tables(
    entries: Seq<KeyedEntryView>,
    task: CompactTaskView,
    tombstones: Seq<DeleteRangeTombstoneView>,
)
    requires
        task.compaction_filter_mask & COMPACTION_FILTER_STATE_CLEAN != 0,
        forall|i: int|
            0 <= i < entries.len() ==> {
                let key = (#[trigger] entries[i]).key;
                &&& !(key.epoch < task.watermark && spec_watermark_can_see(
                    entries,
                    i,
                    task.watermark,
                ))
                &&& !spec_covered_by_newer(tombstones, key.user_key, key.epoch)
                &&& !spec_ttl_expired(task, key.user_key.table_id, key.epoch)
            },
    ensures
        spec_compact(entries, task, tombstones, entries.len()) == entries.filter(
            spec_of_registered_table(task),
        ),
{
    let keep = spec_of_registered_table(task);
    assert forall|i: int| 0 <= i < entries.len() implies keep(entries[i]) == !spec_should_drop(
        entries,
        i,
        task,
        tombstones,
    ) by {
        let key = entries[i].key;
        assert(keep(entries[i]) == task.existing_table_ids.contains(key.user_key.table_id));
    }
    lemma_compact_is_filter(entries, task, tombstones, entries.len(), keep);
    assert(entries.take(entries.len() as int) =~= entries);
}

/// How many versions, from the first on, are newer than the watermark
/// without a break.
pub open spec fn spec_newer_prefix(entries: Seq<KeyedEntryView>, watermark: u64) -> nat
    decreases entries.len(),
{
    if entries.len() == 0 || entries[0].key.epoch <= watermark {
        0
    } else {
        1 + spec_newer_prefix(entries.skip(1), watermark)
    }
}

/// The versions are those of one user key, from the newest to the oldest,
/// no two of one epoch.
pub open spec fn spec_versions_of_one_key(entries: Seq<KeyedEntryView>) -> bool {
    &&& forall|i: int, j: int|
        0 <= i < entries.len() && 0 <= j < entries.len() ==> entries[i].key.user_key
            == entries[j].key.user_key
    &&& forall|i: int, j: int|
        0 <= i < j < entries.len() ==> entries[i].key.epoch > entries[j].key.epoch
}

/// Among the versions of one key, the versions newer than the watermark
/// stand first, and all others behind them.
pub proof fn lemma_newer_prefix(entries: Seq<KeyedEntryView>, watermark: u64)
    requires
        spec_versions_of_one_key(entries),
    ensures
        spec_newer_prefix(entries, watermark) <= entries.len(),
        forall|i: int|
            0 <= i < entries.len() ==> ((#[trigger] entries[i]).key.epoch > watermark <==> i
                < spec_newer_prefix(entries, watermark)),
    decreases entries.len(),
{
    if entries.len() == 0 {
    } else if entries[0].key.epoch <= watermark {
        assert forall|i: int| 0 <= i < entries.len() implies (#[trigger] entries[i]).key.epoch
            <= watermark by {
            if i > 0 {
                assert(entries[0].key.epoch > entries[i].key.epoch);
            }
        }
    } else {
        let rest = entries.skip(1);
        assert(spec_versions_of_one_key(rest)) by {
            assert forall|i: int, j: int|
                0 <= i < rest.len() && 0 <= j < rest.len() implies rest[i].key.user_key
                == rest[j].key.user_key by {
                assert(rest[i] == entries[i + 1] && rest[j] == entries[j + 1]);
            }
            assert forall|i: int, j: int| 0 <= i < j < rest.len() implies rest[i].key.epoch
                > rest[j].key.epoch by {
                assert(rest[i] == entries[i + 1] && rest[j] == entries[j + 1]);
            }
        }
        lemma_newer_prefix(rest, watermark);
        assert forall|i: int| 0 <= i < entries.len() implies ((#[trigger] entries[i]).key.epoch
            > watermark <==> i < spec_newer_prefix(entries, watermark)) by {
            if i > 0 {
                assert(rest[i - 1] == entries[i]);
            }
        }
    }
}

/// Among the versions of one key, the watermark can see a version that
/// stands before version `i` exactly if it can see the one directly before.
proof fn lemma_watermark_sees_the_neighbour(entries: Seq<KeyedEntryView>, i: int, watermark: u64)
    requires
        spec_versions_of_one_key(entries),
        0 <= i < entries.len(),
    ensures
        spec_watermark_can_see(entries, i, watermark) == (i > 0 && entries[i - 1].key.epoch
            <= watermark),
    decreases i,
{
    if i > 0 {
        lemma_watermark_sees_the_neighbour(entries, i - 1, watermark);
        if i > 1 {
            assert(entries[i - 2].key.epoch > entries[i - 1].key.epoch);
        }
    }
}

/// What the watermark leaves of one key: where no other rule drops a
/// version, a compaction keeps of the versions of one key those that are
/// newer than the watermark and, of the others, the newest. So it keeps as
/// many versions as are newer than the watermark, and one more if any
/// version is not.
pub proof fn lemma_watermark_keeps_newer_and_one(
    entries: Seq<KeyedEntryView>,
    task: CompactTaskView,
    tombstones: Seq<DeleteRangeTombstoneView>,
)
    requires
        spec_versions_of_one_key(entries),
        forall|i: int|
            0 <= i < entries.len() ==> {
                let key = (#[trigger] entries[i]).key;
                &&& !spec_covered_by_newer(tombstones, key.user_key, key.epoch)
                &&& !spec_ttl_expired(task, key.user_key.table_id, key.epoch)
                &&& !spec_dangling(task, key.user_key.table_id)
            },
    ensures
        spec_newer_prefix(entries, task.watermark) <= entries.len(),
        spec_compact(entries, task, tombstones, entries.len()) == if spec_newer_prefix(
            entries,
            task.watermark,
        ) < entries.len() {
            entries.take(spec_newer_prefix(entries, task.watermark) as int + 1)
        } else {
            entries
        },
        spec_compact(entries, task, tombstones, entries.len()).len() == spec_newer_prefix(
            entries,
            task.watermark,
        ) + if spec_newer_prefix(entries, task.watermark) < entries.len() {
            1nat
        } else {
            0nat
        },
{
    lemma_newer_prefix(entries, task.watermark);
    lemma_watermark_prefix(entries, task, tombstones, entries.len());
    assert(entries.take(entries.len() as int) =~= entries);
}

/// What the watermark leaves of the first `n` versions of one key.
proof fn lemma_watermark_prefix(
    entries: Seq<KeyedEntryView>,
    task: CompactTaskView,
    tombstones: Seq<DeleteRangeTombstoneView>,
    n: nat,
)
    requires
        n <= entries.len(),
        spec_versions_of_one_key(entries),
        forall|i: int|
            0 <= i < entries.len() ==> {
                let key = (#[trigger] entries[i]).key;
                &&& !spec_covered_by_newer(tombstones, key.user_key, key.epoch)
                &&& !spec_ttl_expired(task, key.user_key.table_id, key.epoch)
                &&& !spec_dangling(task, key.user_key.table_id)
            },
    ensures
        spec_compact(entries, task, tombstones, n) == if spec_newer_prefix(entries, task.watermark)
            < n {
            entries.take(spec_newer_prefix(entries, task.watermark) as int + 1)
        } else {
            entries.take(n as int)
        },
    decreases n,
{
    let m = spec_newer_prefix(entries, task.watermark) as int;
    lemma_newer_prefix(entries, task.watermark);
    if n == 0 {
        assert(entries.take(0) =~= Seq::empty());
    } else {
        lemma_watermark_prefix(entries, task, tombstones, (n - 1) as nat);
        lemma_watermark_sees_the_neighbour(entries, n - 1, task.watermark);
        let last = entries[n - 1];
        if n - 1 <= m {
            if n - 1 > 0 {
                assert(entries[n - 2].key.epoch > task.watermark);
            }
            assert(!spec_should_drop(entries, n - 1, task, tombstones));
            assert(entries.take(n - 1).push(last) =~= entries.take(n as int));
        } else {
            assert(entries[n - 2].key.epoch <= task.watermark);
            assert(entries[n - 2].key.epoch > last.key.epoch);
            assert(spec_should_drop(entries, n - 1, task, tombstones));
        }
    }
}

} // verus!
