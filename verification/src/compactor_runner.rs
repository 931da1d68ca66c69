//! Running one compaction task: from the inputs to the tables that are
//! written, and the states that the task goes through on the way.

use crate::compaction::{
    compact_entries, spec_compact, spec_entries_view, CompactTask, KeyedEntry, KeyedEntryView,
};
use crate::delete_range::{
    create_monotonic_events, spec_event_keys, spec_is_sweep_of, spec_keys_strictly_increasing,
    spec_monotonic_events, spec_monotonic_events_view, spec_tombstones_sorted,
    spec_tombstones_view, CompactionDeleteRangeEventView,
};
use crate::active_epochs::spec_min_epoch;
use crate::delete_range::spec_epoch_at;
use crate::key::{lemma_compare_user_key_equal, KeyOrder, PointRangeView};
use crate::sweep::{spec_active_at, spec_tombstones_well_formed};
use crate::merge::{merge_sorted_runs, spec_runs_view, spec_sorted, spec_union};
use crate::block_meta::BlockMeta;
use crate::key::spec_encode_full_key;
use crate::sstable::SstableInfo;
use crate::sstable_meta::{
    spec_block_metas_view, spec_encoded_size, spec_events_view, SstableMeta, SstableMetaView,
    VERSION,
};
use crate::tombstone::{DeleteRangeTombstone, DeleteRangeTombstoneView, MonotonicDeleteEvent};
use vstd::prelude::*;

verus! {

/// Where a task stands.
#[derive(Clone, Copy, Debug, PartialEq, Eq, Structural)]
pub enum TaskStatus {
    Pending,
    Running,
    Completed,
    Failed,
    Cancelled,
}

/// What happens to a task.
#[derive(Clone, Copy, Debug, PartialEq, Eq, Structural)]
pub enum TaskEvent {
    /// A worker takes the task up.
    Start,
    /// Every output table is written.
    Finish,
    /// Reading an input or writing an output failed.
    Fail,
    /// The task was told to stop.
    Cancel,
}

/// The state that follows `status` on `event`: a pending task starts or is
/// cancelled; a running task completes, fails or is cancelled; a task that
/// has ended stays as it is.
pub open spec fn spec_next_status(status: TaskStatus, event: TaskEvent) -> TaskStatus {
    match (status, event) {
        (TaskStatus::Pending, TaskEvent::Start) => TaskStatus::Running,
        (TaskStatus::Pending, TaskEvent::Cancel) => TaskStatus::Cancelled,
        (TaskStatus::Running, TaskEvent::Finish) => TaskStatus::Completed,
        (TaskStatus::Running, TaskEvent::Fail) => TaskStatus::Failed,
        (TaskStatus::Running, TaskEvent::Cancel) => TaskStatus::Cancelled,
        _ => status,
    }
}

impl TaskStatus {
    /// Whether the task has ended.
    pub open spec fn spec_is_terminal(self) -> bool {
        self is Completed || self is Failed || self is Cancelled
    }

    /// Whether the task has ended.
    pub fn is_terminal(&self) -> (r: bool)
        ensures
            r == self.spec_is_terminal(),
    {
        match self {
            TaskStatus::Completed => true,
            TaskStatus::Failed => true,
            TaskStatus::Cancelled => true,
            _ => false,
        }
    }

    /// The state that follows on `event`.
    pub fn on_event(self, event: TaskEvent) -> (r: TaskStatus)
        ensures
            r == spec_next_status(self, event),
    {
        match (self, event) {
            (TaskStatus::Pending, TaskEvent::Start) => TaskStatus::Running,
            (TaskStatus::Pending, TaskEvent::Cancel) => TaskStatus::Cancelled,
            (TaskStatus::Running, TaskEvent::Finish) => TaskStatus::Completed,
            (TaskStatus::Running, TaskEvent::Fail) => TaskStatus::Failed,
            (TaskStatus::Running, TaskEvent::Cancel) => TaskStatus::Cancelled,
            _ => self,
        }
    }

    /// Whether the output of a task in this state may be registered with
    /// the metadata service: only that of a task that completed.
    pub fn may_register_output(&self) -> (r: bool)
        ensures
            r == (*self is Completed),
    {
        matches!(self, TaskStatus::Completed)
    }
}

/// The state of a task after `events`, from `Pending` on.
pub open spec fn spec_status_after(events: Seq<TaskEvent>) -> TaskStatus
    decreases events.len(),
{
    if events.len() == 0 {
        TaskStatus::Pending
    } else {
        spec_next_status(spec_status_after(events.drop_last()), events.last())
    }
}

/// A task that has ended stays ended: no event leads out of `Completed`,
/// `Failed` or `Cancelled`.
pub proof fn lemma_terminal_states_stay(status: TaskStatus, event: TaskEvent)
    requires
        status.spec_is_terminal(),
    ensures
        spec_next_status(status, event) == status,
{
}

/// A task completes only by finishing while it runs: after any events, a
/// completed task has seen `Start` and later `Finish`.
pub proof fn lemma_completed_task_ran(events: Seq<TaskEvent>)
    requires
        spec_status_after(events) is Completed,
    ensures
        exists|i: int, j: int|
            0 <= i < j < events.len() && events[i] == TaskEvent::Start && events[j]
                == TaskEvent::Finish,
    decreases events.len(),
{
    if events.len() > 0 {
        let init = events.drop_last();
        if spec_status_after(init) is Completed {
            lemma_completed_task_ran(init);
            let (i, j) = choose|i: int, j: int|
                0 <= i < j < init.len() && init[i] == TaskEvent::Start && init[j]
                    == TaskEvent::Finish;
            assert(events[i] == init[i] && events[j] == init[j]);
        } else {
            lemma_running_task_started(init);
            let i = choose|i: int| 0 <= i < init.len() && init[i] == TaskEvent::Start;
            assert(events[i] == init[i]);
            assert(events[events.len() - 1] == TaskEvent::Finish);
        }
    }
}

/// A task runs only once it was started.
proof fn lemma_running_task_started(events: Seq<TaskEvent>)
    requires
        spec_status_after(events) is Running,
    ensures
        exists|i: int| 0 <= i < events.len() && events[i] == TaskEvent::Start,
    decreases events.len(),
{
    if events.len() > 0 {
        let init = events.drop_last();
        if spec_status_after(init) is Running {
            lemma_running_task_started(init);
            let i = choose|i: int| 0 <= i < init.len() && init[i] == TaskEvent::Start;
            assert(events[i] == init[i]);
        } else {
            assert(events[events.len() - 1] == TaskEvent::Start);
        }
    }
}

/// How far a task has come.
#[derive(Clone, Copy, Debug, PartialEq, Eq, Structural)]
pub struct TaskProgress {
    pub keys_processed: u64,
    pub bytes_written: u64,
}

/// The bytes that a version takes in a table: its encoded key and its
/// value.
pub open spec fn spec_entry_bytes(e: KeyedEntryView) -> u64 {
    12u64.saturating_add(e.key.user_key.table_key.len() as u64).saturating_add(
        e.value.len() as u64,
    )
}

/// The bytes that the versions take together, stopping at the largest
/// `u64`.
pub open spec fn spec_run_bytes(entries: Seq<KeyedEntryView>) -> u64
    decreases entries.len(),
{
    if entries.len() == 0 {
        0
    } else {
        spec_run_bytes(entries.drop_last()).saturating_add(spec_entry_bytes(entries.last()))
    }
}

impl TaskProgress {
    /// No progress.
    pub fn new() -> (r: Self)
        ensures
            r == (TaskProgress { keys_processed: 0, bytes_written: 0 }),
    {
        TaskProgress { keys_processed: 0, bytes_written: 0 }
    }

    /// Counts one table that was written.
    pub fn record_table(&mut self, table: &Vec<KeyedEntry>)
        ensures
            final(self).keys_processed == old(self).keys_processed.saturating_add(
                table@.len() as u64,
            ),
            final(self).bytes_written == old(self).bytes_written.saturating_add(
                spec_run_bytes(spec_entries_view(table@)),
            ),
    {
        self.keys_processed = self.keys_processed.saturating_add(table.len() as u64);
        self.bytes_written = self.bytes_written.saturating_add(run_bytes(table));
    }
}

/// The bytes that a version takes in a table.
pub fn entry_bytes(e: &KeyedEntry) -> (r: u64)
    ensures
        r == spec_entry_bytes(e@),
{
    12u64.saturating_add(e.key.user_key.table_key.0.len() as u64).saturating_add(
        e.value.len() as u64,
    )
}

/// The bytes that the versions take together.
pub fn run_bytes(entries: &Vec<KeyedEntry>) -> (r: u64)
    ensures
        r == spec_run_bytes(spec_entries_view(entries@)),
{
    let ghost views = spec_entries_view(entries@);
    let mut total: u64 = 0;
    let mut i: usize = 0;
    while i < entries.len()
        invariant
            i <= entries@.len(),
            views == spec_entries_view(entries@),
            total == spec_run_bytes(views.subrange(0, i as int)),
        decreases entries@.len() - i,
    {
        proof {
            assert(views.subrange(0, i + 1).drop_last() =~= views.subrange(0, i as int));
            assert(views.subrange(0, i + 1).last() == entries@[i as int]@);
        }
        total = total.saturating_add(entry_bytes(&entries[i]));
        i += 1;
    }
    assert(views.subrange(0, i as int) =~= views);
    total
}

/// The tables that the first `n` versions are written to. A new table is
/// begun when the one at hand has reached `capacity` bytes, but only at a
/// version that begins a new user key: the versions of one user key stay
/// together.
pub open spec fn spec_split(entries: Seq<KeyedEntryView>, capacity: u64, n: nat) -> Seq<
    Seq<KeyedEntryView>,
>
    decreases n,
{
    if n == 0 {
        Seq::empty()
    } else if n == 1 {
        seq![seq![entries[0]]]
    } else {
        let tables = spec_split(entries, capacity, (n - 1) as nat);
        let is_new_user_key = entries[n - 2].key.user_key != entries[n - 1].key.user_key;
        if is_new_user_key && spec_run_bytes(tables.last()) >= capacity {
            tables.push(seq![entries[n - 1]])
        } else {
            tables.update(tables.len() - 1, tables.last().push(entries[n - 1]))
        }
    }
}

/// The tables one behind the other.
pub open spec fn spec_concat(tables: Seq<Seq<KeyedEntryView>>) -> Seq<KeyedEntryView>
    decreases tables.len(),
{
    if tables.len() == 0 {
        Seq::empty()
    } else {
        spec_concat(tables.drop_last()) + tables.last()
    }
}

/// The views of a vector of tables.
pub open spec fn spec_tables_view(tables: Seq<Vec<KeyedEntry>>) -> Seq<Seq<KeyedEntryView>> {
    Seq::new(tables.len(), |i: int| spec_entries_view(tables[i]@))
}

/// Splitting loses nothing and adds nothing: the tables, one behind the
/// other, are the versions that were split; no table is empty; and no user
/// key stands in two tables that follow each other.
#[verifier::rlimit(50)]
pub proof fn lemma_split(entries: Seq<KeyedEntryView>, capacity: u64, n: nat)
    requires
        n <= entries.len(),
    ensures
        spec_concat(spec_split(entries, capacity, n)) == entries.subrange(0, n as int),
        n > 0 ==> spec_split(entries, capacity, n).len() > 0,
        forall|t: int|
            0 <= t < spec_split(entries, capacity, n).len() ==> (#[trigger] spec_split(
                entries,
                capacity,
                n,
            )[t]).len() > 0,
        n > 0 ==> spec_split(entries, capacity, n).last().last() == entries[n - 1],
        forall|t: int|
            0 < t < spec_split(entries, capacity, n).len() ==> spec_split(entries, capacity, n)[t
                - 1].last().key.user_key != (#[trigger] spec_split(
                entries,
                capacity,
                n,
            )[t])[0].key.user_key,
    decreases n,
{
    if n == 1 {
        let tables = spec_split(entries, capacity, n);
        assert(tables.drop_last() =~= Seq::empty());
        assert(tables.last() == seq![entries[0]]);
        assert(spec_concat(tables.drop_last()) =~= Seq::empty());
        assert(spec_concat(tables) =~= entries.subrange(0, 1));
    } else if n > 1 {
        lemma_split(entries, capacity, (n - 1) as nat);
        let before = spec_split(entries, capacity, (n - 1) as nat);
        let after = spec_split(entries, capacity, n);
        let is_new_user_key = entries[n - 2].key.user_key != entries[n - 1].key.user_key;
        if is_new_user_key && spec_run_bytes(before.last()) >= capacity {
            assert(after.drop_last() =~= before);
            assert(spec_concat(after) =~= entries.subrange(0, n as int));
            assert forall|t: int| 0 < t < after.len() implies after[t - 1].last().key.user_key != (
            #[trigger] after[t])[0].key.user_key by {
                if t < before.len() {
                    assert(after[t] == before[t]);
                    assert(after[t - 1] == before[t - 1]);
                }
            }
        } else {
            assert(after.drop_last() =~= before.drop_last());
            assert(spec_concat(before) == spec_concat(before.drop_last()) + before.last());
            assert(spec_concat(after) =~= entries.subrange(0, n as int));
            assert forall|t: int| 0 < t < after.len() implies after[t - 1].last().key.user_key != (
            #[trigger] after[t])[0].key.user_key by {
                assert(after[t - 1] == before[t - 1]);
                if t < before.len() - 1 {
                    assert(after[t] == before[t]);
                } else {
                    assert(after[t][0] == before[t][0]);
                }
            }
        }
    }
}

/// Splits the versions into the tables that are written, each of about
/// `capacity` bytes.
#[verifier::rlimit(50)]
pub fn split_into_tables(entries: Vec<KeyedEntry>, capacity: u64) -> (r: Vec<Vec<KeyedEntry>>)
    ensures
        spec_tables_view(r@) == spec_split(spec_entries_view(entries@), capacity, entries@.len()),
{
    let ghost views = spec_entries_view(entries@);
    let mut tables: Vec<Vec<KeyedEntry>> = Vec::new();
    let mut current: Vec<KeyedEntry> = Vec::new();
    let mut current_bytes: u64 = 0;
    let mut i: usize = 0;
    while i < entries.len()
        invariant
            i <= entries@.len(),
            views == spec_entries_view(entries@),
            i == 0 ==> tables@.len() == 0 && current@.len() == 0,
            i > 0 ==> spec_tables_view(tables@).push(spec_entries_view(current@)) == spec_split(
                views,
                capacity,
                i as nat,
            ),
            current_bytes == spec_run_bytes(spec_entries_view(current@)),
        decreases entries@.len() - i,
    {
        let entry = entries[i].duplicate();
        assert(entry@ == views[i as int]);
        let ghost before_tables = spec_tables_view(tables@);
        let ghost before_current = spec_entries_view(current@);
        if i == 0 {
            current_bytes = entry_bytes(&entry);
            current.push(entry);
            proof {
                assert(spec_entries_view(current@) =~= seq![views[0]]);
                assert(spec_tables_view(tables@) =~= Seq::empty());
                assert(spec_tables_view(tables@).push(spec_entries_view(current@)) =~= seq![
                    seq![views[0]],
                ]);
                assert(spec_entries_view(current@).drop_last() =~= Seq::empty());
                assert(spec_entries_view(current@).last() == views[0]);
                assert(spec_run_bytes(Seq::<KeyedEntryView>::empty()) == 0);
            }
        } else {
            let is_new_user_key = !matches!(
                entries[i - 1].key.user_key.compare(&entries[i].key.user_key),
                KeyOrder::Equal
            );
            proof {
                assert(views[i - 1] == entries@[i - 1]@);
                assert(views[i as int] == entries@[i as int]@);
                lemma_compare_user_key_equal(views[i - 1].key.user_key, views[i as int].key.user_key);
                assert(before_tables.push(before_current).last() == before_current);
            }
            if is_new_user_key && current_bytes >= capacity {
                let mut sealed: Vec<KeyedEntry> = Vec::new();
                std::mem::swap(&mut sealed, &mut current);
                tables.push(sealed);
                current_bytes = entry_bytes(&entry);
                current.push(entry);
                proof {
                    assert(spec_tables_view(tables@) =~= before_tables.push(before_current));
                    assert(spec_entries_view(current@) =~= seq![views[i as int]]);
                    assert(spec_entries_view(current@).drop_last() =~= Seq::empty());
                    assert(spec_entries_view(current@).last() == views[i as int]);
                    assert(spec_run_bytes(Seq::<KeyedEntryView>::empty()) == 0);
                }
            } else {
                current_bytes = current_bytes.saturating_add(entry_bytes(&entry));
                current.push(entry);
                proof {
                    assert(spec_tables_view(tables@) =~= before_tables);
                    assert(spec_entries_view(current@) =~= before_current.push(views[i as int]));
                    assert(spec_entries_view(current@).drop_last() =~= before_current);
                    assert(spec_entries_view(current@).last() == views[i as int]);
                    let split_before = before_tables.push(before_current);
                    assert(split_before.update(
                        split_before.len() - 1,
                        before_current.push(views[i as int]),
                    ) =~= before_tables.push(spec_entries_view(current@)));
                }
            }
        }
        i += 1;
    }
    if i > 0 {
        let ghost before_tables = spec_tables_view(tables@);
        tables.push(current);
        assert(spec_tables_view(tables@) =~= before_tables.push(spec_entries_view(current@)));
    } else {
        assert(spec_tables_view(tables@) =~= Seq::empty());
    }
    tables
}

/// What a compaction produced: the range deletes of its input as events,
/// and the tables to write.
pub struct CompactOutput {
    pub events: Vec<MonotonicDeleteEvent>,
    pub tables: Vec<Vec<KeyedEntry>>,
}

/// Compacts the inputs of a task: the input runs are merged, the versions
/// that no reader needs are dropped, among them every version under a newer
/// range delete, and what is left is split into tables of about
/// `sstable_size` bytes. The range deletes become the events that the
/// tables carry.
pub fn compact(
    task: &CompactTask,
    input_runs: &Vec<Vec<KeyedEntry>>,
    tombstones: Vec<DeleteRangeTombstone>,
    sstable_size: u64,
) -> (r: CompactOutput)
    requires
        forall|k: int|
            0 <= k < input_runs@.len() ==> spec_sorted(#[trigger] spec_runs_view(input_runs@)[k]),
    ensures
        spec_keys_strictly_increasing(spec_event_keys(spec_monotonic_events_view(r.events@))),
        exists|sorted: Seq<DeleteRangeTombstoneView>, sweep: Seq<CompactionDeleteRangeEventView>|
            {
                &&& spec_tombstones_sorted(sorted)
                &&& sorted.to_multiset() == spec_tombstones_view(tombstones@).to_multiset()
                &&& spec_is_sweep_of(sweep, sorted)
                &&& spec_monotonic_events_view(r.events@) == spec_monotonic_events(
                    sweep,
                    sweep.len(),
                )
            },
        spec_tombstones_well_formed(spec_tombstones_view(tombstones@)) ==> forall|
            p: PointRangeView,
        |
            #[trigger] spec_epoch_at(spec_monotonic_events_view(r.events@), p) == spec_min_epoch(
                spec_active_at(spec_tombstones_view(tombstones@), p),
            ),
        spec_sorted(spec_concat(spec_tables_view(r.tables@))),
        exists|merged: Seq<KeyedEntryView>|
            {
                &&& spec_sorted(merged)
                &&& merged.to_multiset() == spec_union(
                    spec_runs_view(input_runs@),
                    input_runs@.len(),
                )
                &&& spec_tables_view(r.tables@) == ({
                    let kept = spec_compact(
                        merged,
                        task@,
                        spec_tombstones_view(tombstones@),
                        merged.len(),
                    );
                    spec_split(kept, sstable_size, kept.len())
                })
            },
{
    let merged = merge_sorted_runs(input_runs);
    let kept = compact_entries(&merged, task, &tombstones);
    let ghost deletes = spec_tombstones_view(tombstones@);
    let events = create_monotonic_events(tombstones);
    let ghost merged_view = spec_entries_view(merged@);
    let ghost kept_view = spec_entries_view(kept@);
    let tables = split_into_tables(kept, sstable_size);
    proof {
        crate::compaction::lemma_compact_keeps_order(
            merged_view,
            task@,
            deletes,
            merged_view.len(),
        );
        lemma_split(kept_view, sstable_size, kept_view.len());
        assert(kept_view.subrange(0, kept_view.len() as int) =~= kept_view);
        assert(spec_sorted(merged_view) && merged_view.to_multiset() == spec_union(
            spec_runs_view(input_runs@),
            input_runs@.len(),
        ) && spec_tables_view(tables@) == ({
            let kept = spec_compact(merged_view, task@, deletes, merged_view.len());
            spec_split(kept, sstable_size, kept.len())
        }));
    }
    CompactOutput { events, tables }
}

/// The metadata of a table that holds `table`, whose blocks take the first
/// `data_len` bytes of the file: the metadata follows the blocks, the keys
/// of the table are those of its first and its last version, and its size is
/// that of the blocks and of the encoded metadata together.
pub open spec fn spec_table_meta(
    table: Seq<KeyedEntryView>,
    block_metas: Seq<BlockMeta>,
    bloom_filter: Seq<u8>,
    events: Seq<MonotonicDeleteEvent>,
    data_len: u32,
) -> SstableMetaView {
    let unsized_meta = SstableMetaView {
        block_metas: spec_block_metas_view(block_metas),
        bloom_filter,
        estimated_size: 0,
        key_count: table.len() as u32,
        smallest_key: spec_encode_full_key(table.first().key),
        largest_key: spec_encode_full_key(table.last().key),
        meta_offset: data_len as u64,
        monotonic_tombstone_events: spec_events_view(events),
        version: VERSION,
    };
    SstableMetaView {
        estimated_size: (spec_encoded_size(unsized_meta) + data_len) as u32,
        ..unsized_meta
    }
}

/// The metadata of a table that holds `table`, whose blocks take the first
/// `data_len` bytes of the file.
pub fn build_table_meta(
    table: &Vec<KeyedEntry>,
    block_metas: Vec<BlockMeta>,
    bloom_filter: Vec<u8>,
    events: Vec<MonotonicDeleteEvent>,
    data_len: u32,
) -> (r: SstableMeta)
    requires
        0 < table@.len() <= u32::MAX,
        spec_encoded_size(
            spec_table_meta(
                spec_entries_view(table@),
                block_metas@,
                bloom_filter@,
                events@,
                data_len,
            ),
        ) + data_len <= u32::MAX,
    ensures
        r@ == spec_table_meta(
            spec_entries_view(table@),
            block_metas@,
            bloom_filter@,
            events@,
            data_len,
        ),
{
    let ghost views = spec_entries_view(table@);
    assert(views.first() == table@[0]@);
    assert(views.last() == table@[table@.len() - 1]@);
    let mut meta = SstableMeta {
        block_metas,
        bloom_filter,
        estimated_size: 0,
        key_count: table.len() as u32,
        smallest_key: table[0].key.encode(),
        largest_key: table[table.len() - 1].key.encode(),
        meta_offset: data_len as u64,
        monotonic_tombstone_events: events,
        version: VERSION,
    };
    let encoded_size = meta.encoded_size();
    meta.estimated_size = encoded_size as u32 + data_len;
    meta
}

/// The metadata of a table that holds `table`, whose blocks take the first
/// `data_len` bytes of the file; `None` where there is no such metadata:
/// the table is empty, or a count, a length or the size of the file does not
/// fit the four bytes that hold it.
pub fn try_build_table_meta(
    table: &Vec<KeyedEntry>,
    block_metas: Vec<BlockMeta>,
    bloom_filter: Vec<u8>,
    events: Vec<MonotonicDeleteEvent>,
    data_len: usize,
) -> (r: Option<SstableMeta>)
    ensures
        match r {
            Some(meta) => {
                &&& 0 < table@.len() <= u32::MAX
                &&& data_len <= u32::MAX
                &&& meta.encodable()
                &&& spec_encoded_size(meta@) + data_len <= u32::MAX
                &&& meta@ == spec_table_meta(
                    spec_entries_view(table@),
                    block_metas@,
                    bloom_filter@,
                    events@,
                    data_len as u32,
                )
            },
            None => {
                ||| table@.len() == 0
                ||| table@.len() > u32::MAX
                ||| data_len > u32::MAX
                ||| !crate::sstable_meta::spec_encodable(
                    spec_table_meta(
                        spec_entries_view(table@),
                        block_metas@,
                        bloom_filter@,
                        events@,
                        data_len as u32,
                    ),
                )
                ||| spec_encoded_size(
                    spec_table_meta(
                        spec_entries_view(table@),
                        block_metas@,
                        bloom_filter@,
                        events@,
                        data_len as u32,
                    ),
                ) + data_len > u32::MAX
            },
        },
{
    if table.len() == 0 || table.len() as u64 > 0xffff_ffff || data_len as u64 > 0xffff_ffff {
        return None;
    }
    let ghost views = spec_entries_view(table@);
    assert(views.first() == table@[0]@);
    assert(views.last() == table@[table@.len() - 1]@);
    let mut meta = SstableMeta {
        block_metas,
        bloom_filter,
        estimated_size: 0,
        key_count: table.len() as u32,
        smallest_key: table[0].key.encode(),
        largest_key: table[table.len() - 1].key.encode(),
        meta_offset: data_len as u64,
        monotonic_tombstone_events: events,
        version: VERSION,
    };
    let encoded_size = match meta.checked_encoded_size() {
        Some(n) => n,
        None => {
            return None;
        },
    };
    if encoded_size as u64 > 0xffff_ffff - data_len as u64 {
        return None;
    }
    meta.estimated_size = encoded_size as u32 + data_len as u32;
    Some(meta)
}

/// What a task reports to the metadata service.
pub struct CompactTaskResult {
    pub task_id: u64,
    pub task_status: TaskStatus,
    /// The tables that the task has written, in key order.
    pub sorted_output_ssts: Vec<SstableInfo>,
    /// The tables that the task has read, which its output replaces.
    pub input_ssts: Vec<u64>,
}

impl CompactTaskResult {
    /// The report of a task that ended in `task_status` after it had
    /// written `written`. Only a task that completed reports output: what a
    /// failed or cancelled task has written is not registered.
    pub fn new(
        task_id: u64,
        task_status: TaskStatus,
        written: Vec<SstableInfo>,
        input_ssts: Vec<u64>,
    ) -> (r: Self)
        ensures
            r.task_id == task_id,
            r.task_status == task_status,
            r.input_ssts == input_ssts,
            task_status is Completed ==> r.sorted_output_ssts == written,
            !(task_status is Completed) ==> r.sorted_output_ssts@.len() == 0,
    {
        let sorted_output_ssts = if task_status.may_register_output() {
            written
        } else {
            Vec::new()
        };
        CompactTaskResult { task_id, task_status, sorted_output_ssts, input_ssts }
    }
}

} // verus!
