use hummock::compaction::{
    compact_entries, subtract_ms, CompactTask, KeyedEntry, COMPACTION_FILTER_NONE,
    COMPACTION_FILTER_STATE_CLEAN, COMPACTION_FILTER_TTL,
};
use hummock::compactor_runner::{
    build_table_meta, compact, entry_bytes, run_bytes, split_into_tables, try_build_table_meta,
    CompactTaskResult, TaskEvent, TaskProgress, TaskStatus,
};
use hummock::key::{FullKey, KeyOrder, TableId, TableKey, UserKey};
use hummock::merge::{is_sorted, merge_sorted_runs, merge_two};
use hummock::tombstone::DeleteRangeTombstone;
use std::collections::{HashMap, HashSet};

fn entry(table: u32, key: &[u8], epoch: u64, value: &[u8]) -> KeyedEntry {
    KeyedEntry {
        key: FullKey {
            user_key: UserKey::new(TableId::new(table), TableKey(key.to_vec())),
            epoch,
        },
        value: value.to_vec(),
    }
}

fn task(watermark: u64, mask: u32) -> CompactTask {
    CompactTask {
        watermark,
        compaction_filter_mask: mask,
        table_options: HashMap::new(),
        existing_table_ids: HashSet::new(),
        current_epoch_time: 0,
        target_level: 0,
    }
}

#[test]
fn test_watermark_keeps_one_version_at_or_below() {
    const SST_COUNT: u64 = 32;
    const TEST_WATERMARK: u64 = 8;
    // one table file per put, the newest first once merged
    let runs: Vec<Vec<KeyedEntry>> = (1..SST_COUNT + 1)
        .map(|v| vec![entry(0, b"\0\0same_key", (v * 1000) << 16, &((v * 1000) << 16).to_be_bytes())])
        .collect();
    let mut t = task((TEST_WATERMARK * 1000) << 16, COMPACTION_FILTER_TTL);
    t.table_options = HashMap::from([(0, 64)]);
    t.current_epoch_time = 0;
    let out = compact(&t, &runs, vec![], 1 << 20);
    let kept: Vec<&KeyedEntry> = out.tables.iter().flatten().collect();
    assert_eq!(kept.len() as u64, SST_COUNT - TEST_WATERMARK + 1);
    assert_eq!(kept.len(), 25);
    // the same key is never split over two tables
    assert_eq!(out.tables.len(), 1);
    // the version that a read at the watermark sees is still there, the older ones are gone
    let last = kept.last().unwrap();
    assert_eq!(last.key.epoch, (TEST_WATERMARK * 1000) << 16);
    assert_eq!(last.value, ((TEST_WATERMARK * 1000) << 16).to_be_bytes().to_vec());
    assert_eq!(kept[0].key.epoch, (SST_COUNT * 1000) << 16);
}

#[test]
fn test_watermark_between_versions_keeps_the_newest_below() {
    let entries = vec![
        entry(1, b"k", 9000, b"9"),
        entry(1, b"k", 7000, b"7"),
        entry(1, b"k", 6000, b"6"),
        entry(1, b"l", 100, b"only"),
    ];
    let kept = compact_entries(&entries, &task(8000, COMPACTION_FILTER_NONE), &vec![]);
    assert_eq!(kept, vec![entries[0].clone(), entries[1].clone(), entries[3].clone()]);
}

#[test]
fn test_drop_keys_of_unregistered_table() {
    let entries = vec![
        entry(1, b"a", 10, b""),
        entry(1, b"b", 10, b""),
        entry(2, b"a", 10, b""),
        entry(2, b"a", 5, b""),
        entry(3, b"z", 10, b""),
    ];
    let mut t = task(0, COMPACTION_FILTER_STATE_CLEAN);
    t.existing_table_ids = HashSet::from([1, 3]);
    let kept = compact_entries(&entries, &t, &vec![]);
    assert_eq!(kept, vec![entries[0].clone(), entries[1].clone(), entries[4].clone()]);
    assert!(kept.iter().all(|e| e.key.user_key.table_id.table_id() != 2));
    // without the filter nothing goes
    t.compaction_filter_mask = COMPACTION_FILTER_TTL;
    assert_eq!(compact_entries(&entries, &t, &vec![]), entries);
    // no table registered: everything goes
    t.compaction_filter_mask = COMPACTION_FILTER_STATE_CLEAN | COMPACTION_FILTER_TTL;
    t.existing_table_ids = HashSet::new();
    assert!(compact_entries(&entries, &t, &vec![]).is_empty());
}

#[test]
fn test_retention_seconds() {
    let existing_table_id = 2;
    let kv_count = 11u64;
    let base_epoch: u64 = 1_700_000_000_000 << 16;
    let millisec_interval_epoch: u64 = (1 << 16) * 100;
    let mut epoch = base_epoch;
    let mut entries = vec![];
    for i in 0..kv_count {
        epoch += millisec_interval_epoch;
        entries.push(entry(existing_table_id, &[1, i as u8], epoch, b"0"));
    }
    let retention_seconds_expire_second = 1u32;
    let mut t = task(0, COMPACTION_FILTER_STATE_CLEAN | COMPACTION_FILTER_TTL);
    t.existing_table_ids = HashSet::from([existing_table_id]);
    t.table_options = HashMap::from([(existing_table_id, retention_seconds_expire_second)]);
    t.current_epoch_time = epoch;
    let kept = compact_entries(&entries, &t, &vec![]);
    let expect_count = kv_count as u32 - retention_seconds_expire_second + 1;
    assert_eq!(expect_count as usize, kept.len());
    // half a second later the first five are too old
    t.current_epoch_time = epoch + 5 * millisec_interval_epoch;
    let kept = compact_entries(&entries, &t, &vec![]);
    assert_eq!(kept.len(), 6);
    assert_eq!(kept[0], entries[5]);
    // a table without a retention time keeps everything
    t.table_options = HashMap::from([(7, 1)]);
    assert_eq!(compact_entries(&entries, &t, &vec![]).len(), 11);
}

#[test]
fn test_subtract_ms() {
    assert_eq!(subtract_ms(5000 << 16, 1000), 4000 << 16);
    assert_eq!(subtract_ms((5000 << 16) | 0xffff, 5000), 0);
    assert_eq!(subtract_ms(5000 << 16, 5001), 0);
    assert_eq!(subtract_ms(0, 64_000), 0);
}

#[test]
fn test_range_delete_drops_older_versions() {
    let tombstones = vec![DeleteRangeTombstone::new_for_test(
        TableId::new(1),
        b"b".to_vec(),
        b"d".to_vec(),
        50,
    )];
    let entries = vec![
        entry(1, b"a", 10, b""),
        entry(1, b"b", 60, b""),
        entry(1, b"b", 40, b""),
        entry(1, b"c", 50, b""),
        entry(1, b"c", 49, b""),
        entry(1, b"d", 10, b""),
    ];
    let kept = compact_entries(&entries, &task(0, COMPACTION_FILTER_NONE), &tombstones);
    assert_eq!(
        kept,
        vec![entries[0].clone(), entries[1].clone(), entries[3].clone(), entries[5].clone()]
    );
}

#[test]
fn test_merge_orders_by_key_then_newest_first() {
    let a = vec![entry(1, b"a", 5, b"a5"), entry(1, b"c", 9, b"c9")];
    let b = vec![entry(1, b"a", 7, b"a7"), entry(1, b"b", 1, b"b1"), entry(2, b"a", 1, b"")];
    let c = vec![];
    let merged = merge_sorted_runs(&vec![a.clone(), b.clone(), c]);
    assert_eq!(
        merged,
        vec![b[0].clone(), a[0].clone(), b[1].clone(), a[1].clone(), b[2].clone()]
    );
    assert_eq!(merge_two(&a, &vec![]), a);
    assert_eq!(a[0].key.compare(&b[0].key), KeyOrder::Greater);
    assert_eq!(b[0].key.compare(&a[0].key), KeyOrder::Less);
    assert_eq!(a[0].key.compare(&a[0].key), KeyOrder::Equal);
    assert!(merge_sorted_runs(&vec![]).is_empty());
    assert!(is_sorted(&merged));
    assert!(is_sorted(&vec![]));
    assert!(is_sorted(&vec![a[0].clone(), a[0].clone()]));
    assert!(!is_sorted(&vec![a[0].clone(), b[0].clone()]));
}

#[test]
fn test_split_keeps_a_user_key_in_one_table() {
    let entries = vec![
        entry(1, b"a", 9, &[0; 28]),
        entry(1, b"a", 8, &[0; 28]),
        entry(1, b"a", 7, &[0; 28]),
        entry(1, b"b", 9, &[0; 28]),
        entry(1, b"c", 9, &[0; 28]),
        entry(1, b"c", 8, &[0; 28]),
    ];
    assert_eq!(entry_bytes(&entries[0]), 12 + 1 + 28);
    assert_eq!(run_bytes(&entries), 6 * 41);
    let tables = split_into_tables(entries.clone(), 50);
    assert_eq!(
        tables,
        vec![entries[0..3].to_vec(), entries[3..6].to_vec()]
    );
    let tables = split_into_tables(entries.clone(), 1);
    assert_eq!(
        tables,
        vec![entries[0..3].to_vec(), entries[3..4].to_vec(), entries[4..6].to_vec()]
    );
    assert_eq!(split_into_tables(entries.clone(), u64::MAX), vec![entries]);
    assert!(split_into_tables(vec![], 10).is_empty());
}

#[test]
fn test_compact_end_to_end() {
    let runs = vec![
        vec![entry(1, b"a", 30, b"new"), entry(1, b"b", 30, b"x"), entry(2, b"a", 30, b"y")],
        vec![entry(1, b"a", 20, b"old"), entry(1, b"c", 5, b"z")],
    ];
    let mut t = task(25, COMPACTION_FILTER_STATE_CLEAN);
    t.existing_table_ids = HashSet::from([1]);
    let tombstones =
        vec![DeleteRangeTombstone::new_for_test(TableId::new(1), b"c".to_vec(), b"d".to_vec(), 8)];
    let out = compact(&t, &runs, tombstones, 1);
    let kept: Vec<KeyedEntry> = out.tables.iter().flatten().cloned().collect();
    assert_eq!(
        kept,
        vec![runs[0][0].clone(), runs[1][0].clone(), runs[0][1].clone()]
    );
    assert_eq!(out.tables.len(), 2);
    assert_eq!(out.events.len(), 2);
    let mut progress = TaskProgress::new();
    for table in &out.tables {
        progress.record_table(table);
    }
    assert_eq!(progress.keys_processed, 3);
    assert_eq!(progress.bytes_written, (13 + 3) + (13 + 3) + (13 + 1));
}

#[test]
fn test_task_states() {
    let (start, finish, fail, cancel) =
        (TaskEvent::Start, TaskEvent::Finish, TaskEvent::Fail, TaskEvent::Cancel);
    let (pending, running, completed, failed, cancelled) = (
        TaskStatus::Pending,
        TaskStatus::Running,
        TaskStatus::Completed,
        TaskStatus::Failed,
        TaskStatus::Cancelled,
    );
    assert_eq!(pending.on_event(start), running);
    assert_eq!(pending.on_event(cancel), cancelled);
    assert_eq!(pending.on_event(finish), pending);
    assert_eq!(pending.on_event(fail), pending);
    assert_eq!(running.on_event(finish), completed);
    assert_eq!(running.on_event(fail), failed);
    assert_eq!(running.on_event(cancel), cancelled);
    assert_eq!(running.on_event(start), running);
    for end in [completed, failed, cancelled] {
        assert!(end.is_terminal());
        for e in [start, finish, fail, cancel] {
            assert_eq!(end.on_event(e), end);
        }
        assert_eq!(end.may_register_output(), end == completed);
    }
    assert!(!pending.is_terminal());
    assert!(!running.is_terminal());
    assert!(!running.may_register_output());
}

#[test]
fn test_table_meta_and_task_result() {
    let table = vec![entry(1, b"a", 9, b"x"), entry(1, b"b", 3, b"y")];
    let meta = build_table_meta(&table, vec![], vec![7, 7], vec![], 100);
    assert_eq!(meta.key_count, 2);
    assert_eq!(meta.meta_offset, 100);
    assert_eq!(meta.smallest_key, table[0].key.encode());
    assert_eq!(meta.largest_key, table[1].key.encode());
    assert_eq!(meta.bloom_filter, vec![7, 7]);
    assert_eq!(meta.estimated_size as usize, 100 + meta.encoded_size());
    assert_eq!(meta.estimated_size as usize, 100 + meta.encode_to_bytes().len());
    assert_eq!(meta.checked_encoded_size(), Some(meta.encoded_size()));
    assert_eq!(try_build_table_meta(&table, vec![], vec![7, 7], vec![], 100), Some(meta.clone()));
    assert_eq!(try_build_table_meta(&vec![], vec![], vec![], vec![], 0), None);
    assert_eq!(try_build_table_meta(&table, vec![], vec![], vec![], u32::MAX as usize), None);
    let info = hummock::sstable::Sstable::new(5, meta).get_sstable_info();
    let done = CompactTaskResult::new(1, TaskStatus::Completed, vec![info.clone()], vec![3, 4]);
    assert_eq!(done.sorted_output_ssts, vec![info.clone()]);
    assert_eq!(done.input_ssts, vec![3, 4]);
    for status in [TaskStatus::Failed, TaskStatus::Cancelled, TaskStatus::Running, TaskStatus::Pending] {
        let r = CompactTaskResult::new(1, status, vec![info.clone()], vec![3, 4]);
        assert!(r.sorted_output_ssts.is_empty());
        assert_eq!(r.task_status, status);
        assert_eq!(r.input_ssts, vec![3, 4]);
    }
}

#[test]
fn test_watermark_keeps_the_newer_versions_and_one_more() {
    // versions of one key at epochs 90, 80, .., 10
    let entries: Vec<KeyedEntry> = (1..10u64).rev().map(|v| entry(1, b"k", v * 10, &[v as u8])).collect();
    let none: Vec<DeleteRangeTombstone> = vec![];
    for (watermark, expected) in [(0u64, 9usize), (5, 9), (10, 9), (11, 9), (45, 6), (50, 5), (90, 1), (95, 1)] {
        let kept = compact_entries(&entries, &task(watermark, COMPACTION_FILTER_NONE), &none);
        let newer = entries.iter().filter(|e| e.key.epoch > watermark).count();
        let any_other = entries.iter().any(|e| e.key.epoch <= watermark);
        assert_eq!(kept.len(), newer + usize::from(any_other));
        assert_eq!(kept.len(), expected);
        assert_eq!(kept[..], entries[..kept.len()]);
    }
}

#[test]
fn test_state_clean_keeps_each_registered_version_once() {
    let kv_count: u64 = 128;
    let entries: Vec<KeyedEntry> = (0..kv_count)
        .map(|i| entry(1 + (i % 2) as u32, &i.to_be_bytes(), 100 + i, &[i as u8]))
        .collect();
    let mut sorted = entries.clone();
    sorted.sort_by(|a, b| {
        (a.key.user_key.table_id.table_id, &a.key.user_key.table_key.0)
            .cmp(&(b.key.user_key.table_id.table_id, &b.key.user_key.table_key.0))
    });
    let mut t = task(0, COMPACTION_FILTER_STATE_CLEAN | COMPACTION_FILTER_TTL);
    t.existing_table_ids = HashSet::from([2]);
    let none: Vec<DeleteRangeTombstone> = vec![];
    let kept = compact_entries(&sorted, &t, &none);
    assert_eq!(kept.len() as u64, kv_count / 2);
    let expected: Vec<KeyedEntry> =
        sorted.iter().filter(|e| e.key.user_key.table_id.table_id == 2).cloned().collect();
    assert_eq!(kept, expected);
}

#[test]
fn test_version_between_two_range_deletes_is_dropped() {
    let (e1, e2) = (100u64, 200u64);
    let tombstones = vec![
        DeleteRangeTombstone::new_for_test(TableId::new(1), b"a".to_vec(), b"b".to_vec(), e1),
        DeleteRangeTombstone::new_for_test(TableId::new(1), b"a".to_vec(), b"b".to_vec(), e2),
    ];
    for (epoch, stays) in [(e1 - 1, false), (e1, false), (150, false), (e2 - 1, false), (e2, true), (e2 + 1, true)] {
        let entries = vec![entry(1, b"a1", epoch, b"v")];
        let kept = compact_entries(&entries, &task(e2, COMPACTION_FILTER_NONE), &tombstones);
        assert_eq!(kept.len(), usize::from(stays), "epoch {}", epoch);
        // the same through a whole task, in either order of the range deletes
        let mut reversed = tombstones.clone();
        reversed.reverse();
        let out = compact(&task(e2, COMPACTION_FILTER_NONE), &vec![entries.clone()], reversed, 1 << 20);
        assert_eq!(out.tables.iter().flatten().count(), usize::from(stays));
        // the events of the output report the smaller epoch from the start of the range on
        assert_eq!(out.events.len(), 2);
        assert_eq!(out.events[0].new_epoch, e1);
    }
    // outside the range, and in another table, nothing is dropped
    let outside = vec![entry(1, b"b", 1, b"v"), entry(2, b"a1", 1, b"v")];
    assert_eq!(compact_entries(&outside, &task(0, COMPACTION_FILTER_NONE), &tombstones), outside);
}
