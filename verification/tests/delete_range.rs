use hummock::delete_range::{
    build_events, create_monotonic_events, create_monotonic_events_from_compaction_delete_events,
    events_ascend, get_min_delete_range_epoch, is_deleted, sort_tombstones,
    CompactionDeleteRangeEvent,
};
use hummock::key::{KeyOrder, PointRange, TableId, TableKey, UserKey, MAX_EPOCH};
use hummock::tombstone::{DeleteRangeTombstone, MonotonicDeleteEvent};

fn tombstone(start: &[u8], end: &[u8], epoch: u64) -> DeleteRangeTombstone {
    DeleteRangeTombstone::new_for_test(TableId::new(1), start.to_vec(), end.to_vec(), epoch)
}

fn event(key: &[u8], epoch: u64) -> MonotonicDeleteEvent {
    MonotonicDeleteEvent::new(TableId::new(1), key.to_vec(), epoch)
}

fn user_key(key: &[u8]) -> UserKey {
    UserKey::new(TableId::new(1), TableKey(key.to_vec()))
}

#[test]
fn test_contiguous_tombstones_give_one_event_per_boundary() {
    let (e1, e2, e3) = (10, 20, 30);
    let events = create_monotonic_events(vec![
        tombstone(&[7], &[11], e3),
        tombstone(&[0], &[5], e1),
        tombstone(&[5], &[7], e2),
    ]);
    assert_eq!(
        events,
        vec![event(&[0], e1), event(&[5], e2), event(&[7], e3), event(&[11], MAX_EPOCH)]
    );
}

#[test]
fn test_no_tombstones_no_events() {
    let events = create_monotonic_events(vec![]);
    assert!(events.is_empty());
    assert_eq!(get_min_delete_range_epoch(&events, &user_key(b"any")), MAX_EPOCH);
    assert!(!is_deleted(&events, &user_key(b"any"), 0));
}

#[test]
fn test_identical_ranges_report_the_smaller_epoch() {
    let (e1, e2) = (100, 200);
    let events = create_monotonic_events(vec![tombstone(b"a", b"b", e1), tombstone(b"a", b"b", e2)]);
    assert_eq!(events, vec![event(b"a", e1), event(b"b", MAX_EPOCH)]);
    let swapped =
        create_monotonic_events(vec![tombstone(b"a", b"b", e2), tombstone(b"a", b"b", e1)]);
    assert_eq!(swapped, events);
    assert_eq!(get_min_delete_range_epoch(&events, &user_key(b"a")), e1);
    assert_eq!(get_min_delete_range_epoch(&events, &user_key(b"aa")), e1);
    assert_eq!(get_min_delete_range_epoch(&events, &user_key(b"b")), MAX_EPOCH);
    // a version is deleted exactly when it is older than the epoch that the event reports
    assert!(is_deleted(&events, &user_key(b"a"), e1 - 1));
    assert!(!is_deleted(&events, &user_key(b"a"), e1));
    assert!(!is_deleted(&events, &user_key(b"a"), e2));
    assert!(!is_deleted(&events, &user_key(b"a"), e2 + 1));
    assert!(!is_deleted(&events, &user_key(b"b"), 0));
    assert!(!is_deleted(&events, &user_key(b"0"), 0));
    // under the tombstones themselves a version lies as long as one of them is newer
    let tombstones = vec![tombstone(b"a", b"b", e1), tombstone(b"a", b"b", e2)];
    let covered = |epoch| hummock::sweep::is_covered_by_newer_tombstone(&tombstones, &user_key(b"a"), epoch);
    assert!(covered(e1 - 1));
    assert!(covered(e1));
    assert!(covered(e1 + 1));
    assert!(covered(e2 - 1));
    assert!(!covered(e2));
    assert!(!covered(e2 + 1));
    assert!(!hummock::sweep::is_covered_by_newer_tombstone(&tombstones, &user_key(b"b"), 0));
}

#[test]
fn test_sort_order_of_tombstones() {
    let sorted = sort_tombstones(&vec![
        tombstone(b"b", b"c", 1),
        tombstone(b"a", b"c", 1),
        tombstone(b"a", b"b", 1),
        tombstone(b"a", b"b", 9),
    ]);
    assert_eq!(
        sorted,
        vec![
            tombstone(b"a", b"b", 9),
            tombstone(b"a", b"b", 1),
            tombstone(b"a", b"c", 1),
            tombstone(b"b", b"c", 1),
        ]
    );
    assert_eq!(sorted[0].compare(&sorted[1]), KeyOrder::Less);
    assert_eq!(sorted[1].compare(&sorted[0]), KeyOrder::Greater);
    assert_eq!(sorted[1].compare(&sorted[1]), KeyOrder::Equal);
}

#[test]
fn test_build_events_groups_by_boundary() {
    let events = build_events(&vec![tombstone(b"a", b"c", 5), tombstone(b"b", b"c", 7), tombstone(b"c", b"d", 9)]);
    let point = |k: &[u8]| PointRange::from_user_key(user_key(k), false);
    assert_eq!(
        events,
        vec![
            CompactionDeleteRangeEvent { event_key: point(b"a"), exit: vec![], enter: vec![5] },
            CompactionDeleteRangeEvent { event_key: point(b"b"), exit: vec![], enter: vec![7] },
            CompactionDeleteRangeEvent { event_key: point(b"c"), exit: vec![5, 7], enter: vec![9] },
            CompactionDeleteRangeEvent { event_key: point(b"d"), exit: vec![9], enter: vec![] },
        ]
    );
    let monotonic = create_monotonic_events_from_compaction_delete_events(events);
    assert_eq!(
        monotonic,
        vec![event(b"a", 5), event(b"c", 9), event(b"d", MAX_EPOCH)]
    );
}

#[test]
fn test_nested_ranges() {
    // [a, z) at 50 around [c, e) at 30: the inner range wins while it holds
    let events = create_monotonic_events(vec![tombstone(b"a", b"z", 50), tombstone(b"c", b"e", 30)]);
    assert_eq!(
        events,
        vec![event(b"a", 50), event(b"c", 30), event(b"e", 50), event(b"z", MAX_EPOCH)]
    );
    assert_eq!(get_min_delete_range_epoch(&events, &user_key(b"d")), 30);
    assert_eq!(get_min_delete_range_epoch(&events, &user_key(b"f")), 50);
    assert_eq!(get_min_delete_range_epoch(&events, &user_key(b"zz")), MAX_EPOCH);
    assert_eq!(get_min_delete_range_epoch(&events, &user_key(b"A")), MAX_EPOCH);
}

#[test]
fn test_dedup_is_by_table_and_epoch() {
    let point = |t: u32, k: &[u8]| PointRange::from_user_key(UserKey::new(TableId::new(t), TableKey(k.to_vec())), false);
    let events = vec![
        CompactionDeleteRangeEvent { event_key: point(1, b"a"), exit: vec![], enter: vec![5] },
        CompactionDeleteRangeEvent { event_key: point(1, b"b"), exit: vec![], enter: vec![8] },
        CompactionDeleteRangeEvent { event_key: point(2, b"a"), exit: vec![8], enter: vec![] },
    ];
    let monotonic = create_monotonic_events_from_compaction_delete_events(events);
    assert_eq!(
        monotonic,
        vec![
            MonotonicDeleteEvent::new(TableId::new(1), b"a".to_vec(), 5),
            MonotonicDeleteEvent::new(TableId::new(2), b"a".to_vec(), 5),
        ]
    );
}

#[test]
fn test_exclusive_boundary_sorts_behind_inclusive() {
    let t = DeleteRangeTombstone::new(TableId::new(1), b"a".to_vec(), true, b"c".to_vec(), true, 4);
    let events = create_monotonic_events(vec![t]);
    assert_eq!(events.len(), 2);
    assert!(events[0].event_key.is_exclude_left_key);
    // the start key itself is left out, the end key itself is taken in
    assert_eq!(get_min_delete_range_epoch(&events, &user_key(b"a")), MAX_EPOCH);
    assert_eq!(get_min_delete_range_epoch(&events, &user_key(b"b")), 4);
    assert_eq!(get_min_delete_range_epoch(&events, &user_key(b"c")), 4);
    assert_eq!(get_min_delete_range_epoch(&events, &user_key(b"ca")), MAX_EPOCH);
}

#[test]
fn test_key_order() {
    let a = UserKey::new(TableId::new(1), TableKey(b"zz".to_vec()));
    let b = UserKey::new(TableId::new(2), TableKey(b"a".to_vec()));
    assert_eq!(a.compare(&b), KeyOrder::Less);
    assert_eq!(user_key(b"a").compare(&user_key(b"ab")), KeyOrder::Less);
    assert_eq!(user_key(b"b").compare(&user_key(b"ab")), KeyOrder::Greater);
    assert_eq!(user_key(b"").compare(&user_key(b"")), KeyOrder::Equal);
    assert_eq!(user_key(b"ab").encoded_len(), 6);
}

#[test]
fn test_events_ascend() {
    assert!(events_ascend(&vec![]));
    assert!(events_ascend(&vec![event(b"a", 1)]));
    assert!(events_ascend(&vec![event(b"a", 1), event(b"b", 1), event(b"c", 1)]));
    assert!(!events_ascend(&vec![event(b"a", 1), event(b"a", 2)]));
    assert!(!events_ascend(&vec![event(b"a", 1), event(b"c", 1), event(b"b", 1)]));
    let events = create_monotonic_events(vec![
        tombstone(b"m", b"q", 3),
        tombstone(b"a", b"z", 9),
        tombstone(b"b", b"c", 4),
        tombstone(b"b", b"n", 6),
    ]);
    assert!(events_ascend(&events));
    for (i, pair) in events.windows(2).enumerate() {
        assert_ne!(pair[0].new_epoch, pair[1].new_epoch, "events {} and {} repeat", i, i + 1);
    }
    // every point answers with the smallest epoch among the tombstones that cover it
    for (key, expected) in [
        (&b"0"[..], MAX_EPOCH),
        (b"a", 9),
        (b"b", 4),
        (b"bz", 4),
        (b"c", 6),
        (b"m", 3),
        (b"n", 3),
        (b"p", 3),
        (b"q", 9),
        (b"y", 9),
        (b"z", MAX_EPOCH),
    ] {
        assert_eq!(get_min_delete_range_epoch(&events, &user_key(key)), expected);
    }
}

#[test]
fn test_well_formed_tombstones() {
    use_well_formed();
}

fn use_well_formed() {
    let good = vec![tombstone(b"a", b"b", 1), tombstone(b"a", b"c", 2)];
    assert!(hummock::sweep::tombstones_well_formed(&good));
    assert!(hummock::sweep::tombstones_well_formed(&vec![]));
    assert!(!hummock::sweep::tombstones_well_formed(&vec![tombstone(b"a", b"a", 1)]));
    assert!(!hummock::sweep::tombstones_well_formed(&vec![
        tombstone(b"a", b"b", 1),
        tombstone(b"c", b"b", 1)
    ]));
}
