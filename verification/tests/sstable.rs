use hummock::block_meta::BlockMeta;
use hummock::key::{FullKey, TableId, TableKey, UserKey, MAX_EPOCH};
use hummock::sstable::{
    get_min_delete_range_epoch_from_sstable, BlockLocation, CachePolicy, CachePriority,
    ReadOptions, Sstable, SstableIteratorReadOptions,
};
use hummock::sstable_meta::{SstableMeta, VERSION};
use hummock::tombstone::MonotonicDeleteEvent;

fn meta() -> SstableMeta {
    SstableMeta {
        block_metas: vec![
            BlockMeta { smallest_key: b"a".to_vec(), offset: 0, len: 100, uncompressed_size: 300 },
            BlockMeta { smallest_key: b"m".to_vec(), offset: 100, len: 50, uncompressed_size: 70 },
        ],
        bloom_filter: vec![1, 2, 3],
        estimated_size: 150,
        key_count: 9,
        smallest_key: b"a".to_vec(),
        largest_key: b"z".to_vec(),
        meta_offset: 150,
        monotonic_tombstone_events: vec![
            MonotonicDeleteEvent::new(TableId::new(1), b"c".to_vec(), 77),
            MonotonicDeleteEvent::new(TableId::new(1), b"f".to_vec(), MAX_EPOCH),
        ],
        version: VERSION,
    }
}

#[test]
fn test_sstable_handle() {
    let m = meta();
    let encoded_with_filter = m.encoded_size();
    let table = Sstable::new(42, m);
    assert!(table.has_bloom_filter());
    assert_eq!(table.filter_data, vec![1, 2, 3]);
    assert!(table.meta.bloom_filter.is_empty());
    assert_eq!(table.block_count(), 2);
    assert_eq!(
        table.calculate_block_info(1),
        (BlockLocation { offset: 100, size: 50 }, 70)
    );
    assert_eq!(table.estimate_size(), 8 + 3 + encoded_with_filter - 3);
    let info = table.get_sstable_info();
    assert_eq!(info.object_id, 42);
    assert_eq!(info.sst_id, 42);
    assert_eq!(info.file_size, 150);
    assert_eq!(info.total_key_count, 9);
    assert_eq!(info.meta_offset, 150);
    let range = info.key_range.unwrap();
    assert_eq!((range.left, range.right, range.right_exclusive), (b"a".to_vec(), b"z".to_vec(), false));
    let key = |k: &[u8]| UserKey::new(TableId::new(1), TableKey(k.to_vec()));
    assert_eq!(get_min_delete_range_epoch_from_sstable(&table, &key(b"b")), MAX_EPOCH);
    assert_eq!(get_min_delete_range_epoch_from_sstable(&table, &key(b"c")), 77);
    assert_eq!(get_min_delete_range_epoch_from_sstable(&table, &key(b"e")), 77);
    assert_eq!(get_min_delete_range_epoch_from_sstable(&table, &key(b"f")), MAX_EPOCH);
    let mut empty = meta();
    empty.bloom_filter = vec![];
    assert!(!Sstable::new(1, empty).has_bloom_filter());
}

#[test]
fn test_filter_hashes_mix_in_the_table_id() {
    let h = Sstable::hash_for_bloom_filter(b"key", 0);
    assert_eq!(Sstable::hash_for_bloom_filter(b"key", 5), h ^ 5);
    let h32 = Sstable::hash_for_bloom_filter_u32(b"key", 0);
    assert_eq!(Sstable::hash_for_bloom_filter_u32(b"key", 0xff00), h32 ^ 0xff00);
    assert_eq!(Sstable::hash_for_bloom_filter_u32(b"", 0), 0x02cc_5d05);
    assert_ne!(Sstable::hash_for_bloom_filter(b"key", 0), Sstable::hash_for_bloom_filter(b"kez", 0));
}

#[test]
fn test_full_key_encoding() {
    let key = FullKey {
        user_key: UserKey::new(TableId::new(0x0102_0304), TableKey(b"row".to_vec())),
        epoch: 0x1122_3344_5566_7788,
    };
    let bytes = key.encode();
    assert_eq!(
        bytes,
        vec![1, 2, 3, 4, b'r', b'o', b'w', 0x11, 0x22, 0x33, 0x44, 0x55, 0x66, 0x77, 0x88]
    );
    assert_eq!(FullKey::decode(&bytes), key);
    let empty = FullKey { user_key: UserKey::new(TableId::new(0), TableKey(vec![])), epoch: 0 };
    assert_eq!(empty.encode(), vec![0; 12]);
    assert_eq!(FullKey::decode(&[0; 12]), empty);
}

#[test]
fn test_iterator_read_options() {
    let read = ReadOptions { table_id: 3, cache_policy: CachePolicy::Fill(CachePriority::High) };
    let options = SstableIteratorReadOptions::from_read_options(&read);
    assert_eq!(options.cache_policy, CachePolicy::Fill(CachePriority::High));
    assert_eq!(options.must_iterated_end_user_key, None);
}
