use hummock::block_meta::BlockMeta;
use hummock::checksum::xxhash64_checksum;
use hummock::error::HummockError;
use hummock::key::TableId;
use hummock::sstable_meta::{SstableMeta, MAGIC, VERSION};
use hummock::tombstone::MonotonicDeleteEvent;

fn sample_meta() -> SstableMeta {
    SstableMeta {
        block_metas: vec![
            BlockMeta {
                smallest_key: b"0-smallest-key".to_vec(),
                offset: 0,
                len: 100,
                uncompressed_size: 0,
            },
            BlockMeta {
                smallest_key: b"5-some-key".to_vec(),
                offset: 100,
                len: 100,
                uncompressed_size: 0,
            },
        ],
        bloom_filter: b"0123456789".to_vec(),
        estimated_size: 123,
        key_count: 123,
        smallest_key: b"0-smallest-key".to_vec(),
        largest_key: b"9-largest-key".to_vec(),
        meta_offset: 123,
        monotonic_tombstone_events: vec![],
        version: VERSION,
    }
}

#[test]
pub fn test_sstable_meta_enc_dec() {
    let meta = SstableMeta {
        block_metas: vec![
            BlockMeta {
                smallest_key: b"0-smallest-key".to_vec(),
                offset: 0,
                len: 100,
                uncompressed_size: 0,
            },
            BlockMeta {
                smallest_key: b"5-some-key".to_vec(),
                offset: 100,
                len: 100,
                uncompressed_size: 0,
            },
        ],
        bloom_filter: b"0123456789".to_vec(),
        estimated_size: 123,
        key_count: 123,
        smallest_key: b"0-smallest-key".to_vec(),
        largest_key: b"9-largest-key".to_vec(),
        meta_offset: 123,
        monotonic_tombstone_events: vec![],
        version: VERSION,
    };
    let sz = meta.encoded_size();
    let buf = meta.encode_to_bytes();
    assert_eq!(sz, buf.len());
    let decoded_meta = SstableMeta::decode(&mut &buf[..]).unwrap();
    assert_eq!(decoded_meta, meta);
}

#[test]
fn test_round_trip_of_empty_meta() {
    let meta = SstableMeta {
        block_metas: vec![],
        bloom_filter: vec![],
        estimated_size: 0,
        key_count: 0,
        smallest_key: vec![],
        largest_key: vec![],
        meta_offset: 0,
        monotonic_tombstone_events: vec![],
        version: VERSION,
    };
    let buf = meta.encode_to_bytes();
    assert_eq!(buf.len(), 52);
    assert_eq!(meta.encoded_size(), 52);
    assert_eq!(SstableMeta::decode(&mut &buf[..]), Ok(meta));
}

#[test]
fn test_round_trip_with_events() {
    let mut meta = sample_meta();
    meta.monotonic_tombstone_events = vec![
        MonotonicDeleteEvent::new(TableId::new(1), b"aaa".to_vec(), 12),
        MonotonicDeleteEvent {
            event_key: hummock::key::PointRange::from_user_key(
                hummock::key::UserKey::new(TableId::new(1), hummock::key::TableKey(b"bbb".to_vec())),
                true,
            ),
            new_epoch: u64::MAX,
        },
    ];
    let buf = meta.encode_to_bytes();
    assert_eq!(meta.encoded_size(), buf.len());
    let decoded = SstableMeta::decode(&mut &buf[..]).unwrap();
    assert_eq!(decoded, meta);
    assert!(decoded.monotonic_tombstone_events[1].event_key.is_exclude_left_key);
}

#[test]
fn test_exact_bytes_of_block_meta() {
    let m = BlockMeta {
        smallest_key: b"ab".to_vec(),
        offset: 0x0102_0304,
        len: 5,
        uncompressed_size: 0x0a0b,
    };
    let mut buf = vec![0xffu8];
    m.encode(&mut buf);
    assert_eq!(
        buf,
        vec![0xff, 4, 3, 2, 1, 5, 0, 0, 0, 0x0b, 0x0a, 0, 0, 2, 0, 0, 0, b'a', b'b']
    );
    assert_eq!(m.encoded_size(), 18);
    let mut slice = &buf[1..];
    let back = BlockMeta::decode(&mut slice);
    assert_eq!(back, m);
    assert!(slice.is_empty());
}

#[test]
fn test_block_meta_decode_leaves_the_rest() {
    let m = BlockMeta {
        smallest_key: b"key".to_vec(),
        offset: 1,
        len: 2,
        uncompressed_size: 3,
    };
    let mut buf = Vec::new();
    m.encode(&mut buf);
    buf.extend_from_slice(b"rest");
    let mut slice = &buf[..];
    assert_eq!(BlockMeta::try_decode(&mut slice), Some(m));
    assert_eq!(slice, b"rest");
    let mut short = &buf[..10];
    assert_eq!(BlockMeta::try_decode(&mut short), None);
    assert_eq!(short.len(), 10);
}

#[test]
fn test_exact_bytes_of_event() {
    let e = MonotonicDeleteEvent::new(TableId::new(0x0102_0304), b"k".to_vec(), 0x1122_3344_5566_7788);
    let mut buf = Vec::new();
    e.encode(&mut buf);
    assert_eq!(
        buf,
        vec![4, 3, 2, 1, 1, 0, 0, 0, b'k', 0, 0x88, 0x77, 0x66, 0x55, 0x44, 0x33, 0x22, 0x11]
    );
    assert_eq!(e.encoded_size(), 18);
    let mut slice = &buf[..];
    assert_eq!(MonotonicDeleteEvent::decode(&mut slice), e);
    assert!(slice.is_empty());
    buf[9] = 2;
    assert_eq!(MonotonicDeleteEvent::try_decode(&mut &buf[..]), None);
}

#[test]
fn test_footer_layout() {
    let meta = sample_meta();
    let buf = meta.encode_to_bytes();
    let n = buf.len();
    assert_eq!(&buf[n - 4..], &MAGIC.to_le_bytes());
    assert_eq!(&buf[n - 4..], &[0x73, 0xab, 0x85, 0x57]);
    assert_eq!(&buf[n - 8..n - 4], &1u32.to_le_bytes());
    let checksum = xxhash64_checksum(&buf[..n - 16]);
    assert_eq!(&buf[n - 16..n - 8], &checksum.to_le_bytes());
    assert_eq!(&buf[n - 24..n - 16], &123u64.to_le_bytes());
    assert_eq!(&buf[..4], &2u32.to_le_bytes());
}

#[test]
fn test_checksum_is_xxhash64_with_seed_zero() {
    assert_eq!(xxhash64_checksum(b""), 0xef46_db37_51d8_e999);
    assert_ne!(xxhash64_checksum(b"a"), xxhash64_checksum(b"b"));
}

#[test]
fn test_encode_to_appends_and_checksums_its_own_bytes() {
    let meta = sample_meta();
    let alone = meta.encode_to_bytes();
    let mut buf = b"prefix".to_vec();
    meta.encode_to(&mut buf);
    assert_eq!(&buf[..6], b"prefix");
    assert_eq!(&buf[6..], &alone[..]);
}

#[test]
fn test_decode_does_not_advance() {
    let buf = sample_meta().encode_to_bytes();
    let mut slice = &buf[..];
    let _ = SstableMeta::decode(&mut slice).unwrap();
    assert_eq!(slice.len(), buf.len());
}

#[test]
fn test_corrupt_magic() {
    let mut buf = sample_meta().encode_to_bytes();
    let n = buf.len();
    buf[n - 1] ^= 0x01;
    let found = u32::from_le_bytes([buf[n - 4], buf[n - 3], buf[n - 2], buf[n - 1]]);
    assert_eq!(
        SstableMeta::decode(&mut &buf[..]),
        Err(HummockError::MagicMismatch { expected: MAGIC, found })
    );
}

#[test]
fn test_corrupt_version() {
    let mut buf = sample_meta().encode_to_bytes();
    let n = buf.len();
    buf[n - 8] = 2;
    let err = SstableMeta::decode(&mut &buf[..]).unwrap_err();
    assert_eq!(err, HummockError::InvalidFormatVersion(2));
    assert!(err.is_format_error());
}

#[test]
fn test_corrupt_checksum_field() {
    let clean = sample_meta().encode_to_bytes();
    let n = clean.len();
    let stored = xxhash64_checksum(&clean[..n - 16]);
    for i in n - 16..n - 8 {
        let mut buf = clean.clone();
        buf[i] ^= 0x80;
        let mut field = [0u8; 8];
        field.copy_from_slice(&buf[n - 16..n - 8]);
        assert_eq!(
            SstableMeta::decode(&mut &buf[..]),
            Err(HummockError::ChecksumMismatch {
                expected: u64::from_le_bytes(field),
                found: stored
            })
        );
    }
}

#[test]
fn test_corrupt_body() {
    let clean = sample_meta().encode_to_bytes();
    let n = clean.len();
    for i in 0..n - 16 {
        let mut buf = clean.clone();
        buf[i] ^= 0x01;
        let r = SstableMeta::decode(&mut &buf[..]);
        assert!(matches!(r, Err(HummockError::ChecksumMismatch { .. })));
    }
}

#[test]
fn test_truncated_input() {
    assert_eq!(SstableMeta::decode(&mut &b""[..]), Err(HummockError::DecodeError));
    assert_eq!(SstableMeta::decode(&mut &[1u8, 2, 3][..]), Err(HummockError::DecodeError));
    let magic = MAGIC.to_le_bytes();
    assert_eq!(SstableMeta::decode(&mut &magic[..]), Err(HummockError::DecodeError));
    let mut buf = VERSION.to_le_bytes().to_vec();
    buf.extend_from_slice(&magic);
    assert_eq!(SstableMeta::decode(&mut &buf[..]), Err(HummockError::DecodeError));
    // a body that ends before its first count, under a checksum that matches
    let mut buf = xxhash64_checksum(b"").to_le_bytes().to_vec();
    buf.extend_from_slice(&VERSION.to_le_bytes());
    buf.extend_from_slice(&magic);
    let err = SstableMeta::decode(&mut &buf[..]).unwrap_err();
    assert_eq!(err, HummockError::DecodeError);
    assert!(!err.is_format_error());
}

#[test]
fn test_decoded_version_is_the_written_one() {
    let mut meta = sample_meta();
    meta.version = 7;
    let buf = meta.encode_to_bytes();
    let decoded = SstableMeta::decode(&mut &buf[..]).unwrap();
    assert_eq!(decoded.version, VERSION);
    meta.version = VERSION;
    assert_eq!(decoded, meta);
}

#[test]
fn test_block_meta_table_id() {
    let mut key = vec![0, 0, 1, 2];
    key.extend_from_slice(b"row");
    key.extend_from_slice(&77u64.to_be_bytes());
    let m = BlockMeta { smallest_key: key.clone(), offset: 0, len: 0, uncompressed_size: 0 };
    assert_eq!(m.table_id(), TableId::new(258));
    let full = hummock::key::FullKey::decode(&key);
    assert_eq!(full.epoch, 77);
    assert_eq!(full.user_key.table_key.0, b"row".to_vec());
}

#[test]
fn test_error_messages() {
    assert_eq!(HummockError::MagicMismatch { expected: 1, found: 2 }.message(), "magic mismatch");
    assert_eq!(HummockError::InvalidFormatVersion(2).message(), "invalid format version");
    assert_eq!(
        HummockError::ChecksumMismatch { expected: 1, found: 2 }.message(),
        "checksum mismatch"
    );
    assert!(!HummockError::DecodeError.is_format_error());
    assert!(!HummockError::Connectivity.is_format_error());
    assert!(!HummockError::ResourceExhausted { requested: 2, limit: 1 }.is_format_error());
}

#[test]
fn test_length_prefixed_slice() {
    let mut buf = vec![];
    hummock::coding::put_length_prefixed_slice(&mut buf, b"abc");
    hummock::coding::put_length_prefixed_slice(&mut buf, b"");
    assert_eq!(buf, vec![3, 0, 0, 0, b'a', b'b', b'c', 0, 0, 0, 0]);
    let mut slice = &buf[..];
    assert_eq!(hummock::coding::get_length_prefixed_slice(&mut slice), b"abc".to_vec());
    assert_eq!(slice.len(), 4);
    assert_eq!(hummock::coding::try_get_length_prefixed_slice(&mut slice), Some(vec![]));
    assert_eq!(hummock::coding::try_get_length_prefixed_slice(&mut slice), None);
    let mut short = &[5u8, 0, 0, 0, 1, 2][..];
    assert_eq!(hummock::coding::try_get_length_prefixed_slice(&mut short), None);
    assert_eq!(short.len(), 6);
    let mut n = &[1u8, 2, 3, 4, 5, 6, 7, 8, 9][..];
    assert_eq!(hummock::coding::try_get_u64_le(&mut n), Some(0x0807_0605_0403_0201));
    assert_eq!(hummock::coding::try_get_u32_le(&mut n), None);
    assert_eq!(n, &[9u8][..]);
    assert_eq!(hummock::coding::checked_into_u32(7), 7);
}
