use hummock::log_store_buffer::{bitmap_or, LogStoreBufferInner, LogStoreBufferItem};
use hummock::stream_chunk::{Op, StreamChunk};
use std::sync::Arc;

fn chunk(n: i64) -> StreamChunk {
    StreamChunk::new(vec![Op::Insert], vec![vec![Some(n)]], None)
}

fn chunk_item(n: i64) -> LogStoreBufferItem {
    LogStoreBufferItem::StreamChunk {
        chunk: chunk(n),
        start_seq_id: 0,
        end_seq_id: 0,
        flushed: false,
    }
}

#[test]
fn test_buffer_bounds_its_chunks() {
    let mut buffer = LogStoreBufferInner::new(2);
    assert!(buffer.can_add_stream_chunk());
    assert!(buffer.try_add_item(1, chunk_item(1)).is_none());
    assert!(buffer.try_add_item(1, chunk_item(2)).is_none());
    assert!(!buffer.can_add_stream_chunk());
    let rejected = buffer.try_add_item(1, chunk_item(3)).unwrap();
    assert!(rejected == chunk(3));
    // what is no chunk always goes in
    buffer.add_item(1, LogStoreBufferItem::Barrier { is_checkpoint: true, next_epoch: 2 });
    buffer.add_item(2, LogStoreBufferItem::UpdateVnodes(Arc::new(vec![true, false])));
    // the reader takes the oldest first
    match buffer.pop_item() {
        Some((1, LogStoreBufferItem::StreamChunk { chunk: c, .. })) => assert!(c == chunk(1)),
        _ => panic!("the first chunk comes out first"),
    }
    // a chunk that was taken still counts
    assert!(!buffer.can_add_stream_chunk());
    assert!(matches!(buffer.pop_item(), Some((1, LogStoreBufferItem::StreamChunk { .. }))));
    assert!(matches!(
        buffer.pop_item(),
        Some((1, LogStoreBufferItem::Barrier { is_checkpoint: true, next_epoch: 2 }))
    ));
    assert_eq!(buffer.pop_truncation(), None);
    buffer.truncate();
    assert_eq!(buffer.pop_truncation(), Some(1));
    assert_eq!(buffer.pop_truncation(), None);
    assert!(buffer.can_add_stream_chunk());
    assert!(buffer.try_add_item(2, chunk_item(4)).is_none());
    assert!(buffer.try_add_item(2, chunk_item(5)).is_none());
    assert!(buffer.try_add_item(2, chunk_item(6)).is_some());
    match buffer.pop_item() {
        Some((2, LogStoreBufferItem::UpdateVnodes(bitmap))) => assert_eq!(*bitmap, vec![true, false]),
        _ => panic!("the update of the partitions comes out next"),
    }
}

#[test]
fn test_flushes_of_one_epoch_join() {
    let mut buffer = LogStoreBufferInner::new(0);
    assert!(!buffer.can_add_stream_chunk());
    buffer.add_flushed(7, 0, 9, vec![true, false, false]);
    buffer.add_flushed(7, 10, 19, vec![false, false, true]);
    match buffer.pop_item() {
        Some((7, LogStoreBufferItem::Flushed { vnode_bitmap, start_seq_id, end_seq_id })) => {
            assert_eq!(vnode_bitmap, vec![true, false, true]);
            assert_eq!((start_seq_id, end_seq_id), (0, 19));
        }
        _ => panic!("the two flushes are one item"),
    }
    assert!(buffer.pop_item().is_none());
    // behind a barrier a flush stands alone
    buffer.add_flushed(8, 0, 4, vec![true]);
    buffer.add_item(8, LogStoreBufferItem::Barrier { is_checkpoint: false, next_epoch: 9 });
    buffer.add_flushed(9, 0, 2, vec![false]);
    assert!(matches!(
        buffer.pop_item(),
        Some((8, LogStoreBufferItem::Flushed { start_seq_id: 0, end_seq_id: 4, .. }))
    ));
    assert!(matches!(buffer.pop_item(), Some((8, LogStoreBufferItem::Barrier { .. }))));
    assert!(matches!(
        buffer.pop_item(),
        Some((9, LogStoreBufferItem::Flushed { start_seq_id: 0, end_seq_id: 2, .. }))
    ));
    // truncating with nothing taken changes nothing
    let mut empty = LogStoreBufferInner::new(1);
    empty.truncate();
    assert_eq!(empty.pop_truncation(), None);
    assert_eq!(bitmap_or(&vec![true, false], &vec![false, false]), vec![true, false]);
}

#[test]
fn test_unflushed_chunks_are_found_newest_first() {
    let mut buffer = LogStoreBufferInner::new(10);
    assert!(buffer.try_add_stream_chunk(1, chunk(1), 0, 0).is_none());
    buffer.barrier(1, false, 2);
    assert!(buffer.try_add_stream_chunk(2, chunk(2), 0, 4).is_none());
    buffer.update_vnode(2, Arc::new(vec![true]));
    assert!(buffer.try_add_stream_chunk(2, chunk(3), 5, 9).is_none());
    // the reader takes the oldest chunk: it still is to be written
    assert!(matches!(buffer.pop_item(), Some((1, LogStoreBufferItem::StreamChunk { .. }))));
    assert_eq!(buffer.item_count(), 5);
    let mut written = vec![];
    let mut from = 0;
    while let Some(next) = buffer.next_unflushed(from) {
        written.push((next.position, next.epoch, next.start_seq_id, next.end_seq_id));
        assert!(next.chunk == chunk(match next.position {
            0 => 3,
            2 => 2,
            _ => 1,
        }));
        buffer.mark_flushed(next.position);
        from = next.position + 1;
    }
    assert_eq!(written, vec![(0, 2, 5, 9), (2, 2, 0, 4), (4, 1, 0, 0)]);
    // everything is written now: the newest chunk says so
    assert!(buffer.next_unflushed(0).is_none());
    assert!(buffer.try_add_stream_chunk(3, chunk(4), 0, 0).is_none());
    let next = buffer.next_unflushed(0).unwrap();
    assert_eq!((next.position, next.epoch), (0, 3));
    buffer.mark_flushed(0);
    assert!(buffer.next_unflushed(0).is_none());
    assert!(buffer.next_unflushed(100).is_none());
    // marking what is no chunk changes nothing
    buffer.mark_flushed(2);
    assert!(matches!(buffer.pop_item(), Some((1, LogStoreBufferItem::Barrier { .. }))));
    match buffer.pop_item() {
        Some((2, LogStoreBufferItem::StreamChunk { flushed, start_seq_id: 0, end_seq_id: 4, .. })) => {
            assert!(flushed)
        }
        _ => panic!("the second chunk comes out, marked as written"),
    }
    let mut full = LogStoreBufferInner::new(1);
    assert!(full.try_add_stream_chunk(1, chunk(1), 0, 0).is_none());
    assert!(full.try_add_stream_chunk(1, chunk(2), 1, 1).unwrap() == chunk(2));
}
