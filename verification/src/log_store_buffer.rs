//! The buffer between the writer and the reader of a log store.
//!
//! The writer puts items in at the front, the reader takes them out at the
//! back. What the reader has taken stays in the buffer until the reader
//! truncates; only then do the chunks that it has taken stop counting
//! against the number of chunks that the buffer may hold.

use crate::data_chunk::clone_bits;
use crate::stream_chunk::{StreamChunk, StreamChunkView};
use std::collections::VecDeque;
use std::sync::Arc;
use vstd::prelude::*;

verus! {

/// The number of a row within an epoch.
pub type SeqIdType = i32;

/// The epoch up to which the reader has truncated.
pub type ReaderTruncationOffsetType = u64;

/// What the buffer holds.
pub enum LogStoreBufferItem {
    /// Rows, with the numbers of the first and the last of them.
    StreamChunk { chunk: StreamChunk, start_seq_id: SeqIdType, end_seq_id: SeqIdType, flushed: bool },
    /// Rows that were written to the store and are not kept in memory.
    Flushed { vnode_bitmap: Vec<bool>, start_seq_id: SeqIdType, end_seq_id: SeqIdType },
    /// The end of an epoch.
    Barrier { is_checkpoint: bool, next_epoch: u64 },
    /// A change of the partitions that the writer owns.
    UpdateVnodes(Arc<Vec<bool>>),
}

/// What a `LogStoreBufferItem` holds, as plain values.
pub enum LogStoreBufferItemView {
    StreamChunk { chunk: StreamChunkView, start_seq_id: i32, end_seq_id: i32, flushed: bool },
    Flushed { vnode_bitmap: Seq<bool>, start_seq_id: i32, end_seq_id: i32 },
    Barrier { is_checkpoint: bool, next_epoch: u64 },
    UpdateVnodes(Seq<bool>),
}

impl View for LogStoreBufferItem {
    type V = LogStoreBufferItemView;

    open spec fn view(&self) -> LogStoreBufferItemView {
        match *self {
            LogStoreBufferItem::StreamChunk { chunk, start_seq_id, end_seq_id, flushed } => {
                LogStoreBufferItemView::StreamChunk {
                    chunk: chunk.rows(),
                    start_seq_id,
                    end_seq_id,
                    flushed,
                }
            },
            LogStoreBufferItem::Flushed { vnode_bitmap, start_seq_id, end_seq_id } => {
                LogStoreBufferItemView::Flushed {
                    vnode_bitmap: vnode_bitmap@,
                    start_seq_id,
                    end_seq_id,
                }
            },
            LogStoreBufferItem::Barrier { is_checkpoint, next_epoch } => {
                LogStoreBufferItemView::Barrier { is_checkpoint, next_epoch }
            },
            LogStoreBufferItem::UpdateVnodes(bitmap) => LogStoreBufferItemView::UpdateVnodes(
                bitmap@,
            ),
        }
    }
}

impl LogStoreBufferItem {
    /// A copy of the item.
    pub fn duplicate(&self) -> (r: Self)
        ensures
            r@ == self@,
    {
        match self {
            LogStoreBufferItem::StreamChunk { chunk, start_seq_id, end_seq_id, flushed } => {
                LogStoreBufferItem::StreamChunk {
                    chunk: chunk.duplicate(),
                    start_seq_id: *start_seq_id,
                    end_seq_id: *end_seq_id,
                    flushed: *flushed,
                }
            },
            LogStoreBufferItem::Flushed { vnode_bitmap, start_seq_id, end_seq_id } => {
                LogStoreBufferItem::Flushed {
                    vnode_bitmap: clone_bits(vnode_bitmap),
                    start_seq_id: *start_seq_id,
                    end_seq_id: *end_seq_id,
                }
            },
            LogStoreBufferItem::Barrier { is_checkpoint, next_epoch } => {
                LogStoreBufferItem::Barrier {
                    is_checkpoint: *is_checkpoint,
                    next_epoch: *next_epoch,
                }
            },
            LogStoreBufferItem::UpdateVnodes(bitmap) => LogStoreBufferItem::UpdateVnodes(
                bitmap.clone(),
            ),
        }
    }
}

/// The items of a queue with their epochs, as plain values, the newest
/// first.
pub open spec fn spec_queue_view(queue: Seq<(u64, LogStoreBufferItem)>) -> Seq<
    (u64, LogStoreBufferItemView),
> {
    Seq::new(queue.len(), |i: int| (queue[i].0, queue[i].1@))
}

/// How many of the items are chunks.
pub open spec fn spec_chunk_count(queue: Seq<(u64, LogStoreBufferItemView)>) -> nat
    decreases queue.len(),
{
    if queue.len() == 0 {
        0
    } else {
        spec_chunk_count(queue.drop_last()) + if queue.last().1 is StreamChunk {
            1nat
        } else {
            0nat
        }
    }
}

/// A new item at the front counts as it would at the back.
pub proof fn lemma_chunk_count_front(
    item: (u64, LogStoreBufferItemView),
    queue: Seq<(u64, LogStoreBufferItemView)>,
)
    ensures
        spec_chunk_count(seq![item] + queue) == spec_chunk_count(queue) + if item.1
            is StreamChunk {
            1nat
        } else {
            0nat
        },
    decreases queue.len(),
{
    let all = seq![item] + queue;
    if queue.len() == 0 {
        assert(all.drop_last() =~= Seq::empty());
        assert(all.last() == item);
        assert(queue =~= Seq::empty());
        assert(spec_chunk_count(all.drop_last()) == 0);
    } else {
        lemma_chunk_count_front(item, queue.drop_last());
        assert(all.drop_last() =~= seq![item] + queue.drop_last());
        assert(all.last() == queue.last());
    }
}

/// The bitmap that has a partition where either of two has it.
pub open spec fn spec_bitmap_or(a: Seq<bool>, b: Seq<bool>) -> Seq<bool> {
    Seq::new(a.len(), |i: int| a[i] || b[i])
}

/// The bitmap that has a partition where either of two has it.
pub fn bitmap_or(a: &Vec<bool>, b: &Vec<bool>) -> (r: Vec<bool>)
    requires
        a@.len() == b@.len(),
    ensures
        r@ == spec_bitmap_or(a@, b@),
{
    let mut r: Vec<bool> = Vec::new();
    let mut i: usize = 0;
    while i < a.len()
        invariant
            i <= a@.len(),
            a@.len() == b@.len(),
            r@ == spec_bitmap_or(a@, b@).subrange(0, i as int),
        decreases a@.len() - i,
    {
        r.push(a[i] || b[i]);
        assert(r@ =~= spec_bitmap_or(a@, b@).subrange(0, i + 1));
        i += 1;
    }
    assert(spec_bitmap_or(a@, b@).subrange(0, i as int) =~= spec_bitmap_or(a@, b@));
    r
}

/// The buffer.
pub struct LogStoreBufferInner {
    /// Items not read by log reader. Newer item at the front
    unconsumed_queue: VecDeque<(u64, LogStoreBufferItem)>,
    /// Items already read by log reader by not truncated. Newer item at the front
    consumed_queue: VecDeque<(u64, LogStoreBufferItem)>,
    stream_chunk_count: usize,
    consumed_stream_chunk_count: usize,
    max_stream_chunk_count: usize,
    updated_truncation: Option<ReaderTruncationOffsetType>,
}

/// What a buffer holds, as plain values.
pub struct LogStoreBufferView {
    pub unconsumed: Seq<(u64, LogStoreBufferItemView)>,
    pub consumed: Seq<(u64, LogStoreBufferItemView)>,
    pub max_stream_chunk_count: usize,
    pub updated_truncation: Option<u64>,
}

/// Whether the item of a flush can join the item at the front: that one is
/// a flush too.
pub open spec fn spec_front_is_flushed(queue: Seq<(u64, LogStoreBufferItemView)>) -> bool {
    queue.len() > 0 && queue[0].1 is Flushed
}

impl LogStoreBufferInner {
    /// What the buffer holds.
    pub closed spec fn view(&self) -> LogStoreBufferView {
        LogStoreBufferView {
            unconsumed: spec_queue_view(self.unconsumed_queue@),
            consumed: spec_queue_view(self.consumed_queue@),
            max_stream_chunk_count: self.max_stream_chunk_count,
            updated_truncation: self.updated_truncation,
        }
    }

    /// The invariant: the buffer counts its chunks right, and holds no more
    /// of them than it may.
    pub closed spec fn wf(&self) -> bool {
        &&& self.stream_chunk_count == spec_chunk_count(spec_queue_view(self.unconsumed_queue@))
            + spec_chunk_count(spec_queue_view(self.consumed_queue@))
        &&& self.consumed_stream_chunk_count == spec_chunk_count(
            spec_queue_view(self.consumed_queue@),
        )
        &&& self.stream_chunk_count <= self.max_stream_chunk_count
    }

    /// The number of chunks that the buffer counts as held.
    pub closed spec fn spec_stream_chunk_count(&self) -> usize {
        self.stream_chunk_count
    }

    /// The number of chunks that the buffer counts as handed out and not
    /// yet truncated.
    pub closed spec fn spec_consumed_stream_chunk_count(&self) -> usize {
        self.consumed_stream_chunk_count
    }

    /// What the invariant gives: the two counts are those of the chunks in
    /// the queues, and the buffer holds no more chunks than it may.
    pub proof fn lemma_wf(&self)
        requires
            self.wf(),
        ensures
            self.spec_stream_chunk_count() == spec_chunk_count(self@.unconsumed)
                + spec_chunk_count(self@.consumed),
            self.spec_consumed_stream_chunk_count() == spec_chunk_count(self@.consumed),
            spec_chunk_count(self@.unconsumed) + spec_chunk_count(self@.consumed)
                <= self@.max_stream_chunk_count,
    {
    }

    /// An empty buffer that may hold `max_stream_chunk_count` chunks.
    pub fn new(max_stream_chunk_count: usize) -> (r: Self)
        ensures
            r.wf(),
            r@ == (LogStoreBufferView {
                unconsumed: Seq::empty(),
                consumed: Seq::empty(),
                max_stream_chunk_count,
                updated_truncation: None,
            }),
    {
        let r = LogStoreBufferInner {
            unconsumed_queue: VecDeque::new(),
            consumed_queue: VecDeque::new(),
            stream_chunk_count: 0,
            consumed_stream_chunk_count: 0,
            max_stream_chunk_count,
            updated_truncation: None,
        };
        assert(spec_queue_view(r.unconsumed_queue@) =~= Seq::empty());
        assert(spec_queue_view(r.consumed_queue@) =~= Seq::empty());
        r
    }

    /// Whether the buffer has room for one more chunk.
    pub fn can_add_stream_chunk(&self) -> (r: bool)
        requires
            self.wf(),
        ensures
            r == (spec_chunk_count(self@.unconsumed) + spec_chunk_count(self@.consumed)
                < self@.max_stream_chunk_count),
    {
        self.stream_chunk_count < self.max_stream_chunk_count
    }

    /// Puts an item that is no chunk in at the front.
    pub fn add_item(&mut self, epoch: u64, item: LogStoreBufferItem)
        requires
            old(self).wf(),
            !(item is StreamChunk),
        ensures
            final(self).wf(),
            final(self)@ == (LogStoreBufferView {
                unconsumed: seq![(epoch, item@)] + old(self)@.unconsumed,
                ..old(self)@
            }),
    {
        let rejected = self.try_add_item(epoch, item);
        assert(rejected is None);
    }

    /// Puts an item in at the front. A chunk for which the buffer has no
    /// room is handed back, and the buffer stays as it is.
    pub fn try_add_item(&mut self, epoch: u64, item: LogStoreBufferItem) -> (r: Option<
        StreamChunk,
    >)
        requires
            old(self).wf(),
        ensures
            final(self).wf(),
            match r {
                Some(chunk) => {
                    &&& item matches LogStoreBufferItem::StreamChunk { chunk: c, .. } && c == chunk
                    &&& spec_chunk_count(old(self)@.unconsumed) + spec_chunk_count(
                        old(self)@.consumed,
                    ) >= old(self)@.max_stream_chunk_count
                    &&& final(self)@ == old(self)@
                },
                None => {
                    &&& item is StreamChunk ==> spec_chunk_count(old(self)@.unconsumed)
                        + spec_chunk_count(old(self)@.consumed)
                        < old(self)@.max_stream_chunk_count
                    &&& final(self)@ == (LogStoreBufferView {
                        unconsumed: seq![(epoch, item@)] + old(self)@.unconsumed,
                        ..old(self)@
                    })
                },
            },
    {
        let ghost before = spec_queue_view(self.unconsumed_queue@);
        proof {
            lemma_chunk_count_front((epoch, item@), before);
        }
        match item {
            LogStoreBufferItem::StreamChunk { chunk, start_seq_id, end_seq_id, flushed } => {
                if !self.can_add_stream_chunk() {
                    Some(chunk)
                } else {
                    self.stream_chunk_count += 1;
                    self.unconsumed_queue.push_front(
                        (
                            epoch,
                            LogStoreBufferItem::StreamChunk {
                                chunk,
                                start_seq_id,
                                end_seq_id,
                                flushed,
                            },
                        ),
                    );
                    assert(spec_queue_view(self.unconsumed_queue@) =~= seq![(epoch, item@)]
                        + before);
                    None
                }
            },
            item => {
                self.unconsumed_queue.push_front((epoch, item));
                assert(spec_queue_view(self.unconsumed_queue@) =~= seq![(epoch, item@)] + before);
                None
            },
        }
    }

    /// Takes the oldest item that the reader has not taken yet. The item
    /// stays in the buffer, among those that were taken, until the reader
    /// truncates.
    pub fn pop_item(&mut self) -> (r: Option<(u64, LogStoreBufferItem)>)
        requires
            old(self).wf(),
        ensures
            final(self).wf(),
            match r {
                Some(taken) => {
                    &&& old(self)@.unconsumed.len() > 0
                    &&& (taken.0, taken.1@) == old(self)@.unconsumed.last()
                    &&& final(self)@ == (LogStoreBufferView {
                        unconsumed: old(self)@.unconsumed.drop_last(),
                        consumed: seq![old(self)@.unconsumed.last()] + old(self)@.consumed,
                        ..old(self)@
                    })
                },
                None => old(self)@.unconsumed.len() == 0 && final(self)@ == old(self)@,
            },
    {
        let ghost unconsumed = spec_queue_view(self.unconsumed_queue@);
        let ghost consumed = spec_queue_view(self.consumed_queue@);
        match self.unconsumed_queue.pop_back() {
            Some((epoch, item)) => {
                proof {
                    assert(unconsumed.last() == (epoch, item@));
                    assert(spec_queue_view(self.unconsumed_queue@) =~= unconsumed.drop_last());
                    lemma_chunk_count_front((epoch, item@), consumed);
                }
                if let LogStoreBufferItem::StreamChunk { .. } = &item {
                    self.consumed_stream_chunk_count += 1;
                }
                self.consumed_queue.push_front((epoch, item.duplicate()));
                assert(spec_queue_view(self.consumed_queue@) =~= seq![(epoch, item@)] + consumed);
                Some((epoch, item))
            },
            None => {
                assert(spec_queue_view(self.unconsumed_queue@) =~= unconsumed);
                None
            },
        }
    }

    /// Notes that the rows from `start_seq_id` to `end_seq_id` of `epoch`
    /// were written to the store. Where the newest item is a flush as well,
    /// of the same epoch and of rows before these, the two become one: from
    /// the first row of the one to the last row of the other, over the
    /// partitions of both.
    #[verifier::rlimit(50)]
    pub fn add_flushed(
        &mut self,
        epoch: u64,
        start_seq_id: SeqIdType,
        end_seq_id: SeqIdType,
        new_vnode_bitmap: Vec<bool>,
    )
        requires
            old(self).wf(),
            spec_front_is_flushed(old(self)@.unconsumed) ==> {
                &&& old(self)@.unconsumed[0].0 == epoch
                &&& old(self)@.unconsumed[0].1->Flushed_end_seq_id < start_seq_id
                &&& old(self)@.unconsumed[0].1->Flushed_vnode_bitmap.len()
                    == new_vnode_bitmap@.len()
            },
        ensures
            final(self).wf(),
            final(self)@ == (LogStoreBufferView {
                unconsumed: if spec_front_is_flushed(old(self)@.unconsumed) {
                    old(self)@.unconsumed.update(
                        0,
                        (
                            epoch,
                            LogStoreBufferItemView::Flushed {
                                vnode_bitmap: spec_bitmap_or(
                                    old(self)@.unconsumed[0].1->Flushed_vnode_bitmap,
                                    new_vnode_bitmap@,
                                ),
                                start_seq_id: old(self)@.unconsumed[0].1->Flushed_start_seq_id,
                                end_seq_id,
                            },
                        ),
                    )
                } else {
                    seq![
                        (
                            epoch,
                            LogStoreBufferItemView::Flushed {
                                vnode_bitmap: new_vnode_bitmap@,
                                start_seq_id,
                                end_seq_id,
                            },
                        ),
                    ] + old(self)@.unconsumed
                },
                ..old(self)@
            }),
    {
        let ghost before = spec_queue_view(self.unconsumed_queue@);
        match self.unconsumed_queue.pop_front() {
            Some(
                (item_epoch, LogStoreBufferItem::Flushed { vnode_bitmap, start_seq_id: start, .. }),
            ) => {
                let ghost rest = spec_queue_view(self.unconsumed_queue@);
                let merged = LogStoreBufferItem::Flushed {
                    vnode_bitmap: bitmap_or(&vnode_bitmap, &new_vnode_bitmap),
                    start_seq_id: start,
                    end_seq_id,
                };
                proof {
                    assert(rest =~= before.subrange(1, before.len() as int));
                    lemma_chunk_count_front(before[0], rest);
                    lemma_chunk_count_front((item_epoch, merged@), rest);
                    assert(before =~= seq![before[0]] + rest);
                }
                self.unconsumed_queue.push_front((item_epoch, merged));
                assert(spec_queue_view(self.unconsumed_queue@) =~= seq![(item_epoch, merged@)]
                    + rest);
                assert(spec_queue_view(self.unconsumed_queue@) =~= before.update(
                    0,
                    (epoch, merged@),
                ));
            },
            Some(front) => {
                let ghost rest = spec_queue_view(self.unconsumed_queue@);
                proof {
                    assert(rest =~= before.subrange(1, before.len() as int));
                    assert(before =~= seq![before[0]] + rest);
                }
                self.unconsumed_queue.push_front(front);
                assert(spec_queue_view(self.unconsumed_queue@) =~= before);
                self.add_item(
                    epoch,
                    LogStoreBufferItem::Flushed {
                        start_seq_id,
                        end_seq_id,
                        vnode_bitmap: new_vnode_bitmap,
                    },
                );
            },
            None => {
                assert(spec_queue_view(self.unconsumed_queue@) =~= before);
                self.add_item(
                    epoch,
                    LogStoreBufferItem::Flushed {
                        start_seq_id,
                        end_seq_id,
                        vnode_bitmap: new_vnode_bitmap,
                    },
                );
            },
        }
    }

    /// Lets go of what the reader has taken, right after it has taken a
    /// barrier: the epoch of the barrier becomes the point up to which the
    /// log is truncated. Where nothing was taken, nothing happens.
    pub fn truncate(&mut self)
        requires
            old(self).wf(),
            old(self)@.consumed.len() > 0 ==> old(self)@.consumed[0].1 is Barrier,
        ensures
            final(self).wf(),
            final(self)@ == if old(self)@.consumed.len() > 0 {
                LogStoreBufferView {
                    consumed: Seq::empty(),
                    updated_truncation: Some(old(self)@.consumed[0].0),
                    ..old(self)@
                }
            } else {
                old(self)@
            },
    {
        let ghost consumed = spec_queue_view(self.consumed_queue@);
        if self.consumed_queue.len() > 0 {
            let epoch = self.consumed_queue[0].0;
            assert(consumed[0].0 == epoch);
            self.updated_truncation = Some(epoch);
            self.consumed_queue.clear();
            self.stream_chunk_count -= self.consumed_stream_chunk_count;
            self.consumed_stream_chunk_count = 0;
            assert(spec_queue_view(self.consumed_queue@) =~= Seq::empty());
        }
    }

    /// Takes the point up to which the log is to be truncated, if the
    /// reader has set one since it was taken last.
    pub fn pop_truncation(&mut self) -> (r: Option<ReaderTruncationOffsetType>)
        requires
            old(self).wf(),
        ensures
            final(self).wf(),
            r == old(self)@.updated_truncation,
            final(self)@ == (LogStoreBufferView { updated_truncation: None, ..old(self)@ }),
    {
        let r = self.updated_truncation;
        self.updated_truncation = None;
        r
    }
}

/// Replacing an item by one that is a chunk exactly if it is one keeps
/// the number of chunks.
pub proof fn lemma_chunk_count_update(
    queue: Seq<(u64, LogStoreBufferItemView)>,
    i: int,
    item: (u64, LogStoreBufferItemView),
)
    requires
        0 <= i < queue.len(),
        item.1 is StreamChunk == queue[i].1 is StreamChunk,
    ensures
        spec_chunk_count(queue.update(i, item)) == spec_chunk_count(queue),
    decreases queue.len(),
{
    let updated = queue.update(i, item);
    if i == queue.len() - 1 {
        assert(updated.drop_last() =~= queue.drop_last());
    } else {
        lemma_chunk_count_update(queue.drop_last(), i, item);
        assert(updated.drop_last() =~= queue.drop_last().update(i, item));
        assert(updated.last() == queue.last());
    }
}

/// A chunk that is still to be written to the store, and where it stands
/// in the buffer.
pub struct UnflushedChunk {
    pub position: usize,
    pub epoch: u64,
    pub chunk: StreamChunk,
    pub start_seq_id: SeqIdType,
    pub end_seq_id: SeqIdType,
}

/// The place of the next chunk to write to the store, looking from `from`
/// on towards the older items: the first chunk found, unless it is written
/// already. Behind a chunk that is written every older one is written too.
pub open spec fn spec_next_unflushed(queue: Seq<(u64, LogStoreBufferItemView)>, from: int) -> Option<
    int,
>
    decreases queue.len() - from,
{
    if from < 0 || from >= queue.len() {
        None
    } else {
        match queue[from].1 {
            LogStoreBufferItemView::StreamChunk { flushed, .. } => if flushed {
                None
            } else {
                Some(from)
            },
            _ => spec_next_unflushed(queue, from + 1),
        }
    }
}

/// An item marked as written to the store, if it is a chunk.
pub open spec fn spec_flushed(item: LogStoreBufferItemView) -> LogStoreBufferItemView {
    match item {
        LogStoreBufferItemView::StreamChunk { chunk, start_seq_id, end_seq_id, .. } => {
            LogStoreBufferItemView::StreamChunk { chunk, start_seq_id, end_seq_id, flushed: true }
        },
        other => other,
    }
}

impl LogStoreBufferInner {
    /// Every item of the buffer, from the newest to the oldest: those that
    /// the reader has not taken, then those that it has.
    pub open spec fn spec_all_items(&self) -> Seq<(u64, LogStoreBufferItemView)> {
        self@.unconsumed + self@.consumed
    }

    /// Puts a chunk with the rows from `start_seq_id` to `end_seq_id` in at
    /// the front. A chunk for which the buffer has no room is handed back.
    pub fn try_add_stream_chunk(
        &mut self,
        epoch: u64,
        chunk: StreamChunk,
        start_seq_id: SeqIdType,
        end_seq_id: SeqIdType,
    ) -> (r: Option<StreamChunk>)
        requires
            old(self).wf(),
        ensures
            final(self).wf(),
            match r {
                Some(back) => back == chunk && final(self)@ == old(self)@,
                None => final(self)@ == (LogStoreBufferView {
                    unconsumed: seq![
                        (
                            epoch,
                            LogStoreBufferItemView::StreamChunk {
                                chunk: chunk.rows(),
                                start_seq_id,
                                end_seq_id,
                                flushed: false,
                            },
                        ),
                    ] + old(self)@.unconsumed,
                    ..old(self)@
                }),
            },
            r is Some <==> spec_chunk_count(old(self)@.unconsumed) + spec_chunk_count(
                old(self)@.consumed,
            ) >= old(self)@.max_stream_chunk_count,
    {
        self.try_add_item(
            epoch,
            LogStoreBufferItem::StreamChunk { chunk, start_seq_id, end_seq_id, flushed: false },
        )
    }

    /// Puts the end of `epoch` in at the front.
    pub fn barrier(&mut self, epoch: u64, is_checkpoint: bool, next_epoch: u64)
        requires
            old(self).wf(),
        ensures
            final(self).wf(),
            final(self)@ == (LogStoreBufferView {
                unconsumed: seq![
                    (epoch, LogStoreBufferItemView::Barrier { is_checkpoint, next_epoch }),
                ] + old(self)@.unconsumed,
                ..old(self)@
            }),
    {
        self.add_item(epoch, LogStoreBufferItem::Barrier { is_checkpoint, next_epoch });
    }

    /// Puts a change of the partitions in at the front.
    pub fn update_vnode(&mut self, epoch: u64, vnode: Arc<Vec<bool>>)
        requires
            old(self).wf(),
        ensures
            final(self).wf(),
            final(self)@ == (LogStoreBufferView {
                unconsumed: seq![(epoch, LogStoreBufferItemView::UpdateVnodes(vnode@))]
                    + old(self)@.unconsumed,
                ..old(self)@
            }),
    {
        self.add_item(epoch, LogStoreBufferItem::UpdateVnodes(vnode));
    }

    /// Number of items in the buffer, taken or not.
    pub fn item_count(&self) -> (r: usize)
        requires
            self.spec_all_items().len() <= usize::MAX,
        ensures
            r == self.spec_all_items().len(),
    {
        self.unconsumed_queue.len() + self.consumed_queue.len()
    }

    /// The item at `position`, counted from the newest.
    fn item_at(&self, position: usize) -> (r: &(u64, LogStoreBufferItem))
        requires
            position < self.spec_all_items().len(),
        ensures
            (r.0, r.1@) == self.spec_all_items()[position as int],
    {
        let n = self.unconsumed_queue.len();
        if position < n {
            let r = &self.unconsumed_queue[position];
            assert(spec_queue_view(self.unconsumed_queue@)[position as int] == (r.0, r.1@));
            r
        } else {
            let r = &self.consumed_queue[position - n];
            assert(spec_queue_view(self.consumed_queue@)[position - n] == (r.0, r.1@));
            r
        }
    }

    /// The next chunk to write to the store, looking from `from` on towards
    /// the older items; `None` where the first chunk found is written
    /// already, or no chunk is found.
    pub fn next_unflushed(&self, from: usize) -> (r: Option<UnflushedChunk>)
        requires
            self.spec_all_items().len() <= usize::MAX,
        ensures
            match (r, spec_next_unflushed(self.spec_all_items(), from as int)) {
                (Some(found), Some(position)) => {
                    &&& found.position == position
                    &&& position < self.spec_all_items().len()
                    &&& self.spec_all_items()[position] == (
                        found.epoch,
                        LogStoreBufferItemView::StreamChunk {
                            chunk: found.chunk.rows(),
                            start_seq_id: found.start_seq_id,
                            end_seq_id: found.end_seq_id,
                            flushed: false,
                        },
                    )
                },
                (None, None) => true,
                _ => false,
            },
    {
        let ghost all = self.spec_all_items();
        let total = self.item_count();
        let mut position = from;
        while position < total
            invariant
                from <= position,
                total == all.len(),
                all == self.spec_all_items(),
                spec_next_unflushed(all, from as int) == spec_next_unflushed(all, position as int),
            decreases total - position,
        {
            let item = self.item_at(position);
            if let LogStoreBufferItem::StreamChunk { chunk, start_seq_id, end_seq_id, flushed } =
                &item.1 {
                if *flushed {
                    // Since we iterate from new data to old data, when we meet a flushed data, the
                    // rest should all be flushed.
                    return None;
                }
                return Some(
                    UnflushedChunk {
                        position,
                        epoch: item.0,
                        chunk: chunk.duplicate(),
                        start_seq_id: *start_seq_id,
                        end_seq_id: *end_seq_id,
                    },
                );
            }
            position += 1;
        }
        None
    }

    /// Marks the chunk at `position` as written to the store.
    pub fn mark_flushed(&mut self, position: usize)
        requires
            old(self).wf(),
            position < old(self).spec_all_items().len(),
        ensures
            final(self).wf(),
            final(self).spec_all_items() == old(self).spec_all_items().update(
                position as int,
                (
                    old(self).spec_all_items()[position as int].0,
                    spec_flushed(old(self).spec_all_items()[position as int].1),
                ),
            ),
            final(self)@.unconsumed.len() == old(self)@.unconsumed.len(),
            final(self)@.max_stream_chunk_count == old(self)@.max_stream_chunk_count,
            final(self)@.updated_truncation == old(self)@.updated_truncation,
    {
        let ghost unconsumed = spec_queue_view(self.unconsumed_queue@);
        let ghost consumed = spec_queue_view(self.consumed_queue@);
        let n = self.unconsumed_queue.len();
        if position < n {
            let (epoch, item) = self.unconsumed_queue.remove(position).unwrap();
            let ghost before = (epoch, item@);
            let marked = mark_item(item);
            self.unconsumed_queue.insert(position, (epoch, marked));
            proof {
                assert(before == unconsumed[position as int]);
                assert(spec_queue_view(self.unconsumed_queue@) =~= unconsumed.update(
                    position as int,
                    (epoch, spec_flushed(before.1)),
                ));
                lemma_chunk_count_update(
                    unconsumed,
                    position as int,
                    (epoch, spec_flushed(before.1)),
                );
                assert(self.spec_all_items() =~= (unconsumed + consumed).update(
                    position as int,
                    (epoch, spec_flushed(before.1)),
                ));
            }
        } else {
            let (epoch, item) = self.consumed_queue.remove(position - n).unwrap();
            let ghost before = (epoch, item@);
            let marked = mark_item(item);
            self.consumed_queue.insert(position - n, (epoch, marked));
            proof {
                assert(before == consumed[position - n]);
                assert(spec_queue_view(self.consumed_queue@) =~= consumed.update(
                    position - n,
                    (epoch, spec_flushed(before.1)),
                ));
                lemma_chunk_count_update(consumed, position - n, (epoch, spec_flushed(before.1)));
                assert(self.spec_all_items() =~= (unconsumed + consumed).update(
                    position as int,
                    (epoch, spec_flushed(before.1)),
                ));
            }
        }
    }
}

/// The item marked as written to the store, if it is a chunk.
fn mark_item(item: LogStoreBufferItem) -> (r: LogStoreBufferItem)
    ensures
        r@ == spec_flushed(item@),
{
    match item {
        LogStoreBufferItem::StreamChunk { chunk, start_seq_id, end_seq_id, .. } => {
            LogStoreBufferItem::StreamChunk { chunk, start_seq_id, end_seq_id, flushed: true }
        },
        other => other,
    }
}

} // verus!
