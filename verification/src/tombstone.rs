//! Range tombstones and the events that a table file stores for them.
//!
//! A tombstone deletes the keys between two boundaries as of an epoch. A
//! file does not store tombstones but the events derived from them: at each
//! boundary, the epoch of the range delete that holds from there to the next
//! boundary, or `MAX_EPOCH` where none holds.

use crate::coding::{
    get_u8, lemma_take_length_prefixed, lemma_take_u32, lemma_take_u64,
    put_length_prefixed_slice, put_u32_le, put_u64_le, put_u8, spec_length_prefixed,
    spec_take_length_prefixed, spec_take_u32, spec_take_u64, spec_u32_le, spec_u64_le,
    try_get_length_prefixed_slice, try_get_u32_le, try_get_u64_le,
};
use crate::key::{
    lemma_compare_point_antisymmetric, lemma_compare_point_equal, lemma_compare_point_transitive,
    spec_compare_point, spec_reverse, HummockEpoch, KeyOrder, PointRange, PointRangeView, TableId, TableKey,
    UserKey, UserKeyView, TABLE_PREFIX_LEN,
};
use vstd::prelude::*;

verus! {

/// Deletes the keys from `start_user_key` up to `end_user_key`, as of epoch
/// `sequence`.
#[derive(Clone, PartialEq, Eq, Debug)]
pub struct DeleteRangeTombstone {
    pub start_user_key: PointRange,
    pub end_user_key: PointRange,
    pub sequence: HummockEpoch,
}

/// What a `DeleteRangeTombstone` holds, as plain values.
pub struct DeleteRangeTombstoneView {
    pub start_user_key: PointRangeView,
    pub end_user_key: PointRangeView,
    pub sequence: u64,
}

impl View for DeleteRangeTombstone {
    type V = DeleteRangeTombstoneView;

    open spec fn view(&self) -> DeleteRangeTombstoneView {
        DeleteRangeTombstoneView {
            start_user_key: self.start_user_key@,
            end_user_key: self.end_user_key@,
            sequence: self.sequence,
        }
    }
}

/// Order of two tombstones: by start, then by end, then by epoch with the
/// newer one first.
pub open spec fn spec_compare_tombstone(
    a: DeleteRangeTombstoneView,
    b: DeleteRangeTombstoneView,
) -> KeyOrder {
    match spec_compare_point(a.start_user_key, b.start_user_key) {
        KeyOrder::Less => KeyOrder::Less,
        KeyOrder::Greater => KeyOrder::Greater,
        KeyOrder::Equal => match spec_compare_point(a.end_user_key, b.end_user_key) {
            KeyOrder::Less => KeyOrder::Less,
            KeyOrder::Greater => KeyOrder::Greater,
            KeyOrder::Equal => if a.sequence > b.sequence {
                KeyOrder::Less
            } else if a.sequence < b.sequence {
                KeyOrder::Greater
            } else {
                KeyOrder::Equal
            },
        },
    }
}

/// Swapping the arguments reverses the order of two tombstones.
pub proof fn lemma_compare_tombstone_antisymmetric(
    a: DeleteRangeTombstoneView,
    b: DeleteRangeTombstoneView,
)
    ensures
        spec_compare_tombstone(b, a) == spec_reverse(spec_compare_tombstone(a, b)),
{
    lemma_compare_point_antisymmetric(a.start_user_key, b.start_user_key);
    lemma_compare_point_antisymmetric(a.end_user_key, b.end_user_key);
}

/// Comparing tombstones gives `Equal` exactly for equal tombstones.
pub proof fn lemma_compare_tombstone_equal(a: DeleteRangeTombstoneView, b: DeleteRangeTombstoneView)
    ensures
        spec_compare_tombstone(a, b) == KeyOrder::Equal <==> a == b,
{
    lemma_compare_point_equal(a.start_user_key, b.start_user_key);
    lemma_compare_point_equal(a.end_user_key, b.end_user_key);
}

/// The order of tombstones is transitive.
pub proof fn lemma_compare_tombstone_transitive(
    a: DeleteRangeTombstoneView,
    b: DeleteRangeTombstoneView,
    c: DeleteRangeTombstoneView,
)
    requires
        spec_compare_tombstone(a, b) != KeyOrder::Greater,
        spec_compare_tombstone(b, c) != KeyOrder::Greater,
    ensures
        spec_compare_tombstone(a, c) != KeyOrder::Greater,
{
    lemma_compare_point_transitive(a.start_user_key, b.start_user_key, c.start_user_key);
    if spec_compare_point(a.start_user_key, c.start_user_key) == KeyOrder::Equal {
        lemma_compare_point_transitive(a.end_user_key, b.end_user_key, c.end_user_key);
    }
}

impl DeleteRangeTombstone {
    /// The tombstone over the table keys from `start_table_key` to
    /// `end_table_key` of one table. `is_left_open` leaves the start key
    /// itself out; `is_right_close` takes the end key itself in.
    pub fn new(
        table_id: TableId,
        start_table_key: Vec<u8>,
        is_left_open: bool,
        end_table_key: Vec<u8>,
        is_right_close: bool,
        sequence: HummockEpoch,
    ) -> (r: Self)
        ensures
            r@ == (DeleteRangeTombstoneView {
                start_user_key: PointRangeView {
                    left_user_key: UserKeyView {
                        table_id: table_id.table_id,
                        table_key: start_table_key@,
                    },
                    is_exclude_left_key: is_left_open,
                },
                end_user_key: PointRangeView {
                    left_user_key: UserKeyView {
                        table_id: table_id.table_id,
                        table_key: end_table_key@,
                    },
                    is_exclude_left_key: is_right_close,
                },
                sequence,
            }),
    {
        DeleteRangeTombstone {
            start_user_key: PointRange::from_user_key(
                UserKey::new(table_id, TableKey(start_table_key)),
                is_left_open,
            ),
            end_user_key: PointRange::from_user_key(
                UserKey::new(table_id, TableKey(end_table_key)),
                is_right_close,
            ),
            sequence,
        }
    }

    /// The tombstone over `[start_table_key, end_table_key)` of one table.
    pub fn new_for_test(
        table_id: TableId,
        start_table_key: Vec<u8>,
        end_table_key: Vec<u8>,
        sequence: HummockEpoch,
    ) -> (r: Self)
        ensures
            r@ == (DeleteRangeTombstoneView {
                start_user_key: PointRangeView {
                    left_user_key: UserKeyView {
                        table_id: table_id.table_id,
                        table_key: start_table_key@,
                    },
                    is_exclude_left_key: false,
                },
                end_user_key: PointRangeView {
                    left_user_key: UserKeyView {
                        table_id: table_id.table_id,
                        table_key: end_table_key@,
                    },
                    is_exclude_left_key: false,
                },
                sequence,
            }),
    {
        Self::new(table_id, start_table_key, false, end_table_key, false, sequence)
    }

    /// Compares two tombstones: by start, then by end, then by epoch with
    /// the newer one first.
    pub fn compare(&self, other: &DeleteRangeTombstone) -> (r: KeyOrder)
        ensures
            r == spec_compare_tombstone(self@, other@),
    {
        match self.start_user_key.compare(&other.start_user_key) {
            KeyOrder::Less => KeyOrder::Less,
            KeyOrder::Greater => KeyOrder::Greater,
            KeyOrder::Equal => match self.end_user_key.compare(&other.end_user_key) {
                KeyOrder::Less => KeyOrder::Less,
                KeyOrder::Greater => KeyOrder::Greater,
                KeyOrder::Equal => if self.sequence > other.sequence {
                    KeyOrder::Less
                } else if self.sequence < other.sequence {
                    KeyOrder::Greater
                } else {
                    KeyOrder::Equal
                },
            },
        }
    }

    /// A copy of the tombstone.
    pub fn duplicate(&self) -> (r: Self)
        ensures
            r@ == self@,
    {
        DeleteRangeTombstone {
            start_user_key: self.start_user_key.duplicate(),
            end_user_key: self.end_user_key.duplicate(),
            sequence: self.sequence,
        }
    }
}

/// From `event_key` up to the next event's key, the range delete of epoch
/// `new_epoch` holds; `MAX_EPOCH` says that none holds.
#[derive(Clone, Debug, PartialEq, Eq)]
pub struct MonotonicDeleteEvent {
    pub event_key: PointRange,
    pub new_epoch: HummockEpoch,
}

/// What a `MonotonicDeleteEvent` holds, as plain values.
pub struct MonotonicDeleteEventView {
    pub event_key: PointRangeView,
    pub new_epoch: u64,
}

impl View for MonotonicDeleteEvent {
    type V = MonotonicDeleteEventView;

    open spec fn view(&self) -> MonotonicDeleteEventView {
        MonotonicDeleteEventView { event_key: self.event_key@, new_epoch: self.new_epoch }
    }
}

/// The byte that stands for the flag of a boundary.
pub open spec fn spec_flag_byte(is_exclude_left_key: bool) -> u8 {
    if is_exclude_left_key {
        1
    } else {
        0
    }
}

/// The bytes of an event:
/// `table id (4) | key length (4) | key | flag (1) | epoch (8)`.
pub open spec fn spec_encode_event(e: MonotonicDeleteEventView) -> Seq<u8> {
    spec_u32_le(e.event_key.left_user_key.table_id) + spec_length_prefixed(
        e.event_key.left_user_key.table_key,
    ) + seq![spec_flag_byte(e.event_key.is_exclude_left_key)] + spec_u64_le(e.new_epoch)
}

/// Reads an event from the front of `s`: the event and what follows it, or
/// `None` where `s` ends too early or the flag is neither 0 nor 1.
pub open spec fn spec_decode_event(s: Seq<u8>) -> Option<(MonotonicDeleteEventView, Seq<u8>)> {
    match spec_take_u32(s) {
        None => None,
        Some((table_id, s1)) => match spec_take_length_prefixed(s1) {
            None => None,
            Some((table_key, s2)) => if s2.len() < 1 || s2[0] > 1 {
                None
            } else {
                match spec_take_u64(s2.skip(1)) {
                    None => None,
                    Some((new_epoch, rest)) => Some(
                        (
                            MonotonicDeleteEventView {
                                event_key: PointRangeView {
                                    left_user_key: UserKeyView { table_id, table_key },
                                    is_exclude_left_key: s2[0] == 1,
                                },
                                new_epoch,
                            },
                            rest,
                        ),
                    ),
                }
            },
        },
    }
}

/// Number of bytes that an event encodes to.
pub open spec fn spec_event_encoded_size(e: MonotonicDeleteEventView) -> nat {
    4 + (e.event_key.left_user_key.table_key.len() + TABLE_PREFIX_LEN) as nat + 1 + 8
}

/// Whether the event can be written: the key's length fits the four bytes
/// that hold it.
pub open spec fn spec_event_encodable(e: MonotonicDeleteEventView) -> bool {
    e.event_key.left_user_key.table_key.len() <= u32::MAX
}

/// Decoding what was encoded gives the event back, with the bytes that
/// followed it; and the encoding is as long as `encoded_size` says.
#[verifier::rlimit(50)]
pub proof fn lemma_event_round_trip(e: MonotonicDeleteEventView, rest: Seq<u8>)
    requires
        spec_event_encodable(e),
    ensures
        spec_decode_event(spec_encode_event(e) + rest) == Some((e, rest)),
        spec_encode_event(e).len() == spec_event_encoded_size(e),
{
    let key = e.event_key.left_user_key;
    let flag = spec_flag_byte(e.event_key.is_exclude_left_key);
    let s3 = spec_u64_le(e.new_epoch) + rest;
    let s2 = seq![flag] + s3;
    let s1 = spec_length_prefixed(key.table_key) + s2;
    let s0 = spec_u32_le(key.table_id) + s1;
    assert(spec_encode_event(e) + rest =~= s0);
    lemma_take_u32(key.table_id, s1);
    lemma_take_length_prefixed(key.table_key, s2);
    assert(s2.skip(1) =~= s3);
    lemma_take_u64(e.new_epoch, rest);
}

impl MonotonicDeleteEvent {
    /// The event at the boundary before `event_key` of one table.
    pub fn new(table_id: TableId, event_key: Vec<u8>, new_epoch: HummockEpoch) -> (r: Self)
        ensures
            r@ == (MonotonicDeleteEventView {
                event_key: PointRangeView {
                    left_user_key: UserKeyView {
                        table_id: table_id.table_id,
                        table_key: event_key@,
                    },
                    is_exclude_left_key: false,
                },
                new_epoch,
            }),
    {
        MonotonicDeleteEvent {
            event_key: PointRange::from_user_key(
                UserKey::new(table_id, TableKey(event_key)),
                false,
            ),
            new_epoch,
        }
    }

    /// Whether the event can be written: the key's length fits the four
    /// bytes that hold it.
    pub open spec fn encodable(&self) -> bool {
        spec_event_encodable(self@)
    }

    /// Appends the encoded event to `buf`.
    #[verifier::rlimit(50)]
    pub fn encode(&self, buf: &mut Vec<u8>)
        requires
            self.encodable(),
        ensures
            final(buf)@ == old(buf)@ + spec_encode_event(self@),
    {
        put_u32_le(buf, self.event_key.left_user_key.table_id.table_id);
        put_length_prefixed_slice(buf, self.event_key.left_user_key.table_key.0.as_slice());
        put_u8(
            buf,
            if self.event_key.is_exclude_left_key {
                1
            } else {
                0
            },
        );
        put_u64_le(buf, self.new_epoch);
        assert(buf@ =~= old(buf)@ + spec_encode_event(self@));
    }

    /// Reads an event from the front of `buf` and advances past it. Where
    /// `buf` ends too early, or the flag is neither 0 nor 1, nothing is read
    /// and `buf` is left as it was.
    #[verifier::rlimit(50)]
    pub fn try_decode(buf: &mut &[u8]) -> (r: Option<MonotonicDeleteEvent>)
        ensures
            match spec_decode_event(old(buf)@) {
                Some((e, rest)) => r matches Some(x) && x@ == e && final(buf)@ == rest,
                None => r is None && final(buf)@ == old(buf)@,
            },
    {
        let mut cur: &[u8] = *buf;
        let table_id = match try_get_u32_le(&mut cur) {
            Some(x) => x,
            None => { return None; },
        };
        let table_key = match try_get_length_prefixed_slice(&mut cur) {
            Some(x) => x,
            None => { return None; },
        };
        if cur.len() < 1 {
            return None;
        }
        let exclude_left_key_flag = get_u8(&mut cur);
        let is_exclude_left_key = if exclude_left_key_flag == 0 {
            false
        } else if exclude_left_key_flag == 1 {
            true
        } else {
            return None;
        };
        let new_epoch = match try_get_u64_le(&mut cur) {
            Some(x) => x,
            None => { return None; },
        };
        *buf = cur;
        Some(
            MonotonicDeleteEvent {
                event_key: PointRange::from_user_key(
                    UserKey::new(TableId::new(table_id), TableKey(table_key)),
                    is_exclude_left_key,
                ),
                new_epoch,
            },
        )
    }

    /// Reads an event from the front of `buf` and advances past it.
    pub fn decode(buf: &mut &[u8]) -> (r: Self)
        requires
            spec_decode_event(old(buf)@) is Some,
        ensures
            (r@, final(buf)@) == spec_decode_event(old(buf)@).unwrap(),
    {
        Self::try_decode(buf).unwrap()
    }

    /// Number of bytes that `encode` appends.
    pub fn encoded_size(&self) -> (r: usize)
        requires
            spec_event_encoded_size(self@) <= usize::MAX,
        ensures
            r == spec_event_encoded_size(self@),
    {
        4 + self.event_key.left_user_key.encoded_len() + 1 + 8
    }

    /// A copy of the event.
    pub fn duplicate(&self) -> (r: Self)
        ensures
            r@ == self@,
    {
        MonotonicDeleteEvent { event_key: self.event_key.duplicate(), new_epoch: self.new_epoch }
    }
}

} // verus!
