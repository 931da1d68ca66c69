//! The metadata of a table file and its binary form.
//!
//! The metadata is written behind the blocks of the file, and read from the
//! end of the file backward: the last four bytes hold the magic number, the
//! four before them the format version, the eight before those the checksum
//! of everything that precedes it.

use crate::block_meta::{
    lemma_block_meta_round_trip, spec_block_meta_encodable, spec_block_meta_encoded_size,
    spec_decode_block_meta, spec_encode_block_meta, BlockMeta, BlockMetaView,
};
use crate::checksum::{spec_checksum, xxhash64_checksum, xxhash64_verify};
use crate::coding::{
    checked_into_u32, get_u32_le, get_u64_le, lemma_take_length_prefixed, lemma_take_u32,
    lemma_take_u64, put_length_prefixed_slice, put_u32_le, put_u64_le, spec_length_prefixed,
    spec_take_length_prefixed, spec_take_u32, spec_take_u64, spec_u32_le, spec_u64_le,
    try_get_length_prefixed_slice, try_get_u32_le, try_get_u64_le,
};
use crate::error::HummockError;
use crate::tombstone::{
    lemma_event_round_trip, spec_decode_event, spec_encode_event, spec_event_encodable,
    spec_event_encoded_size, MonotonicDeleteEvent, MonotonicDeleteEventView,
};
use vstd::bytes::{spec_u32_from_le_bytes, spec_u64_from_le_bytes};
use vstd::prelude::*;

verus! {

/// The last four bytes of every table file's metadata.
pub const MAGIC: u32 = 0x5785ab73;

/// The format version that is written, and the only one that is read.
pub const VERSION: u32 = 1;

/// Number of bytes behind the checksummed part: checksum, version, magic.
pub const FOOTER_LEN: usize = 16;

/// The metadata of a table file.
#[derive(Clone, PartialEq, Eq, Debug)]
pub struct SstableMeta {
    pub block_metas: Vec<BlockMeta>,
    pub bloom_filter: Vec<u8>,
    pub estimated_size: u32,
    pub key_count: u32,
    pub smallest_key: Vec<u8>,
    pub largest_key: Vec<u8>,
    pub meta_offset: u64,
    /// The range deletes of the file, as events in key order.
    pub monotonic_tombstone_events: Vec<MonotonicDeleteEvent>,
    /// Format version.
    pub version: u32,
}

/// What an `SstableMeta` holds, as plain values.
pub struct SstableMetaView {
    pub block_metas: Seq<BlockMetaView>,
    pub bloom_filter: Seq<u8>,
    pub estimated_size: u32,
    pub key_count: u32,
    pub smallest_key: Seq<u8>,
    pub largest_key: Seq<u8>,
    pub meta_offset: u64,
    pub monotonic_tombstone_events: Seq<MonotonicDeleteEventView>,
    pub version: u32,
}

/// The views of a vector of block metadata.
pub open spec fn spec_block_metas_view(v: Seq<BlockMeta>) -> Seq<BlockMetaView> {
    Seq::new(v.len(), |i: int| v[i]@)
}

/// The views of a vector of events.
pub open spec fn spec_events_view(v: Seq<MonotonicDeleteEvent>) -> Seq<MonotonicDeleteEventView> {
    Seq::new(v.len(), |i: int| v[i]@)
}

impl View for SstableMeta {
    type V = SstableMetaView;

    open spec fn view(&self) -> SstableMetaView {
        SstableMetaView {
            block_metas: spec_block_metas_view(self.block_metas@),
            bloom_filter: self.bloom_filter@,
            estimated_size: self.estimated_size,
            key_count: self.key_count,
            smallest_key: self.smallest_key@,
            largest_key: self.largest_key@,
            meta_offset: self.meta_offset,
            monotonic_tombstone_events: spec_events_view(self.monotonic_tombstone_events@),
            version: self.version,
        }
    }
}

/// The encodings of `ms`, one behind the other.
pub open spec fn spec_encode_block_metas(ms: Seq<BlockMetaView>) -> Seq<u8>
    decreases ms.len(),
{
    if ms.len() == 0 {
        Seq::empty()
    } else {
        spec_encode_block_metas(ms.drop_last()) + spec_encode_block_meta(ms.last())
    }
}

/// The encodings of `es`, one behind the other.
pub open spec fn spec_encode_events(es: Seq<MonotonicDeleteEventView>) -> Seq<u8>
    decreases es.len(),
{
    if es.len() == 0 {
        Seq::empty()
    } else {
        spec_encode_events(es.drop_last()) + spec_encode_event(es.last())
    }
}

/// Reads `n` block metadata from the front of `s`: what was read and what
/// follows, or `None` where `s` ends too early.
pub open spec fn spec_decode_block_metas(s: Seq<u8>, n: nat) -> Option<
    (Seq<BlockMetaView>, Seq<u8>),
>
    decreases n,
{
    if n == 0 {
        Some((Seq::empty(), s))
    } else {
        match spec_decode_block_metas(s, (n - 1) as nat) {
            None => None,
            Some((ms, rest)) => match spec_decode_block_meta(rest) {
                None => None,
                Some((m, rest2)) => Some((ms.push(m), rest2)),
            },
        }
    }
}

/// Reads `n` events from the front of `s`: what was read and what follows,
/// or `None` where `s` ends too early or holds a flag that is neither 0 nor
/// 1.
pub open spec fn spec_decode_events(s: Seq<u8>, n: nat) -> Option<
    (Seq<MonotonicDeleteEventView>, Seq<u8>),
>
    decreases n,
{
    if n == 0 {
        Some((Seq::empty(), s))
    } else {
        match spec_decode_events(s, (n - 1) as nat) {
            None => None,
            Some((es, rest)) => match spec_decode_event(rest) {
                None => None,
                Some((e, rest2)) => Some((es.push(e), rest2)),
            },
        }
    }
}

/// Sum of the encoded sizes of `ms`.
pub open spec fn spec_block_metas_encoded_size(ms: Seq<BlockMetaView>) -> nat
    decreases ms.len(),
{
    if ms.len() == 0 {
        0
    } else {
        spec_block_metas_encoded_size(ms.drop_last()) + spec_block_meta_encoded_size(ms.last())
    }
}

/// Sum of the encoded sizes of `es`.
pub open spec fn spec_events_encoded_size(es: Seq<MonotonicDeleteEventView>) -> nat
    decreases es.len(),
{
    if es.len() == 0 {
        0
    } else {
        spec_events_encoded_size(es.drop_last()) + spec_event_encoded_size(es.last())
    }
}

/// The part of the encoding that the checksum covers:
/// `N (4) | block metadata * N | filter length (4) | filter |
/// estimated size (4) | key count (4) | smallest key length (4) | smallest key |
/// largest key length (4) | largest key | K (4) | event * K | meta offset (8)`.
pub open spec fn spec_encode_body(m: SstableMetaView) -> Seq<u8> {
    spec_u32_le(m.block_metas.len() as u32) + spec_encode_block_metas(m.block_metas)
        + spec_length_prefixed(m.bloom_filter) + spec_u32_le(m.estimated_size) + spec_u32_le(
        m.key_count,
    ) + spec_length_prefixed(m.smallest_key) + spec_length_prefixed(m.largest_key) + spec_u32_le(
        m.monotonic_tombstone_events.len() as u32,
    ) + spec_encode_events(m.monotonic_tombstone_events) + spec_u64_le(m.meta_offset)
}

/// The checksum, the version and the magic number that close an encoding
/// whose checksummed part is `body`.
pub open spec fn spec_encode_footer(body: Seq<u8>) -> Seq<u8> {
    spec_u64_le(spec_checksum(body)) + spec_u32_le(VERSION) + spec_u32_le(MAGIC)
}

/// The encoding of the metadata: the checksummed part, then its checksum
/// (8), the version (4) and the magic number (4).
pub open spec fn spec_encode_sstable_meta(m: SstableMetaView) -> Seq<u8> {
    spec_encode_body(m) + spec_encode_footer(spec_encode_body(m))
}

/// Reads the checksummed part from its start. Bytes behind the meta offset
/// are not looked at. The version of the result is `VERSION`.
pub open spec fn spec_decode_body(s: Seq<u8>) -> Option<SstableMetaView> {
    match spec_take_u32(s) {
        None => None,
        Some((n, s1)) => match spec_decode_block_metas(s1, n as nat) {
            None => None,
            Some((block_metas, s2)) => match spec_take_length_prefixed(s2) {
                None => None,
                Some((bloom_filter, s3)) => match spec_take_u32(s3) {
                    None => None,
                    Some((estimated_size, s4)) => match spec_take_u32(s4) {
                        None => None,
                        Some((key_count, s5)) => match spec_take_length_prefixed(s5) {
                            None => None,
                            Some((smallest_key, s6)) => match spec_take_length_prefixed(s6) {
                                None => None,
                                Some((largest_key, s7)) => match spec_take_u32(s7) {
                                    None => None,
                                    Some((k, s8)) => match spec_decode_events(s8, k as nat) {
                                        None => None,
                                        Some((events, s9)) => match spec_take_u64(s9) {
                                            None => None,
                                            Some((meta_offset, _)) => Some(
                                                SstableMetaView {
                                                    block_metas,
                                                    bloom_filter,
                                                    estimated_size,
                                                    key_count,
                                                    smallest_key,
                                                    largest_key,
                                                    meta_offset,
                                                    monotonic_tombstone_events: events,
                                                    version: VERSION,
                                                },
                                            ),
                                        },
                                    },
                                },
                            },
                        },
                    },
                },
            },
        },
    }
}

/// The magic number that `s` ends with.
pub open spec fn spec_magic_of(s: Seq<u8>) -> u32
    recommends
        s.len() >= 4,
{
    spec_u32_from_le_bytes(s.subrange(s.len() - 4, s.len() as int))
}

/// The format version that `s` holds before the magic number.
pub open spec fn spec_version_of(s: Seq<u8>) -> u32
    recommends
        s.len() >= 8,
{
    spec_u32_from_le_bytes(s.subrange(s.len() - 8, s.len() - 4))
}

/// The checksum that `s` holds before the version.
pub open spec fn spec_stored_checksum_of(s: Seq<u8>) -> u64
    recommends
        s.len() >= 16,
{
    spec_u64_from_le_bytes(s.subrange(s.len() - 16, s.len() - 8))
}

/// The part of `s` that its checksum covers.
pub open spec fn spec_body_of(s: Seq<u8>) -> Seq<u8>
    recommends
        s.len() >= 16,
{
    s.subrange(0, s.len() - 16)
}

/// What decoding `s` gives. The magic number is looked at first, then the
/// version, then the checksum, and only then the checksummed part.
pub open spec fn spec_decode_sstable_meta(s: Seq<u8>) -> Result<SstableMetaView, HummockError> {
    if s.len() < 4 {
        Err(HummockError::DecodeError)
    } else if spec_magic_of(s) != MAGIC {
        Err(HummockError::MagicMismatch { expected: MAGIC, found: spec_magic_of(s) })
    } else if s.len() < 8 {
        Err(HummockError::DecodeError)
    } else if spec_version_of(s) != VERSION {
        Err(HummockError::InvalidFormatVersion(spec_version_of(s)))
    } else if s.len() < 16 {
        Err(HummockError::DecodeError)
    } else if spec_checksum(spec_body_of(s)) != spec_stored_checksum_of(s) {
        Err(
            HummockError::ChecksumMismatch {
                expected: spec_stored_checksum_of(s),
                found: spec_checksum(spec_body_of(s)),
            },
        )
    } else {
        match spec_decode_body(spec_body_of(s)) {
            None => Err(HummockError::DecodeError),
            Some(m) => Ok(m),
        }
    }
}

/// Number of bytes that the metadata encodes to.
pub open spec fn spec_encoded_size(m: SstableMetaView) -> nat {
    4 + spec_block_metas_encoded_size(m.block_metas) + 4 + spec_events_encoded_size(
        m.monotonic_tombstone_events,
    ) + 4 + m.bloom_filter.len() + 4 + 4 + 4 + m.smallest_key.len() + 4 + m.largest_key.len() + 8
        + 8 + 4 + 4
}

/// Whether the metadata can be written: every count and every length fits
/// the four bytes that hold it.
pub open spec fn spec_encodable(m: SstableMetaView) -> bool {
    &&& m.block_metas.len() <= u32::MAX
    &&& forall|i: int| 0 <= i < m.block_metas.len() ==> spec_block_meta_encodable(#[trigger] m.block_metas[i])
    &&& m.bloom_filter.len() <= u32::MAX
    &&& m.smallest_key.len() <= u32::MAX
    &&& m.largest_key.len() <= u32::MAX
    &&& m.monotonic_tombstone_events.len() <= u32::MAX
    &&& forall|i: int|
        0 <= i < m.monotonic_tombstone_events.len() ==> spec_event_encodable(
            #[trigger] m.monotonic_tombstone_events[i],
        )
}

/// Whether the metadata is valid: it can be written, and its version is the
/// one that is written.
pub open spec fn spec_valid(m: SstableMetaView) -> bool {
    spec_encodable(m) && m.version == VERSION
}

/// Decoding `ms.len()` block metadata from what `ms` encodes to gives `ms`
/// back, with the bytes that followed.
#[verifier::rlimit(50)]
pub proof fn lemma_block_metas_round_trip(ms: Seq<BlockMetaView>, rest: Seq<u8>)
    requires
        forall|i: int| 0 <= i < ms.len() ==> spec_block_meta_encodable(#[trigger] ms[i]),
    ensures
        spec_decode_block_metas(spec_encode_block_metas(ms) + rest, ms.len()) == Some((ms, rest)),
        spec_encode_block_metas(ms).len() == spec_block_metas_encoded_size(ms),
    decreases ms.len(),
{
    if ms.len() == 0 {
        assert(spec_encode_block_metas(ms) + rest =~= rest);
        assert(ms =~= Seq::empty());
    } else {
        let init = ms.drop_last();
        let tail = spec_encode_block_meta(ms.last()) + rest;
        assert(spec_encode_block_metas(ms) + rest =~= spec_encode_block_metas(init) + tail);
        lemma_block_metas_round_trip(init, tail);
        lemma_block_meta_round_trip(ms.last(), rest);
        assert(init.push(ms.last()) =~= ms);
    }
}

/// Decoding `es.len()` events from what `es` encodes to gives `es` back,
/// with the bytes that followed.
#[verifier::rlimit(50)]
pub proof fn lemma_events_round_trip(es: Seq<MonotonicDeleteEventView>, rest: Seq<u8>)
    requires
        forall|i: int| 0 <= i < es.len() ==> spec_event_encodable(#[trigger] es[i]),
    ensures
        spec_decode_events(spec_encode_events(es) + rest, es.len()) == Some((es, rest)),
        spec_encode_events(es).len() == spec_events_encoded_size(es),
    decreases es.len(),
{
    if es.len() == 0 {
        assert(spec_encode_events(es) + rest =~= rest);
        assert(es =~= Seq::empty());
    } else {
        let init = es.drop_last();
        let tail = spec_encode_event(es.last()) + rest;
        assert(spec_encode_events(es) + rest =~= spec_encode_events(init) + tail);
        lemma_events_round_trip(init, tail);
        lemma_event_round_trip(es.last(), rest);
        assert(init.push(es.last()) =~= es);
    }
}

/// Where reading `i` block metadata fails, reading more fails too.
pub proof fn lemma_decode_block_metas_fails(s: Seq<u8>, i: nat, n: nat)
    requires
        i <= n,
        spec_decode_block_metas(s, i) is None,
    ensures
        spec_decode_block_metas(s, n) is None,
    decreases n,
{
    if i < n {
        lemma_decode_block_metas_fails(s, i, (n - 1) as nat);
    }
}

/// Where reading `i` events fails, reading more fails too.
pub proof fn lemma_decode_events_fails(s: Seq<u8>, i: nat, n: nat)
    requires
        i <= n,
        spec_decode_events(s, i) is None,
    ensures
        spec_decode_events(s, n) is None,
    decreases n,
{
    if i < n {
        lemma_decode_events_fails(s, i, (n - 1) as nat);
    }
}

/// Appending is associative.
proof fn lemma_append_assoc(x: Seq<u8>, y: Seq<u8>, z: Seq<u8>)
    ensures
        (x + y) + z == x + (y + z),
{
    assert((x + y) + z =~= x + (y + z));
}

/// The checksummed part of an encoding, followed by `rest`, field by field
/// from the last to the first.
#[verifier::rlimit(50)]
proof fn lemma_body_nested(m: SstableMetaView, rest: Seq<u8>)
    ensures
        spec_encode_body(m) + rest == spec_u32_le(m.block_metas.len() as u32) + (
        spec_encode_block_metas(m.block_metas) + (spec_length_prefixed(m.bloom_filter) + (
        spec_u32_le(m.estimated_size) + (spec_u32_le(m.key_count) + (spec_length_prefixed(
            m.smallest_key,
        ) + (spec_length_prefixed(m.largest_key) + (spec_u32_le(
            m.monotonic_tombstone_events.len() as u32,
        ) + (spec_encode_events(m.monotonic_tombstone_events) + (spec_u64_le(m.meta_offset)
            + rest))))))))),
{
    let f0 = spec_u32_le(m.block_metas.len() as u32);
    let f1 = spec_encode_block_metas(m.block_metas);
    let f2 = spec_length_prefixed(m.bloom_filter);
    let f3 = spec_u32_le(m.estimated_size);
    let f4 = spec_u32_le(m.key_count);
    let f5 = spec_length_prefixed(m.smallest_key);
    let f6 = spec_length_prefixed(m.largest_key);
    let f7 = spec_u32_le(m.monotonic_tombstone_events.len() as u32);
    let f8 = spec_encode_events(m.monotonic_tombstone_events);
    let f9 = spec_u64_le(m.meta_offset);
    let t9 = f9 + rest;
    let t8 = f8 + t9;
    let t7 = f7 + t8;
    let t6 = f6 + t7;
    let t5 = f5 + t6;
    let t4 = f4 + t5;
    let t3 = f3 + t4;
    let t2 = f2 + t3;
    let t1 = f1 + t2;
    lemma_append_assoc(f0 + f1 + f2 + f3 + f4 + f5 + f6 + f7 + f8, f9, rest);
    lemma_append_assoc(f0 + f1 + f2 + f3 + f4 + f5 + f6 + f7, f8, t9);
    lemma_append_assoc(f0 + f1 + f2 + f3 + f4 + f5 + f6, f7, t8);
    lemma_append_assoc(f0 + f1 + f2 + f3 + f4 + f5, f6, t7);
    lemma_append_assoc(f0 + f1 + f2 + f3 + f4, f5, t6);
    lemma_append_assoc(f0 + f1 + f2 + f3, f4, t5);
    lemma_append_assoc(f0 + f1 + f2, f3, t4);
    lemma_append_assoc(f0 + f1, f2, t3);
    lemma_append_assoc(f0, f1, t2);
}

/// Reading the checksummed part of an encoding gives the metadata back,
/// whatever follows it.
#[verifier::rlimit(50)]
pub proof fn lemma_body_round_trip(m: SstableMetaView, rest: Seq<u8>)
    requires
        spec_valid(m),
    ensures
        spec_decode_body(spec_encode_body(m) + rest) == Some(m),
        spec_encode_body(m).len() + 16 == spec_encoded_size(m),
{
    let s9 = spec_u64_le(m.meta_offset) + rest;
    let s8 = spec_encode_events(m.monotonic_tombstone_events) + s9;
    let s7 = spec_u32_le(m.monotonic_tombstone_events.len() as u32) + s8;
    let s6 = spec_length_prefixed(m.largest_key) + s7;
    let s5 = spec_length_prefixed(m.smallest_key) + s6;
    let s4 = spec_u32_le(m.key_count) + s5;
    let s3 = spec_u32_le(m.estimated_size) + s4;
    let s2 = spec_length_prefixed(m.bloom_filter) + s3;
    let s1 = spec_encode_block_metas(m.block_metas) + s2;
    let s0 = spec_u32_le(m.block_metas.len() as u32) + s1;
    lemma_body_nested(m, rest);
    assert(spec_encode_body(m) + rest == s0);
    lemma_take_u32(m.block_metas.len() as u32, s1);
    assert(spec_take_u32(s0) == Some((m.block_metas.len() as u32, s1)));
    lemma_block_metas_round_trip(m.block_metas, s2);
    assert(spec_decode_block_metas(s1, m.block_metas.len()) == Some((m.block_metas, s2)));
    lemma_take_length_prefixed(m.bloom_filter, s3);
    assert(spec_take_length_prefixed(s2) == Some((m.bloom_filter, s3)));
    lemma_take_u32(m.estimated_size, s4);
    assert(spec_take_u32(s3) == Some((m.estimated_size, s4)));
    lemma_take_u32(m.key_count, s5);
    assert(spec_take_u32(s4) == Some((m.key_count, s5)));
    lemma_take_length_prefixed(m.smallest_key, s6);
    assert(spec_take_length_prefixed(s5) == Some((m.smallest_key, s6)));
    lemma_take_length_prefixed(m.largest_key, s7);
    assert(spec_take_length_prefixed(s6) == Some((m.largest_key, s7)));
    lemma_take_u32(m.monotonic_tombstone_events.len() as u32, s8);
    assert(spec_take_u32(s7) == Some((m.monotonic_tombstone_events.len() as u32, s8)));
    lemma_events_round_trip(m.monotonic_tombstone_events, s9);
    assert(spec_decode_events(s8, m.monotonic_tombstone_events.len()) == Some(
        (m.monotonic_tombstone_events, s9),
    ));
    lemma_take_u64(m.meta_offset, rest);
    assert(spec_take_u64(s9) == Some((m.meta_offset, rest)));
}

/// What the last sixteen bytes of an encoding spell.
#[verifier::rlimit(50)]
pub proof fn lemma_footer_of_encoding(body: Seq<u8>)
    ensures
        spec_encode_footer(body).len() == 16,
        spec_magic_of(body + spec_encode_footer(body)) == MAGIC,
        spec_version_of(body + spec_encode_footer(body)) == VERSION,
        spec_stored_checksum_of(body + spec_encode_footer(body)) == spec_checksum(body),
        spec_body_of(body + spec_encode_footer(body)) == body,
{
    let c = spec_u64_le(spec_checksum(body));
    let v = spec_u32_le(VERSION);
    let g = spec_u32_le(MAGIC);
    lemma_take_u64(spec_checksum(body), Seq::empty());
    lemma_take_u32(VERSION, Seq::empty());
    lemma_take_u32(MAGIC, Seq::empty());
    let s = body + spec_encode_footer(body);
    assert(s.subrange(s.len() - 4, s.len() as int) =~= g);
    assert(s.subrange(s.len() - 8, s.len() - 4) =~= v);
    assert(s.subrange(s.len() - 16, s.len() - 8) =~= c);
    assert(s.subrange(0, s.len() - 16) =~= body);
    assert((g + Seq::<u8>::empty()).subrange(0, 4) =~= g);
    assert((v + Seq::<u8>::empty()).subrange(0, 4) =~= v);
    assert((c + Seq::<u8>::empty()).subrange(0, 8) =~= c);
}

/// Round trip: decoding the encoding of valid metadata gives the metadata
/// back, and the encoding is as long as `encoded_size` says.
#[verifier::rlimit(50)]
pub proof fn lemma_round_trip(m: SstableMetaView)
    requires
        spec_valid(m),
    ensures
        spec_decode_sstable_meta(spec_encode_sstable_meta(m)) == Ok::<_, HummockError>(m),
        spec_encode_sstable_meta(m).len() == spec_encoded_size(m),
{
    let body = spec_encode_body(m);
    lemma_footer_of_encoding(body);
    lemma_body_round_trip(m, Seq::empty());
    assert(body + Seq::<u8>::empty() =~= body);
}

/// Corruption of the magic number: bytes that end in anything but the magic
/// number are refused with a magic mismatch, whatever else they hold.
#[verifier::rlimit(50)]
pub proof fn lemma_wrong_magic_is_refused(s: Seq<u8>)
    requires
        s.len() >= 4,
        s.subrange(s.len() - 4, s.len() as int) != spec_u32_le(MAGIC),
    ensures
        spec_decode_sstable_meta(s) == Err::<SstableMetaView, _>(
            HummockError::MagicMismatch { expected: MAGIC, found: spec_magic_of(s) },
        ),
        spec_magic_of(s) != MAGIC,
{
    lemma_take_u32(MAGIC, Seq::empty());
    let tail = s.subrange(s.len() - 4, s.len() as int);
    if spec_magic_of(s) == MAGIC {
        assert((spec_u32_le(MAGIC) + Seq::<u8>::empty()).subrange(0, 4) =~= spec_u32_le(MAGIC));
        crate::coding::lemma_u32_from_le_bytes_injective(tail, spec_u32_le(MAGIC));
    }
}

/// Corruption of the version: bytes that end in the magic number but hold
/// anything but the version before it are refused as an invalid format
/// version.
#[verifier::rlimit(50)]
pub proof fn lemma_wrong_version_is_refused(s: Seq<u8>)
    requires
        s.len() >= 8,
        s.subrange(s.len() - 4, s.len() as int) == spec_u32_le(MAGIC),
        s.subrange(s.len() - 8, s.len() - 4) != spec_u32_le(VERSION),
    ensures
        spec_decode_sstable_meta(s) == Err::<SstableMetaView, _>(
            HummockError::InvalidFormatVersion(spec_version_of(s)),
        ),
        spec_version_of(s) != VERSION,
{
    lemma_take_u32(MAGIC, Seq::empty());
    lemma_take_u32(VERSION, Seq::empty());
    assert((spec_u32_le(MAGIC) + Seq::<u8>::empty()).subrange(0, 4) =~= spec_u32_le(MAGIC));
    let field = s.subrange(s.len() - 8, s.len() - 4);
    if spec_version_of(s) == VERSION {
        assert((spec_u32_le(VERSION) + Seq::<u8>::empty()).subrange(0, 4) =~= spec_u32_le(
            VERSION,
        ));
        crate::coding::lemma_u32_from_le_bytes_injective(field, spec_u32_le(VERSION));
    }
}

/// Corruption of the checksum: take the encoding of any metadata and change
/// its eight checksum bytes, and nothing else; the result is refused with a
/// checksum mismatch.
#[verifier::rlimit(50)]
pub proof fn lemma_wrong_checksum_is_refused(m: SstableMetaView, s: Seq<u8>)
    requires
        s.len() == spec_encode_sstable_meta(m).len(),
        s.subrange(0, s.len() - 16) == spec_encode_body(m),
        s.subrange(s.len() - 8, s.len() as int) == spec_u32_le(VERSION) + spec_u32_le(MAGIC),
        s.subrange(s.len() - 16, s.len() - 8) != spec_u64_le(spec_checksum(spec_encode_body(m))),
    ensures
        spec_decode_sstable_meta(s) == Err::<SstableMetaView, _>(
            HummockError::ChecksumMismatch {
                expected: spec_stored_checksum_of(s),
                found: spec_checksum(spec_encode_body(m)),
            },
        ),
        spec_stored_checksum_of(s) != spec_checksum(spec_encode_body(m)),
{
    let body = spec_encode_body(m);
    lemma_footer_of_encoding(body);
    lemma_take_u32(MAGIC, Seq::empty());
    lemma_take_u32(VERSION, Seq::empty());
    lemma_take_u64(spec_checksum(body), Seq::empty());
    let vm = spec_u32_le(VERSION) + spec_u32_le(MAGIC);
    let last8 = s.subrange(s.len() - 8, s.len() as int);
    assert(s.subrange(s.len() - 4, s.len() as int) =~= last8.subrange(4, 8));
    assert(s.subrange(s.len() - 8, s.len() - 4) =~= last8.subrange(0, 4));
    assert(vm.subrange(4, 8) =~= spec_u32_le(MAGIC));
    assert(vm.subrange(0, 4) =~= spec_u32_le(VERSION));
    assert((spec_u32_le(MAGIC) + Seq::<u8>::empty()).subrange(0, 4) =~= spec_u32_le(MAGIC));
    assert((spec_u32_le(VERSION) + Seq::<u8>::empty()).subrange(0, 4) =~= spec_u32_le(VERSION));
    let field = s.subrange(s.len() - 16, s.len() - 8);
    let c = spec_u64_le(spec_checksum(body));
    if spec_stored_checksum_of(s) == spec_checksum(body) {
        assert((c + Seq::<u8>::empty()).subrange(0, 8) =~= c);
        crate::coding::lemma_u64_from_le_bytes_injective(field, c);
    }
}

/// Appending one more item to a prefix of the block metadata.
proof fn lemma_block_metas_prefix_step(v: Seq<BlockMeta>, i: int)
    requires
        0 <= i < v.len(),
    ensures
        spec_block_metas_view(v).subrange(0, i + 1).drop_last() == spec_block_metas_view(
            v,
        ).subrange(0, i),
        spec_block_metas_view(v).subrange(0, i + 1).last() == v[i]@,
{
    let all = spec_block_metas_view(v);
    assert(all.subrange(0, i + 1).drop_last() =~= all.subrange(0, i));
}

/// Appending one more item to a prefix of the events.
proof fn lemma_events_prefix_step(v: Seq<MonotonicDeleteEvent>, i: int)
    requires
        0 <= i < v.len(),
    ensures
        spec_events_view(v).subrange(0, i + 1).drop_last() == spec_events_view(v).subrange(0, i),
        spec_events_view(v).subrange(0, i + 1).last() == v[i]@,
{
    let all = spec_events_view(v);
    assert(all.subrange(0, i + 1).drop_last() =~= all.subrange(0, i));
}

/// The sizes of a prefix add up to no more than the sizes of the whole.
proof fn lemma_block_metas_size_monotone(ms: Seq<BlockMetaView>, i: int)
    requires
        0 <= i <= ms.len(),
    ensures
        spec_block_metas_encoded_size(ms.subrange(0, i)) <= spec_block_metas_encoded_size(ms),
    decreases ms.len() - i,
{
    if i == ms.len() {
        assert(ms.subrange(0, i) =~= ms);
    } else {
        lemma_block_metas_size_monotone(ms, i + 1);
        assert(ms.subrange(0, i + 1).drop_last() =~= ms.subrange(0, i));
    }
}

/// The sizes of a prefix add up to no more than the sizes of the whole.
proof fn lemma_events_size_monotone(es: Seq<MonotonicDeleteEventView>, i: int)
    requires
        0 <= i <= es.len(),
    ensures
        spec_events_encoded_size(es.subrange(0, i)) <= spec_events_encoded_size(es),
    decreases es.len() - i,
{
    if i == es.len() {
        assert(es.subrange(0, i) =~= es);
    } else {
        lemma_events_size_monotone(es, i + 1);
        assert(es.subrange(0, i + 1).drop_last() =~= es.subrange(0, i));
    }
}

/// Reads `n` block metadata from the front of `buf` and advances past them.
/// Where `buf` ends too early the result is `None`.
#[verifier::rlimit(50)]
fn decode_block_metas(buf: &mut &[u8], n: u32) -> (r: Option<Vec<BlockMeta>>)
    ensures
        match spec_decode_block_metas(old(buf)@, n as nat) {
            Some((ms, rest)) => r matches Some(v) && spec_block_metas_view(v@) == ms
                && final(buf)@ == rest,
            None => r is None,
        },
{
    let mut block_metas: Vec<BlockMeta> = Vec::new();
    let mut i: u32 = 0;
    while i < n
        invariant
            i <= n,
            spec_decode_block_metas(old(buf)@, i as nat) == Some(
                (spec_block_metas_view(block_metas@), buf@),
            ),
        decreases n - i,
    {
        let ghost before = spec_block_metas_view(block_metas@);
        match BlockMeta::try_decode(buf) {
            None => {
                proof {
                    lemma_decode_block_metas_fails(old(buf)@, (i + 1) as nat, n as nat);
                }
                return None;
            },
            Some(m) => {
                block_metas.push(m);
                assert(spec_block_metas_view(block_metas@) =~= before.push(m@));
            },
        }
        i += 1;
    }
    Some(block_metas)
}

/// Reads `n` events from the front of `buf` and advances past them. Where
/// `buf` ends too early, or holds a flag that is neither 0 nor 1, the result
/// is `None`.
#[verifier::rlimit(50)]
fn decode_events(buf: &mut &[u8], n: u32) -> (r: Option<Vec<MonotonicDeleteEvent>>)
    ensures
        match spec_decode_events(old(buf)@, n as nat) {
            Some((es, rest)) => r matches Some(v) && spec_events_view(v@) == es
                && final(buf)@ == rest,
            None => r is None,
        },
{
    let mut events: Vec<MonotonicDeleteEvent> = Vec::new();
    let mut i: u32 = 0;
    while i < n
        invariant
            i <= n,
            spec_decode_events(old(buf)@, i as nat) == Some((spec_events_view(events@), buf@)),
        decreases n - i,
    {
        let ghost before = spec_events_view(events@);
        match MonotonicDeleteEvent::try_decode(buf) {
            None => {
                proof {
                    lemma_decode_events_fails(old(buf)@, (i + 1) as nat, n as nat);
                }
                return None;
            },
            Some(e) => {
                events.push(e);
                assert(spec_events_view(events@) =~= before.push(e@));
            },
        }
        i += 1;
    }
    Some(events)
}

/// Reads the checksummed part of an encoding.
#[verifier::rlimit(50)]
fn decode_body(body: &[u8]) -> (r: Option<SstableMeta>)
    ensures
        match spec_decode_body(body@) {
            Some(m) => r matches Some(x) && x@ == m,
            None => r is None,
        },
{
    let mut buf: &[u8] = body;
    let block_meta_count = match try_get_u32_le(&mut buf) {
        Some(x) => x,
        None => { return None; },
    };
    let block_metas = match decode_block_metas(&mut buf, block_meta_count) {
        Some(x) => x,
        None => { return None; },
    };
    let bloom_filter = match try_get_length_prefixed_slice(&mut buf) {
        Some(x) => x,
        None => { return None; },
    };
    let estimated_size = match try_get_u32_le(&mut buf) {
        Some(x) => x,
        None => { return None; },
    };
    let key_count = match try_get_u32_le(&mut buf) {
        Some(x) => x,
        None => { return None; },
    };
    let smallest_key = match try_get_length_prefixed_slice(&mut buf) {
        Some(x) => x,
        None => { return None; },
    };
    let largest_key = match try_get_length_prefixed_slice(&mut buf) {
        Some(x) => x,
        None => { return None; },
    };
    let tomb_event_count = match try_get_u32_le(&mut buf) {
        Some(x) => x,
        None => { return None; },
    };
    let monotonic_tombstone_events = match decode_events(&mut buf, tomb_event_count) {
        Some(x) => x,
        None => { return None; },
    };
    let meta_offset = match try_get_u64_le(&mut buf) {
        Some(x) => x,
        None => { return None; },
    };
    Some(
        SstableMeta {
            block_metas,
            bloom_filter,
            estimated_size,
            key_count,
            smallest_key,
            largest_key,
            meta_offset,
            monotonic_tombstone_events,
            version: VERSION,
        },
    )
}

/// Appends the encodings of `metas`, one behind the other.
#[verifier::rlimit(50)]
fn encode_block_metas(metas: &Vec<BlockMeta>, buf: &mut Vec<u8>)
    requires
        forall|i: int|
            0 <= i < metas@.len() ==> spec_block_meta_encodable(
                #[trigger] spec_block_metas_view(metas@)[i],
            ),
    ensures
        final(buf)@ == old(buf)@ + spec_encode_block_metas(spec_block_metas_view(metas@)),
{
    let ghost views = spec_block_metas_view(metas@);
    let mut i: usize = 0;
    assert(buf@ =~= old(buf)@ + spec_encode_block_metas(views.subrange(0, 0)));
    while i < metas.len()
        invariant
            i <= metas@.len(),
            views == spec_block_metas_view(metas@),
            forall|k: int| 0 <= k < views.len() ==> spec_block_meta_encodable(#[trigger] views[k]),
            buf@ == old(buf)@ + spec_encode_block_metas(views.subrange(0, i as int)),
        decreases metas@.len() - i,
    {
        proof {
            lemma_block_metas_prefix_step(metas@, i as int);
            assert(spec_block_meta_encodable(views[i as int]));
        }
        metas[i].encode(buf);
        assert(buf@ =~= old(buf)@ + spec_encode_block_metas(views.subrange(0, i + 1)));
        i += 1;
    }
    assert(views.subrange(0, i as int) =~= views);
}

/// Appends the encodings of `events`, one behind the other.
#[verifier::rlimit(50)]
fn encode_events(events: &Vec<MonotonicDeleteEvent>, buf: &mut Vec<u8>)
    requires
        forall|i: int|
            0 <= i < events@.len() ==> spec_event_encodable(
                #[trigger] spec_events_view(events@)[i],
            ),
    ensures
        final(buf)@ == old(buf)@ + spec_encode_events(spec_events_view(events@)),
{
    let ghost views = spec_events_view(events@);
    let mut i: usize = 0;
    assert(buf@ =~= old(buf)@ + spec_encode_events(views.subrange(0, 0)));
    while i < events.len()
        invariant
            i <= events@.len(),
            views == spec_events_view(events@),
            forall|k: int| 0 <= k < views.len() ==> spec_event_encodable(#[trigger] views[k]),
            buf@ == old(buf)@ + spec_encode_events(views.subrange(0, i as int)),
        decreases events@.len() - i,
    {
        proof {
            lemma_events_prefix_step(events@, i as int);
            assert(spec_event_encodable(views[i as int]));
        }
        events[i].encode(buf);
        assert(buf@ =~= old(buf)@ + spec_encode_events(views.subrange(0, i + 1)));
        i += 1;
    }
    assert(views.subrange(0, i as int) =~= views);
}

impl SstableMeta {
    /// Whether the metadata can be written: every count and every length
    /// fits the four bytes that hold it.
    pub open spec fn encodable(&self) -> bool {
        spec_encodable(self@)
    }

    /// Whether the metadata is valid: it can be written, and its version is
    /// the one that is written.
    pub open spec fn valid(&self) -> bool {
        spec_valid(self@)
    }

    /// The encoded metadata.
    pub fn encode_to_bytes(&self) -> (buf: Vec<u8>)
        requires
            self.encodable(),
        ensures
            buf@ == spec_encode_sstable_meta(self@),
    {
        let mut buf = Vec::with_capacity(4096);
        self.encode_to(&mut buf);
        assert(buf@ =~= spec_encode_sstable_meta(self@));
        buf
    }

    /// Appends the encoded metadata to `buf`. The checksum covers what this
    /// call appends before it, and nothing that `buf` held already.
    #[verifier::rlimit(50)]
    pub fn encode_to(&self, buf: &mut Vec<u8>)
        requires
            self.encodable(),
        ensures
            final(buf)@ == old(buf)@ + spec_encode_sstable_meta(self@),
    {
        let start_offset = buf.len();
        self.encode_body(buf);
        let end = buf.len();
        let checksum = xxhash64_checksum(
            vstd::slice::slice_subrange(buf.as_slice(), start_offset, end),
        );
        assert(buf@.subrange(start_offset as int, end as int) =~= spec_encode_body(self@));
        let ghost body = spec_encode_body(self@);
        let ghost c = spec_u64_le(checksum);
        put_u64_le(buf, checksum);
        proof {
            lemma_append_assoc(old(buf)@, body, c);
        }
        put_u32_le(buf, VERSION);
        proof {
            lemma_append_assoc(old(buf)@, body + c, spec_u32_le(VERSION));
        }
        put_u32_le(buf, MAGIC);
        proof {
            lemma_append_assoc(old(buf)@, body + c + spec_u32_le(VERSION), spec_u32_le(MAGIC));
            lemma_append_assoc(body, c + spec_u32_le(VERSION), spec_u32_le(MAGIC));
            lemma_append_assoc(body, c, spec_u32_le(VERSION));
        }
    }

    /// Appends the part of the encoding that the checksum covers.
    #[verifier::rlimit(50)]
    fn encode_body(&self, buf: &mut Vec<u8>)
        requires
            self.encodable(),
        ensures
            final(buf)@ == old(buf)@ + spec_encode_body(self@),
    {
        let ghost m = self@;
        let ghost start = buf@;
        let ghost f0 = spec_u32_le(m.block_metas.len() as u32);
        let ghost f1 = spec_encode_block_metas(m.block_metas);
        let ghost f2 = spec_length_prefixed(m.bloom_filter);
        let ghost f3 = spec_u32_le(m.estimated_size);
        let ghost f4 = spec_u32_le(m.key_count);
        let ghost f5 = spec_length_prefixed(m.smallest_key);
        let ghost f6 = spec_length_prefixed(m.largest_key);
        let ghost f7 = spec_u32_le(m.monotonic_tombstone_events.len() as u32);
        let ghost f8 = spec_encode_events(m.monotonic_tombstone_events);
        let ghost f9 = spec_u64_le(m.meta_offset);
        put_u32_le(buf, checked_into_u32(self.block_metas.len()));
        assert(buf@ == start + f0);
        encode_block_metas(&self.block_metas, buf);
        proof {
            lemma_append_assoc(start, f0, f1);
        }
        assert(buf@ == start + (f0 + f1));
        put_length_prefixed_slice(buf, self.bloom_filter.as_slice());
        proof {
            lemma_append_assoc(start, f0 + f1, f2);
        }
        assert(buf@ == start + (f0 + f1 + f2));
        put_u32_le(buf, self.estimated_size);
        proof {
            lemma_append_assoc(start, f0 + f1 + f2, f3);
        }
        assert(buf@ == start + (f0 + f1 + f2 + f3));
        put_u32_le(buf, self.key_count);
        proof {
            lemma_append_assoc(start, f0 + f1 + f2 + f3, f4);
        }
        assert(buf@ == start + (f0 + f1 + f2 + f3 + f4));
        put_length_prefixed_slice(buf, self.smallest_key.as_slice());
        proof {
            lemma_append_assoc(start, f0 + f1 + f2 + f3 + f4, f5);
        }
        assert(buf@ == start + (f0 + f1 + f2 + f3 + f4 + f5));
        put_length_prefixed_slice(buf, self.largest_key.as_slice());
        proof {
            lemma_append_assoc(start, f0 + f1 + f2 + f3 + f4 + f5, f6);
        }
        assert(buf@ == start + (f0 + f1 + f2 + f3 + f4 + f5 + f6));
        put_u32_le(buf, checked_into_u32(self.monotonic_tombstone_events.len()));
        proof {
            lemma_append_assoc(start, f0 + f1 + f2 + f3 + f4 + f5 + f6, f7);
        }
        assert(buf@ == start + (f0 + f1 + f2 + f3 + f4 + f5 + f6 + f7));
        encode_events(&self.monotonic_tombstone_events, buf);
        proof {
            lemma_append_assoc(start, f0 + f1 + f2 + f3 + f4 + f5 + f6 + f7, f8);
        }
        assert(buf@ == start + (f0 + f1 + f2 + f3 + f4 + f5 + f6 + f7 + f8));
        put_u64_le(buf, self.meta_offset);
        proof {
            lemma_append_assoc(start, f0 + f1 + f2 + f3 + f4 + f5 + f6 + f7 + f8, f9);
        }
        assert(spec_encode_body(m) == f0 + f1 + f2 + f3 + f4 + f5 + f6 + f7 + f8 + f9);
    }

    /// Reads metadata from `buf`, from its end backward. `buf` itself is not
    /// advanced.
    ///
    /// The magic number is checked first, then the version, then the
    /// checksum; each failure has its own error. Bytes that pass all three
    /// and still end before the value they encode are refused with
    /// `DecodeError`.
    #[verifier::rlimit(50)]
    pub fn decode(buf: &mut &[u8]) -> (r: Result<SstableMeta, HummockError>)
        ensures
            final(buf)@ == old(buf)@,
            match r {
                Ok(m) => spec_decode_sstable_meta(old(buf)@) == Ok::<_, HummockError>(m@),
                Err(e) => spec_decode_sstable_meta(old(buf)@) == Err::<SstableMetaView, _>(e),
            },
    {
        let whole: &[u8] = *buf;
        let mut cursor = whole.len();
        if cursor < 4 {
            return Err(HummockError::DecodeError);
        }
        cursor -= 4;
        let mut field = vstd::slice::slice_subrange(whole, cursor, cursor + 4);
        let magic = get_u32_le(&mut field);
        assert(whole@.subrange(cursor as int, cursor + 4).subrange(0, 4) =~= whole@.subrange(
            cursor as int,
            cursor + 4,
        ));
        if magic != MAGIC {
            return Err(HummockError::magic_mismatch(MAGIC, magic));
        }
        if cursor < 4 {
            return Err(HummockError::DecodeError);
        }
        cursor -= 4;
        let mut field = vstd::slice::slice_subrange(whole, cursor, cursor + 4);
        let version = get_u32_le(&mut field);
        assert(whole@.subrange(cursor as int, cursor + 4).subrange(0, 4) =~= whole@.subrange(
            cursor as int,
            cursor + 4,
        ));
        if version != VERSION {
            return Err(HummockError::invalid_format_version(version));
        }
        if cursor < 8 {
            return Err(HummockError::DecodeError);
        }
        cursor -= 8;
        let mut field = vstd::slice::slice_subrange(whole, cursor, cursor + 8);
        let checksum = get_u64_le(&mut field);
        assert(whole@.subrange(cursor as int, cursor + 8).subrange(0, 8) =~= whole@.subrange(
            cursor as int,
            cursor + 8,
        ));
        let body = vstd::slice::slice_subrange(whole, 0, cursor);
        match xxhash64_verify(body, checksum) {
            Err(e) => { return Err(e); },
            Ok(()) => {},
        }
        match decode_body(body) {
            None => Err(HummockError::DecodeError),
            Some(m) => Ok(m),
        }
    }

    /// Number of bytes that `encode_to` appends.
    #[verifier::rlimit(50)]
    pub fn encoded_size(&self) -> (r: usize)
        requires
            spec_encoded_size(self@) <= usize::MAX,
        ensures
            r == spec_encoded_size(self@),
    {
        let ghost metas = spec_block_metas_view(self.block_metas@);
        let ghost events = spec_events_view(self.monotonic_tombstone_events@);
        let mut block_meta_size: usize = 0;
        let mut i: usize = 0;
        while i < self.block_metas.len()
            invariant
                i <= self.block_metas@.len(),
                metas == spec_block_metas_view(self.block_metas@),
                spec_block_metas_encoded_size(metas) <= usize::MAX,
                block_meta_size == spec_block_metas_encoded_size(metas.subrange(0, i as int)),
            decreases self.block_metas@.len() - i,
        {
            proof {
                lemma_block_metas_prefix_step(self.block_metas@, i as int);
                lemma_block_metas_size_monotone(metas, i + 1);
            }
            block_meta_size = block_meta_size + self.block_metas[i].encoded_size();
            i += 1;
        }
        assert(metas.subrange(0, i as int) =~= metas);
        let mut event_size: usize = 0;
        let mut j: usize = 0;
        while j < self.monotonic_tombstone_events.len()
            invariant
                j <= self.monotonic_tombstone_events@.len(),
                events == spec_events_view(self.monotonic_tombstone_events@),
                spec_events_encoded_size(events) <= usize::MAX,
                event_size == spec_events_encoded_size(events.subrange(0, j as int)),
            decreases self.monotonic_tombstone_events@.len() - j,
        {
            proof {
                lemma_events_prefix_step(self.monotonic_tombstone_events@, j as int);
                lemma_events_size_monotone(events, j + 1);
            }
            event_size = event_size + self.monotonic_tombstone_events[j].encoded_size();
            j += 1;
        }
        assert(events.subrange(0, j as int) =~= events);
        4 + block_meta_size + 4 + event_size + 4 + self.bloom_filter.len() + 4 + 4 + 4
            + self.smallest_key.len() + 4 + self.largest_key.len() + 8 + 8 + 4 + 4
    }
}

/// The sizes of the block metadata, as far as they can be written and
/// their sum can be counted.
#[verifier::rlimit(50)]
fn checked_block_metas_size(metas: &Vec<BlockMeta>) -> (r: Option<usize>)
    ensures
        match r {
            Some(n) => n == spec_block_metas_encoded_size(spec_block_metas_view(metas@))
                && forall|i: int|
                0 <= i < metas@.len() ==> spec_block_meta_encodable(
                    #[trigger] spec_block_metas_view(metas@)[i],
                ),
            None => spec_block_metas_encoded_size(spec_block_metas_view(metas@)) > usize::MAX
                || exists|i: int|
                0 <= i < metas@.len() && !spec_block_meta_encodable(
                    #[trigger] spec_block_metas_view(metas@)[i],
                ),
        },
{
    let ghost views = spec_block_metas_view(metas@);
    let mut total: usize = 0;
    let mut i: usize = 0;
    while i < metas.len()
        invariant
            i <= metas@.len(),
            views == spec_block_metas_view(metas@),
            total == spec_block_metas_encoded_size(views.subrange(0, i as int)),
            forall|k: int| 0 <= k < i ==> spec_block_meta_encodable(#[trigger] views[k]),
        decreases metas@.len() - i,
    {
        proof {
            lemma_block_metas_prefix_step(metas@, i as int);
            lemma_block_metas_size_monotone(views, i + 1);
        }
        let key_len = metas[i].smallest_key.len();
        if key_len as u64 > 0xffff_ffff {
            assert(!spec_block_meta_encodable(views[i as int]));
            return None;
        }
        let size = match 16usize.checked_add(key_len) {
            Some(size) => size,
            None => {
                return None;
            },
        };
        total = match total.checked_add(size) {
            Some(total) => total,
            None => {
                return None;
            },
        };
        i += 1;
    }
    assert(views.subrange(0, i as int) =~= views);
    Some(total)
}

/// The sizes of the events, as far as they can be written and their sum
/// can be counted.
#[verifier::rlimit(50)]
fn checked_events_size(events: &Vec<MonotonicDeleteEvent>) -> (r: Option<usize>)
    ensures
        match r {
            Some(n) => n == spec_events_encoded_size(spec_events_view(events@)) && forall|i: int|
                0 <= i < events@.len() ==> spec_event_encodable(
                    #[trigger] spec_events_view(events@)[i],
                ),
            None => spec_events_encoded_size(spec_events_view(events@)) > usize::MAX || exists|
                i: int,
            |
                0 <= i < events@.len() && !spec_event_encodable(
                    #[trigger] spec_events_view(events@)[i],
                ),
        },
{
    let ghost views = spec_events_view(events@);
    let mut total: usize = 0;
    let mut i: usize = 0;
    while i < events.len()
        invariant
            i <= events@.len(),
            views == spec_events_view(events@),
            total == spec_events_encoded_size(views.subrange(0, i as int)),
            forall|k: int| 0 <= k < i ==> spec_event_encodable(#[trigger] views[k]),
        decreases events@.len() - i,
    {
        proof {
            lemma_events_prefix_step(events@, i as int);
            lemma_events_size_monotone(views, i + 1);
        }
        let key_len = events[i].event_key.left_user_key.table_key.0.len();
        if key_len as u64 > 0xffff_ffff {
            assert(!spec_event_encodable(views[i as int]));
            return None;
        }
        let size = match 17usize.checked_add(key_len) {
            Some(size) => size,
            None => {
                return None;
            },
        };
        total = match total.checked_add(size) {
            Some(total) => total,
            None => {
                return None;
            },
        };
        i += 1;
    }
    assert(views.subrange(0, i as int) =~= views);
    Some(total)
}

impl SstableMeta {
    /// Number of bytes that the metadata encodes to, where it can be
    /// written and the number can be counted; `None` where a count or a
    /// length does not fit its four bytes, or the size does not fit a
    /// `usize`.
    #[verifier::rlimit(50)]
    pub fn checked_encoded_size(&self) -> (r: Option<usize>)
        ensures
            match r {
                Some(n) => self.encodable() && n == spec_encoded_size(self@),
                None => !self.encodable() || spec_encoded_size(self@) > usize::MAX,
            },
    {
        if self.block_metas.len() as u64 > 0xffff_ffff || self.bloom_filter.len() as u64
            > 0xffff_ffff || self.smallest_key.len() as u64 > 0xffff_ffff
            || self.largest_key.len() as u64 > 0xffff_ffff
            || self.monotonic_tombstone_events.len() as u64 > 0xffff_ffff {
            return None;
        }
        let block_meta_size = match checked_block_metas_size(&self.block_metas) {
            Some(n) => n,
            None => {
                return None;
            },
        };
        let event_size = match checked_events_size(&self.monotonic_tombstone_events) {
            Some(n) => n,
            None => {
                return None;
            },
        };
        let fixed: u64 = 52 + self.bloom_filter.len() as u64 + self.smallest_key.len() as u64
            + self.largest_key.len() as u64;
        let with_metas = match fixed.checked_add(block_meta_size as u64) {
            Some(n) => n,
            None => {
                return None;
            },
        };
        match with_metas.checked_add(event_size as u64) {
            Some(n) => if n > usize::MAX as u64 {
                None
            } else {
                Some(n as usize)
            },
            None => None,
        }
    }
}

} // verus!
