//! Metadata of one block of a table file.

use crate::coding::{
    lemma_take_length_prefixed, lemma_take_u32, put_length_prefixed_slice, put_u32_le,
    spec_length_prefixed, spec_take_length_prefixed, spec_take_u32, spec_u32_le,
    try_get_length_prefixed_slice, try_get_u32_le,
};
use crate::key::{spec_decode_full_key, FullKey, TableId, EPOCH_LEN, TABLE_PREFIX_LEN};
use vstd::prelude::*;

verus! {

/// Where a block lies in its file, and the smallest key it holds.
#[derive(Clone, PartialEq, Eq, Debug)]
pub struct BlockMeta {
    pub smallest_key: Vec<u8>,
    pub offset: u32,
    pub len: u32,
    pub uncompressed_size: u32,
}

/// What a `BlockMeta` holds, as plain values.
pub struct BlockMetaView {
    pub smallest_key: Seq<u8>,
    pub offset: u32,
    pub len: u32,
    pub uncompressed_size: u32,
}

impl View for BlockMeta {
    type V = BlockMetaView;

    open spec fn view(&self) -> BlockMetaView {
        BlockMetaView {
            smallest_key: self.smallest_key@,
            offset: self.offset,
            len: self.len,
            uncompressed_size: self.uncompressed_size,
        }
    }
}

/// The bytes of a block's metadata:
/// `offset (4) | len (4) | uncompressed size (4) | key length (4) | key`.
pub open spec fn spec_encode_block_meta(m: BlockMetaView) -> Seq<u8> {
    spec_u32_le(m.offset) + spec_u32_le(m.len) + spec_u32_le(m.uncompressed_size)
        + spec_length_prefixed(m.smallest_key)
}

/// Reads a block's metadata from the front of `s`: the metadata and what
/// follows it, or `None` where `s` ends too early.
pub open spec fn spec_decode_block_meta(s: Seq<u8>) -> Option<(BlockMetaView, Seq<u8>)> {
    match spec_take_u32(s) {
        None => None,
        Some((offset, s1)) => match spec_take_u32(s1) {
            None => None,
            Some((len, s2)) => match spec_take_u32(s2) {
                None => None,
                Some((uncompressed_size, s3)) => match spec_take_length_prefixed(s3) {
                    None => None,
                    Some((smallest_key, rest)) => Some(
                        (BlockMetaView { smallest_key, offset, len, uncompressed_size }, rest),
                    ),
                },
            },
        },
    }
}

/// Number of bytes that a block's metadata encodes to.
pub open spec fn spec_block_meta_encoded_size(m: BlockMetaView) -> nat {
    16 + m.smallest_key.len()
}

/// Whether the metadata can be written: the key's length fits the four
/// bytes that hold it.
pub open spec fn spec_block_meta_encodable(m: BlockMetaView) -> bool {
    m.smallest_key.len() <= u32::MAX
}

/// Decoding what was encoded gives the metadata back, with the bytes that
/// followed it; and the encoding is as long as `encoded_size` says.
#[verifier::rlimit(50)]
pub proof fn lemma_block_meta_round_trip(m: BlockMetaView, rest: Seq<u8>)
    requires
        spec_block_meta_encodable(m),
    ensures
        spec_decode_block_meta(spec_encode_block_meta(m) + rest) == Some((m, rest)),
        spec_encode_block_meta(m).len() == spec_block_meta_encoded_size(m),
{
    let key = spec_length_prefixed(m.smallest_key);
    let s3 = key + rest;
    let s2 = spec_u32_le(m.uncompressed_size) + s3;
    let s1 = spec_u32_le(m.len) + s2;
    let s0 = spec_u32_le(m.offset) + s1;
    assert(spec_encode_block_meta(m) + rest =~= s0);
    lemma_take_u32(m.offset, s1);
    lemma_take_u32(m.len, s2);
    lemma_take_u32(m.uncompressed_size, s3);
    lemma_take_length_prefixed(m.smallest_key, rest);
}

impl BlockMeta {
    /// Whether the metadata can be written: the key's length fits the four
    /// bytes that hold it.
    pub open spec fn encodable(&self) -> bool {
        spec_block_meta_encodable(self@)
    }

    /// Appends the encoded metadata to `buf`.
    #[verifier::rlimit(50)]
    pub fn encode(&self, buf: &mut Vec<u8>)
        requires
            self.encodable(),
        ensures
            final(buf)@ == old(buf)@ + spec_encode_block_meta(self@),
    {
        put_u32_le(buf, self.offset);
        put_u32_le(buf, self.len);
        put_u32_le(buf, self.uncompressed_size);
        put_length_prefixed_slice(buf, self.smallest_key.as_slice());
        assert(buf@ =~= old(buf)@ + spec_encode_block_meta(self@));
    }

    /// Reads metadata from the front of `buf` and advances past it. Where
    /// `buf` ends too early nothing is read and `buf` is left as it was.
    #[verifier::rlimit(50)]
    pub fn try_decode(buf: &mut &[u8]) -> (r: Option<BlockMeta>)
        ensures
            match spec_decode_block_meta(old(buf)@) {
                Some((m, rest)) => r matches Some(x) && x@ == m && final(buf)@ == rest,
                None => r is None && final(buf)@ == old(buf)@,
            },
    {
        let mut cur: &[u8] = *buf;
        let offset = match try_get_u32_le(&mut cur) {
            Some(x) => x,
            None => { return None; },
        };
        let len = match try_get_u32_le(&mut cur) {
            Some(x) => x,
            None => { return None; },
        };
        let uncompressed_size = match try_get_u32_le(&mut cur) {
            Some(x) => x,
            None => { return None; },
        };
        let smallest_key = match try_get_length_prefixed_slice(&mut cur) {
            Some(x) => x,
            None => { return None; },
        };
        *buf = cur;
        Some(BlockMeta { smallest_key, offset, len, uncompressed_size })
    }

    /// Reads metadata from the front of `buf` and advances past it.
    pub fn decode(buf: &mut &[u8]) -> (r: Self)
        requires
            spec_decode_block_meta(old(buf)@) is Some,
        ensures
            (r@, final(buf)@) == spec_decode_block_meta(old(buf)@).unwrap(),
    {
        Self::try_decode(buf).unwrap()
    }

    /// Number of bytes that `encode` appends.
    pub fn encoded_size(&self) -> (r: usize)
        requires
            spec_block_meta_encoded_size(self@) <= usize::MAX,
        ensures
            r == spec_block_meta_encoded_size(self@),
    {
        16 + self.smallest_key.len()
    }

    /// The table that the block's smallest key belongs to: the table id at
    /// the front of the encoded full key.
    pub fn table_id(&self) -> (r: TableId)
        requires
            self@.smallest_key.len() >= TABLE_PREFIX_LEN + EPOCH_LEN,
        ensures
            r.table_id == spec_decode_full_key(self@.smallest_key).user_key.table_id,
    {
        FullKey::decode(self.smallest_key.as_slice()).user_key.table_id
    }
}

} // verus!
