//! A table file at hand: its id, its metadata and its filter.

use crate::checksum::{
    hash_for_bloom_filter, hash_for_bloom_filter_u32, spec_hash_for_bloom_filter,
    spec_hash_for_bloom_filter_u32,
};
use crate::delete_range::{
    get_min_delete_range_epoch, spec_epoch_at, spec_event_keys, spec_keys_strictly_increasing,
    spec_point_of,
};
use crate::key::{HummockEpoch, UserKey};
use crate::object_id::HummockSstableObjectId;
use crate::sstable_meta::{spec_encoded_size, SstableMeta, SstableMetaView};
use vstd::prelude::*;

verus! {

/// Where a block lies in its file.
#[derive(Clone, Copy, Debug, PartialEq, Eq, Structural)]
pub struct BlockLocation {
    pub offset: usize,
    pub size: usize,
}

/// The keys of a table file, from `left` to `right`.
#[derive(Clone, Debug, PartialEq, Eq)]
pub struct KeyRange {
    pub left: Vec<u8>,
    pub right: Vec<u8>,
    pub right_exclusive: bool,
}

/// What the metadata service keeps of a table file.
#[derive(Clone, Debug, PartialEq, Eq)]
pub struct SstableInfo {
    pub object_id: u64,
    pub sst_id: u64,
    pub key_range: Option<KeyRange>,
    pub file_size: u64,
    pub meta_offset: u64,
    pub total_key_count: u64,
    pub uncompressed_file_size: u64,
}

/// A handle on a table file.
#[derive(Clone, Debug)]
pub struct Sstable {
    pub id: HummockSstableObjectId,
    pub meta: SstableMeta,
    /// The bytes of the filter, taken out of the metadata.
    pub filter_data: Vec<u8>,
}

impl Sstable {
    /// The handle on the file `id` with metadata `meta`. The filter moves
    /// from the metadata into the handle.
    pub fn new(id: HummockSstableObjectId, meta: SstableMeta) -> (r: Self)
        ensures
            r.id == id,
            r.filter_data@ == meta@.bloom_filter,
            r.meta@ == (SstableMetaView { bloom_filter: Seq::empty(), ..meta@ }),
    {
        let mut meta = meta;
        let mut filter_data: Vec<u8> = Vec::new();
        std::mem::swap(&mut filter_data, &mut meta.bloom_filter);
        Sstable { id, meta, filter_data }
    }

    /// Whether the file has a filter.
    pub fn has_bloom_filter(&self) -> (r: bool)
        ensures
            r == (self.filter_data@.len() > 0),
    {
        self.filter_data.len() != 0
    }

    /// Where block `block_index` lies, and how many bytes it takes once it
    /// is decompressed.
    pub fn calculate_block_info(&self, block_index: usize) -> (r: (BlockLocation, usize))
        requires
            block_index < self.meta.block_metas@.len(),
        ensures
            r.0.offset == self.meta.block_metas@[block_index as int].offset,
            r.0.size == self.meta.block_metas@[block_index as int].len,
            r.1 == self.meta.block_metas@[block_index as int].uncompressed_size,
    {
        let block_meta = &self.meta.block_metas[block_index];
        let block_loc = BlockLocation {
            offset: block_meta.offset as usize,
            size: block_meta.len as usize,
        };
        let uncompressed_capacity = block_meta.uncompressed_size as usize;
        (block_loc, uncompressed_capacity)
    }

    /// Hashes a distribution key together with its table id, so that equal
    /// keys of different tables differ.
    pub fn hash_for_bloom_filter_u32(dist_key: &[u8], table_id: u32) -> (r: u32)
        ensures
            r == spec_hash_for_bloom_filter_u32(dist_key@, table_id),
    {
        hash_for_bloom_filter_u32(dist_key, table_id)
    }

    /// Hashes a distribution key together with its table id, so that equal
    /// keys of different tables differ.
    pub fn hash_for_bloom_filter(dist_key: &[u8], table_id: u32) -> (r: u64)
        ensures
            r == spec_hash_for_bloom_filter(dist_key@, table_id),
    {
        hash_for_bloom_filter(dist_key, table_id)
    }

    /// Number of blocks.
    pub fn block_count(&self) -> (r: usize)
        ensures
            r == self.meta.block_metas@.len(),
    {
        self.meta.block_metas.len()
    }

    /// The bytes that the handle takes in a cache: its id, its filter and
    /// its encoded metadata.
    pub fn estimate_size(&self) -> (r: usize)
        requires
            8 + self.filter_data@.len() + spec_encoded_size(self.meta@) <= usize::MAX,
        ensures
            r == 8 + self.filter_data@.len() + spec_encoded_size(self.meta@),
    {
        8 + self.filter_data.len() + self.meta.encoded_size()
    }

    /// What the metadata service keeps of the file.
    pub fn get_sstable_info(&self) -> (r: SstableInfo)
        ensures
            r.object_id == self.id,
            r.sst_id == self.id,
            r.key_range matches Some(range) && range.left@ == self.meta.smallest_key@
                && range.right@ == self.meta.largest_key@ && !range.right_exclusive,
            r.file_size == self.meta.estimated_size,
            r.meta_offset == self.meta.meta_offset,
            r.total_key_count == self.meta.key_count,
            r.uncompressed_file_size == self.meta.estimated_size,
    {
        SstableInfo {
            object_id: self.id,
            sst_id: self.id,
            key_range: Some(
                KeyRange {
                    left: self.meta.smallest_key.clone(),
                    right: self.meta.largest_key.clone(),
                    right_exclusive: false,
                },
            ),
            file_size: self.meta.estimated_size as u64,
            meta_offset: self.meta.meta_offset,
            total_key_count: self.meta.key_count as u64,
            uncompressed_file_size: self.meta.estimated_size as u64,
        }
    }
}

/// The epoch of the range delete that the file records at `query_user_key`,
/// or `MAX_EPOCH` where it records none. The events of the file must ascend
/// by key.
pub fn get_min_delete_range_epoch_from_sstable(table: &Sstable, query_user_key: &UserKey) -> (r:
    HummockEpoch)
    requires
        spec_keys_strictly_increasing(spec_event_keys(table.meta@.monotonic_tombstone_events)),
    ensures
        r == spec_epoch_at(table.meta@.monotonic_tombstone_events, spec_point_of(query_user_key@)),
{
    get_min_delete_range_epoch(&table.meta.monotonic_tombstone_events, query_user_key)
}

/// How much a block is worth keeping in the cache.
#[derive(Clone, Copy, Debug, PartialEq, Eq, Structural)]
pub enum CachePriority {
    High,
    Low,
}

/// Whether blocks that are read are put into the cache.
#[derive(Clone, Copy, Debug, PartialEq, Eq, Structural)]
pub enum CachePolicy {
    /// Neither read from the cache nor fill it.
    Disable,
    /// Fill the cache with the blocks that are read.
    Fill(CachePriority),
    /// Read from the cache, but do not fill it.
    NotFill,
}

/// How a read of the store is to be done.
#[derive(Clone, Copy, Debug, PartialEq, Eq, Structural)]
pub struct ReadOptions {
    pub table_id: u32,
    pub cache_policy: CachePolicy,
}

/// A bound on the user keys that an iterator must be able to reach.
#[derive(Clone, Debug, PartialEq, Eq)]
pub enum UserKeyBound {
    Included(UserKey),
    Excluded(UserKey),
    Unbounded,
}

/// How an iterator over a table file reads.
pub struct SstableIteratorReadOptions {
    pub cache_policy: CachePolicy,
    pub must_iterated_end_user_key: Option<UserKeyBound>,
}

impl SstableIteratorReadOptions {
    /// The options of an iterator for a read with `read_options`.
    pub fn from_read_options(read_options: &ReadOptions) -> (r: Self)
        ensures
            r.cache_policy == read_options.cache_policy,
            r.must_iterated_end_user_key is None,
    {
        SstableIteratorReadOptions {
            cache_policy: read_options.cache_policy,
            must_iterated_end_user_key: None,
        }
    }
}

} // verus!
