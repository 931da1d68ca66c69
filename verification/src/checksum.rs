//! Checksums and hashes of byte strings.

use crate::error::HummockError;
use vstd::prelude::*;

verus! {

/// The 64-bit xxHash of `data` under `seed`.
pub uninterp spec fn spec_xxh64(data: Seq<u8>, seed: u64) -> u64;

/// The 32-bit xxHash of `data` under `seed`.
pub uninterp spec fn spec_xxh32(data: Seq<u8>, seed: u32) -> u32;

/// `xxhash_rust::xxh64::xxh64`: the hash depends on the bytes and the seed
/// alone.
#[verifier::external_body]
fn xxh64(data: &[u8], seed: u64) -> (h: u64)
    ensures
        h == spec_xxh64(data@, seed),
{
    xxhash_rust::xxh64::xxh64(data, seed)
}

/// `xxhash_rust::xxh32::xxh32`: the hash depends on the bytes and the seed
/// alone.
#[verifier::external_body]
fn xxh32(data: &[u8], seed: u32) -> (h: u32)
    ensures
        h == spec_xxh32(data@, seed),
{
    xxhash_rust::xxh32::xxh32(data, seed)
}

/// The checksum that a table file stores for `data`.
pub open spec fn spec_checksum(data: Seq<u8>) -> u64 {
    spec_xxh64(data, 0)
}

/// Computes the checksum of `data`.
pub fn xxhash64_checksum(data: &[u8]) -> (h: u64)
    ensures
        h == spec_checksum(data@),
{
    xxh64(data, 0)
}

/// What verifying `data` against a stored checksum gives.
pub open spec fn spec_verify(data: Seq<u8>, checksum: u64) -> Result<(), HummockError> {
    if spec_checksum(data) == checksum {
        Ok(())
    } else {
        Err(HummockError::ChecksumMismatch { expected: checksum, found: spec_checksum(data) })
    }
}

/// Checks `data` against the checksum stored for it.
pub fn xxhash64_verify(data: &[u8], checksum: u64) -> (r: Result<(), HummockError>)
    ensures
        r == spec_verify(data@, checksum),
{
    let data_checksum = xxhash64_checksum(data);
    if data_checksum == checksum {
        Ok(())
    } else {
        Err(HummockError::checksum_mismatch(checksum, data_checksum))
    }
}

/// The 32-bit hash of a distribution key inside a table, as the filter of a
/// table file stores it.
pub open spec fn spec_hash_for_bloom_filter_u32(dist_key: Seq<u8>, table_id: u32) -> u32 {
    table_id ^ spec_xxh32(dist_key, 0)
}

/// The 64-bit hash of a distribution key inside a table, as the filter of a
/// table file stores it.
pub open spec fn spec_hash_for_bloom_filter(dist_key: Seq<u8>, table_id: u32) -> u64 {
    (table_id as u64) ^ spec_xxh64(dist_key, 0)
}

/// Hashes a distribution key together with its table id, so that equal keys
/// of different tables differ.
pub fn hash_for_bloom_filter_u32(dist_key: &[u8], table_id: u32) -> (h: u32)
    ensures
        h == spec_hash_for_bloom_filter_u32(dist_key@, table_id),
{
    let dist_key_hash = xxh32(dist_key, 0);
    table_id ^ dist_key_hash
}

/// Hashes a distribution key together with its table id, so that equal keys
/// of different tables differ.
pub fn hash_for_bloom_filter(dist_key: &[u8], table_id: u32) -> (h: u64)
    ensures
        h == spec_hash_for_bloom_filter(dist_key@, table_id),
{
    let dist_key_hash = xxh64(dist_key, 0);
    (table_id as u64) ^ dist_key_hash
}

} // verus!
