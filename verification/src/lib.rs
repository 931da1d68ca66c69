//! Storage core of an LSM-tree state store, with some of what works on top
//! of it.
//!
//! The core: keys and their order (`key`), the binary form of a table
//! file's metadata (`coding`, `checksum`, `block_meta`, `tombstone`,
//! `sstable_meta`, `sstable`), range deletes and the events that record them
//! (`active_epochs`, `delete_range`, `sweep`), compaction (`compaction`,
//! `merge`, `compactor_runner`), and the resources that compaction shares
//! (`memory_limiter`, `object_id`, `context`), and the cache that is evicted
//! by epoch (`lru_store`, `managed_lru`).
//!
//! On top: chunks of rows on the streaming path (`data_chunk`,
//! `stream_chunk`, `log_store_buffer`, `table`), conditions over rows and
//! their rewriting (`expr`, `expr_utils`, `factorization`,
//! `factorization_laws`, `input_refs`), what an expression says of
//! watermarks and of the time (`watermark`, `count_now`), and names of
//! things (`task`, `kafka_split`, `session`, `plan_node`, `text`).

pub mod active_epochs;
pub mod block_meta;
pub mod checksum;
pub mod coding;
pub mod compaction;
pub mod compactor_runner;
pub mod context;
pub mod count_now;
pub mod data_chunk;
pub mod delete_range;
pub mod error;
pub mod expr;
pub mod expr_utils;
pub mod factorization;
pub mod factorization_laws;
pub mod input_refs;
pub mod kafka_split;
pub mod key;
pub mod log_store_buffer;
pub mod lru_store;
pub mod managed_lru;
pub mod memory_limiter;
pub mod merge;
pub mod object_id;
pub mod plan_node;
pub mod session;
pub mod sstable;
pub mod sstable_meta;
pub mod stream_chunk;
pub mod sweep;
pub mod table;
pub mod task;
pub mod text;
pub mod tombstone;
pub mod watermark;
