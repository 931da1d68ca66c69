//! Helpers for reading rows of a table: how a table is partitioned, and the
//! rows that a scan yields.

use crate::data_chunk::Datum;
use crate::key::TableKey;
use vstd::prelude::*;

verus! {

/// One of the partitions that the rows of a table are spread over.
pub type VirtualNode = u16;

/// Number of partitions.
pub const VIRTUAL_NODE_COUNT: usize = 256;

/// Number of bytes that the partition takes at the front of a table key.
pub const VIRTUAL_NODE_SIZE: usize = 2;

/// For tables without distribution (singleton), the `DEFAULT_VNODE` is encoded.
pub const DEFAULT_VNODE: VirtualNode = 0;

/// Represents the distribution for a specific table instance.
#[derive(Debug)]
pub struct Distribution {
    /// Indices of distribution key for computing vnode, based on the all columns of the table.
    pub dist_key_in_pk_indices: Vec<usize>,
    /// Virtual nodes that the table is partitioned into.
    pub vnodes: Vec<bool>,
}

/// The partitions of a singleton: the default one alone.
pub open spec fn spec_fallback_vnodes() -> Seq<bool> {
    Seq::new(VIRTUAL_NODE_COUNT as nat, |i: int| i == DEFAULT_VNODE as int)
}

/// All partitions.
pub open spec fn spec_all_vnodes() -> Seq<bool> {
    Seq::new(VIRTUAL_NODE_COUNT as nat, |i: int| true)
}

impl Distribution {
    /// Fallback distribution for singleton or tests.
    pub fn fallback() -> (r: Self)
        ensures
            r.dist_key_in_pk_indices@.len() == 0,
            r.vnodes@ == spec_fallback_vnodes(),
    {
        Distribution { dist_key_in_pk_indices: Vec::new(), vnodes: Self::fallback_vnodes() }
    }

    /// A bitmap that only the default vnode is set.
    pub fn fallback_vnodes() -> (r: Vec<bool>)
        ensures
            r@ == spec_fallback_vnodes(),
    {
        let mut vnodes: Vec<bool> = Vec::new();
        let mut i: usize = 0;
        while i < VIRTUAL_NODE_COUNT
            invariant
                i <= VIRTUAL_NODE_COUNT,
                vnodes@ == spec_fallback_vnodes().subrange(0, i as int),
            decreases VIRTUAL_NODE_COUNT - i,
        {
            vnodes.push(i == 0);
            assert(vnodes@ =~= spec_fallback_vnodes().subrange(0, i + 1));
            i += 1;
        }
        assert(spec_fallback_vnodes().subrange(0, i as int) =~= spec_fallback_vnodes());
        vnodes
    }

    /// Distribution that accesses all vnodes, mainly used for tests.
    pub fn all_vnodes(dist_key_in_pk_indices: Vec<usize>) -> (r: Self)
        ensures
            r.dist_key_in_pk_indices == dist_key_in_pk_indices,
            r.vnodes@ == spec_all_vnodes(),
    {
        let mut vnodes: Vec<bool> = Vec::new();
        let mut i: usize = 0;
        while i < VIRTUAL_NODE_COUNT
            invariant
                i <= VIRTUAL_NODE_COUNT,
                vnodes@ == spec_all_vnodes().subrange(0, i as int),
            decreases VIRTUAL_NODE_COUNT - i,
        {
            vnodes.push(true);
            assert(vnodes@ =~= spec_all_vnodes().subrange(0, i + 1));
            i += 1;
        }
        assert(spec_all_vnodes().subrange(0, i as int) =~= spec_all_vnodes());
        Distribution { dist_key_in_pk_indices, vnodes }
    }

    /// Whether the table reads and writes the partition.
    pub fn is_vnode_set(&self, vnode: VirtualNode) -> (r: bool)
        ensures
            r == (vnode < self.vnodes@.len() && self.vnodes@[vnode as int]),
    {
        (vnode as usize) < self.vnodes.len() && self.vnodes[vnode as usize]
    }
}

/// A row with the table key that it was found under. The key begins with the
/// partition of the row.
pub struct KeyedRow {
    vnode_prefixed_key: TableKey,
    row: Vec<Datum>,
}

/// The partition that a table key begins with: its first two bytes, the
/// higher one first.
pub open spec fn spec_vnode_part(key: Seq<u8>) -> u16
    recommends
        key.len() >= VIRTUAL_NODE_SIZE,
{
    (key[0] * 0x100 + key[1]) as u16
}

impl KeyedRow {
    /// The table key of the row.
    pub closed spec fn spec_table_key(&self) -> Seq<u8> {
        self.vnode_prefixed_key.0@
    }

    /// The values of the row.
    pub closed spec fn spec_row(&self) -> Seq<Datum> {
        self.row@
    }

    pub fn new(table_key: TableKey, row: Vec<Datum>) -> (r: Self)
        ensures
            r.spec_table_key() == table_key.0@,
            r.spec_row() == row@,
    {
        KeyedRow { vnode_prefixed_key: table_key, row }
    }

    pub fn into_owned_row(self) -> (r: Vec<Datum>)
        ensures
            r@ == self.spec_row(),
    {
        self.row
    }

    /// The partition of the row.
    pub fn vnode(&self) -> (r: VirtualNode)
        requires
            self.spec_table_key().len() >= VIRTUAL_NODE_SIZE,
        ensures
            r == spec_vnode_part(self.spec_table_key()),
    {
        let hi: u16 = self.vnode_prefixed_key.0[0] as u16;
        let lo: u16 = self.vnode_prefixed_key.0[1] as u16;
        hi * 0x100 + lo
    }

    /// The table key without the partition.
    pub fn key(&self) -> (r: &[u8])
        requires
            self.spec_table_key().len() >= VIRTUAL_NODE_SIZE,
        ensures
            r@ == self.spec_table_key().skip(VIRTUAL_NODE_SIZE as int),
    {
        let n = self.vnode_prefixed_key.0.len();
        let r = vstd::slice::slice_subrange(
            self.vnode_prefixed_key.0.as_slice(),
            VIRTUAL_NODE_SIZE,
            n,
        );
        assert(r@ =~= self.spec_table_key().skip(VIRTUAL_NODE_SIZE as int));
        r
    }
}

/// The second half of a pair that was read, or the error of reading it.
pub fn get_second<T, U, E>(arg: Result<(T, U), E>) -> (r: Result<U, E>)
    ensures
        match arg {
            Ok(x) => r == Ok::<U, E>(x.1),
            Err(e) => r == Err::<U, E>(e),
        },
{
    match arg {
        Ok(x) => Ok(x.1),
        Err(e) => Err(e),
    }
}

} // verus!
