//! Keys of the store: a table id, the key inside the table, and the epoch
//! of a version.
//!
//! An encoded user key is the table id (four bytes, highest first) followed
//! by the table key. An encoded full key is an encoded user key followed by
//! the epoch (eight bytes, highest first). Keys order by table id, then by
//! the bytes of the table key.

use vstd::prelude::*;

verus! {

/// The epoch (version number) of a write.
pub type HummockEpoch = u64;

/// The epoch that stands for "no range delete holds".
pub const MAX_EPOCH: HummockEpoch = 0xffff_ffff_ffff_ffff;

/// Number of bytes the table id takes at the front of an encoded user key.
pub const TABLE_PREFIX_LEN: usize = 4;

/// Number of bytes the epoch takes at the end of an encoded full key.
pub const EPOCH_LEN: usize = 8;

/// Result of comparing two keys.
#[derive(Clone, Copy, Debug, PartialEq, Eq, Structural)]
pub enum KeyOrder {
    Less,
    Equal,
    Greater,
}

/// Identifies one table of the store.
#[derive(Clone, Copy, Debug, PartialEq, Eq, Structural, Hash)]
pub struct TableId {
    pub table_id: u32,
}

impl TableId {
    pub fn new(table_id: u32) -> (r: Self)
        ensures
            r.table_id == table_id,
    {
        TableId { table_id }
    }

    pub fn table_id(&self) -> (r: u32)
        ensures
            r == self.table_id,
    {
        self.table_id
    }
}

/// The key of a row inside its table.
#[derive(Clone, Debug, PartialEq, Eq)]
pub struct TableKey(pub Vec<u8>);

/// A table key together with the table it belongs to.
#[derive(Clone, Debug, PartialEq, Eq)]
pub struct UserKey {
    pub table_id: TableId,
    pub table_key: TableKey,
}

/// What a `UserKey` holds, as plain values.
pub struct UserKeyView {
    pub table_id: u32,
    pub table_key: Seq<u8>,
}

/// A boundary between keys: just before `left_user_key`, or just after it
/// when `is_exclude_left_key` is set.
#[derive(Clone, Debug, PartialEq, Eq)]
pub struct PointRange {
    pub left_user_key: UserKey,
    pub is_exclude_left_key: bool,
}

/// What a `PointRange` holds, as plain values.
pub struct PointRangeView {
    pub left_user_key: UserKeyView,
    pub is_exclude_left_key: bool,
}

/// A user key with the epoch of one of its versions.
#[derive(Clone, Debug, PartialEq, Eq)]
pub struct FullKey {
    pub user_key: UserKey,
    pub epoch: HummockEpoch,
}

/// What a `FullKey` holds, as plain values.
pub struct FullKeyView {
    pub user_key: UserKeyView,
    pub epoch: u64,
}

impl View for UserKey {
    type V = UserKeyView;

    open spec fn view(&self) -> UserKeyView {
        UserKeyView { table_id: self.table_id.table_id, table_key: self.table_key.0@ }
    }
}

impl View for PointRange {
    type V = PointRangeView;

    open spec fn view(&self) -> PointRangeView {
        PointRangeView {
            left_user_key: self.left_user_key@,
            is_exclude_left_key: self.is_exclude_left_key,
        }
    }
}

impl View for FullKey {
    type V = FullKeyView;

    open spec fn view(&self) -> FullKeyView {
        FullKeyView { user_key: self.user_key@, epoch: self.epoch }
    }
}

/// Lexicographic order of two byte strings.
pub open spec fn spec_compare_bytes(a: Seq<u8>, b: Seq<u8>) -> KeyOrder
    decreases a.len(),
{
    if a.len() == 0 && b.len() == 0 {
        KeyOrder::Equal
    } else if a.len() == 0 {
        KeyOrder::Less
    } else if b.len() == 0 {
        KeyOrder::Greater
    } else if a[0] < b[0] {
        KeyOrder::Less
    } else if a[0] > b[0] {
        KeyOrder::Greater
    } else {
        spec_compare_bytes(a.skip(1), b.skip(1))
    }
}

/// Order of two user keys: by table id, then by table key.
pub open spec fn spec_compare_user_key(a: UserKeyView, b: UserKeyView) -> KeyOrder {
    if a.table_id < b.table_id {
        KeyOrder::Less
    } else if a.table_id > b.table_id {
        KeyOrder::Greater
    } else {
        spec_compare_bytes(a.table_key, b.table_key)
    }
}

/// Order of two boundaries: by user key; at the same key the boundary before
/// the key comes first.
pub open spec fn spec_compare_point(a: PointRangeView, b: PointRangeView) -> KeyOrder {
    match spec_compare_user_key(a.left_user_key, b.left_user_key) {
        KeyOrder::Less => KeyOrder::Less,
        KeyOrder::Greater => KeyOrder::Greater,
        KeyOrder::Equal => if a.is_exclude_left_key == b.is_exclude_left_key {
            KeyOrder::Equal
        } else if b.is_exclude_left_key {
            KeyOrder::Less
        } else {
            KeyOrder::Greater
        },
    }
}

/// The opposite order.
pub open spec fn spec_reverse(o: KeyOrder) -> KeyOrder {
    match o {
        KeyOrder::Less => KeyOrder::Greater,
        KeyOrder::Equal => KeyOrder::Equal,
        KeyOrder::Greater => KeyOrder::Less,
    }
}

/// Comparing byte strings gives `Equal` exactly for equal strings.
pub proof fn lemma_compare_bytes_equal(a: Seq<u8>, b: Seq<u8>)
    ensures
        spec_compare_bytes(a, b) == KeyOrder::Equal <==> a == b,
    decreases a.len(),
{
    if a.len() == 0 || b.len() == 0 {
        if a.len() == 0 && b.len() == 0 {
            assert(a =~= b);
        }
    } else if a[0] == b[0] {
        lemma_compare_bytes_equal(a.skip(1), b.skip(1));
        if a.skip(1) == b.skip(1) {
            assert(a =~= seq![a[0]] + a.skip(1));
            assert(b =~= seq![b[0]] + b.skip(1));
        }
    }
}

/// Swapping the arguments reverses the order of two byte strings.
pub proof fn lemma_compare_bytes_antisymmetric(a: Seq<u8>, b: Seq<u8>)
    ensures
        spec_compare_bytes(b, a) == spec_reverse(spec_compare_bytes(a, b)),
    decreases a.len(),
{
    if a.len() != 0 && b.len() != 0 && a[0] == b[0] {
        lemma_compare_bytes_antisymmetric(a.skip(1), b.skip(1));
    }
}

/// The order of byte strings is transitive.
pub proof fn lemma_compare_bytes_transitive(a: Seq<u8>, b: Seq<u8>, c: Seq<u8>)
    requires
        spec_compare_bytes(a, b) != KeyOrder::Greater,
        spec_compare_bytes(b, c) != KeyOrder::Greater,
    ensures
        spec_compare_bytes(a, c) != KeyOrder::Greater,
        spec_compare_bytes(a, c) == KeyOrder::Equal ==> spec_compare_bytes(a, b) == KeyOrder::Equal
            && spec_compare_bytes(b, c) == KeyOrder::Equal,
    decreases a.len(),
{
    if a.len() != 0 && b.len() != 0 && c.len() != 0 && a[0] == b[0] && b[0] == c[0] {
        lemma_compare_bytes_transitive(a.skip(1), b.skip(1), c.skip(1));
    }
}

/// Comparing user keys gives `Equal` exactly for equal keys.
pub proof fn lemma_compare_user_key_equal(a: UserKeyView, b: UserKeyView)
    ensures
        spec_compare_user_key(a, b) == KeyOrder::Equal <==> a == b,
{
    lemma_compare_bytes_equal(a.table_key, b.table_key);
}

/// Comparing boundaries gives `Equal` exactly for equal boundaries.
pub proof fn lemma_compare_point_equal(a: PointRangeView, b: PointRangeView)
    ensures
        spec_compare_point(a, b) == KeyOrder::Equal <==> a == b,
{
    lemma_compare_user_key_equal(a.left_user_key, b.left_user_key);
}

/// Swapping the arguments reverses the order of two boundaries.
pub proof fn lemma_compare_point_antisymmetric(a: PointRangeView, b: PointRangeView)
    ensures
        spec_compare_point(b, a) == spec_reverse(spec_compare_point(a, b)),
{
    lemma_compare_bytes_antisymmetric(a.left_user_key.table_key, b.left_user_key.table_key);
}

/// The order of boundaries is transitive, and strict as soon as one step is.
pub proof fn lemma_compare_point_transitive(a: PointRangeView, b: PointRangeView, c: PointRangeView)
    requires
        spec_compare_point(a, b) != KeyOrder::Greater,
        spec_compare_point(b, c) != KeyOrder::Greater,
    ensures
        spec_compare_point(a, c) != KeyOrder::Greater,
        spec_compare_point(a, c) == KeyOrder::Equal ==> spec_compare_point(a, b) == KeyOrder::Equal
            && spec_compare_point(b, c) == KeyOrder::Equal,
{
    let (ka, kb, kc) = (a.left_user_key, b.left_user_key, c.left_user_key);
    if ka.table_id == kb.table_id && kb.table_id == kc.table_id {
        lemma_compare_bytes_transitive(ka.table_key, kb.table_key, kc.table_key);
    }
}

/// Compares two byte strings lexicographically.
pub fn compare_bytes(a: &[u8], b: &[u8]) -> (r: KeyOrder)
    ensures
        r == spec_compare_bytes(a@, b@),
{
    let mut i: usize = 0;
    proof {
        assert(a@.skip(0) =~= a@);
        assert(b@.skip(0) =~= b@);
    }
    while i < a.len() && i < b.len()
        invariant
            i <= a@.len(),
            i <= b@.len(),
            spec_compare_bytes(a@, b@) == spec_compare_bytes(a@.skip(i as int), b@.skip(i as int)),
        decreases a@.len() - i,
    {
        proof {
            assert(a@.skip(i as int).skip(1) =~= a@.skip(i + 1));
            assert(b@.skip(i as int).skip(1) =~= b@.skip(i + 1));
        }
        if a[i] < b[i] {
            return KeyOrder::Less;
        }
        if a[i] > b[i] {
            return KeyOrder::Greater;
        }
        i += 1;
    }
    if i < b.len() {
        KeyOrder::Less
    } else if i < a.len() {
        KeyOrder::Greater
    } else {
        KeyOrder::Equal
    }
}

impl TableKey {
    /// Number of bytes of the key.
    pub fn len(&self) -> (r: usize)
        ensures
            r == self.0@.len(),
    {
        self.0.len()
    }
}

impl UserKey {
    pub fn new(table_id: TableId, table_key: TableKey) -> (r: Self)
        ensures
            r.table_id == table_id,
            r.table_key == table_key,
    {
        UserKey { table_id, table_key }
    }

    /// Number of bytes of the encoded key: the table id and the table key.
    pub fn encoded_len(&self) -> (r: usize)
        requires
            self@.table_key.len() + TABLE_PREFIX_LEN <= usize::MAX,
        ensures
            r == self@.table_key.len() + TABLE_PREFIX_LEN,
    {
        self.table_key.0.len() + TABLE_PREFIX_LEN
    }

    /// Compares two user keys: by table id, then by table key.
    pub fn compare(&self, other: &UserKey) -> (r: KeyOrder)
        ensures
            r == spec_compare_user_key(self@, other@),
    {
        if self.table_id.table_id < other.table_id.table_id {
            KeyOrder::Less
        } else if self.table_id.table_id > other.table_id.table_id {
            KeyOrder::Greater
        } else {
            compare_bytes(self.table_key.0.as_slice(), other.table_key.0.as_slice())
        }
    }

    /// A copy of the key.
    pub fn duplicate(&self) -> (r: Self)
        ensures
            r@ == self@,
    {
        UserKey { table_id: self.table_id, table_key: TableKey(self.table_key.0.clone()) }
    }
}

impl PointRange {
    /// The boundary at `user_key`: before it, or after it when
    /// `is_exclude_left_key` is set.
    pub fn from_user_key(user_key: UserKey, is_exclude_left_key: bool) -> (r: Self)
        ensures
            r.left_user_key == user_key,
            r.is_exclude_left_key == is_exclude_left_key,
    {
        PointRange { left_user_key: user_key, is_exclude_left_key }
    }

    /// Compares two boundaries: by user key; at the same key the boundary
    /// before the key comes first.
    pub fn compare(&self, other: &PointRange) -> (r: KeyOrder)
        ensures
            r == spec_compare_point(self@, other@),
    {
        match self.left_user_key.compare(&other.left_user_key) {
            KeyOrder::Less => KeyOrder::Less,
            KeyOrder::Greater => KeyOrder::Greater,
            KeyOrder::Equal => if self.is_exclude_left_key == other.is_exclude_left_key {
                KeyOrder::Equal
            } else if other.is_exclude_left_key {
                KeyOrder::Less
            } else {
                KeyOrder::Greater
            },
        }
    }

    /// A copy of the boundary.
    pub fn duplicate(&self) -> (r: Self)
        ensures
            r@ == self@,
    {
        PointRange {
            left_user_key: self.left_user_key.duplicate(),
            is_exclude_left_key: self.is_exclude_left_key,
        }
    }
}

/// The integer that four bytes spell, highest byte first.
pub open spec fn spec_u32_from_be_bytes(s: Seq<u8>) -> u32
    recommends
        s.len() == 4,
{
    (((s[0] as int) * 0x100_0000 + (s[1] as int) * 0x1_0000 + (s[2] as int) * 0x100 + (
    s[3] as int))) as u32
}

/// The integer that eight bytes spell, highest byte first.
pub open spec fn spec_u64_from_be_bytes(s: Seq<u8>) -> u64
    recommends
        s.len() == 8,
{
    ((spec_u32_from_be_bytes(s.subrange(0, 4)) as int) * 0x1_0000_0000 + (spec_u32_from_be_bytes(
        s.subrange(4, 8),
    ) as int)) as u64
}

/// What decoding an encoded full key gives: the table id from the first four
/// bytes, the epoch from the last eight, the table key from what lies
/// between.
pub open spec fn spec_decode_full_key(s: Seq<u8>) -> FullKeyView
    recommends
        s.len() >= TABLE_PREFIX_LEN + EPOCH_LEN,
{
    FullKeyView {
        user_key: UserKeyView {
            table_id: spec_u32_from_be_bytes(s.subrange(0, 4)),
            table_key: s.subrange(4, s.len() - 8),
        },
        epoch: spec_u64_from_be_bytes(s.subrange(s.len() - 8, s.len() as int)),
    }
}

fn read_u32_be(s: &[u8], at: usize) -> (r: u32)
    requires
        at + 4 <= s@.len(),
    ensures
        r == spec_u32_from_be_bytes(s@.subrange(at as int, at + 4)),
{
    let b0: u32 = s[at] as u32;
    let b1: u32 = s[at + 1] as u32;
    let b2: u32 = s[at + 2] as u32;
    let b3: u32 = s[at + 3] as u32;
    b0 * 0x100_0000 + b1 * 0x1_0000 + b2 * 0x100 + b3
}

impl FullKey {
    /// Decodes an encoded full key.
    pub fn decode(slice: &[u8]) -> (r: Self)
        requires
            slice@.len() >= TABLE_PREFIX_LEN + EPOCH_LEN,
        ensures
            r@ == spec_decode_full_key(slice@),
    {
        let n = slice.len();
        let epoch_pos = n - EPOCH_LEN;
        let hi = read_u32_be(slice, epoch_pos);
        let lo = read_u32_be(slice, epoch_pos + 4);
        let table_id = read_u32_be(slice, 0);
        proof {
            let tail = slice@.subrange(n - 8, n as int);
            assert(tail.subrange(0, 4) =~= slice@.subrange(epoch_pos as int, epoch_pos + 4));
            assert(tail.subrange(4, 8) =~= slice@.subrange(epoch_pos + 4, epoch_pos + 8));
        }
        let table_key = vstd::slice::slice_to_vec(
            vstd::slice::slice_subrange(slice, TABLE_PREFIX_LEN, epoch_pos),
        );
        FullKey {
            user_key: UserKey { table_id: TableId { table_id }, table_key: TableKey(table_key) },
            epoch: (hi as u64) * 0x1_0000_0000 + (lo as u64),
        }
    }
}

/// The four bytes of a number, highest first.
pub open spec fn spec_u32_to_be_bytes(x: u32) -> Seq<u8> {
    seq![
        (x / 0x100_0000) as u8,
        ((x / 0x1_0000) % 0x100) as u8,
        ((x / 0x100) % 0x100) as u8,
        (x % 0x100) as u8,
    ]
}

/// The eight bytes of a number, highest first.
pub open spec fn spec_u64_to_be_bytes(x: u64) -> Seq<u8> {
    spec_u32_to_be_bytes((x / 0x1_0000_0000) as u32) + spec_u32_to_be_bytes(
        (x % 0x1_0000_0000) as u32,
    )
}

/// The bytes of an encoded full key: the table id, the table key, the
/// epoch.
pub open spec fn spec_encode_full_key(k: FullKeyView) -> Seq<u8> {
    spec_u32_to_be_bytes(k.user_key.table_id) + k.user_key.table_key + spec_u64_to_be_bytes(
        k.epoch,
    )
}

/// Four bytes spell the number that they were made from.
pub proof fn lemma_u32_be_round_trip(x: u32)
    ensures
        spec_u32_to_be_bytes(x).len() == 4,
        spec_u32_from_be_bytes(spec_u32_to_be_bytes(x)) == x,
{
}

/// Eight bytes spell the number that they were made from.
pub proof fn lemma_u64_be_round_trip(x: u64)
    ensures
        spec_u64_to_be_bytes(x).len() == 8,
        spec_u64_from_be_bytes(spec_u64_to_be_bytes(x)) == x,
{
    let hi = (x / 0x1_0000_0000) as u32;
    let lo = (x % 0x1_0000_0000) as u32;
    let s = spec_u64_to_be_bytes(x);
    lemma_u32_be_round_trip(hi);
    lemma_u32_be_round_trip(lo);
    assert(s.subrange(0, 4) =~= spec_u32_to_be_bytes(hi));
    assert(s.subrange(4, 8) =~= spec_u32_to_be_bytes(lo));
}

/// Decoding an encoded full key gives the key back.
pub proof fn lemma_full_key_round_trip(k: FullKeyView)
    ensures
        spec_encode_full_key(k).len() == k.user_key.table_key.len() + TABLE_PREFIX_LEN + EPOCH_LEN,
        spec_decode_full_key(spec_encode_full_key(k)) == k,
{
    let s = spec_encode_full_key(k);
    lemma_u32_be_round_trip(k.user_key.table_id);
    lemma_u64_be_round_trip(k.epoch);
    assert(s.subrange(0, 4) =~= spec_u32_to_be_bytes(k.user_key.table_id));
    assert(s.subrange(4, s.len() - 8) =~= k.user_key.table_key);
    assert(s.subrange(s.len() - 8, s.len() as int) =~= spec_u64_to_be_bytes(k.epoch));
}

fn push_u32_be(buf: &mut Vec<u8>, x: u32)
    ensures
        final(buf)@ == old(buf)@ + spec_u32_to_be_bytes(x),
{
    buf.push((x / 0x100_0000) as u8);
    buf.push(((x / 0x1_0000) % 0x100) as u8);
    buf.push(((x / 0x100) % 0x100) as u8);
    buf.push((x % 0x100) as u8);
    assert(buf@ =~= old(buf)@ + spec_u32_to_be_bytes(x));
}

impl FullKey {
    /// The encoded key.
    pub fn encode(&self) -> (r: Vec<u8>)
        ensures
            r@ == spec_encode_full_key(self@),
    {
        let mut buf: Vec<u8> = Vec::new();
        push_u32_be(&mut buf, self.user_key.table_id.table_id);
        let mut i: usize = 0;
        let ghost head = buf@;
        while i < self.user_key.table_key.0.len()
            invariant
                i <= self.user_key.table_key.0@.len(),
                buf@ == head + self.user_key.table_key.0@.subrange(0, i as int),
            decreases self.user_key.table_key.0@.len() - i,
        {
            buf.push(self.user_key.table_key.0[i]);
            assert(buf@ =~= head + self.user_key.table_key.0@.subrange(0, i + 1));
            i += 1;
        }
        assert(self.user_key.table_key.0@.subrange(0, i as int) =~= self.user_key.table_key.0@);
        push_u32_be(&mut buf, (self.epoch / 0x1_0000_0000) as u32);
        push_u32_be(&mut buf, (self.epoch % 0x1_0000_0000) as u32);
        assert(buf@ =~= spec_encode_full_key(self@));
        buf
    }
}

} // verus!
