//! The least-recently-used store that the managed cache keeps its entries
//! in: `lru::LruCache`, keyed by a number, holding for each key the epoch
//! at which the entry was last touched and the entry's bytes.

use vstd::prelude::*;

verus! {

/// `lru::LruCache`, of which nothing but the wrappers below is known.
#[verifier::external_type_specification]
#[verifier::external_body]
#[verifier::reject_recursive_types(K)]
#[verifier::reject_recursive_types(V)]
#[verifier::reject_recursive_types(S)]
pub struct ExLruCache<K, V, S>(lru::LruCache<K, V, S>);

/// `lru::DefaultHasher`, the hasher that an `lru::LruCache` uses unless it
/// is given another.
#[verifier::external_type_specification]
#[verifier::external_body]
pub struct ExDefaultHasher(lru::DefaultHasher);

/// The entries of the store as (key, epoch, bytes), the least recently used
/// first.
pub uninterp spec fn spec_lru_entries(c: lru::LruCache<u64, (u64, Vec<u8>)>) -> Seq<
    (u64, u64, Seq<u8>),
>;

/// The number of entries that the store was made to hold.
pub uninterp spec fn spec_lru_cap(c: lru::LruCache<u64, (u64, Vec<u8>)>) -> nat;

/// The position of `key` among `entries`, or `-1` where it is not there.
pub open spec fn spec_position(entries: Seq<(u64, u64, Seq<u8>)>, key: u64) -> int
    decreases entries.len(),
{
    if entries.len() == 0 {
        -1
    } else if entries.last().0 == key {
        entries.len() - 1
    } else {
        spec_position(entries.drop_last(), key)
    }
}

/// What the position says: it is an index of an entry with that key, or
/// `-1` where no entry has the key.
pub proof fn lemma_position(entries: Seq<(u64, u64, Seq<u8>)>, key: u64)
    ensures
        -1 <= spec_position(entries, key) < entries.len(),
        spec_position(entries, key) >= 0 ==> entries[spec_position(entries, key)].0 == key,
        spec_position(entries, key) == -1 ==> forall|i: int|
            0 <= i < entries.len() ==> (#[trigger] entries[i]).0 != key,
    decreases entries.len(),
{
    if entries.len() > 0 && entries.last().0 != key {
        lemma_position(entries.drop_last(), key);
        assert forall|i: int| 0 <= i < entries.len() && spec_position(entries, key)
            == -1 implies (#[trigger] entries[i]).0 != key by {
            if i < entries.len() - 1 {
                assert(entries.drop_last()[i] == entries[i]);
            }
        }
    }
}

/// `lru::LruCache::unbounded`: a store without entries, made to hold as many
/// as a `usize` counts.
#[verifier::external_body]
pub(crate) fn lru_unbounded() -> (c: lru::LruCache<u64, (u64, Vec<u8>)>)
    ensures
        spec_lru_entries(c) == Seq::<(u64, u64, Seq<u8>)>::empty(),
        spec_lru_cap(c) == usize::MAX,
{
    lru::LruCache::unbounded()
}

/// `lru::LruCache::len`: the number of entries.
#[verifier::external_body]
pub(crate) fn lru_len(c: &lru::LruCache<u64, (u64, Vec<u8>)>) -> (n: usize)
    ensures
        n == spec_lru_entries(*c).len(),
{
    c.len()
}

/// `lru::LruCache::contains`: whether an entry has the key. The order of the
/// entries stays.
#[verifier::external_body]
pub(crate) fn lru_contains(c: &lru::LruCache<u64, (u64, Vec<u8>)>, key: u64) -> (r: bool)
    ensures
        r == (spec_position(spec_lru_entries(*c), key) >= 0),
{
    c.contains(&key)
}

/// `lru::LruCache::peek`: a copy of the epoch and the bytes under the key,
/// or `None` where no entry has the key. The order of the entries stays.
#[verifier::external_body]
pub(crate) fn lru_peek(c: &lru::LruCache<u64, (u64, Vec<u8>)>, key: u64) -> (r: Option<
    (u64, Vec<u8>),
>)
    ensures
        match r {
            Some(v) => {
                let i = spec_position(spec_lru_entries(*c), key);
                i >= 0 && spec_lru_entries(*c)[i] == (key, v.0, v.1@)
            },
            None => spec_position(spec_lru_entries(*c), key) == -1,
        },
{
    c.peek(&key).cloned()
}

/// `lru::LruCache::peek_lru`: the key and the epoch of the least recently
/// used entry, or `None` where the store is empty.
#[verifier::external_body]
pub(crate) fn lru_peek_lru(c: &lru::LruCache<u64, (u64, Vec<u8>)>) -> (r: Option<(u64, u64)>)
    ensures
        match r {
            Some(v) => spec_lru_entries(*c).len() > 0 && spec_lru_entries(*c)[0].0 == v.0
                && spec_lru_entries(*c)[0].1 == v.1,
            None => spec_lru_entries(*c).len() == 0,
        },
{
    c.peek_lru().map(|(k, v)| (*k, v.0))
}

/// `lru::LruCache::pop_lru`: takes out the least recently used entry and
/// returns it, or `None` where the store is empty.
#[verifier::external_body]
pub(crate) fn lru_pop_lru(c: &mut lru::LruCache<u64, (u64, Vec<u8>)>) -> (r: Option<
    (u64, (u64, Vec<u8>)),
>)
    ensures
        spec_lru_cap(*final(c)) == spec_lru_cap(*old(c)),
        match r {
            Some(e) => spec_lru_entries(*old(c)).len() > 0 && spec_lru_entries(*old(c))[0] == (
                e.0,
                e.1.0,
                e.1.1@,
            ) && spec_lru_entries(*final(c)) == spec_lru_entries(*old(c)).skip(1),
            None => spec_lru_entries(*old(c)).len() == 0 && spec_lru_entries(*final(c))
                == spec_lru_entries(*old(c)),
        },
{
    c.pop_lru()
}

/// `lru::LruCache::push`: puts the epoch and the bytes under the key and
/// makes the entry the most recently used. An entry that had the key is
/// replaced and returned. Without one, a store that is full gives up its
/// least recently used entry, which is returned.
#[verifier::external_body]
pub(crate) fn lru_push(
    c: &mut lru::LruCache<u64, (u64, Vec<u8>)>,
    key: u64,
    epoch: u64,
    value: Vec<u8>,
) -> (r: Option<(u64, (u64, Vec<u8>))>)
    ensures
        spec_lru_cap(*final(c)) == spec_lru_cap(*old(c)),
        ({
            let before = spec_lru_entries(*old(c));
            let i = spec_position(before, key);
            if i >= 0 {
                r matches Some(e) && before[i] == (e.0, e.1.0, e.1.1@) && spec_lru_entries(
                    *final(c),
                ) == before.remove(i).push((key, epoch, value@))
            } else if before.len() == spec_lru_cap(*old(c)) {
                r matches Some(e) && before.len() > 0 && before[0] == (e.0, e.1.0, e.1.1@)
                    && spec_lru_entries(*final(c)) == before.skip(1).push((key, epoch, value@))
            } else {
                r is None && spec_lru_entries(*final(c)) == before.push((key, epoch, value@))
            }
        }),
{
    c.push(key, (epoch, value))
}

/// `lru::LruCache::peek_mut`: the epoch and the bytes under the key, to be
/// changed in place, or `None` where no entry has the key. The order of the
/// entries stays; what the entry holds in the end is what was written to
/// it.
#[verifier::external_body]
pub(crate) fn lru_peek_mut<'a>(c: &'a mut lru::LruCache<u64, (u64, Vec<u8>)>, key: u64) -> (r:
    Option<&'a mut (u64, Vec<u8>)>)
    ensures
        spec_lru_cap(*final(c)) == spec_lru_cap(*old(c)),
        match r {
            Some(slot) => {
                let i = spec_position(spec_lru_entries(*old(c)), key);
                &&& i >= 0
                &&& spec_lru_entries(*old(c))[i] == (key, slot.0, slot.1@)
                &&& spec_lru_entries(*final(c)) == spec_lru_entries(*old(c)).update(
                    i,
                    (key, final(slot).0, final(slot).1@),
                )
            },
            None => spec_position(spec_lru_entries(*old(c)), key) == -1 && spec_lru_entries(
                *final(c),
            ) == spec_lru_entries(*old(c)),
        },
{
    c.peek_mut(&key)
}

/// `lru::LruCache::clear`: takes out every entry.
#[verifier::external_body]
pub(crate) fn lru_clear(c: &mut lru::LruCache<u64, (u64, Vec<u8>)>)
    ensures
        spec_lru_cap(*final(c)) == spec_lru_cap(*old(c)),
        spec_lru_entries(*final(c)) == Seq::<(u64, u64, Seq<u8>)>::empty(),
{
    c.clear()
}

/// `lru::LruCache::iter`: copies of the bytes of the entries, the most
/// recently used first.
#[verifier::external_body]
pub(crate) fn lru_values(c: &lru::LruCache<u64, (u64, Vec<u8>)>) -> (r: Vec<Vec<u8>>)
    ensures
        r@.len() == spec_lru_entries(*c).len(),
        forall|i: int|
            0 <= i < r@.len() ==> (#[trigger] r@[i])@ == spec_lru_entries(*c)[r@.len() - 1 - i].2,
{
    c.iter().map(|(_, v)| v.1.clone()).collect()
}

} // verus!
