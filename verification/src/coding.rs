//! Fixed-width integers and length-prefixed byte strings, as the table file
//! format lays them out: every integer with its lowest byte first.

use bytes::{Buf, BufMut};
use vstd::bytes::{
    lemma_auto_spec_u32_to_from_le_bytes, lemma_auto_spec_u64_to_from_le_bytes,
    spec_u32_from_le_bytes, spec_u32_to_le_bytes, spec_u64_from_le_bytes, spec_u64_to_le_bytes,
};
use vstd::prelude::*;

verus! {

/// `bytes::BufMut::put_u8` on a `Vec<u8>`: the byte is appended.
#[verifier::external_body]
pub(crate) fn put_u8(buf: &mut Vec<u8>, n: u8)
    ensures
        final(buf)@ == old(buf)@.push(n),
{
    buf.put_u8(n)
}

/// `bytes::BufMut::put_u32_le` on a `Vec<u8>`: the four bytes of `n`, lowest
/// first, are appended.
#[verifier::external_body]
pub(crate) fn put_u32_le(buf: &mut Vec<u8>, n: u32)
    ensures
        final(buf)@ == old(buf)@ + spec_u32_to_le_bytes(n),
{
    buf.put_u32_le(n)
}

/// `bytes::BufMut::put_u64_le` on a `Vec<u8>`: the eight bytes of `n`, lowest
/// first, are appended.
#[verifier::external_body]
pub(crate) fn put_u64_le(buf: &mut Vec<u8>, n: u64)
    ensures
        final(buf)@ == old(buf)@ + spec_u64_to_le_bytes(n),
{
    buf.put_u64_le(n)
}

/// `bytes::BufMut::put_slice` on a `Vec<u8>`: the bytes of `src` are appended.
#[verifier::external_body]
pub(crate) fn put_slice(buf: &mut Vec<u8>, src: &[u8])
    ensures
        final(buf)@ == old(buf)@ + src@,
{
    buf.put_slice(src)
}

/// `bytes::Buf::get_u8` on a byte slice: returns the first byte and advances
/// the slice past it. The slice must hold a byte.
#[verifier::external_body]
pub(crate) fn get_u8(buf: &mut &[u8]) -> (n: u8)
    requires
        old(buf)@.len() >= 1,
    ensures
        n == old(buf)@[0],
        final(buf)@ == old(buf)@.skip(1),
{
    buf.get_u8()
}

/// `bytes::Buf::get_u32_le` on a byte slice: reads the first four bytes,
/// lowest first, and advances the slice past them. The slice must hold four
/// bytes.
#[verifier::external_body]
pub(crate) fn get_u32_le(buf: &mut &[u8]) -> (n: u32)
    requires
        old(buf)@.len() >= 4,
    ensures
        n == spec_u32_from_le_bytes(old(buf)@.subrange(0, 4)),
        final(buf)@ == old(buf)@.skip(4),
{
    buf.get_u32_le()
}

/// `bytes::Buf::get_u64_le` on a byte slice: reads the first eight bytes,
/// lowest first, and advances the slice past them. The slice must hold eight
/// bytes.
#[verifier::external_body]
pub(crate) fn get_u64_le(buf: &mut &[u8]) -> (n: u64)
    requires
        old(buf)@.len() >= 8,
    ensures
        n == spec_u64_from_le_bytes(old(buf)@.subrange(0, 8)),
        final(buf)@ == old(buf)@.skip(8),
{
    buf.get_u64_le()
}

/// `bytes::Buf::advance` on a byte slice: drops the first `cnt` bytes. The
/// slice must hold that many.
#[verifier::external_body]
pub(crate) fn advance(buf: &mut &[u8], cnt: usize)
    requires
        cnt <= old(buf)@.len(),
    ensures
        final(buf)@ == old(buf)@.skip(cnt as int),
{
    buf.advance(cnt)
}

/// The four bytes of a `u32`, lowest first.
pub open spec fn spec_u32_le(n: u32) -> Seq<u8> {
    spec_u32_to_le_bytes(n)
}

/// The eight bytes of a `u64`, lowest first.
pub open spec fn spec_u64_le(n: u64) -> Seq<u8> {
    spec_u64_to_le_bytes(n)
}

/// A byte string behind its length as a `u32`.
pub open spec fn spec_length_prefixed(s: Seq<u8>) -> Seq<u8> {
    spec_u32_le(s.len() as u32) + s
}

/// Reads a `u32` from the front of `s`: the number and what follows it, or
/// `None` where `s` is too short.
pub open spec fn spec_take_u32(s: Seq<u8>) -> Option<(u32, Seq<u8>)> {
    if s.len() < 4 {
        None
    } else {
        Some((spec_u32_from_le_bytes(s.subrange(0, 4)), s.skip(4)))
    }
}

/// Reads a `u64` from the front of `s`: the number and what follows it, or
/// `None` where `s` is too short.
pub open spec fn spec_take_u64(s: Seq<u8>) -> Option<(u64, Seq<u8>)> {
    if s.len() < 8 {
        None
    } else {
        Some((spec_u64_from_le_bytes(s.subrange(0, 8)), s.skip(8)))
    }
}

/// Reads a length-prefixed byte string from the front of `s`: the string and
/// what follows it, or `None` where `s` is too short.
pub open spec fn spec_take_length_prefixed(s: Seq<u8>) -> Option<(Seq<u8>, Seq<u8>)> {
    match spec_take_u32(s) {
        None => None,
        Some((n, rest)) => if rest.len() < n {
            None
        } else {
            Some((rest.subrange(0, n as int), rest.skip(n as int)))
        },
    }
}

/// Reading back a `u32` that was written gives the number and what followed.
pub proof fn lemma_take_u32(n: u32, rest: Seq<u8>)
    ensures
        spec_u32_le(n).len() == 4,
        spec_take_u32(spec_u32_le(n) + rest) == Some((n, rest)),
{
    lemma_auto_spec_u32_to_from_le_bytes();
    let s = spec_u32_le(n) + rest;
    assert(s.subrange(0, 4) =~= spec_u32_le(n));
    assert(s.skip(4) =~= rest);
}

/// Reading back a `u64` that was written gives the number and what followed.
pub proof fn lemma_take_u64(n: u64, rest: Seq<u8>)
    ensures
        spec_u64_le(n).len() == 8,
        spec_take_u64(spec_u64_le(n) + rest) == Some((n, rest)),
{
    lemma_auto_spec_u64_to_from_le_bytes();
    let s = spec_u64_le(n) + rest;
    assert(s.subrange(0, 8) =~= spec_u64_le(n));
    assert(s.skip(8) =~= rest);
}

/// Two different eight-byte strings spell two different numbers.
pub proof fn lemma_u64_from_le_bytes_injective(a: Seq<u8>, b: Seq<u8>)
    requires
        a.len() == 8,
        b.len() == 8,
        spec_u64_from_le_bytes(a) == spec_u64_from_le_bytes(b),
    ensures
        a == b,
{
    lemma_auto_spec_u64_to_from_le_bytes();
    assert(spec_u64_to_le_bytes(spec_u64_from_le_bytes(a)) == a);
    assert(spec_u64_to_le_bytes(spec_u64_from_le_bytes(b)) == b);
}

/// Two different four-byte strings spell two different numbers.
pub proof fn lemma_u32_from_le_bytes_injective(a: Seq<u8>, b: Seq<u8>)
    requires
        a.len() == 4,
        b.len() == 4,
        spec_u32_from_le_bytes(a) == spec_u32_from_le_bytes(b),
    ensures
        a == b,
{
    lemma_auto_spec_u32_to_from_le_bytes();
    assert(spec_u32_to_le_bytes(spec_u32_from_le_bytes(a)) == a);
    assert(spec_u32_to_le_bytes(spec_u32_from_le_bytes(b)) == b);
}

/// Reading back a length-prefixed string that was written gives the string
/// and what followed.
pub proof fn lemma_take_length_prefixed(s: Seq<u8>, rest: Seq<u8>)
    requires
        s.len() <= u32::MAX,
    ensures
        spec_length_prefixed(s).len() == 4 + s.len(),
        spec_take_length_prefixed(spec_length_prefixed(s) + rest) == Some((s, rest)),
{
    lemma_take_u32(s.len() as u32, s + rest);
    assert(spec_length_prefixed(s) + rest =~= spec_u32_le(s.len() as u32) + (s + rest));
    assert((s + rest).subrange(0, s.len() as int) =~= s);
    assert((s + rest).skip(s.len() as int) =~= rest);
}

/// A length as a `u32`.
pub fn checked_into_u32(i: usize) -> (r: u32)
    requires
        i <= u32::MAX,
    ensures
        r == i,
{
    i as u32
}

/// Appends `slice` behind its length.
pub fn put_length_prefixed_slice(buf: &mut Vec<u8>, slice: &[u8])
    requires
        slice@.len() <= u32::MAX,
    ensures
        final(buf)@ == old(buf)@ + spec_length_prefixed(slice@),
{
    let len = checked_into_u32(slice.len());
    put_u32_le(buf, len);
    put_slice(buf, slice);
    assert(buf@ =~= old(buf)@ + spec_length_prefixed(slice@));
}

/// Reads a `u32` from the front of `buf` and advances past it. Where `buf`
/// is too short it is left as it was.
pub fn try_get_u32_le(buf: &mut &[u8]) -> (r: Option<u32>)
    ensures
        match spec_take_u32(old(buf)@) {
            Some((n, rest)) => r == Some(n) && final(buf)@ == rest,
            None => r is None && final(buf)@ == old(buf)@,
        },
{
    if buf.len() < 4 {
        None
    } else {
        Some(get_u32_le(buf))
    }
}

/// Reads a `u64` from the front of `buf` and advances past it. Where `buf`
/// is too short it is left as it was.
pub fn try_get_u64_le(buf: &mut &[u8]) -> (r: Option<u64>)
    ensures
        match spec_take_u64(old(buf)@) {
            Some((n, rest)) => r == Some(n) && final(buf)@ == rest,
            None => r is None && final(buf)@ == old(buf)@,
        },
{
    if buf.len() < 8 {
        None
    } else {
        Some(get_u64_le(buf))
    }
}

/// Reads a length-prefixed byte string from the front of `buf` and advances
/// past it. Where `buf` is too short it is left as it was.
pub fn try_get_length_prefixed_slice(buf: &mut &[u8]) -> (r: Option<Vec<u8>>)
    ensures
        match spec_take_length_prefixed(old(buf)@) {
            Some((s, rest)) => r matches Some(v) && v@ == s && final(buf)@ == rest,
            None => r is None && final(buf)@ == old(buf)@,
        },
{
    let mut cur: &[u8] = *buf;
    if cur.len() < 4 {
        return None;
    }
    let len = get_u32_le(&mut cur) as usize;
    if cur.len() < len {
        return None;
    }
    let v = vstd::slice::slice_to_vec(vstd::slice::slice_subrange(cur, 0, len));
    advance(&mut cur, len);
    *buf = cur;
    Some(v)
}

/// Reads a length-prefixed byte string from the front of `buf` and advances
/// past it.
pub fn get_length_prefixed_slice(buf: &mut &[u8]) -> (v: Vec<u8>)
    requires
        spec_take_length_prefixed(old(buf)@) is Some,
    ensures
        (v@, final(buf)@) == spec_take_length_prefixed(old(buf)@).unwrap(),
{
    let len = get_u32_le(buf) as usize;
    let v = vstd::slice::slice_to_vec(vstd::slice::slice_subrange(*buf, 0, len));
    advance(buf, len);
    v
}

} // verus!
