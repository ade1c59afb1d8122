//! Byte strings: how they are put together, and the XOR that both kinds of
//! check value are made from.
use vstd::prelude::*;

verus! {

/// The XOR of `acc` and every byte of `bytes`.
pub open spec fn xor_all(acc: u8, bytes: Seq<u8>) -> u8
    decreases bytes.len(),
{
    if bytes.len() == 0 {
        acc
    } else {
        xor_all(acc, bytes.drop_last()) ^ bytes.last()
    }
}

/// `count` bytes, all of them zero.
pub open spec fn zeros(count: nat) -> Seq<u8> {
    Seq::new(count, |i: int| 0u8)
}

/// Adds `more` at the end of `out`.
pub(crate) fn append(out: &mut Vec<u8>, more: &[u8])
    ensures
        final(out)@ == old(out)@ + more@,
{
    out.extend_from_slice(more);
    assert(out@ =~= old(out)@ + more@);
}

/// The bytes of `bytes` from `from` up to `to`, in a vector of their own.
pub(crate) fn part(bytes: &[u8], from: usize, to: usize) -> (out: Vec<u8>)
    requires
        from <= to <= bytes@.len(),
    ensures
        out@ == bytes@.subrange(from as int, to as int),
{
    vstd::slice::slice_to_vec(vstd::slice::slice_subrange(bytes, from, to))
}

/// A copy of `bytes`.
pub(crate) fn copy(bytes: &[u8]) -> (out: Vec<u8>)
    ensures
        out@ == bytes@,
{
    vstd::slice::slice_to_vec(bytes)
}

/// A vector of `count` zero bytes.
pub(crate) fn zero_bytes(count: usize) -> (out: Vec<u8>)
    ensures
        out@ == zeros(count as nat),
{
    let out: Vec<u8> = vec![0u8; count];
    assert(out@ =~= zeros(count as nat));
    out
}

/// The XOR of `acc` and every byte of `bytes`, computed.
pub(crate) fn xor_bytes(acc: u8, bytes: &[u8]) -> (eight: u8)
    ensures
        eight == xor_all(acc, bytes@),
{
    let mut eight: u8 = acc;
    let mut at: usize = 0;
    while at < bytes.len()
        invariant
            at <= bytes@.len(),
            eight == xor_all(acc, bytes@.take(at as int)),
        decreases bytes@.len() - at,
    {
        assert(bytes@.take(at + 1).drop_last() =~= bytes@.take(at as int));
        eight = eight ^ bytes[at];
        at += 1;
    }
    assert(bytes@.take(at as int) =~= bytes@);
    eight
}

/// Changing one byte by `change` changes the XOR by `change`.
pub proof fn lemma_xor_update(acc: u8, bytes: Seq<u8>, at: int, change: u8)
    requires
        0 <= at < bytes.len(),
    ensures
        xor_all(acc, bytes.update(at, bytes[at] ^ change)) == xor_all(acc, bytes) ^ change,
    decreases bytes.len(),
{
    let changed = bytes.update(at, bytes[at] ^ change);
    let rest = xor_all(acc, bytes.drop_last());
    let last = bytes.last();
    if at == bytes.len() - 1 {
        assert(changed.drop_last() =~= bytes.drop_last());
        assert(rest ^ (last ^ change) == (rest ^ last) ^ change) by (bit_vector);
    } else {
        lemma_xor_update(acc, bytes.drop_last(), at, change);
        assert(changed.drop_last() =~= bytes.drop_last().update(at, bytes[at] ^ change));
        assert((rest ^ change) ^ last == (rest ^ last) ^ change) by (bit_vector);
    }
}

} // verus!
