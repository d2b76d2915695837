//! CRC-32C (Castagnoli), the integrity checksum of the save envelopes.
//!
//! The specification is the reflected bitwise definition: initial value
//! `0xFFFF_FFFF`, polynomial `0x82F6_3B78`, final complement.
use vstd::prelude::*;

verus! {

broadcast use vstd::seq::group_seq_axioms;

/// The reflected Castagnoli polynomial.
pub const POLYNOMIAL: u32 = 0x82F6_3B78;

/// One shift of the reflected CRC register.
pub open spec fn crc_shift(c: u32) -> u32 {
    if c & 1 == 1 {
        (c >> 1) ^ POLYNOMIAL
    } else {
        c >> 1
    }
}

/// `n` shifts of the CRC register.
pub open spec fn crc_shifts(c: u32, n: nat) -> u32
    decreases n,
{
    if n == 0 {
        c
    } else {
        crc_shift(crc_shifts(c, (n - 1) as nat))
    }
}

/// The register after absorbing one byte.
pub open spec fn crc_byte(c: u32, b: u8) -> u32 {
    crc_shifts(c ^ (b as u32), 8)
}

/// The register after absorbing every byte of `s`, in order.
pub open spec fn crc_update(c: u32, s: Seq<u8>) -> u32
    decreases s.len(),
{
    if s.len() == 0 {
        c
    } else {
        crc_byte(crc_update(c, s.drop_last()), s.last())
    }
}

/// CRC-32C of `s`.
pub open spec fn spec_crc32c(s: Seq<u8>) -> u32 {
    !crc_update(0xFFFF_FFFF, s)
}

/// Absorbing a concatenation is absorbing its parts in turn.
pub proof fn lemma_crc_update_concat(c: u32, a: Seq<u8>, b: Seq<u8>)
    ensures
        crc_update(c, a + b) == crc_update(crc_update(c, a), b),
    decreases b.len(),
{
    if b.len() == 0 {
        assert(a + b =~= a);
    } else {
        lemma_crc_update_concat(c, a, b.drop_last());
        assert((a + b).drop_last() =~= a + b.drop_last());
    }
}

fn crc_byte_exec(c: u32, b: u8) -> (r: u32)
    ensures
        r == crc_byte(c, b),
{
    let mut crc = c ^ (b as u32);
    let ghost start = crc;
    let mut k: usize = 0;
    while k < 8
        invariant
            k <= 8,
            crc == crc_shifts(start, k as nat),
        decreases 8 - k,
    {
        crc = if crc & 1 == 1 {
            (crc >> 1) ^ POLYNOMIAL
        } else {
            crc >> 1
        };
        k = k + 1;
    }
    crc
}

/// Absorbs `data` into the running CRC register `state`.
pub fn crc32c_update(state: u32, data: &[u8]) -> (r: u32)
    ensures
        r == crc_update(state, data@),
{
    let mut crc = state;
    let mut i: usize = 0;
    while i < data.len()
        invariant
            i <= data@.len(),
            crc == crc_update(state, data@.take(i as int)),
        decreases data@.len() - i,
    {
        assert(data@.take(i + 1).drop_last() =~= data@.take(i as int));
        crc = crc_byte_exec(crc, data[i]);
        i = i + 1;
    }
    assert(data@.take(data@.len() as int) =~= data@);
    crc
}

/// CRC-32C of `data`.
pub fn crc32c(data: &[u8]) -> (r: u32)
    ensures
        r == spec_crc32c(data@),
{
    !crc32c_update(0xFFFF_FFFF, data)
}

/// The bytes of several runs, concatenated in order.
pub open spec fn joined(parts: Seq<&[u8]>) -> Seq<u8>
    decreases parts.len(),
{
    if parts.len() == 0 {
        Seq::empty()
    } else {
        joined(parts.drop_last()) + parts.last()@
    }
}

/// CRC-32C of the concatenation of `parts`, computed without copying them.
pub fn crc32c_join(parts: &[&[u8]]) -> (r: u32)
    ensures
        r == spec_crc32c(joined(parts@)),
{
    let mut state: u32 = 0xFFFF_FFFF;
    let mut i: usize = 0;
    while i < parts.len()
        invariant
            i <= parts@.len(),
            state == crc_update(0xFFFF_FFFF, joined(parts@.take(i as int))),
        decreases parts@.len() - i,
    {
        let part: &[u8] = parts[i];
        proof {
            assert(parts@.take(i + 1).drop_last() =~= parts@.take(i as int));
            lemma_crc_update_concat(0xFFFF_FFFF, joined(parts@.take(i as int)), part@);
        }
        state = crc32c_update(state, part);
        i = i + 1;
    }
    assert(parts@.take(parts@.len() as int) =~= parts@);
    !state
}

/// CRC-32C of the concatenation of two byte runs.
pub fn crc32c_join2(first: &[u8], second: &[u8]) -> (r: u32)
    ensures
        r == spec_crc32c(first@ + second@),
{
    let state = crc32c_update(0xFFFF_FFFF, first);
    let state = crc32c_update(state, second);
    proof {
        lemma_crc_update_concat(0xFFFF_FFFF, first@, second@);
    }
    !state
}

} // verus!
