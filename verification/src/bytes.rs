//! Little-endian byte primitives shared by the save codecs.
//!
//! Fixed-width integers are little-endian in every record family. Reads fail
//! closed: a read past the end of the record yields `None` and leaves the
//! reader where it was, so a truncated record never yields a half-read value.
use vstd::bytes::*;
use vstd::prelude::*;
use vstd::slice::slice_subrange;

verus! {

broadcast use {vstd::seq::group_seq_axioms, vstd::slice::group_slice_axioms};

/// The little-endian `u16` stored at `pos` in `d`.
pub open spec fn u16_at(d: Seq<u8>, pos: int) -> u16 {
    spec_u16_from_le_bytes(d.subrange(pos, pos + 2))
}

/// The little-endian `u32` stored at `pos` in `d`.
pub open spec fn u32_at(d: Seq<u8>, pos: int) -> u32 {
    spec_u32_from_le_bytes(d.subrange(pos, pos + 4))
}

/// The little-endian `u64` stored at `pos` in `d`.
pub open spec fn u64_at(d: Seq<u8>, pos: int) -> u64 {
    spec_u64_from_le_bytes(d.subrange(pos, pos + 8))
}

/// Encoding of one byte.
pub open spec fn le8(x: u8) -> Seq<u8> {
    seq![x]
}

/// Little-endian encoding of a `u16`.
pub open spec fn le16(x: u16) -> Seq<u8> {
    spec_u16_to_le_bytes(x)
}

/// Little-endian encoding of a `u32`.
pub open spec fn le32(x: u32) -> Seq<u8> {
    spec_u32_to_le_bytes(x)
}

/// Little-endian encoding of a `u64`.
pub open spec fn le64(x: u64) -> Seq<u8> {
    spec_u64_to_le_bytes(x)
}

/// Little-endian encoding of an `i32` by its two's-complement bits.
pub open spec fn lei32(x: i32) -> Seq<u8> {
    spec_u32_to_le_bytes(x as u32)
}

/// The flag byte of a boolean.
pub open spec fn bool_byte(b: bool) -> u8 {
    if b {
        1u8
    } else {
        0u8
    }
}

/// Encoding of a boolean flag byte.
pub open spec fn le_bool(b: bool) -> Seq<u8> {
    seq![bool_byte(b)]
}

/// Lengths and inverse laws of the fixed-width encodings.
pub proof fn lemma_le_facts()
    ensures
        forall|x: u16| #[trigger] le16(x).len() == 2,
        forall|x: u32| #[trigger] le32(x).len() == 4,
        forall|x: u64| #[trigger] le64(x).len() == 8,
        forall|x: i32| #[trigger] lei32(x).len() == 4,
        forall|x: u16| #[trigger] spec_u16_from_le_bytes(le16(x)) == x,
        forall|x: u32| #[trigger] spec_u32_from_le_bytes(le32(x)) == x,
        forall|x: u64| #[trigger] spec_u64_from_le_bytes(le64(x)) == x,
        forall|x: i32| #[trigger] spec_u32_from_le_bytes(lei32(x)) as i32 == x,
{
    lemma_auto_spec_u16_to_from_le_bytes();
    lemma_auto_spec_u32_to_from_le_bytes();
    lemma_auto_spec_u64_to_from_le_bytes();
    assert forall|x: u16| #[trigger] spec_u16_from_le_bytes(le16(x)) == x by {
        assert(spec_u16_to_le_bytes(x).len() == 2);
    }
    assert forall|x: u32| #[trigger] spec_u32_from_le_bytes(le32(x)) == x by {
        assert(spec_u32_to_le_bytes(x).len() == 4);
    }
    assert forall|x: u64| #[trigger] spec_u64_from_le_bytes(le64(x)) == x by {
        assert(spec_u64_to_le_bytes(x).len() == 8);
    }
    assert forall|x: i32| #[trigger] spec_u32_from_le_bytes(lei32(x)) as i32 == x by {
        assert(spec_u32_to_le_bytes(x as u32).len() == 4);
        lemma_i32_bits(x);
    }
}

/// Re-encoding a value read at `pos` gives back the bytes it was read from.
pub proof fn lemma_le_rereads()
    ensures
        forall|d: Seq<u8>, pos: int|
            0 <= pos && pos + 2 <= d.len() ==> #[trigger] le16(u16_at(d, pos)) == d.subrange(
                pos,
                pos + 2,
            ),
        forall|d: Seq<u8>, pos: int|
            0 <= pos && pos + 4 <= d.len() ==> #[trigger] le32(u32_at(d, pos)) == d.subrange(
                pos,
                pos + 4,
            ),
        forall|d: Seq<u8>, pos: int|
            0 <= pos && pos + 8 <= d.len() ==> #[trigger] le64(u64_at(d, pos)) == d.subrange(
                pos,
                pos + 8,
            ),
{
    lemma_auto_spec_u16_to_from_le_bytes();
    lemma_auto_spec_u32_to_from_le_bytes();
    lemma_auto_spec_u64_to_from_le_bytes();
    assert forall|d: Seq<u8>, pos: int| 0 <= pos && pos + 2 <= d.len() implies #[trigger] le16(
        u16_at(d, pos),
    ) == d.subrange(pos, pos + 2) by {
        assert(d.subrange(pos, pos + 2).len() == 2);
    }
    assert forall|d: Seq<u8>, pos: int| 0 <= pos && pos + 4 <= d.len() implies #[trigger] le32(
        u32_at(d, pos),
    ) == d.subrange(pos, pos + 4) by {
        assert(d.subrange(pos, pos + 4).len() == 4);
    }
    assert forall|d: Seq<u8>, pos: int| 0 <= pos && pos + 8 <= d.len() implies #[trigger] le64(
        u64_at(d, pos),
    ) == d.subrange(pos, pos + 8) by {
        assert(d.subrange(pos, pos + 8).len() == 8);
    }
}

/// Reinterpreting the bits of an `i32` as `u32` and back is the identity.
pub proof fn lemma_i32_bits(x: i32)
    ensures
        (x as u32) as i32 == x,
{
    assert((x as u32) as i32 == x) by (bit_vector);
}

/// Reinterpreting the bits of an `i64` as `u64` and back is the identity.
pub proof fn lemma_i64_bits(x: i64)
    ensures
        (x as u64) as i64 == x,
{
    assert((x as u64) as i64 == x) by (bit_vector);
}

/// Reads the little-endian `u16` at `pos`.
pub fn read_u16(d: &[u8], pos: usize) -> (v: u16)
    requires
        pos + 2 <= d@.len(),
    ensures
        v == u16_at(d@, pos as int),
{
    let _n = d.len();
    u16_from_le_bytes(slice_subrange(d, pos, pos + 2))
}

/// Reads the little-endian `u32` at `pos`.
pub fn read_u32(d: &[u8], pos: usize) -> (v: u32)
    requires
        pos + 4 <= d@.len(),
    ensures
        v == u32_at(d@, pos as int),
{
    let _n = d.len();
    u32_from_le_bytes(slice_subrange(d, pos, pos + 4))
}

/// Reads the little-endian `u64` at `pos`.
pub fn read_u64(d: &[u8], pos: usize) -> (v: u64)
    requires
        pos + 8 <= d@.len(),
    ensures
        v == u64_at(d@, pos as int),
{
    let _n = d.len();
    u64_from_le_bytes(slice_subrange(d, pos, pos + 8))
}

/// Append-only little-endian writer used to build canonical record bytes.
pub struct ByteWriter {
    data: Vec<u8>,
}

impl View for ByteWriter {
    type V = Seq<u8>;

    closed spec fn view(&self) -> Seq<u8> {
        self.data@
    }
}

impl ByteWriter {
    pub fn new() -> (w: Self)
        ensures
            w@ == Seq::<u8>::empty(),
    {
        ByteWriter { data: Vec::new() }
    }

    pub fn len(&self) -> (n: usize)
        ensures
            n == self@.len(),
    {
        self.data.len()
    }

    pub fn u8(&mut self, value: u8)
        ensures
            final(self)@ == old(self)@ + le8(value),
    {
        self.data.push(value);
        assert(self.data@ =~= old(self)@ + le8(value));
    }

    fn append_vec(&mut self, mut other: Vec<u8>)
        ensures
            final(self)@ == old(self)@ + other@,
    {
        self.data.append(&mut other);
    }

    pub fn u16(&mut self, value: u16)
        ensures
            final(self)@ == old(self)@ + le16(value),
    {
        self.append_vec(u16_to_le_bytes(value));
    }

    pub fn u32(&mut self, value: u32)
        ensures
            final(self)@ == old(self)@ + le32(value),
    {
        self.append_vec(u32_to_le_bytes(value));
    }

    pub fn u64(&mut self, value: u64)
        ensures
            final(self)@ == old(self)@ + le64(value),
    {
        self.append_vec(u64_to_le_bytes(value));
    }

    pub fn bytes(&mut self, value: &[u8])
        ensures
            final(self)@ == old(self)@ + value@,
    {
        let ghost start = self@;
        let mut i: usize = 0;
        while i < value.len()
            invariant
                i <= value@.len(),
                self@ == start + value@.take(i as int),
            decreases value@.len() - i,
        {
            self.data.push(value[i]);
            assert(value@.take(i + 1) =~= value@.take(i as int).push(value@[i as int]));
            i = i + 1;
        }
        assert(value@.take(value@.len() as int) =~= value@);
    }

    pub fn into_vec(self) -> (v: Vec<u8>)
        ensures
            v@ == self@,
    {
        self.data
    }
}

/// Copies `src` into the prefix of `dst`, leaving the rest of `dst` untouched.
pub fn copy_prefix(dst: &mut [u8], src: &[u8])
    requires
        src@.len() <= old(dst)@.len(),
    ensures
        final(dst)@ == src@ + old(dst)@.skip(src@.len() as int),
{
    let mut i: usize = 0;
    while i < src.len()
        invariant
            i <= src@.len(),
            src@.len() <= dst@.len(),
            dst@.len() == old(dst)@.len(),
            dst@ == src@.take(i as int) + old(dst)@.skip(i as int),
        decreases src@.len() - i,
    {
        dst[i] = src[i];
        assert(dst@ =~= src@.take(i + 1) + old(dst)@.skip(i + 1));
        i = i + 1;
    }
}

/// Reports whether every byte in `data` is zero.
pub fn is_zero(data: &[u8]) -> (b: bool)
    ensures
        b <==> forall|i: int| 0 <= i < data@.len() ==> data@[i] == 0,
{
    let mut i: usize = 0;
    while i < data.len()
        invariant
            i <= data@.len(),
            forall|j: int| 0 <= j < i ==> data@[j] == 0,
        decreases data@.len() - i,
    {
        if data[i] != 0 {
            return false;
        }
        i = i + 1;
    }
    true
}

} // verus!
