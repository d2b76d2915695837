//! Sixteen-byte identities of players and companions.
//!
//! An identity is a random RFC 4122 UUID: version nibble 4 and the `10`
//! variant bits. The all-zero identity means "none".
use vstd::bytes::*;
use vstd::prelude::*;

verus! {

broadcast use vstd::array::group_array_axioms;

/// Length of an identity in bytes.
pub const ID_LENGTH: usize = 16;

/// A player or companion identity, stored as its sixteen raw bytes.
#[derive(Clone, Copy, Debug, PartialEq, Eq, Hash)]
pub struct PlayerId {
    pub bytes: [u8; 16],
}

/// Every byte is zero.
pub open spec fn spec_id_is_zero(b: Seq<u8>) -> bool {
    forall|i: int| 0 <= i < b.len() ==> b[i] == 0
}

/// A version-4 UUID of the RFC 4122 variant.
pub open spec fn spec_id_is_valid(b: Seq<u8>) -> bool {
    b.len() == 16 && b[6] >> 4u8 == 4 && b[8] & 0xC0u8 == 0x80
}

/// The identity stored at `pos`.
pub open spec fn id_at(d: Seq<u8>, pos: int) -> PlayerId {
    PlayerId {
        bytes: [
            d[pos],
            d[pos + 1],
            d[pos + 2],
            d[pos + 3],
            d[pos + 4],
            d[pos + 5],
            d[pos + 6],
            d[pos + 7],
            d[pos + 8],
            d[pos + 9],
            d[pos + 10],
            d[pos + 11],
            d[pos + 12],
            d[pos + 13],
            d[pos + 14],
            d[pos + 15],
        ],
    }
}

/// Reading sixteen identity bytes gives the identity back.
pub proof fn lemma_id_at(d: Seq<u8>, pos: int, id: PlayerId)
    requires
        0 <= pos,
        pos + 16 <= d.len(),
        d.subrange(pos, pos + 16) == id.bytes@,
    ensures
        id_at(d, pos) == id,
        id_at(d, pos).bytes@ == d.subrange(pos, pos + 16),
{
    let got = id_at(d, pos);
    assert forall|k: int| 0 <= k < 16 implies got.bytes[k] == id.bytes[k] by {
        assert(d.subrange(pos, pos + 16)[k] == d[pos + k]);
    }
    assert(got.bytes =~= id.bytes);
    assert(got.bytes@ =~= d.subrange(pos, pos + 16));
}

/// The identity read as a big-endian 128-bit number.
pub open spec fn id_key(id: PlayerId) -> u128 {
    spec_u128_from_le_bytes(id.bytes@.reverse())
}

/// Distinct identities have distinct keys.
pub proof fn lemma_id_key_injective(a: PlayerId, b: PlayerId)
    requires
        id_key(a) == id_key(b),
    ensures
        a == b,
{
    lemma_auto_spec_u128_to_from_le_bytes();
    assert(a.bytes@.reverse().len() == 16);
    assert(b.bytes@.reverse().len() == 16);
    assert(spec_u128_to_le_bytes(spec_u128_from_le_bytes(a.bytes@.reverse())) == a.bytes@.reverse());
    assert(spec_u128_to_le_bytes(spec_u128_from_le_bytes(b.bytes@.reverse())) == b.bytes@.reverse());
    assert(a.bytes@.reverse() == b.bytes@.reverse());
    assert(a.bytes@ =~= a.bytes@.reverse().reverse());
    assert(b.bytes@ =~= b.bytes@.reverse().reverse());
    assert(a.bytes =~= b.bytes);
}

impl PlayerId {
    /// The identity with the given bytes.
    pub fn from_bytes(bytes: [u8; 16]) -> (id: PlayerId)
        ensures
            id.bytes@ == bytes@,
    {
        PlayerId { bytes }
    }

    /// The identity's bytes.
    pub fn to_bytes(&self) -> (bytes: [u8; 16])
        ensures
            bytes@ == self.bytes@,
    {
        self.bytes
    }

    /// The identity's ordering key, its bytes read as a big-endian number.
    pub fn sort_key(&self) -> (k: u128)
        ensures
            k == id_key(*self),
    {
        let b = self.bytes;
        let rev = [
            b[15],
            b[14],
            b[13],
            b[12],
            b[11],
            b[10],
            b[9],
            b[8],
            b[7],
            b[6],
            b[5],
            b[4],
            b[3],
            b[2],
            b[1],
            b[0],
        ];
        assert(rev@ =~= b@.reverse());
        u128_from_le_bytes(&rev)
    }

    /// Reports whether two identities are the same.
    pub fn same_as(&self, other: &PlayerId) -> (b: bool)
        ensures
            b == (*self == *other),
    {
        let k = self.sort_key();
        let l = other.sort_key();
        if k == l {
            proof {
                lemma_id_key_injective(*self, *other);
            }
            true
        } else {
            false
        }
    }

    /// Reports whether this is the all-zero "no identity" value.
    pub fn is_zero(&self) -> (b: bool)
        ensures
            b == spec_id_is_zero(self.bytes@),
    {
        let mut i: usize = 0;
        while i < ID_LENGTH
            invariant
                i <= 16,
                self.bytes@.len() == 16,
                forall|j: int| 0 <= j < i ==> self.bytes@[j] == 0,
            decreases 16 - i,
        {
            if self.bytes[i] != 0 {
                return false;
            }
            i = i + 1;
        }
        true
    }

    /// Reports whether this is a version-4, RFC 4122 variant UUID.
    pub fn is_valid(&self) -> (b: bool)
        ensures
            b == spec_id_is_valid(self.bytes@),
    {
        self.bytes[6] >> 4u8 == 4 && self.bytes[8] & 0xC0u8 == 0x80
    }
}

impl Default for PlayerId {
    fn default() -> (id: PlayerId)
        ensures
            spec_id_is_zero(id.bytes@),
            id.bytes@ == Seq::new(16, |i: int| 0u8),
    {
        let id = PlayerId { bytes: [0u8; 16] };
        assert(id.bytes@ =~= Seq::new(16, |i: int| 0u8));
        id
    }
}

} // verus!
