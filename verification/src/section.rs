//! Paletted section snapshots: the block storage of one 16x16x16 section.
//!
//! A section is stored as one block for the whole section (`Single`), as
//! palette indices packed at 4 or 8 bits per block (`Indexed`), or as global
//! block numbers packed at 15 bits per block (`Direct`). Packed words never
//! straddle slots: each word holds `64 / bits` slots, low bits first, and the
//! remaining high bits are unused.
use crate::error::{StorageResult, corrupt};
use vstd::prelude::*;

verus! {

/// Blocks in one section.
pub const BLOCKS_PER_SECTION: usize = 4096;
/// Palette bound checked before any palette allocation.
pub const MAX_PALETTE_ENTRIES: usize = 256;
/// Packed-word bound checked before any packed allocation.
pub const MAX_PACKED_WORDS: usize = 1024;
/// Bits per block in direct storage.
pub const DIRECT_BITS: u8 = 15;
/// Number of registered block kinds; block numbers run from zero (air) upward.
pub const BLOCK_COUNT: u16 = 90;
/// The furnace block.
pub const FURNACE_BLOCK: u16 = 9;
/// The chest block.
pub const CHEST_BLOCK: u16 = 11;

/// Storage form of one paletted section.
#[derive(Clone, Copy, Debug, PartialEq, Eq, Structural)]
pub enum StorageKind {
    /// One block for the whole section.
    Single,
    /// Palette indices packed at 4 or 8 bits per block.
    Indexed,
    /// Global block numbers packed at 15 bits per block.
    Direct,
}

/// Wire code of a storage kind.
pub open spec fn spec_kind_code(kind: StorageKind) -> u8 {
    match kind {
        StorageKind::Single => 0,
        StorageKind::Indexed => 1,
        StorageKind::Direct => 2,
    }
}

/// Storage kind of a wire code, `None` for an unknown code.
pub open spec fn spec_kind_of(code: u8) -> Option<StorageKind> {
    if code == 0 {
        Some(StorageKind::Single)
    } else if code == 1 {
        Some(StorageKind::Indexed)
    } else if code == 2 {
        Some(StorageKind::Direct)
    } else {
        None
    }
}

impl StorageKind {
    /// The wire code of this kind.
    pub fn code(self) -> (c: u8)
        ensures
            c == spec_kind_code(self),
    {
        match self {
            StorageKind::Single => 0,
            StorageKind::Indexed => 1,
            StorageKind::Direct => 2,
        }
    }

    /// The kind a wire code names, `None` for an unknown code.
    pub fn from_u8(value: u8) -> (k: Option<StorageKind>)
        ensures
            k == spec_kind_of(value),
    {
        if value == 0 {
            Some(StorageKind::Single)
        } else if value == 1 {
            Some(StorageKind::Indexed)
        } else if value == 2 {
            Some(StorageKind::Direct)
        } else {
            None
        }
    }
}

/// One section's independent, verifiable block snapshot.
#[derive(Clone, Debug, PartialEq, Eq)]
pub struct ContainerSnapshot {
    pub kind: StorageKind,
    pub bits: u8,
    pub single: u16,
    pub palette: Vec<u16>,
    pub packed: Vec<u64>,
}

/// The mathematical value of a section snapshot.
pub struct SectionView {
    pub kind: StorageKind,
    pub bits: u8,
    pub single: u16,
    pub palette: Seq<u16>,
    pub packed: Seq<u64>,
}

impl View for ContainerSnapshot {
    type V = SectionView;

    open spec fn view(&self) -> SectionView {
        SectionView {
            kind: self.kind,
            bits: self.bits,
            single: self.single,
            palette: self.palette@,
            packed: self.packed@,
        }
    }
}

/// Slots held by one packed word at `bits` bits per slot.
pub open spec fn slots_per_word(bits: u8) -> int {
    64int / (bits as int)
}

/// Words needed for a whole section at `bits` bits per slot.
pub open spec fn spec_words_for(bits: u8) -> int {
    (BLOCKS_PER_SECTION as int + slots_per_word(bits) - 1) / slots_per_word(bits)
}

/// The raw slot `i` of a packed word array.
pub open spec fn packed_slot(packed: Seq<u64>, bits: u8, i: int) -> u64 {
    let per = slots_per_word(bits);
    (packed[i / per] >> (((i % per) * bits as int) as u64)) & (((1u64 << bits) - 1) as u64)
}

/// The storage widths a section may use.
pub open spec fn storage_width(bits: u8) -> bool {
    bits == 4 || bits == 8 || bits == DIRECT_BITS
}

/// Mode residue: each storage form carries exactly the fields it uses, with
/// the exact palette and word shape.
pub open spec fn residue_ok(s: SectionView) -> bool {
    match s.kind {
        StorageKind::Single => s.bits == 0 && s.palette.len() == 0 && s.packed.len() == 0,
        StorageKind::Indexed => {
            &&& (s.bits == 4 || s.bits == 8)
            &&& s.single == 0
            &&& 1 <= s.palette.len() <= pow2_bits(s.bits)
            &&& s.packed.len() == spec_words_for(s.bits)
        },
        StorageKind::Direct => {
            &&& s.bits == DIRECT_BITS
            &&& s.single == 0
            &&& s.palette.len() == 0
            &&& s.packed.len() == spec_words_for(DIRECT_BITS)
        },
    }
}

/// `2^bits` for the indexed widths.
pub open spec fn pow2_bits(bits: u8) -> int {
    if bits == 4 {
        16
    } else if bits == 8 {
        256
    } else {
        0
    }
}

/// A registered block number.
pub open spec fn block_registered(block: int) -> bool {
    0 <= block < BLOCK_COUNT
}

/// The palette lists registered blocks, each at most once.
pub open spec fn palette_ok(p: Seq<u16>) -> bool {
    &&& forall|i: int| 0 <= i < p.len() ==> #[trigger] block_registered(p[i] as int)
    &&& forall|i: int, j: int| 0 <= i < j < p.len() ==> #[trigger] p[i] != #[trigger] p[j]
}

/// Every indexed slot names a palette entry.
pub open spec fn indexed_slots_ok(s: SectionView) -> bool {
    forall|i: int|
        0 <= i < BLOCKS_PER_SECTION ==> (#[trigger] packed_slot(s.packed, s.bits, i)) < s.palette.len()
}

/// Every direct slot names a registered block and no word carries bits past its last slot.
pub open spec fn direct_slots_ok(s: SectionView) -> bool {
    &&& forall|i: int|
        0 <= i < BLOCKS_PER_SECTION ==> block_registered(
            #[trigger] packed_slot(s.packed, DIRECT_BITS, i) as int,
        )
    &&& forall|w: int| 0 <= w < s.packed.len() ==> (#[trigger] s.packed[w]) >> 60u64 == 0
}

/// A loadable section: no residue, registered blocks, in-range slots.
pub open spec fn section_valid(s: SectionView) -> bool {
    &&& residue_ok(s)
    &&& match s.kind {
        StorageKind::Single => block_registered(s.single as int),
        StorageKind::Indexed => palette_ok(s.palette) && indexed_slots_ok(s),
        StorageKind::Direct => direct_slots_ok(s),
    }
}

/// The block at a section-linear index of a valid section.
pub open spec fn spec_block_at(s: SectionView, local: int) -> u16 {
    match s.kind {
        StorageKind::Single => s.single,
        StorageKind::Indexed => s.palette[packed_slot(s.packed, s.bits, local) as int],
        StorageKind::Direct => packed_slot(s.packed, DIRECT_BITS, local) as u16,
    }
}

/// Number of words needed for a whole section at a storage width.
pub fn words_for(bits: u8) -> (n: usize)
    requires
        storage_width(bits),
    ensures
        n == spec_words_for(bits),
        n == 256 || n == 512 || n == 1024,
        bits == 4 ==> n == 256,
        bits == 8 ==> n == 512,
        bits == DIRECT_BITS ==> n == 1024,
{
    if bits == 4 {
        assert(slots_per_word(bits) == 16) by (nonlinear_arith)
            requires
                bits == 4,
        ;
        assert(spec_words_for(bits) == 256) by (nonlinear_arith)
            requires
                slots_per_word(bits) == 16,
        ;
        256
    } else if bits == 8 {
        assert(slots_per_word(bits) == 8) by (nonlinear_arith)
            requires
                bits == 8,
        ;
        assert(spec_words_for(bits) == 512) by (nonlinear_arith)
            requires
                slots_per_word(bits) == 8,
        ;
        512
    } else {
        assert(slots_per_word(bits) == 4) by (nonlinear_arith)
            requires
                bits == 15,
        ;
        assert(spec_words_for(bits) == 1024) by (nonlinear_arith)
            requires
                slots_per_word(bits) == 4,
        ;
        1024
    }
}

proof fn lemma_slot_bounds(bits: u8, i: int)
    requires
        storage_width(bits),
        0 <= i < BLOCKS_PER_SECTION,
    ensures
        0 <= i / slots_per_word(bits) < spec_words_for(bits),
        0 <= (i % slots_per_word(bits)) * bits as int <= 64 - bits as int,
        slots_per_word(bits) > 0,
{
    if bits == 4 {
        assert(slots_per_word(bits) == 16);
    } else if bits == 8 {
        assert(slots_per_word(bits) == 8);
    } else {
        assert(slots_per_word(bits) == 4);
    }
    let per = slots_per_word(bits);
    assert(0 <= i % per < per);
    assert((i % per) * bits as int <= (per - 1) * bits as int) by (nonlinear_arith)
        requires
            0 <= i % per < per,
            bits > 0,
    ;
}

/// Reads the raw slot `index` from a packed word array of a storage width.
pub fn slot_at(packed: &[u64], bits: u8, index: usize) -> (v: u64)
    requires
        storage_width(bits),
        packed@.len() == spec_words_for(bits),
        index < BLOCKS_PER_SECTION,
    ensures
        v == packed_slot(packed@, bits, index as int),
{
    proof {
        lemma_slot_bounds(bits, index as int);
    }
    let per_word = 64 / bits as usize;
    let shift = ((index % per_word) * bits as usize) as u64;
    assert((1u64 << bits) >= 1) by (bit_vector)
        requires
            bits < 64,
    ;
    let mask = (1u64 << bits) - 1;
    (packed[index / per_word] >> shift) & mask
}

/// The raw slot `index` of a word array packed at `bits` bits per slot:
/// `64 / bits` slots per word, the remaining bits unused. `None` for a width
/// outside `1..=63` or an index past the last word.
pub fn read_packed(packed: &[u64], bits: u8, index: usize) -> (r: Option<u32>)
    ensures
        r is Some <==> 1 <= bits <= 63 && index as int / slots_per_word(bits) < packed@.len(),
        r matches Some(v) ==> v == packed_slot(packed@, bits, index as int) as u32,
{
    if bits == 0 || bits > 63 {
        return None;
    }
    let per_word = 64 / bits as usize;
    assert(per_word >= 1) by (nonlinear_arith)
        requires
            1 <= bits <= 63,
            per_word == 64int / (bits as int),
    ;
    let word = index / per_word;
    if word >= packed.len() {
        return None;
    }
    let rem = index % per_word;
    assert(rem * bits as int <= 63) by (nonlinear_arith)
        requires
            1 <= bits <= 63,
            per_word == 64int / (bits as int),
            0 <= rem < per_word,
    ;
    let shift = (rem * bits as usize) as u64;
    assert((1u64 << bits) >= 1) by (bit_vector)
        requires
            bits < 64,
    ;
    let mask = (1u64 << bits) - 1;
    Some(((packed[word] >> shift) & mask) as u32)
}

/// Rejects mode residue before the slot scan.
pub fn residue_check(s: &ContainerSnapshot) -> (ok: bool)
    ensures
        ok == residue_ok(s@),
{
    match s.kind {
        StorageKind::Single => s.bits == 0 && s.palette.len() == 0 && s.packed.len() == 0,
        StorageKind::Indexed => {
            if s.bits != 4 && s.bits != 8 {
                return false;
            }
            if s.single != 0 {
                return false;
            }
            let limit: usize = if s.bits == 4 {
                16
            } else {
                256
            };
            if s.palette.len() == 0 || s.palette.len() > limit {
                return false;
            }
            s.packed.len() == words_for(s.bits)
        },
        StorageKind::Direct => {
            if s.bits != DIRECT_BITS {
                return false;
            }
            if s.single != 0 || s.palette.len() != 0 {
                return false;
            }
            s.packed.len() == words_for(DIRECT_BITS)
        },
    }
}

fn palette_check(p: &Vec<u16>) -> (ok: bool)
    ensures
        ok == palette_ok(p@),
{
    let mut i: usize = 0;
    while i < p.len()
        invariant
            i <= p@.len(),
            forall|k: int| 0 <= k < i ==> #[trigger] block_registered(p@[k] as int),
            forall|a: int, b: int| 0 <= a < b < i ==> #[trigger] p@[a] != #[trigger] p@[b],
        decreases p@.len() - i,
    {
        if p[i] >= BLOCK_COUNT {
            assert(!block_registered(p@[i as int] as int));
            return false;
        }
        let mut j: usize = 0;
        while j < i
            invariant
                i < p@.len(),
                j <= i,
                forall|a: int| 0 <= a < j ==> #[trigger] p@[a] != p@[i as int],
            decreases i - j,
        {
            if p[j] == p[i] {
                return false;
            }
            j = j + 1;
        }
        i = i + 1;
    }
    true
}

fn indexed_slots_check(s: &ContainerSnapshot) -> (ok: bool)
    requires
        residue_ok(s@),
        s.kind == StorageKind::Indexed,
    ensures
        ok == indexed_slots_ok(s@),
{
    let mut i: usize = 0;
    while i < BLOCKS_PER_SECTION
        invariant
            residue_ok(s@),
            s.kind == StorageKind::Indexed,
            i <= BLOCKS_PER_SECTION,
            forall|k: int|
                0 <= k < i ==> (#[trigger] packed_slot(s@.packed, s@.bits, k)) < s@.palette.len(),
        decreases BLOCKS_PER_SECTION - i,
    {
        let v = slot_at(s.packed.as_slice(), s.bits, i);
        if v >= s.palette.len() as u64 {
            return false;
        }
        i = i + 1;
    }
    true
}

fn direct_slots_check(s: &ContainerSnapshot) -> (ok: bool)
    requires
        residue_ok(s@),
        s.kind == StorageKind::Direct,
    ensures
        ok == direct_slots_ok(s@),
{
    let mut w: usize = 0;
    while w < s.packed.len()
        invariant
            w <= s@.packed.len(),
            forall|k: int| 0 <= k < w ==> (#[trigger] s@.packed[k]) >> 60u64 == 0,
        decreases s@.packed.len() - w,
    {
        if s.packed[w] >> 60u64 != 0 {
            return false;
        }
        w = w + 1;
    }
    let mut i: usize = 0;
    while i < BLOCKS_PER_SECTION
        invariant
            residue_ok(s@),
            s.kind == StorageKind::Direct,
            i <= BLOCKS_PER_SECTION,
            forall|k: int|
                0 <= k < i ==> block_registered(
                    #[trigger] packed_slot(s@.packed, DIRECT_BITS, k) as int,
                ),
        decreases BLOCKS_PER_SECTION - i,
    {
        let v = slot_at(s.packed.as_slice(), DIRECT_BITS, i);
        if v >= BLOCK_COUNT as u64 {
            return false;
        }
        i = i + 1;
    }
    true
}

/// Reports whether a raw section is a loadable section (see [`section_valid`]).
pub fn section_check(s: &ContainerSnapshot) -> (ok: bool)
    ensures
        ok == section_valid(s@),
{
    if !residue_check(s) {
        return false;
    }
    match s.kind {
        StorageKind::Single => s.single < BLOCK_COUNT,
        StorageKind::Indexed => palette_check(&s.palette) && indexed_slots_check(s),
        StorageKind::Direct => direct_slots_check(s),
    }
}

/// Admits one raw section snapshot: mode residue first, then registered
/// blocks and in-range slots.
pub fn checked_section(raw: &ContainerSnapshot) -> (res: StorageResult<()>)
    ensures
        res is Ok <==> section_valid(raw@),
        res matches Err(e) ==> e is Corrupt,
{
    if !residue_check(raw) {
        return Err(corrupt("section", "storage mode carries residue or a wrong shape"));
    }
    if !section_check(raw) {
        return Err(corrupt("section", "domain section rejected the snapshot"));
    }
    Ok(())
}

/// Reads the block at a section-linear index of a valid section.
pub fn block_at(s: &ContainerSnapshot, local: usize) -> (b: u16)
    requires
        section_valid(s@),
        local < BLOCKS_PER_SECTION,
    ensures
        b == spec_block_at(s@, local as int),
{
    match s.kind {
        StorageKind::Single => s.single,
        StorageKind::Indexed => {
            let v = slot_at(s.packed.as_slice(), s.bits, local);
            assert(packed_slot(s@.packed, s@.bits, local as int) < s@.palette.len());
            s.palette[v as usize]
        },
        StorageKind::Direct => {
            let v = slot_at(s.packed.as_slice(), DIRECT_BITS, local);
            assert(block_registered(packed_slot(s@.packed, DIRECT_BITS, local as int) as int));
            v as u16
        },
    }
}

} // verus!
