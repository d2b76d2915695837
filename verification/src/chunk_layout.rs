//! The `MCGC` logical payload layout: its byte specification, the writer that
//! produces it and the reader that parses it.
use crate::bytes::{ByteWriter, bool_byte, le16, le32, le64, le8, le_bool, lei32, lemma_le_facts};
use crate::chunk::{
    ChestSlot, ChestView, Chunk, ChunkKey, ChunkView, DropSlot, FurnaceSlot, SECTIONS_PER_CHUNK,
};
use crate::items::ItemStack;
use crate::section::{ContainerSnapshot, SectionView, spec_kind_code};
use vstd::prelude::*;

verus! {

broadcast use vstd::seq::group_seq_axioms;

/// The logical payload magic `MCGC`.
pub open spec fn logical_magic() -> Seq<u8> {
    seq![0x4Du8, 0x43u8, 0x47u8, 0x43u8]
}

/// Encoding of a chunk key: dimension, x and z as two's-complement `u32`s.
pub open spec fn key_bytes(k: ChunkKey) -> Seq<u8> {
    lei32(k.dimension) + lei32(k.x) + lei32(k.z)
}

/// Palette entries, each a little-endian `u16`.
pub open spec fn palette_bytes(p: Seq<u16>) -> Seq<u8>
    decreases p.len(),
{
    if p.len() == 0 {
        Seq::empty()
    } else {
        palette_bytes(p.drop_last()) + le16(p.last())
    }
}

/// Packed words, each a little-endian `u64`.
pub open spec fn packed_bytes(p: Seq<u64>) -> Seq<u8>
    decreases p.len(),
{
    if p.len() == 0 {
        Seq::empty()
    } else {
        packed_bytes(p.drop_last()) + le64(p.last())
    }
}

/// One section record: its index, storage kind, bits, single value, then the
/// length-prefixed palette and packed words.
pub open spec fn section_bytes(index: int, s: SectionView) -> Seq<u8> {
    le32(index as u32) + le8(spec_kind_code(s.kind)) + le8(s.bits) + le16(s.single) + le32(
        s.palette.len() as u32,
    ) + palette_bytes(s.palette) + le32(s.packed.len() as u32) + packed_bytes(s.packed)
}

/// The section records of a chunk, indexed from zero.
pub open spec fn sections_bytes(ss: Seq<SectionView>) -> Seq<u8>
    decreases ss.len(),
{
    if ss.len() == 0 {
        Seq::empty()
    } else {
        sections_bytes(ss.drop_last()) + section_bytes(ss.len() - 1, ss.last())
    }
}

/// A stack without durability: item and count.
pub open spec fn stack3_bytes(s: ItemStack) -> Seq<u8> {
    le16(s.item) + le8(s.count)
}

/// A stack with durability: item, count and durability.
pub open spec fn stack5_bytes(s: ItemStack) -> Seq<u8> {
    le16(s.item) + le8(s.count) + le16(s.durability)
}

/// One drop slot; `with_durability` selects the schema-5 layout.
pub open spec fn drop_bytes(d: DropSlot, with_durability: bool) -> Seq<u8> {
    le32(d.generation) + le_bool(d.active) + le16(d.stack.item) + le8(d.stack.count) + (if with_durability {
        le16(d.stack.durability)
    } else {
        Seq::empty()
    }) + le32(d.block_index) + le32(d.age_ticks) + le8(d.pickup_delay_ticks)
}

/// The drop slots in order.
pub open spec fn drops_bytes(ds: Seq<DropSlot>, with_durability: bool) -> Seq<u8>
    decreases ds.len(),
{
    if ds.len() == 0 {
        Seq::empty()
    } else {
        drops_bytes(ds.drop_last(), with_durability) + drop_bytes(ds.last(), with_durability)
    }
}

/// One furnace slot; its stacks carry no durability.
pub open spec fn furnace_bytes(f: FurnaceSlot) -> Seq<u8> {
    le32(f.generation) + le_bool(f.active) + le32(f.block_index) + stack3_bytes(f.input)
        + stack3_bytes(f.fuel) + stack3_bytes(f.output) + le8(f.progress_ticks) + le16(
        f.burn_ticks,
    )
}

/// The furnace slots in order.
pub open spec fn furnaces_bytes(fs: Seq<FurnaceSlot>) -> Seq<u8>
    decreases fs.len(),
{
    if fs.len() == 0 {
        Seq::empty()
    } else {
        furnaces_bytes(fs.drop_last()) + furnace_bytes(fs.last())
    }
}

/// Stacks with durability, in order.
pub open spec fn stacks5_bytes(ss: Seq<ItemStack>) -> Seq<u8>
    decreases ss.len(),
{
    if ss.len() == 0 {
        Seq::empty()
    } else {
        stacks5_bytes(ss.drop_last()) + stack5_bytes(ss.last())
    }
}

/// One chest slot.
pub open spec fn chest_bytes(c: ChestView) -> Seq<u8> {
    le32(c.generation) + le_bool(c.active) + le32(c.block_index) + stacks5_bytes(c.items)
}

/// The chest slots in order.
pub open spec fn chests_bytes(cs: Seq<ChestView>) -> Seq<u8>
    decreases cs.len(),
{
    if cs.len() == 0 {
        Seq::empty()
    } else {
        chests_bytes(cs.drop_last()) + chest_bytes(cs.last())
    }
}

/// The `MCGC` header: magic, schema, key, revision and the section count.
pub open spec fn logical_header(key: ChunkKey, revision: u64, schema: u32) -> Seq<u8> {
    logical_magic() + le32(schema) + key_bytes(key) + le64(revision) + le32(
        SECTIONS_PER_CHUNK as u32,
    )
}

/// The complete `MCGC` logical payload of `c` at `schema`: sections always;
/// drops from schema 2 (with durability from 5), furnaces from 4, chests from 6.
pub open spec fn logical_bytes(key: ChunkKey, revision: u64, c: ChunkView, schema: u32) -> Seq<
    u8,
> {
    logical_header(key, revision, schema) + sections_bytes(c.sections) + (if schema >= 2 {
        drops_bytes(c.drops, schema >= 5)
    } else {
        Seq::empty()
    }) + (if schema >= 4 {
        furnaces_bytes(c.furnaces)
    } else {
        Seq::empty()
    }) + (if schema >= 6 {
        chests_bytes(c.chests)
    } else {
        Seq::empty()
    })
}

/// Length of the palette encoding.
pub proof fn lemma_palette_bytes_len(p: Seq<u16>)
    ensures
        palette_bytes(p).len() == 2 * p.len(),
    decreases p.len(),
{
    lemma_le_facts();
    if p.len() > 0 {
        lemma_palette_bytes_len(p.drop_last());
    }
}

/// Length of the packed-word encoding.
pub proof fn lemma_packed_bytes_len(p: Seq<u64>)
    ensures
        packed_bytes(p).len() == 8 * p.len(),
    decreases p.len(),
{
    lemma_le_facts();
    if p.len() > 0 {
        lemma_packed_bytes_len(p.drop_last());
    }
}

/// Length of one section record.
pub proof fn lemma_section_bytes_len(index: int, s: SectionView)
    ensures
        section_bytes(index, s).len() == 16 + 2 * s.palette.len() + 8 * s.packed.len(),
{
    lemma_le_facts();
    lemma_palette_bytes_len(s.palette);
    lemma_packed_bytes_len(s.packed);
}

/// Length of one drop slot.
pub proof fn lemma_drop_bytes_len(d: DropSlot, wd: bool)
    ensures
        drop_bytes(d, wd).len() == if wd {
            19int
        } else {
            17int
        },
{
    lemma_le_facts();
}

/// Length of the drop slots.
pub proof fn lemma_drops_bytes_len(ds: Seq<DropSlot>, wd: bool)
    ensures
        drops_bytes(ds, wd).len() == ds.len() * (if wd {
            19int
        } else {
            17int
        }),
    decreases ds.len(),
{
    if ds.len() > 0 {
        lemma_drops_bytes_len(ds.drop_last(), wd);
        lemma_drop_bytes_len(ds.last(), wd);
    }
}

/// Length of the furnace slots.
pub proof fn lemma_furnaces_bytes_len(fs: Seq<FurnaceSlot>)
    ensures
        furnaces_bytes(fs).len() == fs.len() * 21,
    decreases fs.len(),
{
    lemma_le_facts();
    if fs.len() > 0 {
        lemma_furnaces_bytes_len(fs.drop_last());
    }
}

/// Length of stacks with durability.
pub proof fn lemma_stacks5_bytes_len(ss: Seq<ItemStack>)
    ensures
        stacks5_bytes(ss).len() == ss.len() * 5,
    decreases ss.len(),
{
    lemma_le_facts();
    if ss.len() > 0 {
        lemma_stacks5_bytes_len(ss.drop_last());
    }
}

/// Length of the chest slots, each holding twenty-seven stacks.
pub proof fn lemma_chests_bytes_len(cs: Seq<ChestView>)
    requires
        forall|i: int| 0 <= i < cs.len() ==> (#[trigger] cs[i]).items.len() == 27,
    ensures
        chests_bytes(cs).len() == cs.len() * 144,
    decreases cs.len(),
{
    lemma_le_facts();
    if cs.len() > 0 {
        lemma_chests_bytes_len(cs.drop_last());
        lemma_stacks5_bytes_len(cs.last().items);
    }
}

fn append_section(dst: &mut ByteWriter, index: u32, s: &ContainerSnapshot)
    ensures
        final(dst)@ == old(dst)@ + section_bytes(index as int, s@),
{
    dst.u32(index);
    dst.u8(s.kind.code());
    dst.u8(s.bits);
    dst.u16(s.single);
    dst.u32(s.palette.len() as u32);
    let ghost mid = dst@;
    let mut i: usize = 0;
    while i < s.palette.len()
        invariant
            i <= s@.palette.len(),
            dst@ == mid + palette_bytes(s@.palette.take(i as int)),
        decreases s@.palette.len() - i,
    {
        assert(s@.palette.take(i + 1).drop_last() =~= s@.palette.take(i as int));
        dst.u16(s.palette[i]);
        i = i + 1;
    }
    assert(s@.palette.take(s@.palette.len() as int) =~= s@.palette);
    dst.u32(s.packed.len() as u32);
    let ghost mid2 = dst@;
    let mut j: usize = 0;
    while j < s.packed.len()
        invariant
            j <= s@.packed.len(),
            dst@ == mid2 + packed_bytes(s@.packed.take(j as int)),
        decreases s@.packed.len() - j,
    {
        assert(s@.packed.take(j + 1).drop_last() =~= s@.packed.take(j as int));
        dst.u64(s.packed[j]);
        j = j + 1;
    }
    assert(s@.packed.take(s@.packed.len() as int) =~= s@.packed);
    assert(dst@ =~= old(dst)@ + section_bytes(index as int, s@));
}

fn append_drop_slot(dst: &mut ByteWriter, d: &DropSlot, with_durability: bool)
    ensures
        final(dst)@ == old(dst)@ + drop_bytes(*d, with_durability),
{
    dst.u32(d.generation);
    dst.u8(if d.active {
        1
    } else {
        0
    });
    dst.u16(d.stack.item);
    dst.u8(d.stack.count);
    let ghost mid = dst@;
    if with_durability {
        dst.u16(d.stack.durability);
    }
    assert(dst@ =~= mid + (if with_durability {
        le16(d.stack.durability)
    } else {
        Seq::empty()
    }));
    dst.u32(d.block_index);
    dst.u32(d.age_ticks);
    dst.u8(d.pickup_delay_ticks);
    assert(dst@ =~= old(dst)@ + drop_bytes(*d, with_durability));
}

fn append_furnace_slot(dst: &mut ByteWriter, f: &FurnaceSlot)
    ensures
        final(dst)@ == old(dst)@ + furnace_bytes(*f),
{
    dst.u32(f.generation);
    dst.u8(if f.active {
        1
    } else {
        0
    });
    dst.u32(f.block_index);
    dst.u16(f.input.item);
    dst.u8(f.input.count);
    dst.u16(f.fuel.item);
    dst.u8(f.fuel.count);
    dst.u16(f.output.item);
    dst.u8(f.output.count);
    dst.u8(f.progress_ticks);
    dst.u16(f.burn_ticks);
    assert(dst@ =~= old(dst)@ + furnace_bytes(*f));
}

fn append_chest_slot(dst: &mut ByteWriter, c: &ChestSlot)
    ensures
        final(dst)@ == old(dst)@ + chest_bytes(c@),
{
    dst.u32(c.generation);
    dst.u8(if c.active {
        1
    } else {
        0
    });
    dst.u32(c.block_index);
    let ghost mid = dst@;
    let mut i: usize = 0;
    while i < 27
        invariant
            i <= 27,
            c.items@.len() == 27,
            dst@ == mid + stacks5_bytes(c.items@.take(i as int)),
        decreases 27 - i,
    {
        assert(c.items@.take(i + 1).drop_last() =~= c.items@.take(i as int));
        let s = c.items[i];
        dst.u16(s.item);
        dst.u8(s.count);
        dst.u16(s.durability);
        assert(dst@ =~= mid + stacks5_bytes(c.items@.take(i + 1)));
        i = i + 1;
    }
    assert(c.items@.take(27) =~= c.items@);
    assert(dst@ =~= old(dst)@ + chest_bytes(c@));
}

fn write_header(dst: &mut ByteWriter, key: ChunkKey, revision: u64, schema: u32)
    ensures
        final(dst)@ == old(dst)@ + logical_header(key, revision, schema),
{
    dst.u8(0x4D);
    dst.u8(0x43);
    dst.u8(0x47);
    dst.u8(0x43);
    dst.u32(schema);
    dst.u32(key.dimension as u32);
    dst.u32(key.x as u32);
    dst.u32(key.z as u32);
    dst.u64(revision);
    dst.u32(SECTIONS_PER_CHUNK as u32);
    assert(dst@ =~= old(dst)@ + logical_header(key, revision, schema));
}

fn write_sections(dst: &mut ByteWriter, sections: &Vec<ContainerSnapshot>)
    ensures
        final(dst)@ == old(dst)@ + sections_bytes(sections@.map_values(|s: ContainerSnapshot| s@)),
{
    let ghost start = dst@;
    let ghost ss = sections@.map_values(|s: ContainerSnapshot| s@);
    let mut i: usize = 0;
    while i < sections.len()
        invariant
            i <= sections@.len(),
            ss == sections@.map_values(|s: ContainerSnapshot| s@),
            dst@ == start + sections_bytes(ss.take(i as int)),
        decreases sections@.len() - i,
    {
        assert(ss.take(i + 1).drop_last() =~= ss.take(i as int));
        assert(ss.take(i + 1).last() == sections@[i as int]@);
        append_section(dst, i as u32, &sections[i]);
        i = i + 1;
    }
    assert(ss.take(ss.len() as int) =~= ss);
}

fn write_drops(dst: &mut ByteWriter, drops: &Vec<DropSlot>, with_durability: bool)
    ensures
        final(dst)@ == old(dst)@ + drops_bytes(drops@, with_durability),
{
    let ghost start = dst@;
    let mut i: usize = 0;
    while i < drops.len()
        invariant
            i <= drops@.len(),
            dst@ == start + drops_bytes(drops@.take(i as int), with_durability),
        decreases drops@.len() - i,
    {
        assert(drops@.take(i + 1).drop_last() =~= drops@.take(i as int));
        append_drop_slot(dst, &drops[i], with_durability);
        i = i + 1;
    }
    assert(drops@.take(drops@.len() as int) =~= drops@);
}

fn write_furnaces(dst: &mut ByteWriter, furnaces: &Vec<FurnaceSlot>)
    ensures
        final(dst)@ == old(dst)@ + furnaces_bytes(furnaces@),
{
    let ghost start = dst@;
    let mut i: usize = 0;
    while i < furnaces.len()
        invariant
            i <= furnaces@.len(),
            dst@ == start + furnaces_bytes(furnaces@.take(i as int)),
        decreases furnaces@.len() - i,
    {
        assert(furnaces@.take(i + 1).drop_last() =~= furnaces@.take(i as int));
        append_furnace_slot(dst, &furnaces[i]);
        i = i + 1;
    }
    assert(furnaces@.take(furnaces@.len() as int) =~= furnaces@);
}

fn write_chests(dst: &mut ByteWriter, chests: &Vec<ChestSlot>)
    ensures
        final(dst)@ == old(dst)@ + chests_bytes(chests@.map_values(|c: ChestSlot| c@)),
{
    let ghost start = dst@;
    let ghost cs = chests@.map_values(|c: ChestSlot| c@);
    let mut i: usize = 0;
    while i < chests.len()
        invariant
            i <= chests@.len(),
            cs == chests@.map_values(|c: ChestSlot| c@),
            dst@ == start + chests_bytes(cs.take(i as int)),
        decreases chests@.len() - i,
    {
        assert(cs.take(i + 1).drop_last() =~= cs.take(i as int));
        assert(cs.take(i + 1).last() == chests@[i as int]@);
        append_chest_slot(dst, &chests[i]);
        i = i + 1;
    }
    assert(cs.take(cs.len() as int) =~= cs);
}

/// Writes the logical payload of `chunk` at `schema` (no admission checks).
pub fn write_logical_payload(
    dst: &mut ByteWriter,
    key: ChunkKey,
    revision: u64,
    chunk: &Chunk,
    schema: u32,
)
    ensures
        final(dst)@ == old(dst)@ + logical_bytes(key, revision, chunk@, schema),
{
    let ghost start = dst@;
    write_header(dst, key, revision, schema);
    write_sections(dst, &chunk.sections);
    let ghost a = dst@;
    if schema >= 2 {
        write_drops(dst, &chunk.drops, schema >= 5);
    }
    let ghost b = dst@;
    assert(b == a + (if schema >= 2 {
        drops_bytes(chunk@.drops, schema >= 5)
    } else {
        Seq::empty()
    }));
    if schema >= 4 {
        write_furnaces(dst, &chunk.furnaces);
    }
    let ghost c = dst@;
    assert(c == b + (if schema >= 4 {
        furnaces_bytes(chunk@.furnaces)
    } else {
        Seq::empty()
    }));
    if schema >= 6 {
        write_chests(dst, &chunk.chests);
    }
    assert(dst@ == c + (if schema >= 6 {
        chests_bytes(chunk@.chests)
    } else {
        Seq::empty()
    }));
    assert(dst@ =~= start + logical_bytes(key, revision, chunk@, schema));
}

} // verus!
