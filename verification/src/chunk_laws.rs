//! Laws of the chunk codec: what the reader gives back of what the writer wrote.
//!
//! The central law is that a logical payload written at any supported schema
//! parses back to the chunk it was written from, and that migrating it to the
//! current schema gives that same chunk again: every supported version
//! converges on one normalized result.
use crate::bytes::{le16, le32, le64, le8, le_bool, lei32, lemma_le_facts, lemma_le_rereads, u16_at, u32_at, u64_at};
use crate::chunk::{
    CHEST_SLOTS, CHESTS_PER_CHUNK, CURRENT_SCHEMA, ChestView, ChunkKey, ChunkView, DEPTHS,
    DROPS_PER_CHUNK, DropSlot, FURNACES_PER_CHUNK, FurnaceSlot, OVERWORLD, SECTIONS_PER_CHUNK,
    chest_with_generation, default_drop, furnace_with_generation, schema_supported,
};
use crate::chunk_layout::{
    logical_magic, stack3_bytes, chest_bytes, chests_bytes, drop_bytes, drops_bytes, furnace_bytes, furnaces_bytes,
    lemma_chests_bytes_len, lemma_furnaces_bytes_len, lemma_stacks5_bytes_len, stacks5_bytes, lemma_drops_bytes_len, lemma_packed_bytes_len,
    lemma_palette_bytes_len, lemma_section_bytes_len, packed_bytes, palette_bytes, section_bytes,
    logical_bytes, logical_header, sections_bytes,
};
use crate::chunk::{
    COMPRESSION_ZSTD, ChunkSave, ENVELOPE_VERSION, MAX_DECODED_CHUNK, content_decodes_to,
    envelope_bytes, envelope_header_ok, envelope_key, envelope_magic, identity_matches,
    is_envelope_of, save_admitted, spec_logical_len, chunk_frame, envelope_readable, frame_content,
};
use crate::chunk_migrate::{
    default_chests, default_drops, default_furnaces, filled_drops, spec_fill_full_durability,
    spec_migrate, spec_migrate_v4_drops, split_all, splits,
};
use crate::chunk_parse::{
    chest_at, furnace_at, parse_chest, parse_chests, parse_furnace, parse_furnaces, stack5_at,
    drop_at, logical_header_ok, parse_chest_part, parse_drop_part, parse_furnace_part,
    parse_logical, drop_len, parse_drop, parse_drops, parse_section, parse_sections};
use crate::chunk_rules::{
    chest_admitted, chest_valid, chunk_admitted, drop_admitted, drop_slot_ok, furnace_admitted,
    furnace_valid, legacy_drop_slot_ok,
};
use crate::player::lemma_stacks5_read;
use crate::section::{
    MAX_PACKED_WORDS, MAX_PALETTE_ENTRIES, SectionView, section_valid, slots_per_word, StorageKind, spec_kind_code, spec_kind_of,
};
use vstd::prelude::*;

verus! {

broadcast use vstd::seq::group_seq_axioms;

/// Reading palette entries back from their bytes gives the entries.
proof fn lemma_palette_read(d: Seq<u8>, pos: int, p: Seq<u16>)
    requires
        0 <= pos,
        pos + 2 * p.len() <= d.len(),
        d.subrange(pos, pos + 2 * p.len()) == palette_bytes(p),
    ensures
        forall|k: int| 0 <= k < p.len() ==> #[trigger] u16_at(d, pos + 2 * k) == p[k],
    decreases p.len(),
{
    lemma_le_facts();
    if p.len() > 0 {
        let n = p.len() as int;
        let init = p.drop_last();
        lemma_palette_bytes_len(init);
        let b = palette_bytes(p);
        assert(d.subrange(pos, pos + 2 * (n - 1)) =~= b.subrange(0, 2 * (n - 1)));
        assert(b.subrange(0, 2 * (n - 1)) =~= palette_bytes(init));
        lemma_palette_read(d, pos, init);
        let q = pos + 2 * (n - 1);
        assert(d.subrange(q, q + 2) =~= b.subrange(2 * (n - 1), 2 * n));
        assert(b.subrange(2 * (n - 1), 2 * n) =~= le16(p.last()));
        assert forall|k: int| 0 <= k < p.len() implies #[trigger] u16_at(d, pos + 2 * k)
            == p[k] by {
            if k < n - 1 {
                assert(u16_at(d, pos + 2 * k) == init[k]);
            }
        }
    }
}

/// Reading packed words back from their bytes gives the words.
proof fn lemma_packed_read(d: Seq<u8>, pos: int, p: Seq<u64>)
    requires
        0 <= pos,
        pos + 8 * p.len() <= d.len(),
        d.subrange(pos, pos + 8 * p.len()) == packed_bytes(p),
    ensures
        forall|k: int| 0 <= k < p.len() ==> #[trigger] u64_at(d, pos + 8 * k) == p[k],
    decreases p.len(),
{
    lemma_le_facts();
    if p.len() > 0 {
        let n = p.len() as int;
        let init = p.drop_last();
        lemma_packed_bytes_len(init);
        let b = packed_bytes(p);
        assert(d.subrange(pos, pos + 8 * (n - 1)) =~= b.subrange(0, 8 * (n - 1)));
        assert(b.subrange(0, 8 * (n - 1)) =~= packed_bytes(init));
        lemma_packed_read(d, pos, init);
        let q = pos + 8 * (n - 1);
        assert(d.subrange(q, q + 8) =~= b.subrange(8 * (n - 1), 8 * n));
        assert(b.subrange(8 * (n - 1), 8 * n) =~= le64(p.last()));
        assert forall|k: int| 0 <= k < p.len() implies #[trigger] u64_at(d, pos + 8 * k)
            == p[k] by {
            if k < n - 1 {
                assert(u64_at(d, pos + 8 * k) == init[k]);
            }
        }
    }
}

/// A section record whose palette and word array fit their ceilings.
pub open spec fn section_bounded(s: SectionView) -> bool {
    s.palette.len() <= MAX_PALETTE_ENTRIES && s.packed.len() <= MAX_PACKED_WORDS
}

/// Reading one section record back from its bytes gives the section.
#[verifier::rlimit(50)]
#[verifier::spinoff_prover]
proof fn lemma_section_read(d: Seq<u8>, pos: int, index: int, s: SectionView)
    requires
        0 <= pos,
        0 <= index <= u32::MAX,
        section_bounded(s),
        pos + section_bytes(index, s).len() <= d.len(),
        d.subrange(pos, pos + section_bytes(index, s).len()) == section_bytes(index, s),
    ensures
        parse_section(d, pos, index) == Some((s, pos + section_bytes(index, s).len())),
{
    lemma_le_facts();
    lemma_section_bytes_len(index, s);
    lemma_palette_bytes_len(s.palette);
    lemma_packed_bytes_len(s.packed);
    let b = section_bytes(index, s);
    let plen = s.palette.len() as int;
    let qlen = s.packed.len() as int;
    let p = pos + 4;
    let q = p + 8 + 2 * plen;
    assert(d.subrange(pos, pos + 4) =~= b.subrange(0, 4));
    assert(b.subrange(0, 4) =~= le32(index as u32));
    assert(d[p] == b[4]);
    assert(b[4] == spec_kind_code(s.kind));
    assert(d[p + 1] == b[5]);
    assert(d.subrange(p + 2, p + 4) =~= b.subrange(6, 8));
    assert(b.subrange(6, 8) =~= le16(s.single));
    assert(d.subrange(p + 4, p + 8) =~= b.subrange(8, 12));
    assert(b.subrange(8, 12) =~= le32(plen as u32));
    assert(d.subrange(p + 8, q) =~= b.subrange(12, 12 + 2 * plen));
    assert(b.subrange(12, 12 + 2 * plen) =~= palette_bytes(s.palette));
    lemma_palette_read(d, p + 8, s.palette);
    assert(d.subrange(q, q + 4) =~= b.subrange(12 + 2 * plen, 16 + 2 * plen));
    assert(b.subrange(12 + 2 * plen, 16 + 2 * plen) =~= le32(qlen as u32));
    assert(d.subrange(q + 4, q + 4 + 8 * qlen) =~= b.subrange(16 + 2 * plen, b.len() as int));
    assert(b.subrange(16 + 2 * plen, b.len() as int) =~= packed_bytes(s.packed));
    lemma_packed_read(d, q + 4, s.packed);
    assert(spec_kind_of(spec_kind_code(s.kind)) == Some(s.kind));
    assert(Seq::new(plen as nat, |i: int| u16_at(d, p + 8 + 2 * i)) =~= s.palette);
    assert(Seq::new(qlen as nat, |i: int| u64_at(d, q + 4 + 8 * i)) =~= s.packed);
}

/// Reading section records back from their bytes gives the sections.
proof fn lemma_sections_read(d: Seq<u8>, pos: int, ss: Seq<SectionView>)
    requires
        0 <= pos,
        ss.len() <= u32::MAX,
        forall|i: int| 0 <= i < ss.len() ==> #[trigger] section_bounded(ss[i]),
        pos + sections_bytes(ss).len() <= d.len(),
        d.subrange(pos, pos + sections_bytes(ss).len()) == sections_bytes(ss),
    ensures
        parse_sections(d, pos, ss.len()) == Some((ss, pos + sections_bytes(ss).len())),
    decreases ss.len(),
{
    if ss.len() > 0 {
        let n = ss.len() as int;
        let init = ss.drop_last();
        let b = sections_bytes(ss);
        let a = sections_bytes(init);
        let last = section_bytes(n - 1, ss.last());
        assert(b == a + last);
        assert(d.subrange(pos, pos + a.len()) =~= b.subrange(0, a.len() as int));
        assert(b.subrange(0, a.len() as int) =~= a);
        assert forall|i: int| 0 <= i < init.len() implies #[trigger] section_bounded(init[i]) by {
            assert(init[i] == ss[i]);
        }
        lemma_sections_read(d, pos, init);
        let e = pos + a.len();
        assert(d.subrange(e, e + last.len()) =~= b.subrange(a.len() as int, b.len() as int));
        assert(b.subrange(a.len() as int, b.len() as int) =~= last);
        assert(section_bounded(ss[n - 1]));
        lemma_section_read(d, e, n - 1, ss.last());
        assert(init.push(ss.last()) =~= ss);
    } else {
        assert(ss =~= Seq::<SectionView>::empty());
    }
}

/// Reading one drop slot back from its bytes gives the slot; the layout
/// without durability keeps only a zero durability.
proof fn lemma_drop_read(d: Seq<u8>, pos: int, x: DropSlot, wd: bool)
    requires
        0 <= pos,
        !wd ==> x.stack.durability == 0,
        pos + drop_len(wd) <= d.len(),
        d.subrange(pos, pos + drop_len(wd)) == drop_bytes(x, wd),
    ensures
        d[pos + 4] <= 1,
        drop_at(d, pos, wd) == x,
{
    lemma_le_facts();
    let b = drop_bytes(x, wd);
    let o: int = if wd {
        2
    } else {
        0
    };
    assert(d.subrange(pos, pos + 4) =~= b.subrange(0, 4));
    assert(b.subrange(0, 4) =~= le32(x.generation));
    assert(d[pos + 4] == b[4]);
    assert(d.subrange(pos + 5, pos + 7) =~= b.subrange(5, 7));
    assert(b.subrange(5, 7) =~= le16(x.stack.item));
    assert(d[pos + 7] == b[7]);
    if wd {
        assert(d.subrange(pos + 8, pos + 10) =~= b.subrange(8, 10));
        assert(b.subrange(8, 10) =~= le16(x.stack.durability));
    }
    assert(d.subrange(pos + 8 + o, pos + 12 + o) =~= b.subrange(8 + o, 12 + o));
    assert(b.subrange(8 + o, 12 + o) =~= le32(x.block_index));
    assert(d.subrange(pos + 12 + o, pos + 16 + o) =~= b.subrange(12 + o, 16 + o));
    assert(b.subrange(12 + o, 16 + o) =~= le32(x.age_ticks));
    assert(d[pos + 16 + o] == b[16 + o]);
}

/// The slot rule the reader applies to a drop in one layout.
pub open spec fn drop_read_ok(x: DropSlot, wd: bool) -> bool {
    &&& if wd {
        drop_slot_ok(x)
    } else {
        legacy_drop_slot_ok(x)
    }
    &&& (!wd ==> x.stack.durability == 0)
}

/// Reading drop slots back from their bytes gives the slots.
proof fn lemma_drops_read(d: Seq<u8>, pos: int, ds: Seq<DropSlot>, wd: bool)
    requires
        0 <= pos,
        forall|i: int| 0 <= i < ds.len() ==> #[trigger] drop_read_ok(ds[i], wd),
        pos + drops_bytes(ds, wd).len() <= d.len(),
        d.subrange(pos, pos + drops_bytes(ds, wd).len()) == drops_bytes(ds, wd),
    ensures
        parse_drops(d, pos, ds.len(), wd) == Some(ds),
    decreases ds.len(),
{
    lemma_drops_bytes_len(ds, wd);
    if ds.len() > 0 {
        let n = ds.len() as int;
        let init = ds.drop_last();
        let b = drops_bytes(ds, wd);
        let a = drops_bytes(init, wd);
        lemma_drops_bytes_len(init, wd);
        let last = drop_bytes(ds.last(), wd);
        crate::chunk_layout::lemma_drop_bytes_len(ds.last(), wd);
        assert(b == a + last);
        assert(d.subrange(pos, pos + a.len()) =~= b.subrange(0, a.len() as int));
        assert(b.subrange(0, a.len() as int) =~= a);
        assert forall|i: int| 0 <= i < init.len() implies #[trigger] drop_read_ok(init[i], wd) by {
            assert(init[i] == ds[i]);
        }
        lemma_drops_read(d, pos, init, wd);
        let e = pos + (n - 1) * drop_len(wd);
        assert(e == pos + a.len());
        assert(d.subrange(e, e + drop_len(wd)) =~= b.subrange(a.len() as int, b.len() as int));
        assert(b.subrange(a.len() as int, b.len() as int) =~= last);
        assert(drop_read_ok(ds[n - 1], wd));
        lemma_drop_read(d, e, ds.last(), wd);
        assert(parse_drop(d, e, wd) == Some(ds.last()));
        assert(init.push(ds.last()) =~= ds);
    } else {
        assert(ds =~= Seq::<DropSlot>::empty());
    }
}

/// Reading one furnace slot back from its bytes gives the slot.
proof fn lemma_furnace_read(d: Seq<u8>, pos: int, f: FurnaceSlot)
    requires
        0 <= pos,
        furnace_valid(f),
        pos + 21 <= d.len(),
        d.subrange(pos, pos + 21) == furnace_bytes(f),
    ensures
        d[pos + 4] <= 1,
        furnace_at(d, pos) == f,
{
    lemma_le_facts();
    let b = furnace_bytes(f);
    assert(d.subrange(pos, pos + 4) =~= b.subrange(0, 4));
    assert(b.subrange(0, 4) =~= le32(f.generation));
    assert(d[pos + 4] == b[4]);
    assert(d.subrange(pos + 5, pos + 9) =~= b.subrange(5, 9));
    assert(b.subrange(5, 9) =~= le32(f.block_index));
    assert(d.subrange(pos + 9, pos + 11) =~= b.subrange(9, 11));
    assert(b.subrange(9, 11) =~= le16(f.input.item));
    assert(d[pos + 11] == b[11]);
    assert(d.subrange(pos + 12, pos + 14) =~= b.subrange(12, 14));
    assert(b.subrange(12, 14) =~= le16(f.fuel.item));
    assert(d[pos + 14] == b[14]);
    assert(d.subrange(pos + 15, pos + 17) =~= b.subrange(15, 17));
    assert(b.subrange(15, 17) =~= le16(f.output.item));
    assert(d[pos + 17] == b[17]);
    assert(d[pos + 18] == b[18]);
    assert(d.subrange(pos + 19, pos + 21) =~= b.subrange(19, 21));
    assert(b.subrange(19, 21) =~= le16(f.burn_ticks));
    assert(f.input.durability == 0 && f.fuel.durability == 0 && f.output.durability == 0);
}

/// Reading furnace slots back from their bytes gives the slots.
proof fn lemma_furnaces_read(d: Seq<u8>, pos: int, fs: Seq<FurnaceSlot>)
    requires
        0 <= pos,
        forall|i: int| 0 <= i < fs.len() ==> #[trigger] furnace_valid(fs[i]),
        pos + furnaces_bytes(fs).len() <= d.len(),
        d.subrange(pos, pos + furnaces_bytes(fs).len()) == furnaces_bytes(fs),
    ensures
        parse_furnaces(d, pos, fs.len()) == Some(fs),
    decreases fs.len(),
{
    lemma_furnaces_bytes_len(fs);
    if fs.len() > 0 {
        let n = fs.len() as int;
        let init = fs.drop_last();
        let b = furnaces_bytes(fs);
        let a = furnaces_bytes(init);
        lemma_furnaces_bytes_len(init);
        let last = furnace_bytes(fs.last());
        assert(b == a + last);
        assert(last.len() == 21) by {
            lemma_le_facts();
        }
        assert(d.subrange(pos, pos + a.len()) =~= b.subrange(0, a.len() as int));
        assert(b.subrange(0, a.len() as int) =~= a);
        assert forall|i: int| 0 <= i < init.len() implies #[trigger] furnace_valid(init[i]) by {
            assert(init[i] == fs[i]);
        }
        lemma_furnaces_read(d, pos, init);
        let e = pos + (n - 1) * 21;
        assert(d.subrange(e, e + 21) =~= b.subrange(a.len() as int, b.len() as int));
        assert(b.subrange(a.len() as int, b.len() as int) =~= last);
        assert(furnace_valid(fs[n - 1]));
        lemma_furnace_read(d, e, fs.last());
        assert(parse_furnace(d, e) == Some(fs.last()));
        assert(init.push(fs.last()) =~= fs);
    } else {
        assert(fs =~= Seq::<FurnaceSlot>::empty());
    }
}

/// Reading one chest slot back from its bytes gives the slot.
proof fn lemma_chest_read(d: Seq<u8>, pos: int, c: ChestView)
    requires
        0 <= pos,
        c.items.len() == CHEST_SLOTS,
        pos + 144 <= d.len(),
        d.subrange(pos, pos + 144) == chest_bytes(c),
    ensures
        d[pos + 4] <= 1,
        chest_at(d, pos) == c,
{
    lemma_le_facts();
    lemma_stacks5_bytes_len(c.items);
    let b = chest_bytes(c);
    assert(d.subrange(pos, pos + 4) =~= b.subrange(0, 4));
    assert(b.subrange(0, 4) =~= le32(c.generation));
    assert(d[pos + 4] == b[4]);
    assert(d.subrange(pos + 5, pos + 9) =~= b.subrange(5, 9));
    assert(b.subrange(5, 9) =~= le32(c.block_index));
    assert(d.subrange(pos + 9, pos + 144) =~= b.subrange(9, 144));
    assert(b.subrange(9, 144) =~= stacks5_bytes(c.items));
    lemma_stacks5_read(d, pos + 9, c.items);
    assert(Seq::new(CHEST_SLOTS as nat, |k: int| stack5_at(d, pos + 9 + 5 * k)) =~= c.items);
}

/// Reading chest slots back from their bytes gives the slots.
proof fn lemma_chests_read(d: Seq<u8>, pos: int, cs: Seq<ChestView>)
    requires
        0 <= pos,
        forall|i: int| 0 <= i < cs.len() ==> #[trigger] chest_valid(cs[i]),
        forall|i: int| 0 <= i < cs.len() ==> (#[trigger] cs[i]).items.len() == CHEST_SLOTS,
        pos + chests_bytes(cs).len() <= d.len(),
        d.subrange(pos, pos + chests_bytes(cs).len()) == chests_bytes(cs),
    ensures
        parse_chests(d, pos, cs.len()) == Some(cs),
    decreases cs.len(),
{
    lemma_chests_bytes_len(cs);
    if cs.len() > 0 {
        let n = cs.len() as int;
        let init = cs.drop_last();
        let b = chests_bytes(cs);
        let a = chests_bytes(init);
        assert forall|i: int| 0 <= i < init.len() implies (#[trigger] init[i]).items.len()
            == CHEST_SLOTS && chest_valid(init[i]) by {
            assert(init[i] == cs[i]);
        }
        lemma_chests_bytes_len(init);
        let last = chest_bytes(cs.last());
        assert(b == a + last);
        assert(cs[n - 1].items.len() == CHEST_SLOTS);
        assert(last.len() == 144) by {
            lemma_le_facts();
            lemma_stacks5_bytes_len(cs.last().items);
        }
        assert(d.subrange(pos, pos + a.len()) =~= b.subrange(0, a.len() as int));
        assert(b.subrange(0, a.len() as int) =~= a);
        lemma_chests_read(d, pos, init);
        let e = pos + (n - 1) * 144;
        assert(d.subrange(e, e + 144) =~= b.subrange(a.len() as int, b.len() as int));
        assert(b.subrange(a.len() as int, b.len() as int) =~= last);
        assert(chest_valid(cs[n - 1]));
        lemma_chest_read(d, e, cs.last());
        assert(parse_chest(d, e) == Some(cs.last()));
        assert(init.push(cs.last()) =~= cs);
    } else {
        assert(cs =~= Seq::<ChestView>::empty());
    }
}

/// A loadable section fits the reader's palette and word ceilings.
proof fn lemma_valid_section_bounded(s: SectionView)
    requires
        section_valid(s),
    ensures
        section_bounded(s),
{
    assert(slots_per_word(4) == 16);
    assert(slots_per_word(8) == 8);
    assert(slots_per_word(15) == 4);
    assert((4096int + 16 - 1) / 16 == 256) by (nonlinear_arith);
    assert((4096int + 8 - 1) / 8 == 512) by (nonlinear_arith);
    assert((4096int + 4 - 1) / 4 == 1024) by (nonlinear_arith);
}

/// The logical header names the identity and schema it was written with.
proof fn lemma_header_read(key: ChunkKey, revision: u64, schema: u32, d: Seq<u8>)
    requires
        key.dimension == OVERWORLD || key.dimension == DEPTHS,
        d.len() >= 32,
        d.take(32) == logical_header(key, revision, schema),
    ensures
        logical_header_ok(key, revision, schema, d),
{
    lemma_le_facts();
    let h = logical_header(key, revision, schema);
    assert(h.len() == 32);
    assert(d[0] == h[0] && d[1] == h[1] && d[2] == h[2] && d[3] == h[3]);
    assert(d.subrange(4, 8) =~= h.subrange(4, 8));
    assert(h.subrange(4, 8) =~= le32(schema));
    assert(d.subrange(8, 12) =~= h.subrange(8, 12));
    assert(h.subrange(8, 12) =~= lei32(key.dimension));
    assert(d.subrange(12, 16) =~= h.subrange(12, 16));
    assert(h.subrange(12, 16) =~= lei32(key.x));
    assert(d.subrange(16, 20) =~= h.subrange(16, 20));
    assert(h.subrange(16, 20) =~= lei32(key.z));
    assert(d.subrange(20, 28) =~= h.subrange(20, 28));
    assert(h.subrange(20, 28) =~= le64(revision));
    assert(d.subrange(28, 32) =~= h.subrange(28, 32));
    assert(h.subrange(28, 32) =~= le32(SECTIONS_PER_CHUNK as u32));
}

/// The drop bytes a payload at `schema` carries for an admitted chunk.
pub open spec fn drop_part_bytes(c: ChunkView, schema: u32) -> Seq<u8> {
    if schema >= 2 {
        drops_bytes(c.drops, schema >= 5)
    } else {
        Seq::empty()
    }
}

/// The furnace bytes a payload at `schema` carries.
pub open spec fn furnace_part_bytes(c: ChunkView, schema: u32) -> Seq<u8> {
    if schema >= 4 {
        furnaces_bytes(c.furnaces)
    } else {
        Seq::empty()
    }
}

/// The chest bytes a payload at `schema` carries.
pub open spec fn chest_part_bytes(c: ChunkView, schema: u32) -> Seq<u8> {
    if schema >= 6 {
        chests_bytes(c.chests)
    } else {
        Seq::empty()
    }
}

proof fn lemma_drop_part_read(d: Seq<u8>, pos: int, c: ChunkView, value_schema: u32, schema: u32)
    requires
        0 <= pos,
        value_schema == schema || value_schema == CURRENT_SCHEMA,
        chunk_admitted(c, value_schema, schema),
        pos + drop_part_bytes(c, schema).len() <= d.len(),
        d.subrange(pos, pos + drop_part_bytes(c, schema).len()) == drop_part_bytes(c, schema),
    ensures
        parse_drop_part(d, pos, schema) == Some((c.drops, pos + drop_part_bytes(c, schema).len())),
{
    let wd = schema >= 5;
    lemma_drops_bytes_len(c.drops, wd);
    if schema >= 2 {
        assert forall|i: int| 0 <= i < c.drops.len() implies #[trigger] drop_read_ok(
            c.drops[i],
            wd,
        ) by {
            assert(drop_admitted(c.drops[i], value_schema, schema));
        }
        lemma_drops_read(d, pos, c.drops, wd);
    } else {
        assert forall|i: int| 0 <= i < c.drops.len() implies #[trigger] c.drops[i]
            == default_drop() by {
            assert(drop_admitted(c.drops[i], value_schema, schema));
        }
        assert(Seq::new(DROPS_PER_CHUNK as nat, |i: int| default_drop()) =~= c.drops);
    }
}

proof fn lemma_furnace_part_read(d: Seq<u8>, pos: int, c: ChunkView, value_schema: u32, schema: u32)
    requires
        0 <= pos,
        chunk_admitted(c, value_schema, schema),
        pos + furnace_part_bytes(c, schema).len() <= d.len(),
        d.subrange(pos, pos + furnace_part_bytes(c, schema).len()) == furnace_part_bytes(c, schema),
    ensures
        parse_furnace_part(d, pos, schema) == Some(
            (c.furnaces, pos + furnace_part_bytes(c, schema).len()),
        ),
{
    lemma_furnaces_bytes_len(c.furnaces);
    assert forall|i: int| 0 <= i < c.furnaces.len() implies #[trigger] furnace_valid(
        c.furnaces[i],
    ) by {
        assert(furnace_admitted(c, c.furnaces[i], schema));
    }
    if schema >= 4 {
        lemma_furnaces_read(d, pos, c.furnaces);
    } else {
        assert forall|i: int| 0 <= i < c.furnaces.len() implies #[trigger] c.furnaces[i]
            == furnace_with_generation(0) by {
            assert(furnace_admitted(c, c.furnaces[i], schema));
        }
        assert(Seq::new(FURNACES_PER_CHUNK as nat, |i: int| furnace_with_generation(0))
            =~= c.furnaces);
    }
}

proof fn lemma_chest_part_read(d: Seq<u8>, pos: int, c: ChunkView, value_schema: u32, schema: u32)
    requires
        0 <= pos,
        chunk_admitted(c, value_schema, schema),
        pos + chest_part_bytes(c, schema).len() <= d.len(),
        d.subrange(pos, pos + chest_part_bytes(c, schema).len()) == chest_part_bytes(c, schema),
    ensures
        parse_chest_part(d, pos, schema) == Some(
            (c.chests, pos + chest_part_bytes(c, schema).len()),
        ),
{
    assert forall|i: int| 0 <= i < c.chests.len() implies #[trigger] chest_valid(c.chests[i]) by {
        assert(chest_admitted(c, c.chests[i], schema));
    }
    assert forall|i: int| 0 <= i < c.chests.len() implies (#[trigger] c.chests[i]).items.len()
        == CHEST_SLOTS by {
        assert(chest_admitted(c, c.chests[i], schema));
    }
    if schema >= 6 {
        lemma_chests_bytes_len(c.chests);
        lemma_chests_read(d, pos, c.chests);
    } else {
        assert forall|i: int| 0 <= i < c.chests.len() implies #[trigger] c.chests[i]
            == chest_with_generation(0) by {
            assert(chest_admitted(c, c.chests[i], schema));
        }
        assert(Seq::new(CHESTS_PER_CHUNK as nat, |i: int| chest_with_generation(0)) =~= c.chests);
    }
}

/// Round trip of the logical payload: the `MCGC` bytes of a chunk admitted at
/// `schema` (its values following that schema or the current one) parse back,
/// for the identity they were written with, as that same chunk.
#[verifier::rlimit(50)]
#[verifier::spinoff_prover]
pub proof fn lemma_logical_round_trip(
    key: ChunkKey,
    revision: u64,
    c: ChunkView,
    value_schema: u32,
    schema: u32,
)
    requires
        schema_supported(schema),
        value_schema == schema || value_schema == CURRENT_SCHEMA,
        key.dimension == OVERWORLD || key.dimension == DEPTHS,
        chunk_admitted(c, value_schema, schema),
    ensures
        parse_logical(key, revision, schema, logical_bytes(key, revision, c, schema)) == Some(c),
{
    lemma_le_facts();
    let d = logical_bytes(key, revision, c, schema);
    let h = logical_header(key, revision, schema);
    let sb = sections_bytes(c.sections);
    let db = drop_part_bytes(c, schema);
    let fb = furnace_part_bytes(c, schema);
    let cb = chest_part_bytes(c, schema);
    assert(d =~= h + sb + db + fb + cb);
    assert(h.len() == 32);
    let e1: int = 32 + sb.len() as int;
    let e2: int = e1 + db.len();
    let e3: int = e2 + fb.len();
    let e4: int = e3 + cb.len();
    assert(d.len() == e4);
    assert(d.take(32) =~= h);
    lemma_header_read(key, revision, schema, d);
    assert forall|i: int| 0 <= i < c.sections.len() implies #[trigger] section_bounded(
        c.sections[i],
    ) by {
        lemma_valid_section_bounded(c.sections[i]);
    }
    assert(d.subrange(32, e1) =~= sb);
    lemma_sections_read(d, 32, c.sections);
    assert(d.subrange(e1, e2) =~= db);
    lemma_drop_part_read(d, e1, c, value_schema, schema);
    assert(d.subrange(e2, e3) =~= fb);
    lemma_furnace_part_read(d, e2, c, value_schema, schema);
    assert(d.subrange(e3, e4) =~= cb);
    lemma_chest_part_read(d, e3, c, value_schema, schema);
}

/// Splitting sources none of which is a multi-item tool changes nothing.
proof fn lemma_split_all_without_splits(ds: Seq<DropSlot>, sources: Seq<DropSlot>, k: nat)
    requires
        k <= sources.len(),
        forall|i: int| 0 <= i < k ==> !#[trigger] splits(sources[i]),
    ensures
        split_all(ds, sources, k) == Some(ds),
    decreases k,
{
    if k > 0 {
        lemma_split_all_without_splits(ds, sources, (k - 1) as nat);
        assert(!splits(sources[k - 1]));
    }
}

/// The drop migration leaves current drops written at a pre-durability
/// schema unchanged: no tool there is missing its durability or stacked.
proof fn lemma_migrate_v4_drops_keeps(ds: Seq<DropSlot>, schema: u32)
    requires
        schema <= 4,
        forall|i: int| 0 <= i < ds.len() ==> #[trigger] drop_admitted(ds[i], CURRENT_SCHEMA, schema),
    ensures
        spec_migrate_v4_drops(ds) == Some(ds),
{
    assert forall|i: int| 0 <= i < ds.len() implies #[trigger] spec_fill_full_durability(
        ds[i].stack,
    ) == ds[i].stack && !splits(ds[i]) by {
        assert(drop_admitted(ds[i], CURRENT_SCHEMA, schema));
    }
    assert(filled_drops(ds) =~= ds);
    lemma_split_all_without_splits(ds, ds, ds.len());
}

/// A chunk admitted for writing at an older schema is also admitted at the
/// current one.
proof fn lemma_admitted_at_current(c: ChunkView, schema: u32)
    requires
        chunk_admitted(c, CURRENT_SCHEMA, schema),
    ensures
        chunk_admitted(c, CURRENT_SCHEMA, CURRENT_SCHEMA),
{
    assert forall|i: int| 0 <= i < c.drops.len() implies #[trigger] drop_admitted(
        c.drops[i],
        CURRENT_SCHEMA,
        CURRENT_SCHEMA,
    ) by {
        assert(drop_admitted(c.drops[i], CURRENT_SCHEMA, schema));
    }
    assert forall|i: int| 0 <= i < c.furnaces.len() implies #[trigger] furnace_admitted(
        c,
        c.furnaces[i],
        CURRENT_SCHEMA,
    ) by {
        assert(furnace_admitted(c, c.furnaces[i], schema));
    }
    assert forall|i: int| 0 <= i < c.chests.len() implies #[trigger] chest_admitted(
        c,
        c.chests[i],
        CURRENT_SCHEMA,
    ) by {
        assert(chest_admitted(c, c.chests[i], schema));
    }
}

/// Migrating a chunk that was admitted for writing at `schema` from that
/// schema to the current one gives the chunk back unchanged.
#[verifier::rlimit(50)]
#[verifier::spinoff_prover]
pub proof fn lemma_migrate_admitted(c: ChunkView, schema: u32)
    requires
        schema_supported(schema),
        chunk_admitted(c, CURRENT_SCHEMA, schema),
    ensures
        spec_migrate(schema, c) == Some(c),
{
    if schema <= 1 {
        assert forall|i: int| 0 <= i < c.drops.len() implies #[trigger] c.drops[i]
            == default_drop() by {
            assert(drop_admitted(c.drops[i], CURRENT_SCHEMA, schema));
        }
        assert(default_drops() =~= c.drops);
    }
    if schema <= 3 {
        assert forall|i: int| 0 <= i < c.furnaces.len() implies #[trigger] c.furnaces[i]
            == furnace_with_generation(0) by {
            assert(furnace_admitted(c, c.furnaces[i], schema));
        }
        assert(default_furnaces() =~= c.furnaces);
    }
    if schema <= 4 {
        lemma_migrate_v4_drops_keeps(c.drops, schema);
    }
    if schema <= 5 {
        assert forall|i: int| 0 <= i < c.chests.len() implies #[trigger] c.chests[i]
            == chest_with_generation(0) by {
            assert(chest_admitted(c, c.chests[i], schema));
        }
        assert(default_chests() =~= c.chests);
    }
    let c1 = if schema <= 1 {
        ChunkView { drops: default_drops(), ..c }
    } else {
        c
    };
    assert(c1 == c);
    let c3 = if schema <= 3 {
        ChunkView { furnaces: default_furnaces(), ..c1 }
    } else {
        c1
    };
    assert(c3 == c);
}

/// Every supported schema converges on one normalized result: the logical
/// payload a current chunk is written as at any supported schema decodes, for
/// the identity it was written with, to that same chunk at the current
/// schema.
pub proof fn lemma_schema_convergence(key: ChunkKey, revision: u64, c: ChunkView, schema: u32)
    requires
        schema_supported(schema),
        key.dimension == OVERWORLD || key.dimension == DEPTHS,
        chunk_admitted(c, CURRENT_SCHEMA, schema),
    ensures
        content_decodes_to(key, revision, schema, logical_bytes(key, revision, c, schema), c),
{
    lemma_logical_round_trip(key, revision, c, CURRENT_SCHEMA, schema);
    lemma_migrate_admitted(c, schema);
    lemma_admitted_at_current(c, schema);
}

/// What the envelope of an admitted save declares: a checked header for the
/// save's identity at `schema`, and a frame whose content is the save's
/// logical payload, of the declared length.
#[verifier::rlimit(50)]
#[verifier::spinoff_prover]
proof fn lemma_envelope_header(v: Seq<u8>, save: ChunkSave, schema: u32)
    requires
        schema_supported(schema),
        save_admitted(save, schema),
        spec_logical_len(save.chunk@, schema) <= MAX_DECODED_CHUNK,
        is_envelope_of(v, save, schema),
    ensures
        envelope_header_ok(v),
        identity_matches(v, save.key, save.revision),
        u32_at(v, 8) == schema,
        frame_content(v) == Some(logical_bytes(save.key, save.revision, save.chunk@, schema)),
        logical_bytes(save.key, save.revision, save.chunk@, schema).len() == u32_at(v, 36),
{
    lemma_le_facts();
    let c = save.chunk@;
    assert forall|i: int| 0 <= i < c.chests.len() implies (#[trigger] c.chests[i]).items.len()
        == 27 by {
        assert(chest_admitted(c, c.chests[i], schema));
    }
    crate::chunk::lemma_logical_len(save.key, save.revision, c, schema);
    let logical = logical_bytes(save.key, save.revision, c, schema);
    let frame = chunk_frame(logical);
    let e = envelope_bytes(schema, save.key, save.revision, logical.len() as int, frame);
    assert(v == e);
    assert(v.skip(44) =~= frame);
    assert(v.take(4) =~= e.take(4));
    assert(e.take(4) =~= envelope_magic());
    assert(v.subrange(4, 8) =~= le32(ENVELOPE_VERSION));
    assert(v.subrange(8, 12) =~= le32(schema));
    assert(v.subrange(12, 16) =~= lei32(save.key.dimension));
    assert(v.subrange(16, 20) =~= lei32(save.key.x));
    assert(v.subrange(20, 24) =~= lei32(save.key.z));
    assert(v.subrange(24, 32) =~= le64(save.revision));
    assert(v.subrange(32, 36) =~= le32(COMPRESSION_ZSTD));
    assert(v.subrange(36, 40) =~= le32(logical.len() as u32));
    assert(v.subrange(40, 44) =~= le32(frame.len() as u32));
    assert(envelope_key(v) == save.key);
    assert(u32_at(v, 36) == logical.len());
}

/// Round trip of the envelope: the `CHNK` envelope the encoder writes for a
/// save at `schema` carries a header the decoder accepts for that save's
/// identity, and its frame's content decodes to exactly the saved chunk, so a
/// successful decode of it returns the chunk that was saved.
pub proof fn lemma_envelope_round_trip(v: Seq<u8>, save: ChunkSave, schema: u32)
    requires
        schema_supported(schema),
        save_admitted(save, schema),
        spec_logical_len(save.chunk@, schema) <= MAX_DECODED_CHUNK,
        is_envelope_of(v, save, schema),
    ensures
        envelope_header_ok(v),
        identity_matches(v, save.key, save.revision),
        u32_at(v, 8) == schema,
        envelope_readable(v),
        content_decodes_to(save.key, save.revision, schema, frame_content(v)->0, save.chunk@),
        forall|c: ChunkView|
            content_decodes_to(save.key, save.revision, schema, frame_content(v)->0, c) ==> c
                == save.chunk@,
{
    lemma_envelope_header(v, save, schema);
    lemma_schema_convergence(save.key, save.revision, save.chunk@, schema);
}

/// The palette entries read at `pos` re-encode to the bytes they were read from.
proof fn lemma_palette_bytes_of(d: Seq<u8>, pos: int, n: nat)
    requires
        0 <= pos,
        pos + 2 * n <= d.len(),
    ensures
        palette_bytes(Seq::new(n, |i: int| u16_at(d, pos + 2 * i))) == d.subrange(pos, pos + 2 * n),
    decreases n,
{
    lemma_le_rereads();
    if n > 0 {
        let p = Seq::new(n, |i: int| u16_at(d, pos + 2 * i));
        assert(p.drop_last() =~= Seq::new((n - 1) as nat, |i: int| u16_at(d, pos + 2 * i)));
        lemma_palette_bytes_of(d, pos, (n - 1) as nat);
        let q = pos + 2 * (n - 1);
        assert(le16(p.last()) == d.subrange(q, q + 2));
        assert(d.subrange(pos, pos + 2 * n) =~= d.subrange(pos, q) + d.subrange(q, q + 2));
    } else {
        assert(d.subrange(pos, pos) =~= Seq::<u8>::empty());
    }
}

/// The packed words read at `pos` re-encode to the bytes they were read from.
proof fn lemma_packed_bytes_of(d: Seq<u8>, pos: int, n: nat)
    requires
        0 <= pos,
        pos + 8 * n <= d.len(),
    ensures
        packed_bytes(Seq::new(n, |i: int| u64_at(d, pos + 8 * i))) == d.subrange(pos, pos + 8 * n),
    decreases n,
{
    lemma_le_rereads();
    if n > 0 {
        let p = Seq::new(n, |i: int| u64_at(d, pos + 8 * i));
        assert(p.drop_last() =~= Seq::new((n - 1) as nat, |i: int| u64_at(d, pos + 8 * i)));
        lemma_packed_bytes_of(d, pos, (n - 1) as nat);
        let q = pos + 8 * (n - 1);
        assert(le64(p.last()) == d.subrange(q, q + 8));
        assert(d.subrange(pos, pos + 8 * n) =~= d.subrange(pos, q) + d.subrange(q, q + 8));
    } else {
        assert(d.subrange(pos, pos) =~= Seq::<u8>::empty());
    }
}

/// A section record that parses re-encodes to the bytes it was read from.
#[verifier::rlimit(50)]
#[verifier::spinoff_prover]
proof fn lemma_section_bytes_of(d: Seq<u8>, pos: int, index: int)
    requires
        0 <= pos,
        parse_section(d, pos, index) is Some,
    ensures
        ({
            let (s, e) = parse_section(d, pos, index)->0;
            pos <= e <= d.len() && d.subrange(pos, e) == section_bytes(index, s)
        }),
{
    lemma_le_rereads();
    let (s, e) = parse_section(d, pos, index)->0;
    let p = pos + 4;
    let plen = u32_at(d, p + 4) as int;
    let q = p + 8 + 2 * plen;
    let qlen = u32_at(d, q) as int;
    assert(le32(index as u32) == d.subrange(pos, p));
    assert(le8(spec_kind_code(s.kind)) =~= d.subrange(p, p + 1));
    assert(le8(s.bits) =~= d.subrange(p + 1, p + 2));
    assert(le16(s.single) == d.subrange(p + 2, p + 4));
    assert(le32(s.palette.len() as u32) == d.subrange(p + 4, p + 8));
    lemma_palette_bytes_of(d, p + 8, plen as nat);
    assert(palette_bytes(s.palette) == d.subrange(p + 8, q));
    assert(le32(s.packed.len() as u32) == d.subrange(q, q + 4));
    lemma_packed_bytes_of(d, q + 4, qlen as nat);
    assert(packed_bytes(s.packed) == d.subrange(q + 4, e));
    assert(d.subrange(pos, e) =~= d.subrange(pos, p) + d.subrange(p, p + 1) + d.subrange(p + 1, p + 2)
        + d.subrange(p + 2, p + 4) + d.subrange(p + 4, p + 8) + d.subrange(p + 8, q) + d.subrange(
        q,
        q + 4,
    ) + d.subrange(q + 4, e));
}

/// Section records that parse re-encode to the bytes they were read from.
proof fn lemma_sections_bytes_of(d: Seq<u8>, pos: int, n: nat)
    requires
        0 <= pos <= d.len(),
        parse_sections(d, pos, n) is Some,
    ensures
        ({
            let (ss, e) = parse_sections(d, pos, n)->0;
            ss.len() == n && pos <= e <= d.len() && d.subrange(pos, e) == sections_bytes(ss)
        }),
    decreases n,
{
    if n == 0 {
        assert(d.subrange(pos, pos) =~= Seq::<u8>::empty());
    } else {
        lemma_sections_bytes_of(d, pos, (n - 1) as nat);
        let (prev, e1) = parse_sections(d, pos, (n - 1) as nat)->0;
        lemma_section_bytes_of(d, e1, n - 1);
        let (ss, e) = parse_sections(d, pos, n)->0;
        let (s1, e2) = parse_section(d, e1, n - 1)->0;
        assert(ss == prev.push(s1) && e == e2);
        assert(ss.drop_last() =~= prev);
        assert(d.subrange(pos, e) =~= d.subrange(pos, e1) + d.subrange(e1, e));
    }
}

/// A drop slot that parses re-encodes to the bytes it was read from.
proof fn lemma_drop_bytes_of(d: Seq<u8>, pos: int, wd: bool)
    requires
        0 <= pos,
        parse_drop(d, pos, wd) is Some,
    ensures
        d.subrange(pos, pos + drop_len(wd)) == drop_bytes(parse_drop(d, pos, wd)->0, wd),
{
    lemma_le_rereads();
    let x = parse_drop(d, pos, wd)->0;
    let o: int = if wd {
        2
    } else {
        0
    };
    assert(le32(x.generation) == d.subrange(pos, pos + 4));
    assert(le_bool(x.active) =~= d.subrange(pos + 4, pos + 5));
    assert(le16(x.stack.item) == d.subrange(pos + 5, pos + 7));
    assert(le8(x.stack.count) =~= d.subrange(pos + 7, pos + 8));
    let dur = if wd {
        le16(x.stack.durability)
    } else {
        Seq::empty()
    };
    if wd {
        assert(le16(x.stack.durability) == d.subrange(pos + 8, pos + 10));
    }
    assert(dur =~= d.subrange(pos + 8, pos + 8 + o));
    assert(le32(x.block_index) == d.subrange(pos + 8 + o, pos + 12 + o));
    assert(le32(x.age_ticks) == d.subrange(pos + 12 + o, pos + 16 + o));
    assert(le8(x.pickup_delay_ticks) =~= d.subrange(pos + 16 + o, pos + 17 + o));
    assert(d.subrange(pos, pos + drop_len(wd)) =~= d.subrange(pos, pos + 4) + d.subrange(pos + 4, pos + 5)
        + d.subrange(pos + 5, pos + 7) + d.subrange(pos + 7, pos + 8) + d.subrange(pos + 8, pos + 8 + o)
        + d.subrange(pos + 8 + o, pos + 12 + o) + d.subrange(pos + 12 + o, pos + 16 + o) + d.subrange(
        pos + 16 + o,
        pos + 17 + o,
    ));
}

/// Drop slots that parse re-encode to the bytes they were read from.
proof fn lemma_drops_bytes_of(d: Seq<u8>, pos: int, n: nat, wd: bool)
    requires
        0 <= pos <= d.len(),
        parse_drops(d, pos, n, wd) is Some,
    ensures
        ({
            let ds = parse_drops(d, pos, n, wd)->0;
            ds.len() == n && pos + n * drop_len(wd) <= d.len() && d.subrange(
                pos,
                pos + n * drop_len(wd),
            ) == drops_bytes(ds, wd)
        }),
    decreases n,
{
    if n == 0 {
        assert(d.subrange(pos, pos) =~= Seq::<u8>::empty());
    } else {
        lemma_drops_bytes_of(d, pos, (n - 1) as nat, wd);
        let prev = parse_drops(d, pos, (n - 1) as nat, wd)->0;
        let q = pos + (n - 1) * drop_len(wd);
        lemma_drop_bytes_of(d, q, wd);
        let ds = parse_drops(d, pos, n, wd)->0;
        assert(ds.drop_last() =~= prev);
        assert(pos + n * drop_len(wd) == q + drop_len(wd));
        assert(d.subrange(pos, q + drop_len(wd)) =~= d.subrange(pos, q) + d.subrange(
            q,
            q + drop_len(wd),
        ));
    }
}

/// A furnace slot that parses re-encodes to the bytes it was read from.
proof fn lemma_furnace_bytes_of(d: Seq<u8>, pos: int)
    requires
        0 <= pos,
        parse_furnace(d, pos) is Some,
    ensures
        d.subrange(pos, pos + 21) == furnace_bytes(parse_furnace(d, pos)->0),
{
    lemma_le_rereads();
    let f = parse_furnace(d, pos)->0;
    assert(le32(f.generation) == d.subrange(pos, pos + 4));
    assert(le_bool(f.active) =~= d.subrange(pos + 4, pos + 5));
    assert(le32(f.block_index) == d.subrange(pos + 5, pos + 9));
    assert(le16(f.input.item) == d.subrange(pos + 9, pos + 11));
    assert(stack3_bytes(f.input) =~= d.subrange(pos + 9, pos + 12));
    assert(le16(f.fuel.item) == d.subrange(pos + 12, pos + 14));
    assert(stack3_bytes(f.fuel) =~= d.subrange(pos + 12, pos + 15));
    assert(le16(f.output.item) == d.subrange(pos + 15, pos + 17));
    assert(stack3_bytes(f.output) =~= d.subrange(pos + 15, pos + 18));
    assert(le8(f.progress_ticks) =~= d.subrange(pos + 18, pos + 19));
    assert(le16(f.burn_ticks) == d.subrange(pos + 19, pos + 21));
    assert(d.subrange(pos, pos + 21) =~= d.subrange(pos, pos + 4) + d.subrange(pos + 4, pos + 5)
        + d.subrange(pos + 5, pos + 9) + d.subrange(pos + 9, pos + 12) + d.subrange(pos + 12, pos + 15)
        + d.subrange(pos + 15, pos + 18) + d.subrange(pos + 18, pos + 19) + d.subrange(
        pos + 19,
        pos + 21,
    ));
}

/// Furnace slots that parse re-encode to the bytes they were read from.
proof fn lemma_furnaces_bytes_of(d: Seq<u8>, pos: int, n: nat)
    requires
        0 <= pos <= d.len(),
        parse_furnaces(d, pos, n) is Some,
    ensures
        ({
            let fs = parse_furnaces(d, pos, n)->0;
            fs.len() == n && pos + n * 21 <= d.len() && d.subrange(pos, pos + n * 21)
                == furnaces_bytes(fs)
        }),
    decreases n,
{
    if n == 0 {
        assert(d.subrange(pos, pos) =~= Seq::<u8>::empty());
    } else {
        lemma_furnaces_bytes_of(d, pos, (n - 1) as nat);
        let prev = parse_furnaces(d, pos, (n - 1) as nat)->0;
        let q = pos + (n - 1) * 21;
        lemma_furnace_bytes_of(d, q);
        let fs = parse_furnaces(d, pos, n)->0;
        assert(fs.drop_last() =~= prev);
        assert(d.subrange(pos, q + 21) =~= d.subrange(pos, q) + d.subrange(q, q + 21));
    }
}

/// Stacks with durability read at `pos` re-encode to the bytes they were read from.
pub(crate) proof fn lemma_stacks5_bytes_of(d: Seq<u8>, pos: int, n: nat)
    requires
        0 <= pos,
        pos + 5 * n <= d.len(),
    ensures
        stacks5_bytes(Seq::new(n, |k: int| stack5_at(d, pos + 5 * k))) == d.subrange(
            pos,
            pos + 5 * n,
        ),
    decreases n,
{
    lemma_le_rereads();
    if n > 0 {
        let ss = Seq::new(n, |k: int| stack5_at(d, pos + 5 * k));
        assert(ss.drop_last() =~= Seq::new((n - 1) as nat, |k: int| stack5_at(d, pos + 5 * k)));
        lemma_stacks5_bytes_of(d, pos, (n - 1) as nat);
        let q = pos + 5 * (n - 1);
        let last = ss.last();
        assert(le16(last.item) == d.subrange(q, q + 2));
        assert(le8(last.count) =~= d.subrange(q + 2, q + 3));
        assert(le16(last.durability) == d.subrange(q + 3, q + 5));
        assert(d.subrange(pos, pos + 5 * n) =~= d.subrange(pos, q) + d.subrange(q, q + 2)
            + d.subrange(q + 2, q + 3) + d.subrange(q + 3, q + 5));
    } else {
        assert(d.subrange(pos, pos) =~= Seq::<u8>::empty());
    }
}

/// A chest slot that parses re-encodes to the bytes it was read from.
proof fn lemma_chest_bytes_of(d: Seq<u8>, pos: int)
    requires
        0 <= pos,
        parse_chest(d, pos) is Some,
    ensures
        d.subrange(pos, pos + 144) == chest_bytes(parse_chest(d, pos)->0),
{
    lemma_le_rereads();
    let c = parse_chest(d, pos)->0;
    assert(le32(c.generation) == d.subrange(pos, pos + 4));
    assert(le_bool(c.active) =~= d.subrange(pos + 4, pos + 5));
    assert(le32(c.block_index) == d.subrange(pos + 5, pos + 9));
    lemma_stacks5_bytes_of(d, pos + 9, CHEST_SLOTS as nat);
    assert(d.subrange(pos, pos + 144) =~= d.subrange(pos, pos + 4) + d.subrange(pos + 4, pos + 5)
        + d.subrange(pos + 5, pos + 9) + d.subrange(pos + 9, pos + 144));
}

/// Chest slots that parse re-encode to the bytes they were read from.
proof fn lemma_chests_bytes_of(d: Seq<u8>, pos: int, n: nat)
    requires
        0 <= pos <= d.len(),
        parse_chests(d, pos, n) is Some,
    ensures
        ({
            let cs = parse_chests(d, pos, n)->0;
            cs.len() == n && pos + n * 144 <= d.len() && d.subrange(pos, pos + n * 144)
                == chests_bytes(cs)
        }),
    decreases n,
{
    if n == 0 {
        assert(d.subrange(pos, pos) =~= Seq::<u8>::empty());
    } else {
        lemma_chests_bytes_of(d, pos, (n - 1) as nat);
        let prev = parse_chests(d, pos, (n - 1) as nat)->0;
        let q = pos + (n - 1) * 144;
        lemma_chest_bytes_of(d, q);
        let cs = parse_chests(d, pos, n)->0;
        assert(cs.drop_last() =~= prev);
        assert(d.subrange(pos, q + 144) =~= d.subrange(pos, q) + d.subrange(q, q + 144));
    }
}

/// A header that names the requested identity re-encodes to its bytes.
proof fn lemma_header_bytes_of(key: ChunkKey, revision: u64, schema: u32, d: Seq<u8>)
    requires
        logical_header_ok(key, revision, schema, d),
    ensures
        d.take(32) == logical_header(key, revision, schema),
{
    lemma_le_rereads();
    crate::bytes::lemma_le_facts();
    let a = u32_at(d, 8);
    let b = u32_at(d, 12);
    let c = u32_at(d, 16);
    assert((a as i32) as u32 == a) by (bit_vector);
    assert((b as i32) as u32 == b) by (bit_vector);
    assert((c as i32) as u32 == c) by (bit_vector);
    assert(le32(a) == d.subrange(8, 12));
    assert(le32(b) == d.subrange(12, 16));
    assert(le32(c) == d.subrange(16, 20));
    assert(key.dimension as u32 == a && key.x as u32 == b && key.z as u32 == c);
    assert(lei32(key.dimension) == le32(a));
    assert(lei32(key.x) == le32(b));
    assert(lei32(key.z) == le32(c));
    assert(le32(schema) == d.subrange(4, 8));
    assert(le64(revision) == d.subrange(20, 28));
    assert(le32(SECTIONS_PER_CHUNK as u32) == d.subrange(28, 32));
    assert(logical_magic() =~= d.subrange(0, 4));
    assert(d.take(32) =~= d.subrange(0, 4) + d.subrange(4, 8) + d.subrange(8, 12) + d.subrange(
        12,
        16,
    ) + d.subrange(16, 20) + d.subrange(20, 28) + d.subrange(28, 32));
}

/// Decoding is exact: a logical payload that parses, for any identity and
/// supported schema, is byte for byte the payload the writer produces for the
/// chunk it parses to.
#[verifier::rlimit(50)]
#[verifier::spinoff_prover]
pub proof fn lemma_logical_exact(key: ChunkKey, revision: u64, schema: u32, d: Seq<u8>)
    requires
        parse_logical(key, revision, schema, d) is Some,
    ensures
        logical_bytes(key, revision, parse_logical(key, revision, schema, d)->0, schema) == d,
{
    let c = parse_logical(key, revision, schema, d)->0;
    lemma_header_bytes_of(key, revision, schema, d);
    lemma_sections_bytes_of(d, 32, SECTIONS_PER_CHUNK as nat);
    let (ss, e1) = parse_sections(d, 32, SECTIONS_PER_CHUNK as nat)->0;
    let (ds, e2) = parse_drop_part(d, e1, schema)->0;
    let (fs, e3) = parse_furnace_part(d, e2, schema)->0;
    let (cs, e4) = parse_chest_part(d, e3, schema)->0;
    assert(c == ChunkView { sections: ss, drops: ds, furnaces: fs, chests: cs });
    if schema >= 2 {
        lemma_drops_bytes_of(d, e1, DROPS_PER_CHUNK as nat, schema >= 5);
    } else {
        assert(d.subrange(e1, e2) =~= Seq::<u8>::empty());
    }
    assert(d.subrange(e1, e2) == drop_part_bytes(c, schema));
    if schema >= 4 {
        lemma_furnaces_bytes_of(d, e2, FURNACES_PER_CHUNK as nat);
    } else {
        assert(d.subrange(e2, e3) =~= Seq::<u8>::empty());
    }
    assert(d.subrange(e2, e3) == furnace_part_bytes(c, schema));
    if schema >= 6 {
        lemma_chests_bytes_of(d, e3, CHESTS_PER_CHUNK as nat);
    } else {
        assert(d.subrange(e3, e4) =~= Seq::<u8>::empty());
    }
    assert(d.subrange(e3, e4) == chest_part_bytes(c, schema));
    assert(logical_bytes(key, revision, c, schema) =~= logical_header(key, revision, schema)
        + sections_bytes(ss) + drop_part_bytes(c, schema) + furnace_part_bytes(c, schema)
        + chest_part_bytes(c, schema));
    assert(d =~= d.take(32) + d.subrange(32, e1) + d.subrange(e1, e2) + d.subrange(e2, e3)
        + d.subrange(e3, e4));
}


/// A codec decode and a free decode of the same envelope agree: both succeed
/// exactly when `decodes_ok` holds, and the chunk each returns is the one
/// content that decodes to; there is only one such chunk.
pub proof fn lemma_decoded_chunk_unique(
    key: ChunkKey,
    revision: u64,
    schema: u32,
    content: Seq<u8>,
    c1: ChunkView,
    c2: ChunkView,
)
    requires
        content_decodes_to(key, revision, schema, content, c1),
        content_decodes_to(key, revision, schema, content, c2),
    ensures
        c1 == c2,
{
}

} // verus!
