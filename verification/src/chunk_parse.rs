//! The `MCGC` logical payload reader and its exact specification.
//!
//! Every bound is checked before the allocation it guards: a palette or packed
//! array is only allocated after its declared length was checked against both
//! its ceiling and the bytes that remain.
use crate::bytes::{read_u16, read_u32, read_u64, u16_at, u32_at, u64_at};
use crate::chunk::{
    CHEST_SLOTS, CHESTS_PER_CHUNK, ChestSlot, ChestView, Chunk, ChunkKey, ChunkView, DEPTHS, OVERWORLD,
    DROPS_PER_CHUNK, DropSlot, FURNACES_PER_CHUNK, FurnaceSlot, SECTIONS_PER_CHUNK,
    chest_with_generation, default_drop, furnace_with_generation, schema_supported,
};
use crate::chunk_rules::{
    chest_valid, drop_slot_ok, furnace_valid, legacy_drop_slot_ok, validate_drop_slot,
    validate_legacy_drop_slot,
};
use crate::error::{StorageResult, corrupt, corrupt_at, corrupt_numbered, corrupt_signed, short_read};
use crate::items::ItemStack;
use crate::section::{
    ContainerSnapshot, MAX_PACKED_WORDS, MAX_PALETTE_ENTRIES, SectionView, StorageKind,
    spec_kind_of,
};
use vstd::prelude::*;

verus! {

broadcast use {vstd::seq::group_seq_axioms, vstd::slice::group_slice_axioms};

/// Parses the section record with index `index` starting at `pos`: its
/// snapshot and the position right after it.
pub open spec fn parse_section(d: Seq<u8>, pos: int, index: int) -> Option<(SectionView, int)> {
    let p = pos + 4;
    if pos + 4 > d.len() || u32_at(d, pos) as int != index || p + 8 > d.len() {
        None
    } else {
        let plen = u32_at(d, p + 4) as int;
        let q = p + 8 + 2 * plen;
        if plen > MAX_PALETTE_ENTRIES || q + 4 > d.len() {
            None
        } else {
            let qlen = u32_at(d, q) as int;
            let end = q + 4 + 8 * qlen;
            if qlen > MAX_PACKED_WORDS || end > d.len() || spec_kind_of(d[p]) is None {
                None
            } else {
                Some(
                    (
                        SectionView {
                            kind: spec_kind_of(d[p]).unwrap(),
                            bits: d[p + 1],
                            single: u16_at(d, p + 2),
                            palette: Seq::new(plen as nat, |i: int| u16_at(d, p + 8 + 2 * i)),
                            packed: Seq::new(qlen as nat, |i: int| u64_at(d, q + 4 + 8 * i)),
                        },
                        end,
                    ),
                )
            }
        }
    }
}

/// Parses `n` consecutive section records, indexed from zero, starting at `pos`.
pub open spec fn parse_sections(d: Seq<u8>, pos: int, n: nat) -> Option<(Seq<SectionView>, int)>
    decreases n,
{
    if n == 0 {
        Some((Seq::empty(), pos))
    } else {
        match parse_sections(d, pos, (n - 1) as nat) {
            Some((ss, e)) => match parse_section(d, e, n - 1) {
                Some((s, e2)) => Some((ss.push(s), e2)),
                None => None,
            },
            None => None,
        }
    }
}

/// Byte length of one drop slot in the layout with or without durability.
pub open spec fn drop_len(with_durability: bool) -> int {
    if with_durability {
        19
    } else {
        17
    }
}

/// The drop slot fields stored at `pos`.
pub open spec fn drop_at(d: Seq<u8>, pos: int, with_durability: bool) -> DropSlot {
    let o: int = if with_durability {
        2
    } else {
        0
    };
    DropSlot {
        generation: u32_at(d, pos),
        active: d[pos + 4] == 1,
        stack: ItemStack {
            item: u16_at(d, pos + 5),
            count: d[pos + 7],
            durability: if with_durability {
                u16_at(d, pos + 8)
            } else {
                0
            },
        },
        block_index: u32_at(d, pos + 8 + o),
        age_ticks: u32_at(d, pos + 12 + o),
        pickup_delay_ticks: d[pos + 16 + o],
    }
}

/// Parses one drop slot: complete bytes, a boolean flag, and the slot rule
/// of its layout.
pub open spec fn parse_drop(d: Seq<u8>, pos: int, with_durability: bool) -> Option<DropSlot> {
    if pos + drop_len(with_durability) > d.len() || d[pos + 4] > 1 {
        None
    } else {
        let x = drop_at(d, pos, with_durability);
        if (if with_durability {
            drop_slot_ok(x)
        } else {
            legacy_drop_slot_ok(x)
        }) {
            Some(x)
        } else {
            None
        }
    }
}

/// Parses `n` consecutive drop slots starting at `pos`.
pub open spec fn parse_drops(d: Seq<u8>, pos: int, n: nat, with_durability: bool) -> Option<
    Seq<DropSlot>,
>
    decreases n,
{
    if n == 0 {
        Some(Seq::empty())
    } else {
        match parse_drops(d, pos, (n - 1) as nat, with_durability) {
            Some(ds) => match parse_drop(
                d,
                pos + (n - 1) * drop_len(with_durability),
                with_durability,
            ) {
                Some(x) => Some(ds.push(x)),
                None => None,
            },
            None => None,
        }
    }
}

/// The stack without durability stored at `pos`.
pub open spec fn stack3_at(d: Seq<u8>, pos: int) -> ItemStack {
    ItemStack { item: u16_at(d, pos), count: d[pos + 2], durability: 0 }
}

/// The furnace slot fields stored at `pos`.
pub open spec fn furnace_at(d: Seq<u8>, pos: int) -> FurnaceSlot {
    FurnaceSlot {
        generation: u32_at(d, pos),
        active: d[pos + 4] == 1,
        block_index: u32_at(d, pos + 5),
        input: stack3_at(d, pos + 9),
        fuel: stack3_at(d, pos + 12),
        output: stack3_at(d, pos + 15),
        progress_ticks: d[pos + 18],
        burn_ticks: u16_at(d, pos + 19),
    }
}

/// Parses one furnace slot.
pub open spec fn parse_furnace(d: Seq<u8>, pos: int) -> Option<FurnaceSlot> {
    if pos + 21 > d.len() || d[pos + 4] > 1 || !furnace_valid(furnace_at(d, pos)) {
        None
    } else {
        Some(furnace_at(d, pos))
    }
}

/// Parses `n` consecutive furnace slots starting at `pos`.
pub open spec fn parse_furnaces(d: Seq<u8>, pos: int, n: nat) -> Option<Seq<FurnaceSlot>>
    decreases n,
{
    if n == 0 {
        Some(Seq::empty())
    } else {
        match parse_furnaces(d, pos, (n - 1) as nat) {
            Some(fs) => match parse_furnace(d, pos + (n - 1) * 21) {
                Some(x) => Some(fs.push(x)),
                None => None,
            },
            None => None,
        }
    }
}

/// The stack with durability stored at `pos`.
pub open spec fn stack5_at(d: Seq<u8>, pos: int) -> ItemStack {
    ItemStack { item: u16_at(d, pos), count: d[pos + 2], durability: u16_at(d, pos + 3) }
}

/// The chest slot fields stored at `pos`.
pub open spec fn chest_at(d: Seq<u8>, pos: int) -> ChestView {
    ChestView {
        generation: u32_at(d, pos),
        active: d[pos + 4] == 1,
        block_index: u32_at(d, pos + 5),
        items: Seq::new(CHEST_SLOTS as nat, |k: int| stack5_at(d, pos + 9 + 5 * k)),
    }
}

/// Parses one chest slot.
pub open spec fn parse_chest(d: Seq<u8>, pos: int) -> Option<ChestView> {
    if pos + 144 > d.len() || d[pos + 4] > 1 || !chest_valid(chest_at(d, pos)) {
        None
    } else {
        Some(chest_at(d, pos))
    }
}

/// Parses `n` consecutive chest slots starting at `pos`.
pub open spec fn parse_chests(d: Seq<u8>, pos: int, n: nat) -> Option<Seq<ChestView>>
    decreases n,
{
    if n == 0 {
        Some(Seq::empty())
    } else {
        match parse_chests(d, pos, (n - 1) as nat) {
            Some(cs) => match parse_chest(d, pos + (n - 1) * 144) {
                Some(x) => Some(cs.push(x)),
                None => None,
            },
            None => None,
        }
    }
}

/// The logical header is well formed and names the requested identity.
pub open spec fn logical_header_ok(key: ChunkKey, revision: u64, schema: u32, d: Seq<u8>) -> bool {
    &&& d.len() >= 32
    &&& d[0] == 0x4D && d[1] == 0x43 && d[2] == 0x47 && d[3] == 0x43
    &&& u32_at(d, 4) == schema
    &&& (u32_at(d, 8) as i32 == OVERWORLD || u32_at(d, 8) as i32 == DEPTHS)
    &&& key == ChunkKey {
        dimension: u32_at(d, 8) as i32,
        x: u32_at(d, 12) as i32,
        z: u32_at(d, 16) as i32,
    }
    &&& u64_at(d, 20) == revision
    &&& u32_at(d, 28) == SECTIONS_PER_CHUNK
}

/// Drop slots a payload at `schema` carries, or their default when it has none.
pub open spec fn parse_drop_part(d: Seq<u8>, pos: int, schema: u32) -> Option<(Seq<DropSlot>, int)> {
    if schema >= 2 {
        match parse_drops(d, pos, DROPS_PER_CHUNK as nat, schema >= 5) {
            Some(ds) => Some((ds, pos + DROPS_PER_CHUNK * drop_len(schema >= 5))),
            None => None,
        }
    } else {
        Some((Seq::new(DROPS_PER_CHUNK as nat, |i: int| default_drop()), pos))
    }
}

/// Furnace slots a payload at `schema` carries, or their default when it has none.
pub open spec fn parse_furnace_part(d: Seq<u8>, pos: int, schema: u32) -> Option<
    (Seq<FurnaceSlot>, int),
> {
    if schema >= 4 {
        match parse_furnaces(d, pos, FURNACES_PER_CHUNK as nat) {
            Some(fs) => Some((fs, pos + FURNACES_PER_CHUNK * 21)),
            None => None,
        }
    } else {
        Some((Seq::new(FURNACES_PER_CHUNK as nat, |i: int| furnace_with_generation(0)), pos))
    }
}

/// Chest slots a payload at `schema` carries, or their default when it has none.
pub open spec fn parse_chest_part(d: Seq<u8>, pos: int, schema: u32) -> Option<
    (Seq<ChestView>, int),
> {
    if schema >= 6 {
        match parse_chests(d, pos, CHESTS_PER_CHUNK as nat) {
            Some(cs) => Some((cs, pos + CHESTS_PER_CHUNK * 144)),
            None => None,
        }
    } else {
        Some((Seq::new(CHESTS_PER_CHUNK as nat, |i: int| chest_with_generation(0)), pos))
    }
}

/// Parses one `MCGC` payload at `schema` for the requested identity, without
/// migrating it; `None` when any part is malformed or bytes remain.
pub open spec fn parse_logical(key: ChunkKey, revision: u64, schema: u32, d: Seq<u8>) -> Option<
    ChunkView,
> {
    if !schema_supported(schema) || !logical_header_ok(key, revision, schema, d) {
        None
    } else {
        match parse_sections(d, 32, SECTIONS_PER_CHUNK as nat) {
            None => None,
            Some((ss, e1)) => match parse_drop_part(d, e1, schema) {
                None => None,
                Some((ds, e2)) => match parse_furnace_part(d, e2, schema) {
                    None => None,
                    Some((fs, e3)) => match parse_chest_part(d, e3, schema) {
                        None => None,
                        Some((cs, e4)) => if e4 == d.len() {
                            Some(ChunkView { sections: ss, drops: ds, furnaces: fs, chests: cs })
                        } else {
                            None
                        },
                    },
                },
            },
        }
    }
}

proof fn lemma_sections_none_stays(d: Seq<u8>, pos: int, n: nat, m: nat)
    requires
        n <= m,
        parse_sections(d, pos, n) is None,
    ensures
        parse_sections(d, pos, m) is None,
    decreases m,
{
    if n < m {
        lemma_sections_none_stays(d, pos, n, (m - 1) as nat);
    }
}

proof fn lemma_drops_none_stays(d: Seq<u8>, pos: int, n: nat, m: nat, wd: bool)
    requires
        n <= m,
        parse_drops(d, pos, n, wd) is None,
    ensures
        parse_drops(d, pos, m, wd) is None,
    decreases m,
{
    if n < m {
        lemma_drops_none_stays(d, pos, n, (m - 1) as nat, wd);
    }
}

proof fn lemma_furnaces_none_stays(d: Seq<u8>, pos: int, n: nat, m: nat)
    requires
        n <= m,
        parse_furnaces(d, pos, n) is None,
    ensures
        parse_furnaces(d, pos, m) is None,
    decreases m,
{
    if n < m {
        lemma_furnaces_none_stays(d, pos, n, (m - 1) as nat);
    }
}

proof fn lemma_chests_none_stays(d: Seq<u8>, pos: int, n: nat, m: nat)
    requires
        n <= m,
        parse_chests(d, pos, n) is None,
    ensures
        parse_chests(d, pos, m) is None,
    decreases m,
{
    if n < m {
        lemma_chests_none_stays(d, pos, n, (m - 1) as nat);
    }
}

fn decode_section(d: &[u8], pos: usize, index: usize) -> (res: Option<(ContainerSnapshot, usize)>)
    ensures
        res is None <==> parse_section(d@, pos as int, index as int) is None,
        res matches Some((c, e)) ==> parse_section(d@, pos as int, index as int) == Some(
            (c@, e as int),
        ),
{
    let len = d.len();
    if len < 4 || pos > len - 4 {
        return None;
    }
    if read_u32(d, pos) as usize != index {
        return None;
    }
    let p = pos + 4;
    if len < 8 || p > len - 8 {
        return None;
    }
    let kind = d[p];
    let bits = d[p + 1];
    let single = read_u16(d, p + 2);
    let plen = read_u32(d, p + 4) as usize;
    if plen > MAX_PALETTE_ENTRIES {
        return None;
    }
    if len - (p + 8) < 2 * plen + 4 {
        return None;
    }
    let ghost dv = d@;
    let mut palette: Vec<u16> = Vec::with_capacity(plen);
    let mut k: usize = 0;
    while k < plen
        invariant
            dv == d@,
            len == dv.len(),
            k <= plen <= MAX_PALETTE_ENTRIES,
            p + 8 + 2 * plen + 4 <= dv.len(),
            palette@ == Seq::new(k as nat, |i: int| u16_at(dv, p + 8 + 2 * i)),
        decreases plen - k,
    {
        let v = read_u16(d, p + 8 + 2 * k);
        palette.push(v);
        assert(palette@ =~= Seq::new((k + 1) as nat, |i: int| u16_at(dv, p + 8 + 2 * i)));
        k = k + 1;
    }
    let q = p + 8 + 2 * plen;
    let qlen = read_u32(d, q) as usize;
    if qlen > MAX_PACKED_WORDS {
        return None;
    }
    if len - (q + 4) < 8 * qlen {
        return None;
    }
    let mut packed: Vec<u64> = Vec::with_capacity(qlen);
    let mut k: usize = 0;
    while k < qlen
        invariant
            dv == d@,
            len == dv.len(),
            k <= qlen <= MAX_PACKED_WORDS,
            q + 4 + 8 * qlen <= dv.len(),
            packed@ == Seq::new(k as nat, |i: int| u64_at(dv, q + 4 + 8 * i)),
        decreases qlen - k,
    {
        let v = read_u64(d, q + 4 + 8 * k);
        packed.push(v);
        assert(packed@ =~= Seq::new((k + 1) as nat, |i: int| u64_at(dv, q + 4 + 8 * i)));
        k = k + 1;
    }
    let kind = match StorageKind::from_u8(kind) {
        Some(kind) => kind,
        None => {
            return None;
        },
    };
    let end = q + 4 + 8 * qlen;
    Some((ContainerSnapshot { kind, bits, single, palette, packed }, end))
}

fn decode_drop(d: &[u8], pos: usize, with_durability: bool) -> (res: Option<DropSlot>)
    ensures
        res == parse_drop(d@, pos as int, with_durability),
{
    let len = d.len();
    let n: usize = if with_durability {
        19
    } else {
        17
    };
    if len < n || pos > len - n {
        return None;
    }
    let active = d[pos + 4];
    if active > 1 {
        return None;
    }
    let o: usize = if with_durability {
        2
    } else {
        0
    };
    let drop = DropSlot {
        generation: read_u32(d, pos),
        active: active == 1,
        stack: ItemStack {
            item: read_u16(d, pos + 5),
            count: d[pos + 7],
            durability: if with_durability {
                read_u16(d, pos + 8)
            } else {
                0
            },
        },
        block_index: read_u32(d, pos + 8 + o),
        age_ticks: read_u32(d, pos + 12 + o),
        pickup_delay_ticks: d[pos + 16 + o],
    };
    assert(drop == drop_at(d@, pos as int, with_durability));
    let rule = if with_durability {
        validate_drop_slot(&drop)
    } else {
        validate_legacy_drop_slot(&drop)
    };
    if rule.is_err() {
        return None;
    }
    Some(drop)
}

fn decode_furnace(d: &[u8], pos: usize) -> (res: Option<FurnaceSlot>)
    ensures
        res == parse_furnace(d@, pos as int),
{
    let len = d.len();
    if len < 21 || pos > len - 21 {
        return None;
    }
    let active = d[pos + 4];
    if active > 1 {
        return None;
    }
    let furnace = FurnaceSlot {
        generation: read_u32(d, pos),
        active: active == 1,
        block_index: read_u32(d, pos + 5),
        input: ItemStack { item: read_u16(d, pos + 9), count: d[pos + 11], durability: 0 },
        fuel: ItemStack { item: read_u16(d, pos + 12), count: d[pos + 14], durability: 0 },
        output: ItemStack { item: read_u16(d, pos + 15), count: d[pos + 17], durability: 0 },
        progress_ticks: d[pos + 18],
        burn_ticks: read_u16(d, pos + 19),
    };
    assert(furnace == furnace_at(d@, pos as int));
    if !furnace.is_valid() {
        return None;
    }
    Some(furnace)
}

fn decode_chest(d: &[u8], pos: usize) -> (res: Option<ChestSlot>)
    ensures
        res is None <==> parse_chest(d@, pos as int) is None,
        res matches Some(c) ==> parse_chest(d@, pos as int) == Some(c@),
{
    let len = d.len();
    if len < 144 || pos > len - 144 {
        return None;
    }
    let active = d[pos + 4];
    if active > 1 {
        return None;
    }
    let ghost dv = d@;
    let mut items = [ItemStack { item: 0, count: 0, durability: 0 };CHEST_SLOTS];
    let mut k: usize = 0;
    while k < CHEST_SLOTS
        invariant
            dv == d@,
            len == dv.len(),
            pos + 144 <= dv.len(),
            k <= CHEST_SLOTS,
            items@.len() == CHEST_SLOTS,
            forall|j: int| 0 <= j < k ==> #[trigger] items@[j] == stack5_at(dv, pos + 9 + 5 * j),
        decreases CHEST_SLOTS - k,
    {
        let at = pos + 9 + 5 * k;
        items[k] = ItemStack { item: read_u16(d, at), count: d[at + 2], durability: read_u16(d, at + 3) };
        k = k + 1;
    }
    let chest = ChestSlot {
        generation: read_u32(d, pos),
        active: active == 1,
        block_index: read_u32(d, pos + 5),
        items,
    };
    assert(chest@.items =~= chest_at(dv, pos as int).items);
    assert(chest@ == chest_at(dv, pos as int));
    if !chest.is_valid() {
        return None;
    }
    Some(chest)
}

fn decode_sections(d: &[u8]) -> (res: Result<(Vec<ContainerSnapshot>, usize), usize>)
    ensures
        res is Err <==> parse_sections(d@, 32, SECTIONS_PER_CHUNK as nat) is None,
        res matches Ok((v, e)) ==> parse_sections(d@, 32, SECTIONS_PER_CHUNK as nat) == Some(
            (v@.map_values(|s: ContainerSnapshot| s@), e as int),
        ),
{
    let mut sections: Vec<ContainerSnapshot> = Vec::with_capacity(SECTIONS_PER_CHUNK);
    let mut pos: usize = 32;
    let mut index: usize = 0;
    while index < SECTIONS_PER_CHUNK
        invariant
            index <= SECTIONS_PER_CHUNK,
            parse_sections(d@, 32, index as nat) == Some(
                (sections@.map_values(|s: ContainerSnapshot| s@), pos as int),
            ),
        decreases SECTIONS_PER_CHUNK - index,
    {
        match decode_section(d, pos, index) {
            Some((section, end)) => {
                let ghost before = sections@.map_values(|s: ContainerSnapshot| s@);
                sections.push(section);
                assert(sections@.map_values(|s: ContainerSnapshot| s@) =~= before.push(section@));
                pos = end;
            },
            None => {
                proof {
                    lemma_sections_none_stays(d@, 32, (index + 1) as nat, SECTIONS_PER_CHUNK as nat);
                }
                return Err(index);
            },
        }
        index = index + 1;
    }
    Ok((sections, pos))
}

fn decode_drop_part(d: &[u8], start: usize, schema: u32) -> (res: Result<(Vec<DropSlot>, usize), usize>)
    ensures
        res is Err <==> parse_drop_part(d@, start as int, schema) is None,
        res matches Ok((v, e)) ==> parse_drop_part(d@, start as int, schema) == Some(
            (v@, e as int),
        ),
{
    if schema < 2 {
        let mut drops: Vec<DropSlot> = Vec::with_capacity(DROPS_PER_CHUNK);
        let mut i: usize = 0;
        while i < DROPS_PER_CHUNK
            invariant
                i <= DROPS_PER_CHUNK,
                drops@ == Seq::new(i as nat, |k: int| default_drop()),
            decreases DROPS_PER_CHUNK - i,
        {
            drops.push(DropSlot {
                generation: 0,
                active: false,
                stack: ItemStack { item: 0, count: 0, durability: 0 },
                block_index: 0,
                age_ticks: 0,
                pickup_delay_ticks: 0,
            });
            assert(drops@ =~= Seq::new((i + 1) as nat, |k: int| default_drop()));
            i = i + 1;
        }
        return Ok((drops, start));
    }
    let with_durability = schema >= 5;
    let n: usize = if with_durability {
        19
    } else {
        17
    };
    let mut drops: Vec<DropSlot> = Vec::with_capacity(DROPS_PER_CHUNK);
    let mut i: usize = 0;
    let mut pos = start;
    while i < DROPS_PER_CHUNK
        invariant
            i <= DROPS_PER_CHUNK,
            n == drop_len(with_durability),
            with_durability == (schema >= 5),
            schema >= 2,
            pos == start + i * n,
            parse_drops(d@, start as int, i as nat, with_durability) == Some(drops@),
        decreases DROPS_PER_CHUNK - i,
    {
        match decode_drop(d, pos, with_durability) {
            Some(x) => {
                drops.push(x);
            },
            None => {
                proof {
                    assert(((i + 1) as nat - 1) * drop_len(with_durability) == i * n);
                    assert(parse_drops(d@, start as int, (i + 1) as nat, with_durability) is None);
                    lemma_drops_none_stays(
                        d@,
                        start as int,
                        (i + 1) as nat,
                        DROPS_PER_CHUNK as nat,
                        with_durability,
                    );
                }
                return Err(i);
            },
        }
        let _len = d.len();
        pos = pos + n;
        i = i + 1;
    }
    Ok((drops, pos))
}

fn decode_furnace_part(d: &[u8], start: usize, schema: u32) -> (res: Result<(Vec<FurnaceSlot>, usize), usize>)
    ensures
        res is Err <==> parse_furnace_part(d@, start as int, schema) is None,
        res matches Ok((v, e)) ==> parse_furnace_part(d@, start as int, schema) == Some(
            (v@, e as int),
        ),
{
    if schema < 4 {
        let mut furnaces: Vec<FurnaceSlot> = Vec::with_capacity(FURNACES_PER_CHUNK);
        let mut i: usize = 0;
        while i < FURNACES_PER_CHUNK
            invariant
                i <= FURNACES_PER_CHUNK,
                furnaces@ == Seq::new(i as nat, |k: int| furnace_with_generation(0)),
            decreases FURNACES_PER_CHUNK - i,
        {
            let empty = ItemStack { item: 0, count: 0, durability: 0 };
            furnaces.push(FurnaceSlot {
                generation: 0,
                active: false,
                block_index: 0,
                input: empty,
                fuel: empty,
                output: empty,
                progress_ticks: 0,
                burn_ticks: 0,
            });
            assert(furnaces@ =~= Seq::new((i + 1) as nat, |k: int| furnace_with_generation(0)));
            i = i + 1;
        }
        return Ok((furnaces, start));
    }
    let mut furnaces: Vec<FurnaceSlot> = Vec::with_capacity(FURNACES_PER_CHUNK);
    let mut i: usize = 0;
    let mut pos = start;
    while i < FURNACES_PER_CHUNK
        invariant
            i <= FURNACES_PER_CHUNK,
            schema >= 4,
            pos == start + i * 21,
            parse_furnaces(d@, start as int, i as nat) == Some(furnaces@),
        decreases FURNACES_PER_CHUNK - i,
    {
        match decode_furnace(d, pos) {
            Some(x) => {
                furnaces.push(x);
            },
            None => {
                proof {
                    lemma_furnaces_none_stays(
                        d@,
                        start as int,
                        (i + 1) as nat,
                        FURNACES_PER_CHUNK as nat,
                    );
                }
                return Err(i);
            },
        }
        let _len = d.len();
        pos = pos + 21;
        i = i + 1;
    }
    Ok((furnaces, pos))
}

fn decode_chest_part(d: &[u8], start: usize, schema: u32) -> (res: Result<(Vec<ChestSlot>, usize), usize>)
    ensures
        res is Err <==> parse_chest_part(d@, start as int, schema) is None,
        res matches Ok((v, e)) ==> parse_chest_part(d@, start as int, schema) == Some(
            (v@.map_values(|c: ChestSlot| c@), e as int),
        ),
{
    if schema < 6 {
        let mut chests: Vec<ChestSlot> = Vec::with_capacity(CHESTS_PER_CHUNK);
        let mut i: usize = 0;
        while i < CHESTS_PER_CHUNK
            invariant
                i <= CHESTS_PER_CHUNK,
                chests@.map_values(|c: ChestSlot| c@) == Seq::new(
                    i as nat,
                    |k: int| chest_with_generation(0),
                ),
            decreases CHESTS_PER_CHUNK - i,
        {
            let empty = ItemStack { item: 0, count: 0, durability: 0 };
            let chest = ChestSlot {
                generation: 0,
                active: false,
                block_index: 0,
                items: [empty;CHEST_SLOTS],
            };
            assert(chest@.items =~= crate::chunk::empty_chest_items());
            let ghost before = chests@.map_values(|c: ChestSlot| c@);
            chests.push(chest);
            assert(chests@.map_values(|c: ChestSlot| c@) =~= before.push(chest@));
            assert(chests@.map_values(|c: ChestSlot| c@) =~= Seq::new(
                (i + 1) as nat,
                |k: int| chest_with_generation(0),
            ));
            i = i + 1;
        }
        return Ok((chests, start));
    }
    let mut chests: Vec<ChestSlot> = Vec::with_capacity(CHESTS_PER_CHUNK);
    let mut i: usize = 0;
    let mut pos = start;
    while i < CHESTS_PER_CHUNK
        invariant
            i <= CHESTS_PER_CHUNK,
            schema >= 6,
            pos == start + i * 144,
            parse_chests(d@, start as int, i as nat) == Some(
                chests@.map_values(|c: ChestSlot| c@),
            ),
        decreases CHESTS_PER_CHUNK - i,
    {
        match decode_chest(d, pos) {
            Some(x) => {
                let ghost before = chests@.map_values(|c: ChestSlot| c@);
                chests.push(x);
                assert(chests@.map_values(|c: ChestSlot| c@) =~= before.push(x@));
            },
            None => {
                proof {
                    lemma_chests_none_stays(d@, start as int, (i + 1) as nat, CHESTS_PER_CHUNK as nat);
                }
                return Err(i);
            },
        }
        let _len = d.len();
        pos = pos + 144;
        i = i + 1;
    }
    Ok((chests, pos))
}

fn check_logical_header(key: ChunkKey, revision: u64, schema: u32, data: &[u8]) -> (res:
    StorageResult<()>)
    ensures
        res is Ok <==> logical_header_ok(key, revision, schema, data@),
        res matches Err(e) ==> e is Corrupt,
{
    if data.len() < 4 {
        return Err(short_read("logical magic", 4, 0, data.len()));
    }
    if !(data[0] == 0x4D && data[1] == 0x43 && data[2] == 0x47 && data[3] == 0x43) {
        return Err(corrupt("logical magic", "unexpected magic"));
    }
    if data.len() < 8 {
        return Err(short_read("logical schema", 4, 4, data.len()));
    }
    if read_u32(data, 4) != schema {
        return Err(corrupt("logical schema", "does not match the envelope schema"));
    }
    if data.len() < 12 {
        return Err(short_read("logical key", 4, 8, data.len()));
    }
    let dimension = read_u32(data, 8) as i32;
    if dimension != OVERWORLD && dimension != DEPTHS {
        return Err(corrupt_signed("logical key", "unsupported dimension ", dimension as i64));
    }
    if data.len() < 16 {
        return Err(short_read("logical key", 4, 12, data.len()));
    }
    if data.len() < 20 {
        return Err(short_read("logical key", 4, 16, data.len()));
    }
    if data.len() < 28 {
        return Err(short_read("logical revision", 8, 20, data.len()));
    }
    let payload_key = ChunkKey { dimension, x: read_u32(data, 12) as i32, z: read_u32(data, 16) as i32 };
    if payload_key != key || read_u64(data, 20) != revision {
        return Err(corrupt("logical key", "key or revision does not match the envelope"));
    }
    if data.len() < 32 {
        return Err(short_read("section count", 4, 28, data.len()));
    }
    let count = read_u32(data, 28);
    if count != SECTIONS_PER_CHUNK as u32 {
        return Err(corrupt_numbered("section count", "", count as u64, ", want 24"));
    }
    Ok(())
}

/// Parses one `MCGC` logical payload at `schema` without migrating it.
///
/// The chunk identity inside the payload must match the requested one, and the
/// declared schema must match `schema`; a mismatch is corruption rather than a
/// reason to guess.
pub fn decode_logical(key: ChunkKey, revision: u64, schema: u32, data: &[u8]) -> (res:
    StorageResult<Chunk>)
    ensures
        res is Ok <==> parse_logical(key, revision, schema, data@) is Some,
        res matches Ok(c) ==> parse_logical(key, revision, schema, data@) == Some(c@),
        res matches Err(e) ==> e is Corrupt,
{
    if schema < 1 || schema > 9 {
        return Err(corrupt_numbered("chunk schema", "unsupported chunk schema ", schema as u64, ""));
    }
    check_logical_header(key, revision, schema, data)?;
    let (sections, e1) = match decode_sections(data) {
        Ok(pair) => pair,
        Err(index) => {
            return Err(corrupt_at("section", index, "malformed section record"));
        },
    };
    let (drops, e2) = match decode_drop_part(data, e1, schema) {
        Ok(pair) => pair,
        Err(slot) => {
            return Err(corrupt_at("drop slot", slot, "malformed drop slot"));
        },
    };
    let (furnaces, e3) = match decode_furnace_part(data, e2, schema) {
        Ok(pair) => pair,
        Err(slot) => {
            return Err(corrupt_at("furnace slot", slot, "malformed furnace slot"));
        },
    };
    let (chests, e4) = match decode_chest_part(data, e3, schema) {
        Ok(pair) => pair,
        Err(slot) => {
            return Err(corrupt_at("chest slot", slot, "malformed chest slot"));
        },
    };
    if e4 != data.len() {
        return Err(corrupt("logical payload", "trailing bytes"));
    }
    let chunk = Chunk { sections, drops, furnaces, chests };
    Ok(chunk)
}

} // verus!
