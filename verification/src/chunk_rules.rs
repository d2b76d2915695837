//! The chunk admission rules and the schema migration chain.
use crate::chunk::{
    BLOCKS_PER_CHUNK, CHEST_SLOTS, CHESTS_PER_CHUNK, CURRENT_SCHEMA, ChestSlot, ChestView, Chunk,
    ChunkView, DEPTHS, DROPS_PER_CHUNK, DropSlot, FURNACE_BURN_TICKS, FURNACE_SMELT_TICKS,
    FURNACES_PER_CHUNK, FurnaceSlot, OVERWORLD, SECTIONS_PER_CHUNK, chest_with_generation,
    default_drop, furnace_with_generation,
};
use crate::error::{
    StorageError, StorageResult, corrupt_at, corrupt_numbered, corrupt_two_numbers, decimal_text,
};
use crate::items::{
    ITEM_COAL, ITEM_NONE, ItemStack, MAX_STACK_COUNT, all_stacks_valid, empty_stack,
    is_smelting_product, item_max_durability, smelting_output, spec_is_smelting_product,
    spec_item_max_durability, spec_smelting_output, stack_valid, stacks_valid,
};
use crate::section::{
    BLOCKS_PER_SECTION, CHEST_BLOCK, FURNACE_BLOCK, block_at, residue_check, section_check, section_valid,
    spec_block_at,
};
use vstd::prelude::*;

verus! {

broadcast use vstd::seq::group_seq_axioms;

/// An item that carries durability.
pub open spec fn is_tool(item: u16) -> bool {
    spec_item_max_durability(item) is Some
}

/// Current drop rule: an active slot has a registered generation, a canonical
/// stack and a block index inside the chunk.
pub open spec fn drop_slot_ok(d: DropSlot) -> bool {
    d.active ==> {
        &&& d.generation != 0
        &&& stack_valid(d.stack)
        &&& d.block_index < BLOCKS_PER_CHUNK
    }
}

/// Pre-schema-5 drop rule: tool stacks may hold several items (bounded by the
/// general stack limit) and carry no durability yet.
pub open spec fn legacy_drop_slot_ok(d: DropSlot) -> bool {
    d.active ==> {
        &&& d.generation != 0
        &&& d.block_index < BLOCKS_PER_CHUNK
        &&& if is_tool(d.stack.item) {
            1 <= d.stack.count <= MAX_STACK_COUNT
        } else {
            stack_valid(d.stack)
        }
    }
}

/// The furnace input slot is empty or a registered smelting input.
pub open spec fn furnace_input_ok(s: ItemStack) -> bool {
    stack_valid(s) && (s.item == ITEM_NONE || spec_smelting_output(s.item) is Some)
}

/// The furnace output slot is empty or a smelting product.
pub open spec fn furnace_output_ok(s: ItemStack) -> bool {
    stack_valid(s) && (s.item == ITEM_NONE || spec_is_smelting_product(s.item))
}

/// The fixed furnace constraints: an inactive slot keeps only its generation;
/// an active one has a registered generation, stays inside both tick ceilings
/// and holds a canonical input, coal-or-empty fuel and output.
pub open spec fn furnace_valid(f: FurnaceSlot) -> bool {
    if !f.active {
        f == furnace_with_generation(f.generation)
    } else {
        &&& f.generation != 0
        &&& f.progress_ticks < FURNACE_SMELT_TICKS
        &&& f.burn_ticks <= FURNACE_BURN_TICKS
        &&& furnace_input_ok(f.input)
        &&& stack_valid(f.fuel)
        &&& (f.fuel.item == ITEM_NONE || f.fuel.item == ITEM_COAL)
        &&& furnace_output_ok(f.output)
    }
}

/// The fixed chest constraints: an inactive slot keeps only its generation; an
/// active one has a registered generation and twenty-seven canonical slots.
pub open spec fn chest_valid(c: ChestView) -> bool {
    if !c.active {
        c == chest_with_generation(c.generation)
    } else {
        c.generation != 0 && c.items.len() == CHEST_SLOTS && all_stacks_valid(c.items)
    }
}

fn stack_is_empty(s: ItemStack) -> (b: bool)
    ensures
        b == (s == empty_stack()),
{
    s.item == 0 && s.count == 0 && s.durability == 0
}

impl FurnaceSlot {
    /// Reports whether the slot satisfies the fixed furnace constraints.
    pub fn is_valid(&self) -> (b: bool)
        ensures
            b == furnace_valid(*self),
    {
        if !self.active {
            return self.block_index == 0 && stack_is_empty(self.input) && stack_is_empty(
                self.fuel,
            ) && stack_is_empty(self.output) && self.progress_ticks == 0 && self.burn_ticks == 0;
        }
        if self.generation == 0 {
            return false;
        }
        if self.progress_ticks >= FURNACE_SMELT_TICKS || self.burn_ticks > FURNACE_BURN_TICKS {
            return false;
        }
        valid_furnace_input(self.input) && self.fuel.is_valid() && (self.fuel.item == ITEM_NONE
            || self.fuel.item == ITEM_COAL) && valid_furnace_output(self.output)
    }
}

fn chest_items_bare(items: &[ItemStack; CHEST_SLOTS]) -> (b: bool)
    ensures
        b == (items@ == crate::chunk::empty_chest_items()),
{
    let mut i: usize = 0;
    while i < CHEST_SLOTS
        invariant
            i <= CHEST_SLOTS,
            items@.len() == CHEST_SLOTS,
            forall|k: int| 0 <= k < i ==> items@[k] == empty_stack(),
        decreases CHEST_SLOTS - i,
    {
        if !stack_is_empty(items[i]) {
            assert(items@[i as int] != crate::chunk::empty_chest_items()[i as int]);
            return false;
        }
        i = i + 1;
    }
    assert(items@ =~= crate::chunk::empty_chest_items());
    true
}

impl ChestSlot {
    /// Reports whether the slot satisfies the fixed chest constraints.
    pub fn is_valid(&self) -> (b: bool)
        ensures
            b == chest_valid(self@),
    {
        if !self.active {
            return self.block_index == 0 && chest_items_bare(&self.items);
        }
        if self.generation == 0 {
            return false;
        }
        stacks_valid(&self.items)
    }
}

fn valid_furnace_input(stack: ItemStack) -> (b: bool)
    ensures
        b == furnace_input_ok(stack),
{
    if !stack.is_valid() {
        return false;
    }
    if stack.item == ITEM_NONE {
        return true;
    }
    smelting_output(stack.item).is_some()
}

fn valid_furnace_output(stack: ItemStack) -> (b: bool)
    ensures
        b == furnace_output_ok(stack),
{
    if !stack.is_valid() {
        return false;
    }
    stack.item == ITEM_NONE || is_smelting_product(stack.item)
}

/// Checks an active drop slot's current field bounds.
pub fn validate_drop_slot(d: &DropSlot) -> (res: Result<(), &'static str>)
    ensures
        res is Ok <==> drop_slot_ok(*d),
{
    if !d.active {
        return Ok(());
    }
    if d.generation == 0 {
        return Err("active drop slot has zero generation");
    }
    if !d.stack.is_valid() {
        return Err("drop stack is invalid");
    }
    if d.block_index >= BLOCKS_PER_CHUNK {
        return Err("drop block index is outside the chunk");
    }
    Ok(())
}

/// Applies the pre-schema-5 drop rule before durability and tool-count migration.
pub fn validate_legacy_drop_slot(d: &DropSlot) -> (res: Result<(), &'static str>)
    ensures
        res is Ok <==> legacy_drop_slot_ok(*d),
{
    if !d.active {
        return Ok(());
    }
    if d.generation == 0 {
        return Err("active drop slot has zero generation");
    }
    if d.block_index >= BLOCKS_PER_CHUNK {
        return Err("drop block index is outside the chunk");
    }
    if item_max_durability(d.stack.item).is_some() {
        if d.stack.count < 1 || d.stack.count > MAX_STACK_COUNT {
            return Err("legacy tool drop stack is invalid");
        }
        return Ok(());
    }
    if !d.stack.is_valid() {
        return Err("drop stack is invalid");
    }
    Ok(())
}

/// The fixed slot array lengths of a chunk.
pub open spec fn chunk_shape_ok(c: ChunkView) -> bool {
    &&& c.sections.len() == SECTIONS_PER_CHUNK
    &&& c.drops.len() == DROPS_PER_CHUNK
    &&& c.furnaces.len() == FURNACES_PER_CHUNK
    &&& c.chests.len() == CHESTS_PER_CHUNK
}

/// A drop slot admitted for a chunk whose values follow `value_schema` and
/// whose bytes are written at `output_schema`: the slot rule of its value
/// schema, nothing the output layout would lose, and (for current values
/// written at schema 2 to 4) no inactive tool whose missing durability the
/// legacy migration would refill.
pub open spec fn drop_admitted(d: DropSlot, value_schema: u32, output_schema: u32) -> bool {
    &&& if value_schema < 5 {
        legacy_drop_slot_ok(d)
    } else {
        drop_slot_ok(d)
    }
    &&& (output_schema < 2 ==> d == default_drop())
    &&& (output_schema < 5 ==> d.stack.durability == 0)
    &&& !(value_schema == CURRENT_SCHEMA && 2 <= output_schema < 5 && !d.active
        && d.stack.durability == 0 && is_tool(d.stack.item))
}

/// `block_index` lies inside the chunk and its cell holds `block`.
pub open spec fn block_points_at(c: ChunkView, block_index: u32, block: u16) -> bool {
    &&& block_index < BLOCKS_PER_CHUNK
    &&& spec_block_at(
        c.sections[(block_index / BLOCKS_PER_SECTION as u32) as int],
        (block_index % BLOCKS_PER_SECTION as u32) as int,
    ) == block
}

/// A furnace slot admitted at `output_schema`.
pub open spec fn furnace_admitted(c: ChunkView, f: FurnaceSlot, output_schema: u32) -> bool {
    &&& furnace_valid(f)
    &&& (output_schema < 4 ==> f == furnace_with_generation(0))
    &&& (f.active ==> block_points_at(c, f.block_index, FURNACE_BLOCK))
}

/// A chest slot admitted at `output_schema`.
pub open spec fn chest_admitted(c: ChunkView, ch: ChestView, output_schema: u32) -> bool {
    &&& chest_valid(ch)
    &&& (output_schema < 6 ==> ch == chest_with_generation(0))
    &&& (ch.active ==> block_points_at(c, ch.block_index, CHEST_BLOCK))
}

/// No two active furnaces share a block.
pub open spec fn furnace_blocks_distinct(fs: Seq<FurnaceSlot>) -> bool {
    forall|i: int, j: int|
        0 <= i < j < fs.len() && (#[trigger] fs[i]).active && (#[trigger] fs[j]).active
            ==> fs[i].block_index != fs[j].block_index
}

/// No two active chests share a block.
pub open spec fn chest_blocks_distinct(cs: Seq<ChestView>) -> bool {
    forall|i: int, j: int|
        0 <= i < j < cs.len() && (#[trigger] cs[i]).active && (#[trigger] cs[j]).active
            ==> cs[i].block_index != cs[j].block_index
}

/// The aggregate rule: a chunk whose values follow `value_schema` may be
/// written at `output_schema` and read back. Every section is loadable, every
/// slot is admitted, and every active furnace or chest points at its own
/// matching block inside the chunk.
pub open spec fn chunk_admitted(c: ChunkView, value_schema: u32, output_schema: u32) -> bool {
    &&& chunk_shape_ok(c)
    &&& forall|i: int| 0 <= i < c.sections.len() ==> #[trigger] section_valid(c.sections[i])
    &&& forall|i: int|
        0 <= i < c.drops.len() ==> #[trigger] drop_admitted(c.drops[i], value_schema, output_schema)
    &&& forall|i: int|
        0 <= i < c.furnaces.len() ==> #[trigger] furnace_admitted(c, c.furnaces[i], output_schema)
    &&& furnace_blocks_distinct(c.furnaces)
    &&& forall|i: int|
        0 <= i < c.chests.len() ==> #[trigger] chest_admitted(c, c.chests[i], output_schema)
    &&& chest_blocks_distinct(c.chests)
}

/// Rejects a chunk whose fixed slot arrays have the wrong length.
fn validate_chunk_shape(chunk: &Chunk) -> (res: StorageResult<()>)
    ensures
        res is Ok <==> chunk_shape_ok(chunk@),
        res matches Err(e) ==> e is Corrupt,
{
    if chunk.sections.len() != SECTIONS_PER_CHUNK {
        return Err(corrupt_numbered("chunk sections", "", chunk.sections.len() as u64, ", want 24"));
    }
    if chunk.drops.len() != DROPS_PER_CHUNK {
        return Err(corrupt_numbered("chunk drops", "", chunk.drops.len() as u64, ", want 32"));
    }
    if chunk.furnaces.len() != FURNACES_PER_CHUNK {
        return Err(corrupt_numbered("chunk furnaces", "", chunk.furnaces.len() as u64, ", want 32"));
    }
    if chunk.chests.len() != CHESTS_PER_CHUNK {
        return Err(corrupt_numbered("chunk chests", "", chunk.chests.len() as u64, ", want 16"));
    }
    Ok(())
}

fn validate_sections(chunk: &Chunk) -> (res: StorageResult<()>)
    ensures
        res is Ok <==> forall|i: int|
            0 <= i < chunk@.sections.len() ==> #[trigger] section_valid(chunk@.sections[i]),
        res matches Err(e) ==> e is Corrupt,
{
    let mut i: usize = 0;
    while i < chunk.sections.len()
        invariant
            i <= chunk.sections@.len(),
            forall|k: int| 0 <= k < i ==> #[trigger] section_valid(chunk@.sections[k]),
        decreases chunk.sections@.len() - i,
    {
        if !residue_check(&chunk.sections[i]) {
            assert(chunk.sections@[i as int]@ == chunk@.sections[i as int]);
            assert(!section_valid(chunk@.sections[i as int]));
            return Err(corrupt_at("section", i, "storage mode carries residue or a wrong shape"));
        }
        if !section_check(&chunk.sections[i]) {
            assert(chunk.sections@[i as int]@ == chunk@.sections[i as int]);
            assert(!section_valid(chunk@.sections[i as int]));
            return Err(corrupt_at("section", i, "domain section rejected the snapshot"));
        }
        i = i + 1;
    }
    Ok(())
}

fn drop_admission(d: &DropSlot, value_schema: u32, output_schema: u32) -> (res: Result<
    (),
    &'static str,
>)
    ensures
        res is Ok <==> drop_admitted(*d, value_schema, output_schema),
{
    let rule = if value_schema < 5 {
        validate_legacy_drop_slot(d)
    } else {
        validate_drop_slot(d)
    };
    rule?;
    if output_schema < 2 && !(d.generation == 0 && !d.active && stack_is_empty(d.stack)
        && d.block_index == 0 && d.age_ticks == 0 && d.pickup_delay_ticks == 0) {
        return Err("schema omits nondefault drop");
    }
    if output_schema < 5 && d.stack.durability != 0 {
        return Err("schema omits durability");
    }
    if value_schema == CURRENT_SCHEMA && 2 <= output_schema && output_schema < 5 && !d.active
        && d.stack.durability == 0 && item_max_durability(d.stack.item).is_some() {
        return Err("legacy migration would change inactive tool durability");
    }
    Ok(())
}

/// Splits a chunk-linear block index into its section and the block's index
/// inside that section, or `None` past the last section.
pub fn split_block_index(index: u32) -> (r: Option<(usize, usize)>)
    ensures
        r is Some <==> index < BLOCKS_PER_CHUNK,
        r matches Some((section, local)) ==> section == index / BLOCKS_PER_SECTION as u32 && local
            == index % BLOCKS_PER_SECTION as u32 && section < SECTIONS_PER_CHUNK,
{
    if index >= BLOCKS_PER_CHUNK {
        return None;
    }
    assert(index / 4096 < 24) by (nonlinear_arith)
        requires
            index < 98304,
    ;
    Some(((index / BLOCKS_PER_SECTION as u32) as usize, (index % BLOCKS_PER_SECTION as u32) as usize))
}

fn points_at(chunk: &Chunk, block_index: u32, block: u16) -> (b: bool)
    requires
        chunk_shape_ok(chunk@),
        forall|i: int| 0 <= i < chunk@.sections.len() ==> #[trigger] section_valid(chunk@.sections[i]),
    ensures
        b == block_points_at(chunk@, block_index, block),
{
    match split_block_index(block_index) {
        None => false,
        Some((section, local)) => {
            assert(section_valid(chunk@.sections[section as int]));
            block_at(&chunk.sections[section], local) == block
        },
    }
}

fn validate_furnaces(chunk: &Chunk, output_schema: u32) -> (res: StorageResult<()>)
    requires
        chunk_shape_ok(chunk@),
        forall|i: int| 0 <= i < chunk@.sections.len() ==> #[trigger] section_valid(chunk@.sections[i]),
    ensures
        res is Ok <==> (forall|i: int|
            0 <= i < chunk@.furnaces.len() ==> #[trigger] furnace_admitted(
                chunk@,
                chunk@.furnaces[i],
                output_schema,
            )) && furnace_blocks_distinct(chunk@.furnaces),
        res matches Err(e) ==> e is Corrupt,
{
    let ghost fs = chunk@.furnaces;
    let mut i: usize = 0;
    while i < chunk.furnaces.len()
        invariant
            fs == chunk@.furnaces,
            chunk_shape_ok(chunk@),
            forall|k: int|
                0 <= k < chunk@.sections.len() ==> #[trigger] section_valid(chunk@.sections[k]),
            i <= fs.len(),
            forall|k: int| 0 <= k < i ==> #[trigger] furnace_admitted(chunk@, fs[k], output_schema),
            forall|a: int, b: int|
                0 <= a < b < i && (#[trigger] fs[a]).active && (#[trigger] fs[b]).active
                    ==> fs[a].block_index != fs[b].block_index,
        decreases fs.len() - i,
    {
        let f = &chunk.furnaces[i];
        assert(*f == fs[i as int]);
        if !f.is_valid() {
            assert(!furnace_admitted(chunk@, fs[i as int], output_schema));
            return Err(corrupt_numbered("furnace slot", "", i as u64, " is not a valid fixed slot"));
        }
        if output_schema < 4 && !(f.generation == 0 && f.active == false && f.block_index == 0
            && stack_is_empty(f.input) && stack_is_empty(f.fuel) && stack_is_empty(f.output)
            && f.progress_ticks == 0 && f.burn_ticks == 0) {
            assert(!furnace_admitted(chunk@, fs[i as int], output_schema));
            return Err(corrupt_at("furnace slot", i, "schema omits nondefault furnace"));
        }
        if f.active {
            if f.block_index >= BLOCKS_PER_CHUNK {
                assert(!furnace_admitted(chunk@, fs[i as int], output_schema));
                return Err(corrupt_numbered("furnace slot", "", i as u64, " block index is outside the chunk"));
            }
            let mut j: usize = 0;
            while j < i
                invariant
                    fs == chunk@.furnaces,
                    *f == fs[i as int],
                    j <= i < fs.len(),
                    fs[i as int].active,
                    forall|a: int|
                        0 <= a < j && (#[trigger] fs[a]).active ==> fs[a].block_index
                            != fs[i as int].block_index,
                decreases i - j,
            {
                assert(chunk.furnaces@[j as int] == fs[j as int]);
                if chunk.furnaces[j].active && chunk.furnaces[j].block_index == f.block_index {
                    assert(fs[j as int].active && fs[i as int].active);
                    assert(!(fs[j as int].active && fs[i as int].active ==> fs[j as int].block_index
                        != fs[i as int].block_index));
                    return Err(corrupt_two_numbers("furnace slot", i as u64, " shares block index ", f.block_index as u64));
                }
                j = j + 1;
            }
            if !points_at(chunk, f.block_index, FURNACE_BLOCK) {
                assert(!furnace_admitted(chunk@, fs[i as int], output_schema));
                return Err(corrupt_numbered("furnace slot", "", i as u64, " does not point at a furnace block"));
            }
        }
        assert(furnace_admitted(chunk@, fs[i as int], output_schema));
        i = i + 1;
    }
    Ok(())
}

fn validate_chests(chunk: &Chunk, output_schema: u32) -> (res: StorageResult<()>)
    requires
        chunk_shape_ok(chunk@),
        forall|i: int| 0 <= i < chunk@.sections.len() ==> #[trigger] section_valid(chunk@.sections[i]),
    ensures
        res is Ok <==> (forall|i: int|
            0 <= i < chunk@.chests.len() ==> #[trigger] chest_admitted(
                chunk@,
                chunk@.chests[i],
                output_schema,
            )) && chest_blocks_distinct(chunk@.chests),
        res matches Err(e) ==> e is Corrupt,
{
    let ghost cs = chunk@.chests;
    let mut i: usize = 0;
    while i < chunk.chests.len()
        invariant
            cs == chunk@.chests,
            chunk_shape_ok(chunk@),
            forall|k: int|
                0 <= k < chunk@.sections.len() ==> #[trigger] section_valid(chunk@.sections[k]),
            i <= cs.len(),
            forall|k: int| 0 <= k < i ==> #[trigger] chest_admitted(chunk@, cs[k], output_schema),
            forall|a: int, b: int|
                0 <= a < b < i && (#[trigger] cs[a]).active && (#[trigger] cs[b]).active
                    ==> cs[a].block_index != cs[b].block_index,
        decreases cs.len() - i,
    {
        let c = &chunk.chests[i];
        assert(c@ == cs[i as int]);
        if !c.is_valid() {
            assert(!chest_admitted(chunk@, cs[i as int], output_schema));
            return Err(corrupt_numbered("chest slot", "", i as u64, " is not a valid fixed slot"));
        }
        if output_schema < 6 && !(c.generation == 0 && c.active == false && c.block_index == 0
            && chest_items_bare(&c.items)) {
            assert(!chest_admitted(chunk@, cs[i as int], output_schema));
            return Err(corrupt_at("chest slot", i, "schema omits nondefault chest"));
        }
        if c.active {
            if c.block_index >= BLOCKS_PER_CHUNK {
                assert(!chest_admitted(chunk@, cs[i as int], output_schema));
                return Err(corrupt_numbered("chest slot", "", i as u64, " block index is outside the chunk"));
            }
            let mut j: usize = 0;
            while j < i
                invariant
                    cs == chunk@.chests,
                    c@ == cs[i as int],
                    j <= i < cs.len(),
                    cs[i as int].active,
                    forall|a: int|
                        0 <= a < j && (#[trigger] cs[a]).active ==> cs[a].block_index
                            != cs[i as int].block_index,
                decreases i - j,
            {
                assert(chunk.chests@[j as int]@ == cs[j as int]);
                if chunk.chests[j].active && chunk.chests[j].block_index == c.block_index {
                    assert(cs[j as int].active && cs[i as int].active);
                    assert(!(cs[j as int].active && cs[i as int].active ==> cs[j as int].block_index
                        != cs[i as int].block_index));
                    return Err(corrupt_two_numbers("chest slot", i as u64, " shares block index ", c.block_index as u64));
                }
                j = j + 1;
            }
            if !points_at(chunk, c.block_index, CHEST_BLOCK) {
                assert(!chest_admitted(chunk@, cs[i as int], output_schema));
                return Err(corrupt_numbered("chest slot", "", i as u64, " does not point at a chest block"));
            }
        }
        assert(chest_admitted(chunk@, cs[i as int], output_schema));
        i = i + 1;
    }
    Ok(())
}

/// The shape and every section pass, and some drop slot is refused: the
/// drop refusal is the one reported, before any furnace or chest check.
pub open spec fn drop_fails_first(c: ChunkView, value_schema: u32, output_schema: u32) -> bool {
    &&& chunk_shape_ok(c)
    &&& forall|i: int| 0 <= i < c.sections.len() ==> #[trigger] section_valid(c.sections[i])
    &&& exists|i: int|
        0 <= i < c.drops.len() && !#[trigger] drop_admitted(c.drops[i], value_schema, output_schema)
}

/// `m` begins with `p`.
pub open spec fn starts_with(m: Seq<char>, p: Seq<char>) -> bool {
    p.len() <= m.len() && m.take(p.len() as int) == p
}

/// A drop slot refusal: `"drop slot: {slot}: "` followed by the detail.
pub open spec fn drop_slot_message(m: Seq<char>) -> bool {
    exists|slot: u64| starts_with(m, "drop slot"@ + ": "@ + #[trigger] decimal_text(slot) + ": "@)
}

/// Validates one raw aggregate and refuses fields its output layout would
/// lose. A whole-envelope writer admits current values; a direct logical
/// writer admits historical values under their own drop rule.
pub fn validate_chunk_at_schema(chunk: &Chunk, value_schema: u32, output_schema: u32) -> (res:
    StorageResult<()>)
    ensures
        res is Ok <==> chunk_admitted(chunk@, value_schema, output_schema),
        res matches Err(e) ==> e is Corrupt,
        drop_fails_first(chunk@, value_schema, output_schema) ==> (res matches Err(
            StorageError::Corrupt(m),
        ) && drop_slot_message(m@)),
{
    validate_chunk_shape(chunk)?;
    validate_sections(chunk)?;
    let mut i: usize = 0;
    while i < chunk.drops.len()
        invariant
            i <= chunk@.drops.len(),
            forall|k: int|
                0 <= k < i ==> #[trigger] drop_admitted(chunk@.drops[k], value_schema, output_schema),
        decreases chunk@.drops.len() - i,
    {
        if let Err(detail) = drop_admission(&chunk.drops[i], value_schema, output_schema) {
            let err = corrupt_at("drop slot", i, detail);
            assert(err matches StorageError::Corrupt(m) && drop_slot_message(m@)) by {
                let m = err->Corrupt_0;
                let p = "drop slot"@ + ": "@ + decimal_text(i as u64) + ": "@;
                assert(m@ == p + detail@);
                assert(m@.take(p.len() as int) =~= p);
                assert(starts_with(m@, p));
            }
            return Err(err);
        }
        i = i + 1;
    }
    validate_furnaces(chunk, output_schema)?;
    validate_chests(chunk, output_schema)?;
    Ok(())
}

/// Validates a chunk against the current-schema rules, as decode does after migration.
pub fn validate_chunk(chunk: &Chunk) -> (res: StorageResult<()>)
    ensures
        res is Ok <==> chunk_admitted(chunk@, CURRENT_SCHEMA, CURRENT_SCHEMA),
        res matches Err(e) ==> e is Corrupt,
{
    validate_chunk_at_schema(chunk, CURRENT_SCHEMA, CURRENT_SCHEMA)
}

} // verus!
