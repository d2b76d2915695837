//! Item and inventory value rules shared by the entity save families.
//!
//! The item registry rules the codecs admit against live here: the legal item
//! numbering, per-item stack limits, tool durability ceilings and the furnace
//! smelting pairs. Player armor is not an ordinary stack and is not admitted
//! here.
use crate::error::{StorageResult, corrupt};
use vstd::prelude::*;

verus! {

/// Stable global item number. Numbering is protocol-stable and append-only.
pub type ItemId = u16;

/// Empty slot and list terminator.
pub const ITEM_NONE: ItemId = 0;
/// Furnace fuel and the smelting pairs named by the chunk slot layout.
pub const ITEM_COAL: ItemId = 5;
pub const ITEM_RAW_IRON: ItemId = 6;
pub const ITEM_IRON_INGOT: ItemId = 7;
pub const ITEM_STONE_PICKAXE: ItemId = 10;
pub const ITEM_IRON_PICKAXE: ItemId = 11;
pub const ITEM_SAND: ItemId = 18;
pub const ITEM_GLASS: ItemId = 23;
pub const ITEM_BRICK: ItemId = 24;
pub const ITEM_CLAY: ItemId = 27;
pub const ITEM_RAW_BEEF: ItemId = 53;
pub const ITEM_COOKED_BEEF: ItemId = 54;

/// Exclusive upper bound of the legal item numbering.
pub const ITEM_ID_MAX: ItemId = 66;

/// Fixed number of hotbar slots.
pub const HOTBAR_SLOTS: usize = 9;
/// Fixed number of backpack slots beyond the hotbar.
pub const BACKPACK_SLOTS: usize = 27;
/// Maximum stack size for a stackable item.
pub const MAX_STACK_COUNT: u8 = 64;

/// One hotbar or backpack slot. The zero value is an empty slot.
#[derive(Clone, Copy, Debug, Default, PartialEq, Eq, Structural)]
pub struct ItemStack {
    pub item: ItemId,
    pub count: u8,
    /// Only meaningful for tools; other items keep it at zero.
    pub durability: u16,
}

/// The empty slot value.
pub open spec fn empty_stack() -> ItemStack {
    ItemStack { item: 0, count: 0, durability: 0 }
}

/// Durability ceiling of a tool, `None` for every item that is not a tool.
pub open spec fn spec_item_max_durability(item: ItemId) -> Option<u16> {
    if item == ITEM_STONE_PICKAXE {
        Some(131u16)
    } else if item == ITEM_IRON_PICKAXE {
        Some(250u16)
    } else {
        None
    }
}

/// Per-slot stack limit of a registered item, `None` for an unknown item.
pub open spec fn spec_item_stack_limit(item: ItemId) -> Option<u8> {
    if 1 <= item < ITEM_ID_MAX {
        if spec_item_max_durability(item) is Some {
            Some(1u8)
        } else {
            Some(MAX_STACK_COUNT)
        }
    } else {
        None
    }
}

/// The canonical slot rule: an empty slot carries no item, count or
/// durability; a non-empty slot is a registered item within its stack limit
/// whose durability is inside the tool range, or zero for a non-tool.
pub open spec fn stack_valid(s: ItemStack) -> bool {
    if s.item == ITEM_NONE {
        s.count == 0 && s.durability == 0
    } else {
        &&& spec_item_stack_limit(s.item) matches Some(limit)
        &&& 1 <= s.count <= limit
        &&& match spec_item_max_durability(s.item) {
            Some(max) => 1 <= s.durability <= max,
            None => s.durability == 0,
        }
    }
}

/// The item a furnace turns `item` into, `None` when it is not a smelting input.
pub open spec fn spec_smelting_output(item: ItemId) -> Option<ItemId> {
    if item == ITEM_RAW_IRON {
        Some(ITEM_IRON_INGOT)
    } else if item == ITEM_SAND {
        Some(ITEM_GLASS)
    } else if item == ITEM_CLAY {
        Some(ITEM_BRICK)
    } else if item == ITEM_RAW_BEEF {
        Some(ITEM_COOKED_BEEF)
    } else {
        None
    }
}

/// Items a furnace can produce.
pub open spec fn spec_is_smelting_product(item: ItemId) -> bool {
    item == ITEM_IRON_INGOT || item == ITEM_GLASS || item == ITEM_BRICK || item == ITEM_COOKED_BEEF
}

/// Returns the durability ceiling for `item`, or `None` when it has none.
pub fn item_max_durability(item: ItemId) -> (r: Option<u16>)
    ensures
        r == spec_item_max_durability(item),
{
    if item == ITEM_STONE_PICKAXE {
        Some(131)
    } else if item == ITEM_IRON_PICKAXE {
        Some(250)
    } else {
        None
    }
}

/// Returns the per-slot stack limit for `item`, or `None` for an unknown item.
pub fn item_stack_limit(item: ItemId) -> (r: Option<u8>)
    ensures
        r == spec_item_stack_limit(item),
{
    if 1 <= item && item < ITEM_ID_MAX {
        if item_max_durability(item).is_some() {
            Some(1)
        } else {
            Some(MAX_STACK_COUNT)
        }
    } else {
        None
    }
}

/// Returns the smelting product of `item`, or `None` when it is not an input.
pub fn smelting_output(item: ItemId) -> (r: Option<ItemId>)
    ensures
        r == spec_smelting_output(item),
{
    if item == ITEM_RAW_IRON {
        Some(ITEM_IRON_INGOT)
    } else if item == ITEM_SAND {
        Some(ITEM_GLASS)
    } else if item == ITEM_CLAY {
        Some(ITEM_BRICK)
    } else if item == ITEM_RAW_BEEF {
        Some(ITEM_COOKED_BEEF)
    } else {
        None
    }
}

/// Reports whether a furnace can produce `item`.
pub fn is_smelting_product(item: ItemId) -> (b: bool)
    ensures
        b == spec_is_smelting_product(item),
{
    item == ITEM_IRON_INGOT || item == ITEM_GLASS || item == ITEM_BRICK || item == ITEM_COOKED_BEEF
}

impl ItemStack {
    /// Reports whether the slot value is canonical (see [`stack_valid`]).
    pub fn is_valid(&self) -> (b: bool)
        ensures
            b == stack_valid(*self),
    {
        if self.item == ITEM_NONE {
            return self.count == 0 && self.durability == 0;
        }
        match item_stack_limit(self.item) {
            None => false,
            Some(limit) => {
                if self.count < 1 || self.count > limit {
                    return false;
                }
                match item_max_durability(self.item) {
                    Some(max) => 1 <= self.durability && self.durability <= max,
                    None => self.durability == 0,
                }
            },
        }
    }
}

/// Admits one ordinary save slot, returning it unchanged when it is canonical.
///
/// Player armor does not use this admission: armor keeps raw triples that the
/// ordinary stack rule rejects.
pub fn checked_item_stack(raw: ItemStack) -> (res: StorageResult<ItemStack>)
    ensures
        res is Ok <==> stack_valid(raw),
        res matches Ok(s) ==> s == raw,
        res matches Err(e) ==> e is Corrupt,
{
    if raw.is_valid() {
        Ok(raw)
    } else {
        Err(corrupt("item stack", "not an ordinary stack"))
    }
}

/// Every stack of a slot sequence is canonical.
pub open spec fn all_stacks_valid(slots: Seq<ItemStack>) -> bool {
    forall|i: int| 0 <= i < slots.len() ==> #[trigger] stack_valid(slots[i])
}

/// Reports whether every stack in `slots` is canonical.
pub fn stacks_valid(slots: &[ItemStack]) -> (b: bool)
    ensures
        b == all_stacks_valid(slots@),
{
    let mut i: usize = 0;
    while i < slots.len()
        invariant
            i <= slots@.len(),
            forall|j: int| 0 <= j < i ==> #[trigger] stack_valid(slots@[j]),
        decreases slots@.len() - i,
    {
        if !slots[i].is_valid() {
            return false;
        }
        i = i + 1;
    }
    true
}

/// The fixed-capacity hotbar. `selected` must be inside `0..HOTBAR_SLOTS`.
#[derive(Clone, Copy, Debug, Default, PartialEq, Eq)]
pub struct Hotbar {
    pub selected: u8,
    pub slots: [ItemStack; HOTBAR_SLOTS],
}

/// The hotbar selection is a slot and every slot is canonical.
pub open spec fn hotbar_valid(h: Hotbar) -> bool {
    h.selected < HOTBAR_SLOTS && all_stacks_valid(h.slots@)
}

impl Hotbar {
    /// Reports whether the selection index and every slot value are canonical.
    pub fn is_valid(&self) -> (b: bool)
        ensures
            b == hotbar_valid(*self),
    {
        self.selected < HOTBAR_SLOTS as u8 && stacks_valid(&self.slots)
    }
}

/// The complete inventory state: hotbar plus the fixed-size backpack.
#[derive(Clone, Copy, Debug, Default, PartialEq, Eq)]
pub struct Inventory {
    pub hotbar: Hotbar,
    pub backpack: [ItemStack; BACKPACK_SLOTS],
}

/// The hotbar and every backpack slot are canonical.
pub open spec fn inventory_valid(inv: Inventory) -> bool {
    hotbar_valid(inv.hotbar) && all_stacks_valid(inv.backpack@)
}

impl Inventory {
    /// Reports whether the hotbar and every backpack slot are canonical.
    pub fn is_valid(&self) -> (b: bool)
        ensures
            b == inventory_valid(*self),
    {
        self.hotbar.is_valid() && stacks_valid(&self.backpack)
    }
}

} // verus!
