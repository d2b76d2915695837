//! Item stack and inventory value rules.

use mornlea_storage::items::{
    BACKPACK_SLOTS, HOTBAR_SLOTS, Hotbar, ITEM_ID_MAX, ITEM_NONE, Inventory, ItemStack,
    MAX_STACK_COUNT,
};

#[test]
fn empty_slot_is_the_only_valid_zero_value() {
    assert!(ItemStack::default().is_valid());
    assert!(
        !ItemStack {
            item: ITEM_NONE,
            count: 1,
            durability: 0,
        }
        .is_valid()
    );
    assert!(
        !ItemStack {
            item: ITEM_NONE,
            count: 0,
            durability: 1,
        }
        .is_valid()
    );
}

#[test]
fn stackable_and_tool_slots_use_their_own_bounds() {
    assert!(
        ItemStack {
            item: 1,
            count: MAX_STACK_COUNT,
            durability: 0,
        }
        .is_valid()
    );
    assert!(
        !ItemStack {
            item: 1,
            count: MAX_STACK_COUNT + 1,
            durability: 0,
        }
        .is_valid()
    );
    let tool = ItemStack {
        item: 10,
        count: 1,
        durability: 131,
    };
    assert!(tool.is_valid());
    assert!(
        !ItemStack {
            durability: 0,
            ..tool
        }
        .is_valid()
    );
    assert!(
        !ItemStack {
            durability: 132,
            ..tool
        }
        .is_valid()
    );
}

#[test]
fn unknown_items_are_rejected() {
    assert!(
        !ItemStack {
            item: ITEM_ID_MAX,
            count: 1,
            durability: 0,
        }
        .is_valid()
    );
    assert!(
        !ItemStack {
            item: 4_000,
            count: 1,
            durability: 0,
        }
        .is_valid()
    );
}

#[test]
fn inventory_covers_the_fixed_slot_counts() {
    assert_eq!(HOTBAR_SLOTS, 9);
    assert_eq!(BACKPACK_SLOTS, 27);
    assert!(Inventory::default().is_valid());
    assert!(
        !Inventory {
            hotbar: Hotbar {
                selected: 9,
                slots: [ItemStack::default(); HOTBAR_SLOTS],
            },
            ..Inventory::default()
        }
        .is_valid()
    );
}
