//! Chunk slot, layout and envelope rules.

use mornlea_storage::StorageError;
use mornlea_storage::chunk::{
    CHEST_SLOTS, CHESTS_PER_CHUNK, COMPRESSION_ZSTD, CURRENT_SCHEMA, ChestSlot, Chunk, ChunkKey,
    ChunkSave, DEPTHS, DROPS_PER_CHUNK, DropSlot, ENVELOPE_LENGTH, ENVELOPE_VERSION,
    FURNACES_PER_CHUNK, FurnaceSlot, OVERWORLD, SECTIONS_PER_CHUNK, decode, encode,
};
use mornlea_storage::chunk_migrate::split_legacy_tool_drop_stacks;
use mornlea_storage::chunk_rules::split_block_index;
use mornlea_storage::items::{ITEM_COAL, ITEM_NONE, ITEM_STONE_PICKAXE, ItemStack};
use mornlea_storage::section::{
    BLOCKS_PER_SECTION, ContainerSnapshot, DIRECT_BITS, StorageKind, read_packed, words_for,
};

/// Wire item number of stone.
const ITEM_STONE: u16 = 1;

fn empty_slot_arrays() -> (Vec<DropSlot>, Vec<FurnaceSlot>, Vec<ChestSlot>) {
    (
        vec![DropSlot::default(); DROPS_PER_CHUNK],
        vec![FurnaceSlot::default(); FURNACES_PER_CHUNK],
        vec![ChestSlot::default(); CHESTS_PER_CHUNK],
    )
}

fn air_chunk() -> Chunk {
    let (drops, furnaces, chests) = empty_slot_arrays();
    Chunk {
        sections: vec![
            ContainerSnapshot {
                kind: StorageKind::Single,
                bits: 0,
                single: 0,
                palette: Vec::new(),
                packed: Vec::new(),
            };
            SECTIONS_PER_CHUNK
        ],
        drops,
        furnaces,
        chests,
    }
}

#[test]
fn envelope_layout_is_the_frozen_forty_four_bytes() {
    let save = ChunkSave {
        key: ChunkKey {
            dimension: OVERWORLD,
            x: -3,
            z: 7,
        },
        revision: 19,
        chunk: air_chunk(),
    };
    let encoded = encode(&save).expect("encode air chunk");
    assert_eq!(&encoded[..4], b"CHNK");
    assert_eq!(
        u32::from_le_bytes(encoded[4..8].try_into().unwrap()),
        ENVELOPE_VERSION
    );
    assert_eq!(
        u32::from_le_bytes(encoded[8..12].try_into().unwrap()),
        CURRENT_SCHEMA
    );
    assert_eq!(u32::from_le_bytes(encoded[12..16].try_into().unwrap()), 0);
    assert_eq!(
        u32::from_le_bytes(encoded[16..20].try_into().unwrap()),
        (-3i32) as u32
    );
    assert_eq!(u32::from_le_bytes(encoded[20..24].try_into().unwrap()), 7);
    assert_eq!(u64::from_le_bytes(encoded[24..32].try_into().unwrap()), 19);
    assert_eq!(
        u32::from_le_bytes(encoded[32..36].try_into().unwrap()),
        COMPRESSION_ZSTD
    );
    // The current schema always writes every container section: 24 fixed
    // sixteen-byte single-storage records, then the fixed drop, furnace and
    // chest slot arrays.
    let logical_length = 32
        + SECTIONS_PER_CHUNK * 16
        + DROPS_PER_CHUNK * 19
        + FURNACES_PER_CHUNK * 21
        + CHESTS_PER_CHUNK * (9 + CHEST_SLOTS * 5);
    assert_eq!(
        u32::from_le_bytes(encoded[36..40].try_into().unwrap()) as usize,
        logical_length
    );
    assert_eq!(
        u32::from_le_bytes(encoded[40..44].try_into().unwrap()) as usize,
        encoded.len() - ENVELOPE_LENGTH
    );
}

#[test]
fn air_chunk_round_trips() {
    let save = ChunkSave {
        key: ChunkKey {
            dimension: DEPTHS,
            x: 12,
            z: -40,
        },
        revision: 3,
        chunk: air_chunk(),
    };
    let encoded = encode(&save).expect("encode");
    let decoded = decode(save.key, save.revision, &encoded).expect("decode");
    assert_eq!(decoded.chunk, save.chunk);
    assert_eq!(decoded.schema, CURRENT_SCHEMA);
    assert!(!decoded.migrated);
}

#[test]
fn packed_word_layout_never_crosses_a_word_boundary() {
    assert_eq!(words_for(4), 256);
    assert_eq!(words_for(8), 512);
    assert_eq!(words_for(DIRECT_BITS), 1024);
    let packed = vec![u64::MAX; words_for(4)];
    assert_eq!(read_packed(&packed, 4, 0), Some(0x0f));
    assert_eq!(read_packed(&packed, 4, 15), Some(0x0f));
    assert_eq!(read_packed(&packed, 4, 16), Some(0x0f));
    assert_eq!(read_packed(&[], 4, 0), None);
    assert_eq!(read_packed(&packed, 0, 0), None);
}

#[test]
fn split_block_index_covers_the_whole_chunk() {
    assert_eq!(split_block_index(0), Some((0, 0)));
    assert_eq!(split_block_index(4095), Some((0, 4095)));
    assert_eq!(split_block_index(4096), Some((1, 0)));
    assert_eq!(
        split_block_index((SECTIONS_PER_CHUNK * BLOCKS_PER_SECTION - 1) as u32),
        Some((SECTIONS_PER_CHUNK - 1, BLOCKS_PER_SECTION - 1))
    );
    assert_eq!(
        split_block_index((SECTIONS_PER_CHUNK * BLOCKS_PER_SECTION) as u32),
        None
    );
}

#[test]
fn inactive_slots_keep_only_their_generation() {
    let furnace = FurnaceSlot {
        generation: 4,
        ..FurnaceSlot::default()
    };
    assert!(furnace.is_valid());
    assert!(
        !FurnaceSlot {
            block_index: 9,
            ..furnace
        }
        .is_valid()
    );
    let chest = ChestSlot {
        generation: 4,
        ..ChestSlot::default()
    };
    assert!(chest.is_valid());
    assert!(
        !ChestSlot {
            block_index: 9,
            ..chest
        }
        .is_valid()
    );
}

#[test]
fn furnace_fuel_and_output_whitelists_are_enforced() {
    let base = FurnaceSlot {
        generation: 1,
        active: true,
        block_index: 0,
        input: ItemStack {
            item: ITEM_NONE,
            count: 0,
            durability: 0,
        },
        fuel: ItemStack {
            item: ITEM_COAL,
            count: 1,
            durability: 0,
        },
        output: ItemStack::default(),
        progress_ticks: 0,
        burn_ticks: 0,
    };
    assert!(base.is_valid());
    assert!(
        !FurnaceSlot {
            fuel: ItemStack {
                item: ITEM_STONE_PICKAXE,
                count: 1,
                durability: 131,
            },
            ..base
        }
        .is_valid()
    );
    assert!(
        !FurnaceSlot {
            output: ItemStack {
                item: ITEM_STONE,
                count: 1,
                durability: 0,
            },
            ..base
        }
        .is_valid()
    );
    assert!(
        !FurnaceSlot {
            input: ItemStack {
                item: ITEM_STONE,
                count: 1,
                durability: 0,
            },
            ..base
        }
        .is_valid()
    );
}

#[test]
fn dimension_allowlist_rejects_beyond_depths() {
    let mut save = ChunkSave {
        key: ChunkKey {
            dimension: DEPTHS,
            x: 0,
            z: 0,
        },
        revision: 1,
        chunk: air_chunk(),
    };
    assert!(encode(&save).is_ok());
    save.key.dimension = 2;
    assert!(matches!(encode(&save), Err(StorageError::Corrupt(_))));
}

#[test]
fn legacy_tool_split_rejects_insufficient_capacity() {
    let mut drops = vec![DropSlot::default(); DROPS_PER_CHUNK];
    drops[0] = DropSlot {
        generation: 1,
        active: true,
        stack: ItemStack {
            item: ITEM_STONE_PICKAXE,
            count: 2,
            durability: 131,
        },
        block_index: 0,
        age_ticks: 0,
        pickup_delay_ticks: 0,
    };
    for slot in drops.iter_mut().skip(1) {
        slot.generation = u32::MAX;
    }
    assert!(split_legacy_tool_drop_stacks(&mut drops).is_err());
}

/// An active slot that points at air is not a readable aggregate, so the
/// encoder rejects it before any bytes are published.
#[test]
fn active_container_slots_must_point_at_their_block() {
    let mut chunk = air_chunk();
    chunk.furnaces[0] = FurnaceSlot {
        generation: 2,
        active: true,
        block_index: 0,
        input: ItemStack::default(),
        fuel: ItemStack::default(),
        output: ItemStack::default(),
        progress_ticks: 0,
        burn_ticks: 0,
    };
    let save = ChunkSave {
        key: ChunkKey {
            dimension: OVERWORLD,
            x: 0,
            z: 0,
        },
        revision: 1,
        chunk: chunk.clone(),
    };
    assert!(matches!(encode(&save), Err(StorageError::Corrupt(_))));

    let mut chunk = air_chunk();
    chunk.chests[0] = ChestSlot {
        generation: 2,
        active: true,
        block_index: 0,
        items: [ItemStack::default(); CHEST_SLOTS],
    };
    let save = ChunkSave {
        key: ChunkKey {
            dimension: OVERWORLD,
            x: 0,
            z: 0,
        },
        revision: 1,
        chunk,
    };
    assert!(matches!(encode(&save), Err(StorageError::Corrupt(_))));
}
