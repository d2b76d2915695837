//! Cross-family contracts: crate identity, world metadata and chunk saves.

use mornlea_storage::{
    crc32c, decode_chunk, decode_world_metadata, encode_chunk, encode_world_metadata, ChestSlot,
    Chunk, ChunkKey, ChunkSave, ContainerSnapshot, DropSlot, FurnaceSlot, ItemStack, Metadata,
    MetadataChunkPos, StorageError, StorageKind, CHUNK_CURRENT_SCHEMA, METADATA_CURRENT_VERSION,
    METADATA_V1, METADATA_V2, METADATA_V3, METADATA_V4, METADATA_V5,
};

#[test]
fn crate_identity_matches_workspace_name() {
    assert_eq!(mornlea_storage::CRATE_NAME, "mornlea_storage");
}

fn u32_at(encoded: &[u8], offset: usize) -> u32 {
    u32::from_le_bytes(encoded[offset..offset + 4].try_into().expect("four bytes"))
}

#[test]
fn metadata_current_schema_round_trip_preserves_bytes() {
    let metadata = Metadata {
        format_version: METADATA_CURRENT_VERSION,
        seed: -42,
        spawn_dimension: -3,
        spawn_anchor: MetadataChunkPos { x: 7, z: -11 },
        world_time_ticks: 987_654,
        day_phase_offset: 6_781,
        weather_kind: 2,
        weather_ticks_remaining: 1_000,
        depths_spawn_anchor: MetadataChunkPos { x: -4, z: 9 },
        depths_seed_salt: 0x9E37_79B9_7F4A_7C15,
        difficulty: 2,
    };
    let one = encode_world_metadata(&metadata).expect("encode metadata");
    let two = encode_world_metadata(&metadata).expect("encode metadata again");
    assert_eq!(one, two, "same metadata must encode deterministically");
    assert_eq!(one.len(), 12 + 62 + 4);
    assert_eq!(&one[0..4], b"MCGM");
    assert_eq!(u32_at(&one, 4), METADATA_CURRENT_VERSION);
    assert_eq!(u32_at(&one, 8), 62);
    assert_eq!(u32_at(&one, one.len() - 4), crc32c(&one[..one.len() - 4]));
    assert_eq!(
        decode_world_metadata(&one).expect("decode metadata"),
        metadata
    );
}

#[test]
fn metadata_rejects_malformed_bytes() {
    let valid = encode_world_metadata(&Metadata {
        format_version: METADATA_CURRENT_VERSION,
        seed: 42,
        spawn_dimension: 0,
        spawn_anchor: MetadataChunkPos { x: 3, z: -2 },
        ..default_metadata()
    })
    .expect("encode metadata");

    let mut crc_corrupt = valid.clone();
    crc_corrupt[12] ^= 0xff;
    let mut future_version = valid.clone();
    future_version[4..8].copy_from_slice(&(METADATA_CURRENT_VERSION + 1).to_le_bytes());
    let mut past_version = valid.clone();
    past_version[4..8].copy_from_slice(&0u32.to_le_bytes());
    let mut wrong_payload_length = valid.clone();
    wrong_payload_length[8..12].copy_from_slice(&19u32.to_le_bytes());
    let mut trailing = valid.clone();
    trailing.push(0);

    let cases: Vec<(&str, Vec<u8>)> = vec![
        ("CRC corruption", crc_corrupt),
        ("future version", future_version),
        ("past version", past_version),
        ("short", valid[..valid.len() - 1].to_vec()),
        ("trailing", trailing),
        ("wrong payload length", wrong_payload_length),
    ];
    for (name, bytes) in cases {
        let err = decode_world_metadata(&bytes)
            .err()
            .unwrap_or_else(|| panic!("{name}: expected rejection"));
        assert_eq!(
            matches!(err, StorageError::FutureVersion(_)),
            name == "future version",
            "{name}: unexpected error class {err:?}"
        );
    }
}

#[test]
fn metadata_legacy_versions_migrate_to_the_same_normalized_result() {
    let spawn_anchor = MetadataChunkPos { x: 5, z: -6 };
    // Each legacy payload is a pure tail prefix of v6, so the shared fields
    // must survive and the missing tails must take their documented defaults.
    let mut v1 = Vec::new();
    append_u64(&mut v1, 123_456_789);
    append_u32(&mut v1, 0);
    append_u32(&mut v1, spawn_anchor.x as u32);
    append_u32(&mut v1, spawn_anchor.z as u32);

    let mut v2 = v1.clone();
    append_u64(&mut v2, 123_456);

    let mut v3 = v2.clone();
    append_u64(&mut v3, 678);

    let mut v4 = v3.clone();
    append_u8(&mut v4, 1);
    append_u32(&mut v4, 5_000);

    let mut v5 = v4.clone();
    append_u32(&mut v5, 2);
    append_u32(&mut v5, spawn_anchor.x as u32);
    append_u32(&mut v5, spawn_anchor.z as u32);
    append_u64(&mut v5, 0x9E37_79B9_7F4A_7C15);

    let expected_common = Metadata {
        format_version: METADATA_CURRENT_VERSION,
        seed: 123_456_789,
        spawn_dimension: 0,
        spawn_anchor,
        ..default_metadata()
    };

    let decoded_v1 = decode_world_metadata(&seal_metadata(METADATA_V1, v1)).expect("decode v1");
    let mut want_v1 = expected_common.clone();
    want_v1.depths_spawn_anchor = spawn_anchor;
    assert_eq!(decoded_v1, want_v1);

    let decoded_v2 = decode_world_metadata(&seal_metadata(METADATA_V2, v2)).expect("decode v2");
    let mut want_v2 = expected_common.clone();
    want_v2.world_time_ticks = 123_456;
    want_v2.depths_spawn_anchor = spawn_anchor;
    assert_eq!(decoded_v2, want_v2);

    let decoded_v3 = decode_world_metadata(&seal_metadata(METADATA_V3, v3)).expect("decode v3");
    let mut want_v3 = expected_common.clone();
    want_v3.world_time_ticks = 123_456;
    want_v3.day_phase_offset = 678;
    want_v3.depths_spawn_anchor = spawn_anchor;
    assert_eq!(decoded_v3, want_v3);

    let decoded_v4 = decode_world_metadata(&seal_metadata(METADATA_V4, v4)).expect("decode v4");
    let mut want_v4 = expected_common.clone();
    want_v4.world_time_ticks = 123_456;
    want_v4.day_phase_offset = 678;
    want_v4.weather_kind = 1;
    want_v4.weather_ticks_remaining = 5_000;
    want_v4.depths_spawn_anchor = spawn_anchor;
    assert_eq!(decoded_v4, want_v4);

    let decoded_v5 = decode_world_metadata(&seal_metadata(METADATA_V5, v5)).expect("decode v5");
    let mut want_v5 = expected_common.clone();
    want_v5.world_time_ticks = 123_456;
    want_v5.day_phase_offset = 678;
    want_v5.weather_kind = 1;
    want_v5.weather_ticks_remaining = 5_000;
    want_v5.depths_spawn_anchor = spawn_anchor;
    assert_eq!(decoded_v5, want_v5);
}

#[test]
fn metadata_v5_with_wrong_dimension_count_is_rejected() {
    let mut payload = Vec::new();
    append_u64(&mut payload, 1);
    append_u32(&mut payload, 0);
    append_u32(&mut payload, 0);
    append_u32(&mut payload, 0);
    append_u64(&mut payload, 0);
    append_u64(&mut payload, 0);
    append_u8(&mut payload, 1);
    append_u32(&mut payload, 0);
    append_u32(&mut payload, 3);
    append_u32(&mut payload, 0);
    append_u32(&mut payload, 0);
    append_u64(&mut payload, 0);
    let err = decode_world_metadata(&seal_metadata(METADATA_V5, payload))
        .expect_err("wrong dimension count must be rejected");
    assert!(matches!(err, StorageError::Corrupt(_)), "{err:?}");
}

#[test]
fn metadata_v6_rejects_invalid_difficulty_and_preserves_raw_weather() {
    for difficulty in [3u8, 255] {
        let mut payload = Vec::new();
        append_u64(&mut payload, 1);
        append_u32(&mut payload, 0);
        append_u32(&mut payload, 0);
        append_u32(&mut payload, 0);
        append_u64(&mut payload, 0);
        append_u64(&mut payload, 0);
        append_u8(&mut payload, 1);
        append_u32(&mut payload, 0);
        append_u32(&mut payload, 2);
        append_u32(&mut payload, 0);
        append_u32(&mut payload, 0);
        append_u64(&mut payload, 0);
        append_u8(&mut payload, difficulty);
        assert!(decode_world_metadata(&seal_metadata(METADATA_CURRENT_VERSION, payload)).is_err());
    }
    for weather in [3u8, 255] {
        let mut payload = Vec::new();
        append_u64(&mut payload, 1);
        append_u32(&mut payload, 0);
        append_u32(&mut payload, 0);
        append_u32(&mut payload, 0);
        append_u64(&mut payload, 0);
        append_u64(&mut payload, 0);
        append_u8(&mut payload, weather);
        append_u32(&mut payload, 0);
        append_u32(&mut payload, 2);
        append_u32(&mut payload, 0);
        append_u32(&mut payload, 0);
        append_u64(&mut payload, 0);
        append_u8(&mut payload, 0);
        let decoded = decode_world_metadata(&seal_metadata(METADATA_CURRENT_VERSION, payload))
            .expect("raw weather bytes must decode");
        assert_eq!(decoded.weather_kind, weather);
    }
}

#[test]
fn metadata_encode_rejects_non_current_version() {
    for version in [0u32, 1, 5, 7] {
        let mut metadata = default_metadata();
        metadata.format_version = version;
        assert!(encode_world_metadata(&metadata).is_err());
    }
    let mut invalid_difficulty = default_metadata();
    invalid_difficulty.difficulty = 3;
    assert!(encode_world_metadata(&invalid_difficulty).is_err());
}

fn default_metadata() -> Metadata {
    Metadata {
        format_version: METADATA_CURRENT_VERSION,
        seed: 0,
        spawn_dimension: 0,
        spawn_anchor: MetadataChunkPos { x: 0, z: 0 },
        world_time_ticks: 0,
        day_phase_offset: 0,
        weather_kind: 0,
        weather_ticks_remaining: 0,
        depths_spawn_anchor: MetadataChunkPos { x: 0, z: 0 },
        depths_seed_salt: 0x9E37_79B9_7F4A_7C15,
        difficulty: 0,
    }
}

/// Wraps a legacy payload in the fixed metadata header and seals the CRC-32C.
fn seal_metadata(version: u32, mut payload: Vec<u8>) -> Vec<u8> {
    let mut bytes = Vec::new();
    bytes.extend_from_slice(b"MCGM");
    bytes.extend_from_slice(&version.to_le_bytes());
    bytes.extend_from_slice(&(payload.len() as u32).to_le_bytes());
    bytes.append(&mut payload);
    let checksum = crc32c(&bytes);
    bytes.extend_from_slice(&checksum.to_le_bytes());
    bytes
}

fn append_u8(bytes: &mut Vec<u8>, value: u8) {
    bytes.push(value);
}

fn append_u32(bytes: &mut Vec<u8>, value: u32) {
    bytes.extend_from_slice(&value.to_le_bytes());
}

fn append_u64(bytes: &mut Vec<u8>, value: u64) {
    bytes.extend_from_slice(&value.to_le_bytes());
}

/// Identity of the reference chunk.
const CHUNK_FIXTURE_KEY: ChunkKey = ChunkKey {
    dimension: 0,
    x: -3,
    z: 7,
};

/// Packs `values` into the non-crossing word layout the paletted container
/// uses: `64 / bits` slots per word, the remaining bits unused.
fn pack_section_words(bits: u8, values: &[u32]) -> Vec<u64> {
    let per_word = 64 / bits as usize;
    let mut words = vec![0u64; 4096_usize.div_ceil(per_word)];
    for (index, value) in values.iter().enumerate() {
        let shift = (index % per_word) * bits as usize;
        words[index / per_word] |= u64::from(*value) << shift;
    }
    words
}

/// A chunk with one section per storage kind plus every container section
/// populated, so the encode/decode path covers drops, furnaces and chests.
fn synthetic_chunk() -> Chunk {
    let mut sections = Vec::with_capacity(24);
    sections.push(ContainerSnapshot {
        kind: StorageKind::Single,
        bits: 0,
        single: 2,
        palette: Vec::new(),
        packed: Vec::new(),
    });
    sections.push(ContainerSnapshot {
        kind: StorageKind::Indexed,
        bits: 4,
        single: 0,
        palette: (0..16u16).collect(),
        packed: pack_section_words(4, &[0, 1, 2, 3, 15, 0, 0, 0]),
    });
    // Section 2 is direct storage holding a furnace and a chest block so the
    // container slots decoded from it can point at real furnace/chest blocks.
    let mut direct_values = vec![0u32; 4096];
    direct_values[0] = 9;
    direct_values[1] = 11;
    sections.push(ContainerSnapshot {
        kind: StorageKind::Direct,
        bits: 15,
        single: 0,
        palette: Vec::new(),
        packed: pack_section_words(15, &direct_values),
    });
    for _ in 3..24 {
        sections.push(ContainerSnapshot {
            kind: StorageKind::Single,
            bits: 0,
            single: 0,
            palette: Vec::new(),
            packed: Vec::new(),
        });
    }

    let mut drops = vec![DropSlot::default(); 32];
    drops[0] = DropSlot {
        generation: 4,
        active: true,
        stack: ItemStack {
            item: 1,
            count: 12,
            durability: 0,
        },
        block_index: 2 * 4096 + 5,
        age_ticks: 71,
        pickup_delay_ticks: 3,
    };
    drops[1] = DropSlot {
        generation: 9,
        active: true,
        stack: ItemStack {
            item: 10,
            count: 1,
            durability: 131,
        },
        block_index: 2 * 4096 + 6,
        age_ticks: 4,
        pickup_delay_ticks: 0,
    };

    let mut furnaces = vec![FurnaceSlot::default(); 32];
    furnaces[0] = FurnaceSlot {
        generation: 5,
        active: true,
        block_index: 2 * 4096,
        input: ItemStack {
            item: 6,
            count: 3,
            durability: 0,
        },
        fuel: ItemStack {
            item: 5,
            count: 2,
            durability: 0,
        },
        output: ItemStack {
            item: 7,
            count: 1,
            durability: 0,
        },
        progress_ticks: 120,
        burn_ticks: 900,
    };
    furnaces[1] = FurnaceSlot {
        generation: 6,
        ..FurnaceSlot::default()
    };

    let mut chests = vec![ChestSlot::default(); 16];
    chests[0] = ChestSlot {
        generation: 7,
        active: true,
        block_index: 2 * 4096 + 1,
        items: std::array::from_fn(|index| ItemStack {
            item: if index == 0 { 1 } else { 0 },
            count: if index == 0 { 5 } else { 0 },
            durability: 0,
        }),
    };
    chests[1] = ChestSlot {
        generation: 8,
        ..ChestSlot::default()
    };

    Chunk {
        sections,
        drops,
        furnaces,
        chests,
    }
}

/// A synthetic chunk exercises drops, furnaces and chests together with all
/// three paletted storage kinds.
#[test]
fn chunk_synthetic_chunk_round_trip_preserves_every_section() {
    let chunk = synthetic_chunk();
    let save = ChunkSave {
        key: CHUNK_FIXTURE_KEY,
        revision: 91,
        chunk: chunk.clone(),
    };
    let encoded = encode_chunk(&save).expect("encode synthetic chunk");
    let decoded = decode_chunk(save.key, save.revision, &encoded).expect("decode synthetic chunk");
    assert_eq!(decoded.chunk, chunk);
    assert_eq!(decoded.key, save.key);
    assert_eq!(decoded.revision, save.revision);
    assert_eq!(decoded.schema, CHUNK_CURRENT_SCHEMA);
    assert!(!decoded.migrated);
}

/// A slot that is itself valid but points at the wrong block, or shares its
/// block with another active slot, is rejected by the encoder. Decode uses the
/// same aggregate check, so those saves never become bytes.
#[test]
fn chunk_decode_rejects_container_slots_pointing_at_the_wrong_block() {
    let mut chunk = synthetic_chunk();
    chunk.furnaces[0].block_index = 2 * 4096 + 200;
    let save = ChunkSave {
        key: CHUNK_FIXTURE_KEY,
        revision: 33,
        chunk: chunk.clone(),
    };
    assert!(matches!(encode_chunk(&save), Err(StorageError::Corrupt(_))));

    chunk.furnaces[0].block_index = 2 * 4096;
    chunk.chests[0].block_index = 2 * 4096 + 200;
    let save = ChunkSave {
        key: CHUNK_FIXTURE_KEY,
        revision: 34,
        chunk: chunk.clone(),
    };
    assert!(matches!(encode_chunk(&save), Err(StorageError::Corrupt(_))));

    // Two active furnaces sharing one block index are rejected too.
    let mut shared = synthetic_chunk();
    shared.furnaces[1] = FurnaceSlot {
        generation: 6,
        active: true,
        block_index: 2 * 4096,
        ..shared.furnaces[1]
    };
    let save = ChunkSave {
        key: CHUNK_FIXTURE_KEY,
        revision: 35,
        chunk: shared,
    };
    assert!(matches!(encode_chunk(&save), Err(StorageError::Corrupt(_))));
}
