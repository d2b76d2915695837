//! Concrete instances of the codec laws, the formulas and every error kind.

use mornlea_storage::canonical_order::ascending_order_of;
use mornlea_storage::chunk_migrate::migrate;
use mornlea_storage::error::{corrupt, corrupt_at, future_version};
use mornlea_storage::{
    crc32c, crc32c_join, decode_chunk, decode_chunk_logical, decode_companions, decode_player,
    encode_chunk, encode_chunk_at_schema, encode_chunk_logical, encode_companions,
    encode_player, item_max_durability, item_stack_limit, ChestSlot, Chunk, ChunkKey, ChunkSave,
    CompanionBody, CompanionSave, ContainerSnapshot, DropSlot, FurnaceSlot, Inventory, ItemStack,
    ChunkCodec, PlayerId, PlayerLocation, PlayerSave, StorageError, StorageKind, StoredCompanionLifecycle,
    StoredCompanionQueue, CHUNK_CURRENT_SCHEMA, CHUNK_ENVELOPE_LENGTH, CHUNK_OLDEST_SCHEMA,
    COMPANION_CURRENT_SCHEMA,
};
use mornlea_storage::{
    decode_world_metadata, encode_world_metadata, Metadata, MetadataChunkPos,
    METADATA_CURRENT_VERSION,
};

fn single(block: u16) -> ContainerSnapshot {
    ContainerSnapshot {
        kind: StorageKind::Single,
        bits: 0,
        single: block,
        palette: Vec::new(),
        packed: Vec::new(),
    }
}

/// A chunk with no drops, furnaces or chests: every schema can hold it.
fn bare_chunk() -> Chunk {
    let mut sections = vec![single(0); 24];
    sections[0] = single(2);
    let mut packed = vec![0u64; 256];
    packed[0] = 0x21;
    sections[5] = ContainerSnapshot {
        kind: StorageKind::Indexed,
        bits: 4,
        single: 0,
        palette: vec![0, 3, 7],
        packed,
    };
    Chunk {
        sections,
        drops: vec![DropSlot::default(); 32],
        furnaces: vec![FurnaceSlot::default(); 32],
        chests: vec![ChestSlot::default(); 16],
    }
}

#[test]
fn chunk_every_schema_converges_on_the_saved_chunk() {
    let save = ChunkSave {
        key: ChunkKey {
            dimension: 1,
            x: -40,
            z: 12,
        },
        revision: 77,
        chunk: bare_chunk(),
    };
    for schema in CHUNK_OLDEST_SCHEMA..=CHUNK_CURRENT_SCHEMA {
        let encoded = encode_chunk_at_schema(&save, schema).expect("encode at schema");
        let decoded = decode_chunk(save.key, save.revision, &encoded).expect("decode");
        assert_eq!(decoded.chunk, save.chunk, "schema {schema}");
        assert_eq!(decoded.schema, CHUNK_CURRENT_SCHEMA);
        assert_eq!(decoded.migrated, schema < CHUNK_CURRENT_SCHEMA);
        let logical = encode_chunk_logical(save.key, save.revision, &save.chunk, schema)
            .expect("logical payload");
        let parsed = decode_chunk_logical(save.key, save.revision, schema, &logical)
            .expect("logical parse");
        assert_eq!(parsed, save.chunk, "logical schema {schema}");
    }
}

#[test]
fn chunk_frame_is_a_checksummed_zstd_frame_of_the_logical_payload() {
    let save = ChunkSave {
        key: ChunkKey {
            dimension: 0,
            x: 3,
            z: 4,
        },
        revision: 5,
        chunk: bare_chunk(),
    };
    let logical = encode_chunk_logical(save.key, save.revision, &save.chunk, CHUNK_CURRENT_SCHEMA)
        .expect("logical payload");
    let encoded = encode_chunk(&save).expect("encode");
    let frame = &encoded[CHUNK_ENVELOPE_LENGTH..];
    assert_eq!(&frame[..4], &[0x28, 0xB5, 0x2F, 0xFD]);
    assert_ne!(frame, logical.as_slice());
    let declared = u32::from_le_bytes(encoded[36..40].try_into().expect("four bytes"));
    assert_eq!(declared as usize, logical.len());
    let compressed = u32::from_le_bytes(encoded[40..44].try_into().expect("four bytes"));
    assert_eq!(compressed as usize, frame.len());
    let mut broken = encoded.clone();
    let last = broken.len() - 1;
    broken[last] ^= 0x55;
    assert!(matches!(
        decode_chunk(save.key, save.revision, &broken),
        Err(StorageError::Corrupt(_))
    ));
}

#[test]
fn chunk_decode_reports_future_schema_and_envelope() {
    let save = ChunkSave {
        key: ChunkKey {
            dimension: 0,
            x: 0,
            z: 0,
        },
        revision: 1,
        chunk: bare_chunk(),
    };
    let encoded = encode_chunk(&save).expect("encode");
    let mut future_schema = encoded.clone();
    future_schema[8..12].copy_from_slice(&10u32.to_le_bytes());
    assert_eq!(
        decode_chunk(save.key, save.revision, &future_schema).unwrap_err(),
        StorageError::FutureVersion("chunk schema: 10".to_owned())
    );
    let mut future_envelope = encoded.clone();
    future_envelope[4..8].copy_from_slice(&2u32.to_le_bytes());
    assert_eq!(
        decode_chunk(save.key, save.revision, &future_envelope).unwrap_err(),
        StorageError::FutureVersion("envelope version: 2".to_owned())
    );
    assert!(matches!(
        decode_chunk(save.key, 0, &encoded),
        Err(StorageError::Corrupt(_))
    ));
}

fn id(last: u8) -> PlayerId {
    PlayerId::from_bytes([
        0x00, 0x11, 0x22, 0x33, 0x44, 0x55, 0x46, 0x77, 0x88, 0x99, 0xaa, 0xbb, 0xcc, 0xdd, 0xee,
        last,
    ])
}

fn body(last: u8) -> CompanionBody {
    CompanionBody {
        id: id(last),
        dimension: 0,
        position: [1.5f32.to_bits(), 64.0f32.to_bits(), (-2.0f32).to_bits()],
        yaw: 0.25f32.to_bits(),
        pitch: 0.5f32.to_bits(),
        inventory: Inventory::default(),
    }
}

fn active(last: u8, epoch: u64) -> StoredCompanionLifecycle {
    StoredCompanionLifecycle {
        id: id(last),
        active: true,
        memory_epoch: epoch,
        memory_revision: 0,
        memory_operation_id: PlayerId::default(),
        summary: String::new(),
        tombstone_operation_id: PlayerId::default(),
    }
}

#[test]
fn companion_round_trip_returns_the_save_in_canonical_order() {
    let queue = StoredCompanionQueue {
        id: id(2),
        pending: vec!["跟我来".to_owned(), "挖矿".to_owned()],
        ..StoredCompanionQueue::default()
    };
    let save = CompanionSave {
        revision: 9,
        agent_namespace_id: id(0x70),
        records: vec![body(3), body(1), body(2)],
        lifecycles: vec![active(2, 4), active(3, 5), active(1, 6)],
        queues: vec![queue.clone()],
    };
    let encoded = encode_companions(&save).expect("encode");
    let decoded = decode_companions(&encoded).expect("decode");
    assert_eq!(decoded.source_schema, COMPANION_CURRENT_SCHEMA);
    assert_eq!(decoded.revision, 9);
    assert_eq!(decoded.agent_namespace_id, id(0x70));
    assert_eq!(decoded.records, vec![body(1), body(2), body(3)]);
    assert_eq!(
        decoded.lifecycles,
        vec![active(1, 6), active(2, 4), active(3, 5)]
    );
    assert_eq!(decoded.queues, vec![queue]);
    let again = encode_companions(&CompanionSave {
        revision: decoded.revision,
        agent_namespace_id: decoded.agent_namespace_id,
        records: decoded.records.clone(),
        lifecycles: decoded.lifecycles.clone(),
        queues: decoded.queues.clone(),
    })
    .expect("re-encode");
    assert_eq!(again, encoded);
}

#[test]
fn companion_text_faults_name_the_field() {
    let mut save = CompanionSave {
        revision: 1,
        agent_namespace_id: id(0x70),
        records: vec![body(1)],
        lifecycles: vec![active(1, 1)],
        queues: vec![StoredCompanionQueue {
            id: id(1),
            pending: vec!["a\u{7}b".to_owned()],
            ..StoredCompanionQueue::default()
        }],
    };
    match encode_companions(&save) {
        Err(StorageError::Corrupt(detail)) => {
            assert!(detail.contains("FIFO command contains a control character"), "{detail}")
        }
        other => panic!("expected corruption, got {other:?}"),
    }
    save.queues[0].pending = vec!["   ".to_owned()];
    match encode_companions(&save) {
        Err(StorageError::Corrupt(detail)) => {
            assert!(detail.contains("FIFO command is empty"), "{detail}")
        }
        other => panic!("expected corruption, got {other:?}"),
    }
    save.queues.clear();
    save.lifecycles[0].memory_revision = 1;
    save.lifecycles[0].memory_operation_id = id(0x71);
    save.lifecycles[0].summary = "a\0b".to_owned();
    match encode_companions(&save) {
        Err(StorageError::Corrupt(detail)) => {
            assert_eq!(detail, "companion lifecycle: 0: companion summary contains NUL")
        }
        other => panic!("expected corruption, got {other:?}"),
    }
}

fn player_save() -> PlayerSave {
    PlayerSave {
        player_id: id(0xff),
        revision: 3,
        display_name: "Mira".to_owned(),
        current: PlayerLocation {
            dimension: 0,
            position: [1.0f32.to_bits(), 64.0f32.to_bits(), 1.0f32.to_bits()],
        },
        yaw: 0.0f32.to_bits(),
        pitch: 0.0f32.to_bits(),
        safe: None,
        inventory: Inventory::default(),
        health: 20,
        hunger: 20,
        saturation_milli: 5_000,
        exhaustion_milli: 0,
        respawn_present: false,
        respawn_position: [0.0f32.to_bits(); 3],
        respawn_dimension: 0,
        armor: [ItemStack::default(); 4],
    }
}

#[test]
fn player_round_trip_drops_only_absent_respawn_coordinates() {
    let mut save = player_save();
    save.respawn_position = [5.0f32.to_bits(), 6.0f32.to_bits(), 7.0f32.to_bits()];
    save.respawn_dimension = 1;
    let encoded = encode_player(&save).expect("encode");
    let got = decode_player(save.player_id, &encoded).expect("decode");
    assert_eq!(got.player_id, save.player_id);
    assert_eq!(got.revision, 3);
    assert_eq!(got.display_name, "Mira");
    assert_eq!(got.current, save.current);
    assert_eq!(got.respawn_position, [0u32; 3]);
    assert_eq!(got.respawn_dimension, 0);
    assert!(!got.needs_rewrite);
    save.respawn_present = true;
    let encoded = encode_player(&save).expect("encode present respawn");
    let got = decode_player(save.player_id, &encoded).expect("decode present respawn");
    assert_eq!(got.respawn_position, save.respawn_position);
    assert_eq!(got.respawn_dimension, 1);
}

#[test]
fn player_current_record_re_encodes_byte_for_byte() {
    let mut save = player_save();
    save.respawn_present = true;
    save.respawn_position = [5.0f32.to_bits(), 6.0f32.to_bits(), 7.0f32.to_bits()];
    save.respawn_dimension = 1;
    let bytes = encode_player(&save).expect("encode");
    let got = decode_player(save.player_id, &bytes).expect("decode");
    let again = PlayerSave {
        player_id: got.player_id,
        revision: got.revision,
        display_name: got.display_name.clone(),
        current: got.current,
        yaw: got.yaw,
        pitch: got.pitch,
        safe: got.safe,
        inventory: got.inventory.clone(),
        health: got.health,
        hunger: got.hunger,
        saturation_milli: got.saturation_milli,
        exhaustion_milli: got.exhaustion_milli,
        respawn_present: got.respawn_present,
        respawn_position: got.respawn_position,
        respawn_dimension: got.respawn_dimension,
        armor: got.armor,
    };
    assert_eq!(encode_player(&again).expect("re-encode"), bytes);
}

#[test]
fn crc32c_matches_the_standard_check_value() {
    assert_eq!(crc32c(b"123456789"), 0xE306_9283);
    assert_eq!(crc32c(b""), 0);
    assert_eq!(crc32c_join(&[&b"1234"[..], &b"56789"[..]]), 0xE306_9283);
}

#[test]
fn canonical_order_is_a_stable_ascending_sort() {
    assert_eq!(ascending_order_of(&vec![30, 10, 20, 10]), vec![1, 3, 2, 0]);
    assert_eq!(ascending_order_of(&Vec::new()), Vec::<usize>::new());
}

#[test]
fn identity_keys_are_big_endian_and_validity_is_uuid_v4() {
    let low = id(1);
    let high = PlayerId::from_bytes([
        0x01, 0, 0, 0, 0, 0, 0x40, 0, 0x80, 0, 0, 0, 0, 0, 0, 0,
    ]);
    assert!(low.sort_key() < high.sort_key());
    assert_eq!(low.sort_key() & 0xff, 1);
    assert!(low.is_valid());
    assert!(high.is_valid());
    assert!(!PlayerId::default().is_valid());
    assert!(PlayerId::default().is_zero());
    assert!(!low.is_zero());
    assert!(low.same_as(&id(1)));
    assert!(!low.same_as(&high));
}

#[test]
fn item_rules_give_tool_ceilings_and_stack_limits() {
    assert_eq!(item_max_durability(10), Some(131));
    assert_eq!(item_max_durability(11), Some(250));
    assert_eq!(item_max_durability(1), None);
    assert_eq!(item_stack_limit(10), Some(1));
    assert_eq!(item_stack_limit(1), Some(64));
    assert_eq!(item_stack_limit(0), None);
    assert_eq!(item_stack_limit(66), None);
}

#[test]
fn error_messages_join_context_index_and_detail() {
    assert_eq!(
        corrupt("chunk", "short"),
        StorageError::Corrupt("chunk: short".to_owned())
    );
    assert_eq!(
        corrupt_at("companion record", 12, "bad"),
        StorageError::Corrupt("companion record: 12: bad".to_owned())
    );
    assert_eq!(
        future_version("player schema", 10),
        StorageError::FutureVersion("player schema: 10".to_owned())
    );
}

#[test]
fn metadata_current_record_re_encodes_byte_for_byte() {
    let metadata = Metadata {
        format_version: METADATA_CURRENT_VERSION,
        seed: -7,
        spawn_dimension: 1,
        spawn_anchor: MetadataChunkPos { x: -3, z: 9 },
        world_time_ticks: 24_000,
        day_phase_offset: 6_000,
        weather_kind: 7,
        weather_ticks_remaining: 1_200,
        depths_spawn_anchor: MetadataChunkPos { x: 4, z: -4 },
        depths_seed_salt: 11,
        difficulty: 2,
    };
    let bytes = encode_world_metadata(&metadata).expect("encode");
    let decoded = decode_world_metadata(&bytes).expect("decode");
    assert_eq!(decoded, metadata);
    assert_eq!(encode_world_metadata(&decoded).expect("re-encode"), bytes);
}

#[test]
fn chunk_dimension_allowlist_holds_only_overworld_and_depths() {
    let save = ChunkSave {
        key: ChunkKey {
            dimension: 0,
            x: 3,
            z: -9,
        },
        revision: 5,
        chunk: bare_chunk(),
    };
    let mut logical = encode_chunk_logical(save.key, save.revision, &save.chunk, CHUNK_CURRENT_SCHEMA)
        .expect("logical payload");
    logical[8..12].copy_from_slice(&(-1i32).to_le_bytes());
    let foreign = ChunkKey {
        dimension: -1,
        ..save.key
    };
    match decode_chunk_logical(foreign, save.revision, CHUNK_CURRENT_SCHEMA, &logical) {
        Err(StorageError::Corrupt(detail)) => assert!(detail.starts_with("logical key")),
        other => panic!("negative dimension accepted: {other:?}"),
    }
    let negative = ChunkSave {
        key: foreign,
        ..save.clone()
    };
    assert!(matches!(encode_chunk(&negative), Err(StorageError::Corrupt(_))));
    let mut envelope = encode_chunk(&save).expect("encode");
    envelope[12..16].copy_from_slice(&(-1i32).to_le_bytes());
    assert!(matches!(
        decode_chunk(foreign, save.revision, &envelope),
        Err(StorageError::Corrupt(_))
    ));
}

#[test]
fn chunk_migrate_reports_future_and_missing_schemas() {
    assert_eq!(
        migrate(10, bare_chunk()).expect_err("future schema"),
        StorageError::FutureVersion("chunk schema: 10".to_owned())
    );
    assert_eq!(
        migrate(0, bare_chunk()).expect_err("schema zero"),
        StorageError::Corrupt("chunk migration: missing migration from schema 0".to_owned())
    );
    let (same, migrated) = migrate(CHUNK_CURRENT_SCHEMA, bare_chunk()).expect("current schema");
    assert_eq!(same, bare_chunk());
    assert!(!migrated);
}

#[test]
fn chunk_envelope_errors_carry_the_offending_number() {
    let save = ChunkSave {
        key: ChunkKey {
            dimension: 0,
            x: 0,
            z: 0,
        },
        revision: 2,
        chunk: bare_chunk(),
    };
    let mut envelope = encode_chunk(&save).expect("encode");
    envelope[32..36].copy_from_slice(&99u32.to_le_bytes());
    assert_eq!(
        decode_chunk(save.key, save.revision, &envelope).expect_err("compression ID"),
        StorageError::Corrupt("compression ID: unknown compression ID 99".to_owned())
    );
    assert_eq!(
        encode_chunk_at_schema(&save, 0).expect_err("schema zero"),
        StorageError::Corrupt("chunk schema: unsupported schema 0".to_owned())
    );
}

#[test]
fn chunk_legacy_tool_stacks_split_one_item_per_slot() {
    let mut chunk = bare_chunk();
    chunk.drops[3] = DropSlot {
        generation: 2,
        active: true,
        stack: ItemStack {
            item: 10,
            count: 3,
            durability: 0,
        },
        block_index: 7,
        age_ticks: 5,
        pickup_delay_ticks: 1,
    };
    let (migrated, changed) = migrate(4, chunk).expect("split");
    assert!(changed);
    let tools: Vec<&DropSlot> = migrated.drops.iter().filter(|d| d.active).collect();
    assert_eq!(tools.len(), 3);
    for d in tools {
        assert_eq!(d.stack.item, 10);
        assert_eq!(d.stack.count, 1);
        assert_eq!(d.stack.durability, 131);
        assert_eq!(d.block_index, 7);
    }
    assert_eq!(migrated.drops[3].generation, 2);
    assert_eq!(migrated.drops[0].generation, 1);
    assert_eq!(migrated.drops[1].generation, 1);
}

#[test]
fn chunk_frames_carry_checksum_and_content_size_and_match_the_codec() {
    let save = ChunkSave {
        key: ChunkKey {
            dimension: 1,
            x: 4,
            z: 4,
        },
        revision: 9,
        chunk: bare_chunk(),
    };
    let envelope = encode_chunk(&save).expect("encode");
    let frame = &envelope[CHUNK_ENVELOPE_LENGTH..];
    assert_eq!(&frame[..4], &[0x28, 0xB5, 0x2F, 0xFD]);
    let descriptor = frame[4];
    assert_ne!(descriptor & 0x04, 0, "content checksum flag");
    assert!(descriptor >> 6 != 0 || descriptor & 0x20 != 0, "content size field");

    let mut codec = ChunkCodec::try_new().expect("codec");
    let mut dst = vec![0xAAu8; envelope.len() + 3];
    let written = codec.encode_into(&save, &mut dst).expect("codec encode");
    assert_eq!(&dst[..written], &envelope[..]);
    assert_eq!(&dst[written..], &[0xAA, 0xAA, 0xAA]);

    let mut broken = envelope.clone();
    let last = broken.len() - 1;
    broken[last] ^= 0xFF;
    assert!(matches!(
        decode_chunk(save.key, save.revision, &broken),
        Err(StorageError::Corrupt(_))
    ));
    assert!(matches!(
        codec.decode(save.key, save.revision, &broken),
        Err(StorageError::Corrupt(_))
    ));
    let free = decode_chunk(save.key, save.revision, &envelope).expect("free decode");
    let with_codec = codec.decode(save.key, save.revision, &envelope).expect("codec decode");
    assert_eq!(free, with_codec);
}

#[test]
fn chunk_legacy_tool_split_refuses_when_no_slot_is_free() {
    let mut chunk = bare_chunk();
    for (slot, drop) in chunk.drops.iter_mut().enumerate() {
        *drop = DropSlot {
            generation: 1,
            active: true,
            stack: ItemStack {
                item: if slot == 2 { 10 } else { 1 },
                count: 2,
                durability: 0,
            },
            block_index: 0,
            age_ticks: 0,
            pickup_delay_ticks: 0,
        };
    }
    assert_eq!(
        migrate(4, chunk).expect_err("no reusable slot"),
        StorageError::Corrupt(
            "legacy tool drop: slot 2 has insufficient reusable drop slots".to_owned()
        )
    );
}

#[test]
fn chunk_envelope_short_reads_name_the_field() {
    let save = ChunkSave {
        key: ChunkKey {
            dimension: 0,
            x: 0,
            z: 0,
        },
        revision: 3,
        chunk: bare_chunk(),
    };
    let envelope = encode_chunk(&save).expect("encode");
    assert_eq!(
        decode_chunk(save.key, save.revision, &envelope[..18]).expect_err("short key"),
        StorageError::Corrupt("envelope key: need 4 bytes at offset 16, only 2 remain".to_owned())
    );
    let mut negative = envelope.clone();
    negative[12..16].copy_from_slice(&(-3i32).to_le_bytes());
    assert_eq!(
        decode_chunk(save.key, save.revision, &negative).expect_err("negative dimension"),
        StorageError::Corrupt("envelope key: unsupported dimension -3".to_owned())
    );
}
