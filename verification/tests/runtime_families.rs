//! Entity save families: passive mobs, hostile mobs, companions and players.

use mornlea_storage::{
    crc32c_join, decode_companions, decode_hostile_mobs, decode_passive_mobs, decode_player,
    encode_companions, encode_hostile_mobs, encode_passive_mobs, encode_player, CompanionBody,
    CompanionSave, HostileMob, HostileMobsSave, Inventory, ItemStack, PassiveMob,
    PassiveMobsSave, PlanStep, PlayerId, PlayerLocation, PlayerSave, StorageError,
    StoredCompanionLifecycle, StoredCompanionQueue, StoredCompanionTask,
    COMPANION_CURRENT_SCHEMA, COMPANION_ENVELOPE_VERSION, COMPANION_MAX_FIFO_ENTRIES,
    COMPANION_MAX_STORED, COMPANION_PLAN_STEP_FOLLOW, COMPANION_PLAN_STEP_GO_TO,
    COMPANION_PLAN_STEP_MINE, COMPANION_PLAN_STEP_PLACE, COMPANION_TASK_FAIL_NONE,
    COMPANION_TASK_RUNNING, HOSTILE_CURRENT_SCHEMA, HOSTILE_ENVELOPE_VERSION,
    HOSTILE_MAX_FILE_LENGTH, MAX_HOSTILE_MOBS, MAX_PASSIVE_MOBS, PASSIVE_CURRENT_SCHEMA,
    PASSIVE_ENVELOPE_VERSION, PASSIVE_MAX_FILE_LENGTH, PLAYER_CURRENT_SCHEMA,
    PLAYER_ENVELOPE_LENGTH, PLAYER_MAX_PAYLOAD,
};

#[test]
fn passive_current_schema_round_trip_preserves_bytes() {
    let save = PassiveMobsSave {
        revision: 41,
        records: vec![
            passive_mob(7, 1.5, -3.25, 12.0),
            passive_mob(3, -64.0, 0.0, 319.999),
        ],
    };
    let encoded = encode_passive_mobs(&save).expect("encode passive mobs");
    assert_eq!(encoded.len(), 32 + 2 * 72);
    let decoded = decode_passive_mobs(&encoded).expect("decode passive mobs");
    let mut expected = save.records.clone();
    expected.sort_by_key(|record| record.id);
    assert_eq!(decoded.revision, 41);
    assert_eq!(decoded.records, expected);
    let reencoded = encode_passive_mobs(&PassiveMobsSave {
        revision: decoded.revision,
        records: decoded.records.clone(),
    })
    .expect("re-encode passive mobs");
    assert_eq!(reencoded, encoded, "canonical form must be byte-stable");
}

#[test]
fn passive_encode_is_canonical_regardless_of_input_order() {
    let forward = PassiveMobsSave {
        revision: 5,
        records: vec![passive_mob(1, 0.0, 0.0, 0.0), passive_mob(2, 1.0, 1.0, 1.0)],
    };
    let mut reversed = forward.clone();
    reversed.records.reverse();
    assert_eq!(
        encode_passive_mobs(&forward).expect("encode forward"),
        encode_passive_mobs(&reversed).expect("encode reversed"),
    );
}

#[test]
fn passive_maximum_records_fit_the_file_ceiling() {
    let records: Vec<PassiveMob> = (1..=MAX_PASSIVE_MOBS as u64)
        .map(|id| passive_mob(id, 0.5, 64.0, 100.0))
        .collect();
    let save = PassiveMobsSave {
        revision: 9,
        records,
    };
    let encoded = encode_passive_mobs(&save).expect("encode maximum passive mobs");
    assert_eq!(encoded.len(), PASSIVE_MAX_FILE_LENGTH);
    let decoded = decode_passive_mobs(&encoded).expect("decode maximum passive mobs");
    assert_eq!(decoded.records.len(), MAX_PASSIVE_MOBS);
}

#[test]
fn passive_decode_rejects_future_versions() {
    let encoded = encode_passive_mobs(&PassiveMobsSave {
        revision: 1,
        records: vec![passive_mob(1, 0.0, 0.0, 0.0)],
    })
    .expect("encode passive mobs");

    let mut future_schema = encoded.clone();
    future_schema[8..12].copy_from_slice(&(PASSIVE_CURRENT_SCHEMA + 1).to_le_bytes());
    assert_eq!(
        decode_passive_mobs(&future_schema).unwrap_err(),
        StorageError::FutureVersion("passive schema: 2".to_owned()),
    );

    let mut future_envelope = encoded.clone();
    future_envelope[4..8].copy_from_slice(&(PASSIVE_ENVELOPE_VERSION + 1).to_le_bytes());
    assert_eq!(
        decode_passive_mobs(&future_envelope).unwrap_err(),
        StorageError::FutureVersion("passive envelope version: 2".to_owned()),
    );
}

#[test]
fn passive_decode_rejects_corrupt_and_partial_records() {
    let encoded = encode_passive_mobs(&PassiveMobsSave {
        revision: 3,
        records: vec![passive_mob(1, 0.0, 0.0, 0.0), passive_mob(2, 1.0, 1.0, 1.0)],
    })
    .expect("encode passive mobs");

    for length in [0, 4, 31, 32, 40, encoded.len() - 1] {
        assert!(
            decode_passive_mobs(&encoded[..length]).is_err(),
            "truncated passive file of {length} bytes must be rejected"
        );
    }

    let mut oversized_count = encoded.clone();
    oversized_count[20..24].copy_from_slice(&(MAX_PASSIVE_MOBS as u32 + 1).to_le_bytes());
    assert!(decode_passive_mobs(&oversized_count).is_err());

    let mut oversized_file = encoded.clone();
    oversized_file.extend_from_slice(&[0u8; 8]);
    assert!(decode_passive_mobs(&oversized_file).is_err());

    let mut nonzero_reserved = encoded.clone();
    nonzero_reserved[32 + 42] = 1;
    reseal_passive(&mut nonzero_reserved);
    assert!(decode_passive_mobs(&nonzero_reserved).is_err());

    let mut broken_crc = encoded.clone();
    broken_crc[60] ^= 0xff;
    assert!(decode_passive_mobs(&broken_crc).is_err());

    let mut unsorted = encoded.clone();
    unsorted[32..40].copy_from_slice(&9u64.to_le_bytes());
    reseal_passive(&mut unsorted);
    assert!(decode_passive_mobs(&unsorted).is_err());

    let mut bad_bool = encoded.clone();
    bad_bool[32 + 36] = 2;
    reseal_passive(&mut bad_bool);
    assert!(decode_passive_mobs(&bad_bool).is_err());

    let mut bad_dimension = encoded.clone();
    bad_dimension[32 + 8..32 + 12].copy_from_slice(&1u32.to_le_bytes());
    reseal_passive(&mut bad_dimension);
    assert!(decode_passive_mobs(&bad_dimension).is_err());

    let mut bad_health = encoded.clone();
    bad_health[32 + 41] = 21;
    reseal_passive(&mut bad_health);
    assert!(decode_passive_mobs(&bad_health).is_err());
}

/// Recomputes the passive envelope checksum in place so a semantic mutation
/// is rejected by the record validator rather than the CRC gate.
fn reseal_passive(bytes: &mut [u8]) {
    let checksum = crc32c_join(&[&bytes[8..28], &bytes[32..]]);
    bytes[28..32].copy_from_slice(&checksum.to_le_bytes());
}

#[test]
fn passive_encode_rejects_invalid_saves() {
    assert!(
        encode_passive_mobs(&PassiveMobsSave {
            revision: 0,
            records: vec![passive_mob(1, 0.0, 0.0, 0.0)],
        })
        .is_err()
    );

    let too_many: Vec<PassiveMob> = (1..=MAX_PASSIVE_MOBS as u64 + 1)
        .map(|id| passive_mob(id, 0.0, 0.0, 0.0))
        .collect();
    assert!(
        encode_passive_mobs(&PassiveMobsSave {
            revision: 1,
            records: too_many,
        })
        .is_err()
    );

    let duplicate = PassiveMobsSave {
        revision: 1,
        records: vec![passive_mob(1, 0.0, 0.0, 0.0), passive_mob(1, 1.0, 1.0, 1.0)],
    };
    assert!(encode_passive_mobs(&duplicate).is_err());

    let mut outside_world = passive_mob(1, 0.0, 320.0, 0.0);
    assert!(
        encode_passive_mobs(&PassiveMobsSave {
            revision: 1,
            records: vec![outside_world.clone()],
        })
        .is_err()
    );
    outside_world.position[1] = (-64.001f32).to_bits();
    assert!(
        encode_passive_mobs(&PassiveMobsSave {
            revision: 1,
            records: vec![outside_world],
        })
        .is_err()
    );

    let mut zero_id = passive_mob(0, 0.0, 0.0, 0.0);
    assert!(
        encode_passive_mobs(&PassiveMobsSave {
            revision: 1,
            records: vec![zero_id.clone()],
        })
        .is_err()
    );
    zero_id.health = 0;
    zero_id.id = 1;
    assert!(
        encode_passive_mobs(&PassiveMobsSave {
            revision: 1,
            records: vec![zero_id],
        })
        .is_err()
    );
}

fn passive_mob(id: u64, x: f32, y: f32, z: f32) -> PassiveMob {
    PassiveMob {
        id,
        dimension: 0,
        position: [x.to_bits(), y.to_bits(), z.to_bits()],
        velocity: [0.0f32.to_bits(), 0.0f32.to_bits(), 0.0f32.to_bits()],
        on_ground: true,
        yaw: 1.25f32.to_bits(),
        health: 20,
    }
}

#[test]
fn hostile_current_schema_round_trip_preserves_bytes() {
    let save = HostileMobsSave {
        revision: 31,
        records: vec![
            hostile_bone_thrower(0x8000_0000_0000_0002),
            hostile_nightcrawler(0x4000_0000_0000_0001),
            hostile_nightcrawler(1),
        ],
    };
    let encoded = encode_hostile_mobs(&save).expect("encode hostile mobs");
    assert_eq!(encoded.len(), 32 + 3 * 73);
    let decoded = decode_hostile_mobs(&encoded).expect("decode hostile mobs");
    let mut expected = save.records.clone();
    expected.sort_by_key(|record| record.id);
    assert_eq!(decoded.revision, 31);
    assert_eq!(decoded.records, expected);
    let reencoded = encode_hostile_mobs(&HostileMobsSave {
        revision: decoded.revision,
        records: decoded.records.clone(),
    })
    .expect("re-encode hostile mobs");
    assert_eq!(reencoded, encoded, "canonical form must be byte-stable");
    assert_eq!(HOSTILE_MAX_FILE_LENGTH, 4704);
}

#[test]
fn hostile_encode_is_canonical_regardless_of_input_order() {
    let forward = HostileMobsSave {
        revision: 5,
        records: vec![hostile_nightcrawler(1), hostile_nightcrawler(2)],
    };
    let mut reversed = forward.clone();
    reversed.records.reverse();
    assert_eq!(
        encode_hostile_mobs(&forward).expect("encode forward"),
        encode_hostile_mobs(&reversed).expect("encode reversed"),
    );
}

#[test]
fn hostile_empty_collection_round_trips() {
    let encoded = encode_hostile_mobs(&HostileMobsSave {
        revision: 4,
        records: Vec::new(),
    })
    .expect("encode empty hostile mobs");
    assert_eq!(encoded.len(), 32);
    let decoded = decode_hostile_mobs(&encoded).expect("decode empty hostile mobs");
    assert_eq!(decoded.revision, 4);
    assert!(decoded.records.is_empty());
}

#[test]
fn hostile_maximum_records_fit_the_file_ceiling() {
    let records: Vec<HostileMob> = (1..=MAX_HOSTILE_MOBS as u64)
        .map(hostile_nightcrawler)
        .collect();
    let encoded = encode_hostile_mobs(&HostileMobsSave {
        revision: 23,
        records,
    })
    .expect("encode maximum hostile mobs");
    assert_eq!(encoded.len(), HOSTILE_MAX_FILE_LENGTH);
    let decoded = decode_hostile_mobs(&encoded).expect("decode maximum hostile mobs");
    assert_eq!(decoded.records.len(), MAX_HOSTILE_MOBS);

    let mut trailing = encoded.clone();
    trailing.push(0);
    assert!(decode_hostile_mobs(&trailing).is_err());

    let too_many: Vec<HostileMob> = (1..=MAX_HOSTILE_MOBS as u64 + 1)
        .map(hostile_nightcrawler)
        .collect();
    assert!(
        encode_hostile_mobs(&HostileMobsSave {
            revision: 1,
            records: too_many,
        })
        .is_err()
    );

    let oversized = vec![0x5au8; HOSTILE_MAX_FILE_LENGTH + 1];
    assert!(decode_hostile_mobs(&oversized).is_err());
}

#[test]
fn hostile_decode_rejects_future_versions() {
    let encoded = encode_hostile_mobs(&HostileMobsSave {
        revision: 1,
        records: vec![hostile_nightcrawler(1)],
    })
    .expect("encode hostile mobs");

    let mut future_schema = encoded.clone();
    future_schema[8..12].copy_from_slice(&(HOSTILE_CURRENT_SCHEMA + 1).to_le_bytes());
    assert_eq!(
        decode_hostile_mobs(&future_schema).unwrap_err(),
        StorageError::FutureVersion("hostile schema: 3".to_owned()),
    );

    let mut future_envelope = encoded.clone();
    future_envelope[4..8].copy_from_slice(&(HOSTILE_ENVELOPE_VERSION + 1).to_le_bytes());
    assert_eq!(
        decode_hostile_mobs(&future_envelope).unwrap_err(),
        StorageError::FutureVersion("hostile envelope version: 2".to_owned()),
    );
}

#[test]
fn hostile_decode_rejects_corrupt_and_partial_records() {
    let encoded = encode_hostile_mobs(&HostileMobsSave {
        revision: 3,
        records: vec![hostile_nightcrawler(1), hostile_bone_thrower(2)],
    })
    .expect("encode hostile mobs");

    for length in [0, 4, 31, 32, 40, 33, encoded.len() - 1] {
        assert!(
            decode_hostile_mobs(&encoded[..length]).is_err(),
            "truncated hostile file of {length} bytes must be rejected"
        );
    }

    let mut oversized_count = encoded.clone();
    oversized_count[20..24].copy_from_slice(&(MAX_HOSTILE_MOBS as u32 + 1).to_le_bytes());
    assert!(decode_hostile_mobs(&oversized_count).is_err());

    let mut bad_crc = encoded.clone();
    bad_crc[60] ^= 0xff;
    assert!(decode_hostile_mobs(&bad_crc).is_err());

    let mut unsorted = encoded.clone();
    unsorted[32..40].copy_from_slice(&9u64.to_le_bytes());
    reseal_hostile(&mut unsorted);
    assert!(decode_hostile_mobs(&unsorted).is_err());

    let mut bad_cooldown = encoded.clone();
    bad_cooldown[32 + 42] = 21;
    reseal_hostile(&mut bad_cooldown);
    assert!(decode_hostile_mobs(&bad_cooldown).is_err());

    let mut bad_distant = encoded.clone();
    bad_distant[32 + 70..32 + 72].copy_from_slice(&601u16.to_le_bytes());
    reseal_hostile(&mut bad_distant);
    assert!(decode_hostile_mobs(&bad_distant).is_err());

    let mut bad_kind = encoded.clone();
    bad_kind[32 + 72] = 2;
    reseal_hostile(&mut bad_kind);
    assert!(decode_hostile_mobs(&bad_kind).is_err());

    let mut bad_bool = encoded.clone();
    bad_bool[32 + 36] = 2;
    reseal_hostile(&mut bad_bool);
    assert!(decode_hostile_mobs(&bad_bool).is_err());

    let mut bad_target = encoded.clone();
    bad_target[32 + 73 + 45] = 0;
    reseal_hostile(&mut bad_target);
    assert!(decode_hostile_mobs(&bad_target).is_err());
}

#[test]
fn hostile_encode_rejects_invalid_saves() {
    assert!(
        encode_hostile_mobs(&HostileMobsSave {
            revision: 0,
            records: vec![hostile_nightcrawler(1)],
        })
        .is_err()
    );

    let duplicate = HostileMobsSave {
        revision: 1,
        records: vec![hostile_nightcrawler(1), hostile_nightcrawler(1)],
    };
    assert!(encode_hostile_mobs(&duplicate).is_err());

    let mut zero_id = hostile_nightcrawler(0);
    assert!(
        encode_hostile_mobs(&HostileMobsSave {
            revision: 1,
            records: vec![zero_id.clone()],
        })
        .is_err()
    );
    zero_id.id = 1;
    zero_id.health = 0;
    assert!(
        encode_hostile_mobs(&HostileMobsSave {
            revision: 1,
            records: vec![zero_id],
        })
        .is_err()
    );

    let mut stale_target = hostile_nightcrawler(1);
    stale_target.player_id =
        PlayerId::from_bytes([0x6f, 0xce, 0x82, 0x77, 0, 0, 0, 0, 0, 0, 0, 0, 0, 0, 0, 0]);
    assert!(
        encode_hostile_mobs(&HostileMobsSave {
            revision: 1,
            records: vec![stale_target],
        })
        .is_err()
    );
}

/// Recomputes the hostile envelope checksum in place so a semantic mutation is
/// rejected by the record validator rather than the CRC gate.
fn reseal_hostile(bytes: &mut [u8]) {
    let checksum = crc32c_join(&[&bytes[8..28], &bytes[32..]]);
    bytes[28..32].copy_from_slice(&checksum.to_le_bytes());
}

fn hostile_nightcrawler(id: u64) -> HostileMob {
    HostileMob {
        id,
        dimension: 0,
        position: [0.0f32.to_bits(), 0.0f32.to_bits(), 0.0f32.to_bits()],
        velocity: [0.0f32.to_bits(), 0.0f32.to_bits(), 0.0f32.to_bits()],
        on_ground: false,
        yaw: 0.0f32.to_bits(),
        health: 1,
        attack_cooldown: 0,
        hurt_cooldown: 0,
        burn_cooldown: 0,
        has_target: false,
        player_id: PlayerId::from_bytes([0; 16]),
        next_repath_ticks: 0,
        distant_ticks: 0,
        kind: 0,
    }
}

fn hostile_bone_thrower(id: u64) -> HostileMob {
    HostileMob {
        id,
        dimension: 0,
        position: [(-12.5f32).to_bits(), 70.25f32.to_bits(), 3.5f32.to_bits()],
        velocity: [(-1.25f32).to_bits(), 0.0f32.to_bits(), 0.5f32.to_bits()],
        on_ground: true,
        yaw: 1.25f32.to_bits(),
        health: 17,
        attack_cooldown: 3,
        hurt_cooldown: 1,
        burn_cooldown: 5,
        has_target: true,
        player_id: PlayerId::from_bytes([
            0x6f, 0xce, 0x82, 0x77, 0xa9, 0x33, 0x46, 0xcb, 0x9a, 0x1f, 0xda, 0x13, 0xb7, 0xee,
            0x56, 0x44,
        ]),
        next_repath_ticks: 905,
        distant_ticks: 120,
        kind: 1,
    }
}

#[test]
fn companion_decode_rejects_future_and_unsupported_versions() {
    let encoded = encode_companions(&companion_golden_save()).expect("encode companion save");

    let mut future_schema = encoded.clone();
    future_schema[8..12].copy_from_slice(&(COMPANION_CURRENT_SCHEMA + 1).to_le_bytes());
    assert_eq!(
        decode_companions(&future_schema).unwrap_err(),
        StorageError::FutureVersion("companion schema: 6".to_owned()),
    );

    let mut future_envelope = encoded.clone();
    future_envelope[4..8].copy_from_slice(&(COMPANION_ENVELOPE_VERSION + 1).to_le_bytes());
    assert_eq!(
        decode_companions(&future_envelope).unwrap_err(),
        StorageError::FutureVersion("companion envelope version: 2".to_owned()),
    );

    let mut unsupported_schema = encoded.clone();
    unsupported_schema[8..12].copy_from_slice(&6u32.to_le_bytes());
    unsupported_schema[8..12].copy_from_slice(&7u32.to_le_bytes());
    assert!(matches!(
        decode_companions(&unsupported_schema).unwrap_err(),
        StorageError::FutureVersion(_)
    ));
}

#[test]
fn companion_decode_rejects_corrupt_and_partial_bytes() {
    let encoded = encode_companions(&companion_golden_save()).expect("encode companion save");

    for length in [0, 4, 31, 32, 33, 48, encoded.len() - 1] {
        assert!(
            decode_companions(&encoded[..length]).is_err(),
            "truncated companion file of {length} bytes must be rejected"
        );
    }

    let mut oversized = encoded.clone();
    oversized.extend_from_slice(&[0u8; 8]);
    assert!(decode_companions(&oversized).is_err());

    let mut broken_crc = encoded.clone();
    broken_crc[60] ^= 0xff;
    assert!(decode_companions(&broken_crc).is_err());

    // A count that the payload cannot back is rejected before any allocation.
    let mut oversized_count = encoded.clone();
    oversized_count[20..24].copy_from_slice(&(COMPANION_MAX_STORED as u32 + 1).to_le_bytes());
    assert!(decode_companions(&oversized_count).is_err());

    // Resealing after the mutation proves the rejection comes from the record
    // validator rather than the CRC gate.
    let mut unsorted = encoded.clone();
    unsorted[32 + 16..32 + 32].copy_from_slice(&companion_id(9).to_bytes());
    reseal_companion(&mut unsorted);
    assert!(decode_companions(&unsorted).is_err());
}

#[test]
fn companion_encode_rejects_invalid_couplings() {
    let bodies = companion_bodies();
    let mut duplicate = CompanionSave {
        revision: 1,
        agent_namespace_id: agent_identity(0x70),
        records: vec![bodies[1].clone(), bodies[1].clone()],
        lifecycles: Vec::new(),
        queues: Vec::new(),
    };
    duplicate.lifecycles = vec![
        fixture_lifecycle(bodies[1].id, true),
        fixture_lifecycle(bodies[1].id, true),
    ];
    assert!(encode_companions(&duplicate).is_err());

    // A lifecycle set that does not line up with the record set is rejected.
    let mut mismatched = CompanionSave {
        revision: 1,
        agent_namespace_id: agent_identity(0x70),
        records: vec![bodies[1].clone()],
        lifecycles: vec![fixture_lifecycle(bodies[1].id, true)],
        queues: Vec::new(),
    };
    mismatched
        .lifecycles
        .push(fixture_lifecycle(companion_id(3), false));
    assert!(encode_companions(&mismatched).is_err());

    // An inactive companion may not carry a task or FIFO payload.
    let mut inactive_with_queue = CompanionSave {
        revision: 1,
        agent_namespace_id: agent_identity(0x70),
        records: vec![bodies[1].clone()],
        lifecycles: vec![fixture_lifecycle(bodies[1].id, false)],
        queues: vec![StoredCompanionQueue {
            id: bodies[1].id,
            pending: vec!["跟我来".to_owned()],
            ..StoredCompanionQueue::default()
        }],
    };
    assert!(encode_companions(&inactive_with_queue).is_err());

    // A v5 queue may not carry a legacy summary.
    inactive_with_queue.lifecycles[0].active = true;
    inactive_with_queue.queues[0].summary = "legacy summary".to_owned();
    assert!(encode_companions(&inactive_with_queue).is_err());

    // Zero revision and an invalid namespace are rejected up front.
    let mut zero_revision = CompanionSave {
        revision: 0,
        agent_namespace_id: agent_identity(0x70),
        records: Vec::new(),
        lifecycles: Vec::new(),
        queues: Vec::new(),
    };
    assert!(encode_companions(&zero_revision).is_err());
    zero_revision.revision = 1;
    zero_revision.agent_namespace_id = PlayerId::default();
    assert!(encode_companions(&zero_revision).is_err());
}

/// Recomputes the companion envelope checksum in place so a semantic mutation
/// is rejected by the record validator rather than the CRC gate.
fn reseal_companion(bytes: &mut [u8]) {
    let checksum = crc32c_join(&[&bytes[8..28], &bytes[32..]]);
    bytes[28..32].copy_from_slice(&checksum.to_le_bytes());
}

fn agent_identity(last: u8) -> PlayerId {
    PlayerId::from_bytes([
        0x10, 0x11, 0x12, 0x13, 0x14, 0x15, 0x46, 0x17, 0x88, 0x19, 0x1a, 0x1b, 0x1c, 0x1d, 0x1e,
        last,
    ])
}

fn fixture_lifecycle(id: PlayerId, active: bool) -> StoredCompanionLifecycle {
    let mut lifecycle = if active {
        StoredCompanionLifecycle {
            id,
            active,
            memory_epoch: 1,
            memory_revision: 0,
            memory_operation_id: PlayerId::default(),
            summary: String::new(),
            tombstone_operation_id: PlayerId::default(),
        }
    } else {
        StoredCompanionLifecycle {
            id,
            active,
            memory_epoch: 1,
            memory_revision: 0,
            memory_operation_id: PlayerId::default(),
            summary: String::new(),
            tombstone_operation_id: agent_identity(id.to_bytes()[15] + 0x40),
        }
    };
    lifecycle.active = active;
    lifecycle
}

fn companion_id(last: u8) -> PlayerId {
    PlayerId::from_bytes([
        0x00, 0x11, 0x22, 0x33, 0x44, 0x55, 0x46, 0x77, 0x88, 0x99, 0xaa, 0xbb, 0xcc, 0xdd, 0xee,
        last,
    ])
}

fn companion_stack(item: u16, count: u8, durability: u16) -> ItemStack {
    ItemStack {
        item,
        count,
        durability,
    }
}

/// The committed fixture's "high" companion body.
fn companion_high() -> CompanionBody {
    let mut body = CompanionBody {
        id: companion_id(2),
        dimension: 0,
        position: [(-12.5f32).to_bits(), 70.0f32.to_bits(), 3.25f32.to_bits()],
        yaw: 1.25f32.to_bits(),
        pitch: (-0.5f32).to_bits(),
        inventory: Inventory::default(),
    };
    body.inventory.hotbar.selected = 4;
    body.inventory.hotbar.slots[0] = companion_stack(1, 64, 0);
    body.inventory.hotbar.slots[4] = companion_stack(10, 1, 131);
    body.inventory.backpack[0] = companion_stack(20, 7, 0);
    body
}

/// The committed fixture's "low" companion body.
fn companion_low() -> CompanionBody {
    let mut body = CompanionBody {
        id: companion_id(1),
        dimension: 0,
        position: [8.5f32.to_bits(), 65.0f32.to_bits(), (-9.75f32).to_bits()],
        yaw: (-2.5f32).to_bits(),
        pitch: 0.75f32.to_bits(),
        inventory: Inventory::default(),
    };
    body.inventory.hotbar.selected = 2;
    body.inventory.hotbar.slots[2] = companion_stack(23, 12, 0);
    body.inventory.backpack[7] = companion_stack(11, 1, 250);
    body.inventory.backpack[26] = companion_stack(2, 5, 0);
    body
}

fn companion_bodies() -> Vec<CompanionBody> {
    vec![companion_high(), companion_low()]
}

fn companion_v3_queues() -> Vec<StoredCompanionQueue> {
    let pending: Vec<String> = (1..=COMPANION_MAX_FIFO_ENTRIES)
        .map(|index| format!("v3排队第{index}条"))
        .collect();
    vec![StoredCompanionQueue {
        id: companion_id(1),
        has_current: true,
        current: StoredCompanionTask {
            command: "去橡树旁挖一格垫一块再跟着我".to_owned(),
            plan_steps: vec![
                PlanStep {
                    kind: COMPANION_PLAN_STEP_GO_TO,
                    x: -8,
                    y: 70,
                    z: 6,
                    ..PlanStep::default()
                },
                PlanStep {
                    kind: COMPANION_PLAN_STEP_MINE,
                    x: -7,
                    y: 69,
                    z: 6,
                    ..PlanStep::default()
                },
                PlanStep {
                    kind: COMPANION_PLAN_STEP_PLACE,
                    x: -6,
                    y: 69,
                    z: 6,
                    block: 18,
                    ..PlanStep::default()
                },
                PlanStep {
                    kind: COMPANION_PLAN_STEP_FOLLOW,
                    player_id: PlayerId::from_bytes([
                        0x00, 0x11, 0x22, 0x33, 0x44, 0x55, 0x46, 0x77, 0x88, 0x99, 0xaa, 0xbb,
                        0xcc, 0xdd, 0xee, 0x05,
                    ]),
                    ..PlanStep::default()
                },
            ],
            step_index: 2,
            state: COMPANION_TASK_RUNNING,
            start_tick: 2400,
            deadline_ticks: 0,
            fail_reason: COMPANION_TASK_FAIL_NONE,
        },
        pending,
        summary: String::new(),
    }]
}

/// The committed v5 golden save, with a nonzero mirror, a canonical-zero
/// mirror, an inactive tombstone, and one task-bearing queue.
fn companion_golden_save() -> CompanionSave {
    let bodies = companion_bodies();
    let mut inactive_body = bodies[0].clone();
    inactive_body.id = companion_id(3);
    inactive_body.position = [24.5f32.to_bits(), 68.0f32.to_bits(), (-17.5f32).to_bits()];
    let records = vec![bodies[1].clone(), bodies[0].clone(), inactive_body];

    let mut nonzero = fixture_lifecycle(records[0].id, true);
    nonzero.memory_epoch = 7;
    nonzero.memory_revision = 11;
    nonzero.memory_operation_id = agent_identity(0x71);
    nonzero.summary = "阿木记得北边橡树旁的小路。".to_owned();
    let mut zero = fixture_lifecycle(records[1].id, true);
    zero.memory_epoch = 3;
    let mut inactive = fixture_lifecycle(records[2].id, false);
    inactive.memory_epoch = 9;
    inactive.tombstone_operation_id = agent_identity(0x73);

    CompanionSave {
        revision: 47,
        agent_namespace_id: agent_identity(0x70),
        records,
        lifecycles: vec![nonzero, zero, inactive],
        queues: companion_v3_queues(),
    }
}

#[test]
fn player_current_schema_round_trip_preserves_fields() {
    let mut save = fixture_player_save(7);
    save.respawn_present = true;
    save.respawn_position = [7.0f32.to_bits(), 65.0f32.to_bits(), (-9.0f32).to_bits()];
    save.respawn_dimension = 0;
    save.armor = armor_fixture_stacks();
    let encoded = encode_player(&save).expect("encode player");
    assert_eq!(u32_at(&encoded, 8), PLAYER_CURRENT_SCHEMA);
    let got = decode_player(save.player_id, &encoded).expect("decode player");
    assert_eq!(got.display_name, "Chen");
    assert_eq!(got.current, save.current);
    assert_eq!(got.safe, save.safe);
    assert_eq!(got.yaw, 1.25f32.to_bits());
    assert_eq!(got.pitch, (-0.5f32).to_bits());
    assert_eq!(got.inventory, save.inventory);
    assert_eq!(got.health, 13);
    assert_eq!(got.hunger, 12);
    assert_eq!(got.saturation_milli, 2500);
    assert_eq!(got.exhaustion_milli, 1750);
    assert!(got.respawn_present);
    assert_eq!(got.respawn_position, save.respawn_position);
    assert_eq!(got.respawn_dimension, 0);
    assert_eq!(got.armor, save.armor);
    assert!(!got.needs_rewrite);
    // The decoded safe location must not alias the save payload.
    assert!(save.safe.is_some());
}

#[test]
fn player_without_respawn_encodes_independently_of_residue() {
    let save = fixture_player_save(7);
    let encoded = encode_player(&save).expect("encode player");
    let got = decode_player(save.player_id, &encoded).expect("decode player");
    assert!(!got.respawn_present);
    assert_eq!(got.respawn_position, [0.0f32.to_bits(); 3]);
    assert_eq!(got.respawn_dimension, 0);

    let mut residue = save.clone();
    residue.respawn_position = [1.0f32.to_bits(), 2.0f32.to_bits(), 3.0f32.to_bits()];
    residue.respawn_dimension = 0;
    let residue_encoded = encode_player(&residue).expect("encode residue player");
    assert_eq!(
        encoded, residue_encoded,
        "present=0 must encode deterministically regardless of residue"
    );
}

#[test]
fn player_armor_section_is_the_fixed_twenty_byte_tail() {
    let mut save = fixture_player_save(9);
    save.respawn_present = true;
    save.respawn_position = [7.0f32.to_bits(), 65.0f32.to_bits(), (-9.0f32).to_bits()];
    save.respawn_dimension = 0;
    save.armor = armor_fixture_stacks();
    let encoded = encode_player(&save).expect("encode armored player");

    let mut unequipped = save.clone();
    unequipped.armor = [ItemStack::default(); 4];
    let plain = encode_player(&unequipped).expect("encode unequipped player");
    assert_eq!(encoded.len(), plain.len());
    assert_eq!(
        &encoded[PLAYER_ENVELOPE_LENGTH..encoded.len() - 20],
        &plain[PLAYER_ENVELOPE_LENGTH..plain.len() - 20],
        "the armor section must sit at the fixed end of the payload"
    );
    assert_ne!(
        &encoded[encoded.len() - 20..],
        &plain[plain.len() - 20..],
        "the armor fixture must carry nonzero bytes for the tail assertion"
    );
}

#[test]
fn player_depths_locations_round_trip() {
    let mut save = fixture_player_save(7);
    save.current.dimension = 1;
    if let Some(safe) = &mut save.safe {
        safe.dimension = 1;
    }
    save.respawn_present = true;
    save.respawn_position = [7.0f32.to_bits(), 65.0f32.to_bits(), (-9.0f32).to_bits()];
    save.respawn_dimension = 1;
    let encoded = encode_player(&save).expect("encode depths player");
    let got = decode_player(save.player_id, &encoded).expect("decode depths player");
    assert_eq!(got.current.dimension, 1);
    assert_eq!(got.safe.as_ref().map(|safe| safe.dimension), Some(1));
    assert_eq!(got.respawn_dimension, 1);
}

#[test]
fn player_decode_rejects_future_versions() {
    let encoded = encode_player(&fixture_player_save(7)).expect("encode player");

    let mut future_schema = encoded.clone();
    future_schema[8..12].copy_from_slice(&(PLAYER_CURRENT_SCHEMA + 1).to_le_bytes());
    assert_eq!(
        decode_player(player_id(), &future_schema).unwrap_err(),
        StorageError::FutureVersion("player schema: 10".to_owned()),
    );

    let mut future_envelope = encoded.clone();
    future_envelope[4..8].copy_from_slice(&2u32.to_le_bytes());
    assert_eq!(
        decode_player(player_id(), &future_envelope).unwrap_err(),
        StorageError::FutureVersion("player envelope version: 2".to_owned()),
    );
}

#[test]
fn player_decode_rejects_corrupt_and_partial_bytes() {
    let encoded = encode_player(&fixture_player_save(7)).expect("encode player");

    for length in [0, 4, 43, 44, 45, encoded.len() - 1] {
        assert!(
            decode_player(player_id(), &encoded[..length]).is_err(),
            "truncated player file of {length} bytes must be rejected"
        );
    }

    let mut trailing = encoded.clone();
    trailing.push(0);
    assert!(decode_player(player_id(), &trailing).is_err());

    let mut broken_crc = encoded.clone();
    let last = broken_crc.len() - 1;
    broken_crc[last] ^= 0xff;
    assert!(decode_player(player_id(), &broken_crc).is_err());

    // A payload longer than the declared envelope length is rejected before
    // any allocation.
    let mut oversized_payload = encoded.clone();
    oversized_payload[36..40].copy_from_slice(&(PLAYER_MAX_PAYLOAD as u32 + 1).to_le_bytes());
    assert!(decode_player(player_id(), &oversized_payload).is_err());

    // A payload that is one byte shorter than the inventory requires is a
    // layout mismatch, not a record.
    let mut short_inventory = encoded.clone();
    let declared = u32::from_le_bytes(short_inventory[36..40].try_into().expect("four bytes"));
    short_inventory[36..40].copy_from_slice(&(declared - 1).to_le_bytes());
    assert!(decode_player(player_id(), &short_inventory).is_err());

    let mut bad_safe_flag = encoded.clone();
    let safe_flag_offset = PLAYER_ENVELOPE_LENGTH + payload_prefix_length(&encoded);
    bad_safe_flag[safe_flag_offset] = 2;
    reseal_player(&mut bad_safe_flag);
    assert!(decode_player(player_id(), &bad_safe_flag).is_err());
}

#[test]
fn player_decode_rejects_foreign_and_invalid_identities() {
    let encoded = encode_player(&fixture_player_save(7)).expect("encode player");
    let mut foreign = player_id().to_bytes();
    foreign[15] = 0x00;
    assert!(decode_player(PlayerId::from_bytes(foreign), &encoded).is_err());
    assert!(decode_player(PlayerId::default(), &encoded).is_err());
}

#[test]
fn player_encode_rejects_invalid_saves() {
    let mut zero_revision = fixture_player_save(0);
    assert!(encode_player(&zero_revision).is_err());
    zero_revision.revision = 7;
    zero_revision.display_name = "   ".to_owned();
    assert!(encode_player(&zero_revision).is_err());
    zero_revision.display_name = "Chen".to_owned();
    zero_revision.health = 21;
    assert!(encode_player(&zero_revision).is_err());
    zero_revision.health = 20;
    zero_revision.current.dimension = 2;
    assert!(encode_player(&zero_revision).is_err());
    zero_revision.current.dimension = 0;
    zero_revision.pitch = 2.0f32.to_bits();
    assert!(encode_player(&zero_revision).is_err());
}

fn payload_prefix_length(encoded: &[u8]) -> usize {
    // Name length prefix plus the name bytes, ending at the yaw field.
    let name_length = u32::from_le_bytes(
        encoded[PLAYER_ENVELOPE_LENGTH..PLAYER_ENVELOPE_LENGTH + 4]
            .try_into()
            .expect("four bytes"),
    ) as usize;
    4 + name_length + 4 + 12 + 4 + 4
}

/// Recomputes the MCPL envelope checksum in place so a semantic mutation is
/// rejected by the record validator rather than the CRC gate.
fn reseal_player(bytes: &mut [u8]) {
    let payload_length = u32::from_le_bytes(bytes[36..40].try_into().expect("four bytes")) as usize;
    let checksum = crc32c_join(&[&bytes[8..40], &bytes[PLAYER_ENVELOPE_LENGTH..]]);
    let _ = payload_length;
    bytes[40..44].copy_from_slice(&checksum.to_le_bytes());
}

fn player_id() -> PlayerId {
    PlayerId::from_bytes([
        0x00, 0x11, 0x22, 0x33, 0x44, 0x55, 0x46, 0x77, 0x88, 0x99, 0xaa, 0xbb, 0xcc, 0xdd, 0xee,
        0xff,
    ])
}

fn fixture_player_save(revision: u64) -> PlayerSave {
    let mut inventory = Inventory::default();
    inventory.hotbar.selected = 3;
    inventory.hotbar.slots[0] = ItemStack {
        item: 1,
        count: 64,
        durability: 0,
    };
    inventory.hotbar.slots[4] = ItemStack {
        item: 10,
        count: 1,
        durability: 131,
    };
    inventory.hotbar.slots[6] = ItemStack {
        item: 3,
        count: 1,
        durability: 0,
    };
    inventory.backpack[0] = ItemStack {
        item: 2,
        count: 12,
        durability: 0,
    };
    inventory.backpack[7] = ItemStack {
        item: 11,
        count: 1,
        durability: 250,
    };
    inventory.backpack[26] = ItemStack {
        item: 1,
        count: 5,
        durability: 0,
    };
    PlayerSave {
        player_id: player_id(),
        revision,
        display_name: "Chen".to_owned(),
        current: PlayerLocation {
            dimension: 0,
            position: [2.5f32.to_bits(), 70.0f32.to_bits(), (-3.5f32).to_bits()],
        },
        yaw: 1.25f32.to_bits(),
        pitch: (-0.5f32).to_bits(),
        safe: Some(PlayerLocation {
            dimension: 0,
            position: [1.5f32.to_bits(), 65.0f32.to_bits(), (-2.5f32).to_bits()],
        }),
        inventory,
        health: 13,
        hunger: 12,
        saturation_milli: 2500,
        exhaustion_milli: 1750,
        respawn_present: false,
        respawn_position: [0.0f32.to_bits(); 3],
        respawn_dimension: 0,
        armor: [ItemStack::default(); 4],
    }
}

fn armor_fixture_stacks() -> [ItemStack; 4] {
    [
        ItemStack {
            item: 58,
            count: 1,
            durability: 165,
        },
        ItemStack {
            item: 59,
            count: 1,
            durability: 0,
        },
        ItemStack {
            item: 60,
            count: 0,
            durability: 165,
        },
        ItemStack::default(),
    ]
}

fn u32_at(encoded: &[u8], offset: usize) -> u32 {
    u32::from_le_bytes(encoded[offset..offset + 4].try_into().expect("four bytes"))
}

