//! Player schema range and default-save admission.

use mornlea_storage::identity::PlayerId;
use mornlea_storage::items::{Inventory, ItemStack};
use mornlea_storage::player::{
    CURRENT_SCHEMA, ENVELOPE_LENGTH, MAX_PAYLOAD, OLDEST_SCHEMA, PlayerLocation, PlayerSave,
    encode, schema_readable,
};

fn bits(value: f32) -> u32 {
    value.to_bits()
}

#[test]
fn player_schema_range_is_frozen() {
    assert_eq!(OLDEST_SCHEMA, 1);
    assert_eq!(CURRENT_SCHEMA, 9);
    assert_eq!(ENVELOPE_LENGTH, 44);
    assert_eq!(MAX_PAYLOAD, 1 << 20);
    assert!(schema_readable(1) && schema_readable(9));
    assert!(!schema_readable(0) && !schema_readable(10));
}

#[test]
fn player_save_defaults_encode_a_well_formed_record() {
    let save = PlayerSave {
        player_id: PlayerId::default(),
        revision: 1,
        display_name: "行者".to_owned(),
        current: PlayerLocation {
            dimension: 0,
            position: [bits(0.0), bits(64.0), bits(0.0)],
        },
        yaw: bits(0.0),
        pitch: bits(0.0),
        safe: None,
        inventory: Inventory::default(),
        health: 20,
        hunger: 20,
        saturation_milli: 5_000,
        exhaustion_milli: 0,
        respawn_present: false,
        respawn_position: [bits(0.0); 3],
        respawn_dimension: 0,
        armor: [ItemStack::default(); 4],
    };
    // The default identity is not a UUIDv4, so encoding must reject it.
    assert!(encode(&save).is_err());
}
