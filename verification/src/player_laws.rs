//! Exactness of the player codec: what the writer gives back of what the
//! reader read.
//!
//! A current-schema record that the decoder accepts is, byte for byte, the
//! record the encoder writes for the player it decodes to, provided an absent
//! respawn point carries zero coordinates; the decoder ignores those sixteen
//! bytes, and the encoder always writes them as zeros.
use crate::bytes::{le16, le32, le64, le8, lei32, lemma_le_facts, lemma_le_rereads, u16_at, u32_at};
use crate::chunk_laws::lemma_stacks5_bytes_of;
use crate::chunk_layout::stacks5_bytes;
use crate::chunk_parse::stack5_at;
use crate::crc32c::spec_crc32c;
use crate::identity::{PlayerId, id_at};
use crate::player::{
    ARMOR_BYTES, BACKPACK_BYTES, CURRENT_SCHEMA, ENVELOPE_VERSION, HEALTH_BYTES, HOTBAR_BYTES,
    HUNGER_BYTES, PlayerLocation, PlayerView, RESPAWN_BYTES, covered_header, declared_schema,
    file_fields, file_player, file_readable, location_at, location_bytes, parse_v1, parse_v4,
    parse_v5, parse_v7, parse_v8, parse_v9, record, spec_migrate, v1_bytes, v4_bytes, v7_bytes,
    v8_bytes, v9_payload, zeros, migrate_step, empty_slots, MAX_HEALTH, MAX_HUNGER,
    INITIAL_SATURATION_MILLI,
};
use crate::chunk_migrate::spec_fill_full_durability;
use crate::items::ItemStack;
use vstd::prelude::*;
use vstd::utf8::{decode_utf8, encode_utf8};

verus! {

broadcast use {vstd::seq::group_seq_axioms, vstd::array::group_array_axioms};

/// A location read at `pos` re-encodes to the bytes it was read from.
proof fn lemma_location_bytes_of(d: Seq<u8>, pos: int)
    requires
        0 <= pos,
        pos + 16 <= d.len(),
    ensures
        location_bytes(location_at(d, pos)) == d.subrange(pos, pos + 16),
{
    lemma_le_rereads();
    let l = location_at(d, pos);
    let dim = u32_at(d, pos);
    assert((dim as i32) as u32 == dim) by (bit_vector);
    assert(lei32(l.dimension) == le32(dim));
    assert(le32(dim) == d.subrange(pos, pos + 4));
    assert(le32(l.position@[0]) == d.subrange(pos + 4, pos + 8));
    assert(le32(l.position@[1]) == d.subrange(pos + 8, pos + 12));
    assert(le32(l.position@[2]) == d.subrange(pos + 12, pos + 16));
    assert(d.subrange(pos, pos + 16) =~= d.subrange(pos, pos + 4) + d.subrange(pos + 4, pos + 8)
        + d.subrange(pos + 8, pos + 12) + d.subrange(pos + 12, pos + 16));
}

/// The v1 part of a payload that parses re-encodes to its bytes.
#[verifier::rlimit(60)]
#[verifier::spinoff_prover]
proof fn lemma_v1_bytes_of(id: PlayerId, revision: u64, d: Seq<u8>)
    requires
        parse_v1(id, revision, d) is Some,
    ensures
        v1_bytes(parse_v1(id, revision, d)->0) == d,
{
    lemma_le_rereads();
    let v = parse_v1(id, revision, d)->0;
    let q = 4 + u32_at(d, 0) as int;
    let raw = d.subrange(4, q);
    vstd::utf8::decode_utf8_encode_utf8(raw);
    assert(encode_utf8(v.display_name) == raw);
    assert(le32(encode_utf8(v.display_name).len() as u32) == d.subrange(0, 4));
    lemma_location_bytes_of(d, q);
    assert(le32(v.yaw) == d.subrange(q + 16, q + 20));
    assert(le32(v.pitch) == d.subrange(q + 20, q + 24));
    let safe_part = match v.safe {
        None => le8(0),
        Some(l) => le8(1) + location_bytes(l),
    };
    if d[q + 24] == 0 {
        assert(safe_part =~= d.subrange(q + 24, d.len() as int));
    } else {
        lemma_location_bytes_of(d, q + 25);
        assert(safe_part =~= d.subrange(q + 24, q + 25) + d.subrange(q + 25, q + 41));
        assert(safe_part =~= d.subrange(q + 24, d.len() as int));
    }
    assert(d =~= d.subrange(0, 4) + raw + d.subrange(q, q + 16) + d.subrange(q + 16, q + 20)
        + d.subrange(q + 20, q + 24) + d.subrange(q + 24, d.len() as int));
}

/// The v4 part of a payload that parses re-encodes to its bytes.
proof fn lemma_v4_bytes_of(id: PlayerId, revision: u64, d: Seq<u8>)
    requires
        parse_v4(id, revision, d) is Some,
    ensures
        v4_bytes(parse_v4(id, revision, d)->0) == d,
{
    let v = parse_v4(id, revision, d)->0;
    let split = d.len() - (HOTBAR_BYTES + BACKPACK_BYTES);
    lemma_v1_bytes_of(id, revision, d.take(split));
    let v1 = parse_v1(id, revision, d.take(split))->0;
    assert(v1_bytes(v) == v1_bytes(v1));
    lemma_stacks5_bytes_of(d, split + 1, 9);
    assert(v.hotbar =~= Seq::new(9, |k: int| stack5_at(d, split + 1 + 5 * k)));
    lemma_stacks5_bytes_of(d, split + 46, 27);
    assert(v.backpack =~= Seq::new(27, |k: int| stack5_at(d, split + 46 + 5 * k)));
    assert(le8(v.selected) =~= d.subrange(split, split + 1));
    assert(d =~= d.take(split) + d.subrange(split, split + 1) + d.subrange(split + 1, split + 46)
        + d.subrange(split + 46, d.len() as int));
}

/// The v7 part of a payload that parses re-encodes to its bytes.
#[verifier::rlimit(60)]
#[verifier::spinoff_prover]
proof fn lemma_v7_bytes_of(id: PlayerId, revision: u64, d: Seq<u8>)
    requires
        parse_v7(id, revision, d) is Some,
    ensures
        v7_bytes(parse_v7(id, revision, d)->0) == d,
{
    lemma_le_rereads();
    let v = parse_v7(id, revision, d)->0;
    let split = d.len() - HUNGER_BYTES;
    let d5 = d.take(split);
    let v5 = parse_v5(id, revision, d5)->0;
    let split5 = d5.len() - HEALTH_BYTES;
    lemma_v4_bytes_of(id, revision, d5.take(split5));
    let v4 = parse_v4(id, revision, d5.take(split5))->0;
    assert(v4_bytes(v) == v4_bytes(v4));
    assert(le8(v.health) =~= d.subrange(split5, split5 + 1));
    assert(le8(v.hunger) =~= d.subrange(split, split + 1));
    assert(le16(v.saturation_milli) == d.subrange(split + 1, split + 3));
    assert(le16(v.exhaustion_milli) == d.subrange(split + 3, split + 5));
    assert(d5.take(split5) =~= d.take(split5));
    assert(d =~= d.take(split5) + d.subrange(split5, split5 + 1) + d.subrange(split, split + 1)
        + d.subrange(split + 1, split + 3) + d.subrange(split + 3, split + 5));
}

/// The sixteen coordinate bytes of the respawn point of a v8 part.
pub open spec fn respawn_coordinates(d: Seq<u8>) -> Seq<u8> {
    d.subrange(d.len() - (RESPAWN_BYTES - 1), d.len() as int)
}

/// The seventeen respawn bytes of a present respawn point re-encode to
/// themselves.
proof fn lemma_respawn_bytes_of(d: Seq<u8>, split: int)
    requires
        0 <= split,
        split + 17 == d.len(),
        d[split] == 1,
    ensures
        le8(1) + le32(u32_at(d, split + 1)) + le32(u32_at(d, split + 5)) + le32(
            u32_at(d, split + 9),
        ) + lei32(u32_at(d, split + 13) as i32) == d.subrange(split, split + 17),
{
    lemma_le_rereads();
    let dim = u32_at(d, split + 13);
    assert((dim as i32) as u32 == dim) by (bit_vector);
    assert(lei32(dim as i32) == le32(dim));
    assert(le8(1) =~= d.subrange(split, split + 1));
    assert(d.subrange(split, split + 17) =~= d.subrange(split, split + 1) + d.subrange(
        split + 1,
        split + 5,
    ) + d.subrange(split + 5, split + 9) + d.subrange(split + 9, split + 13) + d.subrange(
        split + 13,
        split + 17,
    ));
}

/// The v8 part of a payload that parses re-encodes to its bytes, when an
/// absent respawn point carries zero coordinates.
#[verifier::rlimit(60)]
#[verifier::spinoff_prover]
proof fn lemma_v8_bytes_of(id: PlayerId, revision: u64, d: Seq<u8>)
    requires
        parse_v8(id, revision, d) is Some,
        parse_v8(id, revision, d)->0.respawn_present || respawn_coordinates(d) == zeros(16),
    ensures
        v8_bytes(parse_v8(id, revision, d)->0) == d,
{
    let v = parse_v8(id, revision, d)->0;
    let split = d.len() - RESPAWN_BYTES;
    lemma_v7_bytes_of(id, revision, d.take(split));
    let v7 = parse_v7(id, revision, d.take(split))->0;
    assert(v7_bytes(v) == v7_bytes(v7));
    if d[split] == 1 {
        lemma_respawn_bytes_of(d, split);
        assert(d =~= d.take(split) + d.subrange(split, split + 17));
    } else {
        assert(zeros(RESPAWN_BYTES as nat) =~= d.subrange(split, split + 1) + respawn_coordinates(d));
        assert(d =~= d.take(split) + d.subrange(split, split + 17));
    }
}

/// The v9 payload that parses re-encodes to its bytes, when an absent
/// respawn point carries zero coordinates.
#[verifier::rlimit(60)]
#[verifier::spinoff_prover]
proof fn lemma_v9_bytes_of(id: PlayerId, revision: u64, d: Seq<u8>)
    requires
        parse_v9(id, revision, d) is Some,
        parse_v9(id, revision, d)->0.respawn_present || respawn_coordinates(
            d.take(d.len() - ARMOR_BYTES),
        ) == zeros(16),
    ensures
        v9_payload(parse_v9(id, revision, d)->0) == d,
{
    let v = parse_v9(id, revision, d)->0;
    let split = d.len() - ARMOR_BYTES;
    lemma_v8_bytes_of(id, revision, d.take(split));
    let v8 = parse_v8(id, revision, d.take(split))->0;
    assert(v8_bytes(v) == v8_bytes(v8));
    lemma_stacks5_bytes_of(d, split, 4);
    assert(v.armor =~= Seq::new(4, |k: int| stack5_at(d, split + 5 * k)));
    assert(v9_payload(v) =~= v8_bytes(v) + stacks5_bytes(v.armor));
    assert(d =~= d.take(split) + d.subrange(split, d.len() as int));
}

/// An absent respawn point of a current-schema record carries zero coordinates.
pub open spec fn absent_respawn_is_zero(d: Seq<u8>) -> bool {
    d.subrange(d.len() - 36, d.len() - 20) == zeros(16)
}

/// Decoding is exact: a current-schema record the decoder accepts for `want`
/// is, byte for byte, the record the encoder writes for the player it decodes
/// to, unless it keeps coordinates for an absent respawn point, which the
/// decoder ignores.
#[verifier::rlimit(60)]
#[verifier::spinoff_prover]
pub proof fn lemma_readable_is_canonical(want: PlayerId, d: Seq<u8>)
    requires
        file_readable(want, d),
        declared_schema(d) == CURRENT_SCHEMA,
        file_player(want, d).respawn_present || absent_respawn_is_zero(d),
    ensures
        record(file_player(want, d)) == d,
{
    lemma_le_rereads();
    lemma_le_facts();
    let payload = d.skip(44);
    let v = file_fields(want, d)->0;
    assert(file_player(want, d) == v);
    let split = payload.len() - ARMOR_BYTES;
    assert(respawn_coordinates(payload.take(split)) =~= d.subrange(d.len() - 36, d.len() - 20));
    lemma_v9_bytes_of(want, crate::bytes::u64_at(d, 28), payload);
    assert(v9_payload(v) == payload);
    assert(v.player_id == want && v.revision == crate::bytes::u64_at(d, 28));
    let covered = covered_header(v, payload.len());
    assert(want.bytes@ =~= d.subrange(12, 28));
    assert(le32(CURRENT_SCHEMA) == d.subrange(8, 12));
    assert(le64(v.revision) == d.subrange(28, 36));
    assert(le32(payload.len() as u32) == d.subrange(36, 40));
    assert(covered =~= d.subrange(8, 40));
    assert(le32(spec_crc32c(covered + payload)) == d.subrange(40, 44));
    assert(le32(ENVELOPE_VERSION) == d.subrange(4, 8));
    assert(seq![0x4Du8, 0x43u8, 0x50u8, 0x4Cu8] =~= d.subrange(0, 4));
    assert(d =~= d.subrange(0, 4) + d.subrange(4, 8) + d.subrange(8, 40) + d.subrange(40, 44)
        + payload);
}


/// What migrating from `from` does to each field: every field the schema
/// stores is kept, and every field it lacks takes its migration default.
proof fn lemma_migrate_fields(from: u32, v: PlayerView)
    requires
        1 <= from <= CURRENT_SCHEMA,
    ensures
        spec_migrate(from, v).player_id == v.player_id,
        spec_migrate(from, v).revision == v.revision,
        spec_migrate(from, v).display_name == v.display_name,
        spec_migrate(from, v).current == v.current,
        spec_migrate(from, v).yaw == v.yaw,
        spec_migrate(from, v).pitch == v.pitch,
        spec_migrate(from, v).safe == v.safe,
        spec_migrate(from, v).health == (if from < 5 {
            MAX_HEALTH
        } else {
            v.health
        }),
        spec_migrate(from, v).hunger == (if from < 7 {
            MAX_HUNGER
        } else {
            v.hunger
        }),
        spec_migrate(from, v).saturation_milli == (if from < 7 {
            INITIAL_SATURATION_MILLI
        } else {
            v.saturation_milli
        }),
        spec_migrate(from, v).exhaustion_milli == (if from < 7 {
            0
        } else {
            v.exhaustion_milli
        }),
        spec_migrate(from, v).respawn_present == (from >= 8 && v.respawn_present),
        spec_migrate(from, v).respawn_position == (if from < 8 {
            [0u32, 0u32, 0u32]
        } else {
            v.respawn_position
        }),
        spec_migrate(from, v).respawn_dimension == (if from < 8 {
            0
        } else {
            v.respawn_dimension
        }),
        spec_migrate(from, v).armor == (if from < 9 {
            empty_slots(4)
        } else {
            v.armor
        }),
        from < 2 ==> spec_migrate(from, v).selected == 0 && spec_migrate(from, v).hotbar
            == empty_slots(9),
        from < 3 ==> spec_migrate(from, v).backpack == empty_slots(27),
        from >= 4 ==> spec_migrate(from, v).selected == v.selected && spec_migrate(from, v).hotbar
            == v.hotbar && spec_migrate(from, v).backpack == v.backpack,
        from == 2 ==> spec_migrate(from, v).selected == v.selected && spec_migrate(from, v).hotbar
            == v.hotbar.map_values(|s: ItemStack| spec_fill_full_durability(s)),
        from == 3 ==> spec_migrate(from, v).selected == v.selected && spec_migrate(from, v).hotbar
            == v.hotbar.map_values(|s: ItemStack| spec_fill_full_durability(s)) && spec_migrate(
            from,
            v,
        ).backpack == v.backpack.map_values(|s: ItemStack| spec_fill_full_durability(s)),
    decreases CURRENT_SCHEMA - from,
{
    if from < CURRENT_SCHEMA {
        let w = migrate_step(from, v);
        lemma_migrate_fields((from + 1) as u32, w);
        if from == 2 {
            assert(empty_slots(27).map_values(|s: ItemStack| spec_fill_full_durability(s))
                =~= empty_slots(27));
        }
        if from == 1 {
            assert(empty_slots(9).map_values(|s: ItemStack| spec_fill_full_durability(s))
                =~= empty_slots(9));
            assert(empty_slots(27).map_values(|s: ItemStack| spec_fill_full_durability(s))
                =~= empty_slots(27));
        }
    }
}

/// Decoding a record migrates it by filling only what its schema lacks: the
/// fields the record stores are kept, and a missing field takes its
/// migration default, so a record below schema 5 loads at full health (20),
/// one below 7 with full hunger, the initial saturation and no exhaustion,
/// one below 8 with no personal respawn point, one below 9 wearing no armor,
/// one below 2 with an empty hotbar at slot 0, and one below 3 with an empty
/// backpack.
pub proof fn lemma_decode_fills_missing_fields(want: PlayerId, d: Seq<u8>)
    requires
        file_readable(want, d),
    ensures
        file_player(want, d).display_name == file_fields(want, d)->0.display_name,
        file_player(want, d).current == file_fields(want, d)->0.current,
        file_player(want, d).safe == file_fields(want, d)->0.safe,
        file_player(want, d).yaw == file_fields(want, d)->0.yaw,
        file_player(want, d).pitch == file_fields(want, d)->0.pitch,
        file_player(want, d).player_id == want,
        declared_schema(d) >= 4 ==> file_player(want, d).hotbar == file_fields(want, d)->0.hotbar
            && file_player(want, d).backpack == file_fields(want, d)->0.backpack
            && file_player(want, d).selected == file_fields(want, d)->0.selected,
        declared_schema(d) >= 7 ==> file_player(want, d).saturation_milli == file_fields(
            want,
            d,
        )->0.saturation_milli && file_player(want, d).exhaustion_milli == file_fields(
            want,
            d,
        )->0.exhaustion_milli,
        declared_schema(d) >= 8 ==> file_player(want, d).respawn_present == file_fields(
            want,
            d,
        )->0.respawn_present && file_player(want, d).respawn_position == file_fields(
            want,
            d,
        )->0.respawn_position && file_player(want, d).respawn_dimension == file_fields(
            want,
            d,
        )->0.respawn_dimension,
        declared_schema(d) < 5 ==> file_player(want, d).health == 20,
        declared_schema(d) >= 5 ==> file_player(want, d).health == file_fields(want, d)->0.health,
        declared_schema(d) < 7 ==> file_player(want, d).hunger == MAX_HUNGER && file_player(
            want,
            d,
        ).saturation_milli == INITIAL_SATURATION_MILLI && file_player(want, d).exhaustion_milli
            == 0,
        declared_schema(d) >= 7 ==> file_player(want, d).hunger == file_fields(want, d)->0.hunger,
        declared_schema(d) < 8 ==> !file_player(want, d).respawn_present && file_player(
            want,
            d,
        ).respawn_position == [0u32, 0u32, 0u32] && file_player(want, d).respawn_dimension == 0,
        declared_schema(d) < 9 ==> file_player(want, d).armor == empty_slots(4),
        declared_schema(d) == 9 ==> file_player(want, d).armor == file_fields(want, d)->0.armor,
        declared_schema(d) < 2 ==> file_player(want, d).selected == 0 && file_player(
            want,
            d,
        ).hotbar == empty_slots(9),
        declared_schema(d) < 3 ==> file_player(want, d).backpack == empty_slots(27),
{
    lemma_migrate_fields(declared_schema(d), file_fields(want, d)->0);
}

} // verus!
