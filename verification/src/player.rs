//! `save.player`: the player save record (`player.dat`, MCPL envelope).
//!
//! Every schema from v1 to v9 is a tail append over the previous one, so
//! decoding peels fixed-length tails off the end and older files keep their
//! byte layout. Only v9 is written; older schemas are read once and migrated
//! to the current normalized result.
use crate::bytes::{
    ByteWriter, copy_prefix, le16, le32, le64, le8, lei32, lemma_le_facts, read_u16, read_u32,
    read_u64, u16_at, u32_at, u64_at,
};
use crate::chunk_layout::{lemma_stacks5_bytes_len, stacks5_bytes};
use crate::chunk_migrate::{fill_full_durability, spec_fill_full_durability};
use crate::chunk_parse::{stack3_at, stack5_at};
use crate::companion_parse::read_stacks;
use crate::crc32c::{crc32c_join2, spec_crc32c};
use crate::error::{StorageError, StorageResult, corrupt, future_version, corrupt_numbered, short_read};
use crate::float_bits::{f32_finite, is_finite, is_pitch_in_range, pitch_in_range};
use crate::identity::{PlayerId, id_at, spec_id_is_valid};
use crate::items::{
    BACKPACK_SLOTS, HOTBAR_SLOTS, Hotbar, Inventory, ItemStack, all_stacks_valid, empty_stack,
};
use crate::text::{has_control, is_control, is_white_space, text_bytes, text_len, utf8_string};
use vstd::prelude::*;
use vstd::slice::slice_subrange;
use vstd::utf8::{decode_utf8, encode_utf8, valid_utf8};

verus! {

broadcast use {
    vstd::seq::group_seq_axioms,
    vstd::slice::group_slice_axioms,
    vstd::array::group_array_axioms,
};

/// Schema written by the current encoder.
pub const CURRENT_SCHEMA: u32 = 9;
/// Oldest schema the decoder still accepts.
pub const OLDEST_SCHEMA: u32 = 1;
/// Fixed MCPL envelope header length.
pub const ENVELOPE_LENGTH: usize = 44;
/// Decode allocation ceiling for one player payload.
pub const MAX_PAYLOAD: usize = 0x10_0000;
/// Envelope version written by the current encoder.
pub const ENVELOPE_VERSION: u32 = 1;
/// Legacy hotbar: selection plus nine three-byte stacks.
pub const LEGACY_HOTBAR_BYTES: usize = 28;
/// Legacy backpack: twenty-seven three-byte stacks.
pub const LEGACY_BACKPACK_BYTES: usize = 81;
/// Hotbar: selection plus nine five-byte stacks.
pub const HOTBAR_BYTES: usize = 46;
/// Backpack: twenty-seven five-byte stacks.
pub const BACKPACK_BYTES: usize = 135;
/// Health appended from v5.
pub const HEALTH_BYTES: usize = 1;
/// Hunger state appended after health from v7: hunger u8, saturation u16,
/// exhaustion u16.
pub const HUNGER_BYTES: usize = 5;
/// Respawn point appended after hunger from v8: present u8, three binary32
/// block coordinates, and a dimension.
pub const RESPAWN_BYTES: usize = 17;
/// Armor appended after the respawn point from v9: four five-byte stacks.
pub const ARMOR_BYTES: usize = 20;
/// Full health.
pub const MAX_HEALTH: u8 = 20;
/// Full hunger.
pub const MAX_HUNGER: u8 = 20;
/// Saturation milli-units per hunger point.
pub const SATURATION_MILLI_PER_POINT: u16 = 1000;
/// Saturation a legacy save and a new player start with.
pub const INITIAL_SATURATION_MILLI: u16 = 5000;
/// The surface dimension.
pub const OVERWORLD: i32 = 0;
/// The underground dimension.
pub const DEPTHS: i32 = 1;
/// Display name ceiling in characters.
pub const MAX_NAME_CHARS: usize = 32;
/// Display name ceiling in UTF-8 bytes.
pub const MAX_NAME_BYTES: usize = 128;

/// A player location: dimension plus world coordinates as binary32 patterns.
#[derive(Clone, Copy, Debug, PartialEq)]
pub struct PlayerLocation {
    pub dimension: i32,
    pub position: [u32; 3],
}

/// A decoded player, normalized to the current schema. Orientation and
/// coordinates are binary32 bit patterns.
#[derive(Clone, Debug, PartialEq)]
pub struct StoredPlayer {
    pub player_id: PlayerId,
    pub revision: u64,
    pub display_name: String,
    pub current: PlayerLocation,
    pub yaw: u32,
    pub pitch: u32,
    pub safe: Option<PlayerLocation>,
    pub inventory: Inventory,
    pub health: u8,
    pub hunger: u8,
    pub saturation_milli: u16,
    pub exhaustion_milli: u16,
    pub respawn_present: bool,
    pub respawn_position: [u32; 3],
    pub respawn_dimension: i32,
    /// Armor is a pure-fidelity field: the codec never validates its semantics.
    pub armor: [ItemStack; 4],
    /// Set when the file was a legacy schema that the decoder normalized.
    pub needs_rewrite: bool,
}

/// A player save request.
#[derive(Clone, Debug, PartialEq)]
pub struct PlayerSave {
    pub player_id: PlayerId,
    pub revision: u64,
    pub display_name: String,
    pub current: PlayerLocation,
    pub yaw: u32,
    pub pitch: u32,
    pub safe: Option<PlayerLocation>,
    pub inventory: Inventory,
    pub health: u8,
    pub hunger: u8,
    pub saturation_milli: u16,
    pub exhaustion_milli: u16,
    pub respawn_present: bool,
    pub respawn_position: [u32; 3],
    pub respawn_dimension: i32,
    pub armor: [ItemStack; 4],
}

/// The value of a player record: the name as characters and the inventory
/// and armor slots as sequences.
pub struct PlayerView {
    pub player_id: PlayerId,
    pub revision: u64,
    pub display_name: Seq<char>,
    pub current: PlayerLocation,
    pub yaw: u32,
    pub pitch: u32,
    pub safe: Option<PlayerLocation>,
    pub selected: u8,
    pub hotbar: Seq<ItemStack>,
    pub backpack: Seq<ItemStack>,
    pub health: u8,
    pub hunger: u8,
    pub saturation_milli: u16,
    pub exhaustion_milli: u16,
    pub respawn_present: bool,
    pub respawn_position: [u32; 3],
    pub respawn_dimension: i32,
    pub armor: Seq<ItemStack>,
}

impl View for PlayerSave {
    type V = PlayerView;

    open spec fn view(&self) -> PlayerView {
        PlayerView {
            player_id: self.player_id,
            revision: self.revision,
            display_name: self.display_name@,
            current: self.current,
            yaw: self.yaw,
            pitch: self.pitch,
            safe: self.safe,
            selected: self.inventory.hotbar.selected,
            hotbar: self.inventory.hotbar.slots@,
            backpack: self.inventory.backpack@,
            health: self.health,
            hunger: self.hunger,
            saturation_milli: self.saturation_milli,
            exhaustion_milli: self.exhaustion_milli,
            respawn_present: self.respawn_present,
            respawn_position: self.respawn_position,
            respawn_dimension: self.respawn_dimension,
            armor: self.armor@,
        }
    }
}

impl View for StoredPlayer {
    type V = PlayerView;

    open spec fn view(&self) -> PlayerView {
        PlayerView {
            player_id: self.player_id,
            revision: self.revision,
            display_name: self.display_name@,
            current: self.current,
            yaw: self.yaw,
            pitch: self.pitch,
            safe: self.safe,
            selected: self.inventory.hotbar.selected,
            hotbar: self.inventory.hotbar.slots@,
            backpack: self.inventory.backpack@,
            health: self.health,
            hunger: self.hunger,
            saturation_milli: self.saturation_milli,
            exhaustion_milli: self.exhaustion_milli,
            respawn_present: self.respawn_present,
            respawn_position: self.respawn_position,
            respawn_dimension: self.respawn_dimension,
            armor: self.armor@,
        }
    }
}

/// A location in the overworld or the depths at finite coordinates.
pub open spec fn location_ok(l: PlayerLocation) -> bool {
    &&& (l.dimension == OVERWORLD || l.dimension == DEPTHS)
    &&& f32_finite(l.position@[0]) && f32_finite(l.position@[1]) && f32_finite(l.position@[2])
}

/// A normalized display name: non-empty, no leading or trailing white space,
/// at most 32 characters and 128 bytes, and no control character.
pub open spec fn display_name_ok(s: Seq<char>) -> bool {
    &&& s.len() > 0
    &&& !is_white_space(s[0])
    &&& !is_white_space(s.last())
    &&& s.len() <= MAX_NAME_CHARS
    &&& encode_utf8(s).len() <= MAX_NAME_BYTES
    &&& forall|i: int| 0 <= i < s.len() ==> !is_control(#[trigger] s[i])
}

/// A player record the codec accepts. The armor slots take no part: their
/// legality is judged by the simulation.
pub open spec fn player_ok(p: PlayerView) -> bool {
    &&& spec_id_is_valid(p.player_id.bytes@)
    &&& p.revision != 0
    &&& display_name_ok(p.display_name)
    &&& location_ok(p.current)
    &&& f32_finite(p.yaw)
    &&& f32_finite(p.pitch) && pitch_in_range(p.pitch)
    &&& (p.safe matches Some(l) ==> location_ok(l))
    &&& p.selected < HOTBAR_SLOTS
    &&& all_stacks_valid(p.hotbar)
    &&& all_stacks_valid(p.backpack)
    &&& p.health <= MAX_HEALTH
    &&& p.hunger <= MAX_HUNGER
    &&& p.saturation_milli <= p.hunger * SATURATION_MILLI_PER_POINT
    &&& (p.respawn_present ==> location_ok(
        PlayerLocation { dimension: p.respawn_dimension, position: p.respawn_position },
    ))
}

/// The sixteen bytes of a location.
pub open spec fn location_bytes(l: PlayerLocation) -> Seq<u8> {
    lei32(l.dimension) + le32(l.position@[0]) + le32(l.position@[1]) + le32(l.position@[2])
}

/// `n` zero bytes.
pub open spec fn zeros(n: nat) -> Seq<u8> {
    Seq::new(n, |i: int| 0u8)
}

/// The v9 payload of a player.
pub open spec fn v9_payload(p: PlayerView) -> Seq<u8> {
    le32(encode_utf8(p.display_name).len() as u32) + encode_utf8(p.display_name) + location_bytes(
        p.current,
    ) + le32(p.yaw) + le32(p.pitch) + match p.safe {
        None => le8(0),
        Some(l) => le8(1) + location_bytes(l),
    } + le8(p.selected) + stacks5_bytes(p.hotbar) + stacks5_bytes(p.backpack) + le8(p.health)
        + le8(p.hunger) + le16(p.saturation_milli) + le16(p.exhaustion_milli) + (if p.respawn_present {
        le8(1) + le32(p.respawn_position@[0]) + le32(p.respawn_position@[1]) + le32(
            p.respawn_position@[2],
        ) + lei32(p.respawn_dimension)
    } else {
        zeros(RESPAWN_BYTES as nat)
    }) + stacks5_bytes(p.armor)
}

/// Envelope bytes 8..40, which the checksum covers with the payload.
pub open spec fn covered_header(p: PlayerView, payload_length: nat) -> Seq<u8> {
    le32(CURRENT_SCHEMA) + p.player_id.bytes@ + le64(p.revision) + le32(payload_length as u32)
}

/// The complete v9 record of a player.
pub open spec fn record(p: PlayerView) -> Seq<u8> {
    let payload = v9_payload(p);
    let covered = covered_header(p, payload.len());
    seq![0x4Du8, 0x43u8, 0x50u8, 0x4Cu8] + le32(ENVELOPE_VERSION) + covered + le32(
        spec_crc32c(covered + payload),
    ) + payload
}

/// Checks a location.
fn validate_location(location: &PlayerLocation) -> (res: Result<(), &'static str>)
    ensures
        res is Ok <==> location_ok(*location),
{
    // Player positions share the value range with chunk snapshots: overworld
    // and depths are allowed, anything at or above 2 is rejected.
    if location.dimension != OVERWORLD && location.dimension != DEPTHS {
        return Err("unsupported player dimension");
    }
    if !(is_finite(location.position[0]) && is_finite(location.position[1]) && is_finite(
        location.position[2],
    )) {
        return Err("non-finite player position");
    }
    Ok(())
}

/// Checks that a display name is already normalized: trimmed, 1..32
/// characters, at most 128 bytes, and no control characters.
fn check_display_name(name: &String) -> (res: Result<(), &'static str>)
    ensures
        res is Ok <==> display_name_ok(name@),
{
    if text_len(name) > MAX_NAME_BYTES {
        return Err("length is outside 1..32");
    }
    proof {
        crate::text::lemma_chars_within_bytes(name@);
    }
    let mut count: usize = 0;
    let mut first_space = false;
    let mut last_space = false;
    for c in it: name.as_str().chars()
        invariant
            it.seq() == name@,
            name@.len() <= MAX_NAME_BYTES,
            count == it.index(),
            count > 0 ==> first_space == is_white_space(name@[0]),
            count > 0 ==> last_space == is_white_space(name@[count - 1]),
    {
        let u = c as u32;
        let space = (0x09 <= u && u <= 0x0D) || u == 0x20 || u == 0x85 || u == 0xA0 || u == 0x1680
            || (0x2000 <= u && u <= 0x200A) || u == 0x2028 || u == 0x2029 || u == 0x202F || u
            == 0x205F || u == 0x3000;
        if count == 0 {
            first_space = space;
        }
        last_space = space;
        count = count + 1;
    }
    if count == 0 || first_space || last_space {
        return Err("is not normalized");
    }
    if count > MAX_NAME_CHARS {
        return Err("length is outside 1..32");
    }
    if has_control(name) {
        return Err("contains a control character");
    }
    Ok(())
}

/// Validates one player record.
///
/// The armor section deliberately takes no part: it is a pure-fidelity field
/// whose count, durability, and item-registry legality is judged by the
/// simulation, and validating it here would make legal historical saves
/// unreadable.
fn validate_save(save: &PlayerSave) -> (res: StorageResult<()>)
    ensures
        res is Ok <==> player_ok(save@),
        res matches Err(e) ==> e is Corrupt,
{
    if !save.player_id.is_valid() {
        return Err(corrupt("player ID", "not a UUIDv4"));
    }
    if save.revision == 0 {
        return Err(corrupt("player revision", "zero revision"));
    }
    if let Err(detail) = check_display_name(&save.display_name) {
        return Err(corrupt("player display name", detail));
    }
    if let Err(detail) = validate_location(&save.current) {
        return Err(corrupt("player current location", detail));
    }
    if !is_finite(save.yaw) {
        return Err(corrupt("player yaw", "non-finite"));
    }
    if !is_finite(save.pitch) || !is_pitch_in_range(save.pitch) {
        return Err(corrupt("player pitch", "outside the closed range"));
    }
    if let Some(safe) = &save.safe {
        if let Err(detail) = validate_location(safe) {
            return Err(corrupt("player safe location", detail));
        }
    }
    if !save.inventory.is_valid() {
        return Err(corrupt("player inventory", "not canonical"));
    }
    if save.health > MAX_HEALTH {
        return Err(corrupt("player health", "out of range"));
    }
    if save.hunger > MAX_HUNGER {
        return Err(corrupt("player hunger", "out of range"));
    }
    // Saturation is a buffer above hunger, so its ceiling is hunger itself in
    // milli units. The product fits far inside u32 and cannot overflow.
    if save.saturation_milli as u32 > save.hunger as u32 * SATURATION_MILLI_PER_POINT as u32 {
        return Err(corrupt("player saturation", "exceeds hunger"));
    }
    if save.respawn_present {
        let respawn = PlayerLocation {
            dimension: save.respawn_dimension,
            position: save.respawn_position,
        };
        if let Err(detail) = validate_location(&respawn) {
            return Err(corrupt("player respawn point", detail));
        }
    }
    Ok(())
}

/// The exact byte length of the v9 record of an accepted player.
proof fn lemma_record_len(p: PlayerView)
    requires
        player_ok(p),
        p.hotbar.len() == HOTBAR_SLOTS,
        p.backpack.len() == BACKPACK_SLOTS,
        p.armor.len() == 4,
    ensures
        v9_payload(p).len() == encode_utf8(p.display_name).len() + (if p.safe is Some {
            269int
        } else {
            253int
        }),
        record(p).len() == ENVELOPE_LENGTH + v9_payload(p).len(),
        v9_payload(p).len() <= MAX_PAYLOAD,
{
    lemma_le_facts();
    lemma_stacks5_bytes_len(p.hotbar);
    lemma_stacks5_bytes_len(p.backpack);
    lemma_stacks5_bytes_len(p.armor);
    assert(p.player_id.bytes@.len() == 16);
}

/// Appends the sixteen bytes of a location.
fn write_location(w: &mut ByteWriter, location: &PlayerLocation)
    ensures
        final(w)@ == old(w)@ + location_bytes(*location),
{
    let ghost start = w@;
    w.u32(location.dimension as u32);
    w.u32(location.position[0]);
    w.u32(location.position[1]);
    w.u32(location.position[2]);
    assert(w@ =~= start + location_bytes(*location));
}

/// Appends five-byte item stacks.
fn write_stacks(w: &mut ByteWriter, stacks: &[ItemStack])
    ensures
        final(w)@ == old(w)@ + stacks5_bytes(stacks@),
{
    let ghost start = w@;
    let mut i: usize = 0;
    while i < stacks.len()
        invariant
            i <= stacks@.len(),
            w@ == start + stacks5_bytes(stacks@.take(i as int)),
        decreases stacks@.len() - i,
    {
        assert(stacks@.take(i + 1).drop_last() =~= stacks@.take(i as int));
        let s = stacks[i];
        w.u16(s.item);
        w.u8(s.count);
        w.u16(s.durability);
        assert(w@ =~= start + stacks5_bytes(stacks@.take(i + 1)));
        i = i + 1;
    }
    assert(stacks@.take(stacks@.len() as int) =~= stacks@);
}

/// Builds the v9 payload of a player.
fn write_v9_payload(save: &PlayerSave) -> (payload: Vec<u8>)
    requires
        encode_utf8(save@.display_name).len() <= MAX_NAME_BYTES,
    ensures
        payload@ == v9_payload(save@),
{
    let mut w = ByteWriter::new();
    let name = text_bytes(&save.display_name);
    w.u32(name.len() as u32);
    w.bytes(name);
    write_location(&mut w, &save.current);
    w.u32(save.yaw);
    w.u32(save.pitch);
    match &save.safe {
        None => w.u8(0),
        Some(safe) => {
            w.u8(1);
            write_location(&mut w, safe);
        },
    }
    w.u8(save.inventory.hotbar.selected);
    write_stacks(&mut w, &save.inventory.hotbar.slots);
    write_stacks(&mut w, &save.inventory.backpack);
    w.u8(save.health);
    w.u8(save.hunger);
    w.u16(save.saturation_milli);
    w.u16(save.exhaustion_milli);
    let ghost before_respawn = w@;
    if save.respawn_present {
        w.u8(1);
        w.u32(save.respawn_position[0]);
        w.u32(save.respawn_position[1]);
        w.u32(save.respawn_position[2]);
        w.u32(save.respawn_dimension as u32);
    } else {
        let mut k: usize = 0;
        while k < RESPAWN_BYTES
            invariant
                k <= RESPAWN_BYTES,
                w@ == before_respawn + zeros(k as nat),
            decreases RESPAWN_BYTES - k,
        {
            w.u8(0);
            k = k + 1;
        }
    }
    write_stacks(&mut w, &save.armor);
    let payload = w.into_vec();
    assert(payload@ =~= v9_payload(save@));
    payload
}

/// Builds the v9 record of an accepted player.
fn build_record(save: &PlayerSave) -> (bytes: Vec<u8>)
    requires
        player_ok(save@),
    ensures
        bytes@ == record(save@),
{
    proof {
        lemma_record_len(save@);
    }
    let payload = write_v9_payload(save);
    let mut covered = ByteWriter::new();
    covered.u32(CURRENT_SCHEMA);
    let id = save.player_id.to_bytes();
    covered.bytes(&id);
    covered.u64(save.revision);
    covered.u32(payload.len() as u32);
    let covered = covered.into_vec();
    assert(covered@ =~= covered_header(save@, payload@.len()));
    let checksum = crc32c_join2(covered.as_slice(), payload.as_slice());
    let mut w = ByteWriter::new();
    w.u8(0x4D);
    w.u8(0x43);
    w.u8(0x50);
    w.u8(0x4C);
    w.u32(ENVELOPE_VERSION);
    w.bytes(covered.as_slice());
    w.u32(checksum);
    w.bytes(payload.as_slice());
    let out = w.into_vec();
    assert(out@ =~= record(save@));
    out
}

/// Reports the exact on-disk byte length for a valid v9 player save.
pub fn encoded_len(save: &PlayerSave) -> (res: StorageResult<usize>)
    ensures
        res is Ok <==> player_ok(save@),
        res matches Ok(n) ==> n == record(save@).len(),
        res matches Err(e) ==> e is Corrupt,
{
    validate_save(save)?;
    proof {
        lemma_record_len(save@);
    }
    let name_len = text_len(&save.display_name);
    let fixed: usize = if save.safe.is_some() {
        269
    } else {
        253
    };
    Ok(ENVELOPE_LENGTH + name_len + fixed)
}

/// Writes a complete MCPL v9 record into `dst`, preserving any tail beyond
/// the returned length. Failure writes nothing.
pub fn encode_into(save: &PlayerSave, dst: &mut [u8]) -> (res: StorageResult<usize>)
    ensures
        res is Ok <==> player_ok(save@) && old(dst)@.len() >= record(save@).len(),
        res matches Ok(n) ==> n == record(save@).len() && final(dst)@ == record(save@) + old(
            dst,
        )@.skip(n as int),
        res is Err ==> final(dst)@ == old(dst)@,
        res matches Err(e) ==> (e is OutputTooSmall <==> player_ok(save@)),
        res matches Err(StorageError::OutputTooSmall { needed, available }) ==> needed
            == record(save@).len() && available == old(dst)@.len(),
        res matches Err(e) ==> !(e is FutureVersion),
{
    let needed = encoded_len(save)?;
    if dst.len() < needed {
        return Err(StorageError::OutputTooSmall { needed, available: dst.len() });
    }
    let bytes = build_record(save);
    copy_prefix(dst, bytes.as_slice());
    Ok(needed)
}

/// Encodes one player as the stable MCPL v1 envelope at the current schema.
pub fn encode(save: &PlayerSave) -> (res: StorageResult<Vec<u8>>)
    ensures
        res is Ok <==> player_ok(save@),
        res matches Ok(bytes) ==> bytes@ == record(save@),
        res matches Err(e) ==> e is Corrupt,
{
    validate_save(save)?;
    Ok(build_record(save))
}

/// `n` empty slots.
pub open spec fn empty_slots(n: nat) -> Seq<ItemStack> {
    Seq::new(n, |i: int| empty_stack())
}

/// A player with the given identity and revision and every other field zero.
pub open spec fn blank_player(id: PlayerId, revision: u64) -> PlayerView {
    PlayerView {
        player_id: id,
        revision,
        display_name: Seq::empty(),
        current: PlayerLocation { dimension: 0, position: [0u32, 0u32, 0u32] },
        yaw: 0,
        pitch: 0,
        safe: None,
        selected: 0,
        hotbar: empty_slots(9),
        backpack: empty_slots(27),
        health: 0,
        hunger: 0,
        saturation_milli: 0,
        exhaustion_milli: 0,
        respawn_present: false,
        respawn_position: [0u32, 0u32, 0u32],
        respawn_dimension: 0,
        armor: empty_slots(4),
    }
}

/// The location stored at `pos`.
pub open spec fn location_at(d: Seq<u8>, pos: int) -> PlayerLocation {
    PlayerLocation {
        dimension: u32_at(d, pos) as i32,
        position: [u32_at(d, pos + 4), u32_at(d, pos + 8), u32_at(d, pos + 12)],
    }
}

/// The v1 payload: the name, the current location, the orientation and the
/// optional safe location, and nothing more.
pub open spec fn parse_v1(id: PlayerId, revision: u64, d: Seq<u8>) -> Option<PlayerView> {
    if d.len() < 4 || u32_at(d, 0) > d.len() - 4 {
        None
    } else {
        let q = 4 + u32_at(d, 0);
        if !valid_utf8(d.subrange(4, q)) || q + 25 > d.len() {
            None
        } else {
            let base = PlayerView {
                display_name: decode_utf8(d.subrange(4, q)),
                current: location_at(d, q),
                yaw: u32_at(d, q + 16),
                pitch: u32_at(d, q + 20),
                ..blank_player(id, revision)
            };
            if d[q + 24] == 0 && q + 25 == d.len() {
                Some(base)
            } else if d[q + 24] == 1 && q + 41 == d.len() {
                Some(PlayerView { safe: Some(location_at(d, q + 25)), ..base })
            } else {
                None
            }
        }
    }
}

/// v2 appends the legacy hotbar: the selection and nine three-byte stacks.
pub open spec fn parse_v2(id: PlayerId, revision: u64, d: Seq<u8>) -> Option<PlayerView> {
    if d.len() < LEGACY_HOTBAR_BYTES {
        None
    } else {
        let split = d.len() - LEGACY_HOTBAR_BYTES;
        match parse_v1(id, revision, d.take(split)) {
            Some(v) => Some(
                PlayerView {
                    selected: d[split],
                    hotbar: Seq::new(9, |k: int| stack3_at(d, split + 1 + 3 * k)),
                    ..v
                },
            ),
            None => None,
        }
    }
}

/// v3 appends the legacy backpack: twenty-seven three-byte stacks.
pub open spec fn parse_v3(id: PlayerId, revision: u64, d: Seq<u8>) -> Option<PlayerView> {
    if d.len() < LEGACY_BACKPACK_BYTES {
        None
    } else {
        let split = d.len() - LEGACY_BACKPACK_BYTES;
        match parse_v2(id, revision, d.take(split)) {
            Some(v) => Some(
                PlayerView { backpack: Seq::new(27, |k: int| stack3_at(d, split + 3 * k)), ..v },
            ),
            None => None,
        }
    }
}

/// v4 replaces the legacy inventory of v1 with five-byte stacks.
pub open spec fn parse_v4(id: PlayerId, revision: u64, d: Seq<u8>) -> Option<PlayerView> {
    if d.len() < HOTBAR_BYTES + BACKPACK_BYTES {
        None
    } else {
        let split = d.len() - (HOTBAR_BYTES + BACKPACK_BYTES);
        match parse_v1(id, revision, d.take(split)) {
            Some(v) => Some(
                PlayerView {
                    selected: d[split],
                    hotbar: Seq::new(9, |k: int| stack5_at(d, split + 1 + 5 * k)),
                    backpack: Seq::new(27, |k: int| stack5_at(d, split + 46 + 5 * k)),
                    ..v
                },
            ),
            None => None,
        }
    }
}

/// v5 (and v6, which shares its layout) appends health.
pub open spec fn parse_v5(id: PlayerId, revision: u64, d: Seq<u8>) -> Option<PlayerView> {
    if d.len() < HEALTH_BYTES {
        None
    } else {
        let split = d.len() - HEALTH_BYTES;
        match parse_v4(id, revision, d.take(split)) {
            Some(v) => Some(PlayerView { health: d[split], ..v }),
            None => None,
        }
    }
}

/// v7 appends hunger, saturation and exhaustion.
pub open spec fn parse_v7(id: PlayerId, revision: u64, d: Seq<u8>) -> Option<PlayerView> {
    if d.len() < HUNGER_BYTES {
        None
    } else {
        let split = d.len() - HUNGER_BYTES;
        match parse_v5(id, revision, d.take(split)) {
            Some(v) => Some(
                PlayerView {
                    hunger: d[split],
                    saturation_milli: u16_at(d, split + 1),
                    exhaustion_milli: u16_at(d, split + 3),
                    ..v
                },
            ),
            None => None,
        }
    }
}

/// v8 appends the respawn point; an absent point ignores its coordinates.
pub open spec fn parse_v8(id: PlayerId, revision: u64, d: Seq<u8>) -> Option<PlayerView> {
    if d.len() < RESPAWN_BYTES {
        None
    } else {
        let split = d.len() - RESPAWN_BYTES;
        match parse_v7(id, revision, d.take(split)) {
            Some(v) => if d[split] == 0 {
                Some(v)
            } else if d[split] == 1 {
                Some(
                    PlayerView {
                        respawn_present: true,
                        respawn_position: [
                            u32_at(d, split + 1),
                            u32_at(d, split + 5),
                            u32_at(d, split + 9),
                        ],
                        respawn_dimension: u32_at(d, split + 13) as i32,
                        ..v
                    },
                )
            } else {
                None
            },
            None => None,
        }
    }
}

/// v9 appends the four armor slots.
pub open spec fn parse_v9(id: PlayerId, revision: u64, d: Seq<u8>) -> Option<PlayerView> {
    if d.len() < ARMOR_BYTES {
        None
    } else {
        let split = d.len() - ARMOR_BYTES;
        match parse_v8(id, revision, d.take(split)) {
            Some(v) => Some(
                PlayerView { armor: Seq::new(4, |k: int| stack5_at(d, split + 5 * k)), ..v },
            ),
            None => None,
        }
    }
}

/// The payload of the given schema.
pub open spec fn parse_payload(schema: u32, id: PlayerId, revision: u64, d: Seq<u8>) -> Option<
    PlayerView,
> {
    if schema == 1 {
        parse_v1(id, revision, d)
    } else if schema == 2 {
        parse_v2(id, revision, d)
    } else if schema == 3 {
        parse_v3(id, revision, d)
    } else if schema == 4 {
        parse_v4(id, revision, d)
    } else if schema == 5 || schema == 6 {
        parse_v5(id, revision, d)
    } else if schema == 7 {
        parse_v7(id, revision, d)
    } else if schema == 8 {
        parse_v8(id, revision, d)
    } else if schema == 9 {
        parse_v9(id, revision, d)
    } else {
        None
    }
}

/// The documented migration from schema `version` to the next one.
pub open spec fn migrate_step(version: u32, v: PlayerView) -> PlayerView {
    if version == 1 {
        // v1 has no item payload: an empty hotbar with slot zero selected.
        PlayerView { selected: 0, hotbar: empty_slots(9), ..v }
    } else if version == 2 {
        // v2 has no backpack payload: an empty backpack.
        PlayerView { backpack: empty_slots(27), ..v }
    } else if version == 3 {
        // v3 has no durability: tools migrate to full durability.
        PlayerView {
            hotbar: v.hotbar.map_values(|s: ItemStack| spec_fill_full_durability(s)),
            backpack: v.backpack.map_values(|s: ItemStack| spec_fill_full_durability(s)),
            ..v
        }
    } else if version == 4 {
        // v4 has no health: full health.
        PlayerView { health: MAX_HEALTH, ..v }
    } else if version == 6 {
        // v6 has no hunger state: the domain reset values.
        PlayerView {
            hunger: MAX_HUNGER,
            saturation_milli: INITIAL_SATURATION_MILLI,
            exhaustion_milli: 0,
            ..v
        }
    } else if version == 7 {
        // v7 has no personal respawn point: the world spawn is used.
        PlayerView {
            respawn_present: false,
            respawn_position: [0u32, 0u32, 0u32],
            respawn_dimension: 0,
            ..v
        }
    } else if version == 8 {
        // v8 has no armor: nothing worn.
        PlayerView { armor: empty_slots(4), ..v }
    } else {
        v
    }
}

/// Every migration step from `from` up to the current schema, in order.
pub open spec fn spec_migrate(from: u32, v: PlayerView) -> PlayerView
    decreases CURRENT_SCHEMA - from,
{
    if from >= CURRENT_SCHEMA {
        v
    } else {
        spec_migrate((from + 1) as u32, migrate_step(from, v))
    }
}

/// The declared schema.
pub open spec fn declared_schema(d: Seq<u8>) -> u32 {
    u32_at(d, 8)
}

/// Envelope checks of a readable record for `want`.
pub open spec fn envelope_ok(want: PlayerId, d: Seq<u8>) -> bool {
    &&& spec_id_is_valid(want.bytes@)
    &&& d.len() >= ENVELOPE_LENGTH
    &&& d.take(4) == seq![0x4Du8, 0x43u8, 0x50u8, 0x4Cu8]
    &&& u32_at(d, 4) == ENVELOPE_VERSION
    &&& OLDEST_SCHEMA <= declared_schema(d) <= CURRENT_SCHEMA
    &&& id_at(d, 12) == want
    &&& u64_at(d, 28) != 0
    &&& u32_at(d, 36) <= MAX_PAYLOAD
    &&& d.len() - ENVELOPE_LENGTH == u32_at(d, 36)
    &&& spec_crc32c(d.subrange(8, 40) + d.skip(44)) == u32_at(d, 40)
}

/// The payload's fields, before migration.
pub open spec fn file_fields(want: PlayerId, d: Seq<u8>) -> Option<PlayerView> {
    parse_payload(declared_schema(d), want, u64_at(d, 28), d.skip(44))
}

/// The decoder accepts `d` as the record of `want`.
pub open spec fn file_readable(want: PlayerId, d: Seq<u8>) -> bool {
    &&& envelope_ok(want, d)
    &&& file_fields(want, d) is Some
    &&& player_ok(spec_migrate(declared_schema(d), file_fields(want, d)->0))
}

/// The normalized player a readable record holds.
pub open spec fn file_player(want: PlayerId, d: Seq<u8>) -> PlayerView {
    spec_migrate(declared_schema(d), file_fields(want, d)->0)
}

/// The decoder rejects `d` as written by a newer format.
pub open spec fn is_future_file(want: PlayerId, d: Seq<u8>) -> bool {
    &&& spec_id_is_valid(want.bytes@)
    &&& d.len() >= 8
    &&& d.take(4) == seq![0x4Du8, 0x43u8, 0x50u8, 0x4Cu8]
    &&& (u32_at(d, 4) > ENVELOPE_VERSION || (u32_at(d, 4) == ENVELOPE_VERSION && d.len() >= 12
        && declared_schema(d) > CURRENT_SCHEMA))
}

/// A player with the given identity and revision and every other field zero.
fn blank(id: PlayerId, revision: u64) -> (p: PlayerSave)
    ensures
        p@ == blank_player(id, revision),
{
    let empty = ItemStack { item: 0, count: 0, durability: 0 };
    let p = PlayerSave {
        player_id: id,
        revision,
        display_name: String::new(),
        current: PlayerLocation { dimension: 0, position: [0u32, 0u32, 0u32] },
        yaw: 0,
        pitch: 0,
        safe: None,
        inventory: Inventory { hotbar: Hotbar { selected: 0, slots: [empty; 9] }, backpack: [empty; 27] },
        health: 0,
        hunger: 0,
        saturation_milli: 0,
        exhaustion_milli: 0,
        respawn_present: false,
        respawn_position: [0u32, 0u32, 0u32],
        respawn_dimension: 0,
        armor: [empty; 4],
    };
    assert(p@.hotbar =~= empty_slots(9));
    assert(p@.backpack =~= empty_slots(27));
    assert(p@.armor =~= empty_slots(4));
    assert(p@.current.position =~= blank_player(id, revision).current.position);
    assert(p@.respawn_position =~= blank_player(id, revision).respawn_position);
    p
}

/// Reads the location at `pos`.
fn read_location(d: &[u8], pos: usize) -> (l: PlayerLocation)
    requires
        pos + 16 <= d@.len(),
    ensures
        l == location_at(d@, pos as int),
{
    let _len = d.len();
    let l = PlayerLocation {
        dimension: read_u32(d, pos) as i32,
        position: [read_u32(d, pos + 4), read_u32(d, pos + 8), read_u32(d, pos + 12)],
    };
    assert(l.position =~= location_at(d@, pos as int).position);
    l
}

/// Reads `n` three-byte legacy stacks starting at `pos`; durability reads as zero.
fn read_legacy_stacks(d: &[u8], pos: usize, slots: &mut [ItemStack])
    requires
        pos + 3 * old(slots)@.len() <= d@.len(),
    ensures
        final(slots)@.len() == old(slots)@.len(),
        forall|k: int|
            0 <= k < final(slots)@.len() ==> #[trigger] final(slots)@[k] == stack3_at(
                d@,
                pos + 3 * k,
            ),
{
    let n = slots.len();
    let len = d.len();
    let mut k: usize = 0;
    while k < n
        invariant
            n == slots@.len(),
            len == d@.len(),
            pos + 3 * n <= d@.len(),
            k <= n,
            forall|j: int| 0 <= j < k ==> #[trigger] slots@[j] == stack3_at(d@, pos + 3 * j),
        decreases n - k,
    {
        let at = pos + 3 * k;
        slots[k] = ItemStack { item: read_u16(d, at), count: d[at + 2], durability: 0 };
        k = k + 1;
    }
}

/// The v1 payload.
fn decode_v1(id: PlayerId, revision: u64, d: &[u8]) -> (res: StorageResult<PlayerSave>)
    requires
        d@.len() <= MAX_PAYLOAD,
    ensures
        res is Ok <==> parse_v1(id, revision, d@) is Some,
        res matches Ok(p) ==> parse_v1(id, revision, d@) == Some(p@),
        res matches Err(e) ==> e is Corrupt,
{
    let len = d.len();
    if len < 4 {
        return Err(short_read("player name length", 4, 0, len));
    }
    let n = read_u32(d, 0) as usize;
    if n > len - 4 {
        return Err(corrupt("player name length", "does not match payload"));
    }
    let q = 4 + n;
    let name = match utf8_string(slice_subrange(d, 4, q)) {
        Some(s) => s,
        None => {
            return Err(corrupt("player name", "not valid UTF-8"));
        },
    };
    if q + 25 > len {
        return Err(corrupt("player current location", "short read"));
    }
    let current = read_location(d, q);
    let yaw = read_u32(d, q + 16);
    let pitch = read_u32(d, q + 20);
    let flag = d[q + 24];
    let mut p = blank(id, revision);
    p.display_name = name;
    p.current = current;
    p.yaw = yaw;
    p.pitch = pitch;
    if flag == 0 {
        if q + 25 != len {
            return Err(corrupt("player payload", "trailing bytes"));
        }
        Ok(p)
    } else if flag == 1 {
        if q + 41 > len {
            return Err(corrupt("player safe location", "short read"));
        }
        p.safe = Some(read_location(d, q + 25));
        if q + 41 != len {
            return Err(corrupt("player payload", "trailing bytes"));
        }
        Ok(p)
    } else {
        Err(corrupt_numbered("player safe flag", "invalid flag ", flag as u64, ""))
    }
}

/// The v2 payload: v1 plus the legacy hotbar.
fn decode_v2(id: PlayerId, revision: u64, d: &[u8]) -> (res: StorageResult<PlayerSave>)
    requires
        d@.len() <= MAX_PAYLOAD,
    ensures
        res is Ok <==> parse_v2(id, revision, d@) is Some,
        res matches Ok(p) ==> parse_v2(id, revision, d@) == Some(p@),
        res matches Err(e) ==> e is Corrupt,
{
    if d.len() < LEGACY_HOTBAR_BYTES {
        return Err(corrupt("player payload", "shorter than the hotbar"));
    }
    let split = d.len() - LEGACY_HOTBAR_BYTES;
    assert(d@.subrange(0, split as int) =~= d@.take(split as int));
    let mut p = decode_v1(id, revision, slice_subrange(d, 0, split))?;
    p.inventory.hotbar.selected = d[split];
    let mut slots = p.inventory.hotbar.slots;
    read_legacy_stacks(d, split + 1, &mut slots);
    p.inventory.hotbar.slots = slots;
    assert(p@.hotbar =~= Seq::new(9, |k: int| stack3_at(d@, split + 1 + 3 * k)));
    Ok(p)
}

/// The v3 payload: v2 plus the legacy backpack.
fn decode_v3(id: PlayerId, revision: u64, d: &[u8]) -> (res: StorageResult<PlayerSave>)
    requires
        d@.len() <= MAX_PAYLOAD,
    ensures
        res is Ok <==> parse_v3(id, revision, d@) is Some,
        res matches Ok(p) ==> parse_v3(id, revision, d@) == Some(p@),
        res matches Err(e) ==> e is Corrupt,
{
    if d.len() < LEGACY_BACKPACK_BYTES {
        return Err(corrupt("player payload", "shorter than the backpack"));
    }
    let split = d.len() - LEGACY_BACKPACK_BYTES;
    assert(d@.subrange(0, split as int) =~= d@.take(split as int));
    let mut p = decode_v2(id, revision, slice_subrange(d, 0, split))?;
    let mut slots = p.inventory.backpack;
    read_legacy_stacks(d, split, &mut slots);
    p.inventory.backpack = slots;
    assert(p@.backpack =~= Seq::new(27, |k: int| stack3_at(d@, split + 3 * k)));
    Ok(p)
}

/// The v4 payload: v1 plus the five-byte-stack inventory.
fn decode_v4(id: PlayerId, revision: u64, d: &[u8]) -> (res: StorageResult<PlayerSave>)
    requires
        d@.len() <= MAX_PAYLOAD,
    ensures
        res is Ok <==> parse_v4(id, revision, d@) is Some,
        res matches Ok(p) ==> parse_v4(id, revision, d@) == Some(p@),
        res matches Err(e) ==> e is Corrupt,
{
    if d.len() < HOTBAR_BYTES + BACKPACK_BYTES {
        return Err(corrupt("player payload", "shorter than the inventory"));
    }
    let split = d.len() - (HOTBAR_BYTES + BACKPACK_BYTES);
    assert(d@.subrange(0, split as int) =~= d@.take(split as int));
    let mut p = decode_v1(id, revision, slice_subrange(d, 0, split))?;
    p.inventory.hotbar.selected = d[split];
    let mut slots = p.inventory.hotbar.slots;
    read_stacks(d, split + 1, &mut slots);
    p.inventory.hotbar.slots = slots;
    let mut backpack = p.inventory.backpack;
    read_stacks(d, split + 46, &mut backpack);
    p.inventory.backpack = backpack;
    assert(p@.hotbar =~= Seq::new(9, |k: int| stack5_at(d@, split + 1 + 5 * k)));
    assert(p@.backpack =~= Seq::new(27, |k: int| stack5_at(d@, split + 46 + 5 * k)));
    Ok(p)
}

/// The v5 payload: v4 plus health. v6 shares this layout exactly.
fn decode_v5(id: PlayerId, revision: u64, d: &[u8]) -> (res: StorageResult<PlayerSave>)
    requires
        d@.len() <= MAX_PAYLOAD,
    ensures
        res is Ok <==> parse_v5(id, revision, d@) is Some,
        res matches Ok(p) ==> parse_v5(id, revision, d@) == Some(p@),
        res matches Err(e) ==> e is Corrupt,
{
    if d.len() < HEALTH_BYTES {
        return Err(corrupt("player payload", "shorter than health"));
    }
    let split = d.len() - HEALTH_BYTES;
    assert(d@.subrange(0, split as int) =~= d@.take(split as int));
    let mut p = decode_v4(id, revision, slice_subrange(d, 0, split))?;
    p.health = d[split];
    Ok(p)
}

/// The v7 payload: v5 plus the hunger state.
fn decode_v7(id: PlayerId, revision: u64, d: &[u8]) -> (res: StorageResult<PlayerSave>)
    requires
        d@.len() <= MAX_PAYLOAD,
    ensures
        res is Ok <==> parse_v7(id, revision, d@) is Some,
        res matches Ok(p) ==> parse_v7(id, revision, d@) == Some(p@),
        res matches Err(e) ==> e is Corrupt,
{
    if d.len() < HUNGER_BYTES {
        return Err(corrupt("player payload", "shorter than the hunger state"));
    }
    let split = d.len() - HUNGER_BYTES;
    assert(d@.subrange(0, split as int) =~= d@.take(split as int));
    let mut p = decode_v5(id, revision, slice_subrange(d, 0, split))?;
    p.hunger = d[split];
    p.saturation_milli = read_u16(d, split + 1);
    p.exhaustion_milli = read_u16(d, split + 3);
    Ok(p)
}

/// The v8 payload: v7 plus the respawn point.
fn decode_v8(id: PlayerId, revision: u64, d: &[u8]) -> (res: StorageResult<PlayerSave>)
    requires
        d@.len() <= MAX_PAYLOAD,
    ensures
        res is Ok <==> parse_v8(id, revision, d@) is Some,
        res matches Ok(p) ==> parse_v8(id, revision, d@) == Some(p@),
        res matches Err(e) ==> e is Corrupt,
{
    if d.len() < RESPAWN_BYTES {
        return Err(corrupt("player payload", "shorter than the respawn point"));
    }
    let split = d.len() - RESPAWN_BYTES;
    assert(d@.subrange(0, split as int) =~= d@.take(split as int));
    let mut p = decode_v7(id, revision, slice_subrange(d, 0, split))?;
    let flag = d[split];
    if flag == 1 {
        p.respawn_present = true;
        p.respawn_position = [read_u32(d, split + 1), read_u32(d, split + 5), read_u32(d, split + 9)];
        p.respawn_dimension = read_u32(d, split + 13) as i32;
        assert(p.respawn_position =~= [
            u32_at(d@, split + 1),
            u32_at(d@, split + 5),
            u32_at(d@, split + 9),
        ]);
    } else if flag != 0 {
        return Err(corrupt("player respawn flag", "invalid flag"));
    }
    Ok(p)
}

/// The v9 payload: v8 plus the armor slots.
fn decode_v9(id: PlayerId, revision: u64, d: &[u8]) -> (res: StorageResult<PlayerSave>)
    requires
        d@.len() <= MAX_PAYLOAD,
    ensures
        res is Ok <==> parse_v9(id, revision, d@) is Some,
        res matches Ok(p) ==> parse_v9(id, revision, d@) == Some(p@),
        res matches Err(e) ==> e is Corrupt,
{
    if d.len() < ARMOR_BYTES {
        return Err(corrupt("player payload", "shorter than the armor slots"));
    }
    let split = d.len() - ARMOR_BYTES;
    assert(d@.subrange(0, split as int) =~= d@.take(split as int));
    let mut p = decode_v8(id, revision, slice_subrange(d, 0, split))?;
    let mut armor = p.armor;
    read_stacks(d, split, &mut armor);
    p.armor = armor;
    assert(p@.armor =~= Seq::new(4, |k: int| stack5_at(d@, split + 5 * k)));
    Ok(p)
}

/// The payload of the given schema.
fn decode_payload(schema: u32, id: PlayerId, revision: u64, d: &[u8]) -> (res: StorageResult<
    PlayerSave,
>)
    requires
        d@.len() <= MAX_PAYLOAD,
    ensures
        res is Ok <==> parse_payload(schema, id, revision, d@) is Some,
        res matches Ok(p) ==> parse_payload(schema, id, revision, d@) == Some(p@),
        res matches Err(e) ==> e is Corrupt,
{
    if schema == 1 {
        decode_v1(id, revision, d)
    } else if schema == 2 {
        decode_v2(id, revision, d)
    } else if schema == 3 {
        decode_v3(id, revision, d)
    } else if schema == 4 {
        decode_v4(id, revision, d)
    } else if schema == 5 || schema == 6 {
        decode_v5(id, revision, d)
    } else if schema == 7 {
        decode_v7(id, revision, d)
    } else if schema == 8 {
        decode_v8(id, revision, d)
    } else if schema == 9 {
        decode_v9(id, revision, d)
    } else {
        Err(corrupt("player schema", "unsupported schema"))
    }
}

/// Fills full durability into every legacy tool stack.
fn fill_slots(slots: &mut [ItemStack])
    ensures
        final(slots)@ == old(slots)@.map_values(|s: ItemStack| spec_fill_full_durability(s)),
{
    let n = slots.len();
    let mut k: usize = 0;
    while k < n
        invariant
            n == slots@.len(),
            n == old(slots)@.len(),
            k <= n,
            forall|j: int|
                0 <= j < k ==> #[trigger] slots@[j] == spec_fill_full_durability(old(slots)@[j]),
            forall|j: int| k <= j < n ==> #[trigger] slots@[j] == old(slots)@[j],
        decreases n - k,
    {
        let filled = fill_full_durability(slots[k]);
        slots[k] = filled;
        k = k + 1;
    }
    assert(slots@ =~= old(slots)@.map_values(|s: ItemStack| spec_fill_full_durability(s)));
}

/// One documented migration step from schema `version` to the next.
fn migrate_step_exec(version: u32, p: PlayerSave) -> (r: PlayerSave)
    ensures
        r@ == migrate_step(version, p@),
{
    let mut p = p;
    let empty = ItemStack { item: 0, count: 0, durability: 0 };
    if version == 1 {
        // v1 has no item payload: the deterministic migration is an empty
        // hotbar with slot zero selected.
        p.inventory.hotbar = Hotbar { selected: 0, slots: [empty; 9] };
        assert(p@.hotbar =~= empty_slots(9));
    } else if version == 2 {
        // v2 has no backpack payload: an empty backpack keeps the hotbar the
        // file already carried.
        p.inventory.backpack = [empty; 27];
        assert(p@.backpack =~= empty_slots(27));
    } else if version == 3 {
        // v3 has no durability field: old tools migrate to full durability,
        // and non-tools keep their zero value.
        let mut slots = p.inventory.hotbar.slots;
        fill_slots(&mut slots);
        p.inventory.hotbar.slots = slots;
        let mut backpack = p.inventory.backpack;
        fill_slots(&mut backpack);
        p.inventory.backpack = backpack;
    } else if version == 4 {
        // v4 has no health field: historical saves migrate to full health.
        p.health = MAX_HEALTH;
    } else if version == 6 {
        // v6 has no hunger state: the domain reset values, so a legacy save
        // and a new player log in with the same hunger profile.
        p.hunger = MAX_HUNGER;
        p.saturation_milli = INITIAL_SATURATION_MILLI;
        p.exhaustion_milli = 0;
    } else if version == 7 {
        // v7 has no personal respawn point: death respawn falls back to the
        // world spawn anchor, exactly as before the upgrade.
        p.respawn_present = false;
        p.respawn_position = [0u32, 0u32, 0u32];
        p.respawn_dimension = 0;
        assert(p.respawn_position =~= [0u32, 0u32, 0u32]);
    } else if version == 8 {
        // v8 has no armor section: no armor was worn before the upgrade.
        p.armor = [empty; 4];
        assert(p@.armor =~= empty_slots(4));
    }
    p
}

/// Applies the migration chain from `from` up to the current schema and
/// reports whether any step ran.
///
/// Each step is deterministic: a legacy file never gains or loses user intent.
fn migrate(from: u32, p: PlayerSave) -> (r: (PlayerSave, bool))
    requires
        OLDEST_SCHEMA <= from <= CURRENT_SCHEMA,
    ensures
        r.0@ == spec_migrate(from, p@),
        r.1 == (from < CURRENT_SCHEMA),
{
    let ghost start = p@;
    let mut v = p;
    let mut version = from;
    while version < CURRENT_SCHEMA
        invariant
            from <= version <= CURRENT_SCHEMA,
            spec_migrate(from, start) == spec_migrate(version, v@),
        decreases CURRENT_SCHEMA - version,
    {
        v = migrate_step_exec(version, v);
        version = version + 1;
    }
    (v, from < CURRENT_SCHEMA)
}

/// Reports whether `schema` is inside the decoder's supported range.
pub fn schema_readable(schema: u32) -> (b: bool)
    ensures
        b == (OLDEST_SCHEMA <= schema <= CURRENT_SCHEMA),
{
    OLDEST_SCHEMA <= schema && schema <= CURRENT_SCHEMA
}

/// Decodes and validates one player, migrating older schemas to the current
/// normalized result.
///
/// `want_id` must be the requested player identity: a file for a different
/// player is rejected rather than silently loaded.
pub fn decode(want_id: PlayerId, data: &[u8]) -> (res: StorageResult<StoredPlayer>)
    ensures
        res is Ok <==> file_readable(want_id, data@),
        res matches Ok(p) ==> p@ == file_player(want_id, data@) && p.needs_rewrite == (
        declared_schema(data@) < CURRENT_SCHEMA),
        res matches Err(e) ==> (e is FutureVersion <==> is_future_file(want_id, data@)),
        res matches Err(e) ==> (e is Corrupt <==> !is_future_file(want_id, data@)),
{
    let d = data;
    if !want_id.is_valid() {
        return Err(corrupt("player ID", "requested identity is not a UUIDv4"));
    }
    if d.len() < 4 {
        return Err(short_read("player envelope magic", 4, 0, d.len()));
    }
    if !(d[0] == 0x4D && d[1] == 0x43 && d[2] == 0x50 && d[3] == 0x4C) {
        assert(d@.take(4) != seq![0x4Du8, 0x43u8, 0x50u8, 0x4Cu8]) by {
            if d@.take(4) == seq![0x4Du8, 0x43u8, 0x50u8, 0x4Cu8] {
                assert(d@[0] == d@.take(4)[0]);
                assert(d@[1] == d@.take(4)[1]);
                assert(d@[2] == d@.take(4)[2]);
                assert(d@[3] == d@.take(4)[3]);
            }
        }
        return Err(corrupt("player envelope magic", "unexpected magic"));
    }
    assert(d@.take(4) =~= seq![0x4Du8, 0x43u8, 0x50u8, 0x4Cu8]);
    if d.len() < 8 {
        return Err(short_read("player envelope version", 4, 4, d.len()));
    }
    let version = read_u32(d, 4);
    if version != ENVELOPE_VERSION {
        if version > ENVELOPE_VERSION {
            return Err(future_version("player envelope version", version));
        }
        return Err(corrupt_numbered("player envelope version", "unsupported version ", version as u64, ""));
    }
    if d.len() < 12 {
        return Err(short_read("player schema", 4, 8, d.len()));
    }
    let schema = read_u32(d, 8);
    if schema > CURRENT_SCHEMA {
        return Err(future_version("player schema", schema));
    }
    if schema < OLDEST_SCHEMA {
        return Err(corrupt_numbered("player schema", "unsupported schema ", schema as u64, ""));
    }
    if d.len() < 28 {
        return Err(short_read("player ID", 16, 12, d.len()));
    }
    let p = 12usize;
    let player_id = PlayerId::from_bytes(
        [
            d[p],
            d[p + 1],
            d[p + 2],
            d[p + 3],
            d[p + 4],
            d[p + 5],
            d[p + 6],
            d[p + 7],
            d[p + 8],
            d[p + 9],
            d[p + 10],
            d[p + 11],
            d[p + 12],
            d[p + 13],
            d[p + 14],
            d[p + 15],
        ],
    );
    assert(player_id.bytes =~= id_at(d@, 12).bytes);
    if !player_id.is_valid() || !player_id.same_as(&want_id) {
        return Err(corrupt("player ID", "does not match request"));
    }
    if d.len() < 36 {
        return Err(short_read("player revision", 8, 28, d.len()));
    }
    let revision = read_u64(d, 28);
    if revision == 0 {
        return Err(corrupt("player revision", "zero revision"));
    }
    if d.len() < 40 {
        return Err(short_read("player payload length", 4, 36, d.len()));
    }
    let payload_length = read_u32(d, 36) as usize;
    if payload_length > MAX_PAYLOAD {
        return Err(corrupt_numbered("player payload length", "", payload_length as u64, " exceeds limit 1048576"));
    }
    if d.len() < ENVELOPE_LENGTH {
        return Err(short_read("player CRC32C", 4, 40, d.len()));
    }
    let want_crc = read_u32(d, 40);
    if d.len() - ENVELOPE_LENGTH != payload_length {
        return Err(corrupt("player payload length", "does not match envelope"));
    }
    let payload = slice_subrange(d, ENVELOPE_LENGTH, d.len());
    assert(payload@ =~= d@.skip(44));
    if crc32c_join2(slice_subrange(d, 8, 40), payload) != want_crc {
        return Err(corrupt("player CRC32C", "checksum mismatch"));
    }
    let fields = decode_payload(schema, player_id, revision, payload)?;
    let (migrated, needs_rewrite) = migrate(schema, fields);
    validate_save(&migrated)?;
    let PlayerSave {
        player_id,
        revision,
        display_name,
        current,
        yaw,
        pitch,
        safe,
        inventory,
        health,
        hunger,
        saturation_milli,
        exhaustion_milli,
        respawn_present,
        respawn_position,
        respawn_dimension,
        armor,
    } = migrated;
    Ok(
        StoredPlayer {
            player_id,
            revision,
            display_name,
            current,
            yaw,
            pitch,
            safe,
            inventory,
            health,
            hunger,
            saturation_milli,
            exhaustion_milli,
            respawn_present,
            respawn_position,
            respawn_dimension,
            armor,
            needs_rewrite,
        },
    )
}

/// Reading five-byte stacks back from their bytes gives the stacks.
pub proof fn lemma_stacks5_read(d: Seq<u8>, pos: int, ss: Seq<ItemStack>)
    requires
        0 <= pos,
        pos + 5 * ss.len() <= d.len(),
        d.subrange(pos, pos + 5 * ss.len()) == stacks5_bytes(ss),
    ensures
        forall|k: int| 0 <= k < ss.len() ==> #[trigger] stack5_at(d, pos + 5 * k) == ss[k],
    decreases ss.len(),
{
    lemma_le_facts();
    if ss.len() > 0 {
        let n = ss.len() as int;
        let init = ss.drop_last();
        lemma_stacks5_bytes_len(init);
        let b = stacks5_bytes(ss);
        assert(d.subrange(pos, pos + 5 * (n - 1)) =~= b.subrange(0, 5 * (n - 1)));
        assert(b.subrange(0, 5 * (n - 1)) =~= stacks5_bytes(init));
        lemma_stacks5_read(d, pos, init);
        let p = pos + 5 * (n - 1);
        let last = ss.last();
        assert(d.subrange(p, p + 2) =~= b.subrange(5 * (n - 1), 5 * (n - 1) + 2));
        assert(b.subrange(5 * (n - 1), 5 * (n - 1) + 2) =~= le16(last.item));
        assert(d[p + 2] == b[5 * (n - 1) + 2]);
        assert(d.subrange(p + 3, p + 5) =~= b.subrange(5 * (n - 1) + 3, 5 * n));
        assert(b.subrange(5 * (n - 1) + 3, 5 * n) =~= le16(last.durability));
        assert forall|k: int| 0 <= k < ss.len() implies #[trigger] stack5_at(d, pos + 5 * k)
            == ss[k] by {
            if k < n - 1 {
                assert(stack5_at(d, pos + 5 * k) == init[k]);
            }
        }
    }
}

/// The respawn fields that reach the disk: an absent respawn point keeps no
/// coordinates.
pub open spec fn on_disk(p: PlayerView) -> PlayerView {
    if p.respawn_present {
        p
    } else {
        PlayerView { respawn_position: [0u32, 0u32, 0u32], respawn_dimension: 0, ..p }
    }
}

/// The v1 part of a player's payload.
pub open spec fn v1_bytes(p: PlayerView) -> Seq<u8> {
    le32(encode_utf8(p.display_name).len() as u32) + encode_utf8(p.display_name) + location_bytes(
        p.current,
    ) + le32(p.yaw) + le32(p.pitch) + match p.safe {
        None => le8(0),
        Some(l) => le8(1) + location_bytes(l),
    }
}

/// The v4 part: v1 plus the inventory.
pub open spec fn v4_bytes(p: PlayerView) -> Seq<u8> {
    v1_bytes(p) + le8(p.selected) + stacks5_bytes(p.hotbar) + stacks5_bytes(p.backpack)
}

/// The v7 part: v4 plus health and the hunger state.
pub open spec fn v7_bytes(p: PlayerView) -> Seq<u8> {
    v4_bytes(p) + le8(p.health) + le8(p.hunger) + le16(p.saturation_milli) + le16(
        p.exhaustion_milli,
    )
}

/// The v8 part: v7 plus the respawn point.
pub open spec fn v8_bytes(p: PlayerView) -> Seq<u8> {
    v7_bytes(p) + if p.respawn_present {
        le8(1) + le32(p.respawn_position@[0]) + le32(p.respawn_position@[1]) + le32(
            p.respawn_position@[2],
        ) + lei32(p.respawn_dimension)
    } else {
        zeros(RESPAWN_BYTES as nat)
    }
}

/// What the v1 part holds.
pub open spec fn v1_value(p: PlayerView) -> PlayerView {
    PlayerView {
        display_name: p.display_name,
        current: p.current,
        yaw: p.yaw,
        pitch: p.pitch,
        safe: p.safe,
        ..blank_player(p.player_id, p.revision)
    }
}

proof fn lemma_parse_v1(p: PlayerView)
    requires
        encode_utf8(p.display_name).len() <= MAX_NAME_BYTES,
    ensures
        parse_v1(p.player_id, p.revision, v1_bytes(p)) == Some(v1_value(p)),
{
    lemma_le_facts();
    vstd::utf8::encode_utf8_valid_utf8(p.display_name);
    vstd::utf8::encode_utf8_decode_utf8(p.display_name);
    crate::bytes::lemma_i32_bits(p.current.dimension);
    let b = v1_bytes(p);
    let name = encode_utf8(p.display_name);
    let n = name.len() as int;
    let q = 4 + n;
    assert(b.subrange(0, 4) =~= le32(n as u32));
    assert(b.subrange(4, q) =~= name);
    assert(b.subrange(q, q + 4) =~= lei32(p.current.dimension));
    assert(b.subrange(q + 4, q + 8) =~= le32(p.current.position@[0]));
    assert(b.subrange(q + 8, q + 12) =~= le32(p.current.position@[1]));
    assert(b.subrange(q + 12, q + 16) =~= le32(p.current.position@[2]));
    assert(b.subrange(q + 16, q + 20) =~= le32(p.yaw));
    assert(b.subrange(q + 20, q + 24) =~= le32(p.pitch));
    assert(location_at(b, q).position =~= p.current.position);
    if let Some(l) = p.safe {
        crate::bytes::lemma_i32_bits(l.dimension);
        assert(b[q + 24] == 1);
        assert(b.subrange(q + 25, q + 29) =~= lei32(l.dimension));
        assert(b.subrange(q + 29, q + 33) =~= le32(l.position@[0]));
        assert(b.subrange(q + 33, q + 37) =~= le32(l.position@[1]));
        assert(b.subrange(q + 37, q + 41) =~= le32(l.position@[2]));
        assert(location_at(b, q + 25).position =~= l.position);
    } else {
        assert(b[q + 24] == 0);
    }
}

proof fn lemma_parse_v4(p: PlayerView)
    requires
        encode_utf8(p.display_name).len() <= MAX_NAME_BYTES,
        p.hotbar.len() == HOTBAR_SLOTS,
        p.backpack.len() == BACKPACK_SLOTS,
    ensures
        parse_v4(p.player_id, p.revision, v4_bytes(p)) == Some(
            PlayerView {
                selected: p.selected,
                hotbar: p.hotbar,
                backpack: p.backpack,
                ..v1_value(p)
            },
        ),
{
    lemma_le_facts();
    lemma_parse_v1(p);
    lemma_stacks5_bytes_len(p.hotbar);
    lemma_stacks5_bytes_len(p.backpack);
    let b = v4_bytes(p);
    let s = v1_bytes(p).len() as int;
    assert(b.take(s) =~= v1_bytes(p));
    assert(b.subrange(s + 1, s + 46) =~= stacks5_bytes(p.hotbar));
    assert(b.subrange(s + 46, s + 181) =~= stacks5_bytes(p.backpack));
    lemma_stacks5_read(b, s + 1, p.hotbar);
    lemma_stacks5_read(b, s + 46, p.backpack);
    assert(Seq::new(9, |k: int| stack5_at(b, s + 1 + 5 * k)) =~= p.hotbar);
    assert(Seq::new(27, |k: int| stack5_at(b, s + 46 + 5 * k)) =~= p.backpack);
}

#[verifier::rlimit(40)]
#[verifier::spinoff_prover]
proof fn lemma_parse_v8(p: PlayerView)
    requires
        encode_utf8(p.display_name).len() <= MAX_NAME_BYTES,
        p.hotbar.len() == HOTBAR_SLOTS,
        p.backpack.len() == BACKPACK_SLOTS,
    ensures
        parse_v8(p.player_id, p.revision, v8_bytes(p)) == Some(
            PlayerView { armor: empty_slots(4), ..on_disk(p) },
        ),
{
    lemma_le_facts();
    lemma_parse_v4(p);
    crate::bytes::lemma_i32_bits(p.respawn_dimension);
    let b4 = v4_bytes(p);
    let b5 = b4 + le8(p.health);
    let b7 = v7_bytes(p);
    let b8 = v8_bytes(p);
    assert(b5.take(b4.len() as int) =~= b4);
    assert(b7 =~= b5 + le8(p.hunger) + le16(p.saturation_milli) + le16(p.exhaustion_milli));
    assert(b7.take(b5.len() as int) =~= b5);
    let s7 = b5.len() as int;
    assert(b7.subrange(s7 + 1, s7 + 3) =~= le16(p.saturation_milli));
    assert(b7.subrange(s7 + 3, s7 + 5) =~= le16(p.exhaustion_milli));
    assert(b8.take(b7.len() as int) =~= b7);
    let s8 = b7.len() as int;
    if p.respawn_present {
        assert(b8.subrange(s8 + 1, s8 + 5) =~= le32(p.respawn_position@[0]));
        assert(b8.subrange(s8 + 5, s8 + 9) =~= le32(p.respawn_position@[1]));
        assert(b8.subrange(s8 + 9, s8 + 13) =~= le32(p.respawn_position@[2]));
        assert(b8.subrange(s8 + 13, s8 + 17) =~= lei32(p.respawn_dimension));
        assert([u32_at(b8, s8 + 1), u32_at(b8, s8 + 5), u32_at(b8, s8 + 9)] =~= p.respawn_position);
    } else {
        assert(b8[s8] == 0);
    }
}

proof fn lemma_parse_v9(p: PlayerView)
    requires
        encode_utf8(p.display_name).len() <= MAX_NAME_BYTES,
        p.hotbar.len() == HOTBAR_SLOTS,
        p.backpack.len() == BACKPACK_SLOTS,
        p.armor.len() == 4,
    ensures
        parse_v9(p.player_id, p.revision, v9_payload(p)) == Some(on_disk(p)),
{
    lemma_le_facts();
    lemma_parse_v8(p);
    lemma_stacks5_bytes_len(p.armor);
    let b8 = v8_bytes(p);
    let b9 = v9_payload(p);
    assert(b9 =~= b8 + stacks5_bytes(p.armor));
    assert(b9.take(b8.len() as int) =~= b8);
    let s9 = b8.len() as int;
    assert(b9.subrange(s9, s9 + 20) =~= stacks5_bytes(p.armor));
    lemma_stacks5_read(b9, s9, p.armor);
    assert(Seq::new(4, |k: int| stack5_at(b9, s9 + 5 * k)) =~= p.armor);
}

proof fn lemma_envelope(p: PlayerView)
    requires
        player_ok(p),
        p.hotbar.len() == HOTBAR_SLOTS,
        p.backpack.len() == BACKPACK_SLOTS,
        p.armor.len() == 4,
    ensures
        envelope_ok(p.player_id, record(p)),
        declared_schema(record(p)) == CURRENT_SCHEMA,
        u64_at(record(p), 28) == p.revision,
        record(p).skip(44) == v9_payload(p),
{
    lemma_le_facts();
    lemma_record_len(p);
    let b9 = v9_payload(p);
    let r = record(p);
    let covered = covered_header(p, b9.len());
    assert(r.take(4) =~= seq![0x4Du8, 0x43u8, 0x50u8, 0x4Cu8]);
    assert(r.subrange(4, 8) =~= le32(ENVELOPE_VERSION));
    assert(r.subrange(8, 12) =~= le32(CURRENT_SCHEMA));
    assert(r.subrange(12, 28) =~= p.player_id.bytes@);
    crate::identity::lemma_id_at(r, 12, p.player_id);
    assert(r.subrange(28, 36) =~= le64(p.revision));
    assert(r.subrange(36, 40) =~= le32(b9.len() as u32));
    assert(r.subrange(40, 44) =~= le32(spec_crc32c(covered + b9)));
    assert(r.subrange(8, 40) =~= covered);
    assert(r.skip(44) =~= b9);
}

/// Round trip: the record the encoder writes for an accepted player is read
/// back, for that player's identity, as the player itself at the current
/// schema, apart from the coordinates of an absent respawn point.
pub proof fn lemma_round_trip(p: PlayerView)
    requires
        player_ok(p),
        p.hotbar.len() == HOTBAR_SLOTS,
        p.backpack.len() == BACKPACK_SLOTS,
        p.armor.len() == 4,
    ensures
        file_readable(p.player_id, record(p)),
        declared_schema(record(p)) == CURRENT_SCHEMA,
        file_player(p.player_id, record(p)) == on_disk(p),
{
    lemma_envelope(p);
    lemma_parse_v9(p);
    assert(file_fields(p.player_id, record(p)) == Some(on_disk(p)));
    assert(spec_migrate(CURRENT_SCHEMA, on_disk(p)) == on_disk(p));
    assert(player_ok(on_disk(p)));
}

} // verus!
