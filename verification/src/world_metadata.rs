//! `save.world-metadata`: the world metadata record (`world.meta`).
//!
//! Every version is a pure tail append over v1, so a legacy record keeps its
//! byte layout and reads the missing fields as their documented migration
//! defaults. Decoding normalizes to the current version; encoding only ever
//! writes the current version.
use crate::bytes::{ByteWriter, copy_prefix, le32, le64, le8, lei32, lemma_le_facts, lemma_le_rereads, read_u32, read_u64, u32_at, u64_at};
use crate::crc32c::{crc32c, spec_crc32c};
use crate::error::{StorageError, StorageResult, corrupt, future_version, corrupt_numbered, corrupt_two_numbers};
use vstd::bytes::*;
use vstd::prelude::*;
use vstd::slice::slice_subrange;

verus! {

broadcast use {vstd::seq::group_seq_axioms, vstd::slice::group_slice_axioms};

/// Schema written by the current encoder.
pub const CURRENT_VERSION: u32 = 6;

/// Legacy schemas still accepted for read-only migration.
pub const V1: u32 = 1;
pub const V2: u32 = 2;
pub const V3: u32 = 3;
pub const V4: u32 = 4;
pub const V5: u32 = 5;

pub const HEADER_LENGTH: usize = 12;
pub const CHECKSUM_LENGTH: usize = 4;
pub const PAYLOAD_LENGTH: usize = 62;
pub const V5_PAYLOAD_LENGTH: usize = 61;
pub const V4_PAYLOAD_LENGTH: usize = 41;
pub const V3_PAYLOAD_LENGTH: usize = 36;
pub const V2_PAYLOAD_LENGTH: usize = 28;
pub const V1_PAYLOAD_LENGTH: usize = 20;
/// Fixed dimension-table size persisted from v5 onward: overworld plus depths.
pub const DIMENSION_COUNT: u32 = 2;
/// Seed salt used when a legacy record carries no dimension table.
pub const DEPTHS_SEED_SALT: u64 = 0x9E37_79B9_7F4A_7C15;
/// Exact byte length of a current-version record.
pub const RECORD_LENGTH: usize = 78;

pub const WEATHER_CLEAR: u8 = 0;
pub const WEATHER_RAIN: u8 = 1;
pub const WEATHER_THUNDER: u8 = 2;
pub const DIFFICULTY_NORMAL: u8 = 0;
pub const DIFFICULTY_PEACEFUL: u8 = 1;
pub const DIFFICULTY_HARD: u8 = 2;

/// A chunk coordinate on a per-dimension grid.
#[derive(Clone, Copy, Debug, PartialEq, Eq)]
pub struct ChunkPos {
    pub x: i32,
    pub z: i32,
}

/// A world metadata record.
#[derive(Clone, Debug, PartialEq, Eq)]
pub struct Metadata {
    /// Always the schema the record normalized to after decoding.
    pub format_version: u32,
    pub seed: i64,
    pub spawn_dimension: i32,
    pub spawn_anchor: ChunkPos,
    /// Absolute authoritative world time, persisted from v2.
    pub world_time_ticks: u64,
    /// Display phase offset, persisted from v3.
    pub day_phase_offset: u64,
    /// Weather kind byte persisted from v4; the codec preserves any raw value.
    pub weather_kind: u8,
    /// Remaining ticks of the current weather segment, persisted from v4.
    pub weather_ticks_remaining: u32,
    /// Second-dimension spawn anchor, persisted from v5.
    pub depths_spawn_anchor: ChunkPos,
    /// Second-dimension terrain seed salt, persisted from v5.
    pub depths_seed_salt: u64,
    /// `0` normal, `1` peaceful, `2` hard; persisted from v6.
    pub difficulty: u8,
}

/// The record magic `MCGM`.
pub open spec fn magic() -> Seq<u8> {
    seq![0x4Du8, 0x43u8, 0x47u8, 0x4Du8]
}

/// The three persisted weather states.
pub open spec fn spec_valid_weather(kind: u8) -> bool {
    kind == WEATHER_CLEAR || kind == WEATHER_RAIN || kind == WEATHER_THUNDER
}

/// The three persisted difficulties.
pub open spec fn spec_valid_difficulty(difficulty: u8) -> bool {
    difficulty == DIFFICULTY_NORMAL || difficulty == DIFFICULTY_PEACEFUL || difficulty
        == DIFFICULTY_HARD
}

/// A metadata value the encoder accepts: the current version and a persisted difficulty.
pub open spec fn encodable(m: Metadata) -> bool {
    m.format_version == CURRENT_VERSION && spec_valid_difficulty(m.difficulty)
}

/// The record bytes before the checksum.
pub open spec fn record_body(m: Metadata) -> Seq<u8> {
    magic() + le32(CURRENT_VERSION) + le32(PAYLOAD_LENGTH as u32) + le64(m.seed as u64) + lei32(
        m.spawn_dimension,
    ) + lei32(m.spawn_anchor.x) + lei32(m.spawn_anchor.z) + le64(m.world_time_ticks) + le64(
        m.day_phase_offset,
    ) + le8(m.weather_kind) + le32(m.weather_ticks_remaining) + le32(DIMENSION_COUNT) + lei32(
        m.depths_spawn_anchor.x,
    ) + lei32(m.depths_spawn_anchor.z) + le64(m.depths_seed_salt) + le8(m.difficulty)
}

/// The complete current-version record: body plus its CRC-32C.
pub open spec fn record(m: Metadata) -> Seq<u8> {
    record_body(m) + le32(spec_crc32c(record_body(m)))
}

/// Payload length each readable version declares, or `-1` for an unreadable version.
pub open spec fn payload_length_for(version: u32) -> int {
    if version == 6 {
        62
    } else if version == 5 {
        61
    } else if version == 4 {
        41
    } else if version == 3 {
        36
    } else if version == 2 {
        28
    } else if version == 1 {
        20
    } else {
        -1
    }
}

/// The declared version of a record with a complete header.
pub open spec fn declared_version(d: Seq<u8>) -> u32 {
    u32_at(d, 4)
}

/// The record is rejected as written by a future version.
pub open spec fn is_future_record(d: Seq<u8>) -> bool {
    d.len() >= 12 && d.take(4) == magic() && declared_version(d) > CURRENT_VERSION
}

/// Header, length, checksum and table checks of a readable record.
pub open spec fn record_readable(d: Seq<u8>) -> bool {
    let version = declared_version(d);
    &&& d.len() >= 12
    &&& d.take(4) == magic()
    &&& 1 <= version <= CURRENT_VERSION
    &&& u32_at(d, 8) == payload_length_for(version)
    &&& d.len() == 12 + payload_length_for(version) + 4
    &&& spec_crc32c(d.take(d.len() - 4)) == u32_at(d, d.len() - 4)
    &&& (version >= 5 ==> u32_at(d, 53) == DIMENSION_COUNT)
    &&& (version == 6 ==> spec_valid_difficulty(d[73]))
}

/// The normalized metadata a readable record holds; missing tails take their
/// documented defaults.
pub open spec fn record_fields(d: Seq<u8>) -> Metadata {
    let version = declared_version(d);
    let anchor = ChunkPos { x: u32_at(d, 24) as i32, z: u32_at(d, 28) as i32 };
    Metadata {
        format_version: CURRENT_VERSION,
        seed: u64_at(d, 12) as i64,
        spawn_dimension: u32_at(d, 20) as i32,
        spawn_anchor: anchor,
        world_time_ticks: if version >= 2 { u64_at(d, 32) } else { 0 },
        day_phase_offset: if version >= 3 { u64_at(d, 40) } else { 0 },
        weather_kind: if version >= 4 { d[48] } else { WEATHER_CLEAR },
        weather_ticks_remaining: if version >= 4 { u32_at(d, 49) } else { 0 },
        depths_spawn_anchor: if version >= 5 {
            ChunkPos { x: u32_at(d, 57) as i32, z: u32_at(d, 61) as i32 }
        } else {
            anchor
        },
        depths_seed_salt: if version >= 5 { u64_at(d, 65) } else { DEPTHS_SEED_SALT },
        difficulty: if version == 6 { d[73] } else { DIFFICULTY_NORMAL },
    }
}

/// Round trip: a record the encoder writes is readable and decodes to the
/// very metadata that was encoded.
pub proof fn lemma_record_round_trip(m: Metadata)
    requires
        encodable(m),
    ensures
        record_readable(record(m)),
        record_fields(record(m)) == m,
{
    lemma_le_facts();
    crate::bytes::lemma_i32_bits(m.spawn_dimension);
    crate::bytes::lemma_i32_bits(m.spawn_anchor.x);
    crate::bytes::lemma_i32_bits(m.spawn_anchor.z);
    crate::bytes::lemma_i32_bits(m.depths_spawn_anchor.x);
    crate::bytes::lemma_i32_bits(m.depths_spawn_anchor.z);
    crate::bytes::lemma_i64_bits(m.seed);
    let b = record_body(m);
    let r = record(m);
    assert(b.len() == 74);
    assert(r.len() == 78);
    assert(r.take(4) =~= magic());
    assert(r.subrange(4, 8) =~= le32(CURRENT_VERSION));
    assert(r.subrange(8, 12) =~= le32(PAYLOAD_LENGTH as u32));
    assert(r.subrange(12, 20) =~= le64(m.seed as u64));
    assert(r.subrange(20, 24) =~= lei32(m.spawn_dimension));
    assert(r.subrange(24, 28) =~= lei32(m.spawn_anchor.x));
    assert(r.subrange(28, 32) =~= lei32(m.spawn_anchor.z));
    assert(r.subrange(32, 40) =~= le64(m.world_time_ticks));
    assert(r.subrange(40, 48) =~= le64(m.day_phase_offset));
    assert(r[48] == m.weather_kind);
    assert(r.subrange(49, 53) =~= le32(m.weather_ticks_remaining));
    assert(r.subrange(53, 57) =~= le32(DIMENSION_COUNT));
    assert(r.subrange(57, 61) =~= lei32(m.depths_spawn_anchor.x));
    assert(r.subrange(61, 65) =~= lei32(m.depths_spawn_anchor.z));
    assert(r.subrange(65, 73) =~= le64(m.depths_seed_salt));
    assert(r[73] == m.difficulty);
    assert(r.take(74) =~= b);
    assert(r.subrange(74, 78) =~= le32(spec_crc32c(b)));
}

/// Decoding is exact on the current version: a current-version record the
/// decoder accepts is, byte for byte, the record the encoder writes for the
/// metadata it decodes to.
#[verifier::rlimit(40)]
pub proof fn lemma_readable_is_canonical(d: Seq<u8>)
    requires
        record_readable(d),
        declared_version(d) == CURRENT_VERSION,
    ensures
        encodable(record_fields(d)),
        record(record_fields(d)) == d,
{
    lemma_le_rereads();
    lemma_le_facts();
    let m = record_fields(d);
    let b = record_body(m);
    assert(d.len() == 78);
    assert forall|pos: int| 0 <= pos && pos + 4 <= d.len() implies #[trigger] lei32(
        u32_at(d, pos) as i32,
    ) == d.subrange(pos, pos + 4) by {
        let v = u32_at(d, pos);
        assert((v as i32) as u32 == v) by (bit_vector);
        assert(le32(v) == d.subrange(pos, pos + 4));
        assert(lei32(v as i32) == le32(v));
    }
    let seed = u64_at(d, 12);
    assert((seed as i64) as u64 == seed) by (bit_vector);
    assert(le8(m.weather_kind) =~= d.subrange(48, 49));
    assert(le8(m.difficulty) =~= d.subrange(73, 74));
    assert(lei32(m.spawn_dimension) == d.subrange(20, 24));
    assert(lei32(m.spawn_anchor.x) == d.subrange(24, 28));
    assert(lei32(m.spawn_anchor.z) == d.subrange(28, 32));
    assert(lei32(m.depths_spawn_anchor.x) == d.subrange(57, 61));
    assert(lei32(m.depths_spawn_anchor.z) == d.subrange(61, 65));
    assert(le32(CURRENT_VERSION) == d.subrange(4, 8));
    assert(le32(PAYLOAD_LENGTH as u32) == d.subrange(8, 12));
    assert(le32(DIMENSION_COUNT) == d.subrange(53, 57));
    assert(magic() =~= d.subrange(0, 4));
    assert(b =~= d.take(74));
    assert(le32(spec_crc32c(b)) == d.subrange(74, 78));
    assert(d =~= d.take(74) + d.subrange(74, 78));
}

/// Decoding keeps every field a record's version stores and gives every
/// field it lacks its documented migration default: each stored field of the
/// decoded metadata re-encodes to exactly the bytes it was read from, a
/// missing time, phase or weather is zero or clear, a missing depths anchor is
/// the overworld anchor, a missing depths salt is the fixed salt, and a
/// missing difficulty is normal.
pub proof fn lemma_decode_keeps_stored_fields(d: Seq<u8>)
    requires
        record_readable(d),
    ensures
        record_fields(d).format_version == CURRENT_VERSION,
        le64(record_fields(d).seed as u64) == d.subrange(12, 20),
        lei32(record_fields(d).spawn_dimension) == d.subrange(20, 24),
        lei32(record_fields(d).spawn_anchor.x) == d.subrange(24, 28),
        lei32(record_fields(d).spawn_anchor.z) == d.subrange(28, 32),
        declared_version(d) >= 2 ==> le64(record_fields(d).world_time_ticks) == d.subrange(32, 40),
        declared_version(d) < 2 ==> record_fields(d).world_time_ticks == 0,
        declared_version(d) >= 3 ==> le64(record_fields(d).day_phase_offset) == d.subrange(40, 48),
        declared_version(d) < 3 ==> record_fields(d).day_phase_offset == 0,
        declared_version(d) >= 4 ==> record_fields(d).weather_kind == d[48] && le32(
            record_fields(d).weather_ticks_remaining,
        ) == d.subrange(49, 53),
        declared_version(d) < 4 ==> record_fields(d).weather_kind == WEATHER_CLEAR && record_fields(
            d,
        ).weather_ticks_remaining == 0,
        declared_version(d) >= 5 ==> lei32(record_fields(d).depths_spawn_anchor.x) == d.subrange(
            57,
            61,
        ) && lei32(record_fields(d).depths_spawn_anchor.z) == d.subrange(61, 65) && le64(
            record_fields(d).depths_seed_salt,
        ) == d.subrange(65, 73),
        declared_version(d) < 5 ==> record_fields(d).depths_spawn_anchor == record_fields(
            d,
        ).spawn_anchor && record_fields(d).depths_seed_salt == DEPTHS_SEED_SALT,
        declared_version(d) == 6 ==> record_fields(d).difficulty == d[73],
        declared_version(d) < 6 ==> record_fields(d).difficulty == DIFFICULTY_NORMAL,
{
    lemma_le_rereads();
    let v = declared_version(d);
    assert(d.len() == 12 + payload_length_for(v) + 4);
    assert forall|pos: int| 0 <= pos && pos + 4 <= d.len() implies #[trigger] lei32(
        u32_at(d, pos) as i32,
    ) == d.subrange(pos, pos + 4) by {
        let w = u32_at(d, pos);
        assert((w as i32) as u32 == w) by (bit_vector);
        assert(le32(w) == d.subrange(pos, pos + 4));
        assert(lei32(w as i32) == le32(w));
    }
    let seed = u64_at(d, 12);
    assert((seed as i64) as u64 == seed) by (bit_vector);
    assert(le64(seed) == d.subrange(12, 20));
}

/// Reports whether `kind` is one of the three persisted weather states.
pub fn valid_weather(kind: u8) -> (b: bool)
    ensures
        b == spec_valid_weather(kind),
{
    kind == WEATHER_CLEAR || kind == WEATHER_RAIN || kind == WEATHER_THUNDER
}

/// Reports whether `difficulty` is one of the three persisted difficulties.
pub fn valid_difficulty(difficulty: u8) -> (b: bool)
    ensures
        b == spec_valid_difficulty(difficulty),
{
    difficulty == DIFFICULTY_NORMAL || difficulty == DIFFICULTY_PEACEFUL || difficulty
        == DIFFICULTY_HARD
}

fn validate_encode(metadata: &Metadata) -> (res: StorageResult<()>)
    ensures
        res is Ok <==> encodable(*metadata),
        res matches Err(e) ==> (e is FutureVersion <==> metadata.format_version > CURRENT_VERSION),
        res matches Err(e) ==> (e is Corrupt <==> metadata.format_version <= CURRENT_VERSION),
{
    if metadata.format_version > CURRENT_VERSION {
        return Err(future_version("metadata version", metadata.format_version));
    }
    if metadata.format_version != CURRENT_VERSION {
        return Err(corrupt_numbered(
            "metadata version",
            "unsupported version ",
            metadata.format_version as u64,
            "",
        ));
    }
    if !valid_difficulty(metadata.difficulty) {
        return Err(corrupt_numbered("metadata difficulty", "", metadata.difficulty as u64, ""));
    }
    Ok(())
}

/// Reports the exact byte length of a valid current-version metadata record.
pub fn encoded_len(metadata: &Metadata) -> (res: StorageResult<usize>)
    ensures
        res is Ok <==> encodable(*metadata),
        res matches Ok(n) ==> n == RECORD_LENGTH && n == record(*metadata).len(),
        res matches Err(e) ==> (e is FutureVersion <==> metadata.format_version > CURRENT_VERSION),
        res matches Err(e) ==> (e is Corrupt <==> metadata.format_version <= CURRENT_VERSION),
{
    validate_encode(metadata)?;
    proof {
        lemma_le_facts();
    }
    Ok(RECORD_LENGTH)
}

fn build_record(metadata: &Metadata) -> (bytes: Vec<u8>)
    ensures
        bytes@ == record(*metadata),
{
    let mut w = ByteWriter::new();
    w.u8(0x4D);
    w.u8(0x43);
    w.u8(0x47);
    w.u8(0x4D);
    w.u32(CURRENT_VERSION);
    w.u32(PAYLOAD_LENGTH as u32);
    w.u64(metadata.seed as u64);
    w.u32(metadata.spawn_dimension as u32);
    w.u32(metadata.spawn_anchor.x as u32);
    w.u32(metadata.spawn_anchor.z as u32);
    w.u64(metadata.world_time_ticks);
    w.u64(metadata.day_phase_offset);
    proof {
        lemma_le_facts();
    }
    w.u8(metadata.weather_kind);
    w.u32(metadata.weather_ticks_remaining);
    w.u32(DIMENSION_COUNT);
    w.u32(metadata.depths_spawn_anchor.x as u32);
    w.u32(metadata.depths_spawn_anchor.z as u32);
    w.u64(metadata.depths_seed_salt);
    w.u8(metadata.difficulty);
    let body = w.into_vec();
    assert(body@ =~= record_body(*metadata));
    let checksum = crc32c(body.as_slice());
    let mut w = ByteWriter::new();
    w.bytes(body.as_slice());
    w.u32(checksum);
    let out = w.into_vec();
    assert(out@ =~= record(*metadata));
    out
}

/// Writes a complete current-version record into `dst`, preserving any tail
/// beyond the returned length. Failure writes nothing.
pub fn encode_into(metadata: &Metadata, dst: &mut [u8]) -> (res: StorageResult<usize>)
    ensures
        res is Ok <==> encodable(*metadata) && old(dst)@.len() >= RECORD_LENGTH,
        res matches Ok(n) ==> n == RECORD_LENGTH && final(dst)@ == record(*metadata) + old(
            dst,
        )@.skip(RECORD_LENGTH as int),
        res is Err ==> final(dst)@ == old(dst)@,
        res matches Err(e) ==> (e is FutureVersion <==> metadata.format_version > CURRENT_VERSION),
        res matches Err(e) ==> (e is OutputTooSmall <==> encodable(*metadata)),
        res matches Err(StorageError::OutputTooSmall { needed, available }) ==> needed
            == RECORD_LENGTH && available == old(dst)@.len(),
{
    validate_encode(metadata)?;
    if dst.len() < RECORD_LENGTH {
        return Err(StorageError::OutputTooSmall { needed: RECORD_LENGTH, available: dst.len() });
    }
    let bytes = build_record(metadata);
    proof {
        lemma_le_facts();
    }
    copy_prefix(dst, bytes.as_slice());
    Ok(RECORD_LENGTH)
}

/// Encodes `metadata` as the current-version world metadata record.
///
/// Only the current version may be written: re-encoding a legacy record at its
/// old version would freeze the migration gap onto disk.
pub fn encode(metadata: &Metadata) -> (res: StorageResult<Vec<u8>>)
    ensures
        res is Ok <==> encodable(*metadata),
        res matches Ok(bytes) ==> bytes@ == record(*metadata),
        res matches Err(e) ==> (e is FutureVersion <==> metadata.format_version > CURRENT_VERSION),
        res matches Err(e) ==> (e is Corrupt <==> metadata.format_version <= CURRENT_VERSION),
{
    validate_encode(metadata)?;
    Ok(build_record(metadata))
}

/// Decodes a world metadata record and normalizes it to the current version.
///
/// Length, payload length and checksum are verified before any field is read.
pub fn decode(encoded: &[u8]) -> (res: StorageResult<Metadata>)
    ensures
        res is Ok <==> record_readable(encoded@),
        res matches Ok(m) ==> m == record_fields(encoded@),
        res matches Err(e) ==> (e is FutureVersion <==> is_future_record(encoded@)),
        res matches Err(e) ==> (e is Corrupt <==> !is_future_record(encoded@)),
{
    let d = encoded;
    if d.len() < HEADER_LENGTH {
        return Err(corrupt("metadata header", "short"));
    }
    if !(d[0] == 0x4D && d[1] == 0x43 && d[2] == 0x47 && d[3] == 0x4D) {
        assert(d@.take(4) != magic()) by {
            if d@.take(4) == magic() {
                assert(d@[0] == d@.take(4)[0]);
                assert(d@[1] == d@.take(4)[1]);
                assert(d@[2] == d@.take(4)[2]);
                assert(d@[3] == d@.take(4)[3]);
            }
        }
        return Err(corrupt("metadata magic", "unexpected magic"));
    }
    assert(d@.take(4) =~= magic());
    let version = read_u32(d, 4);
    if version > CURRENT_VERSION {
        return Err(future_version("metadata version", version));
    }
    let want_payload_length: usize = if version == CURRENT_VERSION {
        PAYLOAD_LENGTH
    } else if version == V5 {
        V5_PAYLOAD_LENGTH
    } else if version == V4 {
        V4_PAYLOAD_LENGTH
    } else if version == V3 {
        V3_PAYLOAD_LENGTH
    } else if version == V2 {
        V2_PAYLOAD_LENGTH
    } else if version == V1 {
        V1_PAYLOAD_LENGTH
    } else {
        return Err(corrupt_numbered("metadata version", "unsupported version ", version as u64, ""));
    };
    let payload_length = read_u32(d, 8);
    if payload_length as usize != want_payload_length {
        return Err(corrupt_two_numbers("metadata payload length", payload_length as u64, ", want ", want_payload_length as u64));
    }
    let want_length = HEADER_LENGTH + want_payload_length + CHECKSUM_LENGTH;
    if d.len() != want_length {
        return Err(corrupt_two_numbers("metadata length", d.len() as u64, ", want ", want_length as u64));
    }
    let checksum_offset = want_length - CHECKSUM_LENGTH;
    if crc32c(slice_subrange(d, 0, checksum_offset)) != read_u32(d, checksum_offset) {
        return Err(corrupt("metadata CRC32C", "checksum mismatch"));
    }
    let anchor = ChunkPos { x: read_u32(d, 24) as i32, z: read_u32(d, 28) as i32 };
    let mut metadata = Metadata {
        format_version: CURRENT_VERSION,
        seed: read_u64(d, 12) as i64,
        spawn_dimension: read_u32(d, 20) as i32,
        spawn_anchor: anchor,
        world_time_ticks: 0,
        day_phase_offset: 0,
        weather_kind: WEATHER_CLEAR,
        weather_ticks_remaining: 0,
        depths_spawn_anchor: ChunkPos { x: 0, z: 0 },
        depths_seed_salt: DEPTHS_SEED_SALT,
        difficulty: DIFFICULTY_NORMAL,
    };
    if version >= V2 {
        metadata.world_time_ticks = read_u64(d, 32);
    }
    if version >= V3 {
        metadata.day_phase_offset = read_u64(d, 40);
    }
    if version >= V4 {
        metadata.weather_kind = d[48];
        metadata.weather_ticks_remaining = read_u32(d, 49);
    }
    if version >= V5 {
        let dimension_count = read_u32(d, 53);
        if dimension_count != DIMENSION_COUNT {
            return Err(corrupt_numbered("metadata dimension count", "", dimension_count as u64, ""));
        }
        metadata.depths_spawn_anchor = ChunkPos {
            x: read_u32(d, 57) as i32,
            z: read_u32(d, 61) as i32,
        };
        metadata.depths_seed_salt = read_u64(d, 65);
    } else {
        metadata.depths_spawn_anchor = anchor;
    }
    if version == CURRENT_VERSION {
        metadata.difficulty = d[73];
        if !valid_difficulty(metadata.difficulty) {
            return Err(corrupt_numbered("metadata difficulty", "", metadata.difficulty as u64, ""));
        }
    }
    Ok(metadata)
}

} // verus!
