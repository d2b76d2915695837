//! `save.hostile`: the hostile-mob aggregate save (`hostile_mobs.bin`).
//!
//! The decoder accepts schema v1 and v2; only v2 is written. v1 records lack
//! the trailing `kind` byte, so a v1 file is read in as nightcrawlers and stays
//! byte-identical until the next normal save rewrites it as v2. Records are
//! fixed-stride, written in strictly ascending ID order, and the CRC-32C covers
//! header bytes 8..28 plus the payload.
use crate::bytes::{
    ByteWriter, copy_prefix, le16, le32, le64, le8, le_bool, lei32, lemma_le_facts, read_u16,
    read_u32, read_u64, u16_at, u32_at, u64_at,
};
use crate::canonical_order::{
    ascending_order, ascending_order_of, lemma_ascending_order_identity,
    lemma_ascending_order_strict, strictly_ascending,
};
use crate::crc32c::{crc32c_join2, spec_crc32c};
use crate::error::{
    StorageError, StorageResult, corrupt, corrupt_at, corrupt_numbered, detail_text, future_version,
    numbered_text, short_read, signed_text,
};
use crate::float_bits::{f32_finite, is_finite, is_in_world, y_in_world};
use crate::identity::{PlayerId, id_at, lemma_id_at, spec_id_is_valid, spec_id_is_zero};
use vstd::bytes::*;
use vstd::prelude::*;
use vstd::slice::slice_subrange;

verus! {

broadcast use {
    vstd::seq::group_seq_axioms,
    vstd::slice::group_slice_axioms,
    vstd::array::group_array_axioms,
};

/// Maximum number of records one hostile-mob save may hold.
pub const MAX_HOSTILE_MOBS: usize = 64;
/// Envelope version written by the current encoder.
pub const ENVELOPE_VERSION: u32 = 1;
/// Legacy schema still accepted for read-only migration.
pub const SCHEMA_V1: u32 = 1;
/// Schema written by the current encoder.
pub const CURRENT_SCHEMA: u32 = 2;
/// Length of the fixed header.
pub const HEADER_LENGTH: usize = 32;
/// Length of one v1 record.
pub const RECORD_LENGTH_V1: usize = 72;
/// Length of one current record.
pub const RECORD_LENGTH: usize = 73;
/// Physical byte ceiling for the aggregate file.
pub const MAX_FILE_LENGTH: usize = HEADER_LENGTH + MAX_HOSTILE_MOBS * RECORD_LENGTH;
/// The only dimension hostile mobs live in.
pub const OVERWORLD: i32 = 0;
/// Full health of a hostile mob.
pub const MAX_HEALTH: u8 = 20;
/// Period of the attack, hurt and burn cooldowns.
pub const COOLDOWN_PERIOD_TICKS: u8 = 20;
/// Longest time a mob may stay far from every player.
pub const MAX_DISTANT_TICKS: u16 = 600;

/// One persisted hostile mob. Path and planning generation are deliberately
/// absent: they are runtime-derived and re-planned on the first tick.
/// Positions, velocities and the yaw are binary32 bit patterns.
#[derive(Clone, Copy, Debug, PartialEq)]
pub struct HostileMob {
    pub id: u64,
    pub dimension: i32,
    pub position: [u32; 3],
    pub velocity: [u32; 3],
    pub on_ground: bool,
    pub yaw: u32,
    pub health: u8,
    pub attack_cooldown: u8,
    pub hurt_cooldown: u8,
    pub burn_cooldown: u8,
    pub has_target: bool,
    pub player_id: PlayerId,
    pub next_repath_ticks: u64,
    pub distant_ticks: u16,
    /// `0` is a nightcrawler, `1` a bone thrower; v1 records always read as `0`.
    pub kind: u8,
}

/// A decoded hostile-mob aggregate.
#[derive(Clone, Debug, PartialEq)]
pub struct HostileMobs {
    pub revision: u64,
    pub records: Vec<HostileMob>,
}

/// A hostile-mob aggregate save request. Record order is irrelevant; the
/// encoder always emits canonical ascending-ID order.
#[derive(Clone, Debug, PartialEq)]
pub struct HostileMobsSave {
    pub revision: u64,
    pub records: Vec<HostileMob>,
}

/// The file magic `MHST`.
pub open spec fn magic() -> Seq<u8> {
    seq![0x4Du8, 0x48u8, 0x53u8, 0x54u8]
}

/// A record the codec accepts: a live overworld mob with finite motion inside
/// the world's build height, cooldowns within their period, a known kind, and
/// a valid target identity exactly when it has a target.
pub open spec fn record_ok(r: HostileMob) -> bool {
    &&& r.id != 0
    &&& r.dimension == OVERWORLD
    &&& f32_finite(r.position@[0]) && f32_finite(r.position@[1]) && f32_finite(r.position@[2])
    &&& y_in_world(r.position@[1])
    &&& f32_finite(r.velocity@[0]) && f32_finite(r.velocity@[1]) && f32_finite(r.velocity@[2])
    &&& f32_finite(r.yaw)
    &&& 1 <= r.health <= MAX_HEALTH
    &&& r.attack_cooldown <= COOLDOWN_PERIOD_TICKS
    &&& r.hurt_cooldown <= COOLDOWN_PERIOD_TICKS
    &&& r.burn_cooldown <= COOLDOWN_PERIOD_TICKS
    &&& r.distant_ticks <= MAX_DISTANT_TICKS
    &&& r.kind <= 1
    &&& if r.has_target {
        spec_id_is_valid(r.player_id.bytes@)
    } else {
        spec_id_is_zero(r.player_id.bytes@)
    }
}

/// No two records share an ID.
pub open spec fn ids_distinct(rs: Seq<HostileMob>) -> bool {
    forall|j: int, k: int| 0 <= j < k < rs.len() ==> rs[j].id != rs[k].id
}

/// A revision and records the encoder accepts.
pub open spec fn records_admitted(revision: u64, rs: Seq<HostileMob>) -> bool {
    &&& revision != 0
    &&& rs.len() <= MAX_HOSTILE_MOBS
    &&& forall|i: int| 0 <= i < rs.len() ==> #[trigger] record_ok(rs[i])
    &&& ids_distinct(rs)
}

/// A save the encoder accepts.
pub open spec fn save_admitted(save: HostileMobsSave) -> bool {
    records_admitted(save.revision, save.records@)
}

/// The sort keys of the records: their IDs.
pub open spec fn id_keys(rs: Seq<HostileMob>) -> Seq<u128> {
    rs.map_values(|r: HostileMob| r.id as u128)
}

/// The records in canonical ascending-ID order.
pub open spec fn canonical(rs: Seq<HostileMob>) -> Seq<HostileMob> {
    ascending_order(id_keys(rs)).map_values(|j: int| rs[j])
}

/// The 73 bytes of one current-schema record.
pub open spec fn record_bytes(r: HostileMob) -> Seq<u8> {
    le64(r.id) + lei32(r.dimension) + le32(r.position@[0]) + le32(r.position@[1]) + le32(
        r.position@[2],
    ) + le32(r.velocity@[0]) + le32(r.velocity@[1]) + le32(r.velocity@[2]) + le_bool(r.on_ground)
        + le32(r.yaw) + le8(r.health) + le8(r.attack_cooldown) + le8(r.hurt_cooldown) + le8(
        r.burn_cooldown,
    ) + le_bool(r.has_target) + r.player_id.bytes@ + le64(r.next_repath_ticks) + le16(
        r.distant_ticks,
    ) + le8(r.kind)
}

/// The records' bytes, in sequence order.
pub open spec fn records_bytes(rs: Seq<HostileMob>) -> Seq<u8>
    decreases rs.len(),
{
    if rs.len() == 0 {
        Seq::empty()
    } else {
        records_bytes(rs.drop_last()) + record_bytes(rs.last())
    }
}

/// Header bytes 8..28, which the checksum covers: schema, revision, count and
/// payload length.
pub open spec fn covered_header(revision: u64, count: nat) -> Seq<u8> {
    le32(CURRENT_SCHEMA) + le64(revision) + le32(count as u32) + le32((count * 73) as u32)
}

/// The complete current-schema file holding `rs` in the given order.
pub open spec fn file_bytes(revision: u64, rs: Seq<HostileMob>) -> Seq<u8> {
    let covered = covered_header(revision, rs.len());
    let payload = records_bytes(rs);
    magic() + le32(ENVELOPE_VERSION) + covered + le32(spec_crc32c(covered + payload)) + payload
}

/// The canonical file of a save.
pub open spec fn encoding(save: HostileMobsSave) -> Seq<u8> {
    file_bytes(save.revision, canonical(save.records@))
}

/// The record stored at `pos` in a file of the given schema; a v1 record has
/// no kind byte and reads as a nightcrawler.
pub open spec fn record_at(d: Seq<u8>, pos: int, schema: u32) -> HostileMob {
    HostileMob {
        id: u64_at(d, pos),
        dimension: u32_at(d, pos + 8) as i32,
        position: [u32_at(d, pos + 12), u32_at(d, pos + 16), u32_at(d, pos + 20)],
        velocity: [u32_at(d, pos + 24), u32_at(d, pos + 28), u32_at(d, pos + 32)],
        on_ground: d[pos + 36] == 1,
        yaw: u32_at(d, pos + 37),
        health: d[pos + 41],
        attack_cooldown: d[pos + 42],
        hurt_cooldown: d[pos + 43],
        burn_cooldown: d[pos + 44],
        has_target: d[pos + 45] == 1,
        player_id: id_at(d, pos + 46),
        next_repath_ticks: u64_at(d, pos + 62),
        distant_ticks: u16_at(d, pos + 70),
        kind: if schema == CURRENT_SCHEMA {
            d[pos + 72]
        } else {
            0
        },
    }
}

/// The record at `pos` has flag bytes and valid fields.
pub open spec fn record_well_formed(d: Seq<u8>, pos: int, schema: u32) -> bool {
    &&& d[pos + 36] <= 1
    &&& d[pos + 45] <= 1
    &&& record_ok(record_at(d, pos, schema))
}

/// Length of one record of the given readable schema.
pub open spec fn record_length(schema: u32) -> int {
    if schema == SCHEMA_V1 {
        72
    } else {
        73
    }
}

/// Offset of record `i` in a file of the given schema.
pub open spec fn record_pos(schema: u32, i: int) -> int {
    if schema == SCHEMA_V1 {
        32 + 72 * i
    } else {
        32 + 73 * i
    }
}

/// The record count a file declares.
pub open spec fn declared_count(d: Seq<u8>) -> nat {
    u32_at(d, 20) as nat
}

/// The schema a file declares.
pub open spec fn declared_schema(d: Seq<u8>) -> u32 {
    u32_at(d, 8)
}

/// The decoder accepts `d`.
pub open spec fn file_readable(d: Seq<u8>) -> bool {
    let n = declared_count(d);
    let schema = declared_schema(d);
    &&& HEADER_LENGTH <= d.len() <= MAX_FILE_LENGTH
    &&& d.take(4) == magic()
    &&& u32_at(d, 4) == ENVELOPE_VERSION
    &&& (schema == SCHEMA_V1 || schema == CURRENT_SCHEMA)
    &&& u64_at(d, 12) != 0
    &&& n <= MAX_HOSTILE_MOBS
    &&& u32_at(d, 24) == record_pos(schema, n as int) - 32
    &&& d.len() == record_pos(schema, n as int)
    &&& forall|i: int|
        0 <= i < n ==> #[trigger] record_well_formed(d, record_pos(schema, i), schema)
    &&& forall|i: int|
        0 < i < n ==> record_at(d, record_pos(schema, i - 1), schema).id < #[trigger] record_at(
            d,
            record_pos(schema, i),
            schema,
        ).id
    &&& spec_crc32c(d.subrange(8, 28) + d.skip(32)) == u32_at(d, 28)
}

/// The records of a readable file, in file order.
pub open spec fn file_records(d: Seq<u8>) -> Seq<HostileMob> {
    Seq::new(
        declared_count(d),
        |i: int| record_at(d, record_pos(declared_schema(d), i), declared_schema(d)),
    )
}

/// The decoder rejects `d` as written by a newer format.
pub open spec fn is_future_file(d: Seq<u8>) -> bool {
    &&& 8 <= d.len() <= MAX_FILE_LENGTH
    &&& d.take(4) == magic()
    &&& (u32_at(d, 4) > ENVELOPE_VERSION || (u32_at(d, 4) == ENVELOPE_VERSION && d.len() >= 12
        && u32_at(d, 8) > CURRENT_SCHEMA))
}

proof fn lemma_record_bytes_len(r: HostileMob)
    ensures
        record_bytes(r).len() == RECORD_LENGTH,
{
    lemma_le_facts();
    assert(r.player_id.bytes@.len() == 16);
}

proof fn lemma_records_bytes(rs: Seq<HostileMob>)
    ensures
        records_bytes(rs).len() == 73 * rs.len(),
        forall|i: int|
            0 <= i < rs.len() ==> records_bytes(rs).subrange(73 * i, 73 * i + 73) == record_bytes(
                #[trigger] rs[i],
            ),
    decreases rs.len(),
{
    if rs.len() > 0 {
        let init = rs.drop_last();
        lemma_records_bytes(init);
        lemma_record_bytes_len(rs.last());
        let b = records_bytes(rs);
        assert forall|i: int| 0 <= i < rs.len() implies b.subrange(73 * i, 73 * i + 73)
            == record_bytes(#[trigger] rs[i]) by {
            if i < rs.len() - 1 {
                assert(b.subrange(73 * i, 73 * i + 73) =~= records_bytes(init).subrange(
                    73 * i,
                    73 * i + 73,
                ));
                assert(init[i] == rs[i]);
            } else {
                assert(b.subrange(73 * i, 73 * i + 73) =~= record_bytes(rs.last()));
            }
        }
    }
}

/// Reading the record's own bytes gives the record back.
proof fn lemma_record_at(d: Seq<u8>, pos: int, r: HostileMob)
    requires
        0 <= pos,
        pos + 73 <= d.len(),
        d.subrange(pos, pos + 73) == record_bytes(r),
    ensures
        record_at(d, pos, CURRENT_SCHEMA) == r,
        d[pos + 36] <= 1,
        d[pos + 45] <= 1,
{
    lemma_le_facts();
    let b = record_bytes(r);
    assert(d.subrange(pos, pos + 8) =~= b.subrange(0, 8));
    assert(b.subrange(0, 8) =~= le64(r.id));
    assert(d.subrange(pos + 8, pos + 12) =~= b.subrange(8, 12));
    assert(b.subrange(8, 12) =~= lei32(r.dimension));
    assert(d.subrange(pos + 12, pos + 16) =~= b.subrange(12, 16));
    assert(b.subrange(12, 16) =~= le32(r.position@[0]));
    assert(d.subrange(pos + 16, pos + 20) =~= b.subrange(16, 20));
    assert(b.subrange(16, 20) =~= le32(r.position@[1]));
    assert(d.subrange(pos + 20, pos + 24) =~= b.subrange(20, 24));
    assert(b.subrange(20, 24) =~= le32(r.position@[2]));
    assert(d.subrange(pos + 24, pos + 28) =~= b.subrange(24, 28));
    assert(b.subrange(24, 28) =~= le32(r.velocity@[0]));
    assert(d.subrange(pos + 28, pos + 32) =~= b.subrange(28, 32));
    assert(b.subrange(28, 32) =~= le32(r.velocity@[1]));
    assert(d.subrange(pos + 32, pos + 36) =~= b.subrange(32, 36));
    assert(b.subrange(32, 36) =~= le32(r.velocity@[2]));
    assert(d[pos + 36] == b[36]);
    assert(d.subrange(pos + 37, pos + 41) =~= b.subrange(37, 41));
    assert(b.subrange(37, 41) =~= le32(r.yaw));
    assert(d[pos + 41] == b[41]);
    assert(d[pos + 42] == b[42]);
    assert(d[pos + 43] == b[43]);
    assert(d[pos + 44] == b[44]);
    assert(d[pos + 45] == b[45]);
    assert(d.subrange(pos + 46, pos + 62) =~= b.subrange(46, 62));
    assert(b.subrange(46, 62) =~= r.player_id.bytes@);
    lemma_id_at(d, pos + 46, r.player_id);
    assert(d.subrange(pos + 62, pos + 70) =~= b.subrange(62, 70));
    assert(b.subrange(62, 70) =~= le64(r.next_repath_ticks));
    assert(d.subrange(pos + 70, pos + 72) =~= b.subrange(70, 72));
    assert(b.subrange(70, 72) =~= le16(r.distant_ticks));
    assert(d[pos + 72] == b[72]);
    let got = record_at(d, pos, CURRENT_SCHEMA);
    assert(got.position =~= r.position);
    assert(got.velocity =~= r.velocity);
}

/// A well-formed current-schema record's bytes are exactly the encoding of
/// what it holds.
proof fn lemma_record_bytes_of(d: Seq<u8>, pos: int)
    requires
        0 <= pos,
        pos + 73 <= d.len(),
        d[pos + 36] <= 1,
        d[pos + 45] <= 1,
    ensures
        record_bytes(record_at(d, pos, CURRENT_SCHEMA)) == d.subrange(pos, pos + 73),
{
    lemma_auto_spec_u16_to_from_le_bytes();
    lemma_auto_spec_u32_to_from_le_bytes();
    lemma_auto_spec_u64_to_from_le_bytes();
    let r = record_at(d, pos, CURRENT_SCHEMA);
    let x = u32_at(d, pos + 8);
    assert((x as i32) as u32 == x) by (bit_vector);
    assert(le32(u32_at(d, pos + 8)) == d.subrange(pos + 8, pos + 12));
    assert(le64(u64_at(d, pos)) == d.subrange(pos, pos + 8));
    assert(le32(u32_at(d, pos + 12)) == d.subrange(pos + 12, pos + 16));
    assert(le32(u32_at(d, pos + 16)) == d.subrange(pos + 16, pos + 20));
    assert(le32(u32_at(d, pos + 20)) == d.subrange(pos + 20, pos + 24));
    assert(le32(u32_at(d, pos + 24)) == d.subrange(pos + 24, pos + 28));
    assert(le32(u32_at(d, pos + 28)) == d.subrange(pos + 28, pos + 32));
    assert(le32(u32_at(d, pos + 32)) == d.subrange(pos + 32, pos + 36));
    assert(le32(u32_at(d, pos + 37)) == d.subrange(pos + 37, pos + 41));
    assert(le64(u64_at(d, pos + 62)) == d.subrange(pos + 62, pos + 70));
    assert(le16(u16_at(d, pos + 70)) == d.subrange(pos + 70, pos + 72));
    assert(r.position@[0] == u32_at(d, pos + 12));
    assert(r.position@[1] == u32_at(d, pos + 16));
    assert(r.position@[2] == u32_at(d, pos + 20));
    assert(r.velocity@[0] == u32_at(d, pos + 24));
    assert(r.velocity@[1] == u32_at(d, pos + 28));
    assert(r.velocity@[2] == u32_at(d, pos + 32));
    assert(le_bool(r.on_ground) =~= d.subrange(pos + 36, pos + 37));
    assert(le_bool(r.has_target) =~= d.subrange(pos + 45, pos + 46));
    assert(r.player_id.bytes@ =~= d.subrange(pos + 46, pos + 62));
    assert(record_bytes(r) =~= d.subrange(pos, pos + 73));
}

/// A schema-1 record reads as the mob whose current 73-byte record is the 72
/// stored bytes followed by a zero kind.
proof fn lemma_v1_record(d: Seq<u8>, pos: int)
    requires
        0 <= pos,
        pos + 72 <= d.len(),
        d[pos + 36] <= 1,
        d[pos + 45] <= 1,
    ensures
        record_bytes(record_at(d, pos, SCHEMA_V1)) == d.subrange(pos, pos + 72).push(0u8),
{
    let e = d.subrange(pos, pos + 72).push(0u8);
    assert(e.len() == 73);
    assert(e[36] == d[pos + 36] && e[45] == d[pos + 45]);
    lemma_record_bytes_of(e, 0);
    assert(e.subrange(0, 8) =~= d.subrange(pos, pos + 8));
    assert(e.subrange(8, 12) =~= d.subrange(pos + 8, pos + 12));
    assert(e.subrange(12, 16) =~= d.subrange(pos + 12, pos + 16));
    assert(e.subrange(16, 20) =~= d.subrange(pos + 16, pos + 20));
    assert(e.subrange(20, 24) =~= d.subrange(pos + 20, pos + 24));
    assert(e.subrange(24, 28) =~= d.subrange(pos + 24, pos + 28));
    assert(e.subrange(28, 32) =~= d.subrange(pos + 28, pos + 32));
    assert(e.subrange(32, 36) =~= d.subrange(pos + 32, pos + 36));
    assert(e.subrange(37, 41) =~= d.subrange(pos + 37, pos + 41));
    assert(e.subrange(62, 70) =~= d.subrange(pos + 62, pos + 70));
    assert(e.subrange(70, 72) =~= d.subrange(pos + 70, pos + 72));
    assert(id_at(e, 46) == id_at(d, pos + 46));
    assert(record_at(e, 0, CURRENT_SCHEMA) == record_at(d, pos, SCHEMA_V1));
}

/// A schema-1 file is read as nightcrawlers: every record it holds decodes to
/// a mob of kind 0 whose current record is the 72 bytes stored for it
/// followed by that zero kind, so no stored byte is lost or changed.
pub proof fn lemma_v1_reads_as_nightcrawlers(d: Seq<u8>)
    requires
        file_readable(d),
        declared_schema(d) == SCHEMA_V1,
    ensures
        forall|i: int|
            0 <= i < declared_count(d) ==> (#[trigger] file_records(d)[i]).kind == 0
                && record_bytes(file_records(d)[i]) == d.subrange(32 + 72 * i, 32 + 72 * i + 72).push(
                0u8,
            ),
{
    assert forall|i: int| 0 <= i < declared_count(d) implies (#[trigger] file_records(
        d,
    )[i]).kind == 0 && record_bytes(file_records(d)[i]) == d.subrange(32 + 72 * i, 32 + 72 * i
        + 72).push(0u8) by {
        assert(record_well_formed(d, record_pos(SCHEMA_V1, i), SCHEMA_V1));
        lemma_v1_record(d, 32 + 72 * i);
        lemma_record_bytes_len(file_records(d)[i]);
        assert(record_bytes(file_records(d)[i])[72] == file_records(d)[i].kind);
    }
}

/// Canonical order lists the records by strictly ascending ID, each record
/// once.
pub proof fn lemma_canonical_ascending(rs: Seq<HostileMob>)
    requires
        ids_distinct(rs),
    ensures
        canonical(rs).len() == rs.len(),
        forall|j: int, k: int|
            0 <= j < k < rs.len() ==> canonical(rs)[j].id < canonical(rs)[k].id,
        forall|j: int|
            0 <= j < rs.len() ==> exists|i: int| 0 <= i < rs.len() && #[trigger] canonical(rs)[j]
                == rs[i],
{
    let keys = id_keys(rs);
    assert forall|j: int, k: int| 0 <= j < k < keys.len() implies keys[j] != keys[k] by {
        assert(rs[j].id != rs[k].id);
    }
    lemma_ascending_order_strict(keys);
    let o = ascending_order(keys);
    let c = canonical(rs);
    assert forall|j: int| 0 <= j < rs.len() implies exists|i: int|
        0 <= i < rs.len() && #[trigger] c[j] == rs[i] by {
        assert(c[j] == rs[o[j]]);
    }
    assert forall|j: int, k: int| 0 <= j < k < rs.len() implies c[j].id < c[k].id by {
        assert(keys[o[j]] < keys[o[k]]);
    }
}

/// Round trip: the current-schema file the encoder writes for an accepted save
/// is readable, and decodes to the save's revision and its records in
/// canonical order.
pub proof fn lemma_round_trip(revision: u64, rs: Seq<HostileMob>)
    requires
        records_admitted(revision, rs),
    ensures
        file_readable(file_bytes(revision, canonical(rs))),
        declared_schema(file_bytes(revision, canonical(rs))) == CURRENT_SCHEMA,
        u64_at(file_bytes(revision, canonical(rs)), 12) == revision,
        file_records(file_bytes(revision, canonical(rs))) == canonical(rs),
{
    lemma_le_facts();
    lemma_canonical_ascending(rs);
    let c = canonical(rs);
    let n = c.len();
    let covered = covered_header(revision, n);
    let payload = records_bytes(c);
    lemma_records_bytes(c);
    let f = file_bytes(revision, c);
    assert(f.len() == 32 + 73 * n);
    assert(f.take(4) =~= magic());
    assert(f.subrange(4, 8) =~= le32(ENVELOPE_VERSION));
    assert(f.subrange(8, 12) =~= le32(CURRENT_SCHEMA));
    assert(f.subrange(12, 20) =~= le64(revision));
    assert(f.subrange(20, 24) =~= le32(n as u32));
    assert(f.subrange(24, 28) =~= le32((n * 73) as u32));
    assert(f.subrange(28, 32) =~= le32(spec_crc32c(covered + payload)));
    assert(f.subrange(8, 28) =~= covered);
    assert(f.skip(32) =~= payload);
    assert forall|i: int| 0 <= i < n implies #[trigger] record_at(
        f,
        record_pos(CURRENT_SCHEMA, i),
        CURRENT_SCHEMA,
    ) == c[i] by {
        assert(f.subrange(record_pos(CURRENT_SCHEMA, i), record_pos(CURRENT_SCHEMA, i) + 73)
            =~= payload.subrange(73 * i, 73 * i + 73));
        lemma_record_at(f, record_pos(CURRENT_SCHEMA, i), c[i]);
    }
    assert forall|i: int| 0 <= i < n implies #[trigger] record_well_formed(
        f,
        record_pos(CURRENT_SCHEMA, i),
        CURRENT_SCHEMA,
    ) by {
        assert(f.subrange(record_pos(CURRENT_SCHEMA, i), record_pos(CURRENT_SCHEMA, i) + 73)
            =~= payload.subrange(73 * i, 73 * i + 73));
        lemma_record_at(f, record_pos(CURRENT_SCHEMA, i), c[i]);
        let t = choose|t: int| 0 <= t < rs.len() && c[i] == rs[t];
        assert(record_ok(rs[t]));
    }
    assert forall|i: int| 0 < i < n implies record_at(
        f,
        record_pos(CURRENT_SCHEMA, i - 1),
        CURRENT_SCHEMA,
    ).id < #[trigger] record_at(f, record_pos(CURRENT_SCHEMA, i), CURRENT_SCHEMA).id by {
        assert(record_at(f, record_pos(CURRENT_SCHEMA, i - 1), CURRENT_SCHEMA) == c[i - 1]);
        assert(record_at(f, record_pos(CURRENT_SCHEMA, i), CURRENT_SCHEMA) == c[i]);
    }
    assert(file_records(f) =~= c);
}

proof fn lemma_ids_chain(d: Seq<u8>, j: int, k: int)
    requires
        file_readable(d),
        0 <= j < k < declared_count(d),
    ensures
        file_records(d)[j].id < file_records(d)[k].id,
    decreases k - j,
{
    let s = declared_schema(d);
    assert(record_at(d, record_pos(s, k - 1), s).id < record_at(d, record_pos(s, k), s).id);
    if j < k - 1 {
        lemma_ids_chain(d, j, k - 1);
    }
}

proof fn lemma_prefix_bytes(d: Seq<u8>, m: nat)
    requires
        file_readable(d),
        declared_schema(d) == CURRENT_SCHEMA,
        m <= declared_count(d),
    ensures
        records_bytes(file_records(d).take(m as int)) == d.subrange(32, 32 + 73 * (m as int)),
    decreases m,
{
    let rs = file_records(d);
    if m == 0 {
        assert(rs.take(0) =~= Seq::<HostileMob>::empty());
        assert(d.subrange(32, 32) =~= Seq::<u8>::empty());
    } else {
        let p = (m - 1) as nat;
        lemma_prefix_bytes(d, p);
        let pos = record_pos(CURRENT_SCHEMA, p as int);
        assert(rs.take(m as int).drop_last() =~= rs.take(p as int));
        assert(record_well_formed(d, pos, CURRENT_SCHEMA));
        lemma_record_bytes_of(d, pos);
        assert(d.subrange(32, 32 + 73 * (m as int)) =~= d.subrange(32, 32 + 73 * (p as int))
            + d.subrange(pos, pos + 73));
    }
}

/// Canonical form: every current-schema file the decoder accepts is, byte for
/// byte, the file the encoder writes for the revision and records it decodes
/// to.
pub proof fn lemma_readable_is_canonical(d: Seq<u8>)
    requires
        file_readable(d),
        declared_schema(d) == CURRENT_SCHEMA,
    ensures
        records_admitted(u64_at(d, 12), file_records(d)),
        canonical(file_records(d)) == file_records(d),
        file_bytes(u64_at(d, 12), file_records(d)) == d,
{
    lemma_le_facts();
    lemma_auto_spec_u32_to_from_le_bytes();
    lemma_auto_spec_u64_to_from_le_bytes();
    let n = declared_count(d);
    let rs = file_records(d);
    assert forall|j: int, k: int| 0 <= j < k < rs.len() implies rs[j].id < rs[k].id by {
        lemma_ids_chain(d, j, k);
    }
    assert forall|i: int| 0 <= i < rs.len() implies #[trigger] record_ok(rs[i]) by {
        assert(record_well_formed(d, record_pos(CURRENT_SCHEMA, i), CURRENT_SCHEMA));
    }
    let keys = id_keys(rs);
    assert(strictly_ascending(keys));
    lemma_ascending_order_identity(keys, n);
    assert(canonical(rs) =~= rs);
    lemma_prefix_bytes(d, n);
    assert(rs.take(n as int) =~= rs);
    let covered = covered_header(u64_at(d, 12), n);
    assert(d.subrange(4, 8) =~= le32(ENVELOPE_VERSION));
    assert(d.subrange(8, 12) =~= le32(CURRENT_SCHEMA));
    assert(d.subrange(12, 20) =~= le64(u64_at(d, 12)));
    assert(d.subrange(20, 24) =~= le32(n as u32));
    assert(d.subrange(24, 28) =~= le32((n * 73) as u32));
    assert(d.subrange(28, 32) =~= le32(u32_at(d, 28)));
    assert(d.subrange(8, 28) =~= covered);
    assert(d.skip(32) =~= d.subrange(32, 32 + 73 * (n as int)));
    assert(file_bytes(u64_at(d, 12), rs) =~= d);
}

/// The fault of a cooldown beyond its period.
fn cooldown_fault(cooldown: u8) -> String {
    numbered_text("hostile cooldown ", cooldown as u64, " exceeds period 20")
}

/// Checks one record against the record contract.
fn validate_record(record: &HostileMob) -> (res: Result<(), String>)
    ensures
        res is Ok <==> record_ok(*record),
{
    if record.id == 0 {
        return Err(detail_text("zero hostile ID"));
    }
    if record.dimension != OVERWORLD {
        return Err(signed_text("unsupported hostile dimension ", record.dimension as i64));
    }
    if !(is_finite(record.position[0]) && is_finite(record.position[1]) && is_finite(
        record.position[2],
    )) {
        return Err(detail_text("non-finite hostile position"));
    }
    if !is_in_world(record.position[1]) {
        return Err(detail_text("hostile position Y outside world"));
    }
    if !(is_finite(record.velocity[0]) && is_finite(record.velocity[1]) && is_finite(
        record.velocity[2],
    )) {
        return Err(detail_text("non-finite hostile velocity"));
    }
    if !is_finite(record.yaw) {
        return Err(detail_text("non-finite hostile yaw"));
    }
    if record.health == 0 || record.health > MAX_HEALTH {
        return Err(numbered_text("hostile health ", record.health as u64, " outside 1..20"));
    }
    if record.attack_cooldown > COOLDOWN_PERIOD_TICKS {
        return Err(cooldown_fault(record.attack_cooldown));
    }
    if record.hurt_cooldown > COOLDOWN_PERIOD_TICKS {
        return Err(cooldown_fault(record.hurt_cooldown));
    }
    if record.burn_cooldown > COOLDOWN_PERIOD_TICKS {
        return Err(cooldown_fault(record.burn_cooldown));
    }
    if record.distant_ticks > MAX_DISTANT_TICKS {
        return Err(numbered_text("hostile distant ticks ", record.distant_ticks as u64, " exceeds limit 600"));
    }
    if record.kind > 1 {
        return Err(numbered_text("hostile kind ", record.kind as u64, " outside domain {0,1}"));
    }
    if !record.has_target {
        if !record.player_id.is_zero() {
            return Err(detail_text("hostile without target keeps player ID"));
        }
        return Ok(());
    }
    if !record.player_id.is_valid() {
        return Err(detail_text("hostile target is not a valid UUIDv4"));
    }
    Ok(())
}

/// Validates count and records, then returns the positions of the records in
/// ascending-ID order.
fn prepare_encode_indices(save: &HostileMobsSave) -> (res: StorageResult<Vec<usize>>)
    ensures
        res is Ok <==> save_admitted(*save),
        res matches Ok(order) ==> order@.len() == save.records@.len() && forall|j: int|
            0 <= j < order@.len() ==> order@[j] as int == ascending_order(
                id_keys(save.records@),
            )[j],
        res matches Err(e) ==> e is Corrupt,
{
    let records = &save.records;
    if save.revision == 0 {
        return Err(corrupt("hostile revision", "zero revision"));
    }
    if records.len() > MAX_HOSTILE_MOBS {
        return Err(corrupt_numbered("hostile count", "", records.len() as u64, " exceeds limit 64"));
    }
    let n = records.len();
    let mut i: usize = 0;
    while i < n
        invariant
            n == records@.len(),
            records@ == save.records@,
            i <= n,
            forall|j: int| 0 <= j < i ==> #[trigger] record_ok(records@[j]),
        decreases n - i,
    {
        if let Err(detail) = validate_record(&records[i]) {
            assert(!record_ok(records@[i as int]));
            return Err(corrupt_at("hostile record", i, detail.as_str()));
        }
        i = i + 1;
    }
    let mut j: usize = 0;
    while j < n
        invariant
            n == records@.len(),
            records@ == save.records@,
            j <= n,
            forall|a: int, b: int| 0 <= a < j && a < b < n ==> records@[a].id != records@[b].id,
        decreases n - j,
    {
        let mut k: usize = j + 1;
        while k < n
            invariant
                n == records@.len(),
                records@ == save.records@,
                j < n,
                j < k <= n,
                forall|b: int| j < b < k ==> records@[j as int].id != records@[b].id,
            decreases n - k,
        {
            if records[j].id == records[k].id {
                assert(records@[j as int].id == records@[k as int].id);
                assert(!ids_distinct(records@));
                return Err(corrupt("hostile records", "duplicate hostile ID"));
            }
            k = k + 1;
        }
        j = j + 1;
    }
    let mut keys: Vec<u128> = Vec::new();
    let mut m: usize = 0;
    while m < n
        invariant
            n == records@.len(),
            m <= n,
            keys@ == id_keys(records@).take(m as int),
        decreases n - m,
    {
        keys.push(records[m].id as u128);
        assert(keys@ =~= id_keys(records@).take(m + 1));
        m = m + 1;
    }
    assert(keys@ =~= id_keys(records@));
    Ok(ascending_order_of(&keys))
}

/// Appends the 73 bytes of one record.
fn append_record(w: &mut ByteWriter, r: &HostileMob)
    ensures
        final(w)@ == old(w)@ + record_bytes(*r),
{
    let ghost start = w@;
    w.u64(r.id);
    w.u32(r.dimension as u32);
    w.u32(r.position[0]);
    w.u32(r.position[1]);
    w.u32(r.position[2]);
    w.u32(r.velocity[0]);
    w.u32(r.velocity[1]);
    w.u32(r.velocity[2]);
    w.u8(if r.on_ground { 1 } else { 0 });
    w.u32(r.yaw);
    w.u8(r.health);
    w.u8(r.attack_cooldown);
    w.u8(r.hurt_cooldown);
    w.u8(r.burn_cooldown);
    w.u8(if r.has_target { 1 } else { 0 });
    let id = r.player_id.to_bytes();
    w.bytes(&id);
    w.u64(r.next_repath_ticks);
    w.u16(r.distant_ticks);
    w.u8(r.kind);
    assert(w@ =~= start + record_bytes(*r));
}

/// Builds the file holding the records at the positions `order`, in that order.
#[verifier::rlimit(40)]
fn build_file(revision: u64, records: &Vec<HostileMob>, order: &Vec<usize>) -> (bytes: Vec<u8>)
    requires
        order@.len() <= MAX_HOSTILE_MOBS,
        forall|j: int| 0 <= j < order@.len() ==> order@[j] < records@.len(),
    ensures
        bytes@ == file_bytes(
            revision,
            Seq::new(order@.len(), |j: int| records@[order@[j] as int]),
        ),
{
    let ghost rs = Seq::new(order@.len(), |j: int| records@[order@[j] as int]);
    let n = order.len();
    let mut payload = ByteWriter::new();
    let mut j: usize = 0;
    while j < n
        invariant
            n == order@.len(),
            j <= n,
            rs == Seq::new(order@.len(), |j: int| records@[order@[j] as int]),
            forall|j: int| 0 <= j < order@.len() ==> order@[j] < records@.len(),
            payload@ == records_bytes(rs.take(j as int)),
        decreases n - j,
    {
        append_record(&mut payload, &records[order[j]]);
        assert(rs.take(j + 1).drop_last() =~= rs.take(j as int));
        j = j + 1;
    }
    assert(rs.take(n as int) =~= rs);
    proof {
        lemma_records_bytes(rs);
    }
    let payload = payload.into_vec();
    seal_file(revision, n, payload)
}

/// Puts the header in front of a payload of `count` records.
fn seal_file(revision: u64, count: usize, payload: Vec<u8>) -> (bytes: Vec<u8>)
    requires
        count <= MAX_HOSTILE_MOBS,
    ensures
        bytes@ == magic() + le32(ENVELOPE_VERSION) + covered_header(revision, count as nat) + le32(
            spec_crc32c(covered_header(revision, count as nat) + payload@),
        ) + payload@,
{
    let mut covered = ByteWriter::new();
    covered.u32(CURRENT_SCHEMA);
    covered.u64(revision);
    covered.u32(count as u32);
    covered.u32((count * RECORD_LENGTH) as u32);
    let covered = covered.into_vec();
    assert(covered@ =~= covered_header(revision, count as nat));
    let checksum = crc32c_join2(covered.as_slice(), payload.as_slice());
    let mut w = ByteWriter::new();
    w.u8(0x4D);
    w.u8(0x48);
    w.u8(0x53);
    w.u8(0x54);
    w.u32(ENVELOPE_VERSION);
    w.bytes(covered.as_slice());
    w.u32(checksum);
    w.bytes(payload.as_slice());
    let out = w.into_vec();
    assert(out@ =~= magic() + le32(ENVELOPE_VERSION) + covered_header(revision, count as nat)
        + le32(spec_crc32c(covered_header(revision, count as nat) + payload@)) + payload@);
    out
}

/// Builds the canonical file of an accepted save.
fn build_canonical(save: &HostileMobsSave, order: &Vec<usize>) -> (bytes: Vec<u8>)
    requires
        save_admitted(*save),
        order@.len() == save.records@.len(),
        forall|j: int|
            0 <= j < order@.len() ==> order@[j] as int == ascending_order(
                id_keys(save.records@),
            )[j],
    ensures
        bytes@ == encoding(*save),
{
    proof {
        crate::canonical_order::lemma_order_of(
            id_keys(save.records@),
            save.records@.len(),
        );
    }
    let bytes = build_file(save.revision, &save.records, order);
    assert(Seq::new(order@.len(), |j: int| save.records@[order@[j] as int]) =~= canonical(
        save.records@,
    ));
    bytes
}

/// Reports the exact on-disk byte length for a valid hostile-mob aggregate.
pub fn hostile_mobs_encoded_len(save: &HostileMobsSave) -> (res: StorageResult<usize>)
    ensures
        res is Ok <==> save_admitted(*save),
        res matches Ok(n) ==> n == encoding(*save).len() && n == HEADER_LENGTH + RECORD_LENGTH
            * save.records@.len(),
        res matches Err(e) ==> e is Corrupt,
{
    let order = prepare_encode_indices(save)?;
    proof {
        lemma_le_facts();
        lemma_canonical_ascending(save.records@);
        lemma_records_bytes(canonical(save.records@));
    }
    Ok(HEADER_LENGTH + order.len() * RECORD_LENGTH)
}

/// Writes a complete hostile-mob aggregate into `dst`, preserving any tail
/// beyond the returned length. Validation and capacity checks precede the
/// first write, so failure publishes no bytes.
pub fn encode_hostile_mobs_into(save: &HostileMobsSave, dst: &mut [u8]) -> (res: StorageResult<
    usize,
>)
    ensures
        res is Ok <==> save_admitted(*save) && old(dst)@.len() >= encoding(*save).len(),
        res matches Ok(n) ==> n == encoding(*save).len() && final(dst)@ == encoding(*save) + old(
            dst,
        )@.skip(n as int),
        res is Err ==> final(dst)@ == old(dst)@,
        res matches Err(e) ==> (e is OutputTooSmall <==> save_admitted(*save)),
        res matches Err(StorageError::OutputTooSmall { needed, available }) ==> needed
            == encoding(*save).len() && available == old(dst)@.len(),
        res matches Err(e) ==> !(e is FutureVersion),
{
    let order = prepare_encode_indices(save)?;
    let needed = hostile_mobs_encoded_len(save)?;
    if dst.len() < needed {
        return Err(StorageError::OutputTooSmall { needed, available: dst.len() });
    }
    let bytes = build_canonical(save, &order);
    copy_prefix(dst, bytes.as_slice());
    Ok(needed)
}

/// Encodes a hostile-mob aggregate into its canonical v2 on-disk form.
///
/// The caller's records are never reordered: emission order is canonical
/// ascending ID only.
pub fn encode(save: &HostileMobsSave) -> (res: StorageResult<Vec<u8>>)
    ensures
        res is Ok <==> save_admitted(*save),
        res matches Ok(bytes) ==> bytes@ == encoding(*save),
        res matches Err(e) ==> e is Corrupt,
{
    let order = prepare_encode_indices(save)?;
    Ok(build_canonical(save, &order))
}

/// Reads and checks the record at `pos` of a file of the given schema.
fn decode_record(d: &[u8], pos: usize, schema: u32) -> (res: Result<HostileMob, String>)
    requires
        schema == SCHEMA_V1 || schema == CURRENT_SCHEMA,
        pos + record_length(schema) <= d@.len() <= MAX_FILE_LENGTH,
    ensures
        res is Ok <==> record_well_formed(d@, pos as int, schema),
        res matches Ok(r) ==> r == record_at(d@, pos as int, schema),
{
    let id = read_u64(d, pos);
    let dimension = read_u32(d, pos + 8) as i32;
    let position = [read_u32(d, pos + 12), read_u32(d, pos + 16), read_u32(d, pos + 20)];
    let velocity = [read_u32(d, pos + 24), read_u32(d, pos + 28), read_u32(d, pos + 32)];
    let on_ground = d[pos + 36];
    if on_ground > 1 {
        return Err(numbered_text("hostile onGround ", on_ground as u64, " is not a bool"));
    }
    let yaw = read_u32(d, pos + 37);
    let health = d[pos + 41];
    let attack_cooldown = d[pos + 42];
    let hurt_cooldown = d[pos + 43];
    let burn_cooldown = d[pos + 44];
    let has_target = d[pos + 45];
    if has_target > 1 {
        return Err(numbered_text("hostile hasTarget ", has_target as u64, " is not a bool"));
    }
    let p = pos + 46;
    let player_id = PlayerId::from_bytes(
        [
            d[p],
            d[p + 1],
            d[p + 2],
            d[p + 3],
            d[p + 4],
            d[p + 5],
            d[p + 6],
            d[p + 7],
            d[p + 8],
            d[p + 9],
            d[p + 10],
            d[p + 11],
            d[p + 12],
            d[p + 13],
            d[p + 14],
            d[p + 15],
        ],
    );
    let next_repath_ticks = read_u64(d, pos + 62);
    let distant_ticks = read_u16(d, pos + 70);
    // Only v2 records carry the trailing kind byte; a v1 record ends here and
    // the zero value is exactly the nightcrawler migration.
    let kind = if schema == CURRENT_SCHEMA {
        d[pos + 72]
    } else {
        0
    };
    let record = HostileMob {
        id,
        dimension,
        position,
        velocity,
        on_ground: on_ground == 1,
        yaw,
        health,
        attack_cooldown,
        hurt_cooldown,
        burn_cooldown,
        has_target: has_target == 1,
        player_id,
        next_repath_ticks,
        distant_ticks,
        kind,
    };
    let ghost want = record_at(d@, pos as int, schema);
    assert(record.position =~= want.position);
    assert(record.velocity =~= want.velocity);
    assert(record.player_id.bytes =~= want.player_id.bytes);
    validate_record(&record)?;
    Ok(record)
}

/// Reads the `n` records that follow the header, checking each record and
/// their strictly ascending IDs.
fn decode_records(d: &[u8], n: usize, schema: u32) -> (res: StorageResult<Vec<HostileMob>>)
    requires
        schema == SCHEMA_V1 || schema == CURRENT_SCHEMA,
        n <= MAX_HOSTILE_MOBS,
        d@.len() == record_pos(schema, n as int),
    ensures
        res is Ok <==> (forall|i: int|
            0 <= i < n ==> #[trigger] record_well_formed(d@, record_pos(schema, i), schema)) && (
        forall|i: int|
            0 < i < n ==> record_at(d@, record_pos(schema, i - 1), schema).id < #[trigger] record_at(
                d@,
                record_pos(schema, i),
                schema,
            ).id),
        res matches Ok(v) ==> v@ == Seq::new(
            n as nat,
            |i: int| record_at(d@, record_pos(schema, i), schema),
        ),
        res matches Err(e) ==> e is Corrupt,
{
    let stride: usize = if schema == CURRENT_SCHEMA {
        RECORD_LENGTH
    } else {
        RECORD_LENGTH_V1
    };
    let mut records: Vec<HostileMob> = Vec::new();
    let mut i: usize = 0;
    while i < n
        invariant
            schema == SCHEMA_V1 || schema == CURRENT_SCHEMA,
            stride == record_length(schema),
            n <= MAX_HOSTILE_MOBS,
            d@.len() == record_pos(schema, n as int),
            i <= n,
            records@ == Seq::new(i as nat, |j: int| record_at(d@, record_pos(schema, j), schema)),
            forall|j: int|
                0 <= j < i ==> #[trigger] record_well_formed(d@, record_pos(schema, j), schema),
            forall|j: int|
                0 < j < i ==> record_at(d@, record_pos(schema, j - 1), schema).id
                    < #[trigger] record_at(d@, record_pos(schema, j), schema).id,
        decreases n - i,
    {
        let pos = HEADER_LENGTH + i * stride;
        assert(pos == record_pos(schema, i as int));
        let record = match decode_record(d, pos, schema) {
            Ok(r) => r,
            Err(detail) => {
                assert(!record_well_formed(d@, record_pos(schema, i as int), schema));
                return Err(corrupt_at("hostile record", i, detail.as_str()));
            },
        };
        if i > 0 && records[i - 1].id >= record.id {
            assert(records@[i - 1] == record_at(d@, record_pos(schema, i - 1), schema));
            assert(record == record_at(d@, record_pos(schema, i as int), schema));
            assert(!(record_at(d@, record_pos(schema, i - 1), schema).id < record_at(
                d@,
                record_pos(schema, i as int),
                schema,
            ).id));
            return Err(corrupt("hostile records", "IDs are not strictly sorted"));
        }
        records.push(record);
        assert(records@ =~= Seq::new(
            (i + 1) as nat,
            |j: int| record_at(d@, record_pos(schema, j), schema),
        ));
        i = i + 1;
    }
    Ok(records)
}

/// Decodes a hostile-mob aggregate of schema v1 or v2. File length, count,
/// and payload length are checked before any record is parsed or allocated.
pub fn decode(data: &[u8]) -> (res: StorageResult<HostileMobs>)
    ensures
        res is Ok <==> file_readable(data@),
        res matches Ok(m) ==> m.revision == u64_at(data@, 12) && m.records@ == file_records(
            data@,
        ),
        res matches Err(e) ==> (e is FutureVersion <==> is_future_file(data@)),
        res matches Err(e) ==> (e is Corrupt <==> !is_future_file(data@)),
{
    let d = data;
    if d.len() > MAX_FILE_LENGTH {
        return Err(corrupt_numbered("hostile file length", "", d.len() as u64, " exceeds limit 4704"));
    }
    if d.len() < 4 {
        return Err(short_read("hostile envelope magic", 4, 0, d.len()));
    }
    if !(d[0] == 0x4D && d[1] == 0x48 && d[2] == 0x53 && d[3] == 0x54) {
        assert(d@.take(4) != magic()) by {
            if d@.take(4) == magic() {
                assert(d@[0] == d@.take(4)[0]);
                assert(d@[1] == d@.take(4)[1]);
                assert(d@[2] == d@.take(4)[2]);
                assert(d@[3] == d@.take(4)[3]);
            }
        }
        return Err(corrupt("hostile envelope magic", "unexpected magic"));
    }
    assert(d@.take(4) =~= magic());
    if d.len() < 8 {
        return Err(short_read("hostile envelope version", 4, 4, d.len()));
    }
    let version = read_u32(d, 4);
    if version != ENVELOPE_VERSION {
        if version > ENVELOPE_VERSION {
            return Err(future_version("hostile envelope version", version));
        }
        return Err(corrupt_numbered("hostile envelope version", "unsupported version ", version as u64, ""));
    }
    if d.len() < 12 {
        return Err(short_read("hostile schema", 4, 8, d.len()));
    }
    let schema = read_u32(d, 8);
    let record_length: usize = if schema == SCHEMA_V1 {
        RECORD_LENGTH_V1
    } else if schema == CURRENT_SCHEMA {
        RECORD_LENGTH
    } else {
        if schema > CURRENT_SCHEMA {
            return Err(future_version("hostile schema", schema));
        }
        return Err(corrupt_numbered("hostile schema", "unsupported schema ", schema as u64, ""));
    };
    if d.len() < 20 {
        return Err(short_read("hostile revision", 8, 12, d.len()));
    }
    let revision = read_u64(d, 12);
    if revision == 0 {
        return Err(corrupt("hostile revision", "zero revision"));
    }
    if d.len() < 24 {
        return Err(short_read("hostile count", 4, 20, d.len()));
    }
    let count = read_u32(d, 20);
    if count as usize > MAX_HOSTILE_MOBS {
        return Err(corrupt_numbered("hostile count", "", count as u64, " exceeds limit 64"));
    }
    if d.len() < 28 {
        return Err(short_read("hostile payload length", 4, 24, d.len()));
    }
    let payload_length = read_u32(d, 24);
    assert(record_length <= RECORD_LENGTH && count <= MAX_HOSTILE_MOBS);
    if payload_length as usize != count as usize * record_length {
        return Err(corrupt("hostile payload length", "does not match count"));
    }
    if d.len() < HEADER_LENGTH {
        return Err(short_read("hostile CRC32C", 4, 28, d.len()));
    }
    let want_crc = read_u32(d, 28);
    if d.len() - HEADER_LENGTH != payload_length as usize {
        return Err(corrupt("hostile payload length", "does not match file"));
    }
    let records = decode_records(d, count as usize, schema)?;
    assert(records@ =~= file_records(d@));
    let checksum = crc32c_join2(slice_subrange(d, 8, 28), slice_subrange(d, HEADER_LENGTH, d.len()));
    assert(d@.subrange(32, d@.len() as int) =~= d@.skip(32));
    if checksum != want_crc {
        return Err(corrupt("hostile CRC32C", "checksum mismatch"));
    }
    Ok(HostileMobs { revision, records })
}

} // verus!
