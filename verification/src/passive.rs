//! `save.passive`: the passive-mob aggregate save (`passive_mobs.bin`).
//!
//! A fixed 32-byte header is followed by fixed-stride 72-byte records, so any
//! length mismatch is corruption rather than a layout variant. Records are
//! written in strictly ascending ID order and the CRC-32C covers the header
//! fields after the envelope version plus the payload, never the magic, the
//! version or the checksum bytes themselves.
use crate::bytes::{
    ByteWriter, copy_prefix, is_zero, le32, le64, le8, le_bool, lei32, lemma_le_facts, read_u32,
    read_u64, u32_at, u64_at,
};
use crate::canonical_order::{
    ascending_order, ascending_order_of, lemma_ascending_order_identity,
    lemma_ascending_order_strict, strictly_ascending,
};
use crate::crc32c::{crc32c_join2, spec_crc32c};
use crate::error::{StorageError, StorageResult, corrupt, corrupt_at, future_version, corrupt_numbered, short_read, detail_text, numbered_text, signed_text};
use crate::float_bits::{f32_finite, is_finite, is_in_world, y_in_world};
use vstd::bytes::*;
use vstd::prelude::*;
use vstd::slice::slice_subrange;

verus! {

broadcast use {
    vstd::seq::group_seq_axioms,
    vstd::slice::group_slice_axioms,
    vstd::array::group_array_axioms,
};

/// Maximum number of records one passive-mob save may hold.
pub const MAX_PASSIVE_MOBS: usize = 32;
/// Envelope version written by the current encoder.
pub const ENVELOPE_VERSION: u32 = 1;
/// Schema written by the current encoder.
pub const CURRENT_SCHEMA: u32 = 1;
/// Length of the fixed header.
pub const HEADER_LENGTH: usize = 32;
/// Length of one record.
pub const RECORD_LENGTH: usize = 72;
/// Zero bytes closing each record.
pub const RESERVED_LENGTH: usize = 30;
/// Physical byte ceiling for the aggregate file.
pub const MAX_FILE_LENGTH: usize = HEADER_LENGTH + MAX_PASSIVE_MOBS * RECORD_LENGTH;
/// The only dimension passive mobs live in.
pub const OVERWORLD: i32 = 0;
/// Full health of a passive mob.
pub const MAX_HEALTH: u8 = 20;

/// One persisted passive mob. Runtime-derived facts (flee timer, birth chunk,
/// newborn flag) are deliberately absent: they are re-derived on restore.
/// Positions, velocities and the yaw are binary32 bit patterns.
#[derive(Clone, Copy, Debug, PartialEq)]
pub struct PassiveMob {
    pub id: u64,
    pub dimension: i32,
    pub position: [u32; 3],
    pub velocity: [u32; 3],
    pub on_ground: bool,
    pub yaw: u32,
    pub health: u8,
}

/// A decoded passive-mob aggregate.
#[derive(Clone, Debug, PartialEq)]
pub struct PassiveMobs {
    pub revision: u64,
    pub records: Vec<PassiveMob>,
}

/// A passive-mob aggregate save request. Record order is irrelevant; the
/// encoder always emits canonical ascending-ID order.
#[derive(Clone, Debug, PartialEq)]
pub struct PassiveMobsSave {
    pub revision: u64,
    pub records: Vec<PassiveMob>,
}

/// The file magic `PMST`.
pub open spec fn magic() -> Seq<u8> {
    seq![0x50u8, 0x4Du8, 0x53u8, 0x54u8]
}

/// A record the codec accepts: a live overworld mob with finite motion inside
/// the world's build height.
pub open spec fn record_ok(r: PassiveMob) -> bool {
    &&& r.id != 0
    &&& r.dimension == OVERWORLD
    &&& f32_finite(r.position@[0]) && f32_finite(r.position@[1]) && f32_finite(r.position@[2])
    &&& y_in_world(r.position@[1])
    &&& f32_finite(r.velocity@[0]) && f32_finite(r.velocity@[1]) && f32_finite(r.velocity@[2])
    &&& f32_finite(r.yaw)
    &&& 1 <= r.health <= MAX_HEALTH
}

/// No two records share an ID.
pub open spec fn ids_distinct(rs: Seq<PassiveMob>) -> bool {
    forall|j: int, k: int| 0 <= j < k < rs.len() ==> rs[j].id != rs[k].id
}

/// A revision and records the encoder accepts.
pub open spec fn records_admitted(revision: u64, rs: Seq<PassiveMob>) -> bool {
    &&& revision != 0
    &&& rs.len() <= MAX_PASSIVE_MOBS
    &&& forall|i: int| 0 <= i < rs.len() ==> #[trigger] record_ok(rs[i])
    &&& ids_distinct(rs)
}

/// A save the encoder accepts.
pub open spec fn save_admitted(save: PassiveMobsSave) -> bool {
    records_admitted(save.revision, save.records@)
}

/// The sort keys of the records: their IDs.
pub open spec fn id_keys(rs: Seq<PassiveMob>) -> Seq<u128> {
    rs.map_values(|r: PassiveMob| r.id as u128)
}

/// The records in canonical ascending-ID order.
pub open spec fn canonical(rs: Seq<PassiveMob>) -> Seq<PassiveMob> {
    ascending_order(id_keys(rs)).map_values(|j: int| rs[j])
}

/// `n` zero bytes.
pub open spec fn zeros(n: nat) -> Seq<u8> {
    Seq::new(n, |i: int| 0u8)
}

/// The 72 bytes of one record.
pub open spec fn record_bytes(r: PassiveMob) -> Seq<u8> {
    le64(r.id) + lei32(r.dimension) + le32(r.position@[0]) + le32(r.position@[1]) + le32(
        r.position@[2],
    ) + le32(r.velocity@[0]) + le32(r.velocity@[1]) + le32(r.velocity@[2]) + le_bool(r.on_ground)
        + le32(r.yaw) + le8(r.health) + zeros(RESERVED_LENGTH as nat)
}

/// The records' bytes, in sequence order.
pub open spec fn records_bytes(rs: Seq<PassiveMob>) -> Seq<u8>
    decreases rs.len(),
{
    if rs.len() == 0 {
        Seq::empty()
    } else {
        records_bytes(rs.drop_last()) + record_bytes(rs.last())
    }
}

/// Header bytes 8..28, which the checksum covers: schema, revision, count and
/// payload length.
pub open spec fn covered_header(revision: u64, count: nat) -> Seq<u8> {
    le32(CURRENT_SCHEMA) + le64(revision) + le32(count as u32) + le32((count * 72) as u32)
}

/// The complete file holding `rs` in the given order.
pub open spec fn file_bytes(revision: u64, rs: Seq<PassiveMob>) -> Seq<u8> {
    let covered = covered_header(revision, rs.len());
    let payload = records_bytes(rs);
    magic() + le32(ENVELOPE_VERSION) + covered + le32(spec_crc32c(covered + payload)) + payload
}

/// The canonical file of a save.
pub open spec fn encoding(save: PassiveMobsSave) -> Seq<u8> {
    file_bytes(save.revision, canonical(save.records@))
}

/// The record stored at `pos`.
pub open spec fn record_at(d: Seq<u8>, pos: int) -> PassiveMob {
    PassiveMob {
        id: u64_at(d, pos),
        dimension: u32_at(d, pos + 8) as i32,
        position: [u32_at(d, pos + 12), u32_at(d, pos + 16), u32_at(d, pos + 20)],
        velocity: [u32_at(d, pos + 24), u32_at(d, pos + 28), u32_at(d, pos + 32)],
        on_ground: d[pos + 36] == 1,
        yaw: u32_at(d, pos + 37),
        health: d[pos + 41],
    }
}

/// The record at `pos` has a flag byte, zero reserved bytes and valid fields.
pub open spec fn record_well_formed(d: Seq<u8>, pos: int) -> bool {
    &&& d[pos + 36] <= 1
    &&& forall|k: int| 42 <= k < 72 ==> #[trigger] d[pos + k] == 0
    &&& record_ok(record_at(d, pos))
}

/// Offset of record `i`.
pub open spec fn record_pos(i: int) -> int {
    32 + 72 * i
}

/// The record count a file declares.
pub open spec fn declared_count(d: Seq<u8>) -> nat {
    u32_at(d, 20) as nat
}

/// The decoder accepts `d`.
pub open spec fn file_readable(d: Seq<u8>) -> bool {
    let n = declared_count(d);
    &&& HEADER_LENGTH <= d.len() <= MAX_FILE_LENGTH
    &&& d.take(4) == magic()
    &&& u32_at(d, 4) == ENVELOPE_VERSION
    &&& u32_at(d, 8) == CURRENT_SCHEMA
    &&& u64_at(d, 12) != 0
    &&& n <= MAX_PASSIVE_MOBS
    &&& u32_at(d, 24) == n * 72
    &&& d.len() == 32 + n * 72
    &&& forall|i: int| 0 <= i < n ==> #[trigger] record_well_formed(d, record_pos(i))
    &&& forall|i: int|
        0 < i < n ==> record_at(d, record_pos(i - 1)).id < #[trigger] record_at(
            d,
            record_pos(i),
        ).id
    &&& spec_crc32c(d.subrange(8, 28) + d.skip(32)) == u32_at(d, 28)
}

/// The records of a readable file, in file order.
pub open spec fn file_records(d: Seq<u8>) -> Seq<PassiveMob> {
    Seq::new(declared_count(d), |i: int| record_at(d, record_pos(i)))
}

/// The decoder rejects `d` as written by a newer format.
pub open spec fn is_future_file(d: Seq<u8>) -> bool {
    &&& 8 <= d.len() <= MAX_FILE_LENGTH
    &&& d.take(4) == magic()
    &&& (u32_at(d, 4) > ENVELOPE_VERSION || (u32_at(d, 4) == ENVELOPE_VERSION && d.len() >= 12
        && u32_at(d, 8) > CURRENT_SCHEMA))
}

proof fn lemma_record_bytes_len(r: PassiveMob)
    ensures
        record_bytes(r).len() == RECORD_LENGTH,
{
    lemma_le_facts();
}

proof fn lemma_records_bytes(rs: Seq<PassiveMob>)
    ensures
        records_bytes(rs).len() == 72 * rs.len(),
        forall|i: int|
            0 <= i < rs.len() ==> records_bytes(rs).subrange(72 * i, 72 * i + 72) == record_bytes(
                #[trigger] rs[i],
            ),
    decreases rs.len(),
{
    if rs.len() > 0 {
        let init = rs.drop_last();
        lemma_records_bytes(init);
        lemma_record_bytes_len(rs.last());
        let b = records_bytes(rs);
        assert forall|i: int| 0 <= i < rs.len() implies b.subrange(72 * i, 72 * i + 72)
            == record_bytes(#[trigger] rs[i]) by {
            if i < rs.len() - 1 {
                assert(b.subrange(72 * i, 72 * i + 72) =~= records_bytes(init).subrange(
                    72 * i,
                    72 * i + 72,
                ));
                assert(init[i] == rs[i]);
            } else {
                assert(b.subrange(72 * i, 72 * i + 72) =~= record_bytes(rs.last()));
            }
        }
    }
}

/// Reading the record's own bytes gives the record back.
proof fn lemma_record_at(d: Seq<u8>, pos: int, r: PassiveMob)
    requires
        0 <= pos,
        pos + 72 <= d.len(),
        d.subrange(pos, pos + 72) == record_bytes(r),
    ensures
        record_at(d, pos) == r,
        d[pos + 36] <= 1,
        forall|k: int| 42 <= k < 72 ==> #[trigger] d[pos + k] == 0,
{
    lemma_le_facts();
    let b = record_bytes(r);
    assert(d.subrange(pos, pos + 8) =~= b.subrange(0, 8));
    assert(b.subrange(0, 8) =~= le64(r.id));
    assert(d.subrange(pos + 8, pos + 12) =~= b.subrange(8, 12));
    assert(b.subrange(8, 12) =~= lei32(r.dimension));
    assert(d.subrange(pos + 12, pos + 16) =~= b.subrange(12, 16));
    assert(b.subrange(12, 16) =~= le32(r.position@[0]));
    assert(d.subrange(pos + 16, pos + 20) =~= b.subrange(16, 20));
    assert(b.subrange(16, 20) =~= le32(r.position@[1]));
    assert(d.subrange(pos + 20, pos + 24) =~= b.subrange(20, 24));
    assert(b.subrange(20, 24) =~= le32(r.position@[2]));
    assert(d.subrange(pos + 24, pos + 28) =~= b.subrange(24, 28));
    assert(b.subrange(24, 28) =~= le32(r.velocity@[0]));
    assert(d.subrange(pos + 28, pos + 32) =~= b.subrange(28, 32));
    assert(b.subrange(28, 32) =~= le32(r.velocity@[1]));
    assert(d.subrange(pos + 32, pos + 36) =~= b.subrange(32, 36));
    assert(b.subrange(32, 36) =~= le32(r.velocity@[2]));
    assert(d[pos + 36] == b[36]);
    assert(d.subrange(pos + 37, pos + 41) =~= b.subrange(37, 41));
    assert(b.subrange(37, 41) =~= le32(r.yaw));
    assert(d[pos + 41] == b[41]);
    assert forall|k: int| 42 <= k < 72 implies #[trigger] d[pos + k] == 0 by {
        assert(d[pos + k] == b[k]);
    }
    let got = record_at(d, pos);
    assert(got.position =~= r.position);
    assert(got.velocity =~= r.velocity);
}

/// A well-formed record's bytes are exactly the encoding of what it holds.
proof fn lemma_record_bytes_of(d: Seq<u8>, pos: int)
    requires
        0 <= pos,
        pos + 72 <= d.len(),
        d[pos + 36] <= 1,
        forall|k: int| 42 <= k < 72 ==> #[trigger] d[pos + k] == 0,
    ensures
        record_bytes(record_at(d, pos)) == d.subrange(pos, pos + 72),
{
    lemma_auto_spec_u32_to_from_le_bytes();
    lemma_auto_spec_u64_to_from_le_bytes();
    let r = record_at(d, pos);
    let x = u32_at(d, pos + 8);
    assert((x as i32) as u32 == x) by (bit_vector);
    assert(le32(u32_at(d, pos + 8)) == d.subrange(pos + 8, pos + 12));
    assert(le64(u64_at(d, pos)) == d.subrange(pos, pos + 8));
    assert(le32(u32_at(d, pos + 12)) == d.subrange(pos + 12, pos + 16));
    assert(le32(u32_at(d, pos + 16)) == d.subrange(pos + 16, pos + 20));
    assert(le32(u32_at(d, pos + 20)) == d.subrange(pos + 20, pos + 24));
    assert(le32(u32_at(d, pos + 24)) == d.subrange(pos + 24, pos + 28));
    assert(le32(u32_at(d, pos + 28)) == d.subrange(pos + 28, pos + 32));
    assert(le32(u32_at(d, pos + 32)) == d.subrange(pos + 32, pos + 36));
    assert(le32(u32_at(d, pos + 37)) == d.subrange(pos + 37, pos + 41));
    assert(r.position@[0] == u32_at(d, pos + 12));
    assert(r.position@[1] == u32_at(d, pos + 16));
    assert(r.position@[2] == u32_at(d, pos + 20));
    assert(r.velocity@[0] == u32_at(d, pos + 24));
    assert(r.velocity@[1] == u32_at(d, pos + 28));
    assert(r.velocity@[2] == u32_at(d, pos + 32));
    assert(le_bool(r.on_ground) =~= d.subrange(pos + 36, pos + 37));
    assert forall|i: int| 0 <= i < 30 implies #[trigger] d.subrange(pos + 42, pos + 72)[i] == 0 by {
        assert(d[pos + (42 + i)] == 0);
    }
    assert(zeros(RESERVED_LENGTH as nat) =~= d.subrange(pos + 42, pos + 72));
    assert(record_bytes(r) =~= d.subrange(pos, pos + 72));
}

/// Canonical order lists the records by strictly ascending ID, each record
/// once.
pub proof fn lemma_canonical_ascending(rs: Seq<PassiveMob>)
    requires
        ids_distinct(rs),
    ensures
        canonical(rs).len() == rs.len(),
        forall|j: int, k: int|
            0 <= j < k < rs.len() ==> canonical(rs)[j].id < canonical(rs)[k].id,
        forall|j: int|
            0 <= j < rs.len() ==> exists|i: int| 0 <= i < rs.len() && #[trigger] canonical(rs)[j]
                == rs[i],
{
    let keys = id_keys(rs);
    assert forall|j: int, k: int| 0 <= j < k < keys.len() implies keys[j] != keys[k] by {
        assert(rs[j].id != rs[k].id);
    }
    lemma_ascending_order_strict(keys);
    let o = ascending_order(keys);
    let c = canonical(rs);
    assert forall|j: int| 0 <= j < rs.len() implies exists|i: int|
        0 <= i < rs.len() && #[trigger] c[j] == rs[i] by {
        assert(c[j] == rs[o[j]]);
    }
    assert forall|j: int, k: int| 0 <= j < k < rs.len() implies c[j].id < c[k].id by {
        assert(keys[o[j]] < keys[o[k]]);
    }
}

/// Round trip: the file the encoder writes for an accepted save is readable,
/// and decodes to the save's revision and its records in canonical order.
pub proof fn lemma_round_trip(revision: u64, rs: Seq<PassiveMob>)
    requires
        records_admitted(revision, rs),
    ensures
        file_readable(file_bytes(revision, canonical(rs))),
        u64_at(file_bytes(revision, canonical(rs)), 12) == revision,
        file_records(file_bytes(revision, canonical(rs))) == canonical(rs),
{
    lemma_le_facts();
    lemma_canonical_ascending(rs);
    let c = canonical(rs);
    let n = c.len();
    let covered = covered_header(revision, n);
    let payload = records_bytes(c);
    lemma_records_bytes(c);
    let f = file_bytes(revision, c);
    assert(f.len() == 32 + 72 * n);
    assert(f.take(4) =~= magic());
    assert(f.subrange(4, 8) =~= le32(ENVELOPE_VERSION));
    assert(f.subrange(8, 12) =~= le32(CURRENT_SCHEMA));
    assert(f.subrange(12, 20) =~= le64(revision));
    assert(f.subrange(20, 24) =~= le32(n as u32));
    assert(f.subrange(24, 28) =~= le32((n * 72) as u32));
    assert(f.subrange(28, 32) =~= le32(spec_crc32c(covered + payload)));
    assert(f.subrange(8, 28) =~= covered);
    assert(f.skip(32) =~= payload);
    assert forall|i: int| 0 <= i < n implies #[trigger] record_at(f, record_pos(i)) == c[i] by {
        assert(f.subrange(record_pos(i), record_pos(i) + 72) =~= payload.subrange(
            72 * i,
            72 * i + 72,
        ));
        lemma_record_at(f, record_pos(i), c[i]);
    }
    assert forall|i: int| 0 <= i < n implies #[trigger] record_well_formed(f, record_pos(i)) by {
        assert(f.subrange(record_pos(i), record_pos(i) + 72) =~= payload.subrange(
            72 * i,
            72 * i + 72,
        ));
        lemma_record_at(f, record_pos(i), c[i]);
        let t = choose|t: int| 0 <= t < rs.len() && c[i] == rs[t];
        assert(record_ok(rs[t]));
    }
    assert forall|i: int| 0 < i < n implies record_at(f, record_pos(i - 1)).id < #[trigger] record_at(
        f,
        record_pos(i),
    ).id by {
        assert(record_at(f, record_pos(i - 1)) == c[i - 1]);
        assert(record_at(f, record_pos(i)) == c[i]);
    }
    assert(file_records(f) =~= c);
}

proof fn lemma_ids_chain(d: Seq<u8>, j: int, k: int)
    requires
        file_readable(d),
        0 <= j < k < declared_count(d),
    ensures
        file_records(d)[j].id < file_records(d)[k].id,
    decreases k - j,
{
    assert(record_at(d, record_pos(k - 1)).id < record_at(d, record_pos(k)).id);
    if j < k - 1 {
        lemma_ids_chain(d, j, k - 1);
    }
}

proof fn lemma_prefix_bytes(d: Seq<u8>, m: nat)
    requires
        file_readable(d),
        m <= declared_count(d),
    ensures
        records_bytes(file_records(d).take(m as int)) == d.subrange(32, 32 + 72 * (m as int)),
    decreases m,
{
    let rs = file_records(d);
    if m == 0 {
        assert(rs.take(0) =~= Seq::<PassiveMob>::empty());
        assert(d.subrange(32, 32) =~= Seq::<u8>::empty());
    } else {
        let p = (m - 1) as nat;
        lemma_prefix_bytes(d, p);
        assert(rs.take(m as int).drop_last() =~= rs.take(p as int));
        assert(record_well_formed(d, record_pos(p as int)));
        lemma_record_bytes_of(d, record_pos(p as int));
        assert(d.subrange(32, 32 + 72 * (m as int)) =~= d.subrange(32, 32 + 72 * (p as int)) + d.subrange(
            record_pos(p as int),
            record_pos(p as int) + 72,
        ));
    }
}

/// Canonical form: every file the decoder accepts is, byte for byte, the file
/// the encoder writes for the revision and records it decodes to.
pub proof fn lemma_readable_is_canonical(d: Seq<u8>)
    requires
        file_readable(d),
    ensures
        records_admitted(u64_at(d, 12), file_records(d)),
        canonical(file_records(d)) == file_records(d),
        file_bytes(u64_at(d, 12), file_records(d)) == d,
{
    lemma_le_facts();
    lemma_auto_spec_u32_to_from_le_bytes();
    lemma_auto_spec_u64_to_from_le_bytes();
    let n = declared_count(d);
    let rs = file_records(d);
    assert forall|j: int, k: int| 0 <= j < k < rs.len() implies rs[j].id < rs[k].id by {
        lemma_ids_chain(d, j, k);
    }
    assert forall|i: int| 0 <= i < rs.len() implies #[trigger] record_ok(rs[i]) by {
        assert(record_well_formed(d, record_pos(i)));
    }
    let keys = id_keys(rs);
    assert(strictly_ascending(keys));
    lemma_ascending_order_identity(keys, n);
    assert(canonical(rs) =~= rs);
    lemma_prefix_bytes(d, n);
    assert(rs.take(n as int) =~= rs);
    let covered = covered_header(u64_at(d, 12), n);
    assert(d.subrange(4, 8) =~= le32(ENVELOPE_VERSION));
    assert(d.subrange(8, 12) =~= le32(CURRENT_SCHEMA));
    assert(d.subrange(12, 20) =~= le64(u64_at(d, 12)));
    assert(d.subrange(20, 24) =~= le32(n as u32));
    assert(d.subrange(24, 28) =~= le32((n * 72) as u32));
    assert(d.subrange(28, 32) =~= le32(u32_at(d, 28)));
    assert(d.subrange(8, 28) =~= covered);
    assert(d.skip(32) =~= d.subrange(32, 32 + 72 * (n as int)));
    assert(file_bytes(u64_at(d, 12), rs) =~= d);
}


/// Checks one record against the record contract.
fn validate_record(record: &PassiveMob) -> (res: Result<(), String>)
    ensures
        res is Ok <==> record_ok(*record),
{
    if record.id == 0 {
        return Err(detail_text("zero passive ID"));
    }
    if record.dimension != OVERWORLD {
        return Err(signed_text("unsupported passive dimension ", record.dimension as i64));
    }
    if !(is_finite(record.position[0]) && is_finite(record.position[1]) && is_finite(
        record.position[2],
    )) {
        return Err(detail_text("non-finite passive position"));
    }
    if !is_in_world(record.position[1]) {
        return Err(detail_text("passive position Y outside world"));
    }
    if !(is_finite(record.velocity[0]) && is_finite(record.velocity[1]) && is_finite(
        record.velocity[2],
    )) {
        return Err(detail_text("non-finite passive velocity"));
    }
    if !is_finite(record.yaw) {
        return Err(detail_text("non-finite passive yaw"));
    }
    if record.health == 0 || record.health > MAX_HEALTH {
        return Err(numbered_text("passive health ", record.health as u64, " outside 1..20"));
    }
    Ok(())
}

/// Validates count and records, then returns the positions of the records in
/// ascending-ID order.
fn prepare_encode_indices(save: &PassiveMobsSave) -> (res: StorageResult<Vec<usize>>)
    ensures
        res is Ok <==> save_admitted(*save),
        res matches Ok(order) ==> order@.len() == save.records@.len() && forall|j: int|
            0 <= j < order@.len() ==> order@[j] as int == ascending_order(
                id_keys(save.records@),
            )[j],
        res matches Err(e) ==> e is Corrupt,
{
    let records = &save.records;
    if save.revision == 0 {
        return Err(corrupt("passive revision", "zero revision"));
    }
    if records.len() > MAX_PASSIVE_MOBS {
        return Err(corrupt_numbered("passive count", "", records.len() as u64, " exceeds limit 32"));
    }
    let n = records.len();
    let mut i: usize = 0;
    while i < n
        invariant
            n == records@.len(),
            records@ == save.records@,
            i <= n,
            forall|j: int| 0 <= j < i ==> #[trigger] record_ok(records@[j]),
        decreases n - i,
    {
        if let Err(detail) = validate_record(&records[i]) {
            assert(!record_ok(records@[i as int]));
            return Err(corrupt_at("passive record", i, detail.as_str()));
        }
        i = i + 1;
    }
    let mut j: usize = 0;
    while j < n
        invariant
            n == records@.len(),
            records@ == save.records@,
            j <= n,
            forall|a: int, b: int| 0 <= a < j && a < b < n ==> records@[a].id != records@[b].id,
        decreases n - j,
    {
        let mut k: usize = j + 1;
        while k < n
            invariant
                n == records@.len(),
                records@ == save.records@,
                j < n,
                j < k <= n,
                forall|b: int| j < b < k ==> records@[j as int].id != records@[b].id,
            decreases n - k,
        {
            if records[j].id == records[k].id {
                assert(records@[j as int].id == records@[k as int].id);
                assert(!ids_distinct(records@));
                return Err(corrupt("passive records", "duplicate passive ID"));
            }
            k = k + 1;
        }
        j = j + 1;
    }
    let mut keys: Vec<u128> = Vec::new();
    let mut m: usize = 0;
    while m < n
        invariant
            n == records@.len(),
            m <= n,
            keys@ == id_keys(records@).take(m as int),
        decreases n - m,
    {
        keys.push(records[m].id as u128);
        assert(keys@ =~= id_keys(records@).take(m + 1));
        m = m + 1;
    }
    assert(keys@ =~= id_keys(records@));
    Ok(ascending_order_of(&keys))
}

/// Appends the 72 bytes of one record.
fn append_record(w: &mut ByteWriter, r: &PassiveMob)
    ensures
        final(w)@ == old(w)@ + record_bytes(*r),
{
    let ghost start = w@;
    w.u64(r.id);
    w.u32(r.dimension as u32);
    w.u32(r.position[0]);
    w.u32(r.position[1]);
    w.u32(r.position[2]);
    w.u32(r.velocity[0]);
    w.u32(r.velocity[1]);
    w.u32(r.velocity[2]);
    w.u8(if r.on_ground { 1 } else { 0 });
    w.u32(r.yaw);
    w.u8(r.health);
    let mut k: usize = 0;
    while k < RESERVED_LENGTH
        invariant
            k <= RESERVED_LENGTH,
            w@ == start + le64(r.id) + lei32(r.dimension) + le32(r.position@[0]) + le32(
                r.position@[1],
            ) + le32(r.position@[2]) + le32(r.velocity@[0]) + le32(r.velocity@[1]) + le32(
                r.velocity@[2],
            ) + le_bool(r.on_ground) + le32(r.yaw) + le8(r.health) + zeros(k as nat),
        decreases RESERVED_LENGTH - k,
    {
        w.u8(0);
        k = k + 1;
    }
    assert(w@ =~= start + record_bytes(*r));
}

/// Builds the file holding the records at the positions `order`, in that order.
#[verifier::rlimit(40)]
fn build_file(revision: u64, records: &Vec<PassiveMob>, order: &Vec<usize>) -> (bytes: Vec<u8>)
    requires
        order@.len() <= MAX_PASSIVE_MOBS,
        forall|j: int| 0 <= j < order@.len() ==> order@[j] < records@.len(),
    ensures
        bytes@ == file_bytes(
            revision,
            Seq::new(order@.len(), |j: int| records@[order@[j] as int]),
        ),
{
    let ghost rs = Seq::new(order@.len(), |j: int| records@[order@[j] as int]);
    let n = order.len();
    let mut payload = ByteWriter::new();
    let mut j: usize = 0;
    while j < n
        invariant
            n == order@.len(),
            j <= n,
            rs == Seq::new(order@.len(), |j: int| records@[order@[j] as int]),
            forall|j: int| 0 <= j < order@.len() ==> order@[j] < records@.len(),
            payload@ == records_bytes(rs.take(j as int)),
        decreases n - j,
    {
        append_record(&mut payload, &records[order[j]]);
        assert(rs.take(j + 1).drop_last() =~= rs.take(j as int));
        j = j + 1;
    }
    assert(rs.take(n as int) =~= rs);
    proof {
        lemma_records_bytes(rs);
    }
    let payload = payload.into_vec();
    seal_file(revision, n, payload)
}

/// Puts the header in front of a payload of `count` records.
fn seal_file(revision: u64, count: usize, payload: Vec<u8>) -> (bytes: Vec<u8>)
    requires
        count <= MAX_PASSIVE_MOBS,
    ensures
        bytes@ == magic() + le32(ENVELOPE_VERSION) + covered_header(revision, count as nat) + le32(
            spec_crc32c(covered_header(revision, count as nat) + payload@),
        ) + payload@,
{
    let mut covered = ByteWriter::new();
    covered.u32(CURRENT_SCHEMA);
    covered.u64(revision);
    covered.u32(count as u32);
    covered.u32((count * RECORD_LENGTH) as u32);
    let covered = covered.into_vec();
    assert(covered@ =~= covered_header(revision, count as nat));
    let checksum = crc32c_join2(covered.as_slice(), payload.as_slice());
    let mut w = ByteWriter::new();
    w.u8(0x50);
    w.u8(0x4D);
    w.u8(0x53);
    w.u8(0x54);
    w.u32(ENVELOPE_VERSION);
    w.bytes(covered.as_slice());
    w.u32(checksum);
    w.bytes(payload.as_slice());
    let out = w.into_vec();
    assert(out@ =~= magic() + le32(ENVELOPE_VERSION) + covered_header(revision, count as nat)
        + le32(spec_crc32c(covered_header(revision, count as nat) + payload@)) + payload@);
    out
}

/// Builds the canonical file of an accepted save.
fn build_canonical(save: &PassiveMobsSave, order: &Vec<usize>) -> (bytes: Vec<u8>)
    requires
        save_admitted(*save),
        order@.len() == save.records@.len(),
        forall|j: int|
            0 <= j < order@.len() ==> order@[j] as int == ascending_order(
                id_keys(save.records@),
            )[j],
    ensures
        bytes@ == encoding(*save),
{
    proof {
        crate::canonical_order::lemma_order_of(
            id_keys(save.records@),
            save.records@.len(),
        );
    }
    let bytes = build_file(save.revision, &save.records, order);
    assert(Seq::new(order@.len(), |j: int| save.records@[order@[j] as int]) =~= canonical(
        save.records@,
    ));
    bytes
}

/// Reports the exact on-disk byte length for a valid passive-mob aggregate.
pub fn passive_mobs_encoded_len(save: &PassiveMobsSave) -> (res: StorageResult<usize>)
    ensures
        res is Ok <==> save_admitted(*save),
        res matches Ok(n) ==> n == encoding(*save).len() && n == HEADER_LENGTH + RECORD_LENGTH
            * save.records@.len(),
        res matches Err(e) ==> e is Corrupt,
{
    let order = prepare_encode_indices(save)?;
    proof {
        lemma_le_facts();
        lemma_canonical_ascending(save.records@);
        lemma_records_bytes(canonical(save.records@));
    }
    Ok(HEADER_LENGTH + order.len() * RECORD_LENGTH)
}

/// Writes a complete passive-mob aggregate into `dst`, preserving any tail
/// beyond the returned length. Validation and capacity checks precede the
/// first write, so failure publishes no bytes.
pub fn encode_passive_mobs_into(save: &PassiveMobsSave, dst: &mut [u8]) -> (res: StorageResult<
    usize,
>)
    ensures
        res is Ok <==> save_admitted(*save) && old(dst)@.len() >= encoding(*save).len(),
        res matches Ok(n) ==> n == encoding(*save).len() && final(dst)@ == encoding(*save) + old(
            dst,
        )@.skip(n as int),
        res is Err ==> final(dst)@ == old(dst)@,
        res matches Err(e) ==> (e is OutputTooSmall <==> save_admitted(*save)),
        res matches Err(StorageError::OutputTooSmall { needed, available }) ==> needed
            == encoding(*save).len() && available == old(dst)@.len(),
        res matches Err(e) ==> !(e is FutureVersion),
{
    let order = prepare_encode_indices(save)?;
    let needed = passive_mobs_encoded_len(save)?;
    if dst.len() < needed {
        return Err(StorageError::OutputTooSmall { needed, available: dst.len() });
    }
    let bytes = build_canonical(save, &order);
    copy_prefix(dst, bytes.as_slice());
    Ok(needed)
}

/// Encodes a passive-mob aggregate into its canonical on-disk form.
///
/// The caller's records are never reordered: emission order is canonical
/// ascending ID only.
pub fn encode(save: &PassiveMobsSave) -> (res: StorageResult<Vec<u8>>)
    ensures
        res is Ok <==> save_admitted(*save),
        res matches Ok(bytes) ==> bytes@ == encoding(*save),
        res matches Err(e) ==> e is Corrupt,
{
    let order = prepare_encode_indices(save)?;
    Ok(build_canonical(save, &order))
}

/// Reads and checks the record at `pos`.
fn decode_record(d: &[u8], pos: usize) -> (res: Result<PassiveMob, String>)
    requires
        pos + 72 <= d@.len() <= MAX_FILE_LENGTH,
    ensures
        res is Ok <==> record_well_formed(d@, pos as int),
        res matches Ok(r) ==> r == record_at(d@, pos as int),
{
    let id = read_u64(d, pos);
    let dimension = read_u32(d, pos + 8) as i32;
    let position = [read_u32(d, pos + 12), read_u32(d, pos + 16), read_u32(d, pos + 20)];
    let velocity = [read_u32(d, pos + 24), read_u32(d, pos + 28), read_u32(d, pos + 32)];
    let on_ground = d[pos + 36];
    if on_ground > 1 {
        return Err(numbered_text("passive onGround ", on_ground as u64, " is not a bool"));
    }
    let yaw = read_u32(d, pos + 37);
    let health = d[pos + 41];
    if !is_zero(slice_subrange(d, pos + 42, pos + 72)) {
        proof {
            let k = choose|k: int|
                0 <= k < 30 && #[trigger] d@.subrange(pos + 42, pos + 72)[k] != 0;
            assert(d@[pos + (42 + k)] != 0);
        }
        return Err(detail_text("passive reserved bytes are not zero"));
    }
    assert forall|k: int| 42 <= k < 72 implies #[trigger] d@[pos + k] == 0 by {
        assert(d@.subrange(pos + 42, pos + 72)[k - 42] == 0);
    }
    let record = PassiveMob {
        id,
        dimension,
        position,
        velocity,
        on_ground: on_ground == 1,
        yaw,
        health,
    };
    assert(record.position =~= record_at(d@, pos as int).position);
    assert(record.velocity =~= record_at(d@, pos as int).velocity);
    validate_record(&record)?;
    Ok(record)
}

/// Reads the `n` records that follow the header, checking each record and
/// their strictly ascending IDs.
fn decode_records(d: &[u8], n: usize) -> (res: StorageResult<Vec<PassiveMob>>)
    requires
        n <= MAX_PASSIVE_MOBS,
        d@.len() == 32 + 72 * n,
    ensures
        res is Ok <==> (forall|i: int| 0 <= i < n ==> #[trigger] record_well_formed(
            d@,
            record_pos(i),
        )) && (forall|i: int|
            0 < i < n ==> record_at(d@, record_pos(i - 1)).id < #[trigger] record_at(
                d@,
                record_pos(i),
            ).id),
        res matches Ok(v) ==> v@ == Seq::new(n as nat, |i: int| record_at(d@, record_pos(i))),
        res matches Err(e) ==> e is Corrupt,
{
    let mut records: Vec<PassiveMob> = Vec::new();
    let mut i: usize = 0;
    while i < n
        invariant
            n <= MAX_PASSIVE_MOBS,
            d@.len() == 32 + 72 * n,
            i <= n,
            records@ == Seq::new(i as nat, |j: int| record_at(d@, record_pos(j))),
            forall|j: int| 0 <= j < i ==> #[trigger] record_well_formed(d@, record_pos(j)),
            forall|j: int|
                0 < j < i ==> record_at(d@, record_pos(j - 1)).id < #[trigger] record_at(
                    d@,
                    record_pos(j),
                ).id,
        decreases n - i,
    {
        let pos = HEADER_LENGTH + i * RECORD_LENGTH;
        let record = match decode_record(d, pos) {
            Ok(r) => r,
            Err(detail) => {
                assert(!record_well_formed(d@, record_pos(i as int)));
                return Err(corrupt_at("passive record", i, detail.as_str()));
            },
        };
        if i > 0 && records[i - 1].id >= record.id {
            assert(records@[i - 1] == record_at(d@, record_pos(i - 1)));
            assert(record == record_at(d@, record_pos(i as int)));
            assert(!(record_at(d@, record_pos(i - 1)).id < record_at(d@, record_pos(i as int)).id));
            return Err(corrupt("passive records", "IDs are not strictly sorted"));
        }
        records.push(record);
        assert(records@ =~= Seq::new((i + 1) as nat, |j: int| record_at(d@, record_pos(j))));
        i = i + 1;
    }
    Ok(records)
}

/// Decodes a passive-mob aggregate. File length, count, and payload length are
/// checked before any record is parsed or allocated.
pub fn decode(data: &[u8]) -> (res: StorageResult<PassiveMobs>)
    ensures
        res is Ok <==> file_readable(data@),
        res matches Ok(m) ==> m.revision == u64_at(data@, 12) && m.records@ == file_records(
            data@,
        ),
        res matches Err(e) ==> (e is FutureVersion <==> is_future_file(data@)),
        res matches Err(e) ==> (e is Corrupt <==> !is_future_file(data@)),
{
    let d = data;
    if d.len() > MAX_FILE_LENGTH {
        return Err(corrupt_numbered("passive file length", "", d.len() as u64, " exceeds limit 2336"));
    }
    if d.len() < 4 {
        return Err(short_read("passive envelope magic", 4, 0, d.len()));
    }
    if !(d[0] == 0x50 && d[1] == 0x4D && d[2] == 0x53 && d[3] == 0x54) {
        assert(d@.take(4) != magic()) by {
            if d@.take(4) == magic() {
                assert(d@[0] == d@.take(4)[0]);
                assert(d@[1] == d@.take(4)[1]);
                assert(d@[2] == d@.take(4)[2]);
                assert(d@[3] == d@.take(4)[3]);
            }
        }
        return Err(corrupt("passive envelope magic", "unexpected magic"));
    }
    assert(d@.take(4) =~= magic());
    if d.len() < 8 {
        return Err(short_read("passive envelope version", 4, 4, d.len()));
    }
    let version = read_u32(d, 4);
    if version != ENVELOPE_VERSION {
        if version > ENVELOPE_VERSION {
            return Err(future_version("passive envelope version", version));
        }
        return Err(corrupt_numbered("passive envelope version", "unsupported version ", version as u64, ""));
    }
    if d.len() < 12 {
        return Err(short_read("passive schema", 4, 8, d.len()));
    }
    let schema = read_u32(d, 8);
    if schema != CURRENT_SCHEMA {
        if schema > CURRENT_SCHEMA {
            return Err(future_version("passive schema", schema));
        }
        return Err(corrupt_numbered("passive schema", "unsupported schema ", schema as u64, ""));
    }
    if d.len() < 20 {
        return Err(short_read("passive revision", 8, 12, d.len()));
    }
    let revision = read_u64(d, 12);
    if revision == 0 {
        return Err(corrupt("passive revision", "zero revision"));
    }
    if d.len() < 24 {
        return Err(short_read("passive count", 4, 20, d.len()));
    }
    let count = read_u32(d, 20);
    if count as usize > MAX_PASSIVE_MOBS {
        return Err(corrupt_numbered("passive count", "", count as u64, " exceeds limit 32"));
    }
    if d.len() < 28 {
        return Err(short_read("passive payload length", 4, 24, d.len()));
    }
    let payload_length = read_u32(d, 24);
    if payload_length as usize != count as usize * RECORD_LENGTH {
        return Err(corrupt("passive payload length", "does not match count"));
    }
    if d.len() < HEADER_LENGTH {
        return Err(short_read("passive CRC32C", 4, 28, d.len()));
    }
    let want_crc = read_u32(d, 28);
    if d.len() - HEADER_LENGTH != payload_length as usize {
        return Err(corrupt("passive payload length", "does not match file"));
    }
    let records = decode_records(d, count as usize)?;
    assert(records@ =~= file_records(d@));
    let checksum = crc32c_join2(slice_subrange(d, 8, 28), slice_subrange(d, HEADER_LENGTH, d.len()));
    assert(d@.subrange(32, d@.len() as int) =~= d@.skip(32));
    if checksum != want_crc {
        return Err(corrupt("passive CRC32C", "checksum mismatch"));
    }
    Ok(PassiveMobs { revision, records })
}

} // verus!
