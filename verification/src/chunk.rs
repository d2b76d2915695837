//! `save.chunk`: the chunk save record (`CHNK` zstd envelope).
//!
//! One envelope is a fixed 44-byte header followed by a zstd frame carrying an
//! `MCGC` logical payload: the chunk identity, one paletted-section snapshot per
//! section, and the fixed drop, furnace and chest slot arrays.
//!
//! Cross-implementation compatibility is defined at the logical level: zstd
//! frames are self-describing, so acceptance for this family is semantic
//! round trip (exact decode, lossless encode/decode, migration convergence and
//! rejection without implicit repair), never a byte-identical compressed frame.
use crate::bytes::{ByteWriter, copy_prefix, le32, le64, lemma_le_facts, read_u32, read_u64, u32_at, u64_at};
use crate::chunk_layout::{key_bytes, logical_bytes, write_logical_payload};
use crate::chunk_migrate::{migrate, spec_migrate};
use crate::chunk_parse::{decode_logical, parse_logical};
use crate::chunk_rules::{
    chunk_admitted, drop_fails_first, drop_slot_message, starts_with, validate_chunk,
    validate_chunk_at_schema,
};
use crate::error::{
    StorageError, StorageResult, corrupt, corrupt_numbered, corrupt_signed, decimal_text, future_version,
    short_read,
};
use crate::items::{ItemStack, empty_stack};
use crate::section::{ContainerSnapshot, SectionView};
use crate::zstd_frame::{
    FrameCompressor, FrameDecompressor, FrameFlag, bulk_decompress, compress_bound, compressor_compress, compressor_enable,
    compressor_new, compressor_pledge, decompressor_decompress, decompressor_new,
    compress_bound_of, decompressor_window_log_max, frame_carries_size, frame_has_checksum,
    zstd_decompressed, zstd_frame_of,
};
use vstd::prelude::*;

verus! {

/// Schema written by the current encoder.
pub const CURRENT_SCHEMA: u32 = 9;
/// Oldest schema the decoder still accepts.
pub const OLDEST_SCHEMA: u32 = 1;
/// `CHNK` envelope version.
pub const ENVELOPE_VERSION: u32 = 1;
/// Fixed `CHNK` envelope header length.
pub const ENVELOPE_LENGTH: usize = 44;
/// Compression ID of the frame after the header. Any other value is corrupt.
pub const COMPRESSION_ZSTD: u32 = 1;
/// Decoded ceiling for one chunk payload, shared by the encoder and the decoder.
pub const MAX_DECODED_CHUNK: usize = 0x20_0000;
/// Ceiling of one compressed chunk frame.
pub const MAX_COMPRESSED_CHUNK: u32 = 0x10_0000;

pub const SECTIONS_PER_CHUNK: usize = 24;
pub const DROPS_PER_CHUNK: usize = 32;
pub const FURNACES_PER_CHUNK: usize = 32;
pub const CHESTS_PER_CHUNK: usize = 16;
pub const CHEST_SLOTS: usize = 27;
/// Blocks in one chunk: every section's cells, in section order.
pub const BLOCKS_PER_CHUNK: u32 = 98_304;

pub const FURNACE_SMELT_TICKS: u8 = 200;
pub const FURNACE_BURN_TICKS: u16 = 1600;

/// Dimension allowlist: only the overworld and `Depths` may be persisted.
pub const OVERWORLD: i32 = 0;
pub const DEPTHS: i32 = 1;

/// `MCGC` header: magic, schema, key, revision, and section count.
pub const LOGICAL_HEADER_LEN: usize = 32;
pub const DROP_SLOT_LEGACY_LEN: usize = 17;
pub const DROP_SLOT_WITH_DURABILITY_LEN: usize = 19;
pub const FURNACE_SLOT_LEN: usize = 21;
pub const CHEST_SLOT_LEN: usize = 144;

/// Identity of one chunk: its dimension and chunk coordinates.
#[derive(Clone, Copy, Debug, PartialEq, Eq, Structural)]
pub struct ChunkKey {
    pub dimension: i32,
    pub x: i32,
    pub z: i32,
}

/// One fixed drop slot inside a chunk.
#[derive(Clone, Copy, Debug, Default, PartialEq, Eq, Structural)]
pub struct DropSlot {
    pub generation: u32,
    pub active: bool,
    pub stack: ItemStack,
    pub block_index: u32,
    pub age_ticks: u32,
    pub pickup_delay_ticks: u8,
}

/// One fixed furnace slot inside a chunk.
#[derive(Clone, Copy, Debug, Default, PartialEq, Eq, Structural)]
pub struct FurnaceSlot {
    pub generation: u32,
    pub active: bool,
    pub block_index: u32,
    pub input: ItemStack,
    pub fuel: ItemStack,
    pub output: ItemStack,
    pub progress_ticks: u8,
    pub burn_ticks: u16,
}

/// One fixed chest slot inside a chunk.
#[derive(Clone, Copy, Debug, Default, PartialEq, Eq)]
pub struct ChestSlot {
    pub generation: u32,
    pub active: bool,
    pub block_index: u32,
    pub items: [ItemStack; CHEST_SLOTS],
}

/// The default drop slot.
pub open spec fn default_drop() -> DropSlot {
    DropSlot {
        generation: 0,
        active: false,
        stack: empty_stack(),
        block_index: 0,
        age_ticks: 0,
        pickup_delay_ticks: 0,
    }
}

/// The default furnace slot, keeping only `generation`.
pub open spec fn furnace_with_generation(generation: u32) -> FurnaceSlot {
    FurnaceSlot {
        generation,
        active: false,
        block_index: 0,
        input: empty_stack(),
        fuel: empty_stack(),
        output: empty_stack(),
        progress_ticks: 0,
        burn_ticks: 0,
    }
}

/// The mathematical value of a chest slot.
pub struct ChestView {
    pub generation: u32,
    pub active: bool,
    pub block_index: u32,
    pub items: Seq<ItemStack>,
}

impl View for ChestSlot {
    type V = ChestView;

    open spec fn view(&self) -> ChestView {
        ChestView {
            generation: self.generation,
            active: self.active,
            block_index: self.block_index,
            items: self.items@,
        }
    }
}

/// Twenty-seven empty item slots.
pub open spec fn empty_chest_items() -> Seq<ItemStack> {
    Seq::new(CHEST_SLOTS as nat, |i: int| empty_stack())
}

/// The default chest slot shape, keeping only `generation`.
pub open spec fn chest_with_generation(generation: u32) -> ChestView {
    ChestView { generation, active: false, block_index: 0, items: empty_chest_items() }
}

/// One chunk's persisted content: the section snapshots plus the fixed slot
/// arrays. The chunk position is not stored here: the key of [`ChunkSave`] is
/// its single source of truth.
#[derive(Clone, Debug, PartialEq, Eq)]
pub struct Chunk {
    pub sections: Vec<ContainerSnapshot>,
    pub drops: Vec<DropSlot>,
    pub furnaces: Vec<FurnaceSlot>,
    pub chests: Vec<ChestSlot>,
}

/// The mathematical value of a chunk.
pub struct ChunkView {
    pub sections: Seq<SectionView>,
    pub drops: Seq<DropSlot>,
    pub furnaces: Seq<FurnaceSlot>,
    pub chests: Seq<ChestView>,
}

impl View for Chunk {
    type V = ChunkView;

    open spec fn view(&self) -> ChunkView {
        ChunkView {
            sections: self.sections@.map_values(|s: ContainerSnapshot| s@),
            drops: self.drops@,
            furnaces: self.furnaces@,
            chests: self.chests@.map_values(|c: ChestSlot| c@),
        }
    }
}

/// One chunk save request.
#[derive(Clone, Debug, PartialEq, Eq)]
pub struct ChunkSave {
    pub key: ChunkKey,
    pub revision: u64,
    pub chunk: Chunk,
}

/// A decoded chunk normalized to the current schema.
#[derive(Clone, Debug, PartialEq, Eq)]
pub struct DecodedChunk {
    pub key: ChunkKey,
    pub revision: u64,
    /// Always [`CURRENT_SCHEMA`]: older schemas are migrated on decode.
    pub schema: u32,
    pub chunk: Chunk,
    /// Set when the record was read at an older schema and needs a rewrite.
    pub migrated: bool,
}

/// One verified `CHNK` envelope: the identity it declares plus the decompressed
/// `MCGC` logical payload, still at the schema the envelope carried.
#[derive(Clone, Debug, PartialEq, Eq)]
pub struct LogicalPayload {
    pub key: ChunkKey,
    pub revision: u64,
    pub schema: u32,
    pub bytes: Vec<u8>,
}

/// A schema the codec reads and writes.
pub open spec fn schema_supported(schema: u32) -> bool {
    OLDEST_SCHEMA <= schema <= CURRENT_SCHEMA
}

/// Compression level of every chunk frame: zstd's default level.
pub const COMPRESSION_LEVEL: i32 = 3;
/// Largest window (`2^21` bytes, the decoded ceiling) a chunk frame may use.
pub const WINDOW_LOG_MAX: u32 = 21;

/// Encoded length of one section record: fixed prefix, palette and words.
pub open spec fn section_wire_len(s: SectionView) -> int {
    16 + 2 * s.palette.len() as int + 8 * s.packed.len() as int
}

/// Encoded length of a sequence of section records.
pub open spec fn sections_wire_len(ss: Seq<SectionView>) -> int
    decreases ss.len(),
{
    if ss.len() == 0 {
        0
    } else {
        sections_wire_len(ss.drop_last()) + section_wire_len(ss.last())
    }
}

/// Encoded length of the fixed slot arrays a schema carries.
pub open spec fn slots_wire_len(schema: u32) -> int {
    (if schema >= 2 {
        DROPS_PER_CHUNK * (if schema >= 5 {
            DROP_SLOT_WITH_DURABILITY_LEN
        } else {
            DROP_SLOT_LEGACY_LEN
        })
    } else {
        0
    }) + (if schema >= 4 {
        FURNACES_PER_CHUNK * FURNACE_SLOT_LEN
    } else {
        0
    }) + (if schema >= 6 {
        CHESTS_PER_CHUNK * CHEST_SLOT_LEN
    } else {
        0
    })
}

/// Wire length of a logical payload at `schema`.
pub open spec fn spec_logical_len(c: ChunkView, schema: u32) -> int {
    LOGICAL_HEADER_LEN + sections_wire_len(c.sections) + slots_wire_len(schema)
}

/// A save request the current encoder admits at `output_schema`: a nonzero
/// revision, an allowlisted dimension and an admitted aggregate.
pub open spec fn save_admitted(save: ChunkSave, output_schema: u32) -> bool {
    &&& save.revision != 0
    &&& (save.key.dimension == OVERWORLD || save.key.dimension == DEPTHS)
    &&& chunk_admitted(save.chunk@, CURRENT_SCHEMA, output_schema)
}

proof fn lemma_sections_wire_len_prefix(ss: Seq<SectionView>, i: int, j: int)
    requires
        0 <= i <= j <= ss.len(),
    ensures
        sections_wire_len(ss.take(i)) <= sections_wire_len(ss.take(j)),
    decreases j - i,
{
    if i < j {
        lemma_sections_wire_len_prefix(ss, i, j - 1);
        assert(ss.take(j).drop_last() =~= ss.take(j - 1));
    }
}

proof fn lemma_sections_bytes_len(ss: Seq<SectionView>)
    ensures
        crate::chunk_layout::sections_bytes(ss).len() == sections_wire_len(ss),
    decreases ss.len(),
{
    if ss.len() > 0 {
        lemma_sections_bytes_len(ss.drop_last());
        crate::chunk_layout::lemma_section_bytes_len(ss.len() - 1, ss.last());
    }
}

/// The logical payload is exactly [`spec_logical_len`] bytes long when the
/// slot arrays have their fixed lengths.
pub proof fn lemma_logical_len(key: ChunkKey, revision: u64, c: ChunkView, schema: u32)
    requires
        crate::chunk_rules::chunk_shape_ok(c),
        forall|i: int| 0 <= i < c.chests.len() ==> (#[trigger] c.chests[i]).items.len() == 27,
    ensures
        logical_bytes(key, revision, c, schema).len() == spec_logical_len(c, schema),
{
    lemma_le_facts();
    lemma_sections_bytes_len(c.sections);
    crate::chunk_layout::lemma_drops_bytes_len(c.drops, schema >= 5);
    crate::chunk_layout::lemma_furnaces_bytes_len(c.furnaces);
    crate::chunk_layout::lemma_chests_bytes_len(c.chests);
}

fn section_len_checked(s: &ContainerSnapshot) -> (res: Option<usize>)
    ensures
        match res {
            Some(n) => n == section_wire_len(s@),
            None => section_wire_len(s@) > usize::MAX,
        },
{
    let palette_bytes = s.palette.len().checked_mul(2)?;
    let packed_bytes = s.packed.len().checked_mul(8)?;
    let base: usize = 16;
    let with_palette = base.checked_add(palette_bytes)?;
    with_palette.checked_add(packed_bytes)
}

/// The message of a refusal by the decoded-size ceiling: the running length
/// overflowed, or passed the ceiling within the sections or after a slot set.
pub open spec fn decoded_cap_message(m: Seq<char>) -> bool {
    ||| m == "logical payload length"@ + ": "@ + "overflow"@
    ||| m == "decoded chunk"@ + ": "@ + "exceeds limit"@
    ||| m == "decoded chunk"@ + ": "@ + "exceeds limit after drops"@
    ||| m == "decoded chunk"@ + ": "@ + "exceeds limit after furnaces"@
    ||| m == "decoded chunk"@ + ": "@ + "exceeds limit after chests"@
}

/// Wire length of one logical payload, with checked arithmetic and the
/// decoded ceiling applied after every part; no dense block expansion.
fn logical_payload_len(chunk: &Chunk, schema: u32) -> (res: StorageResult<usize>)
    ensures
        res is Ok <==> spec_logical_len(chunk@, schema) <= MAX_DECODED_CHUNK,
        res matches Ok(n) ==> n == spec_logical_len(chunk@, schema),
        res matches Err(e) ==> e matches StorageError::Corrupt(m) && decoded_cap_message(m@),
{
    let ghost ss = chunk@.sections;
    let mut total: usize = LOGICAL_HEADER_LEN;
    let mut i: usize = 0;
    while i < chunk.sections.len()
        invariant
            ss == chunk@.sections,
            i <= ss.len(),
            total == LOGICAL_HEADER_LEN + sections_wire_len(ss.take(i as int)),
            total <= MAX_DECODED_CHUNK,
        decreases ss.len() - i,
    {
        assert(ss.take(i + 1).drop_last() =~= ss.take(i as int));
        assert(ss.take(i + 1).last() == chunk.sections@[i as int]@);
        let next = match section_len_checked(&chunk.sections[i]) {
            Some(n) => total.checked_add(n),
            None => None,
        };
        match next {
            Some(t) => {
                total = t;
            },
            None => {
                proof {
                    lemma_sections_wire_len_prefix(ss, i + 1, ss.len() as int);
                    assert(ss.take(ss.len() as int) =~= ss);
                }
                return Err(corrupt("logical payload length", "overflow"));
            },
        }
        if total > MAX_DECODED_CHUNK {
            proof {
                lemma_sections_wire_len_prefix(ss, i + 1, ss.len() as int);
                assert(ss.take(ss.len() as int) =~= ss);
            }
            return Err(corrupt("decoded chunk", "exceeds limit"));
        }
        i = i + 1;
    }
    assert(ss.take(ss.len() as int) =~= ss);
    let ghost sec = total as int;
    if schema >= 2 {
        let drop_bytes: usize = if schema >= 5 {
            DROP_SLOT_WITH_DURABILITY_LEN
        } else {
            DROP_SLOT_LEGACY_LEN
        };
        total = total + DROPS_PER_CHUNK * drop_bytes;
        if total > MAX_DECODED_CHUNK {
            return Err(corrupt("decoded chunk", "exceeds limit after drops"));
        }
    }
    if schema >= 4 {
        total = total + FURNACES_PER_CHUNK * FURNACE_SLOT_LEN;
        if total > MAX_DECODED_CHUNK {
            return Err(corrupt("decoded chunk", "exceeds limit after furnaces"));
        }
    }
    if schema >= 6 {
        total = total + CHESTS_PER_CHUNK * CHEST_SLOT_LEN;
        if total > MAX_DECODED_CHUNK {
            return Err(corrupt("decoded chunk", "exceeds limit after chests"));
        }
    }
    Ok(total)
}

/// Wire sum without admission; contract tests use it to reach the decoded cap
/// and the checked arithmetic on shapes no admitted chunk has.
pub fn chunk_logical_wire_len_for_test(chunk: &Chunk, schema: u32) -> (res: StorageResult<usize>)
    ensures
        res is Ok <==> spec_logical_len(chunk@, schema) <= MAX_DECODED_CHUNK,
        res matches Ok(n) ==> n == spec_logical_len(chunk@, schema),
        res matches Err(e) ==> e matches StorageError::Corrupt(m) && decoded_cap_message(m@),
{
    logical_payload_len(chunk, schema)
}

fn check_schema(schema: u32) -> (res: StorageResult<()>)
    ensures
        res is Ok <==> schema_supported(schema),
        res matches Err(e) ==> e is Corrupt,
{
    if schema < OLDEST_SCHEMA || schema > CURRENT_SCHEMA {
        return Err(corrupt_numbered("chunk schema", "unsupported schema ", schema as u64, ""));
    }
    Ok(())
}

/// Rejects a save that could never be read back, before any allocation.
fn validate_save(save: &ChunkSave, output_schema: u32) -> (res: StorageResult<()>)
    ensures
        res is Ok <==> save_admitted(*save, output_schema),
        res matches Err(e) ==> e is Corrupt,
{
    if save.revision == 0 {
        return Err(corrupt("chunk revision", "zero revision"));
    }
    if save.key.dimension != OVERWORLD && save.key.dimension != DEPTHS {
        return Err(corrupt_signed("chunk dimension", "unsupported chunk dimension ", save.key.dimension as i64));
    }
    validate_chunk_at_schema(&save.chunk, CURRENT_SCHEMA, output_schema)
}

/// Reports the exact `MCGC` logical payload length for a current save at
/// `schema`, after one aggregate and representability check.
pub fn chunk_logical_len(save: &ChunkSave, schema: u32) -> (res: StorageResult<usize>)
    ensures
        res is Ok <==> schema_supported(schema) && save_admitted(*save, schema) && spec_logical_len(
            save.chunk@,
            schema,
        ) <= MAX_DECODED_CHUNK,
        res matches Ok(n) ==> n == spec_logical_len(save.chunk@, schema),
        res matches Err(e) ==> e is Corrupt,
        schema_supported(schema) && save_admitted(*save, schema) && spec_logical_len(
            save.chunk@,
            schema,
        ) > MAX_DECODED_CHUNK ==> (res matches Err(StorageError::Corrupt(m)) && decoded_cap_message(
            m@,
        )),
{
    check_schema(schema)?;
    validate_save(save, schema)?;
    logical_payload_len(&save.chunk, schema)
}

/// Appends only after the caller has admitted both values and schema fidelity.
fn append_logical(key: ChunkKey, revision: u64, chunk: &Chunk, schema: u32) -> (v: Vec<u8>)
    ensures
        v@ == logical_bytes(key, revision, chunk@, schema),
{
    let mut logical = ByteWriter::new();
    write_logical_payload(&mut logical, key, revision, chunk, schema);
    assert(logical@ =~= logical_bytes(key, revision, chunk@, schema));
    logical.into_vec()
}

/// Serializes one chunk as an `MCGC` logical payload at `schema`.
///
/// A logical payload may be raw historical data, including pre-v5 tool drops,
/// so admission uses the rules of its own schema.
pub fn encode_logical(key: ChunkKey, revision: u64, chunk: &Chunk, schema: u32) -> (res:
    StorageResult<Vec<u8>>)
    ensures
        res is Ok <==> schema_supported(schema) && (key.dimension == OVERWORLD || key.dimension
            == DEPTHS) && revision != 0 && chunk_admitted(chunk@, schema, schema),
        res matches Ok(v) ==> v@ == logical_bytes(key, revision, chunk@, schema),
        res matches Err(e) ==> e is Corrupt,
        schema_supported(schema) && (key.dimension == OVERWORLD || key.dimension == DEPTHS)
            && revision != 0 && drop_fails_first(chunk@, schema, schema) ==> (res matches Err(
            StorageError::Corrupt(m),
        ) && drop_slot_message(m@)),
{
    check_schema(schema)?;
    if key.dimension != OVERWORLD && key.dimension != DEPTHS {
        return Err(corrupt_signed("chunk dimension", "unsupported chunk dimension ", key.dimension as i64));
    }
    if revision == 0 {
        return Err(corrupt("chunk revision", "zero revision"));
    }
    validate_chunk_at_schema(chunk, schema, schema)?;
    Ok(append_logical(key, revision, chunk, schema))
}

/// The envelope magic `CHNK`.
pub open spec fn envelope_magic() -> Seq<u8> {
    seq![0x43u8, 0x48u8, 0x4Eu8, 0x4Bu8]
}

/// The `CHNK` envelope: header then the compressed frame.
pub open spec fn envelope_bytes(
    schema: u32,
    key: ChunkKey,
    revision: u64,
    logical_len: int,
    frame: Seq<u8>,
) -> Seq<u8> {
    envelope_magic() + le32(ENVELOPE_VERSION) + le32(schema) + key_bytes(key) + le64(revision)
        + le32(COMPRESSION_ZSTD) + le32(logical_len as u32) + le32(frame.len() as u32) + frame
}

/// The frame the chunk encoders write for a logical payload: level 3, with the
/// content checksum and the content size in its header.
pub open spec fn chunk_frame(logical: Seq<u8>) -> Seq<u8> {
    zstd_frame_of(logical, COMPRESSION_LEVEL, true, true)
}

/// The envelope of a current save: the header for the save's identity and
/// schema, then the chunk frame of its logical payload, which decompresses to
/// exactly that payload and carries the content checksum and size.
pub open spec fn is_envelope_of(v: Seq<u8>, save: ChunkSave, schema: u32) -> bool {
    let logical = logical_bytes(save.key, save.revision, save.chunk@, schema);
    &&& v == envelope_bytes(schema, save.key, save.revision, logical.len() as int, chunk_frame(logical))
    &&& zstd_decompressed(chunk_frame(logical), logical.len() as usize) == Some(logical)
    &&& frame_has_checksum(chunk_frame(logical))
    &&& frame_carries_size(chunk_frame(logical))
    &&& chunk_frame(logical).len() <= MAX_COMPRESSED_CHUNK
}

/// What one-pass decompression of an envelope's frame gives at the length the
/// header declares.
pub open spec fn frame_content(d: Seq<u8>) -> Option<Seq<u8>> {
    zstd_decompressed(d.skip(44), u32_at(d, 36) as usize)
}

/// The envelope is read: its header checks pass, and its frame decompresses to
/// exactly the declared length.
pub open spec fn envelope_readable(d: Seq<u8>) -> bool {
    &&& envelope_header_ok(d)
    &&& frame_content(d) matches Some(c)
    &&& c.len() == u32_at(d, 36)
}

/// A chunk decode of `d` for the requested identity succeeds: a nonzero
/// request, a readable envelope for that identity, and content that parses,
/// migrates and is admitted.
pub open spec fn decodes_ok(key: ChunkKey, revision: u64, d: Seq<u8>) -> bool {
    &&& revision != 0
    &&& envelope_readable(d)
    &&& identity_matches(d, key, revision)
    &&& exists|c: ChunkView| content_decodes_to(key, revision, u32_at(d, 8), frame_content(d)->0, c)
}

/// The identity an envelope header declares.
pub open spec fn envelope_key(d: Seq<u8>) -> ChunkKey {
    ChunkKey { dimension: u32_at(d, 12) as i32, x: u32_at(d, 16) as i32, z: u32_at(d, 20) as i32 }
}

/// The envelope is rejected as written by a future version.
pub open spec fn envelope_is_future(d: Seq<u8>) -> bool {
    &&& d.len() >= 8
    &&& d.take(4) == envelope_magic()
    &&& (u32_at(d, 4) > ENVELOPE_VERSION || (u32_at(d, 4) == ENVELOPE_VERSION && d.len() >= 12
        && u32_at(d, 8) > CURRENT_SCHEMA))
}

/// Every length and version bound of an envelope header holds.
pub open spec fn envelope_header_ok(d: Seq<u8>) -> bool {
    &&& d.len() >= ENVELOPE_LENGTH
    &&& d.take(4) == envelope_magic()
    &&& u32_at(d, 4) == ENVELOPE_VERSION
    &&& schema_supported(u32_at(d, 8))
    &&& (envelope_key(d).dimension == OVERWORLD || envelope_key(d).dimension == DEPTHS)
    &&& u64_at(d, 24) != 0
    &&& u32_at(d, 32) == COMPRESSION_ZSTD
    &&& u32_at(d, 36) <= MAX_DECODED_CHUNK
    &&& u32_at(d, 40) <= MAX_COMPRESSED_CHUNK
    &&& d.len() - ENVELOPE_LENGTH == u32_at(d, 40)
}

/// A verified envelope header.
struct EnvelopeHeader {
    key: ChunkKey,
    revision: u64,
    schema: u32,
    decoded_length: usize,
}

fn parse_envelope_header(payload: &[u8]) -> (res: StorageResult<EnvelopeHeader>)
    ensures
        res is Ok <==> envelope_header_ok(payload@),
        res matches Ok(h) ==> h.key == envelope_key(payload@) && h.revision == u64_at(payload@, 24)
            && h.schema == u32_at(payload@, 8) && h.decoded_length == u32_at(payload@, 36),
        res matches Err(e) ==> (e is FutureVersion <==> envelope_is_future(payload@)),
        res matches Err(e) ==> (e is Corrupt <==> !envelope_is_future(payload@)),
{
    let d = payload;
    if d.len() < 4 {
        return Err(short_read("envelope magic", 4, 0, d.len()));
    }
    if !(d[0] == 0x43 && d[1] == 0x48 && d[2] == 0x4E && d[3] == 0x4B) {
        assert(d@.take(4) != envelope_magic()) by {
            if d@.take(4) == envelope_magic() {
                assert(d@[0] == d@.take(4)[0]);
                assert(d@[1] == d@.take(4)[1]);
                assert(d@[2] == d@.take(4)[2]);
                assert(d@[3] == d@.take(4)[3]);
            }
        }
        return Err(corrupt("envelope magic", "unexpected magic"));
    }
    assert(d@.take(4) =~= envelope_magic());
    if d.len() < 8 {
        return Err(short_read("envelope version", 4, 4, d.len()));
    }
    let version = read_u32(d, 4);
    if version > ENVELOPE_VERSION {
        return Err(future_version("envelope version", version));
    }
    if version != ENVELOPE_VERSION {
        return Err(corrupt_numbered("envelope version", "unsupported envelope version ", version as u64, ""));
    }
    if d.len() < 12 {
        return Err(short_read("envelope schema", 4, 8, d.len()));
    }
    let schema = read_u32(d, 8);
    if schema > CURRENT_SCHEMA {
        return Err(future_version("chunk schema", schema));
    }
    if schema < OLDEST_SCHEMA {
        return Err(corrupt_numbered("chunk schema", "unsupported chunk schema ", schema as u64, ""));
    }
    if d.len() < 16 {
        return Err(short_read("envelope key", 4, 12, d.len()));
    }
    let dimension = read_u32(d, 12) as i32;
    if dimension != OVERWORLD && dimension != DEPTHS {
        return Err(corrupt_signed("envelope key", "unsupported dimension ", dimension as i64));
    }
    if d.len() < 20 {
        return Err(short_read("envelope key", 4, 16, d.len()));
    }
    if d.len() < 24 {
        return Err(short_read("envelope key", 4, 20, d.len()));
    }
    let key = ChunkKey { dimension, x: read_u32(d, 16) as i32, z: read_u32(d, 20) as i32 };
    if d.len() < 32 {
        return Err(short_read("envelope revision", 8, 24, d.len()));
    }
    let revision = read_u64(d, 24);
    if revision == 0 {
        return Err(corrupt("envelope revision", "zero revision"));
    }
    if d.len() < 36 {
        return Err(short_read("compression ID", 4, 32, d.len()));
    }
    let compression = read_u32(d, 32);
    if compression != COMPRESSION_ZSTD {
        return Err(corrupt_numbered("compression ID", "unknown compression ID ", compression as u64, ""));
    }
    if d.len() < 40 {
        return Err(short_read("decoded length", 4, 36, d.len()));
    }
    let decoded_length = read_u32(d, 36) as usize;
    if decoded_length > MAX_DECODED_CHUNK {
        return Err(corrupt_numbered("decoded length", "", decoded_length as u64, " exceeds limit 2097152"));
    }
    if d.len() < ENVELOPE_LENGTH {
        return Err(short_read("compressed length", 4, 40, d.len()));
    }
    let compressed_length = read_u32(d, 40);
    if compressed_length > MAX_COMPRESSED_CHUNK {
        return Err(corrupt_numbered("compressed length", "", compressed_length as u64, " exceeds limit 1048576"));
    }
    if d.len() - ENVELOPE_LENGTH != compressed_length as usize {
        return Err(corrupt("compressed length", "does not match the envelope remainder"));
    }
    Ok(EnvelopeHeader { key, revision, schema, decoded_length })
}

/// Completes an envelope read from the frame's decompressed content: the
/// content must have exactly the declared length.
fn finish_envelope(header: EnvelopeHeader, content: Vec<u8>) -> (res: StorageResult<LogicalPayload>)
    ensures
        res is Ok <==> content@.len() == header.decoded_length,
        res matches Ok(p) ==> p.key == header.key && p.revision == header.revision && p.schema
            == header.schema && p.bytes@ == content@,
        res matches Err(e) ==> e is Corrupt,
{
    if content.len() != header.decoded_length {
        return Err(corrupt("decoded length", "does not match the decompressed payload"));
    }
    Ok(LogicalPayload {
        key: header.key,
        revision: header.revision,
        schema: header.schema,
        bytes: content,
    })
}

/// What a successful envelope read returns for `d`: the declared identity and
/// schema and the frame's content, of exactly the declared length.
pub open spec fn envelope_read(d: Seq<u8>, p: LogicalPayload) -> bool {
    &&& envelope_header_ok(d)
    &&& p.key == envelope_key(d)
    &&& p.revision == u64_at(d, 24)
    &&& p.schema == u32_at(d, 8)
    &&& frame_content(d) == Some(p.bytes@)
    &&& p.bytes@.len() == u32_at(d, 36)
}

/// Verifies one `CHNK` envelope and returns the decompressed `MCGC` logical
/// payload with the identity and schema it declares. Every length and version
/// bound is checked before any allocation or decompression.
pub fn decode_envelope(payload: &[u8]) -> (res: StorageResult<LogicalPayload>)
    ensures
        res is Ok <==> envelope_readable(payload@),
        res matches Ok(p) ==> envelope_read(payload@, p),
        res matches Err(e) ==> (e is FutureVersion <==> envelope_is_future(payload@)),
        res matches Err(e) ==> (e is Corrupt <==> !envelope_is_future(payload@)),
{
    let header = parse_envelope_header(payload)?;
    let frame = vstd::slice::slice_subrange(payload, ENVELOPE_LENGTH, payload.len());
    assert(frame@ =~= payload@.skip(44));
    let content = match bulk_decompress(frame, header.decoded_length) {
        Ok(content) => content,
        Err(e) => {
            return Err(zstd_error("decompress chunk", e));
        },
    };
    finish_envelope(header, content)
}

/// What decoding `content` at `schema` for the requested identity yields: the
/// parsed payload, migrated to the current schema and admitted by the current
/// aggregate rule.
pub open spec fn content_decodes_to(
    key: ChunkKey,
    revision: u64,
    schema: u32,
    content: Seq<u8>,
    chunk: ChunkView,
) -> bool {
    &&& parse_logical(key, revision, schema, content) matches Some(parsed)
    &&& spec_migrate(schema, parsed) == Some(chunk)
    &&& chunk_admitted(chunk, CURRENT_SCHEMA, CURRENT_SCHEMA)
}

/// Decodes a verified logical payload: parse at its schema, migrate, admit.
pub fn decode_content(key: ChunkKey, revision: u64, schema: u32, content: &[u8]) -> (res:
    StorageResult<DecodedChunk>)
    ensures
        res is Ok <==> exists|c: ChunkView| content_decodes_to(key, revision, schema, content@, c),
        res matches Ok(dc) ==> content_decodes_to(key, revision, schema, content@, dc.chunk@)
            && dc.key == key && dc.revision == revision && dc.schema == CURRENT_SCHEMA
            && dc.migrated == (schema < CURRENT_SCHEMA),
        res matches Err(e) ==> e is Corrupt,
{
    let chunk = decode_logical(key, revision, schema, content)?;
    let (chunk, migrated) = migrate(schema, chunk)?;
    validate_chunk(&chunk)?;
    assert(content_decodes_to(key, revision, schema, content@, chunk@));
    Ok(DecodedChunk { key, revision, schema: CURRENT_SCHEMA, chunk, migrated })
}

/// The requested identity of a chunk read.
pub open spec fn identity_matches(d: Seq<u8>, key: ChunkKey, revision: u64) -> bool {
    envelope_key(d) == key && u64_at(d, 24) == revision
}

/// Verifies one `CHNK` envelope and reconstructs an independent chunk
/// normalized to the current schema. `key` and `revision` must be the
/// requested identity: a record for a different chunk is rejected.
pub fn decode(key: ChunkKey, revision: u64, payload: &[u8]) -> (res: StorageResult<DecodedChunk>)
    ensures
        res is Ok ==> revision != 0 && envelope_header_ok(payload@) && identity_matches(
            payload@,
            key,
            revision,
        ),
        res is Ok <==> decodes_ok(key, revision, payload@),
        res matches Ok(dc) ==> content_decodes_to(
            key,
            revision,
            u32_at(payload@, 8),
            frame_content(payload@)->0,
            dc.chunk@,
        ) && dc.key == key && dc.revision == revision && dc.schema == CURRENT_SCHEMA
            && dc.migrated == (u32_at(payload@, 8) < CURRENT_SCHEMA),
        res matches Err(e) ==> (e is FutureVersion <==> revision != 0 && envelope_is_future(
            payload@,
        )),
        res matches Err(e) ==> (e is Corrupt <==> !(revision != 0 && envelope_is_future(
            payload@,
        ))),
{
    if revision == 0 {
        return Err(corrupt("chunk revision", "zero requested revision"));
    }
    let envelope = decode_envelope(payload)?;
    if envelope.key != key || envelope.revision != revision {
        return Err(corrupt("chunk envelope", "key or revision does not match request"));
    }
    decode_content(key, revision, envelope.schema, envelope.bytes.as_slice())
}

/// A corruption error carrying zstd's own error text, `"{context}: {error}"`.
fn zstd_error(context: &str, error: std::io::Error) -> (e: StorageError)
    ensures
        e matches StorageError::Corrupt(m) && starts_with(m@, context@ + ": "@),
{
    let text = error.to_string();
    let e = corrupt(context, text.as_str());
    proof {
        let p = context@ + ": "@;
        assert(e->Corrupt_0@.take(p.len() as int) =~= p);
    }
    e
}

/// Compresses one logical payload into a single zstd frame with the content
/// checksum and the content size in its header.
fn compress(logical: &[u8]) -> (res: StorageResult<Vec<u8>>)
    ensures
        res matches Ok(frame) ==> frame@ == chunk_frame(logical@) && zstd_decompressed(
            frame@,
            logical@.len() as usize,
        ) == Some(logical@) && frame_has_checksum(frame@) && frame_carries_size(frame@),
        res matches Err(e) ==> e matches StorageError::Corrupt(m) && zstd_step_failure(m@),
{
    let mut compressor = match compressor_new(COMPRESSION_LEVEL) {
        Ok(c) => c,
        Err(e) => {
            return Err(zstd_error("create zstd compressor", e));
        },
    };
    if let Err(e) = compressor_enable(&mut compressor, FrameFlag::Checksum) {
        return Err(zstd_error("enable zstd checksum", e));
    }
    if let Err(e) = compressor_enable(&mut compressor, FrameFlag::ContentSize) {
        return Err(zstd_error("enable zstd content size", e));
    }
    if let Err(e) = compressor_pledge(&mut compressor, logical.len() as u64) {
        return Err(zstd_error("pledge zstd source size", e));
    }
    match compressor_compress(&mut compressor, logical) {
        Ok(frame) => Ok(frame),
        Err(e) => Err(zstd_error("compress chunk", e)),
    }
}

/// A zstd step of the chunk encoder failed; the message names the step and
/// carries zstd's own error text.
pub open spec fn zstd_step_failure(m: Seq<char>) -> bool {
    ||| starts_with(m, "create zstd compressor"@ + ": "@)
    ||| starts_with(m, "enable zstd checksum"@ + ": "@)
    ||| starts_with(m, "enable zstd content size"@ + ": "@)
    ||| starts_with(m, "pledge zstd source size"@ + ": "@)
    ||| starts_with(m, "compress chunk"@ + ": "@)
}

/// The refusal of a frame longer than the compressed ceiling.
pub open spec fn frame_refusal(frame: Seq<u8>) -> Seq<char> {
    "compressed chunk"@ + ": "@ + ""@ + decimal_text(frame.len() as u64) + " exceeds limit 1048576"@
}

/// What encoding an admitted save within the decoded ceiling can fail with: a
/// zstd step, or a chunk frame of its logical payload over the compressed
/// ceiling.
pub open spec fn admitted_save_failure(logical: Seq<u8>, m: Seq<char>) -> bool {
    ||| zstd_step_failure(m)
    ||| chunk_frame(logical).len() > MAX_COMPRESSED_CHUNK && m == frame_refusal(chunk_frame(logical))
}

/// Writes the envelope for a compressed frame; a frame over the compressed
/// ceiling is rejected rather than truncated.
fn seal_envelope(schema: u32, key: ChunkKey, revision: u64, logical_len: usize, frame: &[u8]) -> (res:
    StorageResult<Vec<u8>>)
    requires
        logical_len <= MAX_DECODED_CHUNK,
    ensures
        res is Ok <==> frame@.len() <= MAX_COMPRESSED_CHUNK,
        res matches Ok(v) ==> v@ == envelope_bytes(schema, key, revision, logical_len as int, frame@),
        res matches Err(e) ==> e matches StorageError::Corrupt(m) && m@ == frame_refusal(frame@),
{
    if frame.len() > MAX_COMPRESSED_CHUNK as usize {
        return Err(corrupt_numbered("compressed chunk", "", frame.len() as u64, " exceeds limit 1048576"));
    }
    let mut w = ByteWriter::new();
    w.u8(0x43);
    w.u8(0x48);
    w.u8(0x4E);
    w.u8(0x4B);
    w.u32(ENVELOPE_VERSION);
    w.u32(schema);
    w.u32(key.dimension as u32);
    w.u32(key.x as u32);
    w.u32(key.z as u32);
    w.u64(revision);
    w.u32(COMPRESSION_ZSTD);
    w.u32(logical_len as u32);
    w.u32(frame.len() as u32);
    w.bytes(frame);
    let v = w.into_vec();
    assert(v@ =~= envelope_bytes(schema, key, revision, logical_len as int, frame@));
    Ok(v)
}

/// Encodes one chunk as a `CHNK` envelope at `schema`.
///
/// Older schemas let contract tests encode one logical chunk at every
/// supported version and prove that decoding and migrating each converges on
/// the same normalized result. Bounds are checked before any allocation or
/// compression, and a payload that cannot be read back is rejected.
pub fn encode_at_schema(save: &ChunkSave, schema: u32) -> (res: StorageResult<Vec<u8>>)
    ensures
        res is Ok ==> schema_supported(schema) && save_admitted(*save, schema) && spec_logical_len(
            save.chunk@,
            schema,
        ) <= MAX_DECODED_CHUNK,
        !(schema_supported(schema) && save_admitted(*save, schema) && spec_logical_len(
            save.chunk@,
            schema,
        ) <= MAX_DECODED_CHUNK) ==> res is Err,
        res matches Ok(v) ==> is_envelope_of(v@, *save, schema),
        res matches Err(e) ==> e is Corrupt,
        schema_supported(schema) && save_admitted(*save, schema) && spec_logical_len(
            save.chunk@,
            schema,
        ) <= MAX_DECODED_CHUNK ==> (res matches Err(StorageError::Corrupt(m))
            ==> admitted_save_failure(logical_bytes(save.key, save.revision, save.chunk@, schema), m@)),
{
    check_schema(schema)?;
    let logical_len = chunk_logical_len(save, schema)?;
    let logical = append_logical(save.key, save.revision, &save.chunk, schema);
    proof {
        assert forall|i: int| 0 <= i < save.chunk@.chests.len() implies (
        #[trigger] save.chunk@.chests[i]).items.len() == 27 by {
            assert(save.chunk@.chests[i] == save.chunk.chests@[i]@);
        }
        lemma_logical_len(save.key, save.revision, save.chunk@, schema);
    }
    let frame = compress(logical.as_slice())?;
    let v = seal_envelope(schema, save.key, save.revision, logical_len, frame.as_slice())?;
    proof {
        lemma_le_facts();
        assert(v@.skip(44) =~= frame@);
    }
    Ok(v)
}

/// Encodes one chunk as the bounded, versioned `CHNK` envelope at the current schema.
pub fn encode(save: &ChunkSave) -> (res: StorageResult<Vec<u8>>)
    ensures
        res is Ok ==> save_admitted(*save, CURRENT_SCHEMA) && spec_logical_len(
            save.chunk@,
            CURRENT_SCHEMA,
        ) <= MAX_DECODED_CHUNK,
        !(save_admitted(*save, CURRENT_SCHEMA) && spec_logical_len(save.chunk@, CURRENT_SCHEMA)
            <= MAX_DECODED_CHUNK) ==> res is Err,
        res matches Ok(v) ==> is_envelope_of(v@, *save, CURRENT_SCHEMA),
        res matches Err(e) ==> e is Corrupt,
        save_admitted(*save, CURRENT_SCHEMA) && spec_logical_len(save.chunk@, CURRENT_SCHEMA)
            <= MAX_DECODED_CHUNK ==> (res matches Err(StorageError::Corrupt(m))
            ==> admitted_save_failure(
            logical_bytes(save.key, save.revision, save.chunk@, CURRENT_SCHEMA),
            m@,
        )),
{
    encode_at_schema(save, CURRENT_SCHEMA)
}

/// One caller-owned chunk compression and decompression context.
///
/// The codec owns one zstd context pair reused across calls plus the logical
/// and compressed scratch of the last call. One context belongs to one
/// caller: the `&mut self` borrow serializes access without a lock.
pub struct ChunkCodec {
    compressor: FrameCompressor,
    decompressor: FrameDecompressor,
    logical_scratch: Vec<u8>,
    compressed_scratch: Vec<u8>,
}

/// The message of a failed context setup: which step of building the zstd
/// context pair failed.
pub open spec fn context_setup_failure(m: Seq<char>) -> bool {
    ||| starts_with(m, "create zstd compressor"@ + ": "@)
    ||| starts_with(m, "enable zstd checksum"@ + ": "@)
    ||| starts_with(m, "enable zstd content size"@ + ": "@)
    ||| starts_with(m, "create zstd decompressor"@ + ": "@)
    ||| starts_with(m, "configure zstd window"@ + ": "@)
}

impl ChunkCodec {
    /// The compression level the codec's compressor was handed.
    pub closed spec fn compression_level(&self) -> i32 {
        self.compressor.handed_level()
    }

    /// Frames the codec writes carry the trailing content checksum.
    pub closed spec fn frames_carry_checksum(&self) -> bool {
        self.compressor.handed_checksum()
    }

    /// Frames the codec writes carry their content size in the header.
    pub closed spec fn frames_carry_content_size(&self) -> bool {
        self.compressor.handed_content_size()
    }

    /// The window ceiling, as a power of two, the decompressor was handed.
    pub closed spec fn window_log_max(&self) -> Option<u32> {
        self.decompressor.handed_window_log_max()
    }

    /// The four settings handed to zstd, in one tuple.
    pub open spec fn settings(&self) -> (i32, bool, bool, Option<u32>) {
        (
            self.compression_level(),
            self.frames_carry_checksum(),
            self.frames_carry_content_size(),
            self.window_log_max(),
        )
    }

    /// The settings handed to zstd are those `try_new` gives every codec.
    pub open spec fn configured(&self) -> bool {
        &&& self.compression_level() == COMPRESSION_LEVEL
        &&& self.frames_carry_checksum()
        &&& self.frames_carry_content_size()
        &&& self.window_log_max() == Some(WINDOW_LOG_MAX)
    }

    /// Creates the zstd context pair this codec reuses: frames carry the
    /// content checksum and size, and reads refuse windows beyond the decoded
    /// ceiling.
    pub fn try_new() -> (res: StorageResult<Self>)
        ensures
            res matches Err(e) ==> e matches StorageError::Corrupt(m) && context_setup_failure(m@),
            res matches Ok(codec) ==> codec.configured(),
    {
        let mut compressor = match compressor_new(COMPRESSION_LEVEL) {
            Ok(c) => c,
            Err(e) => {
                return Err(zstd_error("create zstd compressor", e));
            },
        };
        if let Err(e) = compressor_enable(&mut compressor, FrameFlag::Checksum) {
            return Err(zstd_error("enable zstd checksum", e));
        }
        if let Err(e) = compressor_enable(&mut compressor, FrameFlag::ContentSize) {
            return Err(zstd_error("enable zstd content size", e));
        }
        let mut decompressor = match decompressor_new() {
            Ok(d) => d,
            Err(e) => {
                return Err(zstd_error("create zstd decompressor", e));
            },
        };
        if let Err(e) = decompressor_window_log_max(&mut decompressor, WINDOW_LOG_MAX) {
            return Err(zstd_error("configure zstd window", e));
        }
        Ok(ChunkCodec {
            compressor,
            decompressor,
            logical_scratch: Vec::new(),
            compressed_scratch: Vec::new(),
        })
    }

    /// Encodes one current-schema chunk into the prefix of `dst` and returns
    /// the bytes written; the rest of `dst` is untouched, and a failure writes
    /// nothing. A payload whose compression bound exceeds the compressed
    /// ceiling is refused before compression.
    pub fn encode_into(&mut self, save: &ChunkSave, dst: &mut [u8]) -> (res: StorageResult<usize>)
        requires
            old(self).configured(),
        ensures
            final(self).settings() == old(self).settings(),
            res is Ok ==> save_admitted(*save, CURRENT_SCHEMA) && spec_logical_len(
                save.chunk@,
                CURRENT_SCHEMA,
            ) <= MAX_DECODED_CHUNK,
            !(save_admitted(*save, CURRENT_SCHEMA) && spec_logical_len(save.chunk@, CURRENT_SCHEMA)
                <= MAX_DECODED_CHUNK) ==> (res matches Err(e) && e is Corrupt),
            res matches Ok(n) ==> n <= old(dst)@.len() && is_envelope_of(
                final(dst)@.take(n as int),
                *save,
                CURRENT_SCHEMA,
            ) && final(dst)@.skip(n as int) == old(dst)@.skip(n as int),
            res is Err ==> final(dst)@ == old(dst)@,
            res matches Err(e) ==> e is Corrupt || e is OutputTooSmall,
            res matches Err(StorageError::OutputTooSmall { needed, available }) ==> save_admitted(
                *save,
                CURRENT_SCHEMA,
            ) && available == old(dst)@.len() && needed > available && needed == ENVELOPE_LENGTH
                + chunk_frame(logical_bytes(save.key, save.revision, save.chunk@, CURRENT_SCHEMA)).len(),
            res is Ok ==> compress_bound_of(spec_logical_len(save.chunk@, CURRENT_SCHEMA))
                <= MAX_COMPRESSED_CHUNK,
            save_admitted(*save, CURRENT_SCHEMA) && spec_logical_len(save.chunk@, CURRENT_SCHEMA)
                <= MAX_DECODED_CHUNK && compress_bound_of(spec_logical_len(save.chunk@, CURRENT_SCHEMA))
                > MAX_COMPRESSED_CHUNK ==> (res matches Err(StorageError::Corrupt(m)) && m@
                == "compressed chunk"@ + ": "@ + "compress bound "@ + decimal_text(
                compress_bound_of(spec_logical_len(save.chunk@, CURRENT_SCHEMA)) as u64,
            ) + " exceeds limit 1048576"@),
            save_admitted(*save, CURRENT_SCHEMA) && spec_logical_len(save.chunk@, CURRENT_SCHEMA)
                <= MAX_DECODED_CHUNK && compress_bound_of(spec_logical_len(save.chunk@, CURRENT_SCHEMA))
                <= MAX_COMPRESSED_CHUNK ==> (res matches Err(StorageError::Corrupt(m))
                ==> admitted_save_failure(
                logical_bytes(save.key, save.revision, save.chunk@, CURRENT_SCHEMA),
                m@,
            )),
    {
        self.logical_scratch.clear();
        self.compressed_scratch.clear();
        let schema = CURRENT_SCHEMA;
        let logical_len = chunk_logical_len(save, schema)?;
        let logical = append_logical(save.key, save.revision, &save.chunk, schema);
        proof {
            assert forall|i: int| 0 <= i < save.chunk@.chests.len() implies (
            #[trigger] save.chunk@.chests[i]).items.len() == 27 by {
                assert(save.chunk@.chests[i] == save.chunk.chests@[i]@);
            }
            lemma_logical_len(save.key, save.revision, save.chunk@, schema);
        }
        let bound = compress_bound(logical.len());
        if bound > MAX_COMPRESSED_CHUNK as usize {
            return Err(corrupt_numbered(
                "compressed chunk",
                "compress bound ",
                bound as u64,
                " exceeds limit 1048576",
            ));
        }
        if let Err(e) = compressor_pledge(&mut self.compressor, logical.len() as u64) {
            return Err(zstd_error("pledge zstd source size", e));
        }
        let frame = match compressor_compress(&mut self.compressor, logical.as_slice()) {
            Ok(frame) => frame,
            Err(e) => {
                return Err(zstd_error("compress chunk", e));
            },
        };
        let envelope = seal_envelope(schema, save.key, save.revision, logical_len, frame.as_slice())?;
        proof {
            lemma_le_facts();
        }
        if dst.len() < envelope.len() {
            return Err(StorageError::OutputTooSmall {
                needed: envelope.len(),
                available: dst.len(),
            });
        }
        copy_prefix(dst, envelope.as_slice());
        proof {
            lemma_le_facts();
            assert(envelope@.skip(44) =~= frame@);
            assert(dst@.take(envelope@.len() as int) =~= envelope@);
            assert(dst@.skip(envelope@.len() as int) =~= old(dst)@.skip(envelope@.len() as int));
        }
        self.logical_scratch = logical;
        self.compressed_scratch = frame;
        Ok(envelope.len())
    }

    /// Verifies one envelope with this codec's decompression context and
    /// returns an owned chunk normalized to the current schema.
    pub fn decode(&mut self, key: ChunkKey, revision: u64, payload: &[u8]) -> (res: StorageResult<
        DecodedChunk,
    >)
        ensures
            final(self).settings() == old(self).settings(),
            res is Ok ==> revision != 0 && envelope_header_ok(payload@) && identity_matches(
                payload@,
                key,
                revision,
            ),
            res is Ok <==> decodes_ok(key, revision, payload@),
            res matches Ok(dc) ==> content_decodes_to(
                key,
                revision,
                u32_at(payload@, 8),
                frame_content(payload@)->0,
                dc.chunk@,
            ) && dc.key == key && dc.revision == revision && dc.schema == CURRENT_SCHEMA
                && dc.migrated == (u32_at(payload@, 8) < CURRENT_SCHEMA),
            res matches Err(e) ==> (e is FutureVersion <==> revision != 0 && envelope_is_future(
                payload@,
            )),
            res matches Err(e) ==> (e is Corrupt <==> !(revision != 0 && envelope_is_future(
                payload@,
            ))),
    {
        self.logical_scratch.clear();
        self.compressed_scratch.clear();
        if revision == 0 {
            return Err(corrupt("chunk revision", "zero requested revision"));
        }
        let header = parse_envelope_header(payload)?;
        let frame = vstd::slice::slice_subrange(payload, ENVELOPE_LENGTH, payload.len());
        assert(frame@ =~= payload@.skip(44));
        assert(header.decoded_length == u32_at(payload@, 36) as usize);
        let content = match decompressor_decompress(
            &mut self.decompressor,
            frame,
            header.decoded_length,
        ) {
            Ok(content) => content,
            Err(e) => {
                assert(frame_content(payload@) is None);
                return Err(zstd_error("decompress chunk", e));
            },
        };
        assert(frame_content(payload@) == Some(content@));
        let envelope = finish_envelope(header, content)?;
        if envelope.key != key || envelope.revision != revision {
            return Err(corrupt("chunk envelope", "key or revision does not match request"));
        }
        let decoded = decode_content(key, revision, envelope.schema, envelope.bytes.as_slice());
        if decoded.is_ok() {
            self.logical_scratch = envelope.bytes;
        }
        decoded
    }
}

} // verus!
