//! The zstd frame calls the chunk envelope makes, with assumed contracts.
//!
//! Nothing here is proved: each item states what the `zstd` crate (binding the
//! reference libzstd) and the zstd frame format give of the call. Compression
//! resets its session and pledges the input size itself, so a frame is a
//! function of the input and the parameters handed to the context; one-pass
//! decompression uses no dictionary and no window ceiling, so its outcome is a
//! function of the frame and the output capacity.
use vstd::prelude::*;

verus! {

#[verifier::external_type_specification]
#[verifier::external_body]
pub struct ExCompressor<'a>(zstd::bulk::Compressor<'a>);

#[verifier::external_type_specification]
#[verifier::external_body]
pub struct ExDecompressor<'a>(zstd::bulk::Decompressor<'a>);

#[verifier::external_type_specification]
#[verifier::external_body]
pub struct ExIoError(std::io::Error);

/// The frame libzstd's one-shot compression writes for `data` at `level`, with
/// the content checksum and content size flags as given and every other
/// parameter at its default.
pub uninterp spec fn zstd_frame_of(data: Seq<u8>, level: i32, checksum: bool, content_size: bool) -> Seq<u8>;

/// What libzstd's one-pass decompression of `frame` into an output of
/// `capacity` bytes gives: the content, or `None` where it refuses (a malformed
/// or truncated frame, a content checksum mismatch, more content than fits).
pub uninterp spec fn zstd_decompressed(frame: Seq<u8>, capacity: usize) -> Option<Seq<u8>>;

/// The zstd frame magic number, little-endian.
pub open spec fn zstd_magic() -> Seq<u8> {
    seq![0x28u8, 0xB5u8, 0x2Fu8, 0xFDu8]
}

/// A zstd frame whose header descriptor sets the content checksum flag: four
/// checksum bytes end the frame.
pub open spec fn frame_has_checksum(f: Seq<u8>) -> bool {
    &&& f.len() >= 5
    &&& f.take(4) == zstd_magic()
    &&& f[4] & 0x04u8 != 0
}

/// A zstd frame whose header descriptor declares a content size field: a
/// nonzero content size flag, or a single-segment frame.
pub open spec fn frame_carries_size(f: Seq<u8>) -> bool {
    &&& f.len() >= 5
    &&& f.take(4) == zstd_magic()
    &&& (f[4] >> 6u8 != 0 || f[4] & 0x20u8 != 0)
}

/// A frame header flag the chunk encoder switches on.
pub enum FrameFlag {
    /// The trailing 32-bit content checksum.
    Checksum,
    /// The content size in the frame header.
    ContentSize,
}

/// A zstd compression context, with a model of the settings it was handed:
/// the compression level and the two frame header flags.
pub struct FrameCompressor {
    context: zstd::bulk::Compressor<'static>,
    level: Ghost<i32>,
    checksum: Ghost<bool>,
    content_size: Ghost<bool>,
}

impl FrameCompressor {
    /// The compression level this context was handed.
    pub closed spec fn handed_level(&self) -> i32 {
        self.level@
    }

    /// The content checksum flag was set on this context.
    pub closed spec fn handed_checksum(&self) -> bool {
        self.checksum@
    }

    /// The content size flag was set on this context.
    pub closed spec fn handed_content_size(&self) -> bool {
        self.content_size@
    }
}

/// A zstd decompression context, with a model of the window ceiling it was
/// handed, if any.
pub struct FrameDecompressor {
    context: zstd::bulk::Decompressor<'static>,
    window_log_max: Ghost<Option<u32>>,
}

impl FrameDecompressor {
    /// The window ceiling, as a power of two, this context was handed.
    pub closed spec fn handed_window_log_max(&self) -> Option<u32> {
        self.window_log_max@
    }
}

/// `zstd::bulk::Compressor::new`: a compression context at `level`, with
/// neither frame flag set yet.
#[verifier::external_body]
pub(crate) fn compressor_new(level: i32) -> (r: Result<FrameCompressor, std::io::Error>)
    ensures
        r matches Ok(c) ==> c.handed_level() == level && !c.handed_checksum() && !c.handed_content_size(),
{
    match zstd::bulk::Compressor::new(level) {
        Ok(context) => Ok(FrameCompressor {
            context,
            level: Ghost(level),
            checksum: Ghost(false),
            content_size: Ghost(false),
        }),
        Err(e) => Err(e),
    }
}

/// `zstd::bulk::Compressor::set_parameter` with `ChecksumFlag(true)` or
/// `ContentSizeFlag(true)`: on success that flag is set for later frames.
/// The level and the other flag are left as they were.
#[verifier::external_body]
pub(crate) fn compressor_enable(compressor: &mut FrameCompressor, flag: FrameFlag) -> (r: Result<
    (),
    std::io::Error,
>)
    ensures
        final(compressor).handed_level() == old(compressor).handed_level(),
        flag is Checksum ==> final(compressor).handed_content_size() == old(compressor).handed_content_size(),
        flag is ContentSize ==> final(compressor).handed_checksum() == old(compressor).handed_checksum(),
        r is Ok && flag is Checksum ==> final(compressor).handed_checksum(),
        r is Ok && flag is ContentSize ==> final(compressor).handed_content_size(),
{
    let parameter = match flag {
        FrameFlag::Checksum => zstd::zstd_safe::CParameter::ChecksumFlag(true),
        FrameFlag::ContentSize => zstd::zstd_safe::CParameter::ContentSizeFlag(true),
    };
    let r = compressor.context.set_parameter(parameter);
    if r.is_ok() {
        match flag {
            FrameFlag::Checksum => compressor.checksum = Ghost(true),
            FrameFlag::ContentSize => compressor.content_size = Ghost(true),
        }
    }
    r
}

/// `zstd::bulk::Compressor::set_pledged_src_size(Some(size))`: it records the
/// size the next frame declares and leaves the modelled settings as they were.
#[verifier::external_body]
pub(crate) fn compressor_pledge(compressor: &mut FrameCompressor, size: u64) -> (r: Result<
    (),
    std::io::Error,
>)
    ensures
        final(compressor).handed_level() == old(compressor).handed_level(),
        final(compressor).handed_checksum() == old(compressor).handed_checksum(),
        final(compressor).handed_content_size() == old(compressor).handed_content_size(),
{
    compressor.context.set_pledged_src_size(Some(size))
}

/// `zstd::bulk::Compressor::compress`: one complete frame of `data`. On
/// success the frame is the one the context's level and flags give for
/// `data`; it decompresses to `data`; and its header carries each flag the
/// context was handed. Whether the call succeeds (the context's allocations)
/// is left unsaid; the modelled settings are kept.
#[verifier::external_body]
pub(crate) fn compressor_compress(compressor: &mut FrameCompressor, data: &[u8]) -> (r: Result<
    Vec<u8>,
    std::io::Error,
>)
    ensures
        final(compressor).handed_level() == old(compressor).handed_level(),
        final(compressor).handed_checksum() == old(compressor).handed_checksum(),
        final(compressor).handed_content_size() == old(compressor).handed_content_size(),
        r matches Ok(frame) ==> frame@ == zstd_frame_of(
            data@,
            old(compressor).handed_level(),
            old(compressor).handed_checksum(),
            old(compressor).handed_content_size(),
        ),
        r matches Ok(frame) ==> zstd_decompressed(frame@, data@.len() as usize) == Some(data@),
        r matches Ok(frame) ==> (old(compressor).handed_checksum() ==> frame_has_checksum(frame@)),
        r matches Ok(frame) ==> (old(compressor).handed_content_size() ==> frame_carries_size(
            frame@,
        )),
{
    compressor.context.compress(data)
}

/// `zstd::bulk::Decompressor::new`: a decompression context with no window
/// ceiling of its own yet.
#[verifier::external_body]
pub(crate) fn decompressor_new() -> (r: Result<FrameDecompressor, std::io::Error>)
    ensures
        r matches Ok(d) ==> d.handed_window_log_max() is None,
{
    match zstd::bulk::Decompressor::new() {
        Ok(context) => Ok(FrameDecompressor { context, window_log_max: Ghost(None) }),
        Err(e) => Err(e),
    }
}

/// `zstd::bulk::Decompressor::set_parameter(WindowLogMax(log))`: on success
/// the context records the ceiling `2^log`, which libzstd applies to streaming
/// decompression only.
#[verifier::external_body]
pub(crate) fn decompressor_window_log_max(decompressor: &mut FrameDecompressor, log: u32) -> (r:
    Result<(), std::io::Error>)
    ensures
        r is Ok ==> final(decompressor).handed_window_log_max() == Some(log),
        r is Err ==> final(decompressor).handed_window_log_max() == old(decompressor).handed_window_log_max(),
{
    let r = decompressor.context.set_parameter(zstd::zstd_safe::DParameter::WindowLogMax(log));
    if r.is_ok() {
        decompressor.window_log_max = Ghost(Some(log));
    }
    r
}

/// `zstd::bulk::Decompressor::decompress`: one-pass decompression of `frame`
/// into at most `capacity` bytes. It succeeds exactly when libzstd's one-pass
/// decompression does, and then gives that content. The window ceiling the
/// context holds applies to streaming only, so it plays no part here; the
/// modelled ceiling is kept.
#[verifier::external_body]
pub(crate) fn decompressor_decompress(
    decompressor: &mut FrameDecompressor,
    frame: &[u8],
    capacity: usize,
) -> (r: Result<Vec<u8>, std::io::Error>)
    requires
        capacity <= isize::MAX,
    ensures
        final(decompressor).handed_window_log_max() == old(decompressor).handed_window_log_max(),
        r is Ok <==> zstd_decompressed(frame@, capacity) is Some,
        r matches Ok(content) ==> zstd_decompressed(frame@, capacity) == Some(content@)
            && content@.len() <= capacity,
{
    decompressor.context.decompress(frame, capacity)
}

/// `zstd::bulk::decompress`: the same one-pass decompression on a fresh
/// context. It succeeds exactly when libzstd's one-pass decompression does,
/// and then gives that content.
#[verifier::external_body]
pub(crate) fn bulk_decompress(frame: &[u8], capacity: usize) -> (r: Result<Vec<u8>, std::io::Error>)
    requires
        capacity <= isize::MAX,
    ensures
        r is Ok <==> zstd_decompressed(frame@, capacity) is Some,
        r matches Ok(content) ==> zstd_decompressed(frame@, capacity) == Some(content@)
            && content@.len() <= capacity,
{
    zstd::bulk::decompress(frame, capacity)
}

/// libzstd's `ZSTD_COMPRESSBOUND` for `size` input bytes below its input
/// ceiling: the input, a 1/256 margin, and a small-input margin below 128 KiB.
pub open spec fn compress_bound_of(size: int) -> int {
    size + size / 256 + (if size < 0x2_0000 {
        (0x2_0000 - size) / 2048
    } else {
        0
    })
}

/// `zstd::zstd_safe::compress_bound`: libzstd's `ZSTD_COMPRESSBOUND`, the
/// largest frame one call can produce for `size` input bytes.
#[verifier::external_body]
pub(crate) fn compress_bound(size: usize) -> (r: usize)
    requires
        size < 0xFF00_FF00,
    ensures
        r == compress_bound_of(size as int),
{
    zstd::zstd_safe::compress_bound(size)
}

} // verus!
