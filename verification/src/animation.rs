use vstd::prelude::*;

use crate::bytes::{be_u16_at, be_u32_at, le_u32_at, read_be_u16, read_be_u32, read_le_u32};
use crate::checksum::{adler32, adler32_spec, crc32, crc32_spec};
use crate::deflate::{inflate, raw_inflate};
use crate::error::{keeps_prefix, warning_kinds, Error, ErrorKind, Warning, WarningKind};
use crate::filter::{unfilter, unfilter_outcome, unfiltered_plain, unfiltered_rows};
use crate::frame::{blend_from_code, disposal_from_code, repeat_from_play_count, BlendMode, DisposalMethod, FrameInfo, Repeat};
use crate::options::{DecodeLimits, DecodeMode};
use crate::pixels::{storage_bpp, StorageFormat};
use crate::stream::{inflate_failure_kind, StreamHeader};

verus! {

/// One decoded animation frame rectangle in the storage layout.
#[derive(Debug)]
pub(crate) struct AnimationFrame {
    pub info: FrameInfo,
    pub pixels: Vec<u8>,
}

/// The decoded frames of an animation and how often it repeats.
#[derive(Debug)]
pub(crate) struct AnimationData {
    pub repeat: Repeat,
    pub frames: Vec<AnimationFrame>,
}

/// The checks on the CRC-32 trailer after an animation container of
/// `declared` bytes: the warning kinds recorded, or the error kind.
pub open(crate) spec fn container_crc_spec(stream: Seq<u8>, declared: int, mode: DecodeMode) -> Result<Seq<WarningKind>, ErrorKind> {
    let len = stream.len() as int;
    if declared > len {
        Err(ErrorKind::TruncatedData)
    } else if len == declared {
        Ok(Seq::empty())
    } else if len - declared < 4 {
        if mode == DecodeMode::Strict {
            Err(ErrorKind::TruncatedData)
        } else {
            Ok(seq![WarningKind::MissingChecksum])
        }
    } else {
        let crc_ok = le_u32_at(stream, declared) == crc32_spec(stream.subrange(0, declared));
        if !crc_ok && mode == DecodeMode::Strict {
            Err(ErrorKind::ChecksumMismatch)
        } else if len > declared + 4 && mode == DecodeMode::Strict {
            Err(ErrorKind::InvalidAnimation)
        } else {
            Ok((if crc_ok {
                Seq::<WarningKind>::empty()
            } else {
                seq![WarningKind::ChecksumMismatch]
            }) + if len > declared + 4 {
                seq![WarningKind::TrailingData]
            } else {
                Seq::<WarningKind>::empty()
            })
        }
    }
}

/// The container checksum of an animation, by what follows the `declared`
/// bytes of the container: a stream shorter than them is truncated; nothing
/// after them passes with no warning; one to three bytes are a truncated
/// checksum in strict mode and a missing-checksum warning otherwise; four or
/// more begin with the CRC-32 of the container, a mismatch being an error in
/// strict mode and a warning otherwise; bytes past those four are an error in
/// strict mode and a trailing-data warning otherwise.
pub proof fn lemma_container_crc_cases(stream: Seq<u8>, declared: int, mode: DecodeMode)
    ensures
        ({
            let len = stream.len() as int;
            let crc_ok = le_u32_at(stream, declared) == crc32_spec(stream.subrange(0, declared));
            let strict = mode == DecodeMode::Strict;
            let outcome = container_crc_spec(stream, declared, mode);
            &&& declared > len ==> outcome == Err::<Seq<WarningKind>, ErrorKind>(ErrorKind::TruncatedData)
            &&& declared == len ==> outcome == Ok::<Seq<WarningKind>, ErrorKind>(Seq::empty())
            &&& declared < len < declared + 4 ==> outcome == if strict {
                Err::<Seq<WarningKind>, ErrorKind>(ErrorKind::TruncatedData)
            } else {
                Ok(seq![WarningKind::MissingChecksum])
            }
            &&& len >= declared + 4 && !crc_ok && strict ==> outcome == Err::<Seq<WarningKind>, ErrorKind>(
                ErrorKind::ChecksumMismatch,
            )
            &&& len > declared + 4 && crc_ok && strict ==> outcome == Err::<Seq<WarningKind>, ErrorKind>(
                ErrorKind::InvalidAnimation,
            )
            &&& len == declared + 4 && crc_ok ==> outcome == Ok::<Seq<WarningKind>, ErrorKind>(Seq::empty())
            &&& len >= declared + 4 && !strict ==> outcome == Ok::<Seq<WarningKind>, ErrorKind>(
                (if crc_ok {
                    Seq::empty()
                } else {
                    seq![WarningKind::ChecksumMismatch]
                }) + (if len > declared + 4 {
                    seq![WarningKind::TrailingData]
                } else {
                    Seq::empty()
                }),
            )
        }),
{
    let len = stream.len() as int;
    if len == declared + 4 && le_u32_at(stream, declared) == crc32_spec(stream.subrange(0, declared)) {
        assert(Seq::<WarningKind>::empty() + Seq::<WarningKind>::empty() =~= Seq::<WarningKind>::empty());
    }
}

/// Whether frame-table entry `i` is an aligned offset past the table and
/// inside the declared container.
pub open spec fn frame_offset_ok(stream: Seq<u8>, i: int, table_end: int, declared: int) -> bool {
    let offset = be_u32_at(stream, 24 + 4 * i);
    offset % 4 == 0 && offset >= table_end && offset < declared
}

/// The checks on an animation container up to its frames: the frame offsets,
/// the stored play count and the warning kinds recorded, or the error kind.
pub open(crate) spec fn animation_prelude_spec(
    stream: Seq<u8>,
    header: StreamHeader,
    mode: DecodeMode,
    limits: DecodeLimits,
) -> Result<(Seq<usize>, u32, Seq<WarningKind>), ErrorKind> {
    let declared = header.data_size_spec() as int;
    match container_crc_spec(stream, declared, mode) {
        Err(kind) => Err(kind),
        Ok(warnings) => {
            if header.palette_count_spec() != 0 {
                Err(ErrorKind::UnsupportedFormat)
            } else if stream.len() < 24 {
                Err(ErrorKind::TruncatedData)
            } else {
                let frame_count = be_u32_at(stream, 16);
                let table_end = 24 + 4 * frame_count;
                if frame_count == 0 {
                    Err(ErrorKind::InvalidAnimation)
                } else if frame_count > limits.frame_limit_spec() {
                    Err(ErrorKind::LimitExceeded)
                } else if 4 * frame_count > usize::MAX {
                    Err(ErrorKind::LimitExceeded)
                } else if table_end > stream.len() {
                    Err(ErrorKind::TruncatedData)
                } else if exists|i: int| 0 <= i < frame_count && !#[trigger] frame_offset_ok(stream, i, table_end, declared) {
                    Err(ErrorKind::InvalidOffset)
                } else if exists|i: int|
                    1 <= i < frame_count && be_u32_at(stream, 20 + 4 * i) >= #[trigger] be_u32_at(stream, 24 + 4 * i) {
                    Err(ErrorKind::InvalidOffset)
                } else {
                    Ok((
                        Seq::new(frame_count as nat, |i: int| be_u32_at(stream, 24 + 4 * i) as usize),
                        be_u32_at(stream, 20) as u32,
                        warnings,
                    ))
                }
            }
        },
    }
}

/// The metadata stored in the frame header at `offset`.
pub open(crate) spec fn frame_info_at(stream: Seq<u8>, offset: int) -> FrameInfo {
    FrameInfo {
        sequence: be_u32_at(stream, offset) as u32,
        width: be_u32_at(stream, offset + 4) as u32,
        height: be_u32_at(stream, offset + 8) as u32,
        x_offset: be_u32_at(stream, offset + 12) as u32,
        y_offset: be_u32_at(stream, offset + 16) as u32,
        delay_numerator: be_u16_at(stream, offset + 20) as u16,
        delay_denominator: be_u16_at(stream, offset + 22) as u16,
        disposal: disposal_from_code(stream[offset + 24]).unwrap(),
        blend: blend_from_code(stream[offset + 25]).unwrap(),
    }
}

/// The size of the DEFLATE data stored in the frame header at `offset`.
pub open spec fn frame_compressed_size(stream: Seq<u8>, offset: int) -> int {
    be_u16_at(stream, offset + 26) * 65536 + be_u16_at(stream, offset + 28)
}

/// The stored bytes of a frame rectangle recovered from its filtered rows.
pub open(crate) spec fn frame_pixels(filtered: Seq<u8>, info: FrameInfo, bpp: int, block_rows: u8, has_filters: bool) -> Seq<u8> {
    if has_filters {
        unfiltered_rows(filtered, info.width * bpp, info.height as int, bpp, block_rows)
    } else {
        unfiltered_plain(filtered, info.height * (info.width * bpp))
    }
}

/// Each frame's metadata with its stored pixel bytes.
pub open(crate) spec fn frame_views(frames: Seq<AnimationFrame>) -> Seq<(FrameInfo, Seq<u8>)> {
    Seq::new(frames.len(), |i: int| (frames[i].info, frames[i].pixels@))
}

/// Decoded bytes of the frames before frame `i`.
pub open spec fn frames_total(frames: Seq<(FrameInfo, Seq<u8>)>, i: int) -> int
    decreases i,
{
    if i <= 0 {
        0
    } else {
        frames_total(frames, i - 1) + frames[i - 1].1.len()
    }
}

/// What a frame decoded from `stream` holds: the metadata of its header,
/// a rectangle inside the canvas, and the pixels of its DEFLATE data.
pub open(crate) spec fn frame_decoded(
    stream: Seq<u8>,
    header: StreamHeader,
    storage: StorageFormat,
    limits: DecodeLimits,
    offset: int,
    frame: (FrameInfo, Seq<u8>),
    total: int,
) -> bool {
    let info = frame.0;
    let bpp = storage_bpp(storage) as int;
    let compressed_offset = offset + 30;
    let checksum_offset = compressed_offset + frame_compressed_size(stream, offset);
    &&& offset + 30 <= stream.len()
    &&& disposal_from_code(stream[offset + 24]) == Some(info.disposal)
    &&& blend_from_code(stream[offset + 25]) == Some(info.blend)
    &&& info == frame_info_at(stream, offset)
    &&& 1 <= info.width && 1 <= info.height
    &&& info.x_offset + info.width <= header.width_spec()
    &&& info.y_offset + info.height <= header.height_spec()
    &&& info.width <= limits.width_limit_spec() && info.height <= limits.height_limit_spec()
    &&& total + info.height * (info.width * bpp) <= limits.decoded_byte_limit_spec()
    &&& frame.1.len() == info.height * (info.width * bpp)
    &&& raw_inflate(stream.subrange(compressed_offset, checksum_offset), (limits.decoded_byte_limit_spec() - total) as usize)
        matches Ok(filtered) && frame.1 == frame_pixels(
        filtered,
        info,
        bpp,
        header.block_rows_spec(),
        header.has_row_filters_spec(),
    )
}

/// Whether the bytes from `start` up to `end` are alignment padding: at most
/// three bytes, all zero.
pub open spec fn padding_ok(stream: Seq<u8>, start: int, end: int) -> bool {
    end - start <= 3 && forall|k: int| start <= k < end ==> stream[k] == 0
}

/// Decoding frame `index`, whose header starts at `offset` and whose data
/// ends by `frame_end`, after `total` decoded bytes of earlier frames: the
/// frame's metadata and stored pixel bytes with the warning kinds recorded,
/// or the error kind.
pub open(crate) spec fn frame_outcome(
    stream: Seq<u8>,
    header: StreamHeader,
    storage: StorageFormat,
    mode: DecodeMode,
    limits: DecodeLimits,
    index: int,
    offset: int,
    frame_end: int,
    total: int,
) -> Result<((FrameInfo, Seq<u8>), Seq<WarningKind>), ErrorKind> {
    let bpp = storage_bpp(storage) as int;
    if offset + 30 > stream.len() {
        Err(ErrorKind::TruncatedData)
    } else if disposal_from_code(stream[offset + 24]) is None || blend_from_code(stream[offset + 25]) is None {
        Err(ErrorKind::InvalidAnimation)
    } else {
        let info = frame_info_at(stream, offset);
        let compressed_offset = offset + 30;
        let checksum_offset = compressed_offset + frame_compressed_size(stream, offset);
        let size = info.height * (info.width * bpp);
        if info.width == 0 || info.height == 0 || info.x_offset + info.width > header.width_spec() || info.y_offset
            + info.height > header.height_spec() {
            Err(ErrorKind::InvalidDimensions)
        } else if info.sequence != index && mode == DecodeMode::Strict {
            Err(ErrorKind::InvalidAnimation)
        } else if checksum_offset > usize::MAX {
            Err(ErrorKind::LimitExceeded)
        } else if checksum_offset + 4 > usize::MAX || checksum_offset + 4 > frame_end {
            Err(ErrorKind::TruncatedData)
        } else if info.width * info.height > usize::MAX || size > usize::MAX || total + size > usize::MAX || info.width
            > limits.width_limit_spec() || info.height > limits.height_limit_spec() || total + size
            > limits.decoded_byte_limit_spec() {
            Err(ErrorKind::LimitExceeded)
        } else {
            let remaining = (limits.decoded_byte_limit_spec() - total) as usize;
            match raw_inflate(stream.subrange(compressed_offset, checksum_offset), remaining) {
                Err(held) => Err(inflate_failure_kind(held, remaining)),
                Ok(filtered) => match frame_tail_outcome(
                    stream,
                    header,
                    storage,
                    mode,
                    info,
                    checksum_offset,
                    frame_end,
                    filtered,
                ) {
                    Err(kind) => Err(kind),
                    Ok((frame, kinds)) => Ok((
                        frame,
                        (if info.sequence != index {
                            seq![WarningKind::MetadataMismatch]
                        } else {
                            Seq::empty()
                        }) + kinds,
                    )),
                },
            }
        }
    }
}

/// What follows the decompression of a frame whose metadata is `info`: the
/// checksum at `checksum_offset`, the padding up to `frame_end` and the
/// unfiltering of `filtered`. The frame with the warning kinds recorded, or
/// the error kind.
pub open(crate) spec fn frame_tail_outcome(
    stream: Seq<u8>,
    header: StreamHeader,
    storage: StorageFormat,
    mode: DecodeMode,
    info: FrameInfo,
    checksum_offset: int,
    frame_end: int,
    filtered: Seq<u8>,
) -> Result<((FrameInfo, Seq<u8>), Seq<WarningKind>), ErrorKind> {
    let adler_ok = be_u32_at(stream, checksum_offset) == adler32_spec(filtered);
    let padded = padding_ok(stream, checksum_offset + 4, frame_end);
    if !adler_ok && mode == DecodeMode::Strict {
        Err(ErrorKind::ChecksumMismatch)
    } else if !padded && mode == DecodeMode::Strict {
        Err(ErrorKind::InvalidAnimation)
    } else {
        match unfilter_outcome(
            filtered,
            info.width,
            info.height,
            storage_bpp(storage) as usize,
            header.block_rows_spec(),
            header.has_row_filters_spec(),
            mode,
        ) {
            Err(kind) => Err(kind),
            Ok((pixels, kinds)) => Ok((
                (info, pixels),
                (if adler_ok {
                    Seq::empty()
                } else {
                    seq![WarningKind::ChecksumMismatch]
                }) + (if padded {
                    Seq::empty()
                } else {
                    seq![WarningKind::TrailingData]
                }) + kinds,
            )),
        }
    }
}

/// Whether the end of the DEFLATE data of the frame whose header starts at
/// `offset` lies past the largest addressable offset.
pub open spec fn frame_size_overflows(stream: Seq<u8>, offset: int) -> bool {
    offset + 30 + frame_compressed_size(stream, offset) > usize::MAX
}

/// Where the data of frame `i` must end: at the next frame's offset, or at
/// the declared container size for the last frame.
pub open spec fn frame_end_of(offsets: Seq<usize>, declared: int, i: int) -> int {
    if i + 1 < offsets.len() {
        offsets[i + 1] as int
    } else {
        declared
    }
}

/// Decoding frames `i` onward after `total` decoded bytes, following the
/// frames `done` and warning kinds `kinds` already found: every frame and
/// warning kind, or the error kind of the first frame that fails.
pub open(crate) spec fn frames_from(
    stream: Seq<u8>,
    header: StreamHeader,
    storage: StorageFormat,
    mode: DecodeMode,
    limits: DecodeLimits,
    offsets: Seq<usize>,
    i: nat,
    total: int,
    done: Seq<(FrameInfo, Seq<u8>)>,
    kinds: Seq<WarningKind>,
) -> Result<(Seq<(FrameInfo, Seq<u8>)>, Seq<WarningKind>), ErrorKind>
    decreases offsets.len() - i,
{
    if i >= offsets.len() {
        Ok((done, kinds))
    } else {
        match frame_outcome(
            stream,
            header,
            storage,
            mode,
            limits,
            i as int,
            offsets[i as int] as int,
            frame_end_of(offsets, header.data_size_spec() as int, i as int),
            total,
        ) {
            Err(kind) => Err(kind),
            Ok((frame, added)) => frames_from(
                stream,
                header,
                storage,
                mode,
                limits,
                offsets,
                i + 1,
                total + frame.1.len(),
                done.push(frame),
                kinds + added,
            ),
        }
    }
}

/// The index of the first frame from `i` onward that fails to decode after
/// `total` decoded bytes, or -1 when every one of them decodes.
pub open(crate) spec fn failing_frame(
    stream: Seq<u8>,
    header: StreamHeader,
    storage: StorageFormat,
    mode: DecodeMode,
    limits: DecodeLimits,
    offsets: Seq<usize>,
    i: nat,
    total: int,
) -> int
    decreases offsets.len() - i,
{
    if i >= offsets.len() {
        -1
    } else {
        match frame_outcome(
            stream,
            header,
            storage,
            mode,
            limits,
            i as int,
            offsets[i as int] as int,
            frame_end_of(offsets, header.data_size_spec() as int, i as int),
            total,
        ) {
            Err(_) => i as int,
            Ok((frame, _)) => failing_frame(stream, header, storage, mode, limits, offsets, i + 1, total + frame.1.len()),
        }
    }
}

/// Decoding every frame of an animation whose frame table holds `offsets`.
pub open(crate) spec fn animation_frames(
    stream: Seq<u8>,
    header: StreamHeader,
    storage: StorageFormat,
    mode: DecodeMode,
    limits: DecodeLimits,
    offsets: Seq<usize>,
) -> Result<(Seq<(FrameInfo, Seq<u8>)>, Seq<WarningKind>), ErrorKind> {
    frames_from(stream, header, storage, mode, limits, offsets, 0, 0, Seq::empty(), Seq::empty())
}

fn push_warning(warnings: &mut Vec<Warning>, warning: Warning)
    ensures
        keeps_prefix(old(warnings)@, final(warnings)@),
        final(warnings)@ == old(warnings)@.push(warning),
        warning_kinds(final(warnings)@) == warning_kinds(old(warnings)@).push(warning.kind_spec()),
{
    warnings.push(warning);
    assert(warning_kinds(final(warnings)@) =~= warning_kinds(old(warnings)@).push(warning.kind_spec()));
}

/// Check the CRC-32 trailer that may follow an animation container.
fn validate_container_crc(stream: &[u8], header: StreamHeader, mode: DecodeMode, warnings: &mut Vec<Warning>) -> (r:
    crate::Result<()>)
    ensures
        keeps_prefix(old(warnings)@, final(warnings)@),
        match r {
            Ok(_) => container_crc_spec(stream@, header.data_size_spec() as int, mode) matches Ok(added)
                && warning_kinds(final(warnings)@) == warning_kinds(old(warnings)@) + added,
            Err(e) => container_crc_spec(stream@, header.data_size_spec() as int, mode) == Err::<Seq<WarningKind>, ErrorKind>(
                e.kind_spec(),
            ),
        },
{
    let declared = header.data_size() as usize;
    if declared > stream.len() {
        return Err(Error::new(ErrorKind::TruncatedData, "animation is shorter than its declared size"));
    }
    let ghost start = warning_kinds(warnings@);
    let trailer_len = stream.len() - declared;
    if trailer_len == 0 {
        assert(warning_kinds(warnings@) =~= start + Seq::<WarningKind>::empty());
        return Ok(());
    }
    if trailer_len < 4 {
        if mode == DecodeMode::Strict {
            return Err(Error::new(ErrorKind::TruncatedData, "animation CRC-32 trailer is truncated").at_offset(declared));
        }
        push_warning(warnings, Warning::new(WarningKind::MissingChecksum, "animation CRC-32 trailer is truncated").at_offset(declared));
        assert(warning_kinds(warnings@) =~= start + seq![WarningKind::MissingChecksum]);
        return Ok(());
    }
    let trailer_end = declared + 4;
    let stored = read_le_u32(stream, declared);
    let calculated = crc32(&stream[0..declared]);
    if stored != calculated {
        if mode == DecodeMode::Strict {
            return Err(Error::new(ErrorKind::ChecksumMismatch, "animation CRC-32 mismatch").at_offset(declared));
        }
        push_warning(warnings, Warning::new(WarningKind::ChecksumMismatch, "animation CRC-32 mismatch").at_offset(declared));
    }
    if stream.len() > trailer_end {
        if mode == DecodeMode::Strict {
            return Err(Error::new(ErrorKind::InvalidAnimation, "bytes follow the animation CRC-32").at_offset(trailer_end));
        }
        push_warning(warnings, Warning::new(WarningKind::TrailingData, "ignored bytes after the animation CRC-32").at_offset(trailer_end));
    }
    proof {
        let added = (if stored == calculated {
            Seq::<WarningKind>::empty()
        } else {
            seq![WarningKind::ChecksumMismatch]
        }) + if stream@.len() > declared + 4 {
            seq![WarningKind::TrailingData]
        } else {
            Seq::<WarningKind>::empty()
        };
        assert(warning_kinds(warnings@) =~= start + added);
    }
    Ok(())
}


/// Check the container of an animation and read its frame-offset table.
#[verifier::loop_isolation(false)]
fn read_frame_table(
    stream: &[u8],
    header: StreamHeader,
    mode: DecodeMode,
    limits: DecodeLimits,
    warnings: &mut Vec<Warning>,
) -> (r: crate::Result<(Vec<usize>, u32)>)
    ensures
        keeps_prefix(old(warnings)@, final(warnings)@),
        match r {
            Ok((offsets, play_count)) => animation_prelude_spec(stream@, header, mode, limits) matches Ok((o, p, added))
                && o == offsets@ && p == play_count && warning_kinds(final(warnings)@) == warning_kinds(old(warnings)@) + added,
            Err(e) => animation_prelude_spec(stream@, header, mode, limits) == Err::<(Seq<usize>, u32, Seq<WarningKind>), ErrorKind>(
                e.kind_spec(),
            ),
        },
{
    validate_container_crc(stream, header, mode, warnings)?;
    let ghost after_crc = warning_kinds(warnings@);
    let ghost crc_added = container_crc_spec(stream@, header.data_size_spec() as int, mode)->Ok_0;
    let declared = header.data_size() as usize;
    assert(declared <= stream@.len());
    assert(after_crc == warning_kinds(old(warnings)@) + crc_added);
    if header.palette_count() != 0 {
        return Err(Error::new(ErrorKind::UnsupportedFormat, "palette animation decoding requires a verified palette fixture"));
    }
    if stream.len() < 24 {
        return Err(Error::new(ErrorKind::TruncatedData, "animation control is truncated"));
    }
    let frame_count = read_be_u32(stream, 16) as usize;
    let play_count = read_be_u32(stream, 20);
    if frame_count == 0 {
        return Err(Error::new(ErrorKind::InvalidAnimation, "animation contains no frames"));
    }
    if frame_count > limits.frame_limit() {
        return Err(Error::new(ErrorKind::LimitExceeded, "animation has more frames than the configured limit"));
    }
    if frame_count > usize::MAX / 4 {
        return Err(Error::new(ErrorKind::LimitExceeded, "frame table size overflow"));
    }
    let table_len = frame_count * 4;
    if table_len > stream.len() - 24 {
        return Err(Error::new(ErrorKind::TruncatedData, "frame-offset table is truncated"));
    }
    let table_end = 24 + table_len;
    let ghost sv = stream@;
    let mut offsets: Vec<usize> = Vec::new();
    let mut index: usize = 0;
    while index < frame_count
        invariant
            index <= frame_count,
            offsets@.len() == index,
            forall|i: int| 0 <= i < index ==> frame_offset_ok(sv, i, table_end as int, declared as int),
            forall|i: int| 1 <= i < index ==> be_u32_at(sv, 20 + 4 * i) < #[trigger] be_u32_at(sv, 24 + 4 * i),
            forall|i: int| 0 <= i < index ==> offsets@[i] == be_u32_at(sv, 24 + 4 * i),
        decreases frame_count - index,
    {
        let entry = 24 + index * 4;
        let offset = read_be_u32(stream, entry) as usize;
        if offset % 4 != 0 || offset < table_end || offset >= declared {
            proof {
                assert(!frame_offset_ok(sv, index as int, table_end as int, declared as int));
            }
            return Err(Error::new(ErrorKind::InvalidOffset, "animation frame has an invalid offset").in_frame(index).at_offset(entry));
        }
        if index > 0 && offsets[index - 1] >= offset {
            proof {
                assert(be_u32_at(sv, 20 + 4 * index) == be_u32_at(sv, 24 + 4 * (index - 1)));
            }
            return Err(Error::new(ErrorKind::InvalidOffset, "animation frame offsets are not strictly increasing").in_frame(index));
        }
        proof {
            if index > 0 {
                assert(be_u32_at(sv, 20 + 4 * index) == be_u32_at(sv, 24 + 4 * (index - 1)));
            }
        }
        offsets.push(offset);
        index = index + 1;
    }
    let ghost offs = Seq::new(frame_count as nat, |i: int| be_u32_at(sv, 24 + 4 * i) as usize);
    proof {
        assert(offsets@ =~= offs);
        assert(frame_count == be_u32_at(sv, 16));
        assert(play_count == be_u32_at(sv, 20));
        assert(!exists|i: int| 0 <= i < frame_count && !#[trigger] frame_offset_ok(sv, i, table_end as int, declared as int));
        assert(animation_prelude_spec(sv, header, mode, limits) == Ok::<(Seq<usize>, u32, Seq<WarningKind>), ErrorKind>((
            offs,
            play_count,
            crc_added,
        )));
    }
    Ok((offsets, play_count))
}

/// Every frame of a frame table holds what decoding it from `stream` yields.
pub open(crate) spec fn all_frames_decoded(
    stream: Seq<u8>,
    header: StreamHeader,
    storage: StorageFormat,
    limits: DecodeLimits,
    offsets: Seq<usize>,
    frames: Seq<(FrameInfo, Seq<u8>)>,
) -> bool {
    forall|i: int|
        0 <= i < offsets.len() ==> #[trigger] frame_decoded(
            stream,
            header,
            storage,
            limits,
            offsets[i] as int,
            frames[i],
            frames_total(frames, i),
        )
}

/// Decode the frames at `offsets`, each ending where the next one starts and
/// the last at the declared container size.
#[verifier::loop_isolation(false)]
#[verifier::spinoff_prover]
#[verifier::rlimit(40)]
fn decode_frames(
    stream: &[u8],
    header: StreamHeader,
    storage: StorageFormat,
    mode: DecodeMode,
    limits: DecodeLimits,
    offsets: &Vec<usize>,
    warnings: &mut Vec<Warning>,
) -> (r: crate::Result<Vec<AnimationFrame>>)
    requires
        header.data_size_spec() <= stream@.len(),
        forall|i: int| 0 <= i < offsets@.len() ==> offsets@[i] < frame_end_of(offsets@, header.data_size_spec() as int, i),
        forall|i: int| 0 <= i < offsets@.len() ==> offsets@[i] < header.data_size_spec(),
    ensures
        keeps_prefix(old(warnings)@, final(warnings)@),
        match r {
            Ok(frames) => frames@.len() == offsets@.len() && all_frames_decoded(
                stream@,
                header,
                storage,
                limits,
                offsets@,
                frame_views(frames@),
            ) && (animation_frames(stream@, header, storage, mode, limits, offsets@) matches Ok((decoded, added))
                && decoded == frame_views(frames@) && warning_kinds(final(warnings)@) == warning_kinds(old(warnings)@) + added),
            Err(e) => animation_frames(stream@, header, storage, mode, limits, offsets@) == Err::<
                (Seq<(FrameInfo, Seq<u8>)>, Seq<WarningKind>),
                ErrorKind,
            >(e.kind_spec()) && ({
                let i = failing_frame(stream@, header, storage, mode, limits, offsets@, 0, 0);
                0 <= i < offsets@.len() && (e.frame_index_spec() == Some(i as usize) || frame_size_overflows(
                    stream@,
                    offsets@[i] as int,
                ))
            }),
        },
{
    let ghost sv = stream@;
    let ghost offs = offsets@;
    let ghost start = warning_kinds(warnings@);
    let ghost goal = animation_frames(sv, header, storage, mode, limits, offs);
    let frame_count = offsets.len();
    let declared = header.data_size() as usize;
    let mut frames: Vec<AnimationFrame> = Vec::new();
    let mut total_decoded: usize = 0;
    let ghost mut added: Seq<WarningKind> = Seq::empty();
    assert(warning_kinds(warnings@) =~= start + added);
    assert(frame_views(frames@) =~= Seq::<(FrameInfo, Seq<u8>)>::empty());
    let mut index: usize = 0;
    while index < frame_count
        invariant
            index <= frame_count,
            frame_count == offs.len(),
            frames@.len() == index,
            total_decoded == frames_total(frame_views(frames@), index as int),
            frame_views(frames@).len() == index,
            total_decoded <= limits.decoded_byte_limit_spec(),
            all_frames_decoded(sv, header, storage, limits, offs.subrange(0, index as int), frame_views(frames@)),
            warning_kinds(warnings@) == start + added,
            keeps_prefix(old(warnings)@, warnings@),
            failing_frame(sv, header, storage, mode, limits, offs, index as nat, total_decoded as int) == failing_frame(
                sv,
                header,
                storage,
                mode,
                limits,
                offs,
                0,
                0,
            ),
            frames_from(sv, header, storage, mode, limits, offs, index as nat, total_decoded as int, frame_views(frames@), added)
                == goal,
        decreases frame_count - index,
    {
        let offset = offsets[index];
        let frame_end = if index + 1 < frame_count {
            offsets[index + 1]
        } else {
            declared
        };
        proof {
            assert(frame_end == frame_end_of(offs, header.data_size_spec() as int, index as int));
            if index + 1 < frame_count {
                assert(offs[index + 1] < header.data_size_spec());
            }
        }
        let ghost before = warning_kinds(warnings@);
        let frame = decode_animation_frame(stream, header, storage, mode, limits, index, offset, frame_end, total_decoded, warnings)?;
        proof {
            let more = frame_outcome(sv, header, storage, mode, limits, index as int, offset as int, frame_end as int, total_decoded as int)->Ok_0.1;
            added = added + more;
            assert(warning_kinds(warnings@) =~= start + added);
        }
        let size = frame.pixels.len();
        let ghost old_frames = frames@;
        frames.push(frame);
        proof {
            assert(frame_views(frames@) =~= frame_views(old_frames).push((frame.info, frame.pixels@)));
            lemma_frames_total_prefix(frame_views(old_frames), frame_views(frames@), index as int);
            assert forall|i: int| 0 <= i < index + 1 implies #[trigger] frame_decoded(
                sv,
                header,
                storage,
                limits,
                offs.subrange(0, index + 1)[i] as int,
                frame_views(frames@)[i],
                frames_total(frame_views(frames@), i),
            ) by {
                lemma_frames_total_prefix(frame_views(old_frames), frame_views(frames@), i);
                if i < index {
                    assert(offs.subrange(0, index as int)[i] == offs.subrange(0, index + 1)[i]);
                    assert(frame_decoded(
                        sv,
                        header,
                        storage,
                        limits,
                        offs.subrange(0, index as int)[i] as int,
                        frame_views(old_frames)[i],
                        frames_total(frame_views(old_frames), i),
                    ));
                }
            }
        }
        total_decoded = total_decoded + size;
        index = index + 1;
    }
    proof {
        assert(offs.subrange(0, index as int) =~= offs);
    }
    Ok(frames)
}

/// Decode every frame of an animation container.
pub(crate) fn parse_animation(
    stream: &[u8],
    header: StreamHeader,
    storage: StorageFormat,
    mode: DecodeMode,
    limits: DecodeLimits,
    warnings: &mut Vec<Warning>,
) -> (r: crate::Result<AnimationData>)
    ensures
        keeps_prefix(old(warnings)@, final(warnings)@),
        match r {
            Ok(anim) => animation_prelude_spec(stream@, header, mode, limits) matches Ok((offsets, play_count, prelude))
                && anim.repeat == repeat_from_play_count(play_count) && anim.frames@.len() == offsets.len()
                && all_frames_decoded(stream@, header, storage, limits, offsets, frame_views(anim.frames@))
                && (animation_frames(stream@, header, storage, mode, limits, offsets) matches Ok((decoded, added))
                && decoded == frame_views(anim.frames@) && warning_kinds(final(warnings)@) == warning_kinds(old(warnings)@)
                + prelude + added),
            Err(e) => match animation_prelude_spec(stream@, header, mode, limits) {
                Err(kind) => e.kind_spec() == kind,
                Ok((offsets, _, _)) => animation_frames(stream@, header, storage, mode, limits, offsets) == Err::<
                    (Seq<(FrameInfo, Seq<u8>)>, Seq<WarningKind>),
                    ErrorKind,
                >(e.kind_spec()) && ({
                    let i = failing_frame(stream@, header, storage, mode, limits, offsets, 0, 0);
                    0 <= i < offsets.len() && (e.frame_index_spec() == Some(i as usize) || frame_size_overflows(
                        stream@,
                        offsets[i] as int,
                    ))
                }),
            },
        },
{
    let (offsets, play_count) = read_frame_table(stream, header, mode, limits, warnings)?;
    let ghost sv = stream@;
    let ghost offs = offsets@;
    let ghost declared = header.data_size_spec() as int;
    let ghost table_end: int = 24 + 4 * (offs.len() as int);
    proof {
        assert forall|i: int| 0 <= i < offs.len() implies offs[i] < frame_end_of(offs, declared, i) by {
            assert(frame_offset_ok(sv, i, table_end, declared));
            if i + 1 < offs.len() {
                assert(be_u32_at(sv, 20 + 4 * (i + 1)) < be_u32_at(sv, 24 + 4 * (i + 1)));
            }
        }
        assert forall|i: int| 0 <= i < offs.len() implies offs[i] < declared by {
            assert(frame_offset_ok(sv, i, table_end, declared));
        }
    }
    let frames = decode_frames(stream, header, storage, mode, limits, &offsets, warnings)?;
    let repeat = if play_count == 0 {
        Repeat::Infinite
    } else {
        Repeat::Finite(play_count)
    };
    proof {
        assert(repeat == repeat_from_play_count(play_count));
    }
    Ok(AnimationData { repeat, frames })
}

/// Decode the frame whose header starts at `offset` and whose data ends by
/// `frame_end`, after `total` decoded bytes of earlier frames.
#[verifier::loop_isolation(false)]
#[verifier::spinoff_prover]
#[verifier::rlimit(100)]
fn decode_animation_frame(
    stream: &[u8],
    header: StreamHeader,
    storage: StorageFormat,
    mode: DecodeMode,
    limits: DecodeLimits,
    index: usize,
    offset: usize,
    frame_end: usize,
    total_decoded: usize,
    warnings: &mut Vec<Warning>,
) -> (r: crate::Result<AnimationFrame>)
    requires
        offset < frame_end <= stream@.len(),
        total_decoded <= limits.decoded_byte_limit_spec(),
    ensures
        keeps_prefix(old(warnings)@, final(warnings)@),
        match r {
            Ok(frame) => frame_decoded(stream@, header, storage, limits, offset as int, (frame.info, frame.pixels@), total_decoded as int)
                && (frame_outcome(stream@, header, storage, mode, limits, index as int, offset as int, frame_end as int, total_decoded as int)
                matches Ok((f, added)) && f == (frame.info, frame.pixels@) && warning_kinds(final(warnings)@) == warning_kinds(
                old(warnings)@,
            ) + added),
            Err(e) => frame_outcome(stream@, header, storage, mode, limits, index as int, offset as int, frame_end as int, total_decoded as int)
                == Err::<((FrameInfo, Seq<u8>), Seq<WarningKind>), ErrorKind>(e.kind_spec()) && (e.frame_index_spec() == Some(index)
                || frame_size_overflows(stream@, offset as int)),
        },
{
    let ghost sv = stream@;
    let ghost start = warning_kinds(warnings@);
    let ghost mut added: Seq<WarningKind> = Seq::empty();
    assert(warning_kinds(warnings@) =~= start + added);
    let bpp = storage.bytes_per_pixel();
        if offset > stream.len() || 30 > stream.len() - offset {
        return Err(Error::new(ErrorKind::TruncatedData, "animation frame header is truncated").in_frame(index).at_offset(offset));
    }
    let sequence = read_be_u32(stream, offset);
    let width = read_be_u32(stream, offset + 4);
    let height = read_be_u32(stream, offset + 8);
    let x_offset = read_be_u32(stream, offset + 12);
    let y_offset = read_be_u32(stream, offset + 16);
    let delay_numerator = read_be_u16(stream, offset + 20);
    let delay_denominator = read_be_u16(stream, offset + 22);
    let disposal_byte = stream[offset + 24];
    let disposal = if disposal_byte == 0 {
        DisposalMethod::Keep
    } else if disposal_byte == 1 {
        DisposalMethod::Background
    } else if disposal_byte == 2 {
        DisposalMethod::Previous
    } else {
        return Err(Error::new(ErrorKind::InvalidAnimation, "frame has an invalid disposal operation").in_frame(index).at_offset(offset + 24));
    };
    let blend_byte = stream[offset + 25];
    let blend = if blend_byte == 0 {
        BlendMode::Source
    } else if blend_byte == 1 {
        BlendMode::Over
    } else {
        return Err(Error::new(ErrorKind::InvalidAnimation, "frame has an invalid blend operation").in_frame(index).at_offset(offset + 25));
    };
    let compressed_size = read_be_u16(stream, offset + 26) as usize * 65536 + read_be_u16(stream, offset + 28) as usize;
    let canvas_width = header.width() as u32;
    let canvas_height = header.height() as u32;
    if width == 0 || height == 0 || x_offset > u32::MAX - width || x_offset + width > canvas_width || y_offset
        > u32::MAX - height || y_offset + height > canvas_height {
        return Err(Error::new(ErrorKind::InvalidDimensions, "frame rectangle exceeds the canvas").in_frame(index));
    }
    if sequence as usize != index {
        if mode == DecodeMode::Strict {
            return Err(Error::new(ErrorKind::InvalidAnimation, "frame table index and sequence number differ").in_frame(index));
        }
        push_warning(warnings, Warning::new(WarningKind::MetadataMismatch, "frame table index and sequence number differ").in_frame(index));
        proof {
            added = added.push(WarningKind::MetadataMismatch);
            assert(warning_kinds(warnings@) =~= start + added);
        }
    }
    let compressed_offset = offset + 30;
    if compressed_size > usize::MAX - compressed_offset {
        return Err(Error::new(ErrorKind::LimitExceeded, "frame size overflow"));
    }
    let checksum_offset = compressed_offset + compressed_size;
    if checksum_offset > usize::MAX - 4 || checksum_offset + 4 > frame_end {
        return Err(Error::new(ErrorKind::TruncatedData, "frame compressed payload or checksum is truncated").in_frame(index).at_offset(compressed_offset));
    }
    let compressed = &stream[compressed_offset..checksum_offset];
    proof {
        assert((width as int * height as int) * bpp == height * (width * bpp)) by (nonlinear_arith);
    }
    let area = match (width as usize).checked_mul(height as usize) {
        Some(v) => v,
        None => {
            return Err(Error::new(ErrorKind::LimitExceeded, "decoded size overflow").in_frame(index));
        },
    };
    let size = match area.checked_mul(bpp) {
        Some(v) => v,
        None => {
            return Err(Error::new(ErrorKind::LimitExceeded, "decoded size overflow").in_frame(index));
        },
    };
    let decoded_size = match total_decoded.checked_add(size) {
        Some(v) => v,
        None => {
            return Err(Error::new(ErrorKind::LimitExceeded, "decoded size overflow").in_frame(index));
        },
    };
    if width > limits.width_limit() || height > limits.height_limit() || decoded_size > limits.decoded_byte_limit() {
        return Err(Error::new(ErrorKind::LimitExceeded, "animation frame exceeds configured decode limits").in_frame(index));
    }
    proof {
        assert(area * bpp == height * (width * bpp)) by (nonlinear_arith)
            requires
                area == width * height,
        ;
    }
    let remaining = limits.decoded_byte_limit() - total_decoded;
    let filtered = match inflate(compressed, remaining) {
        Ok(v) => v,
        Err(held) => {
            let kind = if held >= remaining {
                ErrorKind::LimitExceeded
            } else {
                ErrorKind::InvalidCompression
            };
            return Err(Error::new(kind, "invalid animation frame DEFLATE stream").in_frame(index).at_offset(compressed_offset));
        },
    };
    let info = FrameInfo {
        sequence,
        width,
        height,
        x_offset,
        y_offset,
        delay_numerator,
        delay_denominator,
        disposal,
        blend,
    };
    let frame = finish_animation_frame(stream, header, storage, mode, index, info, checksum_offset, frame_end, filtered, warnings)?;
    proof {
        let more = frame_tail_outcome(sv, header, storage, mode, info, checksum_offset as int, frame_end as int, filtered@)->Ok_0.1;
        added = added + more;
        assert(warning_kinds(warnings@) =~= start + added);
    }
    Ok(frame)
}

/// Check the checksum and padding after a frame's DEFLATE data and unfilter
/// its decompressed rows.
#[verifier::loop_isolation(false)]
#[verifier::spinoff_prover]
#[verifier::rlimit(60)]
fn finish_animation_frame(
    stream: &[u8],
    header: StreamHeader,
    storage: StorageFormat,
    mode: DecodeMode,
    index: usize,
    info: FrameInfo,
    checksum_offset: usize,
    frame_end: usize,
    filtered: Vec<u8>,
    warnings: &mut Vec<Warning>,
) -> (r: crate::Result<AnimationFrame>)
    requires
        checksum_offset + 4 <= frame_end <= stream@.len(),
    ensures
        keeps_prefix(old(warnings)@, final(warnings)@),
        match r {
            Ok(frame) => frame_tail_outcome(stream@, header, storage, mode, info, checksum_offset as int, frame_end as int, filtered@)
                matches Ok((f, added)) && f == (frame.info, frame.pixels@) && warning_kinds(final(warnings)@) == warning_kinds(
                old(warnings)@,
            ) + added,
            Err(e) => frame_tail_outcome(stream@, header, storage, mode, info, checksum_offset as int, frame_end as int, filtered@)
                == Err::<((FrameInfo, Seq<u8>), Seq<WarningKind>), ErrorKind>(e.kind_spec()) && e.frame_index_spec() == Some(index),
        },
{
    let ghost sv = stream@;
    let ghost start = warning_kinds(warnings@);
    let ghost mut added: Seq<WarningKind> = Seq::empty();
    assert(warning_kinds(warnings@) =~= start + added);
    let bpp = storage.bytes_per_pixel();
    let stored_checksum = read_be_u32(stream, checksum_offset);
    let calculated = adler32(filtered.as_slice());
    if stored_checksum != calculated {
        if mode == DecodeMode::Strict {
            return Err(Error::new(ErrorKind::ChecksumMismatch, "frame Adler-32 mismatch").in_frame(index).at_offset(checksum_offset));
        }
        push_warning(warnings, Warning::new(WarningKind::ChecksumMismatch, "frame Adler-32 mismatch").in_frame(index).at_offset(checksum_offset));
        proof {
            added = added.push(WarningKind::ChecksumMismatch);
            assert(warning_kinds(warnings@) =~= start + added);
        }
    }
    let padding_start = checksum_offset + 4;
    let mut padding_ok = frame_end - padding_start <= 3;
    let mut k = padding_start;
    while k < frame_end
        invariant
            padding_start <= k <= frame_end,
            frame_end <= stream@.len(),
            sv == stream@,
            padding_ok == (frame_end - padding_start <= 3 && forall|j: int| padding_start <= j < k ==> sv[j] == 0),
        decreases frame_end - k,
    {
        if stream[k] != 0 {
            padding_ok = false;
        }
        k = k + 1;
    }
    if !padding_ok {
        if mode == DecodeMode::Strict {
            return Err(Error::new(ErrorKind::InvalidAnimation, "frame has invalid alignment padding").in_frame(index).at_offset(padding_start));
        }
        push_warning(warnings, Warning::new(WarningKind::TrailingData, "frame has invalid alignment padding").in_frame(index).at_offset(padding_start));
        proof {
            added = added.push(WarningKind::TrailingData);
            assert(warning_kinds(warnings@) =~= start + added);
        }
    }
    let decoded = match unfilter(filtered.as_slice(), info.width, info.height, bpp, header.block_rows(), header.has_row_filters(), mode) {
        Ok(d) => d,
        Err(e) => {
            return Err(e.in_frame(index));
        },
    };
    let ghost before_unfilter = added;
    let mut w: usize = 0;
    while w < decoded.warnings.len()
        invariant
            w <= decoded.warnings@.len(),
            warning_kinds(warnings@) == start + added,
            added == before_unfilter + warning_kinds(decoded.warnings@).subrange(0, w as int),
            keeps_prefix(old(warnings)@, warnings@),
        decreases decoded.warnings@.len() - w,
    {
        let warning = decoded.warnings[w].copy_in_frame(index);
        push_warning(warnings, warning);
        proof {
            added = added.push(warning.kind_spec());
            assert(warning_kinds(warnings@) =~= start + added);
            assert(warning_kinds(decoded.warnings@).subrange(0, w + 1) =~= warning_kinds(decoded.warnings@).subrange(0, w as int).push(
                warning.kind_spec(),
            ));
        }
        w = w + 1;
    }
    proof {
        assert(warning_kinds(decoded.warnings@).subrange(0, w as int) =~= warning_kinds(decoded.warnings@));
    }
    let pixels = decoded.pixels;
    let frame = AnimationFrame { info, pixels };
    proof {
        assert(warning_kinds(warnings@) == start + added);
    }
    Ok(frame)
}

proof fn lemma_frames_total_prefix(a: Seq<(FrameInfo, Seq<u8>)>, b: Seq<(FrameInfo, Seq<u8>)>, i: int)
    requires
        0 <= i <= a.len(),
        i <= b.len(),
        forall|j: int| 0 <= j < i ==> a[j] == b[j],
    ensures
        frames_total(a, i) == frames_total(b, i),
    decreases i,
{
    if i > 0 {
        lemma_frames_total_prefix(a, b, i - 1);
    }
}

} // verus!
