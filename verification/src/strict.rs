use vstd::prelude::*;

use crate::animation::{animation_frames, frame_outcome, frame_tail_outcome, frames_from};
use crate::decoder::{open_accepts, ResourceInfo};
use crate::error::WarningKind;
use crate::filter::{bad_filter_row, unfilter_accepts, unfilter_outcome, unknown_filter_kinds};
use crate::frame::{FrameInfo, Repeat};
use crate::options::{DecodeLimits, DecodeMode, DecodeOptions};
use crate::pixels::StorageFormat;
use crate::stream::StreamHeader;

verus! {

/// Rows with known filters record no unknown-filter warning.
proof fn lemma_known_filters(input: Seq<u8>, row_len: int, rows: nat)
    requires
        forall|row: int| 0 <= row < rows ==> !#[trigger] bad_filter_row(input, row_len, row),
    ensures
        unknown_filter_kinds(input, row_len, rows) == Seq::<WarningKind>::empty(),
    decreases rows,
{
    if rows > 0 {
        lemma_known_filters(input, row_len, (rows - 1) as nat);
        assert(!bad_filter_row(input, row_len, rows - 1));
        assert(unknown_filter_kinds(input, row_len, rows) =~= Seq::<WarningKind>::empty());
    }
}

/// Strict unfiltering records no warning.
proof fn lemma_strict_unfilter(
    input: Seq<u8>,
    width: u32,
    height: u32,
    bpp: usize,
    block_rows: u8,
    has_filters: bool,
    pixels: Seq<u8>,
    warnings: Seq<WarningKind>,
)
    requires
        unfilter_accepts(input, width, height, bpp, block_rows, has_filters, DecodeMode::Strict, pixels, warnings),
    ensures
        warnings.len() == 0,
{
    if has_filters {
        let row_len = crate::filter::filtered_row_len(width * bpp, has_filters);
        assert forall|row: int| 0 <= row < height as nat implies !#[trigger] bad_filter_row(input, row_len, row) by {
        }
        lemma_known_filters(input, row_len, height as nat);
    }
}

/// A strictly decoded frame records no warning.
proof fn lemma_strict_frame(
    stream: Seq<u8>,
    header: StreamHeader,
    storage: StorageFormat,
    limits: DecodeLimits,
    index: int,
    offset: int,
    frame_end: int,
    total: int,
)
    requires
        frame_outcome(stream, header, storage, DecodeMode::Strict, limits, index, offset, frame_end, total) is Ok,
    ensures
        frame_outcome(stream, header, storage, DecodeMode::Strict, limits, index, offset, frame_end, total)->Ok_0.1.len() == 0,
{
    let info = crate::animation::frame_info_at(stream, offset);
    let bpp = crate::pixels::storage_bpp(storage) as int;
    let compressed_offset = offset + 30;
    let checksum_offset = compressed_offset + crate::animation::frame_compressed_size(stream, offset);
    let remaining = (limits.decoded_byte_limit_spec() - total) as usize;
    let filtered = crate::deflate::raw_inflate(stream.subrange(compressed_offset, checksum_offset), remaining)->Ok_0;
    let width = info.width;
    let height = info.height;
    let bytes_per_pixel = crate::pixels::storage_bpp(storage) as usize;
    let has_filters = header.has_row_filters_spec();
    let outcome = unfilter_outcome(filtered, width, height, bytes_per_pixel, header.block_rows_spec(), has_filters, DecodeMode::Strict);
    if outcome is Ok && has_filters {
        let row_len = crate::filter::filtered_row_len(width * bytes_per_pixel, has_filters);
        assert forall|row: int| 0 <= row < height as nat implies !#[trigger] bad_filter_row(filtered, row_len, row) by {
        }
        lemma_known_filters(filtered, row_len, height as nat);
    }
    let tail = frame_tail_outcome(stream, header, storage, DecodeMode::Strict, info, checksum_offset, frame_end, filtered);
    if tail is Ok {
        assert(tail->Ok_0.1 =~= Seq::<WarningKind>::empty());
    }
    assert(frame_outcome(stream, header, storage, DecodeMode::Strict, limits, index, offset, frame_end, total)->Ok_0.1
        =~= Seq::<WarningKind>::empty());
}

/// Strictly decoding frames from `i` onward adds no warning to `kinds`.
proof fn lemma_strict_frames(
    stream: Seq<u8>,
    header: StreamHeader,
    storage: StorageFormat,
    limits: DecodeLimits,
    offsets: Seq<usize>,
    i: nat,
    total: int,
    done: Seq<(FrameInfo, Seq<u8>)>,
    kinds: Seq<WarningKind>,
)
    requires
        frames_from(stream, header, storage, DecodeMode::Strict, limits, offsets, i, total, done, kinds) is Ok,
    ensures
        frames_from(stream, header, storage, DecodeMode::Strict, limits, offsets, i, total, done, kinds)->Ok_0.1 == kinds,
    decreases offsets.len() - i,
{
    if i < offsets.len() {
        let end = crate::animation::frame_end_of(offsets, header.data_size_spec() as int, i as int);
        let outcome = frame_outcome(stream, header, storage, DecodeMode::Strict, limits, i as int, offsets[i as int] as int, end, total);
        lemma_strict_frame(stream, header, storage, limits, i as int, offsets[i as int] as int, end, total);
        let (frame, added) = outcome->Ok_0;
        assert(kinds + added =~= kinds);
        lemma_strict_frames(stream, header, storage, limits, offsets, i + 1, total + frame.1.len(), done.push(frame), kinds + added);
    }
}

/// In strict mode, opening a resource records no warning: every departure
/// from the format that diagnostic mode would note is an error instead.
pub proof fn lemma_strict_open_records_no_warnings(
    data: Seq<u8>,
    options: DecodeOptions,
    info: ResourceInfo,
    frames: Seq<(FrameInfo, Seq<u8>)>,
    repeat: Option<Repeat>,
    warnings: Seq<WarningKind>,
)
    requires
        options.mode_spec() == DecodeMode::Strict,
        open_accepts(data, options, info, frames, repeat, warnings),
    ensures
        warnings.len() == 0,
{
    let header = crate::header::parse_header_spec(data)->Ok_0;
    let payload = data.subrange(4, data.len() as int);
    if crate::header::format_kind(header.format_spec()) != crate::header::ResourceKind::Pixel {
        let prelude = crate::decoder::ezip_prelude_spec(payload, header, DecodeMode::Strict);
        let (sh, storage, prelude_kinds) = prelude->Ok_0;
        assert(prelude_kinds =~= Seq::<WarningKind>::empty());
        if sh.is_animation_spec() {
            let limits = options.limits_spec();
            let (offsets, _, container_kinds) = crate::animation::animation_prelude_spec(payload, sh, DecodeMode::Strict, limits)->Ok_0;
            assert(container_kinds =~= Seq::<WarningKind>::empty());
            lemma_strict_frames(payload, sh, storage, limits, offsets, 0, 0, Seq::empty(), Seq::empty());
            let frame_kinds = animation_frames(payload, sh, storage, DecodeMode::Strict, limits, offsets)->Ok_0.1;
            assert(warnings =~= prelude_kinds + container_kinds + frame_kinds);
        } else {
            let limits = options.limits_spec();
            let width = header.width_spec() as u32;
            let height = header.height_spec() as u32;
            let (bytes, rows, inflate_kinds, filter_kinds) = choose|
                bytes: Seq<u8>,
                rows: u8,
                inflate_kinds: Seq<WarningKind>,
                filter_kinds: Seq<WarningKind>,
            |
                crate::stream::inflate_accepts(payload, sh, limits.decoded_byte_limit_spec(), DecodeMode::Strict, bytes, rows, inflate_kinds)
                    && unfilter_accepts(
                    bytes,
                    width,
                    height,
                    crate::pixels::storage_bpp(storage) as usize,
                    rows,
                    sh.has_row_filters_spec(),
                    DecodeMode::Strict,
                    frames[0].1,
                    filter_kinds,
                ) && warnings == prelude_kinds + inflate_kinds + filter_kinds;
            lemma_strict_unfilter(
                bytes,
                width,
                height,
                crate::pixels::storage_bpp(storage) as usize,
                rows,
                sh.has_row_filters_spec(),
                frames[0].1,
                filter_kinds,
            );
            assert(inflate_kinds =~= Seq::<WarningKind>::empty());
        }
    }
}

} // verus!
