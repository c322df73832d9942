use vstd::prelude::*;

use crate::animation_encoder::{
    animation_resource_bytes, animation_storage, AnimationEncoder, animation_base, animation_body, animation_container, before_record, fill_table, frame_record, lemma_fill_step,
    lemma_frame_record, lemma_records_step, owned_filtered, owned_frame_fits, owned_stored, padded4, record_offset, records_from,
    write_be_u32,
};
use crate::bytes::{be_u16_at, be_u16_bytes, be_u32_at, be_u32_bytes, le_u32_at, le_u32_bytes};
use crate::checksum::{adler32_spec, crc32_spec};
use crate::deflate::{raw_deflate, raw_inflate};
use crate::encoder::{resolve_resource_format_spec, ResourceEncoding, bit_depth_spec, color_type_spec, dither_index, input_rgba, stored_chunk, stream_header_spec};
use crate::error::ErrorKind;
use crate::stream::{parse_stream_header_spec, StreamHeader};
use crate::encoder::EncodeOptions;
use crate::animation::{animation_frames, animation_prelude_spec, container_crc_spec, frame_offset_ok, frame_compressed_size, frame_end_of, frame_info_at, frame_outcome, frames_from, frames_total, padding_ok};
use crate::frame::{repeat_from_play_count, blend_code, blend_from_code, disposal_code, disposal_from_code, play_count_of, BlendMode, DisposalMethod, FrameInfo, Repeat};
use crate::options::{DecodeLimits, DecodeMode, DecodeOptions};
use crate::decoder::{ezip_prelude_spec, open_accepts, open_rejects, outer_matches, resource_info, storage_bit_depth_of, ResourceInfo};
use crate::header::{format_kind, header_bytes, parse_header_spec, ResourceHeader, ResourceKind};
use crate::error::WarningKind;
use crate::pixels::{pixel_bpp, storage_bpp, PixelFormat, StorageFormat};

verus! {

/// The frame-table entry `j` of an animation container.
pub open spec fn table_entry(s: Seq<u8>, j: int) -> int {
    be_u32_at(s, 24 + 4 * j)
}

/// The records of the first `m` frames begin with the records of the first `i`.
proof fn lemma_records_prefix(
    frames: Seq<(FrameInfo, PixelFormat, Seq<u8>)>,
    storage: StorageFormat,
    options: EncodeOptions,
    base: Seq<u8>,
    i: nat,
    m: nat,
)
    requires
        i <= m,
    ensures
        records_from(frames, storage, options, base, i).len() <= records_from(frames, storage, options, base, m).len(),
        forall|p: int|
            0 <= p < records_from(frames, storage, options, base, i).len() ==> #[trigger] records_from(
                frames,
                storage,
                options,
                base,
                m,
            )[p] == records_from(frames, storage, options, base, i)[p],
    decreases m - i,
{
    if i < m {
        let k = (m - 1) as nat;
        lemma_records_prefix(frames, storage, options, base, i, k);
        lemma_records_step(frames, storage, options, base, k);
        let prev = records_from(frames, storage, options, base, k);
        let before = before_record(prev, k as int);
        let rec = frame_record(k as int, frames[k as int], storage, options);
        assert(before.len() >= prev.len());
        assert forall|p: int| 0 <= p < prev.len() implies #[trigger] (before + rec)[p] == prev[p] by {
            assert(before[p] == prev[p]);
        }
    }
}

/// Record `i` follows the records before it after at most three zero bytes,
/// starting on a four-byte boundary unless it is the first.
proof fn lemma_record_layout(
    frames: Seq<(FrameInfo, PixelFormat, Seq<u8>)>,
    storage: StorageFormat,
    options: EncodeOptions,
    base: Seq<u8>,
    i: nat,
)
    ensures
        ({
            let prev = records_from(frames, storage, options, base, i);
            let off = record_offset(frames, storage, options, base, i as int);
            let rec = frame_record(i as int, frames[i as int], storage, options);
            let next = records_from(frames, storage, options, base, i + 1);
            &&& next.len() == off + rec.len()
            &&& prev.len() <= off <= prev.len() + 3
            &&& i > 0 ==> off % 4 == 0
            &&& i == 0 ==> off == prev.len()
            &&& forall|p: int| prev.len() <= p < off ==> #[trigger] next[p] == 0
            &&& forall|c: int| 0 <= c < rec.len() ==> #[trigger] next[off + c] == rec[c]
            &&& forall|p: int| 0 <= p < prev.len() ==> #[trigger] next[p] == prev[p]
        }),
{
    lemma_records_step(frames, storage, options, base, i);
    let prev = records_from(frames, storage, options, base, i);
    let before = before_record(prev, i as int);
    let rec = frame_record(i as int, frames[i as int], storage, options);
    let next = records_from(frames, storage, options, base, i + 1);
    assert(next == before + rec);
    if i > 0 {
        assert(before == padded4(prev));
        assert(before.len() % 4 == 0);
    }
    assert forall|p: int| prev.len() <= p < before.len() implies #[trigger] next[p] == 0 by {
        assert(next[p] == before[p]);
    }
    assert forall|c: int| 0 <= c < rec.len() implies #[trigger] next[before.len() + c] == rec[c] by {
    }
    assert forall|p: int| 0 <= p < prev.len() implies #[trigger] next[p] == prev[p] by {
        assert(next[p] == before[p]);
    }
}

/// Filling the first `k` frame-table entries writes record offsets there and
/// leaves every other byte alone.
proof fn lemma_fill_table(
    body: Seq<u8>,
    frames: Seq<(FrameInfo, PixelFormat, Seq<u8>)>,
    storage: StorageFormat,
    options: EncodeOptions,
    base: Seq<u8>,
    k: nat,
)
    requires
        24 + 4 * k <= body.len(),
        forall|j: int| 0 <= j < k ==> 0 <= #[trigger] record_offset(frames, storage, options, base, j) <= u32::MAX,
    ensures
        fill_table(body, frames, storage, options, base, k).len() == body.len(),
        forall|p: int|
            0 <= p < body.len() && !(24 <= p < 24 + 4 * k) ==> #[trigger] fill_table(body, frames, storage, options, base, k)[p]
                == body[p],
        forall|j: int|
            0 <= j < k ==> #[trigger] table_entry(fill_table(body, frames, storage, options, base, k), j) == record_offset(
                frames,
                storage,
                options,
                base,
                j,
            ),
    decreases k,
{
    lemma_fill_step(body, frames, storage, options, base, 0);
    if k > 0 {
        let j0 = (k - 1) as nat;
        lemma_fill_table(body, frames, storage, options, base, j0);
        lemma_fill_step(body, frames, storage, options, base, j0);
        let prev = fill_table(body, frames, storage, options, base, j0);
        let value = record_offset(frames, storage, options, base, j0 as int) as u32;
        let cur = fill_table(body, frames, storage, options, base, k);
        let pos: int = 24 + 4 * (j0 as int);
        assert(cur == write_be_u32(prev, pos, value));
        assert(cur.len() == body.len());
        crate::bytes::lemma_le_u32_roundtrip(value);
        assert forall|p: int| 0 <= p < body.len() && !(24 <= p < 24 + 4 * k) implies #[trigger] cur[p] == body[p] by {
            assert(cur[p] == prev[p]);
        }
        assert forall|j: int| 0 <= j < k implies #[trigger] table_entry(cur, j) == record_offset(frames, storage, options, base, j) by {
            if j < j0 {
                assert(cur[24 + 4 * j] == prev[24 + 4 * j]);
                assert(cur[24 + 4 * j + 1] == prev[24 + 4 * j + 1]);
                assert(cur[24 + 4 * j + 2] == prev[24 + 4 * j + 2]);
                assert(cur[24 + 4 * j + 3] == prev[24 + 4 * j + 3]);
                assert(table_entry(prev, j) == record_offset(frames, storage, options, base, j));
            } else {
                assert(cur[pos] == be_u32_bytes(value)[0]);
                assert(cur[pos + 1] == be_u32_bytes(value)[1]);
                assert(cur[pos + 2] == be_u32_bytes(value)[2]);
                assert(cur[pos + 3] == be_u32_bytes(value)[3]);
            }
        }
    }
}


/// Where record `i` lies in a finished animation container: past the frame
/// table, named by table entry `i`, and followed by at most three zero bytes
/// before the next record, or by the end of the container.
proof fn lemma_container_record(
    width: u16,
    height: u16,
    repeat: Repeat,
    options: EncodeOptions,
    storage: StorageFormat,
    frames: Seq<(FrameInfo, PixelFormat, Seq<u8>)>,
    i: nat,
)
    requires
        i < frames.len(),
        animation_body(width, height, repeat, options, storage, frames).len() <= u32::MAX,
    ensures
        ({
            let n = frames.len();
            let base = animation_base(width, height, repeat, options, storage, n);
            let body = animation_body(width, height, repeat, options, storage, frames);
            let c = animation_container(width, height, repeat, options, storage, frames);
            let off = record_offset(frames, storage, options, base, i as int);
            let rec = frame_record(i as int, frames[i as int], storage, options);
            let end = off + rec.len();
            &&& base.len() == 24 + 4 * n
            &&& c.len() == body.len()
            &&& base.len() <= off
            &&& i == 0 ==> off == base.len()
            &&& i > 0 ==> off % 4 == 0
            &&& end <= body.len()
            &&& forall|k: int| 0 <= k < rec.len() ==> c[off + k] == #[trigger] rec[k]
            &&& table_entry(c, i as int) == off
            &&& i + 1 < n ==> ({
                let next = record_offset(frames, storage, options, base, i as int + 1);
                &&& end <= next <= end + 3
                &&& forall|p: int| end <= p < next ==> #[trigger] c[p] == 0
            })
            &&& i + 1 == n ==> end == body.len()
        }),
{
    let n = frames.len();
    let base = animation_base(width, height, repeat, options, storage, n);
    let body = animation_body(width, height, repeat, options, storage, frames);
    let table = fill_table(body, frames, storage, options, base, n);
    let c = animation_container(width, height, repeat, options, storage, frames);
    assert(base.len() == 24 + 4 * n);
    lemma_records_step(frames, storage, options, base, 0);
    assert(body == records_from(frames, storage, options, base, n));
    lemma_records_prefix(frames, storage, options, base, 0, n);
    assert forall|j: int| 0 <= j < n implies 0 <= #[trigger] record_offset(frames, storage, options, base, j) <= u32::MAX by {
        lemma_record_layout(frames, storage, options, base, j as nat);
        lemma_records_prefix(frames, storage, options, base, (j + 1) as nat, n);
    }
    lemma_fill_table(body, frames, storage, options, base, n);
    assert(c == write_be_u32(table, 0, body.len() as u32));
    lemma_records_prefix(frames, storage, options, base, i, n);
    lemma_records_prefix(frames, storage, options, base, 0, i);
    lemma_record_layout(frames, storage, options, base, i);
    lemma_records_prefix(frames, storage, options, base, i + 1, n);
    let prev = records_from(frames, storage, options, base, i);
    let next_records = records_from(frames, storage, options, base, i + 1);
    let off = record_offset(frames, storage, options, base, i as int);
    let rec = frame_record(i as int, frames[i as int], storage, options);
    assert forall|k: int| 0 <= k < rec.len() implies c[off + k] == #[trigger] rec[k] by {
        assert(next_records[off + k] == rec[k]);
        assert(body[off + k] == next_records[off + k]);
        assert(table[off + k] == body[off + k]);
    }
    let e = 24 + 4 * (i as int);
    assert(c[e] == table[e] && c[e + 1] == table[e + 1] && c[e + 2] == table[e + 2] && c[e + 3] == table[e + 3]);
    assert(table_entry(table, i as int) == off);
    if i + 1 < n {
        lemma_record_layout(frames, storage, options, base, i + 1);
        lemma_records_prefix(frames, storage, options, base, i + 2, n);
        let later = records_from(frames, storage, options, base, i + 2);
        let next = record_offset(frames, storage, options, base, i as int + 1);
        assert forall|p: int| off + rec.len() <= p < next implies #[trigger] c[p] == 0 by {
            assert(later[p] == 0);
            assert(body[p] == later[p]);
            assert(table[p] == body[p]);
        }
    }
}


/// The stream header and animation control at the start of a finished
/// animation container.
#[verifier::spinoff_prover]
#[verifier::rlimit(40)]
proof fn lemma_container_header(
    width: u16,
    height: u16,
    repeat: Repeat,
    options: EncodeOptions,
    storage: StorageFormat,
    frames: Seq<(FrameInfo, PixelFormat, Seq<u8>)>,
)
    requires
        width >= 1,
        height >= 1,
        frames.len() >= 1,
        animation_body(width, height, repeat, options, storage, frames).len() <= u32::MAX,
    ensures
        ({
            let body = animation_body(width, height, repeat, options, storage, frames);
            let c = animation_container(width, height, repeat, options, storage, frames);
            &&& parse_stream_header_spec(c) == Ok::<StreamHeader, ErrorKind>(
                StreamHeader {
                    data_size: body.len() as u32,
                    control: (80 + color_type_spec(storage)) as u8,
                    bit_depth: bit_depth_spec(storage),
                    block_rows: options.block_rows_spec(),
                    flags: 0,
                    width,
                    height,
                    filter_mode: if options.row_filters_spec() {
                        0u8
                    } else {
                        1u8
                    },
                    palette_count: 0,
                },
            )
            &&& be_u32_at(c, 16) == frames.len()
            &&& be_u32_at(c, 20) == play_count_of(repeat)
            &&& c.len() == body.len()
        }),
{
    let n = frames.len();
    let base = animation_base(width, height, repeat, options, storage, n);
    let body = animation_body(width, height, repeat, options, storage, frames);
    let table = fill_table(body, frames, storage, options, base, n);
    let c = animation_container(width, height, repeat, options, storage, frames);
    lemma_container_record(width, height, repeat, options, storage, frames, 0);
    lemma_records_step(frames, storage, options, base, 0);
    lemma_records_prefix(frames, storage, options, base, 0, n);
    assert forall|j: int| 0 <= j < n implies 0 <= #[trigger] record_offset(frames, storage, options, base, j) <= u32::MAX by {
        lemma_container_record(width, height, repeat, options, storage, frames, j as nat);
    }
    lemma_fill_table(body, frames, storage, options, base, n);
    let control = (80 + color_type_spec(storage)) as u8;
    let size = body.len() as u32;
    let head0 = stream_header_spec(0, control, storage, options.block_rows_spec(), width, height, options.row_filters_spec());
    let head = stream_header_spec(size, control, storage, options.block_rows_spec(), width, height, options.row_filters_spec());
    assert(base == head0 + be_u32_bytes(n as u32) + be_u32_bytes(play_count_of(repeat)) + Seq::new(4 * n, |i: int| 0u8));
    assert forall|p: int| 4 <= p < 24 implies #[trigger] c[p] == base[p] by {
        assert(c[p] == table[p]);
        assert(table[p] == body[p]);
    }
    assert forall|p: int| 0 <= p < 4 implies #[trigger] c[p] == be_u32_bytes(size)[p] by {
    }
    assert(c == head + c.subrange(16, c.len() as int)) by {
        assert forall|p: int| 0 <= p < c.len() implies #[trigger] c[p] == (head + c.subrange(16, c.len() as int))[p] by {
            if p < 4 {
            } else if p < 16 {
                assert(base[p] == head0[p]);
            }
        }
        assert(c =~= head + c.subrange(16, c.len() as int));
    }
    crate::roundtrip::lemma_stream_header_parses(
        size,
        control,
        storage,
        options.block_rows_spec(),
        width,
        height,
        options.row_filters_spec(),
        c.subrange(16, c.len() as int),
    );
    crate::bytes::lemma_le_u32_roundtrip(n as u32);
    crate::bytes::lemma_le_u32_roundtrip(play_count_of(repeat));
    assert(c[16] == base[16] && c[17] == base[17] && c[18] == base[18] && c[19] == base[19]);
    assert(c[20] == base[20] && c[21] == base[21] && c[22] == base[22] && c[23] == base[23]);
    assert(be_u32_at(base, 16) == be_u32_at(be_u32_bytes(n as u32), 0));
    assert(be_u32_at(base, 20) == be_u32_at(be_u32_bytes(play_count_of(repeat)), 0));
}


/// The fields of the record of frame `i`, as a decoder reads them back.
proof fn lemma_record_fields(i: nat, frame: (FrameInfo, PixelFormat, Seq<u8>), storage: StorageFormat, options: EncodeOptions)
    requires
        i <= u32::MAX,
        raw_deflate(owned_filtered(frame, storage, options), options.level_spec()).len() <= u32::MAX,
    ensures
        ({
            let rec = frame_record(i as int, frame, storage, options);
            let info = frame.0;
            let filtered = owned_filtered(frame, storage, options);
            let compressed = raw_deflate(filtered, options.level_spec());
            let size = compressed.len() as int;
            &&& rec.len() == 34 + size
            &&& be_u32_at(rec, 0) == i
            &&& be_u32_at(rec, 4) == info.width
            &&& be_u32_at(rec, 8) == info.height
            &&& be_u32_at(rec, 12) == info.x_offset
            &&& be_u32_at(rec, 16) == info.y_offset
            &&& be_u16_at(rec, 20) == info.delay_numerator
            &&& be_u16_at(rec, 22) == info.delay_denominator
            &&& rec[24] == disposal_code(info.disposal)
            &&& rec[25] == blend_code(info.blend)
            &&& be_u16_at(rec, 26) * 65536 + be_u16_at(rec, 28) == size
            &&& rec.subrange(30, 30 + size) == compressed
            &&& be_u32_at(rec, 30 + size) == adler32_spec(filtered)
        }),
{
    let info = frame.0;
    let filtered = owned_filtered(frame, storage, options);
    let compressed = raw_deflate(filtered, options.level_spec());
    let size = compressed.len() as int;
    lemma_frame_record(i as u32, frame, storage, options, filtered, compressed);
    let rec = frame_record(i as int, frame, storage, options);
    let hi = (size / 65536) as u16;
    let lo = (size % 65536) as u16;
    let fields = be_u32_bytes(i as u32) + be_u32_bytes(info.width) + be_u32_bytes(info.height) + be_u32_bytes(info.x_offset)
        + be_u32_bytes(info.y_offset) + be_u16_bytes(info.delay_numerator) + be_u16_bytes(info.delay_denominator) + seq![
        disposal_code(info.disposal),
        blend_code(info.blend),
    ] + be_u16_bytes(hi) + be_u16_bytes(lo);
    let trailer = be_u32_bytes(adler32_spec(filtered));
    assert(fields.len() == 30);
    assert(rec =~= fields + compressed + trailer);
    crate::bytes::lemma_le_u32_roundtrip(i as u32);
    crate::bytes::lemma_le_u32_roundtrip(info.width);
    crate::bytes::lemma_le_u32_roundtrip(info.height);
    crate::bytes::lemma_le_u32_roundtrip(info.x_offset);
    crate::bytes::lemma_le_u32_roundtrip(info.y_offset);
    crate::bytes::lemma_le_u32_roundtrip(adler32_spec(filtered));
    crate::bytes::lemma_be_u16_roundtrip(info.delay_numerator);
    crate::bytes::lemma_be_u16_roundtrip(info.delay_denominator);
    crate::bytes::lemma_be_u16_roundtrip(hi);
    crate::bytes::lemma_be_u16_roundtrip(lo);
    assert(be_u32_at(rec, 0) == be_u32_at(be_u32_bytes(i as u32), 0));
    assert(be_u32_at(rec, 4) == be_u32_at(be_u32_bytes(info.width), 0));
    assert(be_u32_at(rec, 8) == be_u32_at(be_u32_bytes(info.height), 0));
    assert(be_u32_at(rec, 12) == be_u32_at(be_u32_bytes(info.x_offset), 0));
    assert(be_u32_at(rec, 16) == be_u32_at(be_u32_bytes(info.y_offset), 0));
    assert(be_u16_at(rec, 20) == be_u16_at(be_u16_bytes(info.delay_numerator), 0));
    assert(be_u16_at(rec, 22) == be_u16_at(be_u16_bytes(info.delay_denominator), 0));
    assert(be_u16_at(rec, 26) == be_u16_at(be_u16_bytes(hi), 0));
    assert(be_u16_at(rec, 28) == be_u16_at(be_u16_bytes(lo), 0));
    assert(rec.subrange(30, 30 + size) =~= compressed);
    assert(be_u32_at(rec, 30 + size) == be_u32_at(trailer, 0));
}


/// The stored bytes of an owned frame hold `storage_bpp` bytes per pixel.
proof fn lemma_owned_stored_len(frame: (FrameInfo, PixelFormat, Seq<u8>), storage: StorageFormat, options: EncodeOptions)
    ensures
        owned_stored(frame, storage, options).len() == (frame.0.width * frame.0.height) * storage_bpp(storage),
{
    let info = frame.0;
    let ibpp = pixel_bpp(frame.1) as int;
    let w = info.width as int;
    let n = (info.width * info.height) as nat;
    let f = |j: int|
        stored_chunk(
            input_rgba(frame.2, info.width * ibpp, ibpp, j / w, j % w),
            storage,
            options.dithering_spec(),
            dither_index(info.x_offset, info.y_offset, j / w, j % w),
        );
    assert forall|j: int| 0 <= j < n implies (#[trigger] f(j)).len() == storage_bpp(storage) by {
        match storage {
            StorageFormat::Rgb565 => {},
            StorageFormat::Argb565 => {},
            StorageFormat::Rgb888 => {},
            StorageFormat::Argb888 => {},
        }
    }
    crate::seqs::lemma_concat_chunks(f, n, storage_bpp(storage));
    crate::seqs::lemma_concat_chunks_ext(
        |j: int|
            stored_chunk(
                input_rgba(frame.2, info.width * ibpp, ibpp, j / w, j % w),
                storage,
                options.dithering_spec(),
                dither_index(info.x_offset, info.y_offset, j / w, j % w),
            ),
        f,
        n,
    );
}


/// The frame a decoder reads back for frame `i` of an encoder: its metadata,
/// numbered `i`, and the pixel bytes the encoder stored for it.
pub open(crate) spec fn expected_frame(
    frames: Seq<(FrameInfo, PixelFormat, Seq<u8>)>,
    storage: StorageFormat,
    options: EncodeOptions,
    i: int,
) -> (FrameInfo, Seq<u8>) {
    (FrameInfo { sequence: i as u32, ..frames[i].0 }, owned_stored(frames[i], storage, options))
}

/// The stream header at the start of a finished animation container of `size` bytes.
pub open(crate) spec fn container_stream_header(
    width: u16,
    height: u16,
    options: EncodeOptions,
    storage: StorageFormat,
    size: int,
) -> StreamHeader {
    StreamHeader {
        data_size: size as u32,
        control: (80 + color_type_spec(storage)) as u8,
        bit_depth: bit_depth_spec(storage),
        block_rows: options.block_rows_spec(),
        flags: 0,
        width,
        height,
        filter_mode: if options.row_filters_spec() {
            0u8
        } else {
            1u8
        },
        palette_count: 0,
    }
}

/// The first `n` frame-table entries of a container, as a decoder reads them.
pub open(crate) spec fn container_offsets(c: Seq<u8>, n: nat) -> Seq<usize> {
    Seq::new(n, |j: int| be_u32_at(c, 24 + 4 * j) as usize)
}

/// A disposal method survives its stored code, and so does a blend mode.
proof fn lemma_codes_roundtrip(disposal: DisposalMethod, blend: BlendMode)
    ensures
        disposal_from_code(disposal_code(disposal)) == Some(disposal),
        blend_from_code(blend_code(blend)) == Some(blend),
{
    match disposal {
        DisposalMethod::Keep => {},
        DisposalMethod::Background => {},
        DisposalMethod::Previous => {},
    }
    match blend {
        BlendMode::Source => {},
        BlendMode::Over => {},
    }
}

/// Reading the header, data and checksum of record `i` where it lies in `c`.
proof fn lemma_record_read(
    c: Seq<u8>,
    off: int,
    i: nat,
    frame: (FrameInfo, PixelFormat, Seq<u8>),
    storage: StorageFormat,
    options: EncodeOptions,
)
    requires
        i <= u32::MAX,
        0 <= off,
        raw_deflate(owned_filtered(frame, storage, options), options.level_spec()).len() <= u32::MAX,
        off + frame_record(i as int, frame, storage, options).len() <= c.len(),
        forall|k: int|
            0 <= k < frame_record(i as int, frame, storage, options).len() ==> c[off + k] == #[trigger] frame_record(
                i as int,
                frame,
                storage,
                options,
            )[k],
    ensures
        ({
            let info = frame.0;
            let filtered = owned_filtered(frame, storage, options);
            let compressed = raw_deflate(filtered, options.level_spec());
            let size = compressed.len() as int;
            &&& frame_record(i as int, frame, storage, options).len() == 34 + size
            &&& disposal_from_code(c[off + 24]) == Some(info.disposal)
            &&& blend_from_code(c[off + 25]) == Some(info.blend)
            &&& frame_info_at(c, off) == FrameInfo { sequence: i as u32, ..info }
            &&& frame_compressed_size(c, off) == size
            &&& c.subrange(off + 30, off + 30 + size) == compressed
            &&& be_u32_at(c, off + 30 + size) == adler32_spec(filtered)
        }),
{
    let info = frame.0;
    let filtered = owned_filtered(frame, storage, options);
    let compressed = raw_deflate(filtered, options.level_spec());
    let size = compressed.len() as int;
    let rec = frame_record(i as int, frame, storage, options);
    lemma_record_fields(i, frame, storage, options);
    lemma_codes_roundtrip(info.disposal, info.blend);
    assert forall|k: int| 0 <= k < 30 implies c[off + k] == #[trigger] rec[k] by {
    }
    assert(c[off + 24] == disposal_code(info.disposal));
    assert(c[off + 25] == blend_code(info.blend));
    assert(be_u32_at(c, off) == be_u32_at(rec, 0));
    assert(be_u32_at(c, off + 4) == be_u32_at(rec, 4));
    assert(be_u32_at(c, off + 8) == be_u32_at(rec, 8));
    assert(be_u32_at(c, off + 12) == be_u32_at(rec, 12));
    assert(be_u32_at(c, off + 16) == be_u32_at(rec, 16));
    assert(be_u16_at(c, off + 20) == be_u16_at(rec, 20));
    assert(be_u16_at(c, off + 22) == be_u16_at(rec, 22));
    assert(be_u16_at(c, off + 26) == be_u16_at(rec, 26));
    assert(be_u16_at(c, off + 28) == be_u16_at(rec, 28));
    assert(c.subrange(off + 30, off + 30 + size) =~= compressed) by {
        assert forall|k: int| 0 <= k < size implies #[trigger] c.subrange(off + 30, off + 30 + size)[k] == compressed[k] by {
            assert(c[off + 30 + k] == rec[30 + k]);
            assert(rec.subrange(30, 30 + size)[k] == rec[30 + k]);
        }
    }
    assert(c[off + 30 + size] == rec[30 + size] && c[off + 31 + size] == rec[31 + size] && c[off + 32 + size] == rec[32 + size]
        && c[off + 33 + size] == rec[33 + size]);
}

/// Decoding frame `i` of a finished animation container gives back that
/// frame's metadata and stored pixel bytes, with no warning.
#[verifier::spinoff_prover]
#[verifier::rlimit(60)]
proof fn lemma_frame_outcome(
    width: u16,
    height: u16,
    repeat: Repeat,
    options: EncodeOptions,
    storage: StorageFormat,
    frames: Seq<(FrameInfo, PixelFormat, Seq<u8>)>,
    mode: DecodeMode,
    limits: DecodeLimits,
    s: Seq<u8>,
    i: nat,
    total: int,
)
    requires
        s.len() >= animation_container(width, height, repeat, options, storage, frames).len(),
        forall|p: int|
            0 <= p < animation_container(width, height, repeat, options, storage, frames).len() ==> #[trigger] s[p]
                == animation_container(width, height, repeat, options, storage, frames)[p],
        1 <= width <= 2047,
        1 <= height <= 2047,
        options.wf(),
        i < frames.len(),
        animation_body(width, height, repeat, options, storage, frames).len() <= u32::MAX,
        forall|j: int| 0 <= j < frames.len() ==> #[trigger] owned_frame_fits(frames[j], width as int, height as int),
        width <= limits.width_limit_spec(),
        height <= limits.height_limit_spec(),
        0 <= total,
        total + owned_filtered(frames[i as int], storage, options).len() < limits.decoded_byte_limit_spec(),
        forall|l: usize|
            owned_filtered(frames[i as int], storage, options).len() < l ==> #[trigger] raw_inflate(
                raw_deflate(owned_filtered(frames[i as int], storage, options), options.level_spec()),
                l,
            ) == Ok::<Seq<u8>, usize>(owned_filtered(frames[i as int], storage, options)),
    ensures
        ({
            let body = animation_body(width, height, repeat, options, storage, frames);
            let c = animation_container(width, height, repeat, options, storage, frames);
            let sh = container_stream_header(width, height, options, storage, body.len() as int);
            frame_outcome(
                s,
                sh,
                storage,
                mode,
                limits,
                i as int,
                table_entry(c, i as int),
                frame_end_of(container_offsets(c, frames.len()), body.len() as int, i as int),
                total,
            ) == Ok::<((FrameInfo, Seq<u8>), Seq<WarningKind>), ErrorKind>((expected_frame(frames, storage, options, i as int), Seq::empty()))
        }),
{
    let n = frames.len();
    let base = animation_base(width, height, repeat, options, storage, n);
    let body = animation_body(width, height, repeat, options, storage, frames);
    let c = animation_container(width, height, repeat, options, storage, frames);
    let sh = container_stream_header(width, height, options, storage, body.len() as int);
    let frame = frames[i as int];
    let info = frame.0;
    let filtered = owned_filtered(frame, storage, options);
    let compressed = raw_deflate(filtered, options.level_spec());
    let stored = owned_stored(frame, storage, options);
    let bpp = storage_bpp(storage) as int;
    let size = compressed.len() as int;
    lemma_container_record(width, height, repeat, options, storage, frames, i);
    let off = record_offset(frames, storage, options, base, i as int);
    let rec = frame_record(i as int, frame, storage, options);
    lemma_frame_record(i as u32, frame, storage, options, filtered, compressed);
    lemma_record_fields(i, frame, storage, options);
    assert(owned_frame_fits(frames[i as int], width as int, height as int));
    lemma_owned_stored_len(frame, storage, options);
    assert(1 <= bpp <= 4) by {
        match storage {
            StorageFormat::Rgb565 => {},
            StorageFormat::Argb565 => {},
            StorageFormat::Rgb888 => {},
            StorageFormat::Argb888 => {},
        }
    }
    assert((info.width * info.height) * bpp == info.height * (info.width * bpp) && info.width * info.height <= 2047 * 2047
        && info.height * (info.width * bpp) <= 2047 * 2047 * 4) by (nonlinear_arith)
        requires
            1 <= info.width <= 2047,
            1 <= info.height <= 2047,
            1 <= bpp <= 4,
    ;
    crate::roundtrip::lemma_stored_unfilters(
        stored,
        info.width,
        info.height,
        bpp,
        options.block_rows_spec(),
        options.row_filters_spec(),
        mode,
    );
    assert forall|k: int| 0 <= k < rec.len() implies s[off + k] == #[trigger] rec[k] by {
        assert(s[off + k] == c[off + k]);
    }
    lemma_record_read(s, off, i, frame, storage, options);
    let offsets = container_offsets(c, n);
    let frame_end = frame_end_of(offsets, body.len() as int, i as int);
    assert(table_entry(c, i as int) == off);
    if i + 1 < n {
        lemma_container_record(width, height, repeat, options, storage, frames, i + 1);
        assert(offsets[i as int + 1] as int == table_entry(c, i as int + 1));
    }
    assert forall|p: int| off + 34 + size <= p < frame_end implies s[p] == 0 by {
        assert(s[p] == c[p]);
    }
    assert(padding_ok(s, off + 34 + size, frame_end));
    let remaining = (limits.decoded_byte_limit_spec() - total) as usize;
    assert(raw_inflate(compressed, remaining) == Ok::<Seq<u8>, usize>(filtered));
    assert(Seq::<WarningKind>::empty() + Seq::<WarningKind>::empty() + Seq::<WarningKind>::empty() + Seq::<WarningKind>::empty()
        =~= Seq::<WarningKind>::empty());
}


/// The frames a decoder reads back from an encoder's finished animation.
pub open(crate) spec fn expected_frames(
    frames: Seq<(FrameInfo, PixelFormat, Seq<u8>)>,
    storage: StorageFormat,
    options: EncodeOptions,
) -> Seq<(FrameInfo, Seq<u8>)> {
    Seq::new(frames.len(), |i: int| expected_frame(frames, storage, options, i))
}

/// Decoding the frames of a finished container from frame `i` onward, after
/// the frames before it, yields every expected frame and no warning.
#[verifier::spinoff_prover]
#[verifier::rlimit(80)]
proof fn lemma_frames_from(
    width: u16,
    height: u16,
    repeat: Repeat,
    options: EncodeOptions,
    storage: StorageFormat,
    frames: Seq<(FrameInfo, PixelFormat, Seq<u8>)>,
    mode: DecodeMode,
    limits: DecodeLimits,
    s: Seq<u8>,
    i: nat,
)
    requires
        s.len() >= animation_container(width, height, repeat, options, storage, frames).len(),
        forall|p: int|
            0 <= p < animation_container(width, height, repeat, options, storage, frames).len() ==> #[trigger] s[p]
                == animation_container(width, height, repeat, options, storage, frames)[p],
        1 <= width <= 2047,
        1 <= height <= 2047,
        options.wf(),
        i <= frames.len(),
        animation_body(width, height, repeat, options, storage, frames).len() <= u32::MAX,
        forall|j: int| 0 <= j < frames.len() ==> #[trigger] owned_frame_fits(frames[j], width as int, height as int),
        width <= limits.width_limit_spec(),
        height <= limits.height_limit_spec(),
        forall|j: int|
            0 <= j < frames.len() ==> frames_total(expected_frames(frames, storage, options), j) + #[trigger] owned_filtered(
                frames[j],
                storage,
                options,
            ).len() < limits.decoded_byte_limit_spec(),
        forall|j: int, l: usize|
            0 <= j < frames.len() && owned_filtered(frames[j], storage, options).len() < l ==> #[trigger] raw_inflate(
                raw_deflate(owned_filtered(frames[j], storage, options), options.level_spec()),
                l,
            ) == Ok::<Seq<u8>, usize>(owned_filtered(frames[j], storage, options)),
    ensures
        ({
            let body = animation_body(width, height, repeat, options, storage, frames);
            let c = animation_container(width, height, repeat, options, storage, frames);
            let sh = container_stream_header(width, height, options, storage, body.len() as int);
            let expected = expected_frames(frames, storage, options);
            frames_from(
                s,
                sh,
                storage,
                mode,
                limits,
                container_offsets(c, frames.len()),
                i,
                frames_total(expected, i as int),
                expected.subrange(0, i as int),
                Seq::empty(),
            ) == Ok::<(Seq<(FrameInfo, Seq<u8>)>, Seq<WarningKind>), ErrorKind>((expected, Seq::empty()))
        }),
    decreases frames.len() - i,
{
    let n = frames.len();
    let body = animation_body(width, height, repeat, options, storage, frames);
    let c = animation_container(width, height, repeat, options, storage, frames);
    let sh = container_stream_header(width, height, options, storage, body.len() as int);
    let expected = expected_frames(frames, storage, options);
    let offsets = container_offsets(c, n);
    if i == n {
        assert(expected.subrange(0, i as int) =~= expected);
    } else {
        let total = frames_total(expected, i as int);
        lemma_frames_total_nonneg(expected, i as int);
        assert(owned_filtered(frames[i as int], storage, options) == owned_filtered(frames[i as int], storage, options));
        lemma_frame_outcome(width, height, repeat, options, storage, frames, mode, limits, s, i, total);
        assert(offsets[i as int] as int == table_entry(c, i as int));
        assert(sh.data_size_spec() as int == body.len());
        lemma_frames_from(width, height, repeat, options, storage, frames, mode, limits, s, i + 1);
        assert(expected.subrange(0, i as int).push(expected[i as int]) =~= expected.subrange(0, i as int + 1));
        assert(Seq::<WarningKind>::empty() + Seq::<WarningKind>::empty() =~= Seq::<WarningKind>::empty());
    }
}

/// The decoded bytes of the first frames are never negative.
proof fn lemma_frames_total_nonneg(frames: Seq<(FrameInfo, Seq<u8>)>, i: int)
    ensures
        frames_total(frames, i) >= 0,
    decreases i,
{
    if i > 0 {
        lemma_frames_total_nonneg(frames, i - 1);
    }
}


/// Parsing a stream header reads only its first sixteen bytes.
proof fn lemma_stream_header_prefix(a: Seq<u8>, b: Seq<u8>)
    requires
        a.len() >= 16,
        b.len() >= 16,
        forall|p: int| 0 <= p < 16 ==> #[trigger] a[p] == b[p],
    ensures
        parse_stream_header_spec(a) == parse_stream_header_spec(b),
{
    assert(a[0] == b[0] && a[1] == b[1] && a[2] == b[2] && a[3] == b[3] && a[4] == b[4] && a[5] == b[5] && a[6] == b[6]
        && a[7] == b[7]);
    assert(a[8] == b[8] && a[9] == b[9] && a[10] == b[10] && a[11] == b[11] && a[12] == b[12] && a[13] == b[13]);
}

/// The container checks pass on a finished animation followed by its CRC-32:
/// the frame table names every record, in order, with no warning.
#[verifier::spinoff_prover]
#[verifier::rlimit(60)]
proof fn lemma_container_prelude(
    width: u16,
    height: u16,
    repeat: Repeat,
    options: EncodeOptions,
    storage: StorageFormat,
    frames: Seq<(FrameInfo, PixelFormat, Seq<u8>)>,
    mode: DecodeMode,
    limits: DecodeLimits,
)
    requires
        1 <= width <= 2047,
        1 <= height <= 2047,
        1 <= frames.len() <= limits.frame_limit_spec(),
        animation_body(width, height, repeat, options, storage, frames).len() <= u32::MAX,
    ensures
        ({
            let body = animation_body(width, height, repeat, options, storage, frames);
            let c = animation_container(width, height, repeat, options, storage, frames);
            let payload = c + le_u32_bytes(crc32_spec(c));
            let sh = container_stream_header(width, height, options, storage, body.len() as int);
            &&& parse_stream_header_spec(payload) == Ok::<StreamHeader, ErrorKind>(sh)
            &&& animation_prelude_spec(payload, sh, mode, limits) == Ok::<(Seq<usize>, u32, Seq<WarningKind>), ErrorKind>(
                (container_offsets(c, frames.len()), play_count_of(repeat), Seq::empty()),
            )
        }),
{
    let n = frames.len();
    let base = animation_base(width, height, repeat, options, storage, n);
    let body = animation_body(width, height, repeat, options, storage, frames);
    let c = animation_container(width, height, repeat, options, storage, frames);
    let payload = c + le_u32_bytes(crc32_spec(c));
    let sh = container_stream_header(width, height, options, storage, body.len() as int);
    lemma_container_header(width, height, repeat, options, storage, frames);
    lemma_container_record(width, height, repeat, options, storage, frames, 0);
    assert forall|p: int| 0 <= p < c.len() implies #[trigger] payload[p] == c[p] by {
    }
    lemma_stream_header_prefix(payload, c);
    let declared = body.len() as int;
    crate::bytes::lemma_le_u32_roundtrip(crc32_spec(c));
    assert(payload.subrange(0, declared) =~= c);
    assert(le_u32_at(payload, declared) == le_u32_at(le_u32_bytes(crc32_spec(c)), 0));
    assert(container_crc_spec(payload, declared, mode) == Ok::<Seq<WarningKind>, ErrorKind>(Seq::empty()));
    assert(be_u32_at(payload, 16) == be_u32_at(c, 16));
    assert(be_u32_at(payload, 20) == be_u32_at(c, 20));
    let table_end: int = 24 + 4 * (n as int);
    assert forall|i: int| 0 <= i < n implies #[trigger] frame_offset_ok(payload, i, table_end, declared) by {
        lemma_container_record(width, height, repeat, options, storage, frames, i as nat);
        assert(be_u32_at(payload, 24 + 4 * i) == table_entry(c, i));
        lemma_frame_record(
            i as u32,
            frames[i],
            storage,
            options,
            owned_filtered(frames[i], storage, options),
            raw_deflate(owned_filtered(frames[i], storage, options), options.level_spec()),
        );
        reveal(frame_record);
    }
    assert forall|i: int| 1 <= i < n implies be_u32_at(payload, 20 + 4 * i) < #[trigger] be_u32_at(payload, 24 + 4 * i) by {
        lemma_container_record(width, height, repeat, options, storage, frames, (i - 1) as nat);
        lemma_container_record(width, height, repeat, options, storage, frames, i as nat);
        assert(be_u32_at(payload, 24 + 4 * i) == table_entry(c, i));
        assert(be_u32_at(payload, 20 + 4 * i) == table_entry(c, i - 1));
        reveal(frame_record);
    }
    assert(Seq::new(n, |i: int| be_u32_at(payload, 24 + 4 * i) as usize) =~= container_offsets(c, n)) by {
        assert forall|i: int| 0 <= i < n implies table_entry(payload, i) == #[trigger] table_entry(c, i) by {
            lemma_container_record(width, height, repeat, options, storage, frames, i as nat);
        }
    }
}


/// The payload of a finished animation resource passes the eZIP and
/// container checks and decodes to the expected frames, with no warning.
#[verifier::spinoff_prover]
#[verifier::rlimit(60)]
proof fn lemma_payload_opens(
    width: u16,
    height: u16,
    repeat: Repeat,
    options: EncodeOptions,
    storage: StorageFormat,
    frames: Seq<(FrameInfo, PixelFormat, Seq<u8>)>,
    mode: DecodeMode,
    limits: DecodeLimits,
)
    requires
        1 <= width <= 2047,
        1 <= height <= 2047,
        options.wf(),
        1 <= frames.len() <= limits.frame_limit_spec(),
        animation_body(width, height, repeat, options, storage, frames).len() <= u32::MAX,
        forall|j: int| 0 <= j < frames.len() ==> #[trigger] owned_frame_fits(frames[j], width as int, height as int),
        width <= limits.width_limit_spec(),
        height <= limits.height_limit_spec(),
        forall|j: int|
            0 <= j < frames.len() ==> frames_total(expected_frames(frames, storage, options), j) + #[trigger] owned_filtered(
                frames[j],
                storage,
                options,
            ).len() < limits.decoded_byte_limit_spec(),
        forall|j: int, l: usize|
            0 <= j < frames.len() && owned_filtered(frames[j], storage, options).len() < l ==> #[trigger] raw_inflate(
                raw_deflate(owned_filtered(frames[j], storage, options), options.level_spec()),
                l,
            ) == Ok::<Seq<u8>, usize>(owned_filtered(frames[j], storage, options)),
    ensures
        ({
            let body = animation_body(width, height, repeat, options, storage, frames);
            let c = animation_container(width, height, repeat, options, storage, frames);
            let payload = c + le_u32_bytes(crc32_spec(c));
            let sh = container_stream_header(width, height, options, storage, body.len() as int);
            let format = resolve_resource_format_spec(ResourceEncoding::Ezip, storage);
            let header = ResourceHeader { format, width, height, reserved: 0 };
            let offsets = container_offsets(c, frames.len());
            &&& ezip_prelude_spec(payload, header, mode) == Ok::<(StreamHeader, StorageFormat, Seq<WarningKind>), ErrorKind>(
                (sh, storage, Seq::empty()),
            )
            &&& sh.is_animation_spec()
            &&& format_kind(format) == ResourceKind::Ezip
            &&& animation_prelude_spec(payload, sh, mode, limits) == Ok::<(Seq<usize>, u32, Seq<WarningKind>), ErrorKind>(
                (offsets, play_count_of(repeat), Seq::empty()),
            )
            &&& offsets.len() == frames.len()
            &&& animation_frames(payload, sh, storage, mode, limits, offsets) == Ok::<
                (Seq<(FrameInfo, Seq<u8>)>, Seq<WarningKind>),
                ErrorKind,
            >((expected_frames(frames, storage, options), Seq::empty()))
        }),
{
    let n = frames.len();
    let body = animation_body(width, height, repeat, options, storage, frames);
    let c = animation_container(width, height, repeat, options, storage, frames);
    let payload = c + le_u32_bytes(crc32_spec(c));
    let sh = container_stream_header(width, height, options, storage, body.len() as int);
    let format = resolve_resource_format_spec(ResourceEncoding::Ezip, storage);
    let header = ResourceHeader { format, width, height, reserved: 0 };
    lemma_container_prelude(width, height, repeat, options, storage, frames, mode, limits);
    assert forall|p: int| 0 <= p < c.len() implies #[trigger] payload[p] == c[p] by {
    }
    lemma_frames_from(width, height, repeat, options, storage, frames, mode, limits, payload, 0);
    let expected = expected_frames(frames, storage, options);
    assert(expected.subrange(0, 0) =~= Seq::<(FrameInfo, Seq<u8>)>::empty());
    let control = (80 + color_type_spec(storage)) as u8;
    assert(control / 16 == 5 && control % 16 == color_type_spec(storage)) by {
        match storage {
            StorageFormat::Rgb565 => {},
            StorageFormat::Argb565 => {},
            StorageFormat::Rgb888 => {},
            StorageFormat::Argb888 => {},
        }
    }
    assert(crate::stream::control_storage(control) == Some(storage)) by {
        match storage {
            StorageFormat::Rgb565 => {},
            StorageFormat::Argb565 => {},
            StorageFormat::Rgb888 => {},
            StorageFormat::Argb888 => {},
        }
    }
    assert(outer_matches(format, storage));
    assert(bit_depth_spec(storage) == storage_bit_depth_of(storage));
    assert(format_kind(format) == ResourceKind::Ezip);
}

/// Opening a resource whose header, stream header, container and frames
/// all decode without a warning never fails, and gives back those frames.
proof fn lemma_animation_opens(
    bytes: Seq<u8>,
    decode: DecodeOptions,
    header: ResourceHeader,
    sh: StreamHeader,
    storage: StorageFormat,
    offsets: Seq<usize>,
    play_count: u32,
    expected: Seq<(FrameInfo, Seq<u8>)>,
)
    requires
        parse_header_spec(bytes) == Ok::<ResourceHeader, ErrorKind>(header),
        header.width_spec() <= decode.limits_spec().width_limit_spec(),
        header.height_spec() <= decode.limits_spec().height_limit_spec(),
        format_kind(header.format_spec()) == ResourceKind::Ezip,
        ezip_prelude_spec(bytes.subrange(4, bytes.len() as int), header, decode.mode_spec()) == Ok::<
            (StreamHeader, StorageFormat, Seq<WarningKind>),
            ErrorKind,
        >((sh, storage, Seq::empty())),
        sh.is_animation_spec(),
        animation_prelude_spec(bytes.subrange(4, bytes.len() as int), sh, decode.mode_spec(), decode.limits_spec()) == Ok::<
            (Seq<usize>, u32, Seq<WarningKind>),
            ErrorKind,
        >((offsets, play_count, Seq::empty())),
        animation_frames(bytes.subrange(4, bytes.len() as int), sh, storage, decode.mode_spec(), decode.limits_spec(), offsets)
            == Ok::<(Seq<(FrameInfo, Seq<u8>)>, Seq<WarningKind>), ErrorKind>((expected, Seq::empty())),
    ensures
        forall|kind: ErrorKind| !#[trigger] open_rejects(bytes, decode, kind),
        forall|info: ResourceInfo, frames: Seq<(FrameInfo, Seq<u8>)>, repeat: Option<Repeat>, warnings: Seq<WarningKind>|
            #[trigger] open_accepts(bytes, decode, info, frames, repeat, warnings) ==> info == resource_info(
                ResourceKind::Animation,
                header.format_spec(),
                storage,
                header.width_spec() as u32,
                header.height_spec() as u32,
                offsets.len() as usize,
            ) && frames == expected && repeat == Some(repeat_from_play_count(play_count)) && warnings.len() == 0,
{
    assert forall|kind: ErrorKind| !#[trigger] open_rejects(bytes, decode, kind) by {
    }
    assert forall|info: ResourceInfo, frames: Seq<(FrameInfo, Seq<u8>)>, repeat: Option<Repeat>, warnings: Seq<WarningKind>|
        #[trigger] open_accepts(bytes, decode, info, frames, repeat, warnings) implies info == resource_info(
        ResourceKind::Animation,
        header.format_spec(),
        storage,
        header.width_spec() as u32,
        header.height_spec() as u32,
        offsets.len() as usize,
    ) && frames == expected && repeat == Some(repeat_from_play_count(play_count)) && warnings.len() == 0 by {
        assert(Seq::<WarningKind>::empty() + Seq::<WarningKind>::empty() + Seq::<WarningKind>::empty() =~= Seq::<
            WarningKind,
        >::empty());
    }
}

/// Opening an animation that the encoder finished gives back its frames.
/// When the animation was finished (it has frames and its container fits the
/// size field), its canvas and frame count are within the decoder's limits,
/// each frame's compressed data fits the decoded-byte budget left by the
/// frames before it, and DEFLATE returns the bytes it compressed whenever they
/// fit the limit (as the `inflate` wrapper states), then opening the encoded
/// bytes never fails, and every successful open yields every frame in order,
/// numbered by its position, with the metadata it was pushed with and the
/// pixel bytes the encoder stored for it, the repetition it was built with,
/// and no warning.
#[verifier::spinoff_prover]
#[verifier::rlimit(60)]
pub proof fn lemma_animation_roundtrip(enc: AnimationEncoder, decode: DecodeOptions)
    requires
        enc.wf(),
        enc.options_spec().wf(),
        1 <= enc.frames_spec().len() <= decode.limits_spec().frame_limit_spec(),
        animation_body(
            enc.width_spec(),
            enc.height_spec(),
            enc.repeat_spec(),
            enc.options_spec(),
            animation_storage(&enc),
            enc.frames_spec(),
        ).len() <= u32::MAX,
        enc.width_spec() <= decode.limits_spec().width_limit_spec(),
        enc.height_spec() <= decode.limits_spec().height_limit_spec(),
        forall|j: int|
            0 <= j < enc.frames_spec().len() ==> frames_total(
                expected_frames(enc.frames_spec(), animation_storage(&enc), enc.options_spec()),
                j,
            ) + #[trigger] owned_filtered(enc.frames_spec()[j], animation_storage(&enc), enc.options_spec()).len()
                < decode.limits_spec().decoded_byte_limit_spec(),
        forall|j: int, l: usize|
            0 <= j < enc.frames_spec().len() && owned_filtered(enc.frames_spec()[j], animation_storage(&enc), enc.options_spec()).len()
                < l ==> #[trigger] raw_inflate(
                raw_deflate(
                    owned_filtered(enc.frames_spec()[j], animation_storage(&enc), enc.options_spec()),
                    enc.options_spec().level_spec(),
                ),
                l,
            ) == Ok::<Seq<u8>, usize>(owned_filtered(enc.frames_spec()[j], animation_storage(&enc), enc.options_spec())),
    ensures
        ({
            let bytes = animation_resource_bytes(&enc);
            let storage = animation_storage(&enc);
            &&& forall|kind: ErrorKind| !#[trigger] open_rejects(bytes, decode, kind)
            &&& forall|
                info: ResourceInfo,
                frames: Seq<(FrameInfo, Seq<u8>)>,
                repeat: Option<Repeat>,
                warnings: Seq<WarningKind>,
            |
                #[trigger] open_accepts(bytes, decode, info, frames, repeat, warnings) ==> info == resource_info(
                    ResourceKind::Animation,
                    resolve_resource_format_spec(ResourceEncoding::Ezip, storage),
                    storage,
                    enc.width_spec() as u32,
                    enc.height_spec() as u32,
                    enc.frames_spec().len() as usize,
                ) && frames == expected_frames(enc.frames_spec(), storage, enc.options_spec()) && repeat == Some(
                    enc.repeat_spec(),
                ) && warnings.len() == 0
        }),
{
    let width = enc.width_spec();
    let height = enc.height_spec();
    let repeat = enc.repeat_spec();
    let options = enc.options_spec();
    let storage = animation_storage(&enc);
    let frames = enc.frames_spec();
    let n = frames.len();
    let mode = decode.mode_spec();
    let limits = decode.limits_spec();
    let c = animation_container(width, height, repeat, options, storage, frames);
    let payload = c + le_u32_bytes(crc32_spec(c));
    let format = resolve_resource_format_spec(ResourceEncoding::Ezip, storage);
    let header = ResourceHeader { format, width, height, reserved: 0 };
    let bytes = animation_resource_bytes(&enc);
    assert(bytes == header_bytes(header) + payload) by {
        assert(bytes =~= header_bytes(header) + payload);
    }
    crate::roundtrip::lemma_header_prefix(header, payload);
    lemma_payload_opens(width, height, repeat, options, storage, frames, mode, limits);
    assert(repeat_from_play_count(play_count_of(repeat)) == repeat);
    let body = animation_body(width, height, repeat, options, storage, frames);
    let sh = container_stream_header(width, height, options, storage, body.len() as int);
    lemma_animation_opens(
        bytes,
        decode,
        header,
        sh,
        storage,
        container_offsets(c, n),
        play_count_of(repeat),
        expected_frames(frames, storage, options),
    );
}

} // verus!
