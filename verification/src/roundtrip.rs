use vstd::prelude::*;

use crate::bytes::{be_u16_at, be_u16_bytes, be_u32_at, be_u32_bytes, le_u32_at};
use crate::checksum::adler32_spec;
use crate::decoder::{ezip_prelude_spec, ResourceInfo, open_accepts, open_rejects, outer_matches, resource_info, static_ezip_accepts, storage_bit_depth_of};
use crate::deflate::{raw_deflate, raw_inflate};
use crate::dither::Rgb565Dithering;
use crate::encoder::{
    dither_index, input_rgba, bit_depth_spec, color_type_spec, encode_spec, ezip_stream_spec, filtered_bytes, image_storage_spec,
    resolve_alpha_spec, resolve_resource_format_spec, resolve_storage_spec, stored_chunk, stream_header_spec,
    EncodeOptions, ResourceEncoding,
};
use crate::error::{ErrorKind, WarningKind};
use crate::filter::{
    lemma_filter_rows_well_formed, lemma_unfilter_inverts_filter_rows, unfilter_accepts, unfilter_rejects,
    unfiltered_plain,
};
use crate::frame::{still_info, FrameInfo, Repeat};
use crate::seqs::concat_chunks;
use crate::header::{format_kind, header_bytes, lemma_header_roundtrip, parse_header_spec, ResourceFormat, ResourceHeader, ResourceKind};
use crate::options::{DecodeMode, DecodeOptions};
use crate::pixels::{decoded_pixels, pixel_bpp, rgba_bytes, stored_rgba, storage_bpp, ImageView, PixelFormat, StorageFormat};
use crate::stream::{inflate_accepts, inflate_rejects, inflate_standard_spec, parse_stream_header_spec, StreamHeader};

verus! {

/// The storage format the encoder picks for `image` under `options`.
pub open(crate) spec fn encoded_storage(image: ImageView, options: EncodeOptions) -> StorageFormat {
    resolve_storage_spec(options.color_depth_spec(), resolve_alpha_spec(image, options.alpha_mode_spec()))
}

/// The storage the encoder picks keeps alpha always under
/// `AlphaMode::Preserve`, never under `AlphaMode::Discard`, and under
/// `AlphaMode::Auto` exactly when the image is RGBA and some pixel, in any
/// row and column, is not fully opaque; its depth is the one asked for.
pub proof fn lemma_auto_alpha_storage(image: ImageView, options: EncodeOptions)
    ensures
        crate::pixels::storage_has_alpha(encoded_storage(image, options)) <==> match options.alpha_mode_spec() {
            crate::encoder::AlphaMode::Preserve => true,
            crate::encoder::AlphaMode::Discard => false,
            crate::encoder::AlphaMode::Auto => image.format_spec() == PixelFormat::Rgba8 && exists|row: int, col: int|
                0 <= row < image.height_spec() && 0 <= col < image.width_spec() && #[trigger] image.pixels_spec()[row
                    * image.stride_spec() + col * 4 + 3] != 255,
        },
        (encoded_storage(image, options) == StorageFormat::Rgb565 || encoded_storage(image, options) == StorageFormat::Argb565)
            <==> options.color_depth_spec() == crate::encoder::ColorDepth::Rgb565,
{
    let keeps = resolve_alpha_spec(image, options.alpha_mode_spec());
    assert(crate::pixels::storage_has_alpha(encoded_storage(image, options)) == keeps);
    if keeps && options.alpha_mode_spec() == crate::encoder::AlphaMode::Auto {
        let (row, col) = choose|row: int, col: int|
            0 <= row < image.height && 0 <= col < image.width && #[trigger] image.pixels@[row * image.stride + col * 4 + 3] != 255;
        assert(image.pixels_spec()[row * image.stride_spec() + col * 4 + 3] != 255);
    }
}

/// The pixel bytes the encoder stores for a still image.
pub open(crate) spec fn encoded_stored(image: ImageView, options: EncodeOptions) -> Seq<u8> {
    image_storage_spec(image, encoded_storage(image, options), options.dithering_spec(), 0, 0)
}

/// The bytes the encoder hands to the compressor for a still eZIP image.
pub open(crate) spec fn encoded_filtered(image: ImageView, options: EncodeOptions) -> Seq<u8> {
    filtered_bytes(
        encoded_stored(image, options),
        image.width_spec() as int,
        image.height_spec() as int,
        storage_bpp(encoded_storage(image, options)) as int,
        options.block_rows_spec(),
        options.row_filters_spec(),
    )
}

/// The bytes the encoder stores for pixel `j` of `image`.
pub open(crate) spec fn stored_chunk_of(image: ImageView, storage: StorageFormat, dithering: Rgb565Dithering, j: int) -> Seq<u8> {
    let w = image.width_spec() as int;
    stored_chunk(
        input_rgba(image.pixels_spec(), image.stride_spec() as int, pixel_bpp(image.format_spec()) as int, j / w, j % w),
        storage,
        dithering,
        dither_index(0, 0, j / w, j % w),
    )
}

/// A whole image's stored bytes hold `storage_bpp` bytes per pixel, pixel
/// after pixel.
proof fn lemma_image_storage_layout(image: ImageView, storage: StorageFormat, dithering: Rgb565Dithering)
    ensures
        image_storage_spec(image, storage, dithering, 0, 0).len() == (image.width_spec() * image.height_spec())
            * storage_bpp(storage),
        forall|j: int, c: int|
            0 <= j < image.width_spec() * image.height_spec() && 0 <= c < storage_bpp(storage) ==> image_storage_spec(
                image,
                storage,
                dithering,
                0,
                0,
            )[j * storage_bpp(storage) + c] == #[trigger] stored_chunk_of(image, storage, dithering, j)[c],
{
    let f = |j: int| stored_chunk_of(image, storage, dithering, j);
    let n = (image.width_spec() * image.height_spec()) as nat;
    assert forall|j: int| 0 <= j < n implies (#[trigger] f(j)).len() == storage_bpp(storage) by {
        match storage {
            StorageFormat::Rgb565 => {},
            StorageFormat::Argb565 => {},
            StorageFormat::Rgb888 => {},
            StorageFormat::Argb888 => {},
        }
    }
    crate::seqs::lemma_concat_chunks(f, n, storage_bpp(storage));
    let w = image.width_spec() as int;
    crate::seqs::lemma_concat_chunks_ext(
        |j: int|
            stored_chunk(
                input_rgba(image.pixels_spec(), image.stride_spec() as int, pixel_bpp(image.format_spec()) as int, j / w, j % w),
                storage,
                dithering,
                dither_index(0, 0, j / w, j % w),
            ),
        f,
        n,
    );
    assert(image_storage_spec(image, storage, dithering, 0, 0) == crate::seqs::concat_chunks(f, n));
    assert forall|j: int, c: int| 0 <= j < n && 0 <= c < storage_bpp(storage) implies image_storage_spec(
        image,
        storage,
        dithering,
        0,
        0,
    )[j * storage_bpp(storage) + c] == #[trigger] stored_chunk_of(image, storage, dithering, j)[c] by {
        assert(f(j)[c] == stored_chunk_of(image, storage, dithering, j)[c]);
    }
}

/// A whole image's stored bytes hold `storage_bpp` bytes per pixel.
proof fn lemma_image_storage_len(image: ImageView, storage: StorageFormat, options: EncodeOptions)
    ensures
        image_storage_spec(image, storage, options.dithering_spec(), 0, 0).len() == (image.width_spec()
            * image.height_spec()) * storage_bpp(storage),
{
    lemma_image_storage_layout(image, storage, options.dithering_spec());
}

/// Parsing a resource header ahead of any payload gives the header back.
pub(crate) proof fn lemma_header_prefix(h: ResourceHeader, rest: Seq<u8>)
    requires
        h.wf(),
    ensures
        parse_header_spec(header_bytes(h) + rest) == Ok::<ResourceHeader, ErrorKind>(h),
        (header_bytes(h) + rest).subrange(4, (header_bytes(h) + rest).len() as int) == rest,
{
    lemma_header_roundtrip(h);
    let data = header_bytes(h) + rest;
    assert(header_bytes(h).len() == 4);
    assert(le_u32_at(data, 0) == le_u32_at(header_bytes(h), 0));
    assert(data.subrange(4, data.len() as int) =~= rest);
}

/// Parsing a written stream header gives its fields back.
pub(crate) proof fn lemma_stream_header_parses(
    size: u32,
    control: u8,
    storage: StorageFormat,
    block_rows: u8,
    width: u16,
    height: u16,
    has_row_filters: bool,
    rest: Seq<u8>,
)
    requires
        width > 0,
        height > 0,
    ensures
        parse_stream_header_spec(stream_header_spec(size, control, storage, block_rows, width, height, has_row_filters) + rest)
            == Ok::<StreamHeader, ErrorKind>(
            StreamHeader {
                data_size: size,
                control,
                bit_depth: bit_depth_spec(storage),
                block_rows,
                flags: 0,
                width,
                height,
                filter_mode: if has_row_filters {
                    0u8
                } else {
                    1u8
                },
                palette_count: 0,
            },
        ),
{
    let head = stream_header_spec(size, control, storage, block_rows, width, height, has_row_filters);
    let data = head + rest;
    crate::bytes::lemma_le_u32_roundtrip(size);
    crate::bytes::lemma_be_u16_roundtrip(width);
    crate::bytes::lemma_be_u16_roundtrip(height);
    assert(head.len() == 16);
    assert(be_u32_at(data, 0) == be_u32_at(be_u32_bytes(size), 0));
    assert(be_u16_at(data, 8) == be_u16_at(be_u16_bytes(width), 0));
    assert(be_u16_at(data, 10) == be_u16_at(be_u16_bytes(height), 0));
    assert(data[4] == control);
    assert(data[5] == bit_depth_spec(storage));
    assert(data[6] == block_rows);
    assert(data[7] == 0);
    assert(data[12] == if has_row_filters {
        0u8
    } else {
        1u8
    });
    assert(data[13] == 0);
}


/// The stream header that the decoder reads back from a still eZIP stream.
pub open(crate) spec fn encoded_stream_header(image: ImageView, options: EncodeOptions) -> StreamHeader {
    let storage = encoded_storage(image, options);
    let compressed = raw_deflate(encoded_filtered(image, options), options.level_spec());
    StreamHeader {
        data_size: (16 + compressed.len() + 4) as u32,
        control: (16 + color_type_spec(storage)) as u8,
        bit_depth: bit_depth_spec(storage),
        block_rows: options.block_rows_spec(),
        flags: 0,
        width: image.width_spec() as u16,
        height: image.height_spec() as u16,
        filter_mode: if options.row_filters_spec() {
            0u8
        } else {
            1u8
        },
        palette_count: 0,
    }
}

/// The bytes of a still eZIP image, split into its resource header and stream.
proof fn lemma_encoded_layout(image: ImageView, options: EncodeOptions)
    requires
        image.wf(),
        options.encoding_spec() == ResourceEncoding::Ezip,
        encode_spec(image, options) is Ok,
    ensures
        ({
            let storage = encoded_storage(image, options);
            let format = resolve_resource_format_spec(ResourceEncoding::Ezip, storage);
            let header = ResourceHeader {
                format,
                width: image.width_spec() as u16,
                height: image.height_spec() as u16,
                reserved: 0,
            };
            let filtered = encoded_filtered(image, options);
            let compressed = raw_deflate(filtered, options.level_spec());
            let stream = ezip_stream_spec(
                storage,
                options.block_rows_spec(),
                image.width_spec() as u16,
                image.height_spec() as u16,
                options.row_filters_spec(),
                filtered,
                compressed,
            );
            &&& header.wf()
            &&& 1 <= image.width_spec() <= 0x7ff
            &&& 1 <= image.height_spec() <= 0x7ff
            &&& 20 + compressed.len() <= u32::MAX
            &&& encode_spec(image, options) == Ok::<(Seq<u8>, StorageFormat, ResourceFormat), ErrorKind>(
                (header_bytes(header) + stream, storage, format),
            )
        }),
{
}


/// The eZIP stream of a still image passes the stream-header checks and
/// decompresses to the bytes the encoder compressed, with no warning.
#[verifier::spinoff_prover]
#[verifier::rlimit(40)]
proof fn lemma_encoded_stream_opens(image: ImageView, options: EncodeOptions, decode: DecodeOptions)
    requires
        image.wf(),
        options.encoding_spec() == ResourceEncoding::Ezip,
        encode_spec(image, options) is Ok,
        raw_inflate(
            raw_deflate(encoded_filtered(image, options), options.level_spec()),
            decode.limits_spec().decoded_byte_limit_spec(),
        ) == Ok::<Seq<u8>, usize>(encoded_filtered(image, options)),
    ensures
        ({
            let storage = encoded_storage(image, options);
            let header = ResourceHeader {
                format: resolve_resource_format_spec(ResourceEncoding::Ezip, storage),
                width: image.width_spec() as u16,
                height: image.height_spec() as u16,
                reserved: 0,
            };
            let filtered = encoded_filtered(image, options);
            let stream = ezip_stream_spec(
                storage,
                options.block_rows_spec(),
                image.width_spec() as u16,
                image.height_spec() as u16,
                options.row_filters_spec(),
                filtered,
                raw_deflate(filtered, options.level_spec()),
            );
            let sh = encoded_stream_header(image, options);
            &&& ezip_prelude_spec(stream, header, decode.mode_spec()) == Ok::<
                (StreamHeader, StorageFormat, Seq<WarningKind>),
                ErrorKind,
            >((sh, storage, Seq::empty()))
            &&& !sh.is_animation_spec()
            &&& !sh.uses_shared_huffman_spec()
            &&& sh.has_row_filters_spec() == options.row_filters_spec()
            &&& sh.block_rows == options.block_rows_spec()
            &&& inflate_standard_spec(stream, sh, decode.limits_spec().decoded_byte_limit_spec(), decode.mode_spec())
                == Ok::<(Seq<u8>, Seq<WarningKind>), ErrorKind>((filtered, Seq::empty()))
        }),
{
    lemma_encoded_layout(image, options);
    let storage = encoded_storage(image, options);
    let filtered = encoded_filtered(image, options);
    let compressed = raw_deflate(filtered, options.level_spec());
    let size = (16 + compressed.len() + 4) as u32;
    let control = (16 + color_type_spec(storage)) as u8;
    let w = image.width_spec() as u16;
    let h = image.height_spec() as u16;
    let head = stream_header_spec(size, control, storage, options.block_rows_spec(), w, h, options.row_filters_spec());
    let trailer = be_u32_bytes(adler32_spec(filtered));
    let stream = ezip_stream_spec(storage, options.block_rows_spec(), w, h, options.row_filters_spec(), filtered, compressed);
    assert(stream == head + (compressed + trailer)) by {
        assert(stream =~= head + (compressed + trailer));
    }
    lemma_stream_header_parses(size, control, storage, options.block_rows_spec(), w, h, options.row_filters_spec(), compressed + trailer);
    let sh = encoded_stream_header(image, options);
    assert(parse_stream_header_spec(stream) == Ok::<StreamHeader, ErrorKind>(sh));
    assert(control / 16 == 1 && control % 16 == color_type_spec(storage)) by {
        match storage {
            StorageFormat::Rgb565 => {},
            StorageFormat::Argb565 => {},
            StorageFormat::Rgb888 => {},
            StorageFormat::Argb888 => {},
        }
    }
    assert(crate::stream::control_storage(control) == Some(storage)) by {
        match storage {
            StorageFormat::Rgb565 => {},
            StorageFormat::Argb565 => {},
            StorageFormat::Rgb888 => {},
            StorageFormat::Argb888 => {},
        }
    }
    assert(outer_matches(resolve_resource_format_spec(ResourceEncoding::Ezip, storage), storage));
    assert(bit_depth_spec(storage) == storage_bit_depth_of(storage));
    assert(stream.len() == 20 + compressed.len());
    assert(stream.subrange(16, stream.len() - 4) =~= compressed);
    crate::bytes::lemma_le_u32_roundtrip(adler32_spec(filtered));
    assert(be_u32_at(stream, stream.len() - 4) == be_u32_at(trailer, 0));
}


/// Unfiltering what the encoder compressed gives the stored pixel bytes back,
/// with no warning and no error.
pub(crate) proof fn lemma_encoded_unfilters(image: ImageView, options: EncodeOptions, mode: DecodeMode)
    requires
        image.wf(),
        options.wf(),
        image.width_spec() <= 0x7ff,
        image.height_spec() <= 0x7ff,
    ensures
        ({
            let storage = encoded_storage(image, options);
            let bpp = storage_bpp(storage) as usize;
            let filtered = encoded_filtered(image, options);
            &&& unfilter_accepts(
                filtered,
                image.width_spec(),
                image.height_spec(),
                bpp,
                options.block_rows_spec(),
                options.row_filters_spec(),
                mode,
                encoded_stored(image, options),
                Seq::empty(),
            )
            &&& forall|kind: ErrorKind|
                !#[trigger] unfilter_rejects(
                    filtered,
                    image.width_spec(),
                    image.height_spec(),
                    bpp,
                    options.block_rows_spec(),
                    options.row_filters_spec(),
                    mode,
                    kind,
                )
        }),
{
    let storage = encoded_storage(image, options);
    let bpp = storage_bpp(storage) as int;
    let w = image.width_spec() as int;
    let h = image.height_spec() as int;
    let stride = w * bpp;
    let stored = encoded_stored(image, options);
    let filtered = encoded_filtered(image, options);
    lemma_image_storage_len(image, storage, options);
    assert(1 <= bpp <= 4) by {
        match storage {
            StorageFormat::Rgb565 => {},
            StorageFormat::Argb565 => {},
            StorageFormat::Rgb888 => {},
            StorageFormat::Argb888 => {},
        }
    }
    assert(stored.len() == h * stride && 0 <= stride <= 0x7ff * 4 && h * (stride + 1) <= 0x7ff * (0x7ff * 4 + 1)
        && h * stride <= h * (stride + 1)) by (nonlinear_arith)
        requires
            stored.len() == (w * h) * bpp,
            stride == w * bpp,
            0 <= w <= 0x7ff,
            0 <= h <= 0x7ff,
            1 <= bpp <= 4,
    ;
    if options.row_filters_spec() {
        lemma_filter_rows_well_formed(stored, stride, h as nat, bpp, options.block_rows_spec());
        lemma_unfilter_inverts_filter_rows(stored, stride, h as nat, bpp, options.block_rows_spec());
        assert(stored.subrange(0, h * stride) =~= stored);
        assert(crate::filter::length_warning_kinds(filtered.len() as int, h * (stride + 1)) + crate::filter::unknown_filter_kinds(
            filtered,
            stride + 1,
            h as nat,
        ) =~= Seq::<WarningKind>::empty());
    } else {
        assert(unfiltered_plain(stored, h * stride) =~= stored);
        assert(crate::filter::length_warning_kinds(filtered.len() as int, h * stride) + Seq::<WarningKind>::empty()
            =~= Seq::<WarningKind>::empty());
    }
}


/// Opening an image that the encoder wrote as standard eZIP gives back what
/// it stored. Whenever DEFLATE returns the bytes it compressed (which the
/// `inflate` wrapper states for every stream shorter than its limit), and the
/// image is within the decoder's limits, opening the encoded bytes never
/// fails, and every successful open yields one still frame holding exactly
/// the pixel bytes the encoder stored, in the storage format it chose, with no
/// warning.
#[verifier::spinoff_prover]
#[verifier::rlimit(40)]
pub proof fn lemma_still_ezip_roundtrip(image: ImageView, options: EncodeOptions, decode: DecodeOptions)
    requires
        image.wf(),
        options.wf(),
        options.encoding_spec() == ResourceEncoding::Ezip,
        encode_spec(image, options) is Ok,
        image.width_spec() <= decode.limits_spec().width_limit_spec(),
        image.height_spec() <= decode.limits_spec().height_limit_spec(),
        image.height_spec() * (image.width_spec() * storage_bpp(encoded_storage(image, options)))
            <= decode.limits_spec().decoded_byte_limit_spec(),
        raw_inflate(
            raw_deflate(encoded_filtered(image, options), options.level_spec()),
            decode.limits_spec().decoded_byte_limit_spec(),
        ) == Ok::<Seq<u8>, usize>(encoded_filtered(image, options)),
        encoded_filtered(image, options).len() <= decode.limits_spec().decoded_byte_limit_spec(),
    ensures
        encode_spec(image, options) matches Ok((bytes, storage, format)) && storage == encoded_storage(image, options)
            && (forall|kind: ErrorKind| !#[trigger] open_rejects(bytes, decode, kind)) && (forall|
            info: ResourceInfo,
            frames: Seq<(FrameInfo, Seq<u8>)>,
            repeat: Option<Repeat>,
            warnings: Seq<WarningKind>,
        |
            #[trigger] open_accepts(bytes, decode, info, frames, repeat, warnings) ==> info == resource_info(
                ResourceKind::Ezip,
                format,
                storage,
                image.width_spec(),
                image.height_spec(),
                1,
            ) && frames == seq![(still_info(image.width_spec(), image.height_spec()), encoded_stored(image, options))]
                && repeat is None && warnings.len() == 0),
{
    lemma_encoded_layout(image, options);
    lemma_encoded_stream_opens(image, options, decode);
    lemma_encoded_unfilters(image, options, decode.mode_spec());
    let storage = encoded_storage(image, options);
    let format = resolve_resource_format_spec(ResourceEncoding::Ezip, storage);
    let w = image.width_spec();
    let h = image.height_spec();
    let header = ResourceHeader { format, width: w as u16, height: h as u16, reserved: 0 };
    let filtered = encoded_filtered(image, options);
    let stream = ezip_stream_spec(
        storage,
        options.block_rows_spec(),
        w as u16,
        h as u16,
        options.row_filters_spec(),
        filtered,
        raw_deflate(filtered, options.level_spec()),
    );
    let bytes = header_bytes(header) + stream;
    lemma_header_prefix(header, stream);
    let sh = encoded_stream_header(image, options);
    let limit = decode.limits_spec().decoded_byte_limit_spec();
    let mode = decode.mode_spec();
    let bpp = storage_bpp(storage) as usize;
    let stored = encoded_stored(image, options);
    assert(format_kind(format) == ResourceKind::Ezip);
    assert(inflate_accepts(stream, sh, limit, mode, filtered, options.block_rows_spec(), Seq::empty()));
    assert forall|kind: ErrorKind| !#[trigger] open_rejects(bytes, decode, kind) by {
        assert(!inflate_rejects(stream, sh, limit, mode, kind));
        assert forall|b: Seq<u8>, rows: u8, ik: Seq<WarningKind>|
            !(inflate_accepts(stream, sh, limit, mode, b, rows, ik) && unfilter_rejects(
                b,
                w,
                h,
                bpp,
                rows,
                sh.has_row_filters_spec(),
                mode,
                kind,
            )) by {
            if inflate_accepts(stream, sh, limit, mode, b, rows, ik) {
                assert(b == filtered && rows == options.block_rows_spec());
            }
        }
    }
    assert forall|info: ResourceInfo, frames: Seq<(FrameInfo, Seq<u8>)>, repeat: Option<Repeat>, warnings: Seq<WarningKind>|
        #[trigger] open_accepts(bytes, decode, info, frames, repeat, warnings) implies info == resource_info(
        ResourceKind::Ezip,
        format,
        storage,
        w,
        h,
        1,
    ) && frames == seq![(still_info(w, h), stored)] && repeat is None && warnings.len() == 0 by {
        assert(static_ezip_accepts(stream, header, decode, sh, storage, Seq::empty(), info, frames, repeat, warnings));
        let (b, rows, ik, fk) = choose|b: Seq<u8>, rows: u8, ik: Seq<WarningKind>, fk: Seq<WarningKind>|
            #![trigger inflate_accepts(stream, sh, limit, mode, b, rows, ik), Seq::<WarningKind>::empty() + ik + fk]
            inflate_accepts(stream, sh, limit, mode, b, rows, ik) && unfilter_accepts(
                b,
                w,
                h,
                bpp,
                rows,
                sh.has_row_filters_spec(),
                mode,
                frames[0].1,
                fk,
            ) && warnings == Seq::<WarningKind>::empty() + ik + fk;
        assert(b == filtered && rows == options.block_rows_spec() && ik == Seq::<WarningKind>::empty());
        assert(frames[0].1 == stored);
        assert(fk == Seq::<WarningKind>::empty());
        assert(frames =~= seq![(still_info(w, h), stored)]);
    }
}


/// The channels an eight-bit storage format keeps of an input pixel: all four
/// with alpha, and red, green and blue with an opaque alpha without.
pub open spec fn kept_rgba(rgba: (u8, u8, u8, u8), storage: StorageFormat) -> (u8, u8, u8, u8) {
    if storage == StorageFormat::Argb888 {
        rgba
    } else {
        (rgba.0, rgba.1, rgba.2, 255u8)
    }
}

/// The caller-side bytes of the input pixels of `image` as eight-bit storage keeps them.
pub open(crate) spec fn kept_pixels(image: ImageView, storage: StorageFormat, output: PixelFormat) -> Seq<u8> {
    let w = image.width_spec() as int;
    concat_chunks(
        |j: int|
            rgba_bytes(
                kept_rgba(
                    input_rgba(image.pixels_spec(), image.stride_spec() as int, pixel_bpp(image.format_spec()) as int, j / w, j % w),
                    storage,
                ),
                output,
            ),
        (image.width_spec() * image.height_spec()) as nat,
    )
}

/// Eight-bit storage loses nothing: decoding the pixels the encoder stores at
/// RGB888 or ARGB888 gives every input pixel's red, green and blue back, and
/// its alpha where the storage keeps alpha.
pub proof fn lemma_eight_bit_storage_lossless(
    image: ImageView,
    storage: StorageFormat,
    dithering: Rgb565Dithering,
    output: PixelFormat,
)
    requires
        storage == StorageFormat::Rgb888 || storage == StorageFormat::Argb888,
    ensures
        decoded_pixels(
            image_storage_spec(image, storage, dithering, 0, 0),
            storage,
            output,
            (image.width_spec() * image.height_spec()) as nat,
        ) == kept_pixels(image, storage, output),
{
    let stored = image_storage_spec(image, storage, dithering, 0, 0);
    let n = (image.width_spec() * image.height_spec()) as nat;
    let b = storage_bpp(storage) as int;
    let w = image.width_spec() as int;
    lemma_image_storage_layout(image, storage, dithering);
    let g = |j: int|
        rgba_bytes(
            kept_rgba(
                input_rgba(image.pixels_spec(), image.stride_spec() as int, pixel_bpp(image.format_spec()) as int, j / w, j % w),
                storage,
            ),
            output,
        );
    assert forall|j: int| 0 <= j < n implies #[trigger] rgba_bytes(stored_rgba(stored, storage, j), output) == g(j) by {
        let chunk = stored_chunk_of(image, storage, dithering, j);
        assert(stored[j * b + 0] == chunk[0]);
        assert(stored[j * b + 1] == chunk[1]);
        assert(stored[j * b + 2] == chunk[2]);
        if storage == StorageFormat::Argb888 {
            assert(stored[j * b + 3] == chunk[3]);
        }
    }
    crate::seqs::lemma_concat_chunks_ext(|j: int| rgba_bytes(stored_rgba(stored, storage, j), output), g, n);
}


/// Opening an image that the encoder wrote as an uncompressed PIXEL resource
/// gives back what it stored. When the image is within the decoder's limits,
/// opening the encoded bytes never fails, and every successful open yields one
/// still frame holding exactly the pixel bytes the encoder stored, in the
/// storage format it chose, with no warning.
#[verifier::spinoff_prover]
pub proof fn lemma_still_pixel_roundtrip(image: ImageView, options: EncodeOptions, decode: DecodeOptions)
    requires
        image.wf(),
        options.encoding_spec() == ResourceEncoding::Pixel,
        encode_spec(image, options) is Ok,
        image.width_spec() <= decode.limits_spec().width_limit_spec(),
        image.height_spec() <= decode.limits_spec().height_limit_spec(),
        (image.width_spec() * image.height_spec()) * storage_bpp(encoded_storage(image, options))
            <= decode.limits_spec().decoded_byte_limit_spec(),
    ensures
        encode_spec(image, options) matches Ok((bytes, storage, format)) && storage == encoded_storage(image, options)
            && (forall|kind: ErrorKind| !#[trigger] open_rejects(bytes, decode, kind)) && (forall|
            info: ResourceInfo,
            frames: Seq<(FrameInfo, Seq<u8>)>,
            repeat: Option<Repeat>,
            warnings: Seq<WarningKind>,
        |
            #[trigger] open_accepts(bytes, decode, info, frames, repeat, warnings) ==> info == resource_info(
                ResourceKind::Pixel,
                format,
                storage,
                image.width_spec(),
                image.height_spec(),
                1,
            ) && frames == seq![(still_info(image.width_spec(), image.height_spec()), encoded_stored(image, options))]
                && repeat is None && warnings.len() == 0),
{
    let storage = encoded_storage(image, options);
    let format = resolve_resource_format_spec(ResourceEncoding::Pixel, storage);
    let w = image.width_spec();
    let h = image.height_spec();
    let header = ResourceHeader { format, width: w as u16, height: h as u16, reserved: 0 };
    let stored = encoded_stored(image, options);
    let trailer = crate::bytes::le_u32_bytes(crate::checksum::crc32_spec(stored));
    let payload = stored + trailer;
    assert(encode_spec(image, options) == Ok::<(Seq<u8>, StorageFormat, ResourceFormat), ErrorKind>(
        (header_bytes(header) + stored + trailer, storage, format),
    ));
    assert(header_bytes(header) + stored + trailer == header_bytes(header) + payload) by {
        assert(header_bytes(header) + stored + trailer =~= header_bytes(header) + payload);
    }
    lemma_header_prefix(header, payload);
    lemma_image_storage_len(image, storage, options);
    let count = w * h;
    let bpp = storage_bpp(storage) as int;
    let has_alpha = format == ResourceFormat::PixelWithAlpha;
    assert(count >= 1 && count * 2 <= count * bpp && count * bpp <= count * 4) by (nonlinear_arith)
        requires
            w >= 1,
            h >= 1,
            count == w * h,
            2 <= bpp <= 4,
    ;
    assert(count * bpp == (if has_alpha { count * 3 } else { count * 2 }) || count * bpp == (if has_alpha {
        count * 4
    } else {
        count * 3
    })) by {
        match storage {
            StorageFormat::Rgb565 => {},
            StorageFormat::Argb565 => {},
            StorageFormat::Rgb888 => {},
            StorageFormat::Argb888 => {},
        }
    }
    assert(crate::decoder::pixel_storage(has_alpha, bpp) == storage) by {
        match storage {
            StorageFormat::Rgb565 => {},
            StorageFormat::Argb565 => {},
            StorageFormat::Rgb888 => {},
            StorageFormat::Argb888 => {},
        }
    }
    crate::bytes::lemma_le_u32_roundtrip(crate::checksum::crc32_spec(stored));
    assert(payload.subrange(0, count * bpp) =~= stored);
    assert(le_u32_at(payload, count * bpp) == le_u32_at(trailer, 0));
    assert(crate::decoder::pixel_trailer_spec(payload, count * bpp, false, decode.mode_spec()) == Ok::<Seq<WarningKind>, ErrorKind>(
        Seq::empty(),
    )) by {
        assert(Seq::<WarningKind>::empty() + Seq::<WarningKind>::empty() + Seq::<WarningKind>::empty() =~= Seq::<
            WarningKind,
        >::empty());
    }
    assert(crate::decoder::pixel_open_spec(payload, w, h, has_alpha, decode) == Ok::<
        (StorageFormat, int, Seq<WarningKind>),
        ErrorKind,
    >((storage, count * bpp, Seq::empty())));
    assert(format_kind(format) == ResourceKind::Pixel);
    assert forall|info: ResourceInfo, frames: Seq<(FrameInfo, Seq<u8>)>, repeat: Option<Repeat>, warnings: Seq<WarningKind>|
        #[trigger] open_accepts(header_bytes(header) + payload, decode, info, frames, repeat, warnings) implies info
        == resource_info(ResourceKind::Pixel, format, storage, w, h, 1) && frames == seq![(still_info(w, h), stored)]
        && repeat is None && warnings.len() == 0 by {
        assert(frames =~= seq![(still_info(w, h), stored)]);
    }
}


/// Unfiltering what the encoder compresses for `stored` pixel bytes of a
/// `width` by `height` rectangle gives those bytes back, with no warning.
pub(crate) proof fn lemma_stored_unfilters(
    stored: Seq<u8>,
    width: u32,
    height: u32,
    bpp: int,
    block_rows: u8,
    row_filters: bool,
    mode: DecodeMode,
)
    requires
        1 <= width <= 0x7ff,
        1 <= height <= 0x7ff,
        1 <= bpp <= 4,
        block_rows > 0,
        stored.len() == height * (width * bpp),
    ensures
        crate::filter::unfilter_outcome(
            filtered_bytes(stored, width as int, height as int, bpp, block_rows, row_filters),
            width,
            height,
            bpp as usize,
            block_rows,
            row_filters,
            mode,
        ) == Ok::<(Seq<u8>, Seq<WarningKind>), ErrorKind>((stored, Seq::empty())),
        filtered_bytes(stored, width as int, height as int, bpp, block_rows, row_filters).len() >= stored.len(),
{
    let w = width as int;
    let h = height as int;
    let stride = w * bpp;
    let filtered = filtered_bytes(stored, w, h, bpp, block_rows, row_filters);
    assert(0 <= stride <= 0x7ff * 4 && h * (stride + 1) <= 0x7ff * (0x7ff * 4 + 1) && h * stride <= h * (stride + 1))
        by (nonlinear_arith)
        requires
            stride == w * bpp,
            0 <= w <= 0x7ff,
            0 <= h <= 0x7ff,
            1 <= bpp <= 4,
    ;
    if row_filters {
        lemma_filter_rows_well_formed(stored, stride, h as nat, bpp, block_rows);
        lemma_unfilter_inverts_filter_rows(stored, stride, h as nat, bpp, block_rows);
        assert(stored.subrange(0, h * stride) =~= stored);
        assert(crate::filter::length_warning_kinds(filtered.len() as int, h * (stride + 1)) + crate::filter::unknown_filter_kinds(
            filtered,
            stride + 1,
            h as nat,
        ) =~= Seq::<WarningKind>::empty());

    } else {
        assert(unfiltered_plain(stored, h * stride) =~= stored);
        assert(crate::filter::length_warning_kinds(filtered.len() as int, h * stride) + Seq::<WarningKind>::empty()
            =~= Seq::<WarningKind>::empty());
    }
}

} // verus!
