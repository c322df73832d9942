use vstd::prelude::*;

use crate::bytes::{be_u16_bytes, be_u32_bytes, le_u16_bytes, le_u32_bytes, push_be_u16, push_be_u32, push_le_u16, push_le_u32};
use crate::checksum::{adler32, adler32_spec, crc32, crc32_spec};
use crate::deflate::{deflate, raw_deflate};
use crate::dither::{pack_rgb565, pack_rgb565_spec, Rgb565Dithering};
use crate::error::{Error, ErrorKind};
use crate::filter::{filter_rows, filter_rows_spec};
use crate::header::{header_bytes, ResourceFormat, ResourceHeader};
use crate::pixels::{pixel_bpp, storage_bpp, ImageView, PixelFormat, StorageFormat};
use crate::seqs::{concat_chunks, lemma_chunk_index};

verus! {

/// Base color precision requested from the encoder.
#[derive(Clone, Copy, Debug, PartialEq, Eq, Structural)]
#[non_exhaustive]
pub enum ColorDepth {
    Rgb565,
    Rgb888,
}

/// Policy for retaining or discarding an input alpha channel.
#[derive(Clone, Copy, Debug, PartialEq, Eq, Structural)]
#[non_exhaustive]
pub enum AlphaMode {
    /// Retain alpha only when the input contains a non-opaque pixel.
    Auto,
    /// Always emit an alpha-capable storage format.
    Preserve,
    /// Always emit an opaque storage format.
    Discard,
}

/// Static resource representation written by the encoder.
#[derive(Clone, Copy, Debug, PartialEq, Eq, Structural)]
#[non_exhaustive]
pub enum ResourceEncoding {
    Ezip,
    Pixel,
}

/// Strategy used to select the filtered representation and DEFLATE stream.
#[derive(Clone, Copy, Debug, PartialEq, Eq, Structural)]
#[non_exhaustive]
pub enum CompressionStrategy {
    /// Compress the requested row-filter plan once at the configured level.
    Fast,
    /// Search filter plans and compressors for the smallest result; this build
    /// does not provide that search and rejects the strategy when encoding.
    Smallest,
}

/// Options controlling static resource encoding.
#[derive(Clone, Copy, Debug, PartialEq, Eq, Structural)]
pub struct EncodeOptions {
    pub(crate) color_depth: ColorDepth,
    pub(crate) alpha_mode: AlphaMode,
    pub(crate) resource_encoding: ResourceEncoding,
    pub(crate) rgb565_dithering: Rgb565Dithering,
    pub(crate) block_rows: u8,
    pub(crate) row_filters: bool,
    pub(crate) compression_level: u8,
    pub(crate) compression_strategy: CompressionStrategy,
}

impl Default for EncodeOptions {
    fn default() -> (o: Self)
        ensures
            o == EncodeOptions::default_spec(),
    {
        EncodeOptions {
            color_depth: ColorDepth::Rgb565,
            alpha_mode: AlphaMode::Auto,
            resource_encoding: ResourceEncoding::Ezip,
            rgb565_dithering: Rgb565Dithering::Balanced8x8,
            block_rows: 32,
            row_filters: true,
            compression_level: 6,
            compression_strategy: CompressionStrategy::Fast,
        }
    }
}

impl EncodeOptions {
    /// Block rows are positive and the level is one the compressor accepts.
    #[verifier::type_invariant]
    pub open(crate) spec fn wf(self) -> bool {
        self.block_rows > 0 && self.compression_level <= 10
    }

    /// The default configuration.
    pub open(crate) spec fn default_spec() -> EncodeOptions {
        EncodeOptions {
            color_depth: ColorDepth::Rgb565,
            alpha_mode: AlphaMode::Auto,
            resource_encoding: ResourceEncoding::Ezip,
            rgb565_dithering: Rgb565Dithering::Balanced8x8,
            block_rows: 32,
            row_filters: true,
            compression_level: 6,
            compression_strategy: CompressionStrategy::Fast,
        }
    }

    /// This configuration with `color_depth` replaced.
    pub open(crate) spec fn with_color_depth_spec(self, value: ColorDepth) -> EncodeOptions {
        EncodeOptions { color_depth: value, ..self }
    }

    /// This configuration with `alpha_mode` replaced.
    pub open(crate) spec fn with_alpha_mode_spec(self, value: AlphaMode) -> EncodeOptions {
        EncodeOptions { alpha_mode: value, ..self }
    }

    /// This configuration with `resource_encoding` replaced.
    pub open(crate) spec fn with_resource_encoding_spec(self, value: ResourceEncoding) -> EncodeOptions {
        EncodeOptions { resource_encoding: value, ..self }
    }

    /// This configuration with `rgb565_dithering` replaced.
    pub open(crate) spec fn with_dithering_spec(self, value: Rgb565Dithering) -> EncodeOptions {
        EncodeOptions { rgb565_dithering: value, ..self }
    }

    /// This configuration with `block_rows` replaced.
    pub open(crate) spec fn with_block_rows_spec(self, value: u8) -> EncodeOptions {
        EncodeOptions { block_rows: value, ..self }
    }

    /// This configuration with `row_filters` replaced.
    pub open(crate) spec fn with_row_filters_spec(self, value: bool) -> EncodeOptions {
        EncodeOptions { row_filters: value, ..self }
    }

    /// This configuration with `compression_level` replaced.
    pub open(crate) spec fn with_level_spec(self, value: u8) -> EncodeOptions {
        EncodeOptions { compression_level: value, ..self }
    }

    /// This configuration with `compression_strategy` replaced.
    pub open(crate) spec fn with_strategy_spec(self, value: CompressionStrategy) -> EncodeOptions {
        EncodeOptions { compression_strategy: value, ..self }
    }

    pub open(crate) spec fn color_depth_spec(self) -> ColorDepth {
        self.color_depth
    }

    pub open(crate) spec fn alpha_mode_spec(self) -> AlphaMode {
        self.alpha_mode
    }

    pub open(crate) spec fn encoding_spec(self) -> ResourceEncoding {
        self.resource_encoding
    }

    pub open(crate) spec fn dithering_spec(self) -> Rgb565Dithering {
        self.rgb565_dithering
    }

    pub open(crate) spec fn block_rows_spec(self) -> u8 {
        self.block_rows
    }

    pub open(crate) spec fn row_filters_spec(self) -> bool {
        self.row_filters
    }

    pub open(crate) spec fn level_spec(self) -> u8 {
        self.compression_level
    }

    pub open(crate) spec fn strategy_spec(self) -> CompressionStrategy {
        self.compression_strategy
    }

    pub fn new(color_depth: ColorDepth) -> (o: Self)
        ensures
            o == EncodeOptions::default_spec().with_color_depth_spec(color_depth),
    {
        EncodeOptions { color_depth, ..EncodeOptions::default() }
    }

    pub fn alpha_mode(self, alpha_mode: AlphaMode) -> (o: Self)
        ensures
            o == self.with_alpha_mode_spec(alpha_mode),
    {
        proof {
            use_type_invariant(&self);
        }
        EncodeOptions { alpha_mode, ..self }
    }

    pub fn resource_encoding(self, resource_encoding: ResourceEncoding) -> (o: Self)
        ensures
            o == self.with_resource_encoding_spec(resource_encoding),
    {
        proof {
            use_type_invariant(&self);
        }
        EncodeOptions { resource_encoding, ..self }
    }

    pub fn dithering(self, dithering: Rgb565Dithering) -> (o: Self)
        ensures
            o == self.with_dithering_spec(dithering),
    {
        proof {
            use_type_invariant(&self);
        }
        EncodeOptions { rgb565_dithering: dithering, ..self }
    }

    pub fn block_rows(self, block_rows: u8) -> (r: crate::Result<Self>)
        ensures
            match r {
                Ok(o) => block_rows > 0 && o == self.with_block_rows_spec(block_rows),
                Err(e) => block_rows == 0 && e.kind_spec() == ErrorKind::InvalidInput,
            },
    {
        proof {
            use_type_invariant(&self);
        }
        if block_rows == 0 {
            return Err(Error::new(ErrorKind::InvalidInput, "eZIP block-row count must be positive"));
        }
        Ok(EncodeOptions { block_rows, ..self })
    }

    pub fn row_filters(self, enabled: bool) -> (o: Self)
        ensures
            o == self.with_row_filters_spec(enabled),
    {
        proof {
            use_type_invariant(&self);
        }
        EncodeOptions { row_filters: enabled, ..self }
    }

    pub fn compression_level(self, level: u8) -> (r: crate::Result<Self>)
        ensures
            match r {
                Ok(o) => level <= 10 && o == self.with_level_spec(level),
                Err(e) => level > 10 && e.kind_spec() == ErrorKind::InvalidInput,
            },
    {
        proof {
            use_type_invariant(&self);
        }
        if level > 10 {
            return Err(Error::new(ErrorKind::InvalidInput, "compression level is outside 0..=10"));
        }
        Ok(EncodeOptions { compression_level: level, ..self })
    }

    pub fn compression_strategy(self, strategy: CompressionStrategy) -> (o: Self)
        ensures
            o == self.with_strategy_spec(strategy),
    {
        proof {
            use_type_invariant(&self);
        }
        EncodeOptions { compression_strategy: strategy, ..self }
    }

    pub fn color_depth(self) -> (d: ColorDepth)
        ensures
            d == self.color_depth_spec(),
    {
        self.color_depth
    }

    pub fn alpha_policy(self) -> (a: AlphaMode)
        ensures
            a == self.alpha_mode_spec(),
    {
        self.alpha_mode
    }

    pub fn encoding(self) -> (e: ResourceEncoding)
        ensures
            e == self.encoding_spec(),
    {
        self.resource_encoding
    }

    pub fn rgb565_dithering(self) -> (d: Rgb565Dithering)
        ensures
            d == self.dithering_spec(),
    {
        self.rgb565_dithering
    }

    pub fn rows_per_block(self) -> (n: u8)
        ensures
            n == self.block_rows_spec(),
            n > 0,
    {
        proof {
            use_type_invariant(&self);
        }
        self.block_rows
    }

    pub fn uses_row_filters(self) -> (b: bool)
        ensures
            b == self.row_filters_spec(),
    {
        self.row_filters
    }

    pub fn level(self) -> (l: u8)
        ensures
            l == self.level_spec(),
            l <= 10,
    {
        proof {
            use_type_invariant(&self);
        }
        self.compression_level
    }

    pub fn strategy(self) -> (s: CompressionStrategy)
        ensures
            s == self.strategy_spec(),
    {
        self.compression_strategy
    }
}

/// Encoded bytes and the storage format selected for them.
#[derive(Clone, Debug, PartialEq, Eq)]
pub struct EncodedResource {
    pub(crate) bytes: Vec<u8>,
    pub(crate) storage_format: StorageFormat,
    pub(crate) resource_format: ResourceFormat,
}

impl EncodedResource {
    pub open(crate) spec fn bytes_spec(&self) -> Seq<u8> {
        self.bytes@
    }

    pub open(crate) spec fn storage_format_spec(&self) -> StorageFormat {
        self.storage_format
    }

    pub open(crate) spec fn resource_format_spec(&self) -> ResourceFormat {
        self.resource_format
    }

    pub fn as_bytes(&self) -> (b: &[u8])
        ensures
            b@ == self.bytes_spec(),
    {
        self.bytes.as_slice()
    }

    pub fn into_bytes(self) -> (b: Vec<u8>)
        ensures
            b@ == self.bytes_spec(),
    {
        self.bytes
    }

    pub fn storage_format(&self) -> (s: StorageFormat)
        ensures
            s == self.storage_format_spec(),
    {
        self.storage_format
    }

    pub fn resource_format(&self) -> (f: ResourceFormat)
        ensures
            f == self.resource_format_spec(),
    {
        self.resource_format
    }
}

/// The storage format for a color depth with or without alpha.
pub open spec fn resolve_storage_spec(depth: ColorDepth, has_alpha: bool) -> StorageFormat {
    match (depth, has_alpha) {
        (ColorDepth::Rgb565, false) => StorageFormat::Rgb565,
        (ColorDepth::Rgb888, false) => StorageFormat::Rgb888,
        (ColorDepth::Rgb565, true) => StorageFormat::Argb565,
        (ColorDepth::Rgb888, true) => StorageFormat::Argb888,
    }
}

/// The outer resource format for a representation and storage format.
pub open spec fn resolve_resource_format_spec(encoding: ResourceEncoding, storage: StorageFormat) -> ResourceFormat {
    match encoding {
        ResourceEncoding::Ezip => if storage == StorageFormat::Argb565 {
            ResourceFormat::EzipWithAlpha
        } else {
            ResourceFormat::Ezip
        },
        ResourceEncoding::Pixel => if storage == StorageFormat::Rgb565 || storage == StorageFormat::Rgb888 {
            ResourceFormat::Pixel
        } else {
            ResourceFormat::PixelWithAlpha
        },
    }
}

/// The color-type nibble of a storage format in an eZIP control byte.
pub open spec fn color_type_spec(storage: StorageFormat) -> u8 {
    match storage {
        StorageFormat::Rgb888 => 2,
        StorageFormat::Argb888 => 6,
        StorageFormat::Rgb565 => 8,
        StorageFormat::Argb565 => 12,
    }
}

/// The bit-depth byte of a storage format in an eZIP stream header.
pub open spec fn bit_depth_spec(storage: StorageFormat) -> u8 {
    match storage {
        StorageFormat::Rgb565 => 16,
        StorageFormat::Argb565 => 24,
        StorageFormat::Rgb888 | StorageFormat::Argb888 => 8,
    }
}

pub(crate) fn resolve_storage(depth: ColorDepth, has_alpha: bool) -> (s: StorageFormat)
    ensures
        s == resolve_storage_spec(depth, has_alpha),
{
    match (depth, has_alpha) {
        (ColorDepth::Rgb565, false) => StorageFormat::Rgb565,
        (ColorDepth::Rgb888, false) => StorageFormat::Rgb888,
        (ColorDepth::Rgb565, true) => StorageFormat::Argb565,
        (ColorDepth::Rgb888, true) => StorageFormat::Argb888,
    }
}

pub(crate) fn resolve_resource_format(encoding: ResourceEncoding, storage: StorageFormat) -> (f: ResourceFormat)
    ensures
        f == resolve_resource_format_spec(encoding, storage),
{
    match encoding {
        ResourceEncoding::Ezip => if storage == StorageFormat::Argb565 {
            ResourceFormat::EzipWithAlpha
        } else {
            ResourceFormat::Ezip
        },
        ResourceEncoding::Pixel => match storage {
            StorageFormat::Rgb565 | StorageFormat::Rgb888 => ResourceFormat::Pixel,
            StorageFormat::Argb565 | StorageFormat::Argb888 => ResourceFormat::PixelWithAlpha,
        },
    }
}

pub(crate) fn color_type(storage: StorageFormat) -> (c: u8)
    ensures
        c == color_type_spec(storage),
{
    match storage {
        StorageFormat::Rgb888 => 2,
        StorageFormat::Argb888 => 6,
        StorageFormat::Rgb565 => 8,
        StorageFormat::Argb565 => 12,
    }
}

pub(crate) fn storage_bit_depth(storage: StorageFormat) -> (d: u8)
    ensures
        d == bit_depth_spec(storage),
{
    match storage {
        StorageFormat::Rgb565 => 16,
        StorageFormat::Argb565 => 24,
        StorageFormat::Rgb888 | StorageFormat::Argb888 => 8,
    }
}

/// Red, green, blue and alpha of the input pixel at `row`, `col`.
pub open spec fn input_rgba(pixels: Seq<u8>, stride: int, ibpp: int, row: int, col: int) -> (u8, u8, u8, u8) {
    let base = row * stride + col * ibpp;
    (pixels[base], pixels[base + 1], pixels[base + 2], if ibpp == 4 {
        pixels[base + 3]
    } else {
        255u8
    })
}

/// Position in the 8x8 dither pattern of pixel `row`, `col` of a frame placed at `x_offset`, `y_offset`.
pub open spec fn dither_index(x_offset: u32, y_offset: u32, row: int, col: int) -> int {
    ((y_offset % 8 + row) % 8) * 8 + (x_offset % 8 + col) % 8
}

/// Ordered dithering follows the canvas: a pixel of a frame placed at
/// (`x_offset`, `y_offset`) takes the pattern position of its canvas
/// coordinates, so the pattern does not shift at frame rectangle boundaries.
pub proof fn lemma_dither_follows_canvas(x_offset: u32, y_offset: u32, row: int, col: int)
    ensures
        dither_index(x_offset, y_offset, row, col) == dither_index(0, 0, y_offset + row, x_offset + col),
{
    vstd::arithmetic::div_mod::lemma_add_mod_noop_right(row, y_offset as int, 8);
    vstd::arithmetic::div_mod::lemma_add_mod_noop_right(col, x_offset as int, 8);
    assert((y_offset % 8 + row) % 8 == (y_offset + row) % 8);
    assert((x_offset % 8 + col) % 8 == (x_offset + col) % 8);
}

/// Dithering changes only RGB565 color channels: eight-bit storage keeps the
/// same bytes under every dithering mode and pattern position, and alpha is
/// stored unchanged.
pub proof fn lemma_dithering_leaves_alpha_and_eight_bit_storage(
    rgba: (u8, u8, u8, u8),
    storage: StorageFormat,
    first: Rgb565Dithering,
    second: Rgb565Dithering,
    first_index: int,
    second_index: int,
)
    ensures
        (storage == StorageFormat::Rgb888 || storage == StorageFormat::Argb888) ==> stored_chunk(
            rgba,
            storage,
            first,
            first_index,
        ) == stored_chunk(rgba, storage, second, second_index),
        storage == StorageFormat::Argb565 ==> stored_chunk(rgba, storage, first, first_index)[2] == rgba.3,
        storage == StorageFormat::Argb888 ==> stored_chunk(rgba, storage, first, first_index)[3] == rgba.3,
{
}

/// The stored bytes of one pixel.
pub open spec fn stored_chunk(rgba: (u8, u8, u8, u8), storage: StorageFormat, dithering: Rgb565Dithering, index: int) -> Seq<u8> {
    match storage {
        StorageFormat::Rgb565 => le_u16_bytes(pack_rgb565_spec(rgba.0, rgba.1, rgba.2, dithering, index)),
        StorageFormat::Argb565 => le_u16_bytes(pack_rgb565_spec(rgba.0, rgba.1, rgba.2, dithering, index)).push(rgba.3),
        StorageFormat::Rgb888 => seq![rgba.2, rgba.1, rgba.0],
        StorageFormat::Argb888 => seq![rgba.2, rgba.1, rgba.0, rgba.3],
    }
}

/// The stored bytes of the first `count` pixels, taken row by row.
pub open spec fn stored_pixels_spec(
    pixels: Seq<u8>,
    width: int,
    stride: int,
    ibpp: int,
    storage: StorageFormat,
    dithering: Rgb565Dithering,
    x_offset: u32,
    y_offset: u32,
    count: nat,
) -> Seq<u8> {
    concat_chunks(
        |j: int|
            stored_chunk(
                input_rgba(pixels, stride, ibpp, j / width, j % width),
                storage,
                dithering,
                dither_index(x_offset, y_offset, j / width, j % width),
            ),
        count,
    )
}

/// The stored bytes of a whole image.
pub open(crate) spec fn image_storage_spec(
    image: ImageView,
    storage: StorageFormat,
    dithering: Rgb565Dithering,
    x_offset: u32,
    y_offset: u32,
) -> Seq<u8> {
    stored_pixels_spec(
        image.pixels@,
        image.width as int,
        image.stride as int,
        pixel_bpp(image.format) as int,
        storage,
        dithering,
        x_offset,
        y_offset,
        (image.width * image.height) as nat,
    )
}

fn push_stored(out: &mut Vec<u8>, rgba: (u8, u8, u8, u8), storage: StorageFormat, dithering: Rgb565Dithering, index: usize)
    requires
        index < 64,
    ensures
        final(out)@ == old(out)@ + stored_chunk(rgba, storage, dithering, index as int),
{
    match storage {
        StorageFormat::Rgb565 | StorageFormat::Argb565 => {
            let packed = pack_rgb565(rgba.0, rgba.1, rgba.2, dithering, index);
            push_le_u16(out, packed);
            if storage == StorageFormat::Argb565 {
                out.push(rgba.3);
            }
        },
        StorageFormat::Rgb888 => {
            out.push(rgba.2);
            out.push(rgba.1);
            out.push(rgba.0);
        },
        StorageFormat::Argb888 => {
            out.push(rgba.2);
            out.push(rgba.1);
            out.push(rgba.0);
            out.push(rgba.3);
        },
    }
    assert(final(out)@ =~= old(out)@ + stored_chunk(rgba, storage, dithering, index as int));
}

proof fn lemma_image_pixel_in_bounds(image: ImageView, row: int, col: int)
    requires
        image.wf(),
        0 <= row < image.height,
        0 <= col < image.width,
    ensures
        row * image.stride + col * pixel_bpp(image.format) + pixel_bpp(image.format) <= image.pixels@.len(),
        0 <= row * image.stride,
        0 <= col * pixel_bpp(image.format),
{
    let b = pixel_bpp(image.format) as int;
    let s = image.stride as int;
    let h = image.height as int;
    let w = image.width as int;
    assert(row * s <= (h - 1) * s && 0 <= row * s) by (nonlinear_arith)
        requires
            0 <= row < h,
            s >= 0,
    ;
    assert(col * b + b <= w * b && 0 <= col * b) by (nonlinear_arith)
        requires
            0 <= col < w,
            b >= 0,
    ;
}

/// Convert caller pixels to stored pixels, dithering RGB565 at canvas position
/// (`x_offset`, `y_offset`).
pub(crate) fn encode_storage_pixels(
    image: ImageView<'_>,
    storage: StorageFormat,
    dithering: Rgb565Dithering,
    x_offset: u32,
    y_offset: u32,
) -> (r: crate::Result<Vec<u8>>)
    ensures
        match r {
            Ok(v) => v@ == image_storage_spec(image, storage, dithering, x_offset, y_offset),
            Err(e) => e.kind_spec() == ErrorKind::LimitExceeded && (image.width_spec() * image.height_spec()
                > usize::MAX || image.width_spec() * image.height_spec() * storage_bpp(storage) > usize::MAX),
        },
{
    proof {
        use_type_invariant(&image);
    }
    let width = image.width;
    let height = image.height;
    let pixel_count = match (width as usize).checked_mul(height as usize) {
        Some(v) => v,
        None => return Err(Error::new(ErrorKind::LimitExceeded, "pixel count overflow")),
    };
    let capacity = match pixel_count.checked_mul(storage.bytes_per_pixel()) {
        Some(v) => v,
        None => return Err(Error::new(ErrorKind::LimitExceeded, "stored image size overflow")),
    };
    let mut output: Vec<u8> = Vec::with_capacity(capacity);
    let input_bpp = image.format.bytes_per_pixel();
    let stride = image.stride;
    let pixels = image.pixels;
    let pixels_len = pixels.len();
    let ghost f = |j: int|
        stored_chunk(
            input_rgba(pixels@, stride as int, input_bpp as int, j / width as int, j % width as int),
            storage,
            dithering,
            dither_index(x_offset, y_offset, j / width as int, j % width as int),
        );
    let mut row: u32 = 0;
    while row < height
        invariant
            image.wf(),
            row <= height,
            width == image.width,
            height == image.height,
            stride == image.stride,
            pixels@ == image.pixels@,
            pixels_len == pixels@.len(),
            input_bpp == pixel_bpp(image.format),
            width > 0,
            output@ == concat_chunks(f, (row * width) as nat),
            f == (|j: int|
                stored_chunk(
                    input_rgba(pixels@, stride as int, input_bpp as int, j / width as int, j % width as int),
                    storage,
                    dithering,
                    dither_index(x_offset, y_offset, j / width as int, j % width as int),
                )),
        decreases height - row,
    {
        proof {
            lemma_image_pixel_in_bounds(image, row as int, 0);
        }
        let row_start = row as usize * stride;
        let mut column: u32 = 0;
        let mut base: usize = row_start;
        while column < width
            invariant
                image.wf(),
                row < height,
                column <= width,
                width == image.width,
                height == image.height,
                stride == image.stride,
                pixels@ == image.pixels@,
                input_bpp == pixel_bpp(image.format),
                row_start == row * stride,
                base == row_start + column * input_bpp,
                width > 0,
                output@ == concat_chunks(f, (row * width + column) as nat),
                f == (|j: int|
                    stored_chunk(
                        input_rgba(pixels@, stride as int, input_bpp as int, j / width as int, j % width as int),
                        storage,
                        dithering,
                        dither_index(x_offset, y_offset, j / width as int, j % width as int),
                    )),
            decreases width - column,
        {
            proof {
                lemma_image_pixel_in_bounds(image, row as int, column as int);
                lemma_chunk_index((row * width + column) as int, row as int, width as int);
            }
            let red = pixels[base];
            let green = pixels[base + 1];
            let blue = pixels[base + 2];
            let alpha = if input_bpp == 4 {
                pixels[base + 3]
            } else {
                255
            };
            let x = (((x_offset % 8) as u64 + column as u64) % 8) as usize;
            let y = (((y_offset % 8) as u64 + row as u64) % 8) as usize;
            push_stored(&mut output, (red, green, blue, alpha), storage, dithering, y * 8 + x);
            proof {
                let j = (row * width + column) as int;
                assert(f(j) == stored_chunk((red, green, blue, alpha), storage, dithering, (y * 8 + x) as int));
                assert((column + 1) * input_bpp == column * input_bpp + input_bpp) by (nonlinear_arith);
            }
            column = column + 1;
            base = base + input_bpp;
        }
        proof {
            assert((row + 1) * width == row * width + width) by (nonlinear_arith);
        }
        row = row + 1;
    }
    proof {
        assert(height * width == width * height) by (nonlinear_arith);
        let g = |j: int|
            stored_chunk(
                input_rgba(image.pixels@, image.stride as int, pixel_bpp(image.format) as int, j / image.width as int, j % image.width as int),
                storage,
                dithering,
                dither_index(x_offset, y_offset, j / image.width as int, j % image.width as int),
            );
        crate::seqs::lemma_concat_chunks_ext(f, g, (width * height) as nat);
    }
    Ok(output)
}

/// Whether an RGBA image has a pixel whose alpha is not 255.
pub open(crate) spec fn has_translucent_pixel(image: ImageView) -> bool {
    image.format == PixelFormat::Rgba8 && exists|row: int, col: int|
        0 <= row < image.height && 0 <= col < image.width && #[trigger] image.pixels@[row * image.stride + col * 4 + 3] != 255
}

/// Whether the encoder keeps alpha for `image` under `mode`.
pub open(crate) spec fn resolve_alpha_spec(image: ImageView, mode: AlphaMode) -> bool {
    match mode {
        AlphaMode::Preserve => true,
        AlphaMode::Discard => false,
        AlphaMode::Auto => has_translucent_pixel(image),
    }
}

fn resolve_alpha(image: ImageView<'_>, mode: AlphaMode) -> (b: bool)
    ensures
        b == resolve_alpha_spec(image, mode),
{
    proof {
        use_type_invariant(&image);
    }
    match mode {
        AlphaMode::Preserve => true,
        AlphaMode::Discard => false,
        AlphaMode::Auto => {
            if image.format != PixelFormat::Rgba8 {
                return false;
            }
            let pixels = image.pixels;
            let pixels_len = pixels.len();
            let mut row: u32 = 0;
            while row < image.height
                invariant
                    image.wf(),
                    mode == AlphaMode::Auto,
                    image.format == PixelFormat::Rgba8,
                    pixels@ == image.pixels@,
                    pixels_len == pixels@.len(),
                    row <= image.height,
                    forall|r: int, c: int|
                        0 <= r < row && 0 <= c < image.width ==> #[trigger] image.pixels@[r * image.stride + c * 4 + 3] == 255,
                decreases image.height - row,
            {
                let mut col: u32 = 0;
                while col < image.width
                    invariant
                        image.wf(),
                        mode == AlphaMode::Auto,
                        image.format == PixelFormat::Rgba8,
                        pixels@ == image.pixels@,
                        pixels_len == pixels@.len(),
                        row < image.height,
                        col <= image.width,
                        forall|r: int, c: int|
                            0 <= r < row && 0 <= c < image.width ==> #[trigger] image.pixels@[r * image.stride + c * 4 + 3] == 255,
                        forall|c: int| 0 <= c < col ==> #[trigger] image.pixels@[row * image.stride + c * 4 + 3] == 255,
                    decreases image.width - col,
                {
                    proof {
                        lemma_image_pixel_in_bounds(image, row as int, col as int);
                    }
                    let index = row as usize * image.stride + col as usize * 4 + 3;
                    if pixels[index] != 255 {
                        proof {
                            assert(image.pixels@[row * image.stride + col * 4 + 3] != 255);
                        }
                        return true;
                    }
                    col = col + 1;
                }
                row = row + 1;
            }
            false
        },
    }
}

/// The filtered bytes and DEFLATE stream chosen for an image.
#[derive(Debug)]
pub(crate) struct CompressionResult {
    pub filtered: Vec<u8>,
    pub compressed: Vec<u8>,
    pub has_row_filters: bool,
}

/// The bytes that are compressed for an image: its rows after adaptive
/// filtering, or the stored pixels unchanged when filters are disabled.
pub open spec fn filtered_bytes(pixels: Seq<u8>, width: int, height: int, bpp: int, block_rows: u8, row_filters: bool) -> Seq<u8> {
    if row_filters {
        filter_rows_spec(pixels, width * bpp, height as nat, bpp, block_rows)
    } else {
        pixels
    }
}

/// Compress stored pixels once, with the configured row-filter plan and level.
pub(crate) fn compress_pixels(
    pixels: &[u8],
    width: usize,
    height: usize,
    bytes_per_pixel: usize,
    options: EncodeOptions,
) -> (r: CompressionResult)
    requires
        bytes_per_pixel > 0,
        width * bytes_per_pixel <= 0xFFFF_FFFF,
        height * (width * bytes_per_pixel + 1) <= usize::MAX,
        pixels@.len() >= height * (width * bytes_per_pixel),
    ensures
        r.has_row_filters == options.row_filters_spec(),
        r.filtered@ == filtered_bytes(pixels@, width as int, height as int, bytes_per_pixel as int, options.block_rows_spec(), options.row_filters_spec()),
        r.compressed@ == raw_deflate(r.filtered@, options.level_spec()),
{
    let filtered = if options.uses_row_filters() {
        filter_rows(pixels, width, height, bytes_per_pixel, options.rows_per_block())
    } else {
        crate::bytes::copy_bytes(pixels)
    };
    let compressed = deflate(filtered.as_slice(), options.level());
    CompressionResult { filtered, compressed, has_row_filters: options.uses_row_filters() }
}

/// Reject strategies this build does not provide.
pub(crate) fn validate_compression_strategy(options: EncodeOptions) -> (r: crate::Result<()>)
    ensures
        match r {
            Ok(()) => options.strategy_spec() == CompressionStrategy::Fast,
            Err(e) => options.strategy_spec() == CompressionStrategy::Smallest && e.kind_spec() == ErrorKind::InvalidInput
                && e.message_spec() == "smallest-output compression requires the `smallest` Cargo feature"@,
        },
{
    if options.strategy() == CompressionStrategy::Smallest {
        return Err(Error::new(ErrorKind::InvalidInput, "smallest-output compression requires the `smallest` Cargo feature"));
    }
    Ok(())
}

/// The 16-byte header of an eZIP stream.
pub open spec fn stream_header_spec(
    size: u32,
    control: u8,
    storage: StorageFormat,
    block_rows: u8,
    width: u16,
    height: u16,
    has_row_filters: bool,
) -> Seq<u8> {
    be_u32_bytes(size) + seq![control, bit_depth_spec(storage), block_rows, 0u8] + be_u16_bytes(width)
        + be_u16_bytes(height) + seq![if has_row_filters { 0u8 } else { 1u8 }, 0u8, 0u8, 0u8]
}

pub(crate) fn push_stream_header(
    out: &mut Vec<u8>,
    size: u32,
    control: u8,
    storage: StorageFormat,
    block_rows: u8,
    width: u16,
    height: u16,
    has_row_filters: bool,
)
    ensures
        final(out)@ == old(out)@ + stream_header_spec(size, control, storage, block_rows, width, height, has_row_filters),
{
    push_be_u32(out, size);
    out.push(control);
    out.push(storage_bit_depth(storage));
    out.push(block_rows);
    out.push(0);
    push_be_u16(out, width);
    push_be_u16(out, height);
    out.push(if has_row_filters { 0 } else { 1 });
    out.push(0);
    out.push(0);
    out.push(0);
    assert(final(out)@ =~= old(out)@ + stream_header_spec(size, control, storage, block_rows, width, height, has_row_filters));
}

/// The 16-byte header of a standard eZIP stream followed by its payload and checksum.
pub open spec fn ezip_stream_spec(
    storage: StorageFormat,
    block_rows: u8,
    width: u16,
    height: u16,
    has_row_filters: bool,
    filtered: Seq<u8>,
    compressed: Seq<u8>,
) -> Seq<u8> {
    stream_header_spec(
        (16 + compressed.len() + 4) as u32,
        (16 + color_type_spec(storage)) as u8,
        storage,
        block_rows,
        width,
        height,
        has_row_filters,
    ) + compressed + be_u32_bytes(adler32_spec(filtered))
}

/// The outcome of encoding a static image: bytes, storage format and resource format, or the error kind.
pub open(crate) spec fn encode_spec(image: ImageView, options: EncodeOptions) -> Result<(Seq<u8>, StorageFormat, ResourceFormat), ErrorKind> {
    if options.compression_strategy == CompressionStrategy::Smallest {
        Err(ErrorKind::InvalidInput)
    } else if image.width > 0x7ff || image.height > 0x7ff {
        Err(ErrorKind::InvalidDimensions)
    } else {
        let has_alpha = resolve_alpha_spec(image, options.alpha_mode);
        let storage = resolve_storage_spec(options.color_depth, has_alpha);
        let format = resolve_resource_format_spec(options.resource_encoding, storage);
        let header = ResourceHeader { format, width: image.width as u16, height: image.height as u16, reserved: 0 };
        let stored = image_storage_spec(image, storage, options.rgb565_dithering, 0, 0);
        match options.resource_encoding {
            ResourceEncoding::Pixel => Ok((header_bytes(header) + stored + le_u32_bytes(crc32_spec(stored)), storage, format)),
            ResourceEncoding::Ezip => {
                let bpp = storage_bpp(storage) as int;
                let filtered = filtered_bytes(stored, image.width as int, image.height as int, bpp, options.block_rows, options.row_filters);
                let compressed = raw_deflate(filtered, options.compression_level);
                if 20 + compressed.len() > u32::MAX {
                    Err(ErrorKind::LimitExceeded)
                } else {
                    Ok((
                        header_bytes(header) + ezip_stream_spec(
                            storage,
                            options.block_rows,
                            image.width as u16,
                            image.height as u16,
                            options.row_filters,
                            filtered,
                            compressed,
                        ),
                        storage,
                        format,
                    ))
                }
            },
        }
    }
}

/// The standard eZIP stream for stored pixels of a `width` by `height` image.
fn ezip_payload(
    stored: &[u8],
    storage: StorageFormat,
    width: u16,
    height: u16,
    options: EncodeOptions,
    Ghost(image): Ghost<ImageView>,
) -> (r: crate::Result<Vec<u8>>)
    requires
        1 <= width <= 0x7ff,
        1 <= height <= 0x7ff,
        image.width == width,
        image.height == height,
        stored@ == image_storage_spec(image, storage, options.dithering_spec(), 0, 0),
    ensures
        ({
            let filtered = filtered_bytes(stored@, width as int, height as int, storage_bpp(storage) as int, options.block_rows_spec(), options.row_filters_spec());
            let compressed = raw_deflate(filtered, options.level_spec());
            match r {
                Ok(v) => 20 + compressed.len() <= u32::MAX && v@ == ezip_stream_spec(
                    storage,
                    options.block_rows_spec(),
                    width,
                    height,
                    options.row_filters_spec(),
                    filtered,
                    compressed,
                ),
                Err(e) => 20 + compressed.len() > u32::MAX && e.kind_spec() == ErrorKind::LimitExceeded,
            }
        }),
{
    let bpp = storage.bytes_per_pixel();
    proof {
        assert(width * bpp <= 0x7ff * 4) by (nonlinear_arith)
            requires
                width <= 0x7ff,
                bpp <= 4,
        ;
        assert(height * (width * bpp + 1) <= 0x7ff * (0x7ff * 4 + 1)) by (nonlinear_arith)
            requires
                width <= 0x7ff,
                height <= 0x7ff,
                bpp <= 4,
        ;
        crate::seqs::lemma_concat_chunks(
            |j: int|
                stored_chunk(
                    input_rgba(image.pixels@, image.stride as int, pixel_bpp(image.format) as int, j / image.width as int, j % image.width as int),
                    storage,
                    options.rgb565_dithering,
                    dither_index(0, 0, j / image.width as int, j % image.width as int),
                ),
            (image.width * image.height) as nat,
            storage_bpp(storage),
        );
        assert(height * (width * bpp) == (image.width * image.height) * storage_bpp(storage)) by (nonlinear_arith)
            requires
                height == image.height,
                width == image.width,
                bpp == storage_bpp(storage),
        ;
    }
    let result = compress_pixels(stored, width as usize, height as usize, bpp, options);
    if result.compressed.len() > 0xffff_ffff - 20 {
        return Err(Error::new(ErrorKind::LimitExceeded, "encoded eZIP stream is too large"));
    }
    let stream_size = (16 + result.compressed.len() + 4) as u32;
    let mut bytes: Vec<u8> = Vec::new();
    push_stream_header(
        &mut bytes,
        stream_size,
        0x10 + color_type(storage),
        storage,
        options.rows_per_block(),
        width,
        height,
        result.has_row_filters,
    );
    crate::bytes::push_all(&mut bytes, result.compressed.as_slice());
    push_be_u32(&mut bytes, adler32(result.filtered.as_slice()));
    assert(bytes@ =~= ezip_stream_spec(
        storage,
        options.block_rows,
        width,
        height,
        options.row_filters,
        result.filtered@,
        result.compressed@,
    ));
    Ok(bytes)
}

/// Reusable static resource encoder.
#[derive(Clone, Copy, Debug, PartialEq, Eq, Structural)]
pub struct Encoder {
    pub(crate) options: EncodeOptions,
}

impl Default for Encoder {
    fn default() -> (e: Self)
        ensures
            e.options_spec() == EncodeOptions::default_spec(),
    {
        Encoder { options: EncodeOptions::default() }
    }
}

impl Encoder {
    pub open(crate) spec fn options_spec(&self) -> EncodeOptions {
        self.options
    }

    pub fn new(options: EncodeOptions) -> (e: Self)
        ensures
            e.options_spec() == options,
    {
        Encoder { options }
    }

    pub fn options(&self) -> (o: EncodeOptions)
        ensures
            o == self.options_spec(),
    {
        self.options
    }

    /// Encode a static image as a PIXEL or standard eZIP resource.
    pub fn encode(&self, image: ImageView<'_>) -> (r: crate::Result<EncodedResource>)
        ensures
            match r {
                Ok(res) => encode_spec(image, self.options_spec()) == Ok::<(Seq<u8>, StorageFormat, ResourceFormat), ErrorKind>((
                    res.bytes_spec(),
                    res.storage_format_spec(),
                    res.resource_format_spec(),
                )),
                Err(e) => encode_spec(image, self.options_spec()) == Err::<(Seq<u8>, StorageFormat, ResourceFormat), ErrorKind>(e.kind_spec()),
            },
    {
        proof {
            use_type_invariant(&image);
            use_type_invariant(&self.options);
        }
        let options = self.options;
        if options.resource_encoding == ResourceEncoding::Pixel && options.compression_strategy == CompressionStrategy::Smallest {
            return Err(Error::new(ErrorKind::InvalidInput, "smallest-output compression is not applicable to PIXEL resources"));
        }
        validate_compression_strategy(options)?;
        if image.width > 0xffff {
            return Err(Error::new(ErrorKind::InvalidDimensions, "image width does not fit the resource header"));
        }
        if image.height > 0xffff {
            return Err(Error::new(ErrorKind::InvalidDimensions, "image height does not fit the resource header"));
        }
        let width = image.width as u16;
        let height = image.height as u16;
        let has_alpha = resolve_alpha(image, options.alpha_mode);
        let storage_format = resolve_storage(options.color_depth, has_alpha);
        let resource_format = resolve_resource_format(options.resource_encoding, storage_format);
        let header = ResourceHeader::new(resource_format, width, height)?;
        proof {
            assert(image.width * image.height * storage_bpp(storage_format) <= 0x7ff * 0x7ff * 4) by (nonlinear_arith)
                requires
                    image.width <= 0x7ff,
                    image.height <= 0x7ff,
                    storage_bpp(storage_format) <= 4,
            ;
            assert(image.width * image.height <= 0x7ff * 0x7ff) by (nonlinear_arith)
                requires
                    image.width <= 0x7ff,
                    image.height <= 0x7ff,
            ;
        }
        let stored_pixels = encode_storage_pixels(image, storage_format, options.rgb565_dithering, 0, 0)?;
        let header_word = header.to_bytes();
        let mut bytes: Vec<u8> = Vec::new();
        bytes.push(header_word[0]);
        bytes.push(header_word[1]);
        bytes.push(header_word[2]);
        bytes.push(header_word[3]);
        let ghost spec_header = ResourceHeader { format: resource_format, width, height, reserved: 0 };
        assert(bytes@ =~= header_bytes(spec_header));
        match options.resource_encoding {
            ResourceEncoding::Pixel => {
                crate::bytes::push_all(&mut bytes, stored_pixels.as_slice());
                push_le_u32(&mut bytes, crc32(stored_pixels.as_slice()));
            },
            ResourceEncoding::Ezip => {
                let payload = ezip_payload(stored_pixels.as_slice(), storage_format, width, height, options, Ghost(image))?;
                crate::bytes::push_all(&mut bytes, payload.as_slice());
            },
        }
        Ok(EncodedResource { bytes, storage_format, resource_format })
    }
}

} // verus!
