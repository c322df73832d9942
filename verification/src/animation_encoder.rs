use vstd::prelude::*;

use crate::bytes::{be_u16_bytes, be_u32_bytes, le_u32_bytes, push_all, push_be_u16, push_be_u32, push_le_u32};
use crate::checksum::{adler32, adler32_spec, crc32, crc32_spec};
use crate::deflate::raw_deflate;
use crate::encoder::{
    color_type, color_type_spec, compress_pixels, encode_storage_pixels, filtered_bytes, push_stream_header,
    resolve_resource_format, resolve_resource_format_spec, resolve_storage, resolve_storage_spec, stored_pixels_spec,
    stream_header_spec, validate_compression_strategy, AlphaMode, CompressionResult, CompressionStrategy, EncodeOptions,
    EncodedResource, ResourceEncoding,
};
use crate::error::{Error, ErrorKind};
use crate::frame::{blend_code, disposal_code, play_count_of, BlendMode, DisposalMethod, FrameInfo, FrameView, Repeat};
use crate::header::{header_bytes, ResourceFormat, ResourceHeader};
use crate::pixels::{pixel_bpp, storage_bpp, ImageView, PixelFormat, StorageFormat};

verus! {

/// A frame rectangle copied into the encoder with tightly packed rows.
#[derive(Debug)]
pub(crate) struct OwnedFrame {
    pub info: FrameInfo,
    pub format: PixelFormat,
    pub pixels: Vec<u8>,
}

/// Each owned frame's metadata, pixel layout and tightly packed pixels.
pub open(crate) spec fn owned_views(frames: Seq<OwnedFrame>) -> Seq<(FrameInfo, PixelFormat, Seq<u8>)> {
    Seq::new(frames.len(), |i: int| (frames[i].info, frames[i].format, frames[i].pixels@))
}

/// An owned frame is a non-empty rectangle inside a `width` by `height`
/// canvas whose packed pixels fill it exactly.
pub open(crate) spec fn owned_frame_fits(frame: (FrameInfo, PixelFormat, Seq<u8>), width: int, height: int) -> bool {
    let info = frame.0;
    &&& 1 <= info.width && 1 <= info.height
    &&& info.x_offset + info.width <= width
    &&& info.y_offset + info.height <= height
    &&& info.sequence == 0
    &&& frame.2.len() == info.height * (info.width * pixel_bpp(frame.1))
}

/// The rows of a strided image copied with no gap between them.
pub open spec fn packed_rows(pixels: Seq<u8>, stride: int, row_bytes: int, height: int) -> Seq<u8> {
    Seq::new((height * row_bytes) as nat, |k: int| pixels[(k / row_bytes) * stride + k % row_bytes])
}

/// Builder for a complete eZIP-A animation resource.
#[derive(Debug)]
pub struct AnimationEncoder {
    pub(crate) width: u16,
    pub(crate) height: u16,
    pub(crate) repeat: Repeat,
    pub(crate) options: EncodeOptions,
    pub(crate) frames: Vec<OwnedFrame>,
}

impl AnimationEncoder {
    /// The canvas fits a resource header, the options describe a fast eZIP
    /// encoding, a finite repetition is positive, and every frame fits the canvas.
    #[verifier::type_invariant]
    pub open(crate) spec fn wf(&self) -> bool {
        &&& 1 <= self.width <= 2047
        &&& 1 <= self.height <= 2047
        &&& self.options.encoding_spec() == ResourceEncoding::Ezip
        &&& self.options.strategy_spec() == CompressionStrategy::Fast
        &&& self.repeat != Repeat::Finite(0)
        &&& forall|i: int|
            0 <= i < self.frames@.len() ==> #[trigger] owned_frame_fits(
                owned_views(self.frames@)[i],
                self.width as int,
                self.height as int,
            )
    }

    pub open(crate) spec fn width_spec(&self) -> u16 {
        self.width
    }

    pub open(crate) spec fn height_spec(&self) -> u16 {
        self.height
    }

    pub open(crate) spec fn repeat_spec(&self) -> Repeat {
        self.repeat
    }

    pub open(crate) spec fn options_spec(&self) -> EncodeOptions {
        self.options
    }

    pub open(crate) spec fn frames_spec(&self) -> Seq<(FrameInfo, PixelFormat, Seq<u8>)> {
        owned_views(self.frames@)
    }

    pub fn new(width: u32, height: u32, repeat: Repeat, options: EncodeOptions) -> (r: crate::Result<Self>)
        ensures
            match r {
                Ok(enc) => 1 <= width <= 2047 && 1 <= height <= 2047 && options.encoding_spec() == ResourceEncoding::Ezip
                    && options.strategy_spec() == CompressionStrategy::Fast && repeat != Repeat::Finite(0)
                    && enc.width_spec() == width && enc.height_spec() == height && enc.repeat_spec() == repeat
                    && enc.options_spec() == options && enc.frames_spec().len() == 0,
                Err(e) => if !(1 <= width <= 2047 && 1 <= height <= 2047) {
                    e.kind_spec() == ErrorKind::InvalidDimensions
                } else {
                    e.kind_spec() == ErrorKind::InvalidInput && e.message_spec() == (if options.encoding_spec()
                        != ResourceEncoding::Ezip {
                        "animation encoding requires the eZIP representation"@
                    } else if options.strategy_spec() != CompressionStrategy::Fast {
                        "smallest-output compression requires the `smallest` Cargo feature"@
                    } else {
                        "a finite animation repeat count must be positive"@
                    }) && (options.encoding_spec() != ResourceEncoding::Ezip
                        || options.strategy_spec() != CompressionStrategy::Fast || repeat == Repeat::Finite(0))
                },
            },
    {
        if width > 0xffff {
            return Err(Error::new(ErrorKind::InvalidDimensions, "animation width does not fit the resource header"));
        }
        if height > 0xffff {
            return Err(Error::new(ErrorKind::InvalidDimensions, "animation height does not fit the resource header"));
        }
        let width = width as u16;
        let height = height as u16;
        ResourceHeader::new(ResourceFormat::Ezip, width, height)?;
        if options.encoding() != ResourceEncoding::Ezip {
            return Err(Error::new(ErrorKind::InvalidInput, "animation encoding requires the eZIP representation"));
        }
        validate_compression_strategy(options)?;
        if repeat == Repeat::Finite(0) {
            return Err(Error::new(ErrorKind::InvalidInput, "a finite animation repeat count must be positive"));
        }
        Ok(AnimationEncoder { width, height, repeat, options, frames: Vec::new() })
    }

    pub fn width(&self) -> (v: u16)
        ensures
            v == self.width_spec(),
    {
        self.width
    }

    pub fn height(&self) -> (v: u16)
        ensures
            v == self.height_spec(),
    {
        self.height
    }

    pub fn repeat(&self) -> (v: Repeat)
        ensures
            v == self.repeat_spec(),
    {
        self.repeat
    }

    pub fn options(&self) -> (v: EncodeOptions)
        ensures
            v == self.options_spec(),
    {
        self.options
    }

    pub fn frame_count(&self) -> (n: usize)
        ensures
            n == self.frames_spec().len(),
    {
        self.frames.len()
    }

    /// Copy a frame rectangle into the animation.
    pub fn push_frame(&mut self, frame: FrameView<'_>) -> (r: crate::Result<()>)
        ensures
            final(self).width_spec() == old(self).width_spec(),
            final(self).height_spec() == old(self).height_spec(),
            final(self).repeat_spec() == old(self).repeat_spec(),
            final(self).options_spec() == old(self).options_spec(),
            ({
                let image = frame.image_spec();
                let fits = frame.x_offset_spec() + image.width_spec() <= old(self).width_spec() && frame.y_offset_spec()
                    + image.height_spec() <= old(self).height_spec();
                let row_bytes = image.width_spec() * pixel_bpp(image.format_spec());
                match r {
                    Ok(()) => fits && final(self).frames_spec() == old(self).frames_spec().push(
                        (
                            frame_info_of(frame),
                            image.format_spec(),
                            packed_rows(image.pixels_spec(), image.stride_spec() as int, row_bytes, image.height_spec() as int),
                        ),
                    ),
                    Err(e) => !fits && e.kind_spec() == ErrorKind::InvalidDimensions && final(self).frames_spec()
                        == old(self).frames_spec(),
                }
            }),
    {
        proof {
            use_type_invariant(&*self);
        }
        let image = frame.image;
        proof {
            use_type_invariant(&image);
        }
        let width = image.width;
        let height = image.height;
        if frame.x_offset > u32::MAX - width || frame.x_offset + width > self.width as u32 || frame.y_offset > u32::MAX
            - height || frame.y_offset + height > self.height as u32 {
            return Err(Error::new(ErrorKind::InvalidDimensions, "frame rectangle exceeds the canvas"));
        }
        let bpp = image.format.bytes_per_pixel();
        let row_bytes = width as usize * bpp;
        let stride = image.stride;
        let source = image.pixels;
        let source_len = source.len();
        assert(height * row_bytes <= 2047 * 2047 * 4 && row_bytes <= 2047 * 4) by (nonlinear_arith)
            requires
                width <= 2047,
                height <= 2047,
                row_bytes == width * bpp,
                bpp <= 4,
        ;
        let mut pixels: Vec<u8> = Vec::new();
        let mut row: usize = 0;
        while row < height as usize
            invariant
                row <= height,
                row_bytes == width * bpp,
                1 <= width <= 2047,
                1 <= height <= 2047,
                1 <= bpp <= 4,
                stride >= row_bytes,
                source_len == source@.len(),
                stride * (height - 1) + row_bytes <= source_len,
                pixels@ == packed_rows(source@, stride as int, row_bytes as int, row as int),
            decreases height - row,
        {
            assert(row * stride + row_bytes <= source_len) by (nonlinear_arith)
                requires
                    row < height,
                    stride * (height - 1) + row_bytes <= source_len,
            ;
            let start = row * stride;
            let ghost before = pixels@;
            let mut k: usize = 0;
            while k < row_bytes
                invariant
                    k <= row_bytes,
                    start + row_bytes <= source_len,
                    source_len == source@.len(),
                    pixels@ == before + source@.subrange(start as int, start + k),
                decreases row_bytes - k,
            {
                pixels.push(source[start + k]);
                k = k + 1;
                assert(pixels@ =~= before + source@.subrange(start as int, start + k));
            }
            proof {
                let next = packed_rows(source@, stride as int, row_bytes as int, row + 1);
                assert(row * row_bytes + row_bytes == (row + 1) * row_bytes) by (nonlinear_arith);
                assert forall|j: int| 0 <= j < next.len() implies #[trigger] pixels@[j] == next[j] by {
                    if j >= row * row_bytes {
                        lemma_packed_index(j, row as int, row_bytes as int);
                    }
                }
                assert(pixels@ =~= next);
            }
            row = row + 1;
        }
        let info = FrameInfo {
            sequence: 0,
            width,
            height,
            x_offset: frame.x_offset,
            y_offset: frame.y_offset,
            delay_numerator: frame.delay_numerator,
            delay_denominator: frame.delay_denominator,
            disposal: frame.disposal,
            blend: frame.blend,
        };
        proof {
            assert(height * row_bytes == height * (width * bpp));
        }
        let ghost old_frames = self.frames@;
        let mut frames: Vec<OwnedFrame> = Vec::new();
        std::mem::swap(&mut frames, &mut self.frames);
        frames.push(OwnedFrame { info, format: image.format, pixels });
        proof {
            assert(owned_views(frames@) =~= owned_views(old_frames).push((info, image.format, pixels@)));
            assert forall|i: int| 0 <= i < frames@.len() implies #[trigger] owned_frame_fits(
                owned_views(frames@)[i],
                self.width as int,
                self.height as int,
            ) by {
                if i < old_frames.len() {
                    assert(owned_views(frames@)[i] == owned_views(old_frames)[i]);
                }
            }
        }
        self.frames = frames;
        Ok(())
    }
}

/// The metadata a frame view is stored with.
pub open(crate) spec fn frame_info_of(frame: FrameView) -> FrameInfo {
    FrameInfo {
        sequence: 0,
        width: frame.image.width,
        height: frame.image.height,
        x_offset: frame.x_offset,
        y_offset: frame.y_offset,
        delay_numerator: frame.delay_numerator,
        delay_denominator: frame.delay_denominator,
        disposal: frame.disposal,
        blend: frame.blend,
    }
}

/// Byte `j` of the packed rows lies in row `j / row_bytes`.
proof fn lemma_packed_index(j: int, row: int, row_bytes: int)
    requires
        row_bytes > 0,
        0 <= row,
        row * row_bytes <= j < row * row_bytes + row_bytes,
    ensures
        j / row_bytes == row,
        j % row_bytes == j - row * row_bytes,
{
    vstd::arithmetic::div_mod::lemma_fundamental_div_mod_converse(j, row_bytes, row, j - row * row_bytes);
}

/// Whether some RGBA frame holds a pixel whose alpha is not 255.
pub open(crate) spec fn frames_translucent(frames: Seq<(FrameInfo, PixelFormat, Seq<u8>)>) -> bool {
    exists|i: int, j: int|
        0 <= i < frames.len() && frames[i].1 == PixelFormat::Rgba8 && 0 <= j < frames[i].2.len() / 4
            && #[trigger] frames[i].2[4 * j + 3] != 255
}

/// Whether an animation keeps alpha.
pub open(crate) spec fn animation_has_alpha(mode: AlphaMode, frames: Seq<(FrameInfo, PixelFormat, Seq<u8>)>) -> bool {
    match mode {
        AlphaMode::Preserve => true,
        AlphaMode::Discard => false,
        AlphaMode::Auto => frames_translucent(frames),
    }
}

/// The stored bytes of an owned frame, dithered at its canvas position.
pub open(crate) spec fn owned_stored(frame: (FrameInfo, PixelFormat, Seq<u8>), storage: StorageFormat, options: EncodeOptions) -> Seq<u8> {
    let info = frame.0;
    let ibpp = pixel_bpp(frame.1) as int;
    stored_pixels_spec(
        frame.2,
        info.width as int,
        info.width * ibpp,
        ibpp,
        storage,
        options.dithering_spec(),
        info.x_offset,
        info.y_offset,
        (info.width * info.height) as nat,
    )
}

/// The bytes that are compressed for an owned frame.
pub open(crate) spec fn owned_filtered(frame: (FrameInfo, PixelFormat, Seq<u8>), storage: StorageFormat, options: EncodeOptions) -> Seq<u8> {
    filtered_bytes(
        owned_stored(frame, storage, options),
        frame.0.width as int,
        frame.0.height as int,
        storage_bpp(storage) as int,
        options.block_rows_spec(),
        options.row_filters_spec(),
    )
}

/// The header, DEFLATE data and checksum of frame `index`.
#[verifier::opaque]
pub open(crate) spec fn frame_record(index: int, frame: (FrameInfo, PixelFormat, Seq<u8>), storage: StorageFormat, options: EncodeOptions) -> Seq<u8> {
    let info = frame.0;
    let filtered = owned_filtered(frame, storage, options);
    let compressed = raw_deflate(filtered, options.level_spec());
    let size = compressed.len() as int;
    be_u32_bytes(index as u32) + be_u32_bytes(info.width) + be_u32_bytes(info.height) + be_u32_bytes(info.x_offset)
        + be_u32_bytes(info.y_offset) + be_u16_bytes(info.delay_numerator) + be_u16_bytes(info.delay_denominator) + seq![
        disposal_code(info.disposal),
        blend_code(info.blend),
    ] + be_u16_bytes((size / 65536) as u16) + be_u16_bytes((size % 65536) as u16) + compressed + be_u32_bytes(
        adler32_spec(filtered),
    )
}

/// `s` followed by the zero bytes that bring its length to a multiple of four.
pub open spec fn padded4(s: Seq<u8>) -> Seq<u8> {
    s + Seq::new(((4 - s.len() % 4) % 4) as nat, |i: int| 0u8)
}

/// What precedes record `index`: the bytes so far, aligned to four bytes for
/// every record but the first.
pub open spec fn before_record(prev: Seq<u8>, index: int) -> Seq<u8> {
    if index == 0 {
        prev
    } else {
        padded4(prev)
    }
}

/// The container after the records of the first `n` frames follow `base`.
#[verifier::opaque]
pub open(crate) spec fn records_from(
    frames: Seq<(FrameInfo, PixelFormat, Seq<u8>)>,
    storage: StorageFormat,
    options: EncodeOptions,
    base: Seq<u8>,
    n: nat,
) -> Seq<u8>
    decreases n,
{
    if n == 0 {
        base
    } else {
        before_record(records_from(frames, storage, options, base, (n - 1) as nat), n - 1) + frame_record(
            n - 1,
            frames[n - 1],
            storage,
            options,
        )
    }
}

/// The container offset at which the record of frame `i` starts.
pub open(crate) spec fn record_offset(
    frames: Seq<(FrameInfo, PixelFormat, Seq<u8>)>,
    storage: StorageFormat,
    options: EncodeOptions,
    base: Seq<u8>,
    i: int,
) -> int {
    before_record(records_from(frames, storage, options, base, i as nat), i).len() as int
}

/// `s` with the four bytes at `pos` replaced by the big-endian bytes of `v`.
pub open spec fn write_be_u32(s: Seq<u8>, pos: int, v: u32) -> Seq<u8> {
    s.subrange(0, pos) + be_u32_bytes(v) + s.subrange(pos + 4, s.len() as int)
}

/// The container with the first `k` frame-table entries holding record offsets.
#[verifier::opaque]
pub open(crate) spec fn fill_table(
    body: Seq<u8>,
    frames: Seq<(FrameInfo, PixelFormat, Seq<u8>)>,
    storage: StorageFormat,
    options: EncodeOptions,
    base: Seq<u8>,
    k: nat,
) -> Seq<u8>
    decreases k,
{
    if k == 0 {
        body
    } else {
        write_be_u32(
            fill_table(body, frames, storage, options, base, (k - 1) as nat),
            24 + 4 * (k - 1),
            record_offset(frames, storage, options, base, k - 1) as u32,
        )
    }
}

/// The 24-byte animation header with a zero size, followed by a zeroed frame table.
pub open(crate) spec fn animation_base(
    width: u16,
    height: u16,
    repeat: Repeat,
    options: EncodeOptions,
    storage: StorageFormat,
    n: nat,
) -> Seq<u8> {
    stream_header_spec(
        0,
        (80 + color_type_spec(storage)) as u8,
        storage,
        options.block_rows_spec(),
        width,
        height,
        options.row_filters_spec(),
    ) + be_u32_bytes(n as u32) + be_u32_bytes(play_count_of(repeat)) + Seq::new(4 * n, |i: int| 0u8)
}

/// The container bytes before the size and frame table are filled in.
pub open(crate) spec fn animation_body(
    width: u16,
    height: u16,
    repeat: Repeat,
    options: EncodeOptions,
    storage: StorageFormat,
    frames: Seq<(FrameInfo, PixelFormat, Seq<u8>)>,
) -> Seq<u8> {
    records_from(frames, storage, options, animation_base(width, height, repeat, options, storage, frames.len()), frames.len())
}

/// The finished animation container: its size, frame table and records.
pub open(crate) spec fn animation_container(
    width: u16,
    height: u16,
    repeat: Repeat,
    options: EncodeOptions,
    storage: StorageFormat,
    frames: Seq<(FrameInfo, PixelFormat, Seq<u8>)>,
) -> Seq<u8> {
    let base = animation_base(width, height, repeat, options, storage, frames.len());
    let body = animation_body(width, height, repeat, options, storage, frames);
    write_be_u32(fill_table(body, frames, storage, options, base, frames.len()), 0, body.len() as u32)
}

/// The storage format an encoder's animation uses.
pub open(crate) spec fn animation_storage(enc: &AnimationEncoder) -> StorageFormat {
    resolve_storage_spec(enc.options.color_depth_spec(), animation_has_alpha(enc.options.alpha_mode_spec(), enc.frames_spec()))
}

/// The encoded resource an encoder finishes with.
pub open(crate) spec fn animation_resource_bytes(enc: &AnimationEncoder) -> Seq<u8> {
    let storage = animation_storage(enc);
    let format = resolve_resource_format_spec(ResourceEncoding::Ezip, storage);
    let inner = animation_container(enc.width, enc.height, enc.repeat, enc.options, storage, enc.frames_spec());
    header_bytes(ResourceHeader { format, width: enc.width, height: enc.height, reserved: 0 }) + inner + le_u32_bytes(
        crc32_spec(inner),
    )
}

pub(crate) proof fn lemma_records_grow(
    frames: Seq<(FrameInfo, PixelFormat, Seq<u8>)>,
    storage: StorageFormat,
    options: EncodeOptions,
    base: Seq<u8>,
    i: nat,
    n: nat,
)
    requires
        i < n <= frames.len(),
    ensures
        record_offset(frames, storage, options, base, i as int) + frame_record(i as int, frames[i as int], storage, options).len()
            <= records_from(frames, storage, options, base, n).len(),
        base.len() <= records_from(frames, storage, options, base, n).len(),
    decreases n,
{
    reveal(records_from);
    if i + 1 < n {
        lemma_records_grow(frames, storage, options, base, i, (n - 1) as nat);
    } else if n > 1 {
        lemma_records_grow(frames, storage, options, base, 0, (n - 1) as nat);
    }
}

pub(crate) proof fn lemma_records_step(
    frames: Seq<(FrameInfo, PixelFormat, Seq<u8>)>,
    storage: StorageFormat,
    options: EncodeOptions,
    base: Seq<u8>,
    i: nat,
)
    ensures
        records_from(frames, storage, options, base, i + 1) == before_record(records_from(frames, storage, options, base, i), i as int)
            + frame_record(i as int, frames[i as int], storage, options),
        records_from(frames, storage, options, base, 0) == base,
{
    reveal(records_from);
}

pub(crate) proof fn lemma_fill_step(
    body: Seq<u8>,
    frames: Seq<(FrameInfo, PixelFormat, Seq<u8>)>,
    storage: StorageFormat,
    options: EncodeOptions,
    base: Seq<u8>,
    k: nat,
)
    ensures
        fill_table(body, frames, storage, options, base, k + 1) == write_be_u32(
            fill_table(body, frames, storage, options, base, k),
            24 + 4 * k as int,
            record_offset(frames, storage, options, base, k as int) as u32,
        ),
        fill_table(body, frames, storage, options, base, 0) == body,
{
    reveal(fill_table);
}

pub(crate) proof fn lemma_frame_record(
    index: u32,
    frame: (FrameInfo, PixelFormat, Seq<u8>),
    storage: StorageFormat,
    options: EncodeOptions,
    filtered: Seq<u8>,
    compressed: Seq<u8>,
)
    requires
        filtered == owned_filtered(frame, storage, options),
        compressed == raw_deflate(filtered, options.level_spec()),
    ensures
        frame_record(index as int, frame, storage, options) == ({
            let info = frame.0;
            let size = compressed.len() as int;
            be_u32_bytes(index) + be_u32_bytes(info.width) + be_u32_bytes(info.height) + be_u32_bytes(info.x_offset)
                + be_u32_bytes(info.y_offset) + be_u16_bytes(info.delay_numerator) + be_u16_bytes(info.delay_denominator)
                + seq![disposal_code(info.disposal), blend_code(info.blend)] + be_u16_bytes((size / 65536) as u16)
                + be_u16_bytes((size % 65536) as u16) + compressed + be_u32_bytes(adler32_spec(filtered))
        }),
        frame_record(index as int, frame, storage, options).len() >= compressed.len(),
{
    reveal(frame_record);
}

/// Overwrite four bytes at `pos` with the big-endian bytes of `value`.
fn write_be_u32_at(out: &mut Vec<u8>, pos: usize, value: u32)
    requires
        pos + 4 <= old(out)@.len(),
    ensures
        final(out)@ == write_be_u32(old(out)@, pos as int, value),
{
    let len = out.len();
    let b0 = (value / 16777216) as u8;
    let b1 = ((value / 65536) % 256) as u8;
    let b2 = ((value / 256) % 256) as u8;
    let b3 = (value % 256) as u8;
    out.set(pos, b0);
    out.set(pos + 1, b1);
    out.set(pos + 2, b2);
    out.set(pos + 3, b3);
    assert(final(out)@ =~= write_be_u32(old(out)@, pos as int, value));
}

/// Whether some RGBA frame holds a pixel whose alpha is not 255.
fn has_translucent_frame(frames: &Vec<OwnedFrame>) -> (b: bool)
    ensures
        b == frames_translucent(owned_views(frames@)),
{
    let ghost views = owned_views(frames@);
    let mut i: usize = 0;
    while i < frames.len()
        invariant
            i <= frames@.len(),
            views == owned_views(frames@),
            forall|a: int, j: int|
                0 <= a < i && views[a].1 == PixelFormat::Rgba8 && 0 <= j < views[a].2.len() / 4 ==> #[trigger] views[a].2[4 * j
                    + 3] == 255,
        decreases frames@.len() - i,
    {
        let frame = &frames[i];
        if frame.format == PixelFormat::Rgba8 {
            let pixels = &frame.pixels;
            let pixel_len = pixels.len();
            let count = pixel_len / 4;
            let mut j: usize = 0;
            while j < count
                invariant
                    i < frames@.len(),
                    views == owned_views(frames@),
                    views[i as int].1 == PixelFormat::Rgba8,
                    j <= count,
                    pixel_len == pixels@.len(),
                    count == pixels@.len() / 4,
                    pixels@ == views[i as int].2,
                    forall|k: int| 0 <= k < j ==> #[trigger] pixels@[4 * k + 3] == 255,
                decreases count - j,
            {
                if pixels[4 * j + 3] != 255 {
                    proof {
                        assert(views[i as int].2[4 * j + 3] != 255);
                        assert(frames_translucent(views));
                    }
                    return true;
                }
                j = j + 1;
            }
        }
        i = i + 1;
    }
    false
}

/// Convert and compress every owned frame.
fn compress_frames(frames: &Vec<OwnedFrame>, storage: StorageFormat, options: EncodeOptions, canvas_width: u16, canvas_height: u16) -> (r:
    Vec<CompressionResult>)
    requires
        1 <= canvas_width <= 2047,
        1 <= canvas_height <= 2047,
        forall|i: int|
            0 <= i < frames@.len() ==> #[trigger] owned_frame_fits(owned_views(frames@)[i], canvas_width as int, canvas_height as int),
    ensures
        r@.len() == frames@.len(),
        forall|i: int|
            0 <= i < r@.len() ==> #[trigger] r@[i].filtered@ == owned_filtered(owned_views(frames@)[i], storage, options)
                && r@[i].compressed@ == raw_deflate(r@[i].filtered@, options.level_spec()),
{
    let ghost views = owned_views(frames@);
    let mut results: Vec<CompressionResult> = Vec::new();
    let mut i: usize = 0;
    while i < frames.len()
        invariant
            i <= frames@.len(),
            views == owned_views(frames@),
            1 <= canvas_width <= 2047,
            1 <= canvas_height <= 2047,
            forall|k: int| 0 <= k < frames@.len() ==> #[trigger] owned_frame_fits(views[k], canvas_width as int, canvas_height as int),
            results@.len() == i,
            forall|k: int|
                0 <= k < i ==> #[trigger] results@[k].filtered@ == owned_filtered(views[k], storage, options)
                    && results@[k].compressed@ == raw_deflate(results@[k].filtered@, options.level_spec()),
        decreases frames@.len() - i,
    {
        let frame = &frames[i];
        proof {
            assert(owned_frame_fits(views[i as int], canvas_width as int, canvas_height as int));
        }
        let width = frame.info.width;
        let height = frame.info.height;
        let ibpp = frame.format.bytes_per_pixel();
        proof {
            assert(width * ibpp <= 2047 * 4) by (nonlinear_arith)
                requires
                    width <= 2047,
                    ibpp <= 4,
            ;
        }
        let stride = width as usize * ibpp;
        proof {
            assert(stride * (height - 1) + stride == height * (width * ibpp)) by (nonlinear_arith)
                requires
                    stride == width * ibpp,
                    height >= 1,
            ;
            assert(width * height * 4 <= 2047 * 2047 * 4) by (nonlinear_arith)
                requires
                    width <= 2047,
                    height <= 2047,
            ;
        }
        let pixel_len = frame.pixels.len();
        let image = match ImageView::new(width, height, frame.format, stride, frame.pixels.as_slice()) {
            Ok(image) => image,
            Err(_) => {
                proof {
                    assert(frame.pixels@ == views[i as int].2);
                    assert(pixel_len == height * (width * ibpp));
                    assert(crate::pixels::image_required_len(height as int, stride as int, width * ibpp) == pixel_len);
                    assert(false);
                }
                return results;
            },
        };
        let sbpp = storage.bytes_per_pixel();
        let stored = match encode_storage_pixels(image, storage, options.rgb565_dithering(), frame.info.x_offset, frame.info.y_offset) {
            Ok(v) => v,
            Err(_) => {
                proof {
                    assert(width * height * storage_bpp(storage) <= 2047 * 2047 * 4) by (nonlinear_arith)
                        requires
                            width <= 2047,
                            height <= 2047,
                            storage_bpp(storage) <= 4,
                    ;
                    assert(false);
                }
                return results;
            },
        };
        proof {
            assert(height * (width * sbpp + 1) <= 2047 * (2047 * 4 + 1) && width * sbpp <= 2047 * 4) by (nonlinear_arith)
                requires
                    width <= 2047,
                    height <= 2047,
                    sbpp <= 4,
            ;
            crate::seqs::lemma_concat_chunks(
                |j: int|
                    crate::encoder::stored_chunk(
                        crate::encoder::input_rgba(frame.pixels@, stride as int, ibpp as int, j / width as int, j % width as int),
                        storage,
                        options.dithering_spec(),
                        crate::encoder::dither_index(frame.info.x_offset, frame.info.y_offset, j / width as int, j % width as int),
                    ),
                (width * height) as nat,
                sbpp as nat,
            );
            assert(stored@.len() == width * height * sbpp);
            assert(width * height * sbpp == height * (width * sbpp)) by (nonlinear_arith);
        }
        let result = compress_pixels(stored.as_slice(), width as usize, height as usize, sbpp, options);
        results.push(result);
        i = i + 1;
    }
    results
}

/// Append the record of frame `index`.
fn push_frame_record(
    inner: &mut Vec<u8>,
    index: u32,
    info: FrameInfo,
    result: &CompressionResult,
    compressed_size: u32,
    Ghost(frame): Ghost<(FrameInfo, PixelFormat, Seq<u8>)>,
    storage: StorageFormat,
    options: EncodeOptions,
)
    requires
        compressed_size == result.compressed@.len(),
        info == frame.0,
        result.filtered@ == owned_filtered(frame, storage, options),
        result.compressed@ == raw_deflate(result.filtered@, options.level_spec()),
    ensures
        final(inner)@ == old(inner)@ + frame_record(index as int, frame, storage, options),
        final(inner)@ == old(inner)@ + ({
            let size = compressed_size as int;
            be_u32_bytes(index) + be_u32_bytes(info.width) + be_u32_bytes(info.height) + be_u32_bytes(info.x_offset)
                + be_u32_bytes(info.y_offset) + be_u16_bytes(info.delay_numerator) + be_u16_bytes(info.delay_denominator)
                + seq![disposal_code(info.disposal), blend_code(info.blend)] + be_u16_bytes((size / 65536) as u16)
                + be_u16_bytes((size % 65536) as u16) + result.compressed@ + be_u32_bytes(adler32_spec(result.filtered@))
        }),
{
    let ghost start = inner@;
    push_be_u32(inner, index);
    push_be_u32(inner, info.width);
    push_be_u32(inner, info.height);
    push_be_u32(inner, info.x_offset);
    push_be_u32(inner, info.y_offset);
    push_be_u16(inner, info.delay_numerator);
    push_be_u16(inner, info.delay_denominator);
    inner.push(match info.disposal {
        DisposalMethod::Keep => 0,
        DisposalMethod::Background => 1,
        DisposalMethod::Previous => 2,
    });
    inner.push(match info.blend {
        BlendMode::Source => 0,
        BlendMode::Over => 1,
    });
    push_be_u16(inner, (compressed_size / 65536) as u16);
    push_be_u16(inner, (compressed_size % 65536) as u16);
    push_all(inner, result.compressed.as_slice());
    let checksum = adler32(result.filtered.as_slice());
    push_be_u32(inner, checksum);
    proof {
        let size = compressed_size as int;
        assert(inner@ =~= start + (be_u32_bytes(index) + be_u32_bytes(info.width) + be_u32_bytes(info.height) + be_u32_bytes(
            info.x_offset,
        ) + be_u32_bytes(info.y_offset) + be_u16_bytes(info.delay_numerator) + be_u16_bytes(info.delay_denominator)
            + seq![disposal_code(info.disposal), blend_code(info.blend)] + be_u16_bytes((size / 65536) as u16) + be_u16_bytes(
            (size % 65536) as u16,
        ) + result.compressed@ + be_u32_bytes(adler32_spec(result.filtered@))));
        lemma_frame_record(index, frame, storage, options, result.filtered@, result.compressed@);
    }
}

/// Append the record of every frame, aligning each after the first to four
/// bytes, and return the offset at which each record starts.
fn append_records(
    inner: &mut Vec<u8>,
    frames: &Vec<OwnedFrame>,
    results: &Vec<CompressionResult>,
    storage: StorageFormat,
    options: EncodeOptions,
    Ghost(base): Ghost<Seq<u8>>,
) -> (r: crate::Result<Vec<u32>>)
    requires
        old(inner)@ == base,
        results@.len() == frames@.len(),
        forall|i: int|
            0 <= i < frames@.len() ==> #[trigger] results@[i].filtered@ == owned_filtered(owned_views(frames@)[i], storage, options)
                && results@[i].compressed@ == raw_deflate(results@[i].filtered@, options.level_spec()),
    ensures
        ({
            let views = owned_views(frames@);
            let body = records_from(views, storage, options, base, views.len());
            match r {
                Ok(offsets) => final(inner)@ == body && offsets@.len() == views.len() && forall|i: int|
                    0 <= i < views.len() ==> #[trigger] offsets@[i] == record_offset(views, storage, options, base, i),
                Err(e) => e.kind_spec() == ErrorKind::LimitExceeded && body.len() > u32::MAX,
            }
        }),
{
    let ghost views = owned_views(frames@);
    let n = frames.len();
    let mut offsets: Vec<u32> = Vec::new();
    let mut index: usize = 0;
    proof {
        lemma_records_step(views, storage, options, base, 0);
    }
    while index < n
        invariant
            index <= n,
            n == frames@.len(),
            n == views.len(),
            views == owned_views(frames@),
            results@.len() == n,
            forall|i: int|
                0 <= i < n ==> #[trigger] results@[i].filtered@ == owned_filtered(views[i], storage, options)
                    && results@[i].compressed@ == raw_deflate(results@[i].filtered@, options.level_spec()),
            inner@ == records_from(views, storage, options, base, index as nat),
            offsets@.len() == index,
            forall|i: int| 0 <= i < index ==> #[trigger] offsets@[i] == record_offset(views, storage, options, base, i),
        decreases n - index,
    {
        let ghost prev = inner@;
        if index != 0 {
            let pad = (4 - inner.len() % 4) % 4;
            let mut p: usize = 0;
            while p < pad
                invariant
                    p <= pad,
                    pad == (4 - prev.len() % 4) % 4,
                    inner@ == prev + Seq::new(p as nat, |i: int| 0u8),
                decreases pad - p,
            {
                inner.push(0);
                p = p + 1;
                assert(inner@ =~= prev + Seq::new(p as nat, |i: int| 0u8));
            }
        }
        proof {
            assert(inner@ == before_record(prev, index as int));
            lemma_records_grow(views, storage, options, base, index as nat, n as nat);
            lemma_records_step(views, storage, options, base, index as nat);
        }
        if inner.len() > 0xffff_ffff {
            return Err(Error::new(ErrorKind::LimitExceeded, "animation offset exceeds 32 bits"));
        }
        offsets.push(inner.len() as u32);
        let result = &results[index];
        let compressed_size = result.compressed.len();
        proof {
            reveal(frame_record);
        }
        if compressed_size > 0xffff_ffff {
            return Err(Error::new(ErrorKind::LimitExceeded, "compressed frame exceeds 32 bits"));
        }
        proof {
            assert(views[index as int].0 == frames@[index as int].info);
        }
        push_frame_record(
            inner,
            index as u32,
            frames[index].info,
            result,
            compressed_size as u32,
            Ghost(views[index as int]),
            storage,
            options,
        );
        index = index + 1;
    }
    Ok(offsets)
}

/// Write each record offset into the frame table.
fn fill_frame_table(
    inner: &mut Vec<u8>,
    offsets: &Vec<u32>,
    Ghost(views): Ghost<Seq<(FrameInfo, PixelFormat, Seq<u8>)>>,
    storage: StorageFormat,
    options: EncodeOptions,
    Ghost(base): Ghost<Seq<u8>>,
)
    requires
        offsets@.len() == views.len(),
        forall|i: int| 0 <= i < views.len() ==> #[trigger] offsets@[i] == record_offset(views, storage, options, base, i),
        base.len() == 24 + 4 * views.len(),
        old(inner)@.len() >= base.len(),
    ensures
        final(inner)@ == fill_table(old(inner)@, views, storage, options, base, views.len()),
        final(inner)@.len() == old(inner)@.len(),
{
    let ghost body = inner@;
    let total = inner.len();
    let n = offsets.len();
    let mut k: usize = 0;
    proof {
        lemma_fill_step(body, views, storage, options, base, 0);
    }
    while k < n
        invariant
            k <= n,
            n == views.len(),
            offsets@.len() == n,
            forall|i: int| 0 <= i < n ==> #[trigger] offsets@[i] == record_offset(views, storage, options, base, i),
            body.len() >= 24 + 4 * n,
            total == body.len(),
            inner@ == fill_table(body, views, storage, options, base, k as nat),
            inner@.len() == body.len(),
        decreases n - k,
    {
        proof {
            lemma_fill_step(body, views, storage, options, base, k as nat);
        }
        write_be_u32_at(inner, 24 + 4 * k, offsets[k]);
        k = k + 1;
    }
}

impl AnimationEncoder {
    /// Encode the collected frames as one eZIP-A resource.
    #[verifier::rlimit(40)]
    pub fn finish(self) -> (r: crate::Result<EncodedResource>)
        ensures
            ({
                let storage = animation_storage(&self);
                let n = self.frames_spec().len();
                match r {
                    Ok(res) => n >= 1 && res.storage_format_spec() == storage && res.resource_format_spec()
                        == resolve_resource_format_spec(ResourceEncoding::Ezip, storage) && res.bytes_spec()
                        == animation_resource_bytes(&self),
                    Err(e) => n == 0 && e.kind_spec() == ErrorKind::InvalidAnimation || n >= 1 && e.kind_spec()
                        == ErrorKind::LimitExceeded && (n > u32::MAX || animation_body(
                        self.width_spec(),
                        self.height_spec(),
                        self.repeat_spec(),
                        self.options_spec(),
                        storage,
                        self.frames_spec(),
                    ).len() > u32::MAX),
                }
            }),
    {
        proof {
            use_type_invariant(&self);
        }
        let ghost views = owned_views(self.frames@);
        let n = self.frames.len();
        if n == 0 {
            return Err(Error::new(ErrorKind::InvalidAnimation, "cannot encode an animation without frames"));
        }
        if n > 0xffff_ffff {
            return Err(Error::new(ErrorKind::LimitExceeded, "too many animation frames"));
        }
        let has_alpha = match self.options.alpha_policy() {
            AlphaMode::Preserve => true,
            AlphaMode::Discard => false,
            AlphaMode::Auto => has_translucent_frame(&self.frames),
        };
        let storage = resolve_storage(self.options.color_depth(), has_alpha);
        let resource_format = resolve_resource_format(ResourceEncoding::Ezip, storage);
        let outer = ResourceHeader::new(resource_format, self.width, self.height)?;
        let results = compress_frames(&self.frames, storage, self.options, self.width, self.height);
        let ghost base = animation_base(self.width, self.height, self.repeat, self.options, storage, n as nat);
        let ghost body = animation_body(self.width, self.height, self.repeat, self.options, storage, views);
        if n > usize::MAX / 4 {
            proof {
                lemma_records_grow(views, storage, self.options, base, 0, n as nat);
            }
            return Err(Error::new(ErrorKind::LimitExceeded, "frame table size overflow"));
        }
        let table_len = n * 4;
        let play_count = match self.repeat {
            Repeat::Infinite => 0,
            Repeat::Finite(count) => count,
        };
        let mut inner: Vec<u8> = Vec::new();
        push_stream_header(
            &mut inner,
            0,
            80 + color_type(storage),
            storage,
            self.options.rows_per_block(),
            self.width,
            self.height,
            self.options.uses_row_filters(),
        );
        push_be_u32(&mut inner, n as u32);
        push_be_u32(&mut inner, play_count);
        let mut k: usize = 0;
        while k < table_len
            invariant
                k <= table_len,
                inner@ == stream_header_spec(
                    0,
                    (80 + color_type_spec(storage)) as u8,
                    storage,
                    self.options.block_rows_spec(),
                    self.width,
                    self.height,
                    self.options.row_filters_spec(),
                ) + be_u32_bytes(n as u32) + be_u32_bytes(play_count) + Seq::new(k as nat, |i: int| 0u8),
            decreases table_len - k,
        {
            inner.push(0);
            k = k + 1;
            proof {
                assert(inner@ =~= stream_header_spec(
                    0,
                    (80 + color_type_spec(storage)) as u8,
                    storage,
                    self.options.block_rows_spec(),
                    self.width,
                    self.height,
                    self.options.row_filters_spec(),
                ) + be_u32_bytes(n as u32) + be_u32_bytes(play_count) + Seq::new(k as nat, |i: int| 0u8));
            }
        }
        proof {
            assert(play_count == play_count_of(self.repeat));
            assert(inner@ == base);
        }
        proof {
            assert(base.len() == 24 + 4 * n);
            lemma_records_grow(views, storage, self.options, base, 0, n as nat);
        }
        let offsets = append_records(&mut inner, &self.frames, &results, storage, self.options, Ghost(base))?;
        fill_frame_table(&mut inner, &offsets, Ghost(views), storage, self.options, Ghost(base));
        if inner.len() > 0xffff_ffff {
            return Err(Error::new(ErrorKind::LimitExceeded, "animation container exceeds 32 bits"));
        }
        let declared = inner.len() as u32;
        write_be_u32_at(&mut inner, 0, declared);
        let crc = crc32(inner.as_slice());
        let header = outer.to_bytes();
        let mut bytes: Vec<u8> = Vec::new();
        bytes.push(header[0]);
        bytes.push(header[1]);
        bytes.push(header[2]);
        bytes.push(header[3]);
        push_all(&mut bytes, inner.as_slice());
        push_le_u32(&mut bytes, crc);
        proof {
            assert(inner@ == animation_container(self.width, self.height, self.repeat, self.options, storage, views));
            assert(bytes@ =~= animation_resource_bytes(&self));
        }
        Ok(EncodedResource { bytes, storage_format: storage, resource_format })
    }
}

} // verus!
