use vstd::prelude::*;

use crate::bytes::copy_bytes;
use crate::error::{Error, ErrorKind};
use crate::frame::{BlendMode, DisposalMethod, Repeat};
use crate::pixels::{gray_alpha_to_rgba, gray_to_rgb, PixelFormat};

verus! {

/// A PNG decoder that has read a stream's header and hands out its frames
/// in order. Its state is the outside decoder's own, which Verus does not
/// see; the type declaration of that decoder is refused (its `BufRead` and
/// `Seek` bounds are outside traits), so the decoder is held here.
#[verifier::external_body]
pub(crate) struct PngReader<'a> {
    reader: png::Reader<std::io::Cursor<&'a [u8]>>,
}

/// A GIF decoder that has read a stream's logical screen descriptor and
/// hands out its frames in order. Its state is the outside decoder's own,
/// which Verus does not see; the type declaration of that decoder is refused
/// (its `Read` bound is an outside trait), so the decoder is held here.
#[verifier::external_body]
pub(crate) struct GifReader<'a> {
    reader: gif::Decoder<&'a [u8]>,
}

/// What the header of a PNG or APNG stream announces: the canvas size, the
/// frame and play counts of its `acTL` chunk, and whether an `fcTL` chunk
/// precedes the default image (which then is the first animation frame).
#[derive(Clone, Copy, Debug)]
pub struct PngHeader {
    pub width: u32,
    pub height: u32,
    pub animation: Option<(u32, u32)>,
    pub has_frame_control: bool,
}

/// The `fcTL` chunk of an APNG frame; `dispose` and `blend` hold the
/// chunk's operation codes.
#[derive(Clone, Copy, Debug)]
pub struct PngFrameControl {
    pub x: u32,
    pub y: u32,
    pub delay_num: u16,
    pub delay_den: u16,
    pub dispose: u8,
    pub blend: u8,
}

/// One decoded PNG frame: its size, the PNG colour type and bit depth of
/// its samples, the samples, and its `fcTL` chunk where it has one.
#[derive(Clone, Debug)]
pub struct PngFrame {
    pub width: u32,
    pub height: u32,
    pub color: u8,
    pub bit_depth: u8,
    pub pixels: Vec<u8>,
    pub control: Option<PngFrameControl>,
}

/// A decoded PNG frame as values: its size, colour type, bit depth,
/// samples and `fcTL` chunk.
pub struct PngFrameModel {
    pub width: u32,
    pub height: u32,
    pub color: u8,
    pub bit_depth: u8,
    pub pixels: Seq<u8>,
    pub control: Option<PngFrameControl>,
}

impl View for PngFrame {
    type V = PngFrameModel;

    open spec fn view(&self) -> PngFrameModel {
        PngFrameModel {
            width: self.width,
            height: self.height,
            color: self.color,
            bit_depth: self.bit_depth,
            pixels: self.pixels@,
            control: self.control,
        }
    }
}

/// Each frame of a sequence as values.
pub open spec fn png_frame_views(frames: Seq<PngFrame>) -> Seq<PngFrameModel> {
    Seq::new(frames.len(), |i: int| frames[i]@)
}

/// A decoded PNG or APNG stream: the canvas, the play count of an
/// animation, whether the default image is kept apart from the animation,
/// and every frame in stream order, the default image first.
#[derive(Clone, Debug)]
pub struct PngImage {
    pub width: u32,
    pub height: u32,
    pub num_plays: Option<u32>,
    pub default_is_separate: bool,
    pub frames: Vec<PngFrame>,
}

/// One frame ready for the animation encoder.
#[derive(Debug)]
pub struct LoadedFrame {
    pub width: u32,
    pub height: u32,
    pub pixels: Vec<u8>,
    pub format: PixelFormat,
    pub x: u32,
    pub y: u32,
    pub delay_numerator: u16,
    pub delay_denominator: u16,
    pub disposal: DisposalMethod,
    pub blend: BlendMode,
}

/// An image or animation ready for the encoders.
#[derive(Debug)]
pub struct LoadedAnimation {
    pub width: u32,
    pub height: u32,
    pub repeat: Repeat,
    pub animated: bool,
    pub frames: Vec<LoadedFrame>,
}

/// The header that the PNG decoder reads from a stream it accepts.
pub uninterp spec fn png_header_of(bytes: Seq<u8>) -> PngHeader;

/// The frames that the PNG decoder yields from a stream it accepts, in
/// stream order (the default image first), as far as it decodes them.
pub uninterp spec fn png_stream_frames(bytes: Seq<u8>) -> Seq<PngFrameModel>;

/// The frames that a PNG reader will still yield, in order.
pub uninterp spec fn png_pending(reader: PngReader) -> Seq<PngFrameModel>;

/// Opens a PNG or APNG stream with `png::Decoder::new` over a cursor on the
/// bytes, asks for `png::Transformations::normalize_to_color8` (palette and
/// low-depth samples are expanded, 16-bit samples stripped to 8 bits) and
/// reads the header with `Decoder::read_info`. It returns the reader, the
/// header fields of `Reader::info` and `Reader::output_buffer_size`, or the
/// decoding error's text. The contract names the header fields, which the
/// stream's `IHDR`, `acTL` and leading `fcTL` chunks fix, and says that the
/// reader has every frame of the stream still to yield; it leaves unsaid when
/// `read_info` fails and the buffer size, both of which also rest on limits
/// computed in machine words.
#[verifier::external_body]
fn png_open<'a>(bytes: &'a [u8]) -> (r: Result<(PngReader<'a>, PngHeader, Option<usize>), String>)
    ensures
        r matches Ok((reader, header, _)) ==> header == png_header_of(bytes@) && png_pending(reader) == png_stream_frames(
            bytes@,
        ),
{
    let mut decoder = png::Decoder::new(std::io::Cursor::new(bytes));
    decoder.set_transformations(png::Transformations::normalize_to_color8());
    let reader = decoder.read_info().map_err(|e| e.to_string())?;
    let info = reader.info();
    let animation = info.animation_control.map(|c| (c.num_frames, c.num_plays));
    let header = PngHeader { width: info.width, height: info.height, animation, has_frame_control: info.frame_control.is_some() };
    let size = reader.output_buffer_size();
    Ok((PngReader { reader }, header, size))
}

/// Decodes the next frame with `png::Reader::next_frame` into a zeroed
/// buffer of `buffer_size` bytes, keeps the `OutputInfo::buffer_size` bytes
/// that the frame fills, and reads the frame's `fcTL` from `Reader::info`.
/// A frame it returns is the next one the reader had to yield, which it then
/// no longer holds; the frame does not depend on the buffer size, which
/// `next_frame` only checks. After a failure the contract says nothing of
/// what the reader still holds.
#[verifier::external_body]
fn png_next_frame(decoder: &mut PngReader, buffer_size: usize) -> (r: Result<PngFrame, String>)
    requires
        buffer_size <= isize::MAX,
    ensures
        r matches Ok(frame) ==> {
            &&& png_pending(*old(decoder)).len() >= 1
            &&& frame@ == png_pending(*old(decoder))[0]
            &&& png_pending(*final(decoder)) == png_pending(*old(decoder)).drop_first()
            &&& frame.pixels@.len() <= buffer_size
        },
{
    let mut pixels = vec![0; buffer_size];
    let output = decoder.reader.next_frame(&mut pixels).map_err(|e| e.to_string())?;
    pixels.truncate(output.buffer_size());
    let control = decoder.reader.info().frame_control.map(|c| PngFrameControl { x: c.x_offset, y: c.y_offset, delay_num: c.delay_num, delay_den: c.delay_den, dispose: c.dispose_op as u8, blend: c.blend_op as u8 });
    Ok(PngFrame { width: output.width, height: output.height, color: output.color_type as u8, bit_depth: output.bit_depth as u8, pixels, control })
}

/// The number of frames a PNG stream holds: every `acTL` frame, plus the
/// default image where no `fcTL` makes it one of them; one for a still PNG.
pub open spec fn png_frame_total(header: PngHeader) -> nat {
    match header.animation {
        Some((frames, _)) => if header.has_frame_control {
            frames as nat
        } else {
            frames as nat + 1
        },
        None => 1,
    }
}

/// The play count of an animated PNG stream.
pub open spec fn png_play_count(header: PngHeader) -> Option<u32> {
    match header.animation {
        Some((_, plays)) => Some(plays),
        None => None,
    }
}

/// Whether the frame of a PNG stream with this header is an APNG default
/// image kept apart from the animation.
pub open spec fn png_default_is_separate(header: PngHeader) -> bool {
    header.animation is Some && !header.has_frame_control
}

/// How many frames to read from a PNG stream with this header, and the size
/// of the buffer each is decoded into: refused as too large where the decoder
/// could not size a frame buffer or an allocation could not hold it.
pub fn png_read_plan(header: PngHeader, buffer_size: Option<usize>) -> (r: Result<(usize, u64), String>)
    ensures
        match r {
            Ok((size, total)) => buffer_size == Some(size) && size <= isize::MAX && total == png_frame_total(header),
            Err(message) => (buffer_size matches Some(size) ==> size > isize::MAX) && message@ == "PNG image is too large"@,
        },
{
    let size = match buffer_size {
        Some(size) => size,
        None => {
            return Err("PNG image is too large".to_string());
        },
    };
    if size > isize::MAX as usize {
        return Err("PNG image is too large".to_string());
    }
    let total: u64 = match header.animation {
        Some((count, _)) => if header.has_frame_control {
            count as u64
        } else {
            count as u64 + 1
        },
        None => 1,
    };
    Ok((size, total))
}

/// Decodes a PNG or APNG stream: its header and, in stream order, every
/// frame the header announces, the default image first.
pub fn decode_png(bytes: &[u8]) -> (r: Result<PngImage, String>)
    ensures
        r matches Ok(image) ==> {
            let header = png_header_of(bytes@);
            let total = png_frame_total(header);
            &&& image.width == header.width && image.height == header.height
            &&& image.num_plays == png_play_count(header)
            &&& image.default_is_separate == png_default_is_separate(header)
            &&& image.frames@.len() == total
            &&& png_stream_frames(bytes@).len() >= total
            &&& png_frame_views(image.frames@) == png_stream_frames(bytes@).take(total as int)
        },
{
    let (mut reader, header, buffer_size) = png_open(bytes)?;
    let (size, total) = png_read_plan(header, buffer_size)?;
    let num_plays = match header.animation {
        Some((_, plays)) => Some(plays),
        None => None,
    };
    let separate = header.animation.is_some() && !header.has_frame_control;
    let ghost stream = png_stream_frames(bytes@);
    let mut frames: Vec<PngFrame> = Vec::new();
    let mut read: u64 = 0;
    while read < total
        invariant
            read <= total,
            frames@.len() == read,
            size <= isize::MAX,
            stream.len() >= read,
            png_pending(reader) == stream.skip(read as int),
            png_frame_views(frames@) == stream.take(read as int),
        decreases total - read,
    {
        let frame = png_next_frame(&mut reader, size)?;
        proof {
            assert(stream.skip(read as int).drop_first() =~= stream.skip(read + 1));
        }
        frames.push(frame);
        read = read + 1;
        proof {
            assert(png_frame_views(frames@) =~= stream.take(read as int));
        }
    }
    Ok(PngImage { width: header.width, height: header.height, num_plays, default_is_separate: separate, frames })
}

/// The disposal that an APNG `dispose_op` code names.
pub open spec fn png_disposal(code: u8) -> Option<DisposalMethod> {
    if code == 0 {
        Some(DisposalMethod::Keep)
    } else if code == 1 {
        Some(DisposalMethod::Background)
    } else if code == 2 {
        Some(DisposalMethod::Previous)
    } else {
        None
    }
}

/// The blend mode that an APNG `blend_op` code names.
pub open spec fn png_blend(code: u8) -> Option<BlendMode> {
    if code == 0 {
        Some(BlendMode::Source)
    } else if code == 1 {
        Some(BlendMode::Over)
    } else {
        None
    }
}

/// The repetition of a PNG stream: an animation's play count, zero meaning
/// forever; a single play for a still image.
pub open spec fn png_repeat(num_plays: Option<u32>) -> Repeat {
    match num_plays {
        Some(plays) => if plays == 0 {
            Repeat::Infinite
        } else {
            Repeat::Finite(plays)
        },
        None => Repeat::Finite(1),
    }
}

/// The frames that belong to the animation: all of them, but for a default
/// image kept apart.
pub open spec fn png_kept(frames: Seq<PngFrameModel>, separate: bool) -> Seq<PngFrameModel> {
    if separate && frames.len() >= 1 {
        frames.subrange(1, frames.len() as int)
    } else {
        frames
    }
}

/// The frames of a decoded PNG stream that belong to its animation.
pub open spec fn kept_png_frames(png: PngImage) -> Seq<PngFrameModel> {
    png_kept(png_frame_views(png.frames@), png.default_is_separate)
}

/// Whether a frame holds 8-bit RGB, RGBA, gray or gray-alpha samples that
/// can be widened to RGB or RGBA, and known `fcTL` operation codes.
pub open spec fn png_frame_loadable(frame: PngFrameModel) -> bool {
    let n = frame.pixels.len();
    &&& frame.bit_depth == 8
    &&& (frame.color == 2 || frame.color == 6 || (frame.color == 0 && n * 3 <= usize::MAX) || (frame.color == 4 && n * 2
        <= usize::MAX))
    &&& (frame.control matches Some(c) ==> png_disposal(c.dispose) is Some && png_blend(c.blend) is Some)
}

/// Whether `format` and `out` are a frame's samples as RGB or RGBA: RGB
/// and RGBA as they are, gray repeated into each colour channel, gray-alpha
/// likewise with its alpha kept.
pub open spec fn png_samples(frame: PngFrameModel, format: PixelFormat, out: Seq<u8>) -> bool {
    let s = frame.pixels;
    if frame.color == 2 {
        format == PixelFormat::Rgb8 && out == s
    } else if frame.color == 6 {
        format == PixelFormat::Rgba8 && out == s
    } else if frame.color == 0 {
        &&& format == PixelFormat::Rgb8
        &&& out.len() == s.len() * 3
        &&& forall|i: int, c: int| 0 <= i < s.len() && 0 <= c < 3 ==> #[trigger] out[i * 3 + c] == s[i]
    } else {
        &&& format == PixelFormat::Rgba8
        &&& out.len() == s.len() / 2 * 4
        &&& forall|i: int, c: int| 0 <= i < s.len() / 2 && 0 <= c < 3 ==> #[trigger] out[i * 4 + c] == s[i * 2]
        &&& forall|i: int| 0 <= i < s.len() / 2 ==> #[trigger] out[i * 4 + 3] == s[i * 2 + 1]
    }
}

/// Whether `loaded` is `frame` ready for the encoder: its size, samples as
/// RGB or RGBA, and the placement, delay, disposal and blend of its `fcTL`,
/// or the origin, no delay, `Keep` and `Source` for a frame without one.
pub open spec fn png_frame_loads(frame: PngFrameModel, loaded: LoadedFrame) -> bool {
    &&& loaded.width == frame.width && loaded.height == frame.height
    &&& png_samples(frame, loaded.format, loaded.pixels@)
    &&& match frame.control {
        Some(c) => loaded.x == c.x && loaded.y == c.y && loaded.delay_numerator == c.delay_num && loaded.delay_denominator
            == c.delay_den && png_disposal(c.dispose) == Some(loaded.disposal) && png_blend(c.blend) == Some(loaded.blend),
        None => loaded.x == 0 && loaded.y == 0 && loaded.delay_numerator == 0 && loaded.delay_denominator == 0
            && loaded.disposal == DisposalMethod::Keep && loaded.blend == BlendMode::Source,
    }
}

/// Whether a decoded PNG stream can be loaded: some frame belongs to the
/// animation and each such frame is loadable.
pub open spec fn png_loadable(png: PngImage) -> bool {
    let kept = kept_png_frames(png);
    kept.len() >= 1 && forall|i: int| 0 <= i < kept.len() ==> #[trigger] png_frame_loadable(kept[i])
}

/// Prepares one decoded PNG frame for the encoder.
fn load_png_frame(frame: &PngFrame) -> (r: crate::Result<LoadedFrame>)
    ensures
        match r {
            Ok(loaded) => png_frame_loadable(frame@) && png_frame_loads(frame@, loaded),
            Err(e) => !png_frame_loadable(frame@) && e.kind_spec() == ErrorKind::InvalidInput,
        },
{
    let (x, y, delay_numerator, delay_denominator, disposal, blend) = match frame.control {
        Some(c) => {
            let disposal = if c.dispose == 0 {
                DisposalMethod::Keep
            } else if c.dispose == 1 {
                DisposalMethod::Background
            } else if c.dispose == 2 {
                DisposalMethod::Previous
            } else {
                return Err(Error::new(ErrorKind::InvalidInput, "unknown APNG disposal operation"));
            };
            let blend = if c.blend == 0 {
                BlendMode::Source
            } else if c.blend == 1 {
                BlendMode::Over
            } else {
                return Err(Error::new(ErrorKind::InvalidInput, "unknown APNG blend operation"));
            };
            (c.x, c.y, c.delay_num, c.delay_den, disposal, blend)
        },
        None => (0, 0, 0, 0, DisposalMethod::Keep, BlendMode::Source),
    };
    if frame.bit_depth != 8 {
        return Err(Error::new(ErrorKind::InvalidInput, "PNG normalization did not produce 8-bit samples"));
    }
    let samples = frame.pixels.as_slice();
    let (pixels, format) = if frame.color == 2 {
        (copy_bytes(samples), PixelFormat::Rgb8)
    } else if frame.color == 6 {
        (copy_bytes(samples), PixelFormat::Rgba8)
    } else if frame.color == 0 {
        if samples.len() > usize::MAX / 3 {
            return Err(Error::new(ErrorKind::InvalidInput, "PNG image is too large"));
        }
        (gray_to_rgb(samples), PixelFormat::Rgb8)
    } else if frame.color == 4 {
        if samples.len() > usize::MAX / 2 {
            return Err(Error::new(ErrorKind::InvalidInput, "PNG image is too large"));
        }
        (gray_alpha_to_rgba(samples), PixelFormat::Rgba8)
    } else if frame.color == 3 {
        return Err(Error::new(ErrorKind::InvalidInput, "indexed PNG was not expanded"));
    } else {
        return Err(Error::new(ErrorKind::InvalidInput, "unknown PNG color type"));
    };
    Ok(LoadedFrame {
        width: frame.width,
        height: frame.height,
        pixels,
        format,
        x,
        y,
        delay_numerator,
        delay_denominator,
        disposal,
        blend,
    })
}

/// Prepares a decoded PNG or APNG stream for the encoders: the repetition
/// from its play count, and every frame of the animation (the default image
/// left out where it is kept apart) with its samples as RGB or RGBA and its
/// placement, delay, disposal and blend.
pub fn loaded_animation_from_png(png: PngImage) -> (r: crate::Result<LoadedAnimation>)
    ensures
        match r {
            Ok(animation) => {
                let kept = kept_png_frames(png);
                &&& png_loadable(png)
                &&& animation.width == png.width && animation.height == png.height
                &&& animation.repeat == png_repeat(png.num_plays)
                &&& animation.animated == png.num_plays is Some
                &&& animation.frames@.len() == kept.len()
                &&& forall|i: int| 0 <= i < kept.len() ==> #[trigger] png_frame_loads(kept[i], animation.frames@[i])
            },
            Err(e) => !png_loadable(png) && e.kind_spec() == ErrorKind::InvalidInput && (kept_png_frames(png).len() == 0
                ==> e.message_spec() == "PNG contains no animation frames"@),
        },
{
    let repeat = match png.num_plays {
        Some(plays) => if plays == 0 {
            Repeat::Infinite
        } else {
            Repeat::Finite(plays)
        },
        None => Repeat::Finite(1),
    };
    let count = png.frames.len();
    let start: usize = if png.default_is_separate && count >= 1 {
        1
    } else {
        0
    };
    let ghost kept = kept_png_frames(png);
    proof {
        assert(kept =~= png_frame_views(png.frames@).subrange(start as int, count as int));
    }
    let mut frames: Vec<LoadedFrame> = Vec::new();
    let mut i = start;
    while i < count
        invariant
            start <= i <= count,
            count == png.frames@.len(),
            kept == kept_png_frames(png),
            kept =~= png_frame_views(png.frames@).subrange(start as int, count as int),
            frames@.len() == i - start,
            forall|k: int| 0 <= k < i - start ==> #[trigger] png_frame_loadable(kept[k]),
            forall|k: int| 0 <= k < i - start ==> #[trigger] png_frame_loads(kept[k], frames@[k]),
        decreases count - i,
    {
        let loaded = match load_png_frame(&png.frames[i]) {
            Ok(loaded) => loaded,
            Err(e) => {
                proof {
                    assert(kept[i - start] == png.frames@[i as int]@);
                    assert(!png_frame_loadable(kept[i - start]));
                }
                return Err(e);
            },
        };
        proof {
            assert(kept[i - start] == png.frames@[i as int]@);
        }
        frames.push(loaded);
        i = i + 1;
    }
    if frames.len() == 0 {
        return Err(Error::new(ErrorKind::InvalidInput, "PNG contains no animation frames"));
    }
    Ok(LoadedAnimation { width: png.width, height: png.height, repeat, animated: png.num_plays.is_some(), frames })
}

/// Decodes a PNG or APNG stream and prepares it for the encoders; a stream
/// that the PNG decoder refuses fails with `InvalidInput` and its message.
pub fn load_png(bytes: &[u8]) -> (r: crate::Result<LoadedAnimation>)
    ensures
        match r {
            Ok(animation) => {
                let header = png_header_of(bytes@);
                let kept = png_kept(
                    png_stream_frames(bytes@).take(png_frame_total(header) as int),
                    png_default_is_separate(header),
                );
                &&& animation.width == header.width && animation.height == header.height
                &&& animation.repeat == png_repeat(png_play_count(header))
                &&& animation.animated == header.animation is Some
                &&& kept.len() >= 1 && animation.frames@.len() == kept.len()
                &&& forall|i: int| 0 <= i < kept.len() ==> #[trigger] png_frame_loads(kept[i], animation.frames@[i])
            },
            Err(e) => e.kind_spec() == ErrorKind::InvalidInput,
        },
{
    let image = match decode_png(bytes) {
        Ok(image) => image,
        Err(message) => {
            return Err(Error::new(ErrorKind::InvalidInput, message.as_str()));
        },
    };
    loaded_animation_from_png(image)
}

/// What the head of a GIF stream announces: the logical screen size and
/// the loop count of its NETSCAPE extension, `None` meaning forever.
#[derive(Clone, Copy, Debug)]
pub struct GifHeader {
    pub width: u16,
    pub height: u16,
    pub repeat: Option<u16>,
}

/// One decoded GIF frame as RGBA samples, with its placement, delay in
/// hundredths of a second and disposal code.
#[derive(Clone, Debug)]
pub struct GifFrame {
    pub width: u16,
    pub height: u16,
    pub left: u16,
    pub top: u16,
    pub delay: u16,
    pub dispose: u8,
    pub pixels: Vec<u8>,
}

/// A decoded GIF frame as values.
pub struct GifFrameModel {
    pub width: u16,
    pub height: u16,
    pub left: u16,
    pub top: u16,
    pub delay: u16,
    pub dispose: u8,
    pub pixels: Seq<u8>,
}

impl View for GifFrame {
    type V = GifFrameModel;

    open spec fn view(&self) -> GifFrameModel {
        GifFrameModel {
            width: self.width,
            height: self.height,
            left: self.left,
            top: self.top,
            delay: self.delay,
            dispose: self.dispose,
            pixels: self.pixels@,
        }
    }
}

/// Each frame of a sequence as values.
pub open spec fn gif_frame_views(frames: Seq<GifFrame>) -> Seq<GifFrameModel> {
    Seq::new(frames.len(), |i: int| frames[i]@)
}

/// A decoded GIF stream: its head and every frame in stream order.
#[derive(Clone, Debug)]
pub struct GifImage {
    pub width: u16,
    pub height: u16,
    pub repeat: Option<u16>,
    pub frames: Vec<GifFrame>,
}

/// The head that the GIF decoder reads from a stream it accepts.
pub uninterp spec fn gif_header_of(bytes: Seq<u8>) -> GifHeader;

/// The frames that the GIF decoder yields from a stream it accepts, in
/// stream order, before it reports the end or fails.
pub uninterp spec fn gif_stream_frames(bytes: Seq<u8>) -> Seq<GifFrameModel>;

/// The frames that a GIF reader will still yield before it reports the end.
pub uninterp spec fn gif_pending(reader: GifReader) -> Seq<GifFrameModel>;

/// Opens a GIF stream with `gif::DecodeOptions::new`, asks for
/// `gif::ColorOutput::RGBA`, and reads its head with
/// `DecodeOptions::read_info`. It returns the decoder with the screen size
/// (`Decoder::width`, `Decoder::height`) and loop count (`Decoder::repeat`),
/// or the decoding error's text. The contract names the head, which the
/// bytes before the first image fix, and says that the decoder has every
/// frame of the stream still to yield; it leaves unsaid when `read_info`
/// fails.
#[verifier::external_body]
fn gif_open<'a>(bytes: &'a [u8]) -> (r: Result<(GifReader<'a>, GifHeader), String>)
    ensures
        r matches Ok((reader, header)) ==> header == gif_header_of(bytes@) && gif_pending(reader) == gif_stream_frames(bytes@),
{
    let mut options = gif::DecodeOptions::new();
    options.set_color_output(gif::ColorOutput::RGBA);
    let reader = options.read_info(bytes).map_err(|e| e.to_string())?;
    let repeat = match reader.repeat() {
        gif::Repeat::Infinite => None,
        gif::Repeat::Finite(count) => Some(count),
    };
    let header = GifHeader { width: reader.width(), height: reader.height(), repeat };
    Ok((GifReader { reader }, header))
}

/// Decodes the next frame with `gif::Decoder::read_next_frame`: its
/// placement, delay, disposal code and RGBA samples, or `None` at the end of
/// the stream. A frame it returns is the next one the decoder had to yield,
/// which it then no longer holds; `None` comes when none is left. After a
/// failure the contract says nothing of what the decoder still holds.
#[verifier::external_body]
fn gif_next_frame(decoder: &mut GifReader) -> (r: Result<Option<GifFrame>, String>)
    ensures
        match r {
            Ok(Some(frame)) => gif_pending(*old(decoder)).len() >= 1 && frame@ == gif_pending(*old(decoder))[0]
                && gif_pending(*final(decoder)) == gif_pending(*old(decoder)).drop_first(),
            Ok(None) => gif_pending(*old(decoder)).len() == 0,
            Err(_) => true,
        },
{
    let frame = decoder.reader.read_next_frame().map_err(|e| e.to_string())?;
    Ok(frame.map(|f| GifFrame { width: f.width, height: f.height, left: f.left, top: f.top, delay: f.delay, dispose: f.dispose as u8, pixels: f.buffer.to_vec() }))
}

/// Decodes a GIF stream: its head and every frame in stream order. Each
/// frame takes more than one byte of the stream, so a stream cannot hold more
/// frames than bytes; a decoder that reported more would be refused.
pub fn decode_gif(bytes: &[u8]) -> (r: Result<GifImage, String>)
    ensures
        r matches Ok(image) ==> {
            let header = gif_header_of(bytes@);
            &&& image.width == header.width && image.height == header.height
            &&& image.repeat == header.repeat
            &&& gif_frame_views(image.frames@) == gif_stream_frames(bytes@)
            &&& gif_stream_frames(bytes@).len() <= bytes@.len()
        },
{
    let (mut reader, header) = gif_open(bytes)?;
    let ghost stream = gif_stream_frames(bytes@);
    let mut frames: Vec<GifFrame> = Vec::new();
    loop
        invariant_except_break
            gif_pending(reader) == stream.skip(frames@.len() as int),
        invariant
            frames@.len() <= bytes@.len(),
            stream.len() >= frames@.len(),
            gif_frame_views(frames@) == stream.take(frames@.len() as int),
        ensures
            gif_frame_views(frames@) == stream,
        decreases bytes@.len() - frames@.len(),
    {
        let ghost read = frames@.len() as int;
        match gif_next_frame(&mut reader)? {
            Some(frame) => {
                if frames.len() == bytes.len() {
                    return Err("GIF reports more frames than it has bytes".to_string());
                }
                proof {
                    assert(stream.skip(read).drop_first() =~= stream.skip(read + 1));
                }
                frames.push(frame);
                proof {
                    assert(gif_frame_views(frames@) =~= stream.take(read + 1));
                }
            },
            None => {
                proof {
                    assert(stream.take(read) =~= stream);
                }
                break ;
            },
        }
    }
    Ok(GifImage { width: header.width, height: header.height, repeat: header.repeat, frames })
}

/// The repetition of a GIF stream: forever, or its loop count, where a
/// count of zero plays once.
pub open spec fn gif_repeat(repeat: Option<u16>) -> Repeat {
    match repeat {
        None => Repeat::Infinite,
        Some(count) => if count == 0 {
            Repeat::Finite(1)
        } else {
            Repeat::Finite(count as u32)
        },
    }
}

/// The disposal that a GIF disposal code names: none given and keep both
/// keep the frame.
pub open spec fn gif_disposal(code: u8) -> Option<DisposalMethod> {
    if code == 0 || code == 1 {
        Some(DisposalMethod::Keep)
    } else if code == 2 {
        Some(DisposalMethod::Background)
    } else if code == 3 {
        Some(DisposalMethod::Previous)
    } else {
        None
    }
}

/// Whether `loaded` is a GIF frame ready for the encoder: RGBA samples as
/// they are, its placement, its delay in hundredths of a second, its
/// disposal, and `Over` blending.
pub open spec fn gif_frame_loads(frame: GifFrameModel, loaded: LoadedFrame) -> bool {
    &&& loaded.width == frame.width && loaded.height == frame.height
    &&& loaded.pixels@ == frame.pixels && loaded.format == PixelFormat::Rgba8
    &&& loaded.x == frame.left && loaded.y == frame.top
    &&& loaded.delay_numerator == frame.delay && loaded.delay_denominator == 100
    &&& gif_disposal(frame.dispose) == Some(loaded.disposal)
    &&& loaded.blend == BlendMode::Over
}

/// Whether a decoded GIF stream can be loaded: it has a frame, and each
/// frame's disposal code is known.
pub open spec fn gif_loadable(gif: GifImage) -> bool {
    gif.frames@.len() >= 1 && forall|i: int| 0 <= i < gif.frames@.len() ==> #[trigger] gif_disposal(gif.frames@[i].dispose) is Some
}

/// Prepares a decoded GIF stream for the encoders: its repetition, and
/// every frame as RGBA samples blended over the canvas.
pub fn loaded_animation_from_gif(gif: GifImage) -> (r: crate::Result<LoadedAnimation>)
    ensures
        match r {
            Ok(animation) => {
                &&& gif_loadable(gif)
                &&& animation.width == gif.width && animation.height == gif.height
                &&& animation.repeat == gif_repeat(gif.repeat)
                &&& animation.animated
                &&& animation.frames@.len() == gif.frames@.len()
                &&& forall|i: int| 0 <= i < gif.frames@.len() ==> #[trigger] gif_frame_loads(gif.frames@[i]@, animation.frames@[i])
            },
            Err(e) => !gif_loadable(gif) && e.kind_spec() == ErrorKind::InvalidInput && (gif.frames@.len() == 0
                ==> e.message_spec() == "GIF contains no frames"@),
        },
{
    let repeat = match gif.repeat {
        None => Repeat::Infinite,
        Some(count) => if count == 0 {
            Repeat::Finite(1)
        } else {
            Repeat::Finite(count as u32)
        },
    };
    let count = gif.frames.len();
    let mut frames: Vec<LoadedFrame> = Vec::new();
    let mut i: usize = 0;
    while i < count
        invariant
            i <= count,
            count == gif.frames@.len(),
            frames@.len() == i,
            forall|k: int| 0 <= k < i ==> #[trigger] gif_disposal(gif.frames@[k].dispose) is Some,
            forall|k: int| 0 <= k < i ==> #[trigger] gif_frame_loads(gif.frames@[k]@, frames@[k]),
        decreases count - i,
    {
        let frame = &gif.frames[i];
        let disposal = if frame.dispose == 0 || frame.dispose == 1 {
            DisposalMethod::Keep
        } else if frame.dispose == 2 {
            DisposalMethod::Background
        } else if frame.dispose == 3 {
            DisposalMethod::Previous
        } else {
            proof {
                assert(gif_disposal(gif.frames@[i as int].dispose) is None);
            }
            return Err(Error::new(ErrorKind::InvalidInput, "unknown GIF disposal method"));
        };
        frames.push(
            LoadedFrame {
                width: frame.width as u32,
                height: frame.height as u32,
                pixels: copy_bytes(frame.pixels.as_slice()),
                format: PixelFormat::Rgba8,
                x: frame.left as u32,
                y: frame.top as u32,
                delay_numerator: frame.delay,
                delay_denominator: 100,
                disposal,
                blend: BlendMode::Over,
            },
        );
        i = i + 1;
    }
    if frames.len() == 0 {
        return Err(Error::new(ErrorKind::InvalidInput, "GIF contains no frames"));
    }
    Ok(LoadedAnimation { width: gif.width as u32, height: gif.height as u32, repeat, animated: true, frames })
}

/// Decodes a GIF stream and prepares it for the encoders; a stream that the
/// GIF decoder refuses fails with `InvalidInput` and its message.
pub fn load_gif(bytes: &[u8]) -> (r: crate::Result<LoadedAnimation>)
    ensures
        match r {
            Ok(animation) => {
                let header = gif_header_of(bytes@);
                let stream = gif_stream_frames(bytes@);
                &&& animation.width == header.width && animation.height == header.height
                &&& animation.repeat == gif_repeat(header.repeat)
                &&& animation.animated
                &&& stream.len() >= 1 && animation.frames@.len() == stream.len()
                &&& forall|i: int| 0 <= i < stream.len() ==> #[trigger] gif_frame_loads(stream[i], animation.frames@[i])
            },
            Err(e) => e.kind_spec() == ErrorKind::InvalidInput,
        },
{
    let image = match decode_gif(bytes) {
        Ok(image) => image,
        Err(message) => {
            return Err(Error::new(ErrorKind::InvalidInput, message.as_str()));
        },
    };
    loaded_animation_from_gif(image)
}

} // verus!
