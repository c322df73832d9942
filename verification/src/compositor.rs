use vstd::prelude::*;

use crate::bytes::copy_bytes;
use crate::decoder::{frame_fits, Decoder};
use crate::error::{Error, ErrorKind};
use crate::frame::{BlendMode, DisposalMethod, FrameInfo};
use crate::pixels::{copy_prefix, decoded_pixel_len, decoded_pixels, pixel_bpp, DecodedImage, PixelFormat, StorageFormat};

verus! {

/// How far a frame region of `size` starting at `offset` reaches into a canvas
/// side of `canvas`.
pub open spec fn clip_extent(offset: int, size: int, canvas: int) -> int {
    if offset >= canvas {
        0
    } else if size < canvas - offset {
        size
    } else {
        canvas - offset
    }
}

/// Whether canvas pixel (`x`, `y`) lies in the visible part of a frame rectangle.
pub open(crate) spec fn in_rect(info: FrameInfo, cw: int, ch: int, x: int, y: int) -> bool {
    &&& info.x_offset <= x < info.x_offset + clip_extent(info.x_offset as int, info.width as int, cw)
    &&& info.y_offset <= y < info.y_offset + clip_extent(info.y_offset as int, info.height as int, ch)
}

/// Channel `c` of the source pixel composited over the destination pixel,
/// both non-premultiplied RGBA.
pub open spec fn over_byte(src: Seq<u8>, dst: Seq<u8>, c: int) -> u8 {
    let sa = src[3] as int;
    let da = dst[3] as int;
    let inverse = 255 - sa;
    let alpha_scaled = sa * 255 + da * inverse;
    if alpha_scaled == 0 {
        0
    } else if c == 3 {
        ((alpha_scaled + 127) / 255) as u8
    } else {
        ((src[c] * sa * 255 + dst[c] * da * inverse + alpha_scaled / 2) / alpha_scaled) as u8
    }
}

/// Byte `i` of a `cw`-pixel-wide RGBA canvas after the frame `info` with RGBA
/// pixels `src` is drawn on it.
pub open(crate) spec fn drawn_byte(canvas: Seq<u8>, cw: int, ch: int, info: FrameInfo, src: Seq<u8>, i: int) -> u8 {
    let p = i / 4;
    let c = i % 4;
    let x = p % cw;
    let y = p / cw;
    if in_rect(info, cw, ch, x, y) {
        let s = ((y - info.y_offset) * info.width + (x - info.x_offset)) * 4;
        if info.blend == BlendMode::Source {
            src[s + c]
        } else {
            over_byte(src.subrange(s, s + 4), canvas.subrange(i - c, i - c + 4), c)
        }
    } else {
        canvas[i]
    }
}

/// An RGBA canvas after a frame is drawn on it.
pub open(crate) spec fn drawn(canvas: Seq<u8>, cw: int, ch: int, info: FrameInfo, src: Seq<u8>) -> Seq<u8> {
    Seq::new(canvas.len(), |i: int| drawn_byte(canvas, cw, ch, info, src, i))
}

/// An RGBA canvas with a frame's visible rectangle cleared to transparent black.
pub open(crate) spec fn cleared(canvas: Seq<u8>, cw: int, ch: int, info: FrameInfo) -> Seq<u8> {
    Seq::new(
        canvas.len(),
        |i: int|
            if in_rect(info, cw, ch, (i / 4) % cw, (i / 4) / cw) {
                0u8
            } else {
                canvas[i]
            },
    )
}

/// The canvas after the previous frame's disposal, given the canvas, the
/// previous frame and the canvas saved before it was drawn.
pub open(crate) spec fn disposed(canvas: Seq<u8>, previous: Option<FrameInfo>, restore: Option<Seq<u8>>, cw: int, ch: int) -> Seq<u8> {
    match previous {
        None => canvas,
        Some(prev) => match prev.disposal {
            DisposalMethod::Keep => canvas,
            DisposalMethod::Background => cleared(canvas, cw, ch, prev),
            DisposalMethod::Previous => match restore {
                Some(saved) => saved,
                None => canvas,
            },
        },
    }
}

/// The RGBA pixels of a stored frame.
pub open(crate) spec fn rgba_frame(frame: (FrameInfo, Seq<u8>), storage: StorageFormat) -> Seq<u8> {
    decoded_pixels(frame.1, storage, PixelFormat::Rgba8, (frame.0.width * frame.0.height) as nat)
}

/// The composition state after the first `k` frames were drawn on a
/// transparent `cw` by `ch` canvas: the canvas, the last frame drawn and the
/// canvas saved for its disposal.
pub open(crate) spec fn composed(
    frames: Seq<(FrameInfo, Seq<u8>)>,
    storage: StorageFormat,
    cw: int,
    ch: int,
    k: nat,
) -> (Seq<u8>, Option<FrameInfo>, Option<Seq<u8>>)
    decreases k,
{
    if k == 0 {
        (Seq::new((cw * ch * 4) as nat, |i: int| 0u8), None, None)
    } else {
        let (canvas, previous, restore) = composed(frames, storage, cw, ch, (k - 1) as nat);
        let base = disposed(canvas, previous, restore, cw, ch);
        let frame = frames[k - 1];
        (
            drawn(base, cw, ch, frame.0, rgba_frame(frame, storage)),
            Some(frame.0),
            if frame.0.disposal == DisposalMethod::Previous {
                Some(base)
            } else {
                None
            },
        )
    }
}

/// The bytes of an RGBA canvas in the caller's layout.
pub open spec fn canvas_output(canvas: Seq<u8>, output: PixelFormat) -> Seq<u8> {
    match output {
        PixelFormat::Rgba8 => canvas,
        PixelFormat::Rgb8 => Seq::new((canvas.len() / 4 * 3) as nat, |i: int| canvas[(i / 3) * 4 + i % 3]),
    }
}

/// Source-over compositing of non-premultiplied RGBA pixels. Over a fully
/// transparent destination the source pixel comes out as it is (transparent
/// black where the source is transparent too); an opaque source replaces the
/// destination; and the result's alpha is the source alpha plus the
/// destination alpha weighted by what the source leaves uncovered,
/// `(sa * 255 + da * (255 - sa)) / 255`, rounded to the nearest integer.
pub proof fn lemma_over_pixel(src: Seq<u8>, dst: Seq<u8>)
    requires
        src.len() == 4,
        dst.len() == 4,
    ensures
        dst[3] == 0 && src[3] > 0 ==> forall|c: int| 0 <= c < 4 ==> #[trigger] over_byte(src, dst, c) == src[c],
        dst[3] == 0 && src[3] == 0 ==> forall|c: int| 0 <= c < 4 ==> #[trigger] over_byte(src, dst, c) == 0,
        src[3] == 255 ==> forall|c: int| 0 <= c < 4 ==> #[trigger] over_byte(src, dst, c) == src[c],
        ({
            let coverage = src[3] * 255 + dst[3] * (255 - src[3]);
            over_byte(src, dst, 3) * 255 <= coverage + 127 && coverage + 127 < over_byte(src, dst, 3) * 255 + 255
        }),
        forall|c: int|
            0 <= c < 3 ==> {
                let weight = src[3] * 255 + dst[3] * (255 - src[3]);
                let mixed = src[c] * src[3] * 255 + dst[c] * dst[3] * (255 - src[3]);
                if weight == 0 {
                    #[trigger] over_byte(src, dst, c) == 0
                } else {
                    over_byte(src, dst, c) * weight <= mixed + weight / 2 < over_byte(src, dst, c) * weight + weight
                }
            },
{
    let sa = src[3] as int;
    let da = dst[3] as int;
    let k = sa * 255 + da * (255 - sa);
    assert(0 <= k <= 65025) by (nonlinear_arith)
        requires
            0 <= sa <= 255,
            0 <= da <= 255,
            k == sa * 255 + da * (255 - sa),
    ;
    assert forall|c: int| 0 <= c < 3 implies {
        let weight = src[3] * 255 + dst[3] * (255 - src[3]);
        let mixed = src[c] * src[3] * 255 + dst[c] * dst[3] * (255 - src[3]);
        if weight == 0 {
            #[trigger] over_byte(src, dst, c) == 0
        } else {
            over_byte(src, dst, c) * weight <= mixed + weight / 2 < over_byte(src, dst, c) * weight + weight
        }
    } by {
        let mixed = src[c] * sa * 255 + dst[c] * da * (255 - sa);
        if k > 0 {
            let q = (mixed + k / 2) / k;
            assert(0 <= mixed <= 255 * k) by (nonlinear_arith)
                requires
                    0 <= src[c] <= 255,
                    0 <= dst[c] <= 255,
                    0 <= sa <= 255,
                    0 <= da <= 255,
                    k == sa * 255 + da * (255 - sa),
                    mixed == src[c] * sa * 255 + dst[c] * da * (255 - sa),
            ;
            assert(q * k <= mixed + k / 2 < q * k + k && 0 <= q <= 255) by (nonlinear_arith)
                requires
                    k > 0,
                    q == (mixed + k / 2) / k,
                    0 <= mixed <= 255 * k,
            ;
            assert(over_byte(src, dst, c) == q);
        }
    }
    let a = (k + 127) / 255;
    assert(a * 255 <= k + 127 < a * 255 + 255 && 0 <= a <= 255) by (nonlinear_arith)
        requires
            a == (k + 127) / 255,
            0 <= k <= 65025,
    ;
    if da == 0 && sa > 0 {
        assert forall|c: int| 0 <= c < 4 implies #[trigger] over_byte(src, dst, c) == src[c] by {
            if c < 3 {
                let m = sa * 255;
                let v = src[c] as int;
                assert(m > 0 && k == m && dst[c] * da * (255 - sa) == 0) by (nonlinear_arith)
                    requires
                        sa > 0,
                        da == 0,
                        k == sa * 255 + da * (255 - sa),
                        m == sa * 255,
                ;
                assert(v * sa * 255 == v * m) by (nonlinear_arith)
                    requires
                        m == sa * 255,
                ;
                assert((v * m + m / 2) / m == v) by {
                    vstd::arithmetic::div_mod::lemma_fundamental_div_mod_converse(v * m + m / 2, m, v, m / 2);
                }
                let num = src[c] * sa * 255 + dst[c] * da * (255 - sa) + k / 2;
                assert(num == v * m + m / 2);
                assert(num / k == v);
                assert(over_byte(src, dst, c) == (num / k) as u8);
            } else {
                assert(k == sa * 255) by (nonlinear_arith)
                    requires
                        da == 0,
                        k == sa * 255 + da * (255 - sa),
                ;
                assert((sa * 255 + 127) / 255 == sa) by (nonlinear_arith)
                    requires
                        0 <= sa <= 255,
                ;
                assert(c == 3);
            }
        }
    }
    if sa == 255 {
        assert forall|c: int| 0 <= c < 4 implies #[trigger] over_byte(src, dst, c) == src[c] by {
            assert(k == 65025 && da * (255 - sa) == 0) by (nonlinear_arith)
                requires
                    sa == 255,
                    k == sa * 255 + da * (255 - sa),
            ;
            if c < 3 {
                let v = src[c] as int;
                assert(dst[c] * da * (255 - sa) == 0) by (nonlinear_arith)
                    requires
                        sa == 255,
                ;
                assert(v * sa * 255 == v * 65025) by (nonlinear_arith)
                    requires
                        sa == 255,
                ;
                assert((v * 65025 + 32512int) / 65025 == v) by {
                    vstd::arithmetic::div_mod::lemma_fundamental_div_mod_converse(v * 65025 + 32512, 65025, v, 32512);
                }
            }
        }
    }
}

/// Drawing a frame on a `cw`-pixel-wide RGBA canvas, pixel by pixel: a
/// canvas pixel (`x`, `y`) inside the visible frame rectangle takes the frame
/// pixel at the same place relative to the frame's offset, as it is under
/// `Source` blending or composited over the canvas pixel under `Over`; a
/// pixel outside it keeps its bytes.
pub proof fn lemma_drawn_pixel(canvas: Seq<u8>, cw: int, ch: int, info: FrameInfo, src: Seq<u8>, x: int, y: int, c: int)
    requires
        cw >= 1,
        ch >= 1,
        canvas.len() == cw * ch * 4,
        0 <= x < cw,
        0 <= y < ch,
        0 <= c < 4,
    ensures
        ({
            let i = (y * cw + x) * 4 + c;
            let s = ((y - info.y_offset_spec()) * info.width_spec() + (x - info.x_offset_spec())) * 4;
            let base = (y * cw + x) * 4;
            drawn(canvas, cw, ch, info, src)[i] == if in_rect(info, cw, ch, x, y) {
                if info.blend_spec() == BlendMode::Source {
                    src[s + c]
                } else {
                    over_byte(src.subrange(s, s + 4), canvas.subrange(base, base + 4), c)
                }
            } else {
                canvas[i]
            }
        }),
{
    let p = y * cw + x;
    let i = p * 4 + c;
    assert(0 <= p < cw * ch) by (nonlinear_arith)
        requires
            0 <= x < cw,
            0 <= y < ch,
            p == y * cw + x,
    ;
    crate::seqs::lemma_chunk_index(i, p, 4);
    crate::seqs::lemma_chunk_index(p, y, cw);
    assert(0 <= i < canvas.len()) by (nonlinear_arith)
        requires
            0 <= p < cw * ch,
            0 <= c < 4,
            i == p * 4 + c,
            canvas.len() == cw * ch * 4,
    ;
    assert(i / 4 == p && i % 4 == c && p % cw == x && p / cw == y);
    assert(i - c == p * 4);
}

/// The RGB layout of a composed canvas is its RGBA layout with each pixel's
/// alpha byte removed: byte `3 * p + c` of the RGB output is byte `4 * p + c`
/// of the RGBA output, channels kept in red, green, blue order.
pub proof fn lemma_rgb_output_drops_alpha(canvas: Seq<u8>)
    requires
        canvas.len() % 4 == 0,
    ensures
        canvas_output(canvas, PixelFormat::Rgba8) == canvas,
        canvas_output(canvas, PixelFormat::Rgb8).len() == canvas_output(canvas, PixelFormat::Rgba8).len() / 4 * 3,
        forall|p: int, c: int|
            0 <= p < canvas.len() / 4 && 0 <= c < 3 ==> #[trigger] canvas_output(canvas, PixelFormat::Rgb8)[p * 3 + c]
                == canvas_output(canvas, PixelFormat::Rgba8)[p * 4 + c],
{
    assert forall|p: int, c: int| 0 <= p < canvas.len() / 4 && 0 <= c < 3 implies #[trigger] canvas_output(
        canvas,
        PixelFormat::Rgb8,
    )[p * 3 + c] == canvas_output(canvas, PixelFormat::Rgba8)[p * 4 + c] by {
        crate::seqs::lemma_chunk_index(p * 3 + c, p, 3);
        assert(p * 3 + c < canvas.len() / 4 * 3) by (nonlinear_arith)
            requires
                0 <= p < canvas.len() / 4,
                0 <= c < 3,
        ;
    }
}

/// Whether the RGBA pixels of stored frame `k` fit the decoded-byte limit.
pub open(crate) spec fn frame_rgba_fits(decoder: &Decoder, k: int) -> bool {
    let info = decoder.frames_spec()[k].0;
    info.width_spec() * info.height_spec() * 4 <= decoder.options_spec().limits_spec().decoded_byte_limit_spec()
}

/// The canvas of a resource after its first `k` frames.
pub open(crate) spec fn composed_canvas(decoder: &Decoder, k: nat) -> Seq<u8> {
    composed(
        decoder.frames_spec(),
        decoder.info_spec().storage_format_spec(),
        decoder.info_spec().width_spec() as int,
        decoder.info_spec().height_spec() as int,
        k,
    ).0
}

proof fn lemma_composed_len(frames: Seq<(FrameInfo, Seq<u8>)>, storage: StorageFormat, cw: int, ch: int, k: nat)
    requires
        cw >= 0,
        ch >= 0,
        k <= frames.len(),
    ensures
        composed(frames, storage, cw, ch, k).0.len() == cw * ch * 4,
        composed(frames, storage, cw, ch, k).2 matches Some(saved) ==> saved.len() == cw * ch * 4,
        composed(frames, storage, cw, ch, k).2 is Some ==> (composed(frames, storage, cw, ch, k).1 matches Some(prev) && prev.disposal == DisposalMethod::Previous),
    decreases k,
{
    if k > 0 {
        lemma_composed_len(frames, storage, cw, ch, (k - 1) as nat);
    }
}

/// The position of byte `i` of a `cw`-pixel-wide RGBA canvas.
proof fn lemma_pixel_index(cw: int, x: int, y: int, c: int)
    requires
        0 <= x < cw,
        0 <= y,
        0 <= c < 4,
    ensures
        ((y * cw + x) * 4 + c) / 4 == y * cw + x,
        ((y * cw + x) * 4 + c) % 4 == c,
        (y * cw + x) % cw == x,
        (y * cw + x) / cw == y,
{
    vstd::arithmetic::div_mod::lemma_fundamental_div_mod_converse((y * cw + x) * 4 + c, 4, y * cw + x, c);
    vstd::arithmetic::div_mod::lemma_fundamental_div_mod_converse(y * cw + x, cw, y, x);
}

/// A canvas position is determined by its column and row.
proof fn lemma_pixel_coords(p: int, cw: int)
    requires
        cw > 0,
        p >= 0,
    ensures
        p == (p / cw) * cw + p % cw,
        0 <= p % cw < cw,
        p / cw >= 0,
{
    vstd::arithmetic::div_mod::lemma_fundamental_div_mod(p, cw);
    vstd::arithmetic::mul::lemma_mul_is_commutative(cw, p / cw);
    vstd::arithmetic::div_mod::lemma_div_pos_is_pos(p, cw);
}

/// Composite one non-premultiplied RGBA pixel over another.
fn over(s0: u8, s1: u8, s2: u8, s3: u8, d0: u8, d1: u8, d2: u8, d3: u8) -> (r: (u8, u8, u8, u8))
    ensures
        r.0 == over_byte(seq![s0, s1, s2, s3], seq![d0, d1, d2, d3], 0),
        r.1 == over_byte(seq![s0, s1, s2, s3], seq![d0, d1, d2, d3], 1),
        r.2 == over_byte(seq![s0, s1, s2, s3], seq![d0, d1, d2, d3], 2),
        r.3 == over_byte(seq![s0, s1, s2, s3], seq![d0, d1, d2, d3], 3),
{
    let source_alpha = s3 as u32;
    let destination_alpha = d3 as u32;
    let inverse = 255 - source_alpha;
    assert(source_alpha * 255 <= 65025 && destination_alpha * inverse <= 65025) by (nonlinear_arith)
        requires
            source_alpha <= 255,
            destination_alpha <= 255,
            inverse <= 255,
    ;
    let alpha_scaled = source_alpha * 255 + destination_alpha * inverse;
    if alpha_scaled == 0 {
        return (0, 0, 0, 0);
    }
    let c0 = over_channel(s0 as u32, d0 as u32, source_alpha, destination_alpha, inverse, alpha_scaled);
    let c1 = over_channel(s1 as u32, d1 as u32, source_alpha, destination_alpha, inverse, alpha_scaled);
    let c2 = over_channel(s2 as u32, d2 as u32, source_alpha, destination_alpha, inverse, alpha_scaled);
    let a = ((alpha_scaled + 127) / 255) as u8;
    (c0, c1, c2, a)
}

fn over_channel(s: u32, d: u32, sa: u32, da: u32, inverse: u32, alpha_scaled: u32) -> (r: u8)
    requires
        s <= 255,
        d <= 255,
        sa <= 255,
        da <= 255,
        inverse == 255 - sa,
        alpha_scaled == sa * 255 + da * inverse,
        alpha_scaled > 0,
    ensures
        r == ((s * sa * 255 + d * da * inverse + alpha_scaled / 2) / (alpha_scaled as int)) as u8,
{
    assert(s * sa <= 65025 && d * da <= 65025 && s * sa * 255 <= 255 * 255 * 255 && d * da * inverse <= 255 * 255 * 255) by (nonlinear_arith)
        requires
            s <= 255,
            d <= 255,
            sa <= 255,
            da <= 255,
            inverse <= 255,
    ;
    assert(alpha_scaled <= 130050) by (nonlinear_arith)
        requires
            sa <= 255,
            da <= 255,
            inverse <= 255,
            alpha_scaled == sa * 255 + da * inverse,
    ;
    let numerator = s * sa * 255 + d * da * inverse;
    let value = (numerator + alpha_scaled / 2) / alpha_scaled;
    #[verifier::truncate] (value as u8)
}

/// Whether canvas byte `i` lies in a part of the visible frame rectangle that
/// has been visited: the rows above `row`, and the columns left of `col` in `row`.
spec fn painted(info: FrameInfo, cw: int, ch: int, i: int, row: int, col: int) -> bool {
    let x = (i / 4) % cw;
    let y = (i / 4) / cw;
    in_rect(info, cw, ch, x, y) && (y - info.y_offset < row || (y - info.y_offset == row && x - info.x_offset < col))
}

/// Visiting one more pixel of the rectangle only marks that pixel's four bytes.
proof fn lemma_paint_step(info: FrameInfo, cw: int, ch: int, row: int, col: int, i: int)
    requires
        1 <= cw,
        1 <= ch,
        0 <= row < clip_extent(info.y_offset as int, info.height as int, ch),
        0 <= col < clip_extent(info.x_offset as int, info.width as int, cw),
        0 <= i,
    ensures
        ({
            let d = ((row + info.y_offset) * cw + col + info.x_offset) * 4;
            if d <= i < d + 4 {
                painted(info, cw, ch, i, row, col + 1) && !painted(info, cw, ch, i, row, col)
                    && (i / 4) % cw == col + info.x_offset && (i / 4) / cw == row + info.y_offset && i % 4 == i - d
            } else {
                painted(info, cw, ch, i, row, col + 1) == painted(info, cw, ch, i, row, col)
            }
        }),
{
    let d = ((row + info.y_offset) * cw + col + info.x_offset) * 4;
    let x = col + info.x_offset;
    let y = row + info.y_offset;
    assert(x < cw);
    if d <= i < d + 4 {
        lemma_pixel_index(cw, x, y, i - d);
        assert(i == (y * cw + x) * 4 + (i - d));
    } else {
        let p = i / 4;
        lemma_pixel_coords(p, cw);
        if (p % cw) == x && (p / cw) == y {
            assert(p == y * cw + x);
            assert(d == p * 4);
            assert(false);
        }
    }
}

/// Draw the RGBA pixels of a frame rectangle on a `cw` by `ch` RGBA canvas.
fn draw_frame(canvas: &mut Vec<u8>, cw: usize, ch: usize, info: FrameInfo, pixels: &[u8])
    requires
        1 <= cw <= 2047,
        1 <= ch <= 2047,
        old(canvas)@.len() == cw * ch * 4,
        pixels@.len() == info.width * info.height * 4,
    ensures
        final(canvas)@ == drawn(old(canvas)@, cw as int, ch as int, info, pixels@),
{
    let ghost orig = canvas@;
    let ghost src = pixels@;
    let pixel_len = pixels.len();
    let x_offset = info.x_offset as usize;
    let y_offset = info.y_offset as usize;
    let width = info.width as usize;
    let height = info.height as usize;
    let room_x = if x_offset < cw {
        cw - x_offset
    } else {
        0
    };
    let room_y = if y_offset < ch {
        ch - y_offset
    } else {
        0
    };
    let draw_width = if width < room_x {
        width
    } else {
        room_x
    };
    let draw_height = if height < room_y {
        height
    } else {
        room_y
    };
    assert(draw_width == clip_extent(x_offset as int, width as int, cw as int));
    assert(draw_height == clip_extent(y_offset as int, height as int, ch as int));
    let mut y: usize = 0;
    while y < draw_height
        invariant
            y <= draw_height,
            canvas@.len() == orig.len(),
            orig.len() == cw * ch * 4,
            1 <= cw <= 2047,
            1 <= ch <= 2047,
            src == pixels@,
            src.len() == width * height * 4,
            src.len() <= usize::MAX,
            x_offset == info.x_offset,
            y_offset == info.y_offset,
            width == info.width,
            height == info.height,
            draw_width == clip_extent(x_offset as int, width as int, cw as int),
            draw_height == clip_extent(y_offset as int, height as int, ch as int),
            forall|i: int|
                0 <= i < orig.len() ==> #[trigger] canvas@[i] == if painted(info, cw as int, ch as int, i, y as int, 0) {
                    drawn_byte(orig, cw as int, ch as int, info, src, i)
                } else {
                    orig[i]
                },
        decreases draw_height - y,
    {
        let mut x: usize = 0;
        while x < draw_width
            invariant
                x <= draw_width,
                y < draw_height,
                canvas@.len() == orig.len(),
                orig.len() == cw * ch * 4,
                1 <= cw <= 2047,
                1 <= ch <= 2047,
                src == pixels@,
                src.len() == width * height * 4,
                src.len() <= usize::MAX,
                x_offset == info.x_offset,
                y_offset == info.y_offset,
                width == info.width,
                height == info.height,
                draw_width == clip_extent(x_offset as int, width as int, cw as int),
                draw_height == clip_extent(y_offset as int, height as int, ch as int),
                forall|i: int|
                    0 <= i < orig.len() ==> #[trigger] canvas@[i] == if painted(info, cw as int, ch as int, i, y as int, x as int) {
                        drawn_byte(orig, cw as int, ch as int, info, src, i)
                    } else {
                        orig[i]
                    },
            decreases draw_width - x,
        {
            assert((y * width + x) * 4 + 4 <= width * height * 4 && (y + y_offset) * cw + x + x_offset < cw * ch
                && (y + y_offset) * cw <= cw * ch && cw * ch <= 2047 * 2047) by (nonlinear_arith)
                requires
                    cw <= 2047,
                    ch <= 2047,
                    y < draw_height,
                    x < draw_width,
                    draw_width <= width,
                    draw_height <= height,
                    y + y_offset < ch,
                    x + x_offset < cw,
            ;
            let source = (y * width + x) * 4;
            let destination = ((y + y_offset) * cw + x + x_offset) * 4;
            let ghost before = canvas@;
            proof {
                lemma_paint_step(info, cw as int, ch as int, y as int, x as int, destination as int);
                lemma_paint_step(info, cw as int, ch as int, y as int, x as int, destination + 1);
                lemma_paint_step(info, cw as int, ch as int, y as int, x as int, destination + 2);
                lemma_paint_step(info, cw as int, ch as int, y as int, x as int, destination + 3);
                assert(before[destination as int] == orig[destination as int]);
                assert(before[destination + 1] == orig[destination + 1]);
                assert(before[destination + 2] == orig[destination + 2]);
                assert(before[destination + 3] == orig[destination + 3]);
            }
            let (r0, r1, r2, r3) = if info.blend == BlendMode::Source {
                (pixels[source], pixels[source + 1], pixels[source + 2], pixels[source + 3])
            } else {
                over(
                    pixels[source],
                    pixels[source + 1],
                    pixels[source + 2],
                    pixels[source + 3],
                    canvas[destination],
                    canvas[destination + 1],
                    canvas[destination + 2],
                    canvas[destination + 3],
                )
            };
            canvas.set(destination, r0);
            canvas.set(destination + 1, r1);
            canvas.set(destination + 2, r2);
            canvas.set(destination + 3, r3);
            proof {
                let cwi = cw as int;
                let chi = ch as int;
                assert(src.subrange(source as int, source + 4) =~= seq![
                    src[source as int],
                    src[source + 1],
                    src[source + 2],
                    src[source + 3],
                ]);
                assert(orig.subrange(destination as int, destination + 4) =~= seq![
                    before[destination as int],
                    before[destination + 1],
                    before[destination + 2],
                    before[destination + 3],
                ]);
                assert forall|i: int| 0 <= i < orig.len() implies #[trigger] canvas@[i] == if painted(
                    info,
                    cwi,
                    chi,
                    i,
                    y as int,
                    x + 1,
                ) {
                    drawn_byte(orig, cwi, chi, info, src, i)
                } else {
                    orig[i]
                } by {
                    lemma_paint_step(info, cwi, chi, y as int, x as int, i);
                    if destination <= i < destination + 4 {
                        let c = i - destination;
                        assert(((i / 4) / cwi - info.y_offset) * info.width + ((i / 4) % cwi - info.x_offset) == y * width + x);
                    } else {
                        assert(canvas@[i] == before[i]);
                    }
                }
            }
            x = x + 1;
        }
        proof {
            assert forall|i: int| 0 <= i < orig.len() implies painted(info, cw as int, ch as int, i, y as int, draw_width as int)
                == painted(info, cw as int, ch as int, i, y + 1, 0) by {}
        }
        y = y + 1;
    }
    proof {
        assert forall|i: int| 0 <= i < orig.len() implies painted(info, cw as int, ch as int, i, draw_height as int, 0) == in_rect(
            info,
            cw as int,
            ch as int,
            (i / 4) % (cw as int),
            (i / 4) / (cw as int),
        ) by {}
        assert(canvas@ =~= drawn(orig, cw as int, ch as int, info, src));
    }
}

/// Clear the visible part of a frame rectangle on a `cw` by `ch` RGBA canvas
/// to transparent black.
fn clear_rectangle(canvas: &mut Vec<u8>, cw: usize, ch: usize, info: FrameInfo)
    requires
        1 <= cw <= 2047,
        1 <= ch <= 2047,
        old(canvas)@.len() == cw * ch * 4,
    ensures
        final(canvas)@ == cleared(old(canvas)@, cw as int, ch as int, info),
{
    let ghost orig = canvas@;
    let x_offset = info.x_offset as usize;
    let y_offset = info.y_offset as usize;
    let room_x = if x_offset < cw {
        cw - x_offset
    } else {
        0
    };
    let room_y = if y_offset < ch {
        ch - y_offset
    } else {
        0
    };
    let clear_width = if (info.width as usize) < room_x {
        info.width as usize
    } else {
        room_x
    };
    let clear_height = if (info.height as usize) < room_y {
        info.height as usize
    } else {
        room_y
    };
    let mut y: usize = 0;
    while y < clear_height
        invariant
            y <= clear_height,
            canvas@.len() == orig.len(),
            orig.len() == cw * ch * 4,
            1 <= cw <= 2047,
            1 <= ch <= 2047,
            x_offset == info.x_offset,
            y_offset == info.y_offset,
            clear_width == clip_extent(x_offset as int, info.width as int, cw as int),
            clear_height == clip_extent(y_offset as int, info.height as int, ch as int),
            forall|i: int|
                0 <= i < orig.len() ==> #[trigger] canvas@[i] == if painted(info, cw as int, ch as int, i, y as int, 0) {
                    0u8
                } else {
                    orig[i]
                },
        decreases clear_height - y,
    {
        let mut x: usize = 0;
        while x < clear_width
            invariant
                x <= clear_width,
                y < clear_height,
                canvas@.len() == orig.len(),
                orig.len() == cw * ch * 4,
                1 <= cw <= 2047,
                1 <= ch <= 2047,
                x_offset == info.x_offset,
                y_offset == info.y_offset,
                clear_width == clip_extent(x_offset as int, info.width as int, cw as int),
                clear_height == clip_extent(y_offset as int, info.height as int, ch as int),
                forall|i: int|
                    0 <= i < orig.len() ==> #[trigger] canvas@[i] == if painted(info, cw as int, ch as int, i, y as int, x as int) {
                        0u8
                    } else {
                        orig[i]
                    },
            decreases clear_width - x,
        {
            assert((y + y_offset) * cw + x + x_offset < cw * ch && (y + y_offset) * cw <= cw * ch && cw * ch <= 2047 * 2047)
                by (nonlinear_arith)
                requires
                    cw <= 2047,
                    ch <= 2047,
                    y + y_offset < ch,
                    x + x_offset < cw,
            ;
            let destination = ((y + y_offset) * cw + x + x_offset) * 4;
            let ghost before = canvas@;
            canvas.set(destination, 0);
            canvas.set(destination + 1, 0);
            canvas.set(destination + 2, 0);
            canvas.set(destination + 3, 0);
            proof {
                assert forall|i: int| 0 <= i < orig.len() implies #[trigger] canvas@[i] == if painted(
                    info,
                    cw as int,
                    ch as int,
                    i,
                    y as int,
                    x + 1,
                ) {
                    0u8
                } else {
                    orig[i]
                } by {
                    lemma_paint_step(info, cw as int, ch as int, y as int, x as int, i);
                    if !(destination <= i < destination + 4) {
                        assert(canvas@[i] == before[i]);
                    }
                }
            }
            x = x + 1;
        }
        proof {
            assert forall|i: int| 0 <= i < orig.len() implies painted(info, cw as int, ch as int, i, y as int, clear_width as int)
                == painted(info, cw as int, ch as int, i, y + 1, 0) by {}
        }
        y = y + 1;
    }
    proof {
        assert forall|i: int| 0 <= i < orig.len() implies painted(info, cw as int, ch as int, i, clear_height as int, 0) == in_rect(
            info,
            cw as int,
            ch as int,
            (i / 4) % (cw as int),
            (i / 4) / (cw as int),
        ) by {}
        assert(canvas@ =~= cleared(orig, cw as int, ch as int, info));
    }
}

/// A canvas of `len` transparent black bytes.
fn zeros(len: usize) -> (v: Vec<u8>)
    ensures
        v@ == Seq::new(len as nat, |i: int| 0u8),
{
    let mut v: Vec<u8> = Vec::new();
    let mut i: usize = 0;
    while i < len
        invariant
            i <= len,
            v@ == Seq::new(i as nat, |k: int| 0u8),
        decreases len - i,
    {
        v.push(0);
        i = i + 1;
        assert(v@ =~= Seq::new(i as nat, |k: int| 0u8));
    }
    v
}

/// The saved canvas, if any, as bytes.
pub open spec fn saved_view(saved: Option<Vec<u8>>) -> Option<Seq<u8>> {
    match saved {
        Some(v) => Some(v@),
        None => None,
    }
}

/// Stateful sequential resource compositor.
///
/// Static resources produce exactly one full-canvas frame. Animated resources
/// apply their frame blend and disposal operations as the compositor advances.
#[derive(Debug)]
pub struct Compositor<'decoder, 'data> {
    pub(crate) decoder: &'decoder Decoder<'data>,
    pub(crate) output: PixelFormat,
    pub(crate) canvas: Vec<u8>,
    pub(crate) next_index: usize,
    pub(crate) previous_frame: Option<FrameInfo>,
    pub(crate) restore_canvas: Option<Vec<u8>>,
}

impl<'decoder, 'data> Compositor<'decoder, 'data> {
    pub open(crate) spec fn decoder_spec(&self) -> &'decoder Decoder<'data> {
        self.decoder
    }

    pub open(crate) spec fn output_spec(&self) -> PixelFormat {
        self.output
    }

    pub open(crate) spec fn next_index_spec(&self) -> usize {
        self.next_index
    }

    /// The compositor holds the state reached after drawing its first
    /// `next_index` frames from a transparent canvas.
    #[verifier::type_invariant]
    pub(crate) open spec fn wf(&self) -> bool {
        let d = self.decoder;
        &&& self.next_index <= d.info.frame_count
        &&& (self.canvas@, self.previous_frame, saved_view(self.restore_canvas)) == composed(
            d.frames_spec(),
            d.info.storage_format,
            d.info.width as int,
            d.info.height as int,
            self.next_index as nat,
        )
    }

    pub(crate) fn new(decoder: &'decoder Decoder<'data>, output: PixelFormat) -> (r: crate::Result<Self>)
        ensures
            match r {
                Ok(c) => c.decoder_spec() == decoder && c.output_spec() == output && c.next_index_spec() == 0
                    && decoder.info_spec().width_spec() * decoder.info_spec().height_spec() * 4
                    <= decoder.options_spec().limits_spec().decoded_byte_limit_spec(),
                Err(e) => e.kind_spec() == ErrorKind::LimitExceeded && decoder.info_spec().width_spec()
                    * decoder.info_spec().height_spec() * 4 > decoder.options_spec().limits_spec().decoded_byte_limit_spec(),
            },
    {
        proof {
            use_type_invariant(decoder);
        }
        let width = decoder.info.width as usize;
        let height = decoder.info.height as usize;
        assert(width * height * 4 <= 2047 * 2047 * 4) by (nonlinear_arith)
            requires
                width <= 2047,
                height <= 2047,
        ;
        let canvas_len = width * height * 4;
        decoder.validate_output_size(canvas_len)?;
        let canvas = zeros(canvas_len);
        Ok(Compositor { decoder, output, canvas, next_index: 0, previous_frame: None, restore_canvas: None })
    }

    pub fn next_index(&self) -> (v: usize)
        ensures
            v == self.next_index_spec(),
    {
        self.next_index
    }

    pub fn output_format(&self) -> (v: PixelFormat)
        ensures
            v == self.output_spec(),
    {
        self.output
    }

    /// Bytes of one composed frame in the output layout.
    pub fn output_buffer_size(&self) -> (r: crate::Result<usize>)
        ensures
            r matches Ok(n) && n == self.decoder_spec().info_spec().width_spec() * self.decoder_spec().info_spec().height_spec()
                * pixel_bpp(self.output_spec()),
    {
        proof {
            use_type_invariant(self.decoder);
            let w = self.decoder.info.width as int;
            let h = self.decoder.info.height as int;
            assert(w * h * pixel_bpp(self.output) <= 2047 * 2047 * 4) by (nonlinear_arith)
                requires
                    0 <= w <= 2047,
                    0 <= h <= 2047,
                    pixel_bpp(self.output) <= 4,
            ;
        }
        decoded_pixel_len(self.decoder.info.width, self.decoder.info.height, self.output)
    }

    /// Return to the transparent canvas before the first frame.
    pub fn reset(&mut self)
        ensures
            final(self).next_index_spec() == 0,
            final(self).decoder_spec() == old(self).decoder_spec(),
            final(self).output_spec() == old(self).output_spec(),
    {
        proof {
            use_type_invariant(&*self);
            use_type_invariant(self.decoder);
        }
        let len = self.canvas.len();
        proof {
            lemma_composed_len(
                self.decoder.frames_spec(),
                self.decoder.info.storage_format,
                self.decoder.info.width as int,
                self.decoder.info.height as int,
                self.next_index as nat,
            );
        }
        let canvas = zeros(len);
        *self = Compositor {
            decoder: self.decoder,
            output: self.output,
            canvas,
            next_index: 0,
            previous_frame: None,
            restore_canvas: None,
        };
    }

    /// The canvas after the disposal of the frame drawn last.
    fn disposed_canvas(&self) -> (canvas: Vec<u8>)
        ensures
            canvas@ == disposed(
                self.canvas@,
                self.previous_frame,
                saved_view(self.restore_canvas),
                self.decoder.info.width as int,
                self.decoder.info.height as int,
            ),
            canvas@.len() == self.decoder.info.width * self.decoder.info.height * 4,
    {
        proof {
            use_type_invariant(self);
            use_type_invariant(self.decoder);
            lemma_composed_len(
                self.decoder.frames_spec(),
                self.decoder.info.storage_format,
                self.decoder.info.width as int,
                self.decoder.info.height as int,
                self.next_index as nat,
            );
        }
        let mut canvas = copy_bytes(self.canvas.as_slice());
        match self.previous_frame {
            None => {},
            Some(previous) => {
                match previous.disposal {
                    DisposalMethod::Keep => {},
                    DisposalMethod::Background => {
                        clear_rectangle(
                            &mut canvas,
                            self.decoder.info.width as usize,
                            self.decoder.info.height as usize,
                            previous,
                        );
                    },
                    DisposalMethod::Previous => {
                        match &self.restore_canvas {
                            Some(restore) => {
                                canvas = copy_bytes(restore.as_slice());
                            },
                            None => {},
                        }
                    },
                }
            },
        }
        canvas
    }

    /// Draw the next stored frame.
    pub(crate) fn advance(&mut self) -> (r: crate::Result<()>)
        requires
            old(self).next_index < old(self).decoder.info.frame_count,
        ensures
            final(self).decoder == old(self).decoder,
            final(self).output == old(self).output,
            match r {
                Ok(()) => final(self).next_index == old(self).next_index + 1 && frame_rgba_fits(old(self).decoder, old(self).next_index as int),
                Err(e) => e.kind_spec() == ErrorKind::LimitExceeded && !frame_rgba_fits(old(self).decoder, old(self).next_index as int)
                    && *final(self) == *old(self),
            },
    {
        proof {
            use_type_invariant(&*self);
            use_type_invariant(self.decoder);
        }
        let ghost k = self.next_index as nat;
        let frame = match self.decoder.decode_frame(self.next_index, PixelFormat::Rgba8) {
            Ok(f) => f,
            Err(e) => {
                return Err(e);
            },
        };
        let info = match self.decoder.frame_info(self.next_index) {
            Ok(info) => info,
            Err(e) => {
                return Err(e);
            },
        };
        let mut canvas = self.disposed_canvas();
        let restore_canvas = if info.disposal == DisposalMethod::Previous {
            Some(copy_bytes(canvas.as_slice()))
        } else {
            None
        };
        let pixels = frame.pixels();
        proof {
            let f = self.decoder.frames_spec()[k as int];
            assert(frame_fits(f, self.decoder.info.storage_format));
            crate::seqs::lemma_concat_chunks(
                |j: int| crate::pixels::rgba_bytes(crate::pixels::stored_rgba(f.1, self.decoder.info.storage_format, j), PixelFormat::Rgba8),
                (f.0.width * f.0.height) as nat,
                4,
            );
        }
        draw_frame(&mut canvas, self.decoder.info.width as usize, self.decoder.info.height as usize, info, pixels);
        *self = Compositor {
            decoder: self.decoder,
            output: self.output,
            canvas,
            next_index: self.next_index + 1,
            previous_frame: Some(info),
            restore_canvas,
        };
        Ok(())
    }

    /// Copy the canvas into a caller-owned buffer in the output layout.
    pub(crate) fn copy_canvas_into(&self, destination: &mut [u8]) -> (r: crate::Result<usize>)
        ensures
            match r {
                Ok(n) => n == self.canvas@.len() / 4 * pixel_bpp(self.output) && n <= old(destination)@.len()
                    && final(destination)@ == canvas_output(self.canvas@, self.output) + old(destination)@.subrange(
                    n as int,
                    old(destination)@.len() as int,
                ),
                Err(e) => e.kind_spec() == ErrorKind::OutputBufferTooSmall && final(destination)@ == old(destination)@
                    && self.canvas@.len() / 4 * pixel_bpp(self.output) > old(destination)@.len(),
            },
    {
        proof {
            use_type_invariant(self);
            use_type_invariant(self.decoder);
            lemma_composed_len(
                self.decoder.frames_spec(),
                self.decoder.info.storage_format,
                self.decoder.info.width as int,
                self.decoder.info.height as int,
                self.next_index as nat,
            );
        }
        let required = match self.output_buffer_size() {
            Ok(n) => n,
            Err(e) => {
                return Err(e);
            },
        };
        let ghost cw = self.decoder.info.width as int;
        let ghost ch = self.decoder.info.height as int;
        proof {
            assert(self.canvas@.len() / 4 == cw * ch) by {
                assert(self.canvas@.len() == (cw * ch) * 4) by (nonlinear_arith)
                    requires
                        self.canvas@.len() == cw * ch * 4,
                ;
            }
        }
        if destination.len() < required {
            return Err(Error::new(ErrorKind::OutputBufferTooSmall, "output buffer is too small for a composed frame"));
        }
        match self.output {
            PixelFormat::Rgba8 => {
                copy_prefix(destination, self.canvas.as_slice());
            },
            PixelFormat::Rgb8 => {
                let ghost orig = destination@;
                let pixel_count = self.canvas.len() / 4;
                let mut p: usize = 0;
                while p < pixel_count
                    invariant
                        p <= pixel_count,
                        pixel_count == self.canvas@.len() / 4,
                        self.canvas@.len() <= usize::MAX,
                        required == pixel_count * 3,
                        required <= orig.len(),
                        destination@.len() == orig.len(),
                        forall|i: int| 0 <= i < p * 3 ==> #[trigger] destination@[i] == self.canvas@[(i / 3) * 4 + i % 3],
                        forall|i: int| p * 3 <= i < orig.len() ==> #[trigger] destination@[i] == orig[i],
                    decreases pixel_count - p,
                {
                    let source = p * 4;
                    let target = p * 3;
                    destination[target] = self.canvas[source];
                    destination[target + 1] = self.canvas[source + 1];
                    destination[target + 2] = self.canvas[source + 2];
                    proof {
                        assert forall|i: int| 0 <= i < (p + 1) * 3 implies #[trigger] destination@[i] == self.canvas@[(i / 3) * 4
                            + i % 3] by {
                            if i >= p * 3 {
                                assert(i / 3 == p);
                            }
                        }
                    }
                    p = p + 1;
                }
                proof {
                    assert(destination@ =~= canvas_output(self.canvas@, self.output) + orig.subrange(required as int, orig.len() as int));
                }
            },
        }
        Ok(required)
    }

    /// Compose the next frame into a new tightly packed image, or `None` after the last frame.
    pub fn next_frame(&mut self) -> (r: crate::Result<Option<DecodedImage>>)
        ensures
            final(self).decoder_spec() == old(self).decoder_spec(),
            final(self).output_spec() == old(self).output_spec(),
            match r {
                Ok(None) => old(self).next_index_spec() >= old(self).decoder_spec().frames_spec().len()
                    && final(self).next_index_spec() == old(self).next_index_spec(),
                Ok(Some(image)) => old(self).next_index_spec() < old(self).decoder_spec().frames_spec().len()
                    && final(self).next_index_spec() == old(self).next_index_spec() + 1
                    && image.width_spec() == old(self).decoder_spec().info_spec().width_spec()
                    && image.height_spec() == old(self).decoder_spec().info_spec().height_spec()
                    && image.format_spec() == old(self).output_spec() && image.pixels_spec() == canvas_output(
                    composed_canvas(old(self).decoder_spec(), final(self).next_index_spec() as nat),
                    old(self).output_spec(),
                ) && frame_rgba_fits(old(self).decoder_spec(), old(self).next_index_spec() as int),
                Err(e) => e.kind_spec() == ErrorKind::LimitExceeded && old(self).next_index_spec()
                    < old(self).decoder_spec().frames_spec().len() && !frame_rgba_fits(
                    old(self).decoder_spec(),
                    old(self).next_index_spec() as int,
                ) && final(self).next_index_spec() == old(self).next_index_spec(),
            },
    {
        proof {
            use_type_invariant(self.decoder);
        }
        if self.next_index >= self.decoder.info.frame_count {
            return Ok(None);
        }
        let size = match self.output_buffer_size() {
            Ok(n) => n,
            Err(e) => {
                return Err(e);
            },
        };
        let mut pixels = zeros(size);
        let written = match self.next_frame_into(pixels.as_mut_slice()) {
            Ok(w) => w,
            Err(e) => {
                return Err(e);
            },
        };
        proof {
            use_type_invariant(&*self);
            assert(pixels@ =~= canvas_output(self.canvas@, self.output));
        }
        Ok(Some(DecodedImage::new(self.decoder.info.width, self.decoder.info.height, self.output, pixels)))
    }

    /// Compose the next frame into a caller-owned tightly packed buffer, or
    /// return `None` after the last frame.
    pub fn next_frame_into(&mut self, destination: &mut [u8]) -> (r: crate::Result<Option<usize>>)
        ensures
            final(self).decoder_spec() == old(self).decoder_spec(),
            final(self).output_spec() == old(self).output_spec(),
            ({
                let d = old(self).decoder_spec();
                let required = d.info_spec().width_spec() * d.info_spec().height_spec() * pixel_bpp(old(self).output_spec());
                match r {
                    Ok(None) => old(self).next_index_spec() >= d.frames_spec().len() && final(self).next_index_spec()
                        == old(self).next_index_spec() && final(destination)@ == old(destination)@,
                    Ok(Some(n)) => old(self).next_index_spec() < d.frames_spec().len() && final(self).next_index_spec()
                        == old(self).next_index_spec() + 1 && n == required && n <= old(destination)@.len()
                        && final(destination)@ == canvas_output(composed_canvas(d, final(self).next_index_spec() as nat), old(self).output_spec())
                        + old(destination)@.subrange(n as int, old(destination)@.len() as int)
                        && frame_rgba_fits(d, old(self).next_index_spec() as int),
                    Err(e) => old(self).next_index_spec() < d.frames_spec().len() && final(self).next_index_spec()
                        == old(self).next_index_spec() && final(destination)@ == old(destination)@ && (e.kind_spec()
                        == ErrorKind::OutputBufferTooSmall && required > old(destination)@.len() || e.kind_spec()
                        == ErrorKind::LimitExceeded && !frame_rgba_fits(d, old(self).next_index_spec() as int)),
                }
            }),
    {
        proof {
            use_type_invariant(self.decoder);
        }
        if self.next_index >= self.decoder.info.frame_count {
            return Ok(None);
        }
        let required = match self.output_buffer_size() {
            Ok(n) => n,
            Err(e) => {
                return Err(e);
            },
        };
        if destination.len() < required {
            return Err(Error::new(ErrorKind::OutputBufferTooSmall, "output buffer is too small for a composed frame"));
        }
        match self.advance() {
            Ok(()) => {},
            Err(e) => {
                return Err(e);
            },
        }
        proof {
            use_type_invariant(&*self);
            lemma_composed_len(
                self.decoder.frames_spec(),
                self.decoder.info.storage_format,
                self.decoder.info.width as int,
                self.decoder.info.height as int,
                self.next_index as nat,
            );
            let cw = self.decoder.info.width as int;
            let ch = self.decoder.info.height as int;
            assert(self.canvas@.len() / 4 == cw * ch) by {
                assert(self.canvas@.len() == (cw * ch) * 4) by (nonlinear_arith)
                    requires
                        self.canvas@.len() == cw * ch * 4,
                ;
            }
        }
        match self.copy_canvas_into(destination) {
            Ok(n) => Ok(Some(n)),
            Err(e) => Err(e),
        }
    }
}

impl<'data> Decoder<'data> {
    /// Create a sequential compositor for this resource.
    ///
    /// A static resource yields one full-canvas source frame and then ends.
    pub fn compositor<'decoder>(&'decoder self, output: PixelFormat) -> (r: crate::Result<Compositor<'decoder, 'data>>)
        ensures
            match r {
                Ok(c) => c.decoder_spec() == self && c.output_spec() == output && c.next_index_spec() == 0
                    && self.info_spec().width_spec() * self.info_spec().height_spec() * 4
                    <= self.options_spec().limits_spec().decoded_byte_limit_spec(),
                Err(e) => e.kind_spec() == ErrorKind::LimitExceeded && self.info_spec().width_spec() * self.info_spec().height_spec()
                    * 4 > self.options_spec().limits_spec().decoded_byte_limit_spec(),
            },
    {
        Compositor::new(self, output)
    }

    /// Compose frame `index` by replaying the resource from its beginning.
    ///
    /// Repeated random access is quadratic; use [`Self::compositor`] when
    /// consuming frames sequentially.
    pub fn decode_composited_frame(&self, index: usize, output: PixelFormat) -> (r: crate::Result<DecodedImage>)
        ensures
            match r {
                Ok(image) => index < self.frames_spec().len() && image.width_spec() == self.info_spec().width_spec()
                    && image.height_spec() == self.info_spec().height_spec() && image.format_spec() == output
                    && image.pixels_spec() == canvas_output(composed_canvas(self, (index + 1) as nat), output)
                    && self.info_spec().width_spec() * self.info_spec().height_spec() * 4
                    <= self.options_spec().limits_spec().decoded_byte_limit_spec() && (forall|k: int|
                    0 <= k <= index ==> #[trigger] frame_rgba_fits(self, k)),
                Err(e) => index >= self.frames_spec().len() && e.kind_spec() == ErrorKind::InvalidOffset
                    && e.frame_index_spec() == Some(index) || index
                    < self.frames_spec().len() && e.kind_spec() == ErrorKind::LimitExceeded && (self.info_spec().width_spec()
                    * self.info_spec().height_spec() * 4 > self.options_spec().limits_spec().decoded_byte_limit_spec()
                    || exists|k: int| 0 <= k <= index && !#[trigger] frame_rgba_fits(self, k)),
            },
    {
        proof {
            use_type_invariant(self);
        }
        if index >= self.info.frame_count {
            return Err(Error::new(ErrorKind::InvalidOffset, "frame index is outside the animation").in_frame(index));
        }
        let mut compositor = self.compositor(output)?;
        let mut image: Option<DecodedImage> = None;
        let mut step: usize = 0;
        while step <= index
            invariant
                step <= index + 1,
                index < self.frames_spec().len(),
                self.frames_spec().len() == self.info.frame_count,
                compositor.decoder_spec() == self,
                compositor.output_spec() == output,
                compositor.next_index_spec() == step,
                self.info_spec().width_spec() * self.info_spec().height_spec() * 4
                    <= self.options_spec().limits_spec().decoded_byte_limit_spec(),
                forall|k: int| 0 <= k < step ==> #[trigger] frame_rgba_fits(self, k),
                step > 0 ==> (image matches Some(img) && img.width_spec() == self.info_spec().width_spec()
                    && img.height_spec() == self.info_spec().height_spec() && img.format_spec() == output
                    && img.pixels_spec() == canvas_output(composed_canvas(self, step as nat), output)),
            decreases index + 1 - step,
        {
            image = match compositor.next_frame() {
                Ok(frame) => frame,
                Err(e) => {
                    return Err(e);
                },
            };
            step = step + 1;
        }
        match image {
            Some(img) => Ok(img),
            None => Err(Error::new(ErrorKind::InvalidAnimation, "animation ended before the requested frame")),
        }
    }

    /// Compose frame `index` into a caller-owned tightly packed buffer.
    ///
    /// This replays the animation from its beginning and therefore takes time
    /// proportional to `index`. Use [`Self::compositor`] for sequential access.
    pub fn decode_composited_frame_into(&self, index: usize, output: PixelFormat, destination: &mut [u8]) -> (r:
        crate::Result<usize>)
        ensures
            ({
                let required = self.info_spec().width_spec() * self.info_spec().height_spec() * pixel_bpp(output);
                match r {
                    Ok(n) => index < self.frames_spec().len() && n == required && n <= old(destination)@.len()
                        && final(destination)@ == canvas_output(composed_canvas(self, (index + 1) as nat), output)
                        + old(destination)@.subrange(n as int, old(destination)@.len() as int)
                        && self.info_spec().width_spec() * self.info_spec().height_spec() * 4
                        <= self.options_spec().limits_spec().decoded_byte_limit_spec() && (forall|k: int|
                        0 <= k <= index ==> #[trigger] frame_rgba_fits(self, k)),
                    Err(e) => final(destination)@ == old(destination)@ && (index >= self.frames_spec().len() && e.kind_spec()
                        == ErrorKind::InvalidOffset && e.frame_index_spec() == Some(index) || index < self.frames_spec().len() && (e.kind_spec()
                        == ErrorKind::OutputBufferTooSmall && required > old(destination)@.len() || e.kind_spec()
                        == ErrorKind::LimitExceeded && (self.info_spec().width_spec() * self.info_spec().height_spec() * 4
                        > self.options_spec().limits_spec().decoded_byte_limit_spec() || exists|k: int|
                        0 <= k <= index && !#[trigger] frame_rgba_fits(self, k)))),
                }
            }),
    {
        proof {
            use_type_invariant(self);
            let w = self.info.width as int;
            let h = self.info.height as int;
            assert(w * h * pixel_bpp(output) <= 2047 * 2047 * 4) by (nonlinear_arith)
                requires
                    0 <= w <= 2047,
                    0 <= h <= 2047,
                    pixel_bpp(output) <= 4,
            ;
        }
        if index >= self.info.frame_count {
            return Err(Error::new(ErrorKind::InvalidOffset, "frame index is outside the animation").in_frame(index));
        }
        let required = match decoded_pixel_len(self.info.width, self.info.height, output) {
            Ok(n) => n,
            Err(e) => {
                return Err(e);
            },
        };
        if destination.len() < required {
            return Err(Error::new(ErrorKind::OutputBufferTooSmall, "output buffer is too small for a composed frame"));
        }
        let mut compositor = self.compositor(output)?;
        let mut step: usize = 0;
        while step <= index
            invariant
                step <= index + 1,
                index < self.frames_spec().len(),
                self.frames_spec().len() == self.info.frame_count,
                compositor.decoder_spec() == self,
                compositor.output_spec() == output,
                compositor.next_index_spec() == step,
                self.info_spec().width_spec() * self.info_spec().height_spec() * 4
                    <= self.options_spec().limits_spec().decoded_byte_limit_spec(),
                forall|k: int| 0 <= k < step ==> #[trigger] frame_rgba_fits(self, k),
            decreases index + 1 - step,
        {
            match compositor.advance() {
                Ok(()) => {},
                Err(e) => {
                    return Err(e);
                },
            }
            step = step + 1;
        }
        proof {
            use_type_invariant(&compositor);
            lemma_composed_len(
                self.frames_spec(),
                self.info.storage_format,
                self.info.width as int,
                self.info.height as int,
                step as nat,
            );
            let cw = self.info.width as int;
            let ch = self.info.height as int;
            assert(compositor.canvas@.len() / 4 == cw * ch) by {
                assert(compositor.canvas@.len() == (cw * ch) * 4) by (nonlinear_arith)
                    requires
                        compositor.canvas@.len() == cw * ch * 4,
                ;
            }
        }
        compositor.copy_canvas_into(destination)
    }
}

} // verus!
