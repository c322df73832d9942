use vstd::prelude::*;

verus! {

/// Color dithering applied while reducing eight-bit RGB channels to RGB565.
#[derive(Clone, Copy, Debug, PartialEq, Eq, Structural)]
#[non_exhaustive]
pub enum Rgb565Dithering {
    /// Discard the low channel bits without modifying the input colors.
    Off,
    /// Apply quantization-aware 8x8 ordered dithering with stable reconstruction levels.
    Balanced8x8,
    /// Reproduce the reference encoder's component-specific 8x8 dither.
    Reference8x8,
}

pub const BAYER_8X8: [u8; 64] = [
    0, 48, 12, 60, 3, 51, 15, 63, 32, 16, 44, 28, 35, 19, 47, 31, 8, 56, 4, 52, 11, 59, 7, 55, 40,
    24, 36, 20, 43, 27, 39, 23, 2, 50, 14, 62, 1, 49, 13, 61, 34, 18, 46, 30, 33, 17, 45, 29, 10,
    58, 6, 54, 9, 57, 5, 53, 42, 26, 38, 22, 41, 25, 37, 21,
];

pub const REFERENCE_DITHER_RED: [u8; 64] = [
    1, 7, 3, 5, 0, 8, 2, 6, 7, 1, 5, 3, 8, 0, 6, 2, 3, 5, 0, 8, 2, 6, 1, 7, 5, 3, 8, 0, 6, 2, 7, 1,
    0, 8, 2, 6, 1, 7, 3, 5, 8, 0, 6, 2, 7, 1, 5, 3, 2, 6, 1, 7, 3, 5, 0, 8, 6, 2, 7, 1, 5, 3, 8, 0,
];

pub const REFERENCE_DITHER_GREEN: [u8; 64] = [
    1, 3, 2, 2, 3, 1, 2, 2, 2, 2, 0, 4, 2, 2, 4, 0, 3, 1, 2, 2, 1, 3, 2, 2, 2, 2, 4, 0, 2, 2, 0, 4,
    1, 3, 2, 2, 3, 1, 2, 2, 2, 2, 0, 4, 2, 2, 4, 0, 3, 1, 2, 2, 1, 3, 2, 2, 2, 2, 4, 0, 2, 2, 0, 4,
];

pub const REFERENCE_DITHER_BLUE: [u8; 64] = [
    5, 3, 8, 0, 6, 2, 7, 1, 3, 5, 0, 8, 2, 6, 1, 7, 8, 0, 6, 2, 7, 1, 5, 3, 0, 8, 2, 6, 1, 7, 3, 5,
    6, 2, 7, 1, 5, 3, 8, 0, 2, 6, 1, 7, 3, 5, 0, 8, 7, 1, 5, 3, 8, 0, 6, 2, 1, 7, 3, 5, 0, 8, 2, 6,
];

/// The quantized level whose expansion back to eight bits is exactly `value`, if any.
pub open spec fn reconstruction_index_spec(value: u8, maximum: u16) -> Option<u16> {
    let scaled = value * maximum;
    let candidate = (scaled + 254) / 255;
    if candidate <= maximum && candidate * 255 / maximum as int == value {
        Some(candidate as u16)
    } else {
        None
    }
}

/// Balanced quantization of `value` to `0..=maximum` under an ordered-dither threshold.
pub open spec fn quantize_balanced_spec(value: u8, maximum: u16, threshold: u8) -> u16 {
    match reconstruction_index_spec(value, maximum) {
        Some(index) => index,
        None => ((value * maximum + threshold * 255 / 64) / 255) as u16,
    }
}

fn reconstruction_index(value: u8, maximum: u16) -> (r: Option<u16>)
    requires
        maximum > 0,
    ensures
        r == reconstruction_index_spec(value, maximum),
{
    assert(value as u32 * maximum as u32 <= 255 * 65535) by (nonlinear_arith)
        requires
            value <= 255,
            maximum <= 65535,
    ;
    let scaled: u32 = value as u32 * maximum as u32;
    let candidate: u32 = (scaled + 254) / 255;
    if candidate <= maximum as u32 && candidate * 255 / maximum as u32 == value as u32 {
        Some(candidate as u16)
    } else {
        None
    }
}

/// Quantize an eight-bit channel to `0..=maximum`, keeping exact
/// reconstruction levels fixed and otherwise rounding up by the dither threshold.
pub fn quantize_balanced(value: u8, maximum: u16, threshold: u8) -> (q: u16)
    requires
        maximum > 0,
    ensures
        q == quantize_balanced_spec(value, maximum, threshold),
{
    if let Some(index) = reconstruction_index(value, maximum) {
        return index;
    }
    assert(value as u32 * maximum as u32 <= 255 * 65535) by (nonlinear_arith)
        requires
            value <= 255,
            maximum <= 65535,
    ;
    let numerator: u32 = value as u32 * maximum as u32 + threshold as u32 * 255 / 64;
    (numerator / 255) as u16
}

/// Quantized levels never exceed the maximum.
pub proof fn lemma_quantize_balanced_bounded(value: u8, maximum: u16, threshold: u8)
    requires
        1 <= maximum <= 255,
        threshold < 64,
    ensures
        quantize_balanced_spec(value, maximum, threshold) <= maximum,
{
    match reconstruction_index_spec(value, maximum) {
        Some(_) => {},
        None => {
            let v = value as int;
            let m = maximum as int;
            let t = threshold as int;
            assert(t * 255 / 64 <= 254);
            assert((v * m + t * 255 / 64) / 255 <= m) by (nonlinear_arith)
                requires
                    0 <= v <= 255,
                    1 <= m <= 255,
                    0 <= t * 255 / 64 <= 254,
            ;
        },
    }
}

/// Every reconstruction level is a fixed point: quantizing the eight-bit
/// expansion of level `index` gives `index` back under every threshold.
pub proof fn lemma_balanced_levels_are_fixed_points(index: u16, maximum: u16, threshold: u8)
    requires
        1 <= maximum <= 255,
        index <= maximum,
    ensures
        quantize_balanced_spec((index * 255 / maximum as int) as u8, maximum, threshold) == index,
{
    let i = index as int;
    let m = maximum as int;
    let v = i * 255 / m;
    assert(0 <= v <= 255) by (nonlinear_arith)
        requires
            0 <= i <= m,
            1 <= m,
            v == i * 255 / m,
    ;
    assert(v * m <= i * 255 && i * 255 < v * m + m) by (nonlinear_arith)
        requires
            0 <= i,
            1 <= m,
            v == i * 255 / m,
    ;
    let candidate = (v * m + 254) / 255;
    assert(candidate == i) by (nonlinear_arith)
        requires
            v * m <= i * 255,
            i * 255 < v * m + m,
            m <= 255,
            candidate == (v * m + 254) / 255,
    ;
    assert(reconstruction_index_spec(v as u8, maximum) == Some(index));
}

/// Pack eight-bit channels into an RGB565 word under the given dither at pattern position `index`.
pub open spec fn pack_rgb565_spec(red: u8, green: u8, blue: u8, dithering: Rgb565Dithering, index: int) -> u16 {
    match dithering {
        Rgb565Dithering::Off => ((red / 8) * 2048 + (green / 4) * 32 + blue / 8) as u16,
        Rgb565Dithering::Balanced8x8 => {
            let t = BAYER_8X8@[index];
            (quantize_balanced_spec(red, 31, t) * 2048 + quantize_balanced_spec(green, 63, t) * 32
                + quantize_balanced_spec(blue, 31, t)) as u16
        },
        Rgb565Dithering::Reference8x8 => {
            let r = if red + REFERENCE_DITHER_RED@[index] > 255 {
                255
            } else {
                red + REFERENCE_DITHER_RED@[index]
            };
            let g = if green + REFERENCE_DITHER_GREEN@[index] > 255 {
                255
            } else {
                green + REFERENCE_DITHER_GREEN@[index]
            };
            let b = if blue + REFERENCE_DITHER_BLUE@[index] > 255 {
                255
            } else {
                blue + REFERENCE_DITHER_BLUE@[index]
            };
            ((r / 8) * 2048 + (g / 4) * 32 + b / 8) as u16
        },
    }
}

fn saturating_add_byte(a: u8, b: u8) -> (c: u8)
    ensures
        c == (if a + b > 255 {
            255
        } else {
            a + b
        }),
{
    if a as u16 + b as u16 > 255 {
        255
    } else {
        a + b
    }
}

/// Pack a color with the balanced 8x8 pattern.
fn pack_balanced(red: u8, green: u8, blue: u8, dither_index: usize) -> (p: u16)
    requires
        dither_index < 64,
    ensures
        p == pack_rgb565_spec(red, green, blue, Rgb565Dithering::Balanced8x8, dither_index as int),
{
    let threshold = BAYER_8X8[dither_index];
    assert(threshold < 64) by {
        assert(forall|i: int| 0 <= i < 64 ==> #[trigger] BAYER_8X8@[i] < 64);
    }
    let r = quantize_balanced(red, 31, threshold);
    let g = quantize_balanced(green, 63, threshold);
    let b = quantize_balanced(blue, 31, threshold);
    proof {
        lemma_quantize_balanced_bounded(red, 31, threshold);
        lemma_quantize_balanced_bounded(green, 63, threshold);
        lemma_quantize_balanced_bounded(blue, 31, threshold);
    }
    r * 2048 + g * 32 + b
}

/// Pack a color with the reference 8x8 offsets added.
fn pack_reference(red: u8, green: u8, blue: u8, dither_index: usize) -> (p: u16)
    requires
        dither_index < 64,
    ensures
        p == pack_rgb565_spec(red, green, blue, Rgb565Dithering::Reference8x8, dither_index as int),
{
    let r = saturating_add_byte(red, REFERENCE_DITHER_RED[dither_index]);
    let g = saturating_add_byte(green, REFERENCE_DITHER_GREEN[dither_index]);
    let b = saturating_add_byte(blue, REFERENCE_DITHER_BLUE[dither_index]);
    (r as u16 / 8) * 2048 + (g as u16 / 4) * 32 + b as u16 / 8
}

pub(crate) fn pack_rgb565(red: u8, green: u8, blue: u8, dithering: Rgb565Dithering, dither_index: usize) -> (p: u16)
    requires
        dither_index < 64,
    ensures
        p == pack_rgb565_spec(red, green, blue, dithering, dither_index as int),
{
    match dithering {
        Rgb565Dithering::Off => (red as u16 / 8) * 2048 + (green as u16 / 4) * 32 + blue as u16 / 8,
        Rgb565Dithering::Balanced8x8 => pack_balanced(red, green, blue, dither_index),
        Rgb565Dithering::Reference8x8 => pack_reference(red, green, blue, dither_index),
    }
}


/// The red, green and blue fields of an RGB565 word.
pub open spec fn rgb565_fields(packed: u16) -> (int, int, int) {
    (packed as int / 2048, (packed as int / 32) % 64, packed as int % 32)
}

/// Reference dithering only ever brightens, by less than one step of each
/// field, and saturates rather than wrapping: each packed field lies between
/// the input channel's top bits and the top bits of the channel raised by
/// the largest offset of the pattern (8 for red and blue, 4 for green),
/// capped at the field's maximum. So white packs to white.
pub proof fn lemma_reference_dither_brightens(red: u8, green: u8, blue: u8, index: int)
    requires
        0 <= index < 64,
    ensures
        ({
            let (r, g, b) = rgb565_fields(pack_rgb565_spec(red, green, blue, Rgb565Dithering::Reference8x8, index));
            &&& red / 8 <= r <= (red + 8) / 8 && r <= 31
            &&& green / 4 <= g <= (green + 4) / 4 && g <= 63
            &&& blue / 8 <= b <= (blue + 8) / 8 && b <= 31
        }),
        red == 255 && green == 255 && blue == 255 ==> pack_rgb565_spec(red, green, blue, Rgb565Dithering::Reference8x8, index)
            == 0xffff,
        ({
            let (r, g, b) = rgb565_fields(pack_rgb565_spec(red, green, blue, Rgb565Dithering::Reference8x8, index));
            let raised_red = red + REFERENCE_DITHER_RED@[index];
            let raised_green = green + REFERENCE_DITHER_GREEN@[index];
            let raised_blue = blue + REFERENCE_DITHER_BLUE@[index];
            &&& r == (if raised_red < 255 { raised_red } else { 255 }) / 8
            &&& g == (if raised_green < 255 { raised_green } else { 255 }) / 4
            &&& b == (if raised_blue < 255 { raised_blue } else { 255 }) / 8
        }),
{
    assert(REFERENCE_DITHER_RED@[index] <= 8 && REFERENCE_DITHER_GREEN@[index] <= 4 && REFERENCE_DITHER_BLUE@[index] <= 8) by {
        assert(forall|i: int| 0 <= i < 64 ==> #[trigger] REFERENCE_DITHER_RED@[i] <= 8);
        assert(forall|i: int| 0 <= i < 64 ==> #[trigger] REFERENCE_DITHER_GREEN@[i] <= 4);
        assert(forall|i: int| 0 <= i < 64 ==> #[trigger] REFERENCE_DITHER_BLUE@[i] <= 8);
    }
    let r = if red + REFERENCE_DITHER_RED@[index] > 255 {
        255
    } else {
        red + REFERENCE_DITHER_RED@[index]
    };
    let g = if green + REFERENCE_DITHER_GREEN@[index] > 255 {
        255
    } else {
        green + REFERENCE_DITHER_GREEN@[index]
    };
    let b = if blue + REFERENCE_DITHER_BLUE@[index] > 255 {
        255
    } else {
        blue + REFERENCE_DITHER_BLUE@[index]
    };
    let r8 = (r / 8) as u32;
    let g4 = (g / 4) as u32;
    let b8 = (b / 8) as u32;
    assert(r8 < 32 && g4 < 64 && b8 < 32);
    let packed = pack_rgb565_spec(red, green, blue, Rgb565Dithering::Reference8x8, index);
    assert(packed as int == r8 * 2048 + g4 * 32 + b8);
    assert((r8 * 2048 + g4 * 32 + b8) / 2048 == r8 && ((r8 * 2048 + g4 * 32 + b8) / 32) % 64 == g4 && (r8 * 2048 + g4 * 32 + b8)
        % 32 == b8) by (bit_vector)
        requires
            r8 < 32,
            g4 < 64,
            b8 < 32,
    ;
}

/// The eight-bit channel values that an RGB565 word decodes to.
pub open spec fn decoded_565_channels(packed: u16) -> (u8, u8, u8) {
    (
        crate::pixels::expand5((packed as int / 2048) % 32) as u8,
        crate::pixels::expand6((packed as int / 32) % 64) as u8,
        crate::pixels::expand5(packed as int % 32) as u8,
    )
}

/// A five- or six-bit level survives expansion to eight bits and truncation back.
proof fn lemma_expand_truncate(level: int, bits_max: int, shift: int)
    requires
        (bits_max == 31 && shift == 8) || (bits_max == 63 && shift == 4),
        0 <= level <= bits_max,
    ensures
        0 <= level * 255 / bits_max <= 255,
        (level * 255 / bits_max) / shift == level,
{
    let q = level * 255 / bits_max;
    assert(q * bits_max <= level * 255 < q * bits_max + bits_max) by (nonlinear_arith)
        requires
            q == level * 255 / bits_max,
            bits_max > 0,
            level >= 0,
    ;
    assert(level * shift <= q < level * shift + shift && 0 <= q <= 255) by (nonlinear_arith)
        requires
            q * bits_max <= level * 255 < q * bits_max + bits_max,
            (bits_max == 31 && shift == 8) || (bits_max == 63 && shift == 4),
            0 <= level <= bits_max,
    ;
}

/// The channel fields of an RGB565 word put it back together.
proof fn lemma_565_fields(packed: u16)
    ensures
        packed == ((packed / 2048) % 32) * 2048 + ((packed / 32) % 64) * 32 + packed % 32,
{
}

/// Direct RGB565 conversion is decode-encode idempotent: packing the eight-bit
/// channels decoded from any RGB565 word gives that word back, at every
/// position.
pub proof fn lemma_direct_rgb565_idempotent(packed: u16, index: int)
    ensures
        ({
            let (red, green, blue) = decoded_565_channels(packed);
            pack_rgb565_spec(red, green, blue, Rgb565Dithering::Off, index) == packed
        }),
{
    lemma_expand_truncate(((packed / 2048) % 32) as int, 31, 8);
    lemma_expand_truncate(((packed / 32) % 64) as int, 63, 4);
    lemma_expand_truncate((packed % 32) as int, 31, 8);
    lemma_565_fields(packed);
}

/// Balanced dithering leaves decoded colors alone: packing the eight-bit
/// channels decoded from any RGB565 word gives that word back, at every
/// position of the dither pattern.
pub proof fn lemma_balanced_rgb565_fixed_point(packed: u16, index: int)
    ensures
        ({
            let (red, green, blue) = decoded_565_channels(packed);
            pack_rgb565_spec(red, green, blue, Rgb565Dithering::Balanced8x8, index) == packed
        }),
{
    let t = BAYER_8X8@[index];
    lemma_balanced_levels_are_fixed_points(((packed / 2048) % 32) as u16, 31, t);
    lemma_balanced_levels_are_fixed_points(((packed / 32) % 64) as u16, 63, t);
    lemma_balanced_levels_are_fixed_points((packed % 32) as u16, 31, t);
    lemma_565_fields(packed);
}

} // verus!
