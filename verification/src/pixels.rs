use vstd::prelude::*;

use crate::error::{Error, ErrorKind};
use crate::seqs::{concat_chunks, lemma_mul_step};

verus! {

/// Pixel layout used by caller-owned image buffers.
#[derive(Clone, Copy, Debug, PartialEq, Eq, Structural)]
#[non_exhaustive]
pub enum PixelFormat {
    Rgb8,
    Rgba8,
}

/// Bytes per pixel of a caller-side pixel layout.
pub open spec fn pixel_bpp(format: PixelFormat) -> nat {
    match format {
        PixelFormat::Rgb8 => 3,
        PixelFormat::Rgba8 => 4,
    }
}

impl PixelFormat {
    pub fn bytes_per_pixel(self) -> (n: usize)
        ensures
            n == pixel_bpp(self),
    {
        match self {
            PixelFormat::Rgb8 => 3,
            PixelFormat::Rgba8 => 4,
        }
    }
}

/// Pixel layout stored inside a resource.
#[derive(Clone, Copy, Debug, PartialEq, Eq, Structural)]
#[non_exhaustive]
pub enum StorageFormat {
    Rgb565,
    Rgb888,
    Argb565,
    Argb888,
}

/// Bytes per pixel of a stored pixel layout.
pub open spec fn storage_bpp(storage: StorageFormat) -> nat {
    match storage {
        StorageFormat::Rgb565 => 2,
        StorageFormat::Rgb888 | StorageFormat::Argb565 => 3,
        StorageFormat::Argb888 => 4,
    }
}

/// Whether a stored pixel layout carries alpha.
pub open spec fn storage_has_alpha(storage: StorageFormat) -> bool {
    storage == StorageFormat::Argb565 || storage == StorageFormat::Argb888
}

impl StorageFormat {
    pub fn bytes_per_pixel(self) -> (n: usize)
        ensures
            n == storage_bpp(self),
    {
        match self {
            StorageFormat::Rgb565 => 2,
            StorageFormat::Rgb888 | StorageFormat::Argb565 => 3,
            StorageFormat::Argb888 => 4,
        }
    }

    pub fn has_alpha(self) -> (b: bool)
        ensures
            b == storage_has_alpha(self),
    {
        match self {
            StorageFormat::Argb565 | StorageFormat::Argb888 => true,
            _ => false,
        }
    }

    pub(crate) fn from_alpha_and_bpp(has_alpha: bool, bpp: usize) -> (r: crate::Result<Self>)
        ensures
            match r {
                Ok(s) => storage_has_alpha(s) == has_alpha && storage_bpp(s) == bpp,
                Err(e) => e.kind_spec() == ErrorKind::InvalidPixelLayout && !(exists|s: StorageFormat|
                    storage_has_alpha(s) == has_alpha && storage_bpp(s) == bpp),
            },
    {
        if !has_alpha && bpp == 2 {
            Ok(StorageFormat::Rgb565)
        } else if !has_alpha && bpp == 3 {
            Ok(StorageFormat::Rgb888)
        } else if has_alpha && bpp == 3 {
            Ok(StorageFormat::Argb565)
        } else if has_alpha && bpp == 4 {
            Ok(StorageFormat::Argb888)
        } else {
            proof {
                assert forall|s: StorageFormat|
                    !(storage_has_alpha(s) == has_alpha && storage_bpp(s) == bpp) by {
                    match s {
                        StorageFormat::Rgb565 => {},
                        StorageFormat::Rgb888 => {},
                        StorageFormat::Argb565 => {},
                        StorageFormat::Argb888 => {},
                    }
                }
            }
            Err(Error::new(ErrorKind::InvalidPixelLayout, "no storage format for this alpha flag and pixel size"))
        }
    }
}

/// Bytes needed by an image buffer with the given geometry.
pub open spec fn image_required_len(height: int, stride: int, row_bytes: int) -> int {
    stride * (height - 1) + row_bytes
}

/// Borrowed raw image supplied to an encoder.
#[derive(Clone, Copy, Debug)]
pub struct ImageView<'a> {
    pub(crate) width: u32,
    pub(crate) height: u32,
    pub(crate) format: PixelFormat,
    pub(crate) stride: usize,
    pub(crate) pixels: &'a [u8],
}

/// The outcome of validating an image geometry: the error kind, if any.
pub open spec fn image_view_check(width: u32, height: u32, format: PixelFormat, stride: usize, len: nat) -> Option<ErrorKind> {
    let row_bytes = width * pixel_bpp(format);
    if width == 0 || height == 0 {
        Some(ErrorKind::InvalidDimensions)
    } else if row_bytes > usize::MAX {
        Some(ErrorKind::LimitExceeded)
    } else if stride < row_bytes {
        Some(ErrorKind::InvalidInput)
    } else if image_required_len(height as int, stride as int, row_bytes) > usize::MAX {
        Some(ErrorKind::LimitExceeded)
    } else if len < image_required_len(height as int, stride as int, row_bytes) {
        Some(ErrorKind::TruncatedData)
    } else {
        None
    }
}

impl<'a> ImageView<'a> {
    /// The geometry fits the borrowed buffer.
    #[verifier::type_invariant]
    pub open(crate) spec fn wf(self) -> bool {
        image_view_check(self.width, self.height, self.format, self.stride, self.pixels@.len()) is None
    }

    pub open(crate) spec fn width_spec(self) -> u32 {
        self.width
    }

    pub open(crate) spec fn height_spec(self) -> u32 {
        self.height
    }

    pub open(crate) spec fn format_spec(self) -> PixelFormat {
        self.format
    }

    pub open(crate) spec fn stride_spec(self) -> usize {
        self.stride
    }

    pub open(crate) spec fn pixels_spec(self) -> Seq<u8> {
        self.pixels@
    }

    pub fn new(width: u32, height: u32, format: PixelFormat, stride: usize, pixels: &'a [u8]) -> (r:
        crate::Result<Self>)
        ensures
            match r {
                Ok(img) => image_view_check(width, height, format, stride, pixels@.len()) is None
                    && img.width_spec() == width && img.height_spec() == height && img.format_spec()
                    == format && img.stride_spec() == stride && img.pixels_spec() == pixels@,
                Err(e) => image_view_check(width, height, format, stride, pixels@.len()) == Some(
                    e.kind_spec(),
                ),
            },
    {
        if width == 0 || height == 0 {
            return Err(Error::new(ErrorKind::InvalidDimensions, "image dimensions must be positive"));
        }
        let bpp = format.bytes_per_pixel();
        let row_bytes = match (width as usize).checked_mul(bpp) {
            Some(v) => v,
            None => return Err(Error::new(ErrorKind::LimitExceeded, "image row size overflow")),
        };
        if stride < row_bytes {
            return Err(Error::new(ErrorKind::InvalidInput, "stride is shorter than the row"));
        }
        let prefix = match stride.checked_mul((height - 1) as usize) {
            Some(v) => v,
            None => {
                proof {
                    assert(stride * (height - 1) >= 0) by (nonlinear_arith)
                        requires
                            height >= 1,
                    ;
                }
                return Err(Error::new(ErrorKind::LimitExceeded, "image buffer size overflow"));
            },
        };
        let required = match prefix.checked_add(row_bytes) {
            Some(v) => v,
            None => return Err(Error::new(ErrorKind::LimitExceeded, "image buffer size overflow")),
        };
        if pixels.len() < required {
            return Err(Error::new(ErrorKind::TruncatedData, "image buffer is shorter than its geometry requires"));
        }
        Ok(ImageView { width, height, format, stride, pixels })
    }

    pub fn width(self) -> (w: u32)
        ensures
            w == self.width_spec(),
    {
        self.width
    }

    pub fn height(self) -> (h: u32)
        ensures
            h == self.height_spec(),
    {
        self.height
    }

    pub fn format(self) -> (f: PixelFormat)
        ensures
            f == self.format_spec(),
    {
        self.format
    }

    pub fn stride(self) -> (s: usize)
        ensures
            s == self.stride_spec(),
    {
        self.stride
    }

    pub fn pixels(self) -> (p: &'a [u8])
        ensures
            p@ == self.pixels_spec(),
    {
        self.pixels
    }
}

/// Owned decoded pixels with tightly packed rows.
#[derive(Clone, Debug, PartialEq, Eq)]
pub struct DecodedImage {
    pub(crate) width: u32,
    pub(crate) height: u32,
    pub(crate) format: PixelFormat,
    pub(crate) pixels: Vec<u8>,
}

impl DecodedImage {
    pub open(crate) spec fn width_spec(&self) -> u32 {
        self.width
    }

    pub open(crate) spec fn height_spec(&self) -> u32 {
        self.height
    }

    pub open(crate) spec fn format_spec(&self) -> PixelFormat {
        self.format
    }

    pub open(crate) spec fn pixels_spec(&self) -> Seq<u8> {
        self.pixels@
    }

    pub(crate) fn new(width: u32, height: u32, format: PixelFormat, pixels: Vec<u8>) -> (img: Self)
        ensures
            img.width_spec() == width,
            img.height_spec() == height,
            img.format_spec() == format,
            img.pixels_spec() == pixels@,
    {
        DecodedImage { width, height, format, pixels }
    }

    pub fn width(&self) -> (w: u32)
        ensures
            w == self.width_spec(),
    {
        self.width
    }

    pub fn height(&self) -> (h: u32)
        ensures
            h == self.height_spec(),
    {
        self.height
    }

    pub fn format(&self) -> (f: PixelFormat)
        ensures
            f == self.format_spec(),
    {
        self.format
    }

    pub fn stride(&self) -> (s: usize)
        requires
            self.width_spec() * pixel_bpp(self.format_spec()) <= usize::MAX,
        ensures
            s == self.width_spec() * pixel_bpp(self.format_spec()),
    {
        self.width as usize * self.format.bytes_per_pixel()
    }

    pub fn pixels(&self) -> (p: &[u8])
        ensures
            p@ == self.pixels_spec(),
    {
        self.pixels.as_slice()
    }

    pub fn into_pixels(self) -> (p: Vec<u8>)
        ensures
            p@ == self.pixels_spec(),
    {
        self.pixels
    }
}

/// A five-bit channel expanded to eight bits.
pub open spec fn expand5(v: int) -> int {
    v * 255 / 31
}

/// A six-bit channel expanded to eight bits.
pub open spec fn expand6(v: int) -> int {
    v * 255 / 63
}

/// Red, green, blue and alpha of stored pixel `j`.
pub open spec fn stored_rgba(input: Seq<u8>, storage: StorageFormat, j: int) -> (u8, u8, u8, u8) {
    let base = j * storage_bpp(storage);
    match storage {
        StorageFormat::Rgb565 | StorageFormat::Argb565 => {
            let packed = input[base] + 256 * input[base + 1];
            let alpha = if storage == StorageFormat::Argb565 {
                input[base + 2]
            } else {
                255u8
            };
            (
                expand5((packed / 2048) % 32) as u8,
                expand6((packed / 32) % 64) as u8,
                expand5(packed % 32) as u8,
                alpha,
            )
        },
        StorageFormat::Rgb888 => (input[base + 2], input[base + 1], input[base], 255u8),
        StorageFormat::Argb888 => (input[base + 2], input[base + 1], input[base], input[base + 3]),
    }
}

/// The caller-side bytes of one pixel.
pub open spec fn rgba_bytes(rgba: (u8, u8, u8, u8), output: PixelFormat) -> Seq<u8> {
    match output {
        PixelFormat::Rgb8 => seq![rgba.0, rgba.1, rgba.2],
        PixelFormat::Rgba8 => seq![rgba.0, rgba.1, rgba.2, rgba.3],
    }
}

/// The caller-side bytes of the first `count` stored pixels of `input`.
pub open spec fn decoded_pixels(input: Seq<u8>, storage: StorageFormat, output: PixelFormat, count: nat) -> Seq<u8> {
    concat_chunks(|j: int| rgba_bytes(stored_rgba(input, storage, j), output), count)
}

/// The outcome of the size checks made before decoding stored pixels.
pub open spec fn decode_pixels_check(len: nat, width: u32, height: u32, storage: StorageFormat) -> Option<ErrorKind> {
    if width * height > usize::MAX {
        Some(ErrorKind::LimitExceeded)
    } else if width * height * storage_bpp(storage) > usize::MAX {
        Some(ErrorKind::LimitExceeded)
    } else if len != width * height * storage_bpp(storage) {
        Some(ErrorKind::InvalidPixelLayout)
    } else {
        None
    }
}

fn read_stored_rgba(input: &[u8], storage: StorageFormat, base: usize) -> (rgba: (u8, u8, u8, u8))
    requires
        base + storage_bpp(storage) <= input@.len(),
    ensures
        forall|j: int| j * storage_bpp(storage) == base ==> rgba == stored_rgba(input@, storage, j),
{
    let len = input.len();
    match storage {
        StorageFormat::Rgb565 | StorageFormat::Argb565 => {
            let packed: u32 = input[base] as u32 + 256 * (input[base + 1] as u32);
            let red = (((packed / 2048) % 32) * 255 / 31) as u8;
            let green = (((packed / 32) % 64) * 255 / 63) as u8;
            let blue = ((packed % 32) * 255 / 31) as u8;
            let alpha = if storage == StorageFormat::Argb565 {
                input[base + 2]
            } else {
                255
            };
            (red, green, blue, alpha)
        },
        StorageFormat::Rgb888 => {
            assert(base + 3 <= input@.len());
            (input[base + 2], input[base + 1], input[base], 255)
        },
        StorageFormat::Argb888 => {
            assert(base + 4 <= input@.len());
            (input[base + 2], input[base + 1], input[base], input[base + 3])
        },
    }
}

fn push_rgba(out: &mut Vec<u8>, rgba: (u8, u8, u8, u8), output: PixelFormat)
    ensures
        final(out)@ == old(out)@ + rgba_bytes(rgba, output),
{
    out.push(rgba.0);
    out.push(rgba.1);
    out.push(rgba.2);
    if output == PixelFormat::Rgba8 {
        out.push(rgba.3);
    }
    assert(final(out)@ =~= old(out)@ + rgba_bytes(rgba, output));
}

/// Convert tightly packed stored pixels to the caller's layout.
pub(crate) fn decode_storage_pixels(
    input: &[u8],
    width: u32,
    height: u32,
    storage: StorageFormat,
    output: PixelFormat,
) -> (r: crate::Result<Vec<u8>>)
    ensures
        match r {
            Ok(v) => decode_pixels_check(input@.len(), width, height, storage) is None && v@
                == decoded_pixels(input@, storage, output, (width * height) as nat),
            Err(e) => decode_pixels_check(input@.len(), width, height, storage) == Some(e.kind_spec()),
        },
{
    let pixel_count = match (width as usize).checked_mul(height as usize) {
        Some(v) => v,
        None => return Err(Error::new(ErrorKind::LimitExceeded, "pixel count overflow")),
    };
    let sbpp = storage.bytes_per_pixel();
    let expected = match pixel_count.checked_mul(sbpp) {
        Some(v) => v,
        None => return Err(Error::new(ErrorKind::LimitExceeded, "stored pixel size overflow")),
    };
    if input.len() != expected {
        return Err(Error::new(ErrorKind::InvalidPixelLayout, "pixel data length does not match the image size"));
    }
    let mut decoded: Vec<u8> = Vec::new();
    let ghost f = |j: int| rgba_bytes(stored_rgba(input@, storage, j), output);
    let mut j: usize = 0;
    let mut base: usize = 0;
    while j < pixel_count
        invariant
            j <= pixel_count,
            base == j * sbpp,
            sbpp == storage_bpp(storage),
            input@.len() == pixel_count * sbpp,
            pixel_count * sbpp <= usize::MAX,
            decoded@ == concat_chunks(f, j as nat),
            f == (|j: int| rgba_bytes(stored_rgba(input@, storage, j), output)),
        decreases pixel_count - j,
    {
        proof {
            lemma_mul_step(j as int, pixel_count as int, sbpp as int);
        }
        let rgba = read_stored_rgba(input, storage, base);
        push_rgba(&mut decoded, rgba, output);
        proof {
            assert(f(j as int) == rgba_bytes(rgba, output));
        }
        j = j + 1;
        base = base + sbpp;
    }
    Ok(decoded)
}

/// Bytes needed for a tightly packed image of the given size in `output` layout.
pub(crate) fn decoded_pixel_len(width: u32, height: u32, output: PixelFormat) -> (r: crate::Result<usize>)
    ensures
        match r {
            Ok(n) => n == width * height * pixel_bpp(output),
            Err(e) => width * height * pixel_bpp(output) > usize::MAX && e.kind_spec()
                == ErrorKind::LimitExceeded,
        },
{
    let pixels = match (width as usize).checked_mul(height as usize) {
        Some(v) => v,
        None => {
            proof {
                assert(width * height * pixel_bpp(output) >= width * height) by (nonlinear_arith)
                    requires
                        pixel_bpp(output) >= 3,
                        width * height >= 0,
                ;
            }
            return Err(Error::new(ErrorKind::LimitExceeded, "decoded image size overflow"));
        },
    };
    match pixels.checked_mul(output.bytes_per_pixel()) {
        Some(v) => Ok(v),
        None => Err(Error::new(ErrorKind::LimitExceeded, "decoded image size overflow")),
    }
}

/// Convert stored pixels into a caller-owned tightly packed buffer.
pub(crate) fn decode_storage_pixels_into(
    input: &[u8],
    width: u32,
    height: u32,
    storage: StorageFormat,
    output: PixelFormat,
    destination: &mut [u8],
) -> (r: crate::Result<usize>)
    ensures
        match r {
            Ok(n) => decode_pixels_check(input@.len(), width, height, storage) is None && n
                == width * height * pixel_bpp(output) && n <= old(destination)@.len()
                && final(destination)@ == decoded_pixels(input@, storage, output, (width * height) as nat)
                + old(destination)@.subrange(n as int, old(destination)@.len() as int),
            Err(e) => final(destination)@ == old(destination)@ && (decode_pixels_check(input@.len(), width, height, storage)
                == Some(e.kind_spec()) || (decode_pixels_check(input@.len(), width, height, storage) is None
                && (e.kind_spec() == ErrorKind::LimitExceeded && width * height * pixel_bpp(output)
                > usize::MAX || e.kind_spec() == ErrorKind::OutputBufferTooSmall && width * height
                * pixel_bpp(output) > old(destination)@.len()))),
        },
{
    let decoded = decode_storage_pixels(input, width, height, storage, output)?;
    let required = decoded_pixel_len(width, height, output)?;
    if destination.len() < required {
        return Err(Error::new(ErrorKind::OutputBufferTooSmall, "output buffer is too small"));
    }
    proof {
        crate::seqs::lemma_concat_chunks(
            |j: int| rgba_bytes(stored_rgba(input@, storage, j), output),
            (width * height) as nat,
            pixel_bpp(output),
        );
        assert(decoded@.len() == required);
    }
    copy_prefix(destination, &decoded);
    Ok(required)
}

/// Overwrite the first `source.len()` bytes of `destination` with `source`.
pub(crate) fn copy_prefix(destination: &mut [u8], source: &[u8])
    requires
        source@.len() <= old(destination)@.len(),
    ensures
        final(destination)@ == source@ + old(destination)@.subrange(source@.len() as int, old(destination)@.len() as int),
{
    let mut i: usize = 0;
    while i < source.len()
        invariant
            i <= source@.len(),
            source@.len() <= destination@.len(),
            destination@.len() == old(destination)@.len(),
            forall|k: int| 0 <= k < i ==> destination@[k] == source@[k],
            forall|k: int| i <= k < destination@.len() ==> destination@[k] == old(destination)@[k],
        decreases source@.len() - i,
    {
        destination[i] = source[i];
        i = i + 1;
    }
    assert(destination@ =~= source@ + old(destination)@.subrange(source@.len() as int, old(destination)@.len() as int));
}


/// Gray samples widened to RGB triples, each channel taking the sample.
pub fn gray_to_rgb(samples: &[u8]) -> (rgb: Vec<u8>)
    requires
        samples@.len() * 3 <= usize::MAX,
    ensures
        rgb@.len() == samples@.len() * 3,
        forall|i: int, c: int| 0 <= i < samples@.len() && 0 <= c < 3 ==> #[trigger] rgb@[i * 3 + c] == samples@[i],
{
    let n = samples.len();
    let mut rgb: Vec<u8> = Vec::with_capacity(n * 3);
    let mut i: usize = 0;
    while i < n
        invariant
            n == samples@.len(),
            n * 3 <= usize::MAX,
            i <= n,
            rgb@.len() == i * 3,
            forall|j: int, c: int| 0 <= j < i && 0 <= c < 3 ==> #[trigger] rgb@[j * 3 + c] == samples@[j],
        decreases n - i,
    {
        let v = samples[i];
        rgb.push(v);
        rgb.push(v);
        rgb.push(v);
        proof {
            assert forall|j: int, c: int| 0 <= j < i + 1 && 0 <= c < 3 implies #[trigger] rgb@[j * 3 + c] == samples@[j] by {
                if j == i {
                    assert(j * 3 + c == i * 3 + c);
                } else {
                    assert(j * 3 + c < i * 3) by (nonlinear_arith)
                        requires
                            0 <= j < i,
                            0 <= c < 3,
                    ;
                }
            }
        }
        i = i + 1;
    }
    rgb
}

/// Gray-and-alpha sample pairs widened to RGBA quadruples; a trailing odd sample is dropped.
pub fn gray_alpha_to_rgba(samples: &[u8]) -> (rgba: Vec<u8>)
    requires
        samples@.len() * 2 <= usize::MAX,
    ensures
        rgba@.len() == samples@.len() / 2 * 4,
        forall|i: int, c: int| 0 <= i < samples@.len() / 2 && 0 <= c < 3 ==> #[trigger] rgba@[i * 4 + c] == samples@[i * 2],
        forall|i: int| 0 <= i < samples@.len() / 2 ==> #[trigger] rgba@[i * 4 + 3] == samples@[i * 2 + 1],
{
    let pairs = samples.len() / 2;
    let mut rgba: Vec<u8> = Vec::with_capacity(pairs * 4);
    let mut i: usize = 0;
    while i < pairs
        invariant
            pairs == samples@.len() / 2,
            pairs * 4 <= usize::MAX,
            i <= pairs,
            rgba@.len() == i * 4,
            forall|j: int, c: int| 0 <= j < i && 0 <= c < 3 ==> #[trigger] rgba@[j * 4 + c] == samples@[j * 2],
            forall|j: int| 0 <= j < i ==> #[trigger] rgba@[j * 4 + 3] == samples@[j * 2 + 1],
        decreases pairs - i,
    {
        let gray = samples[i * 2];
        let alpha = samples[i * 2 + 1];
        rgba.push(gray);
        rgba.push(gray);
        rgba.push(gray);
        rgba.push(alpha);
        proof {
            assert forall|j: int, c: int| 0 <= j < i + 1 && 0 <= c < 4 implies #[trigger] rgba@[j * 4 + c] == (if c < 3 {
                samples@[j * 2]
            } else {
                samples@[j * 2 + 1]
            }) by {
                if j == i {
                    assert(j * 4 + c == i * 4 + c);
                } else {
                    assert(j * 4 + c < i * 4) by (nonlinear_arith)
                        requires
                            0 <= j < i,
                            0 <= c < 4,
                    ;
                }
            }
            assert forall|j: int| 0 <= j < i + 1 implies #[trigger] rgba@[j * 4 + 3] == samples@[j * 2 + 1] by {
                assert(rgba@[j * 4 + 3] == (if 3int < 3 { samples@[j * 2] } else { samples@[j * 2 + 1] }));
            }
        }
        i = i + 1;
    }
    rgba
}

} // verus!
