use vstd::prelude::*;

use crate::animation::{
    animation_frames, animation_prelude_spec, failing_frame, frame_decoded, frame_size_overflows, frame_views, frames_total,
    parse_animation, AnimationData,
};
use crate::bytes::{le_u32_at, read_le_u32};
use crate::checksum::{crc32, crc32_spec};
use crate::error::{keeps_prefix, warning_kinds, Error, ErrorKind, Warning, WarningKind};
use crate::filter::{unfilter, unfilter_accepts, unfilter_rejects};
use crate::frame::{repeat_from_play_count, still_info, FrameInfo, Repeat};
use crate::header::{format_kind, parse_header_spec, ResourceFormat, ResourceHeader, ResourceKind};
use crate::options::{DecodeMode, DecodeOptions};
use crate::pixels::{
    decode_storage_pixels, decode_storage_pixels_into, decoded_pixel_len, decoded_pixels,
    pixel_bpp, storage_bpp, storage_has_alpha, DecodedImage, PixelFormat, StorageFormat,
};
use crate::stream::{control_storage, inflate_accepts, inflate_rejects, inflate_stream, parse_stream_header_spec, StreamHeader};

verus! {

/// Metadata known without decoding a frame.
#[derive(Clone, Copy, Debug, PartialEq, Eq, Structural)]
pub struct ResourceInfo {
    pub(crate) kind: ResourceKind,
    pub(crate) format: ResourceFormat,
    pub(crate) storage_format: StorageFormat,
    pub(crate) width: u32,
    pub(crate) height: u32,
    pub(crate) frame_count: usize,
}

impl ResourceInfo {
    pub open(crate) spec fn kind_spec(&self) -> ResourceKind {
        self.kind
    }

    pub open(crate) spec fn format_spec(&self) -> ResourceFormat {
        self.format
    }

    pub open(crate) spec fn storage_format_spec(&self) -> StorageFormat {
        self.storage_format
    }

    pub open(crate) spec fn width_spec(&self) -> u32 {
        self.width
    }

    pub open(crate) spec fn height_spec(&self) -> u32 {
        self.height
    }

    pub open(crate) spec fn frame_count_spec(&self) -> usize {
        self.frame_count
    }

    pub fn kind(&self) -> (v: ResourceKind)
        ensures
            v == self.kind_spec(),
    {
        self.kind
    }

    pub fn resource_format(&self) -> (v: ResourceFormat)
        ensures
            v == self.format_spec(),
    {
        self.format
    }

    pub fn storage_format(&self) -> (v: StorageFormat)
        ensures
            v == self.storage_format_spec(),
    {
        self.storage_format
    }

    pub fn width(&self) -> (v: u32)
        ensures
            v == self.width_spec(),
    {
        self.width
    }

    pub fn height(&self) -> (v: u32)
        ensures
            v == self.height_spec(),
    {
        self.height
    }

    pub fn frame_count(&self) -> (v: usize)
        ensures
            v == self.frame_count_spec(),
    {
        self.frame_count
    }
}

/// The pixel size of a PIXEL payload of `len` bytes holding `count` pixels,
/// the number of pixel bytes, and whether the size was inferred: the size
/// whose pixels and CRC-32 trailer fill the payload exactly, or in diagnostic
/// mode the largest size the payload covers.
pub open spec fn pixel_layout(len: int, count: int, has_alpha: bool, mode: DecodeMode) -> Option<(int, int, bool)> {
    let small = if has_alpha {
        3int
    } else {
        2int
    };
    let small_bytes = if has_alpha {
        count * 3
    } else {
        count * 2
    };
    let large_bytes = if has_alpha {
        count * 4
    } else {
        count * 3
    };
    if len == small_bytes + 4 {
        Some((small, small_bytes, false))
    } else if len == large_bytes + 4 {
        Some((small + 1, large_bytes, false))
    } else if mode == DecodeMode::Diagnostic && len >= large_bytes {
        Some((small + 1, large_bytes, true))
    } else if mode == DecodeMode::Diagnostic && len >= small_bytes {
        Some((small, small_bytes, true))
    } else {
        None
    }
}

/// Choose the pixel size of a PIXEL payload.
fn select_pixel_layout(len: usize, pixel_count: usize, has_alpha: bool, mode: DecodeMode) -> (r: Option<(usize, usize, bool)>)
    requires
        pixel_count <= 2047 * 2047,
    ensures
        match r {
            Some((bpp, bytes, inferred)) => pixel_layout(len as int, pixel_count as int, has_alpha, mode) == Some(
                (bpp as int, bytes as int, inferred),
            ) && bytes == pixel_count * bpp && 2 <= bpp <= 4,
            None => pixel_layout(len as int, pixel_count as int, has_alpha, mode) is None,
        },
{
    let small: usize = if has_alpha {
        3
    } else {
        2
    };
    let small_bytes = if has_alpha {
        pixel_count * 3
    } else {
        pixel_count * 2
    };
    let large_bytes = if has_alpha {
        pixel_count * 4
    } else {
        pixel_count * 3
    };
    let diagnostic = mode == DecodeMode::Diagnostic;
    if len == small_bytes + 4 {
        Some((small, small_bytes, false))
    } else if len == large_bytes + 4 {
        Some((small + 1, large_bytes, false))
    } else if diagnostic && len >= large_bytes {
        Some((small + 1, large_bytes, true))
    } else if diagnostic && len >= small_bytes {
        Some((small, small_bytes, true))
    } else {
        None
    }
}

/// Whether a PIXEL payload that fits the smaller pixel size with a CRC-32
/// trailer also fits the larger size with no trailer, and the trailer does not
/// match: diagnostic mode then reads it with the larger size.
pub open spec fn pixel_layout_ambiguous(
    payload: Seq<u8>,
    count: int,
    has_alpha: bool,
    mode: DecodeMode,
    bpp: int,
    pixel_bytes: int,
    inferred: bool,
) -> bool {
    let small = if has_alpha {
        3int
    } else {
        2int
    };
    let large_bytes = if has_alpha {
        count * 4
    } else {
        count * 3
    };
    &&& !inferred
    &&& mode == DecodeMode::Diagnostic
    &&& bpp == small
    &&& large_bytes == payload.len()
    &&& le_u32_at(payload, pixel_bytes) != crc32_spec(payload.subrange(0, pixel_bytes))
}

/// Whether `data` is a PIXEL resource whose layout is ambiguous under
/// `options`, so that it is read with the larger pixel size and no trailer.
pub open(crate) spec fn opens_ambiguous_pixels(data: Seq<u8>, options: DecodeOptions) -> bool {
    match parse_header_spec(data) {
        Err(_) => false,
        Ok(header) => {
            let count = (header.width_spec() as u32) * (header.height_spec() as u32);
            let has_alpha = header.format_spec() == ResourceFormat::PixelWithAlpha;
            let payload = data.subrange(4, data.len() as int);
            format_kind(header.format_spec()) == ResourceKind::Pixel && match pixel_layout(
                payload.len() as int,
                count,
                has_alpha,
                options.mode_spec(),
            ) {
                None => false,
                Some((bpp, bytes, inferred)) => pixel_layout_ambiguous(payload, count, has_alpha, options.mode_spec(), bpp, bytes, inferred),
            }
        },
    }
}

/// The storage format of a PIXEL resource with this alpha flag and pixel size.
pub open spec fn pixel_storage(has_alpha: bool, bpp: int) -> StorageFormat {
    if has_alpha {
        if bpp == 3 {
            StorageFormat::Argb565
        } else {
            StorageFormat::Argb888
        }
    } else if bpp == 2 {
        StorageFormat::Rgb565
    } else {
        StorageFormat::Rgb888
    }
}

/// Opening the payload of a PIXEL resource: its storage format, the number of
/// pixel bytes and the warning kinds recorded, or the error kind.
pub open(crate) spec fn pixel_open_spec(
    payload: Seq<u8>,
    width: u32,
    height: u32,
    has_alpha: bool,
    options: DecodeOptions,
) -> Result<(StorageFormat, int, Seq<WarningKind>), ErrorKind> {
    let count = width * height;
    let mode = options.mode_spec();
    match pixel_layout(payload.len() as int, count, has_alpha, mode) {
        None => Err(ErrorKind::InvalidPixelLayout),
        Some((exact_bpp, exact_bytes, exact_inferred)) => {
            let ambiguous = pixel_layout_ambiguous(payload, count, has_alpha, mode, exact_bpp, exact_bytes, exact_inferred);
            let bpp = if ambiguous {
                exact_bpp + 1
            } else {
                exact_bpp
            };
            let pixel_bytes = if ambiguous {
                payload.len() as int
            } else {
                exact_bytes
            };
            let inferred = ambiguous || exact_inferred;
            if pixel_bytes > options.limits_spec().decoded_byte_limit_spec() {
                Err(ErrorKind::LimitExceeded)
            } else {
                match pixel_trailer_spec(payload, pixel_bytes, inferred, mode) {
                    Err(kind) => Err(kind),
                    Ok(kinds) => Ok((pixel_storage(has_alpha, bpp), pixel_bytes, kinds)),
                }
            }
        },
    }
}

/// The checks on what follows the pixel bytes of a PIXEL payload: the
/// warning kinds recorded, or the error kind.
pub open(crate) spec fn pixel_trailer_spec(payload: Seq<u8>, pixel_bytes: int, inferred: bool, mode: DecodeMode) -> Result<
    Seq<WarningKind>,
    ErrorKind,
> {
    let inferred_kinds: Seq<WarningKind> = if inferred {
        seq![WarningKind::MetadataMismatch]
    } else {
        Seq::empty()
    };
    if payload.len() >= pixel_bytes + 4 {
        let crc_ok = le_u32_at(payload, pixel_bytes) == crc32_spec(payload.subrange(0, pixel_bytes));
        if !crc_ok && mode == DecodeMode::Strict {
            Err(ErrorKind::ChecksumMismatch)
        } else {
            Ok(inferred_kinds + (if crc_ok {
                Seq::<WarningKind>::empty()
            } else {
                seq![WarningKind::ChecksumMismatch]
            }) + (if payload.len() > pixel_bytes + 4 {
                seq![WarningKind::TrailingData]
            } else {
                Seq::<WarningKind>::empty()
            }))
        }
    } else {
        Ok(inferred_kinds + seq![WarningKind::MissingChecksum])
    }
}

/// Check the CRC-32 trailer after the pixel bytes of a PIXEL payload.
fn check_pixel_trailer(payload: &[u8], pixel_bytes: usize, inferred: bool, note: &str, mode: DecodeMode) -> (r: crate::Result<Vec<Warning>>)
    requires
        pixel_bytes <= payload@.len(),
        pixel_bytes <= 0x1000_0000,
    ensures
        match r {
            Ok(w) => pixel_trailer_spec(payload@, pixel_bytes as int, inferred, mode) == Ok::<Seq<WarningKind>, ErrorKind>(
                warning_kinds(w@),
            ) && (inferred ==> w@.len() >= 1 && w@[0].message_spec() == note@),
            Err(e) => pixel_trailer_spec(payload@, pixel_bytes as int, inferred, mode) == Err::<Seq<WarningKind>, ErrorKind>(
                e.kind_spec(),
            ),
        },
{
    let len = payload.len();
    let mut warnings: Vec<Warning> = Vec::new();
    if inferred {
        warnings.push(Warning::new(WarningKind::MetadataMismatch, note));
    }
    let ghost first = warning_kinds(warnings@);
    proof {
        assert(first =~= if inferred {
            seq![WarningKind::MetadataMismatch]
        } else {
            Seq::<WarningKind>::empty()
        });
    }
    if len >= 4 && pixel_bytes <= len - 4 {
        let stored = read_le_u32(payload, pixel_bytes);
        let calculated = crc32(&payload[0..pixel_bytes]);
        if stored != calculated {
            if mode == DecodeMode::Strict {
                return Err(Error::new(ErrorKind::ChecksumMismatch, "PIXEL CRC-32 mismatch").at_offset(4 + pixel_bytes));
            }
            warnings.push(Warning::new(WarningKind::ChecksumMismatch, "PIXEL CRC-32 mismatch").at_offset(4 + pixel_bytes));
        }
        if len > pixel_bytes + 4 {
            warnings.push(Warning::new(WarningKind::TrailingData, "ignored bytes after the PIXEL CRC-32").at_offset(4 + pixel_bytes + 4));
        }
        proof {
            assert(warning_kinds(warnings@) =~= first + (if stored == calculated {
                Seq::<WarningKind>::empty()
            } else {
                seq![WarningKind::ChecksumMismatch]
            }) + (if len > pixel_bytes + 4 {
                seq![WarningKind::TrailingData]
            } else {
                Seq::<WarningKind>::empty()
            }));
        }
    } else {
        warnings.push(Warning::new(WarningKind::MissingChecksum, "PIXEL resource has no CRC-32 trailer").at_offset(4 + pixel_bytes));
        proof {
            assert(warning_kinds(warnings@) =~= first + seq![WarningKind::MissingChecksum]);
        }
    }
    Ok(warnings)
}

/// The bit depth an eZIP stream declares for a storage format.
pub open spec fn storage_bit_depth_of(storage: StorageFormat) -> u8 {
    match storage {
        StorageFormat::Rgb565 => 16,
        StorageFormat::Argb565 => 24,
        StorageFormat::Rgb888 | StorageFormat::Argb888 => 8,
    }
}

/// Whether the outer resource format agrees with the stream's storage format.
pub open spec fn outer_matches(format: ResourceFormat, storage: StorageFormat) -> bool {
    if format == ResourceFormat::Ezip {
        storage != StorageFormat::Argb565
    } else {
        storage == StorageFormat::Argb565
    }
}

/// Whether a control byte names a stream layout this decoder knows: standard
/// DEFLATE, shared Huffman tables, or an animation.
pub open spec fn known_representation(control: u8) -> bool {
    let representation = control / 16;
    representation == 1 || representation == 4 || representation == 5
}

/// The checks on the stream header of an eZIP resource: the stream header,
/// its storage format and the warning kinds recorded, or the error kind.
pub open(crate) spec fn ezip_prelude_spec(payload: Seq<u8>, outer: ResourceHeader, mode: DecodeMode) -> Result<
    (StreamHeader, StorageFormat, Seq<WarningKind>),
    ErrorKind,
> {
    match parse_stream_header_spec(payload) {
        Err(kind) => Err(kind),
        Ok(sh) => {
            let dims_ok = sh.width_spec() == outer.width_spec() && sh.height_spec() == outer.height_spec();
            let known = known_representation(sh.control_spec());
            if sh.palette_count_spec() != 0 {
                Err(ErrorKind::UnsupportedFormat)
            } else if !known && mode == DecodeMode::Strict {
                Err(ErrorKind::UnsupportedFormat)
            } else if !dims_ok && mode == DecodeMode::Strict {
                Err(ErrorKind::InvalidDimensions)
            } else {
                match control_storage(sh.control_spec()) {
                    None => Err(ErrorKind::UnsupportedFormat),
                    Some(storage) => {
                        let format_ok = outer_matches(outer.format_spec(), storage);
                        let depth_ok = sh.bit_depth_spec() == storage_bit_depth_of(storage);
                        if !format_ok && mode == DecodeMode::Strict {
                            Err(ErrorKind::InvalidPixelLayout)
                        } else if !depth_ok && mode == DecodeMode::Strict {
                            Err(ErrorKind::InvalidPixelLayout)
                        } else {
                            let mismatch = seq![WarningKind::MetadataMismatch];
                            Ok((
                                sh,
                                storage,
                                (if known {
                                    Seq::empty()
                                } else {
                                    mismatch
                                }) + (if dims_ok {
                                    Seq::empty()
                                } else {
                                    mismatch
                                }) + (if format_ok {
                                    Seq::empty()
                                } else {
                                    mismatch
                                }) + (if depth_ok {
                                    Seq::empty()
                                } else {
                                    mismatch
                                }),
                            ))
                        }
                    },
                }
            }
        },
    }
}

/// Whether `data` is an eZIP resource whose stream header names a layout
/// this decoder does not know.
pub open(crate) spec fn names_unknown_representation(data: Seq<u8>) -> bool {
    match parse_header_spec(data) {
        Err(_) => false,
        Ok(header) => format_kind(header.format_spec()) != ResourceKind::Pixel && match parse_stream_header_spec(
            data.subrange(4, data.len() as int),
        ) {
            Err(_) => false,
            Ok(sh) => !known_representation(sh.control_spec()),
        },
    }
}

/// The index of the frame at which decoding the animation in an eZIP payload
/// fails, where its stream and container headers were accepted and the
/// failing frame's data ends at an addressable offset.
pub open(crate) spec fn failing_animation_frame(payload: Seq<u8>, header: ResourceHeader, options: DecodeOptions) -> Option<int> {
    let mode = options.mode_spec();
    let limits = options.limits_spec();
    match ezip_prelude_spec(payload, header, mode) {
        Err(_) => None,
        Ok((sh, storage, _)) => if sh.is_animation_spec() {
            match animation_prelude_spec(payload, sh, mode, limits) {
                Err(_) => None,
                Ok((offsets, _, _)) => {
                    let i = failing_frame(payload, sh, storage, mode, limits, offsets, 0, 0);
                    if 0 <= i < offsets.len() && !frame_size_overflows(payload, offsets[i] as int) {
                        Some(i)
                    } else {
                        None
                    }
                },
            }
        } else {
            None
        },
    }
}

/// The index of the animation frame at which opening `data` fails, as
/// `failing_animation_frame` gives it for a resource within the dimension
/// limits.
pub open(crate) spec fn failing_resource_frame(data: Seq<u8>, options: DecodeOptions) -> Option<int> {
    match parse_header_spec(data) {
        Err(_) => None,
        Ok(header) => if header.width_spec() > options.limits_spec().width_limit_spec() || header.height_spec()
            > options.limits_spec().height_limit_spec() || format_kind(header.format_spec()) == ResourceKind::Pixel {
            None
        } else {
            failing_animation_frame(data.subrange(4, data.len() as int), header, options)
        },
    }
}

/// The metadata of a decoded resource.
pub open(crate) spec fn resource_info(
    kind: ResourceKind,
    format: ResourceFormat,
    storage_format: StorageFormat,
    width: u32,
    height: u32,
    frame_count: usize,
) -> ResourceInfo {
    ResourceInfo { kind, format, storage_format, width, height, frame_count }
}

/// Whether opening the eZIP payload of a resource may yield this metadata,
/// these stored frames, this repetition and these warning kinds.
pub open(crate) spec fn ezip_accepts(
    payload: Seq<u8>,
    header: ResourceHeader,
    options: DecodeOptions,
    info: ResourceInfo,
    frames: Seq<(FrameInfo, Seq<u8>)>,
    repeat: Option<Repeat>,
    warnings: Seq<WarningKind>,
) -> bool {
    ezip_prelude_spec(payload, header, options.mode_spec()) matches Ok((sh, storage, kinds)) && if sh.is_animation_spec() {
        animation_accepts(payload, header, options, sh, storage, kinds, info, frames, repeat, warnings)
    } else {
        static_ezip_accepts(payload, header, options, sh, storage, kinds, info, frames, repeat, warnings)
    }
}

/// Whether decoding the animation in an eZIP payload may yield this
/// metadata, these frames, this repetition and these warning kinds.
pub open(crate) spec fn animation_accepts(
    payload: Seq<u8>,
    header: ResourceHeader,
    options: DecodeOptions,
    sh: StreamHeader,
    storage: StorageFormat,
    kinds: Seq<WarningKind>,
    info: ResourceInfo,
    frames: Seq<(FrameInfo, Seq<u8>)>,
    repeat: Option<Repeat>,
    warnings: Seq<WarningKind>,
) -> bool {
    let limits = options.limits_spec();
    animation_prelude_spec(payload, sh, options.mode_spec(), limits) matches Ok((offsets, play_count, container_kinds))
        && info == resource_info(
        ResourceKind::Animation,
        header.format_spec(),
        storage,
        header.width_spec() as u32,
        header.height_spec() as u32,
        offsets.len() as usize,
    ) && frames.len() == offsets.len() && repeat == Some(repeat_from_play_count(play_count)) && (forall|i: int|
        0 <= i < offsets.len() ==> #[trigger] frame_decoded(
            payload,
            sh,
            storage,
            limits,
            offsets[i] as int,
            frames[i],
            frames_total(frames, i),
        )) && (animation_frames(payload, sh, storage, options.mode_spec(), limits, offsets) matches Ok((decoded, frame_kinds))
        && decoded == frames && warnings == kinds + container_kinds + frame_kinds)
}

/// Whether decoding the still image in an eZIP payload may yield this
/// metadata, this frame and these warning kinds.
pub open(crate) spec fn static_ezip_accepts(
    payload: Seq<u8>,
    header: ResourceHeader,
    options: DecodeOptions,
    sh: StreamHeader,
    storage: StorageFormat,
    kinds: Seq<WarningKind>,
    info: ResourceInfo,
    frames: Seq<(FrameInfo, Seq<u8>)>,
    repeat: Option<Repeat>,
    warnings: Seq<WarningKind>,
) -> bool {
    let width = header.width_spec() as u32;
    let height = header.height_spec() as u32;
    let limits = options.limits_spec();
    let mode = options.mode_spec();
    height * (width * storage_bpp(storage)) <= limits.decoded_byte_limit_spec()
        && info == resource_info(ResourceKind::Ezip, header.format_spec(), storage, width, height, 1) && repeat is None
        && frames.len() == 1 && frames[0].0 == still_info(width, height) && exists|
        bytes: Seq<u8>,
        rows: u8,
        inflate_kinds: Seq<WarningKind>,
        filter_kinds: Seq<WarningKind>,
    |
        #![trigger inflate_accepts(payload, sh, limits.decoded_byte_limit_spec(), mode, bytes, rows, inflate_kinds), kinds + inflate_kinds + filter_kinds]
        inflate_accepts(payload, sh, limits.decoded_byte_limit_spec(), mode, bytes, rows, inflate_kinds) && unfilter_accepts(
            bytes,
            width,
            height,
            storage_bpp(storage) as usize,
            rows,
            sh.has_row_filters_spec(),
            mode,
            frames[0].1,
            filter_kinds,
        ) && warnings == kinds + inflate_kinds + filter_kinds
}

proof fn lemma_static_ezip_accepts(
    payload: Seq<u8>,
    header: ResourceHeader,
    options: DecodeOptions,
    sh: StreamHeader,
    storage: StorageFormat,
    kinds: Seq<WarningKind>,
    info: ResourceInfo,
    frames: Seq<(FrameInfo, Seq<u8>)>,
    warnings: Seq<WarningKind>,
    bytes: Seq<u8>,
    rows: u8,
    inflate_kinds: Seq<WarningKind>,
    filter_kinds: Seq<WarningKind>,
)
    requires
        info == resource_info(ResourceKind::Ezip, header.format_spec(), storage, header.width_spec() as u32, header.height_spec() as u32, 1),
        (header.height_spec() as u32) * ((header.width_spec() as u32) * storage_bpp(storage)) <= options.limits_spec().decoded_byte_limit_spec(),
        frames.len() == 1,
        frames[0].0 == still_info(header.width_spec() as u32, header.height_spec() as u32),
        inflate_accepts(payload, sh, options.limits_spec().decoded_byte_limit_spec(), options.mode_spec(), bytes, rows, inflate_kinds),
        unfilter_accepts(
            bytes,
            header.width_spec() as u32,
            header.height_spec() as u32,
            storage_bpp(storage) as usize,
            rows,
            sh.has_row_filters_spec(),
            options.mode_spec(),
            frames[0].1,
            filter_kinds,
        ),
        warnings == kinds + inflate_kinds + filter_kinds,
    ensures
        static_ezip_accepts(payload, header, options, sh, storage, kinds, info, frames, None, warnings),
{
}

/// Whether opening the eZIP payload of a resource may fail with `kind`.
pub open(crate) spec fn ezip_rejects(payload: Seq<u8>, header: ResourceHeader, options: DecodeOptions, kind: ErrorKind) -> bool {
    let width = header.width_spec() as u32;
    let height = header.height_spec() as u32;
    let limits = options.limits_spec();
    let mode = options.mode_spec();
    match ezip_prelude_spec(payload, header, mode) {
        Err(k) => kind == k,
        Ok((sh, storage, _)) => if sh.is_animation_spec() {
            match animation_prelude_spec(payload, sh, mode, limits) {
                Err(k) => kind == k,
                Ok((offsets, _, _)) => animation_frames(payload, sh, storage, mode, limits, offsets) == Err::<
                    (Seq<(FrameInfo, Seq<u8>)>, Seq<WarningKind>),
                    ErrorKind,
                >(kind),
            }
        } else {
            inflate_rejects(payload, sh, limits.decoded_byte_limit_spec(), mode, kind) || exists|
                bytes: Seq<u8>,
                rows: u8,
                inflate_kinds: Seq<WarningKind>,
            |
                inflate_accepts(payload, sh, limits.decoded_byte_limit_spec(), mode, bytes, rows, inflate_kinds) && if height
                    * (width * storage_bpp(storage)) > limits.decoded_byte_limit_spec() {
                    kind == ErrorKind::LimitExceeded
                } else {
                    unfilter_rejects(
                        bytes,
                        width,
                        height,
                        storage_bpp(storage) as usize,
                        rows,
                        sh.has_row_filters_spec(),
                        mode,
                        kind,
                    )
                }
        },
    }
}

/// Whether opening `data` may yield a decoder with this metadata, these
/// stored frames (metadata and pixel bytes in the storage layout), this
/// repetition and these warning kinds.
pub open(crate) spec fn open_accepts(
    data: Seq<u8>,
    options: DecodeOptions,
    info: ResourceInfo,
    frames: Seq<(FrameInfo, Seq<u8>)>,
    repeat: Option<Repeat>,
    warnings: Seq<WarningKind>,
) -> bool {
    match parse_header_spec(data) {
        Err(_) => false,
        Ok(header) => {
            let width = header.width_spec() as u32;
            let height = header.height_spec() as u32;
            let payload = data.subrange(4, data.len() as int);
            let limits = options.limits_spec();
            let mode = options.mode_spec();
            &&& width <= limits.width_limit_spec() && height <= limits.height_limit_spec()
            &&& info.format == header.format_spec() && info.width == width && info.height == height
            &&& if format_kind(header.format_spec()) == ResourceKind::Pixel {
                pixel_open_spec(payload, width, height, header.format_spec() == ResourceFormat::PixelWithAlpha, options) matches Ok((storage, pixel_bytes, kinds))
                    && info == resource_info(ResourceKind::Pixel, header.format_spec(), storage, width, height, 1)
                    && frames == seq![(still_info(width, height), payload.subrange(0, pixel_bytes))] && repeat is None
                    && warnings == kinds
            } else {
                ezip_accepts(payload, header, options, info, frames, repeat, warnings)
            }
        },
    }
}

/// Whether opening `data` may fail with `kind`.
pub open(crate) spec fn open_rejects(data: Seq<u8>, options: DecodeOptions, kind: ErrorKind) -> bool {
    match parse_header_spec(data) {
        Err(k) => kind == k,
        Ok(header) => {
            let width = header.width_spec() as u32;
            let height = header.height_spec() as u32;
            let payload = data.subrange(4, data.len() as int);
            let limits = options.limits_spec();
            let mode = options.mode_spec();
            if width > limits.width_limit_spec() || height > limits.height_limit_spec() {
                kind == ErrorKind::LimitExceeded
            } else if format_kind(header.format_spec()) == ResourceKind::Pixel {
                pixel_open_spec(payload, width, height, header.format_spec() == ResourceFormat::PixelWithAlpha, options)
                    == Err::<(StorageFormat, int, Seq<WarningKind>), ErrorKind>(kind)
            } else {
                ezip_rejects(payload, header, options, kind)
            }
        },
    }
}

/// The stored frame rectangle is not empty, lies within the largest canvas
/// a stream header can give, and its pixel bytes fill it exactly in the
/// storage layout.
pub open(crate) spec fn frame_fits(frame: (FrameInfo, Seq<u8>), storage: StorageFormat) -> bool {
    let info = frame.0;
    &&& 1 <= info.width <= 0xffff && 1 <= info.height <= 0xffff
    &&& frame.1.len() == info.height * (info.width * storage_bpp(storage))
}

/// What a resource holds after its header and framing were checked.
#[derive(Debug)]
pub(crate) enum Payload<'a> {
    Pixel(&'a [u8]),
    Ezip(Vec<u8>),
    Animation(AnimationData),
}

/// Parsed image resource borrowing its encoded bytes.
#[derive(Debug)]
pub struct Decoder<'a> {
    pub(crate) info: ResourceInfo,
    pub(crate) payload: Payload<'a>,
    pub(crate) options: DecodeOptions,
    pub(crate) warnings: Vec<Warning>,
}

impl<'a> Decoder<'a> {
    pub open(crate) spec fn info_spec(&self) -> ResourceInfo {
        self.info
    }

    pub open(crate) spec fn options_spec(&self) -> DecodeOptions {
        self.options
    }

    pub open(crate) spec fn warnings_spec(&self) -> Seq<Warning> {
        self.warnings@
    }

    /// Each stored frame's metadata and pixel bytes in the storage layout.
    pub open(crate) spec fn frames_spec(&self) -> Seq<(FrameInfo, Seq<u8>)> {
        match self.payload {
            Payload::Pixel(pixels) => seq![(still_info(self.info.width, self.info.height), pixels@)],
            Payload::Ezip(pixels) => seq![(still_info(self.info.width, self.info.height), pixels@)],
            Payload::Animation(animation) => frame_views(animation.frames@),
        }
    }

    pub open(crate) spec fn repeat_spec(&self) -> Option<Repeat> {
        match self.payload {
            Payload::Animation(animation) => Some(animation.repeat),
            _ => None,
        }
    }

    /// The frames fill the frame count and fit the canvas.
    #[verifier::type_invariant]
    pub(crate) open spec fn wf(&self) -> bool {
        let frames = self.frames_spec();
        &&& frames.len() == self.info.frame_count
        &&& 1 <= frames.len()
        &&& 1 <= self.info.width <= 2047
        &&& 1 <= self.info.height <= 2047
        &&& forall|i: int|
            0 <= i < frames.len() ==> #[trigger] frame_fits(frames[i], self.info.storage_format)
    }

    pub fn new(data: &'a [u8]) -> (r: crate::Result<Self>)
        ensures
            match r {
                Ok(d) => open_accepts(
                    data@,
                    DecodeOptions::default_spec(),
                    d.info_spec(),
                    d.frames_spec(),
                    d.repeat_spec(),
                    warning_kinds(d.warnings_spec()),
                ) && d.options_spec() == DecodeOptions::default_spec(),
                Err(e) => open_rejects(data@, DecodeOptions::default_spec(), e.kind_spec()),
            },
    {
        Self::with_options(data, DecodeOptions::default())
    }

    #[verifier::rlimit(20)]
    pub fn with_options(data: &'a [u8], options: DecodeOptions) -> (r: crate::Result<Self>)
        ensures
            match r {
                Ok(d) => open_accepts(data@, options, d.info_spec(), d.frames_spec(), d.repeat_spec(), warning_kinds(d.warnings_spec()))
                    && d.options_spec() == options && (opens_ambiguous_pixels(data@, options) ==> d.warnings_spec().len() >= 1
                    && d.warnings_spec()[0].message_spec()
                    == "ambiguous PIXEL layout: the CRC-32 trailer does not match, so the payload is read as larger pixels without one"@)
                    && (names_unknown_representation(data@) ==> d.warnings_spec().len() >= 1 && d.warnings_spec()[0].message_spec()
                    == "unknown eZIP stream representation; attempting standard decoding"@),
                Err(e) => open_rejects(data@, options, e.kind_spec()) && (failing_resource_frame(data@, options) matches Some(i)
                    ==> e.frame_index_spec() == Some(i as usize)),
            },
    {
        let header = ResourceHeader::parse(data)?;
        proof {
            use_type_invariant(&header);
        }
        let width = header.width() as u32;
        let height = header.height() as u32;
        if width > options.limits.max_width || height > options.limits.max_height {
            return Err(Error::new(ErrorKind::LimitExceeded, "resource dimensions exceed configured limits"));
        }
        if header.format().kind() == ResourceKind::Pixel {
            Self::open_pixel(data, header, options)
        } else {
            Self::open_ezip(data, header, options)
        }
    }

    #[verifier::spinoff_prover]
    #[verifier::rlimit(40)]
    fn open_pixel(data: &'a [u8], header: ResourceHeader, options: DecodeOptions) -> (r: crate::Result<Self>)
        requires
            parse_header_spec(data@) == Ok::<ResourceHeader, ErrorKind>(header),
            header.width_spec() <= options.limits_spec().width_limit_spec(),
            header.height_spec() <= options.limits_spec().height_limit_spec(),
            format_kind(header.format_spec()) == ResourceKind::Pixel,
        ensures
            ({
                let width = header.width_spec() as u32;
                let height = header.height_spec() as u32;
                let payload = data@.subrange(4, data@.len() as int);
                let has_alpha = header.format_spec() == ResourceFormat::PixelWithAlpha;
                match r {
                    Ok(d) => pixel_open_spec(payload, width, height, has_alpha, options) matches Ok((storage, pixel_bytes, kinds))
                        && d.info_spec() == resource_info(ResourceKind::Pixel, header.format_spec(), storage, width, height, 1)
                        && d.frames_spec() == seq![(still_info(width, height), payload.subrange(0, pixel_bytes))]
                        && d.repeat_spec() is None && warning_kinds(d.warnings_spec()) == kinds && d.options_spec() == options
                        && (opens_ambiguous_pixels(data@, options) ==> d.warnings_spec().len() >= 1
                        && d.warnings_spec()[0].message_spec() == "ambiguous PIXEL layout: the CRC-32 trailer does not match, so the payload is read as larger pixels without one"@),
                    Err(e) => pixel_open_spec(payload, width, height, has_alpha, options) == Err::<(StorageFormat, int, Seq<WarningKind>), ErrorKind>(e.kind_spec()),
                }
            }),
    {
        proof {
            use_type_invariant(&header);
        }
        let width = header.width() as u32;
        let height = header.height() as u32;
        assert(width * height <= 2047 * 2047) by (nonlinear_arith)
            requires
                width <= 2047,
                height <= 2047,
        ;
        let pixel_count = width as usize * height as usize;
        let payload = &data[4..data.len()];
        let has_alpha = header.format() == ResourceFormat::PixelWithAlpha;
        let len = payload.len();
        let (exact_bpp, exact_bytes, exact_inferred) = match select_pixel_layout(len, pixel_count, has_alpha, options.mode) {
            Some(layout) => layout,
            None => {
                return Err(Error::new(ErrorKind::InvalidPixelLayout, "PIXEL payload bytes do not match the pixels and a CRC-32 trailer"));
            },
        };
        let small: usize = if has_alpha {
            3
        } else {
            2
        };
        let large_bytes = if has_alpha {
            pixel_count * 4
        } else {
            pixel_count * 3
        };
        let mut ambiguous = false;
        if !exact_inferred && options.mode == DecodeMode::Diagnostic && exact_bpp == small && large_bytes == len {
            let stored = read_le_u32(payload, exact_bytes);
            let calculated = crc32(&payload[0..exact_bytes]);
            ambiguous = stored != calculated;
        }
        proof {
            assert(ambiguous == pixel_layout_ambiguous(
                payload@,
                pixel_count as int,
                has_alpha,
                options.mode,
                exact_bpp as int,
                exact_bytes as int,
                exact_inferred,
            ));
        }
        let bpp = if ambiguous {
            exact_bpp + 1
        } else {
            exact_bpp
        };
        let pixel_bytes = if ambiguous {
            len
        } else {
            exact_bytes
        };
        let inferred = ambiguous || exact_inferred;
        let note = if ambiguous {
            "ambiguous PIXEL layout: the CRC-32 trailer does not match, so the payload is read as larger pixels without one"
        } else {
            "inferred the storage format from a noncanonical PIXEL payload"
        };
        if pixel_bytes > options.limits.max_decoded_bytes {
            return Err(Error::new(ErrorKind::LimitExceeded, "PIXEL data exceeds configured decoded-byte limit"));
        }
        let storage = match StorageFormat::from_alpha_and_bpp(has_alpha, bpp) {
            Ok(s) => s,
            Err(e) => {
                proof {
                    let s = pixel_storage(has_alpha, bpp as int);
                    assert(storage_has_alpha(s) == has_alpha && storage_bpp(s) == bpp);
                }
                return Err(e);
            },
        };
        let warnings = check_pixel_trailer(payload, pixel_bytes, inferred, note, options.mode)?;
        let pixels = &payload[0..pixel_bytes];
        proof {
            assert(pixel_bytes == height * (width * bpp)) by (nonlinear_arith)
                requires
                    pixel_bytes == pixel_count * bpp,
                    pixel_count == width * height,
            ;
        }
        let info = ResourceInfo {
            kind: ResourceKind::Pixel,
            format: header.format(),
            storage_format: storage,
            width,
            height,
            frame_count: 1,
        };
        Ok(Decoder { info, payload: Payload::Pixel(pixels), options, warnings })
    }

    fn open_ezip(data: &'a [u8], header: ResourceHeader, options: DecodeOptions) -> (r: crate::Result<Self>)
        requires
            parse_header_spec(data@) == Ok::<ResourceHeader, ErrorKind>(header),
            header.width_spec() <= options.limits_spec().width_limit_spec(),
            header.height_spec() <= options.limits_spec().height_limit_spec(),
            format_kind(header.format_spec()) == ResourceKind::Ezip,
        ensures
            match r {
                Ok(d) => ezip_accepts(
                    data@.subrange(4, data@.len() as int),
                    header,
                    options,
                    d.info_spec(),
                    d.frames_spec(),
                    d.repeat_spec(),
                    warning_kinds(d.warnings_spec()),
                ) && d.options_spec() == options && (names_unknown_representation(data@) ==> d.warnings_spec().len() >= 1
                    && d.warnings_spec()[0].message_spec() == "unknown eZIP stream representation; attempting standard decoding"@),
                Err(e) => ezip_rejects(data@.subrange(4, data@.len() as int), header, options, e.kind_spec()) && (failing_animation_frame(
                    data@.subrange(4, data@.len() as int),
                    header,
                    options,
                ) matches Some(i) ==> e.frame_index_spec() == Some(i as usize)),
            },
    {
        let payload = &data[4..data.len()];
        let (stream_header, storage, warnings) = check_stream_header(payload, header, options.mode)?;
        if stream_header.is_animation() {
            Self::open_animation(payload, header, options, stream_header, storage, warnings)
        } else {
            Self::open_static_ezip(payload, header, options, stream_header, storage, warnings)
        }
    }

    #[verifier::spinoff_prover]
    fn open_animation(
        payload: &'a [u8],
        header: ResourceHeader,
        options: DecodeOptions,
        stream_header: StreamHeader,
        storage: StorageFormat,
        warnings: Vec<Warning>,
    ) -> (r: crate::Result<Self>)
        requires
            ezip_prelude_spec(payload@, header, options.mode_spec()) == Ok::<(StreamHeader, StorageFormat, Seq<WarningKind>), ErrorKind>((
                stream_header,
                storage,
                warning_kinds(warnings@),
            )),
            stream_header.is_animation_spec(),
        ensures
            match r {
                Ok(d) => ezip_accepts(
                    payload@,
                    header,
                    options,
                    d.info_spec(),
                    d.frames_spec(),
                    d.repeat_spec(),
                    warning_kinds(d.warnings_spec()),
                ) && d.options_spec() == options && keeps_prefix(warnings@, d.warnings_spec()),
                Err(e) => ezip_rejects(payload@, header, options, e.kind_spec()) && (failing_animation_frame(payload@, header, options) matches Some(
                    i,
                ) ==> e.frame_index_spec() == Some(i as usize)),
            },
    {
        proof {
            use_type_invariant(&header);
        }
        let mut warnings = warnings;
        let ghost prelude = warning_kinds(warnings@);
        let width = header.width() as u32;
        let height = header.height() as u32;
        let animation = parse_animation(payload, stream_header, storage, options.mode, options.limits, &mut warnings)?;
        let frame_count = animation.frames.len();
        let info = ResourceInfo { kind: ResourceKind::Animation, format: header.format(), storage_format: storage, width, height, frame_count };
        let ghost frames = frame_views(animation.frames@);
        proof {
            let offsets = animation_prelude_spec(payload@, stream_header, options.mode, options.limits)->Ok_0.0;
            assert forall|i: int| 0 <= i < frames.len() implies #[trigger] frame_fits(frames[i], storage) by {
                assert(frame_decoded(payload@, stream_header, storage, options.limits, offsets[i] as int, frames[i], frames_total(frames, i)));
            }
            let container_kinds = animation_prelude_spec(payload@, stream_header, options.mode, options.limits)->Ok_0.2;
            let frame_kinds = choose|added: Seq<WarningKind>|
                warning_kinds(warnings@) == prelude + container_kinds + added;
            assert(warning_kinds(warnings@) == prelude + container_kinds + frame_kinds);
        }
        let decoder = Decoder { info, payload: Payload::Animation(animation), options, warnings };
        proof {
            assert(animation_accepts(
                payload@,
                header,
                options,
                stream_header,
                storage,
                prelude,
                decoder.info_spec(),
                decoder.frames_spec(),
                decoder.repeat_spec(),
                warning_kinds(decoder.warnings_spec()),
            ));
        }
        Ok(decoder)
    }

    #[verifier::spinoff_prover]
    fn open_static_ezip(
        payload: &'a [u8],
        header: ResourceHeader,
        options: DecodeOptions,
        stream_header: StreamHeader,
        storage: StorageFormat,
        warnings: Vec<Warning>,
    ) -> (r: crate::Result<Self>)
        requires
            ezip_prelude_spec(payload@, header, options.mode_spec()) == Ok::<(StreamHeader, StorageFormat, Seq<WarningKind>), ErrorKind>((
                stream_header,
                storage,
                warning_kinds(warnings@),
            )),
            !stream_header.is_animation_spec(),
        ensures
            match r {
                Ok(d) => ezip_accepts(
                    payload@,
                    header,
                    options,
                    d.info_spec(),
                    d.frames_spec(),
                    d.repeat_spec(),
                    warning_kinds(d.warnings_spec()),
                ) && d.options_spec() == options && keeps_prefix(warnings@, d.warnings_spec()),
                Err(e) => ezip_rejects(payload@, header, options, e.kind_spec()) && (failing_animation_frame(payload@, header, options) matches Some(
                    i,
                ) ==> e.frame_index_spec() == Some(i as usize)),
            },
    {
        proof {
            use_type_invariant(&header);
        }
        let mut warnings = warnings;
        let ghost prelude = warning_kinds(warnings@);
        let width = header.width() as u32;
        let height = header.height() as u32;
        let bytes_per_pixel = storage.bytes_per_pixel();
        assert(height * (width * bytes_per_pixel) <= 2047 * 2047 * 4 && width * bytes_per_pixel <= 2047 * 4) by (nonlinear_arith)
            requires
                width <= 2047,
                height <= 2047,
                bytes_per_pixel <= 4,
        ;
        let output_len = height as usize * (width as usize * bytes_per_pixel);
        let inflated = inflate_stream(payload, stream_header, options.limits.max_decoded_bytes, options.mode, &mut warnings)?;
        let ghost after_inflate = warning_kinds(warnings@);
        let ghost inflate_kinds = choose|added: Seq<WarningKind>|
            inflate_accepts(payload@, stream_header, options.limits.max_decoded_bytes, options.mode, inflated.bytes@, inflated.block_rows, added)
                && after_inflate == prelude + added;
        if output_len > options.limits.max_decoded_bytes {
            proof {
                assert(inflate_accepts(payload@, stream_header, options.limits.max_decoded_bytes, options.mode, inflated.bytes@, inflated.block_rows, inflate_kinds));
            }
            return Err(Error::new(ErrorKind::LimitExceeded, "decoded image exceeds configured decoded-byte limit"));
        }
        let decoded = match unfilter(
            inflated.bytes.as_slice(),
            width,
            height,
            bytes_per_pixel,
            inflated.block_rows,
            stream_header.has_row_filters(),
            options.mode,
        ) {
            Ok(d) => d,
            Err(e) => {
                return Err(e);
            },
        };
        let mut decoded_warnings = decoded.warnings;
        let ghost filter_kinds = warning_kinds(decoded_warnings@);
        warnings.append(&mut decoded_warnings);
        proof {
            assert(warning_kinds(warnings@) =~= prelude + inflate_kinds + filter_kinds);
        }
        let info = ResourceInfo { kind: ResourceKind::Ezip, format: header.format(), storage_format: storage, width, height, frame_count: 1 };
        let pixels = decoded.pixels;
        proof {
            assert(inflate_accepts(payload@, stream_header, options.limits.max_decoded_bytes, options.mode, inflated.bytes@, inflated.block_rows, inflate_kinds));
            assert(unfilter_accepts(
                inflated.bytes@,
                width,
                height,
                storage_bpp(storage) as usize,
                inflated.block_rows,
                stream_header.has_row_filters_spec(),
                options.mode,
                pixels@,
                filter_kinds,
            ));
        }
        let decoder = Decoder { info, payload: Payload::Ezip(pixels), options, warnings };
        proof {
            assert(decoder.frames_spec()[0].1 == pixels@);
            assert(unfilter_accepts(
                inflated.bytes@,
                width,
                height,
                storage_bpp(storage) as usize,
                inflated.block_rows,
                stream_header.has_row_filters_spec(),
                options.mode,
                decoder.frames_spec()[0].1,
                filter_kinds,
            ));
            assert(warning_kinds(decoder.warnings_spec()) == prelude + inflate_kinds + filter_kinds);
            lemma_static_ezip_accepts(
                payload@,
                header,
                options,
                stream_header,
                storage,
                prelude,
                decoder.info_spec(),
                decoder.frames_spec(),
                warning_kinds(decoder.warnings_spec()),
                inflated.bytes@,
                inflated.block_rows,
                inflate_kinds,
                filter_kinds,
            );
            assert(static_ezip_accepts(
                payload@,
                header,
                options,
                stream_header,
                storage,
                prelude,
                decoder.info_spec(),
                decoder.frames_spec(),
                decoder.repeat_spec(),
                warning_kinds(decoder.warnings_spec()),
            ));
        }
        Ok(decoder)
    }
}

/// Check the stream header of an eZIP resource against its outer header.
fn check_stream_header(payload: &[u8], header: ResourceHeader, mode: DecodeMode) -> (r: crate::Result<(StreamHeader, StorageFormat, Vec<Warning>)>)
    ensures
        match r {
            Ok((sh, storage, warnings)) => ezip_prelude_spec(payload@, header, mode) == Ok::<(StreamHeader, StorageFormat, Seq<WarningKind>), ErrorKind>((
                sh,
                storage,
                warning_kinds(warnings@),
            )) && (!known_representation(sh.control_spec()) ==> warnings@.len() >= 1
                && warnings@[0].message_spec() == "unknown eZIP stream representation; attempting standard decoding"@),
            Err(e) => ezip_prelude_spec(payload@, header, mode) == Err::<(StreamHeader, StorageFormat, Seq<WarningKind>), ErrorKind>(
                e.kind_spec(),
            ),
        },
{
    let strict = mode == DecodeMode::Strict;
    let stream_header = StreamHeader::parse(payload)?;
    if stream_header.palette_count() != 0 {
        return Err(Error::new(ErrorKind::UnsupportedFormat, "palette-backed eZIP resources are not supported"));
    }
    let mut warnings: Vec<Warning> = Vec::new();
    let representation = stream_header.control() / 16;
    let known = representation == 1 || representation == 4 || representation == 5;
    if !known {
        if strict {
            return Err(Error::new(ErrorKind::UnsupportedFormat, "unknown eZIP stream representation"));
        }
        warnings.push(Warning::new(WarningKind::MetadataMismatch, "unknown eZIP stream representation; attempting standard decoding"));
    }
    let ghost w0 = warning_kinds(warnings@);
    if stream_header.width() != header.width() || stream_header.height() != header.height() {
        if strict {
            return Err(Error::new(ErrorKind::InvalidDimensions, "resource dimensions differ from eZIP stream dimensions"));
        }
        warnings.push(Warning::new(WarningKind::MetadataMismatch, "resource dimensions differ from eZIP stream dimensions"));
    }
    let ghost w1 = warning_kinds(warnings@);
    let storage = stream_header.storage_format()?;
    let format_ok = if header.format() == ResourceFormat::Ezip {
        storage != StorageFormat::Argb565
    } else {
        storage == StorageFormat::Argb565
    };
    if !format_ok && strict {
        return Err(Error::new(ErrorKind::InvalidPixelLayout, "resource format does not match stream storage format"));
    }
    let expected_bit_depth: u8 = match storage {
        StorageFormat::Rgb565 => 16,
        StorageFormat::Argb565 => 24,
        StorageFormat::Rgb888 | StorageFormat::Argb888 => 8,
    };
    if !format_ok {
        warnings.push(Warning::new(WarningKind::MetadataMismatch, "resource format does not match stream storage format"));
    }
    let ghost w2 = warning_kinds(warnings@);
    if stream_header.bit_depth() != expected_bit_depth {
        if strict {
            return Err(Error::new(ErrorKind::InvalidPixelLayout, "eZIP bit depth does not match stream storage format"));
        }
        warnings.push(Warning::new(WarningKind::MetadataMismatch, "eZIP bit depth does not match stream storage format"));
    }
    proof {
        let mismatch = seq![WarningKind::MetadataMismatch];
        let dims_ok = stream_header.width_spec() == header.width_spec() && stream_header.height_spec() == header.height_spec();
        assert(w0 =~= if known {
            Seq::<WarningKind>::empty()
        } else {
            mismatch
        });
        assert(w1 =~= w0 + if dims_ok {
            Seq::<WarningKind>::empty()
        } else {
            mismatch
        });
        assert(w2 =~= w1 + if format_ok {
            Seq::<WarningKind>::empty()
        } else {
            mismatch
        });
        assert(warning_kinds(warnings@) =~= w2 + if stream_header.bit_depth_spec() == expected_bit_depth {
            Seq::<WarningKind>::empty()
        } else {
            mismatch
        });
    }
    Ok((stream_header, storage, warnings))
}

impl<'a> Decoder<'a> {
    pub fn info(&self) -> (r: &ResourceInfo)
        ensures
            *r == self.info_spec(),
    {
        &self.info
    }

    pub fn warnings(&self) -> (r: &[Warning])
        ensures
            r@ == self.warnings_spec(),
    {
        self.warnings.as_slice()
    }

    pub fn options(&self) -> (r: DecodeOptions)
        ensures
            r == self.options_spec(),
    {
        self.options
    }

    pub fn repeat(&self) -> (r: Option<Repeat>)
        ensures
            r == self.repeat_spec(),
    {
        match &self.payload {
            Payload::Animation(animation) => Some(animation.repeat),
            _ => None,
        }
    }

    /// The metadata of stored frame `index`.
    pub fn frame_info(&self, index: usize) -> (r: crate::Result<FrameInfo>)
        ensures
            match r {
                Ok(info) => index < self.frames_spec().len() && info == self.frames_spec()[index as int].0 && 1
                    <= info.width_spec() <= 0xffff && 1 <= info.height_spec() <= 0xffff,
                Err(e) => index >= self.frames_spec().len() && e.kind_spec() == ErrorKind::InvalidOffset
                    && e.frame_index_spec() == Some(index),
            },
    {
        proof {
            use_type_invariant(self);
            if (index as int) < self.frames_spec().len() {
                assert(frame_fits(self.frames_spec()[index as int], self.info.storage_format));
            }
        }
        match &self.payload {
            Payload::Animation(animation) => {
                if index < animation.frames.len() {
                    Ok(animation.frames[index].info)
                } else {
                    Err(Error::new(ErrorKind::InvalidOffset, "frame index is outside the animation").in_frame(index))
                }
            },
            _ => {
                if index == 0 {
                    Ok(FrameInfo::still(self.info.width, self.info.height))
                } else {
                    Err(Error::new(ErrorKind::InvalidOffset, "frame index is outside a one-frame resource").in_frame(index))
                }
            },
        }
    }

    /// The stored pixel bytes and size of frame `index`.
    fn frame_payload(&self, index: usize) -> (r: crate::Result<(&[u8], u32, u32)>)
        ensures
            match r {
                Ok((pixels, width, height)) => index < self.frames_spec().len() && pixels@ == self.frames_spec()[index as int].1
                    && width == self.frames_spec()[index as int].0.width_spec() && height == self.frames_spec()[index as int].0.height_spec(),
                Err(e) => index >= self.frames_spec().len() && e.kind_spec() == ErrorKind::InvalidOffset
                    && e.frame_index_spec() == Some(index),
            },
    {
        match &self.payload {
            Payload::Pixel(pixels) => {
                if index == 0 {
                    Ok((*pixels, self.info.width, self.info.height))
                } else {
                    Err(Error::new(ErrorKind::InvalidOffset, "frame index is outside a one-frame resource").in_frame(index))
                }
            },
            Payload::Ezip(pixels) => {
                if index == 0 {
                    Ok((pixels.as_slice(), self.info.width, self.info.height))
                } else {
                    Err(Error::new(ErrorKind::InvalidOffset, "frame index is outside a one-frame resource").in_frame(index))
                }
            },
            Payload::Animation(animation) => {
                if index < animation.frames.len() {
                    let frame = &animation.frames[index];
                    Ok((frame.pixels.as_slice(), frame.info.width, frame.info.height))
                } else {
                    Err(Error::new(ErrorKind::InvalidOffset, "frame index is outside the animation").in_frame(index))
                }
            },
        }
    }

    /// Decode stored frame `index` into a new tightly packed image.
    pub fn decode_frame(&self, index: usize, output: PixelFormat) -> (r: crate::Result<DecodedImage>)
        ensures
            match r {
                Ok(image) => index < self.frames_spec().len() && ({
                    let frame = self.frames_spec()[index as int];
                    &&& frame.0.width_spec() * frame.0.height_spec() * pixel_bpp(output)
                        <= self.options_spec().limits_spec().decoded_byte_limit_spec()
                    &&& image.width_spec() == frame.0.width_spec()
                    &&& image.height_spec() == frame.0.height_spec()
                    &&& image.format_spec() == output
                    &&& image.pixels_spec() == decoded_pixels(
                        frame.1,
                        self.info_spec().storage_format_spec(),
                        output,
                        (frame.0.width_spec() * frame.0.height_spec()) as nat,
                    )
                }),
                Err(e) => index >= self.frames_spec().len() && e.kind_spec() == ErrorKind::InvalidOffset || index
                    < self.frames_spec().len() && e.kind_spec() == ErrorKind::LimitExceeded
                    && self.frames_spec()[index as int].0.width_spec() * self.frames_spec()[index as int].0.height_spec()
                    * pixel_bpp(output) > self.options_spec().limits_spec().decoded_byte_limit_spec(),
            },
    {
        proof {
            use_type_invariant(self);
        }
        let (payload, width, height) = self.frame_payload(index)?;
        let len = payload.len();
        proof {
            assert(frame_fits(self.frames_spec()[index as int], self.info.storage_format));
            lemma_area_fits(width as int, height as int, storage_bpp(self.info.storage_format) as int, len as int);
        }
        let required = decoded_pixel_len(width, height, output)?;
        self.validate_output_size(required)?;
        let pixels = match decode_storage_pixels(payload, width, height, self.info.storage_format, output) {
            Ok(p) => p,
            Err(e) => {
                return Err(e);
            },
        };
        Ok(DecodedImage::new(width, height, output, pixels))
    }

    /// Decode stored frame `index` into a caller-owned tightly packed buffer.
    pub fn decode_frame_into(&self, index: usize, output: PixelFormat, destination: &mut [u8]) -> (r: crate::Result<usize>)
        ensures
            match r {
                Ok(n) => index < self.frames_spec().len() && ({
                    let frame = self.frames_spec()[index as int];
                    let count = frame.0.width_spec() * frame.0.height_spec();
                    &&& n == count * pixel_bpp(output)
                    &&& n <= old(destination)@.len()
                    &&& final(destination)@ == decoded_pixels(frame.1, self.info_spec().storage_format_spec(), output, count as nat)
                        + old(destination)@.subrange(n as int, old(destination)@.len() as int)
                }),
                Err(e) => final(destination)@ == old(destination)@ && (index >= self.frames_spec().len() && e.kind_spec()
                    == ErrorKind::InvalidOffset || index < self.frames_spec().len() && ({
                    let needed = self.frames_spec()[index as int].0.width_spec() * self.frames_spec()[index as int].0.height_spec()
                        * pixel_bpp(output);
                    ||| e.kind_spec() == ErrorKind::OutputBufferTooSmall && needed > old(destination)@.len()
                    ||| e.kind_spec() == ErrorKind::LimitExceeded && needed > usize::MAX
                })),
            },
    {
        proof {
            use_type_invariant(self);
        }
        let (payload, width, height) = self.frame_payload(index)?;
        let len = payload.len();
        proof {
            assert(frame_fits(self.frames_spec()[index as int], self.info.storage_format));
            lemma_area_fits(width as int, height as int, storage_bpp(self.info.storage_format) as int, len as int);
        }
        decode_storage_pixels_into(payload, width, height, self.info.storage_format, output, destination)
    }

    /// Bytes needed to decode stored frame `index` in `output` layout.
    pub fn frame_buffer_size(&self, index: usize, output: PixelFormat) -> (r: crate::Result<usize>)
        ensures
            match r {
                Ok(n) => index < self.frames_spec().len() && n == self.frames_spec()[index as int].0.width_spec()
                    * self.frames_spec()[index as int].0.height_spec() * pixel_bpp(output),
                Err(e) => index >= self.frames_spec().len() && e.kind_spec() == ErrorKind::InvalidOffset || index
                    < self.frames_spec().len() && e.kind_spec() == ErrorKind::LimitExceeded
                    && self.frames_spec()[index as int].0.width_spec() * self.frames_spec()[index as int].0.height_spec()
                    * pixel_bpp(output) > usize::MAX,
            },
    {
        proof {
            use_type_invariant(self);
        }
        let info = self.frame_info(index)?;
        decoded_pixel_len(info.width(), info.height(), output)
    }

    /// Fails when `len` decoded bytes would exceed the configured limit.
    pub(crate) fn validate_output_size(&self, len: usize) -> (r: crate::Result<()>)
        ensures
            r is Ok <==> len <= self.options_spec().limits_spec().decoded_byte_limit_spec(),
            r matches Err(e) ==> e.kind_spec() == ErrorKind::LimitExceeded,
    {
        if len > self.options.limits.max_decoded_bytes {
            return Err(Error::new(ErrorKind::LimitExceeded, "decoded output exceeds configured decoded-byte limit"));
        }
        Ok(())
    }
}

/// Pixel bytes that exist in memory bound the pixel count.
proof fn lemma_area_fits(width: int, height: int, bpp: int, len: int)
    requires
        width >= 0,
        height >= 0,
        2 <= bpp <= 4,
        len == height * (width * bpp),
        len <= usize::MAX,
    ensures
        width * height <= usize::MAX,
        width * height * bpp == len,
{
    assert(width * height * bpp == len) by (nonlinear_arith)
        requires
            len == height * (width * bpp),
    ;
    assert(width * height <= width * height * bpp) by (nonlinear_arith)
        requires
            width >= 0,
            height >= 0,
            bpp >= 2,
    ;
}

} // verus!
