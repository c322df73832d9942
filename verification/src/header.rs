use vstd::prelude::*;

use crate::bytes::{le_u32_at, le_u32_bytes};
use crate::error::{Error, ErrorKind};

verus! {

/// High-level resource payload kind.
#[derive(Clone, Copy, Debug, PartialEq, Eq, Structural)]
#[non_exhaustive]
pub enum ResourceKind {
    Ezip,
    Pixel,
    Animation,
}

/// Format identifier stored in the low five resource-header bits.
#[derive(Clone, Copy, Debug, PartialEq, Eq, Structural)]
#[non_exhaustive]
pub enum ResourceFormat {
    Ezip,
    EzipWithAlpha,
    Pixel,
    PixelWithAlpha,
}

/// The numeric identifier of a resource format.
pub open spec fn format_id(format: ResourceFormat) -> u8 {
    match format {
        ResourceFormat::Ezip => 1,
        ResourceFormat::EzipWithAlpha => 2,
        ResourceFormat::Pixel => 4,
        ResourceFormat::PixelWithAlpha => 5,
    }
}

/// The resource format with a given identifier, if there is one.
pub open spec fn format_from_id(id: u8) -> Option<ResourceFormat> {
    if id == 1 {
        Some(ResourceFormat::Ezip)
    } else if id == 2 {
        Some(ResourceFormat::EzipWithAlpha)
    } else if id == 4 {
        Some(ResourceFormat::Pixel)
    } else if id == 5 {
        Some(ResourceFormat::PixelWithAlpha)
    } else {
        None
    }
}

/// The payload kind a resource format identifies.
pub open spec fn format_kind(format: ResourceFormat) -> ResourceKind {
    match format {
        ResourceFormat::Ezip | ResourceFormat::EzipWithAlpha => ResourceKind::Ezip,
        ResourceFormat::Pixel | ResourceFormat::PixelWithAlpha => ResourceKind::Pixel,
    }
}

impl ResourceFormat {
    /// The eZIP format identifier used for ARGB565 storage (same as `EzipWithAlpha`).
    pub const EzipArgb565: ResourceFormat = ResourceFormat::EzipWithAlpha;

    pub fn from_id(id: u8) -> (r: crate::Result<Self>)
        ensures
            match r {
                Ok(f) => format_from_id(id) == Some(f),
                Err(e) => format_from_id(id) is None && e.kind_spec() == ErrorKind::UnsupportedFormat,
            },
    {
        match id {
            1 => Ok(ResourceFormat::Ezip),
            2 => Ok(ResourceFormat::EzipWithAlpha),
            4 => Ok(ResourceFormat::Pixel),
            5 => Ok(ResourceFormat::PixelWithAlpha),
            _ => Err(Error::new(ErrorKind::UnsupportedFormat, "unsupported resource format")),
        }
    }

    pub fn id(self) -> (id: u8)
        ensures
            id == format_id(self),
    {
        match self {
            ResourceFormat::Ezip => 1,
            ResourceFormat::EzipWithAlpha => 2,
            ResourceFormat::Pixel => 4,
            ResourceFormat::PixelWithAlpha => 5,
        }
    }

    pub fn kind(self) -> (k: ResourceKind)
        ensures
            k == format_kind(self),
    {
        match self {
            ResourceFormat::Ezip | ResourceFormat::EzipWithAlpha => ResourceKind::Ezip,
            ResourceFormat::Pixel | ResourceFormat::PixelWithAlpha => ResourceKind::Pixel,
        }
    }

    pub fn has_alpha(self) -> (b: bool)
        ensures
            b == (self == ResourceFormat::EzipWithAlpha || self == ResourceFormat::PixelWithAlpha),
    {
        match self {
            ResourceFormat::EzipWithAlpha | ResourceFormat::PixelWithAlpha => true,
            _ => false,
        }
    }
}

/// Largest width or height a resource header can hold.
pub const MAX_DIMENSION: u16 = 0x7ff;

/// Parsed four-byte image resource header.
#[derive(Clone, Copy, Debug, PartialEq, Eq, Structural)]
pub struct ResourceHeader {
    pub(crate) format: ResourceFormat,
    pub(crate) width: u16,
    pub(crate) height: u16,
    pub(crate) reserved: u8,
}

/// The 32-bit header word of a resource header.
pub open(crate) spec fn header_word(h: ResourceHeader) -> int {
    format_id(h.format) + 32 * h.reserved + 1024 * h.width + 2097152 * h.height
}

/// The four bytes a resource header is written as.
pub open(crate) spec fn header_bytes(h: ResourceHeader) -> Seq<u8> {
    le_u32_bytes(header_word(h) as u32)
}

/// What parsing the first four bytes of `data` as a resource header yields.
pub open(crate) spec fn parse_header_spec(data: Seq<u8>) -> core::result::Result<ResourceHeader, ErrorKind> {
    if data.len() < 4 {
        Err(ErrorKind::TruncatedData)
    } else {
        let word = le_u32_at(data, 0);
        let id = (word % 32) as u8;
        let reserved = ((word / 32) % 32) as u8;
        let width = ((word / 1024) % 2048) as u16;
        let height = ((word / 2097152) % 2048) as u16;
        match format_from_id(id) {
            None => Err(ErrorKind::UnsupportedFormat),
            Some(format) => if width == 0 || height == 0 {
                Err(ErrorKind::InvalidDimensions)
            } else {
                Ok(ResourceHeader { format, width, height, reserved })
            },
        }
    }
}

impl ResourceHeader {
    pub const BYTE_LEN: usize = 4;

    pub const MAX_DIMENSION: u16 = 0x7ff;

    /// Every header field is within what the four-byte word can hold.
    #[verifier::type_invariant]
    pub open(crate) spec fn wf(self) -> bool {
        &&& 1 <= self.width <= 0x7ff
        &&& 1 <= self.height <= 0x7ff
        &&& self.reserved < 32
    }

    pub open(crate) spec fn format_spec(self) -> ResourceFormat {
        self.format
    }

    pub open(crate) spec fn width_spec(self) -> u16 {
        self.width
    }

    pub open(crate) spec fn height_spec(self) -> u16 {
        self.height
    }

    pub open(crate) spec fn reserved_spec(self) -> u8 {
        self.reserved
    }

    pub fn parse(data: &[u8]) -> (r: crate::Result<Self>)
        ensures
            match r {
                Ok(h) => parse_header_spec(data@) == Ok::<ResourceHeader, ErrorKind>(h) && h.wf(),
                Err(e) => parse_header_spec(data@) == Err::<ResourceHeader, ErrorKind>(e.kind_spec()),
            },
    {
        if data.len() < 4 {
            return Err(Error::new(ErrorKind::TruncatedData, "input is shorter than a resource header"));
        }
        let b0 = data[0] as u32;
        let b1 = data[1] as u32;
        let b2 = data[2] as u32;
        let b3 = data[3] as u32;
        let value: u32 = b0 + b1 * 256 + b2 * 65536 + b3 * 16777216;
        let format = ResourceFormat::from_id((value % 32) as u8)?;
        let width = ((value / 1024) % 2048) as u16;
        let height = ((value / 2097152) % 2048) as u16;
        if width == 0 || height == 0 {
            return Err(Error::new(ErrorKind::InvalidDimensions, "resource dimensions must be positive"));
        }
        Ok(ResourceHeader { format, width, height, reserved: ((value / 32) % 32) as u8 })
    }

    pub fn new(format: ResourceFormat, width: u16, height: u16) -> (r: crate::Result<Self>)
        ensures
            match r {
                Ok(h) => 1 <= width <= 0x7ff && 1 <= height <= 0x7ff && h.format_spec() == format
                    && h.width_spec() == width && h.height_spec() == height && h.reserved_spec() == 0
                    && h.wf(),
                Err(e) => !(1 <= width <= 0x7ff && 1 <= height <= 0x7ff) && e.kind_spec()
                    == ErrorKind::InvalidDimensions && e.message_spec() == "resource dimensions are outside 1..=2047"@,
            },
    {
        if width == 0 || height == 0 || width > 0x7ff || height > 0x7ff {
            return Err(Error::new(ErrorKind::InvalidDimensions, "resource dimensions are outside 1..=2047"));
        }
        Ok(ResourceHeader { format, width, height, reserved: 0 })
    }

    pub fn format(self) -> (f: ResourceFormat)
        ensures
            f == self.format_spec(),
    {
        self.format
    }

    pub fn width(self) -> (w: u16)
        ensures
            w == self.width_spec(),
    {
        self.width
    }

    pub fn height(self) -> (h: u16)
        ensures
            h == self.height_spec(),
    {
        self.height
    }

    pub fn reserved(self) -> (r: u8)
        ensures
            r == self.reserved_spec(),
    {
        self.reserved
    }

    pub fn to_bytes(self) -> (b: [u8; 4])
        ensures
            b@ == header_bytes(self),
            self.wf(),
    {
        proof {
            use_type_invariant(&self);
        }
        let value: u32 = (self.format.id() as u32) + (self.reserved as u32) * 32 + (self.width as u32)
            * 1024 + (self.height as u32) * 2097152;
        [(value % 256) as u8, ((value / 256) % 256) as u8, ((value / 65536) % 256) as u8, (value
            / 16777216) as u8]
    }
}

/// Writing a well-formed header and parsing the bytes gives the same header back.
pub proof fn lemma_header_roundtrip(h: ResourceHeader)
    requires
        h.wf(),
    ensures
        parse_header_spec(header_bytes(h)) == Ok::<ResourceHeader, ErrorKind>(h),
{
    let w = header_word(h);
    let id = format_id(h.format) as int;
    let r = h.reserved as int;
    let x = h.width as int;
    let y = h.height as int;
    assert(0 <= w < 0x1_0000_0000);
    crate::bytes::lemma_le_u32_roundtrip(w as u32);
    assert(le_u32_at(header_bytes(h), 0) == w);
    assert(w % 32 == id && (w / 32) % 32 == r && (w / 1024) % 2048 == x && (w / 2097152) % 2048
        == y) by (nonlinear_arith)
        requires
            w == id + 32 * r + 1024 * x + 2097152 * y,
            0 <= id < 32,
            0 <= r < 32,
            0 <= x < 2048,
            0 <= y < 2048,
    {
        assert(w == id + 32 * (r + 32 * x + 65536 * y));
        assert(w / 32 == r + 32 * x + 65536 * y);
        assert(w == (id + 32 * r) + 1024 * (x + 2048 * y));
        assert(w / 1024 == x + 2048 * y);
        assert(w == (id + 32 * r + 1024 * x) + 2097152 * y);
        assert(w / 2097152 == y);
    }
}

} // verus!
