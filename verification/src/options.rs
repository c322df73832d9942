use vstd::prelude::*;

verus! {

/// Decoder behavior when recoverable inconsistencies are encountered.
#[derive(Clone, Copy, Debug, PartialEq, Eq, Structural)]
#[non_exhaustive]
pub enum DecodeMode {
    Strict,
    Diagnostic,
}

impl Default for DecodeMode {
    fn default() -> (m: Self)
        ensures
            m == DecodeMode::Strict,
    {
        DecodeMode::Strict
    }
}

/// Resource limits applied before allocating decoded output.
#[derive(Clone, Copy, Debug, PartialEq, Eq, Structural)]
pub struct DecodeLimits {
    pub(crate) max_width: u32,
    pub(crate) max_height: u32,
    pub(crate) max_frames: usize,
    pub(crate) max_decoded_bytes: usize,
}

impl Default for DecodeLimits {
    fn default() -> (l: Self)
        ensures
            l.width_limit_spec() == 8192,
            l.height_limit_spec() == 8192,
            l.frame_limit_spec() == 10000,
            l.decoded_byte_limit_spec() == 512 * 1024 * 1024,
    {
        DecodeLimits {
            max_width: 8192,
            max_height: 8192,
            max_frames: 10000,
            max_decoded_bytes: 536870912,
        }
    }
}

impl DecodeLimits {
    pub open(crate) spec fn width_limit_spec(self) -> u32 {
        self.max_width
    }

    pub open(crate) spec fn height_limit_spec(self) -> u32 {
        self.max_height
    }

    pub open(crate) spec fn frame_limit_spec(self) -> usize {
        self.max_frames
    }

    pub open(crate) spec fn decoded_byte_limit_spec(self) -> usize {
        self.max_decoded_bytes
    }

    pub fn new() -> (l: Self)
        ensures
            l.width_limit_spec() == 8192,
            l.height_limit_spec() == 8192,
            l.frame_limit_spec() == 10000,
            l.decoded_byte_limit_spec() == 512 * 1024 * 1024,
    {
        DecodeLimits::default()
    }

    pub fn max_dimensions(self, width: u32, height: u32) -> (l: Self)
        ensures
            l.width_limit_spec() == width,
            l.height_limit_spec() == height,
            l.frame_limit_spec() == self.frame_limit_spec(),
            l.decoded_byte_limit_spec() == self.decoded_byte_limit_spec(),
    {
        DecodeLimits { max_width: width, max_height: height, ..self }
    }

    pub fn max_frames(self, frames: usize) -> (l: Self)
        ensures
            l.width_limit_spec() == self.width_limit_spec(),
            l.height_limit_spec() == self.height_limit_spec(),
            l.frame_limit_spec() == frames,
            l.decoded_byte_limit_spec() == self.decoded_byte_limit_spec(),
    {
        DecodeLimits { max_frames: frames, ..self }
    }

    pub fn max_decoded_bytes(self, bytes: usize) -> (l: Self)
        ensures
            l.width_limit_spec() == self.width_limit_spec(),
            l.height_limit_spec() == self.height_limit_spec(),
            l.frame_limit_spec() == self.frame_limit_spec(),
            l.decoded_byte_limit_spec() == bytes,
    {
        DecodeLimits { max_decoded_bytes: bytes, ..self }
    }

    pub fn width_limit(self) -> (w: u32)
        ensures
            w == self.width_limit_spec(),
    {
        self.max_width
    }

    pub fn height_limit(self) -> (h: u32)
        ensures
            h == self.height_limit_spec(),
    {
        self.max_height
    }

    pub fn frame_limit(self) -> (n: usize)
        ensures
            n == self.frame_limit_spec(),
    {
        self.max_frames
    }

    pub fn decoded_byte_limit(self) -> (n: usize)
        ensures
            n == self.decoded_byte_limit_spec(),
    {
        self.max_decoded_bytes
    }
}

/// Options controlling strictness and resource limits.
#[derive(Clone, Copy, Debug, PartialEq, Eq, Structural)]
pub struct DecodeOptions {
    pub(crate) mode: DecodeMode,
    pub(crate) limits: DecodeLimits,
}

impl Default for DecodeOptions {
    fn default() -> (o: Self)
        ensures
            o.mode_spec() == DecodeMode::Strict,
            o.limits_spec() == DecodeLimits::default_spec(),
    {
        DecodeOptions { mode: DecodeMode::Strict, limits: DecodeLimits::new() }
    }
}

impl DecodeLimits {
    /// The limits a default configuration applies.
    pub open(crate) spec fn default_spec() -> DecodeLimits {
        DecodeLimits {
            max_width: 8192,
            max_height: 8192,
            max_frames: 10000,
            max_decoded_bytes: 536870912,
        }
    }
}

impl DecodeOptions {
    /// The options a default configuration uses.
    pub open(crate) spec fn default_spec() -> DecodeOptions {
        DecodeOptions { mode: DecodeMode::Strict, limits: DecodeLimits::default_spec() }
    }

    pub open(crate) spec fn mode_spec(self) -> DecodeMode {
        self.mode
    }

    pub open(crate) spec fn limits_spec(self) -> DecodeLimits {
        self.limits
    }

    pub fn new() -> (o: Self)
        ensures
            o.mode_spec() == DecodeMode::Strict,
            o.limits_spec() == DecodeLimits::default_spec(),
    {
        DecodeOptions::default()
    }

    pub fn mode(self, mode: DecodeMode) -> (o: Self)
        ensures
            o.mode_spec() == mode,
            o.limits_spec() == self.limits_spec(),
    {
        DecodeOptions { mode, ..self }
    }

    pub fn limits(self, limits: DecodeLimits) -> (o: Self)
        ensures
            o.mode_spec() == self.mode_spec(),
            o.limits_spec() == limits,
    {
        DecodeOptions { limits, ..self }
    }

    pub fn decode_mode(self) -> (m: DecodeMode)
        ensures
            m == self.mode_spec(),
    {
        self.mode
    }

    pub fn decode_limits(self) -> (l: DecodeLimits)
        ensures
            l == self.limits_spec(),
    {
        self.limits
    }
}

} // verus!
