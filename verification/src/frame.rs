use vstd::prelude::*;

use crate::pixels::ImageView;

verus! {

/// How a displayed frame region is treated before the following frame.
#[derive(Clone, Copy, Debug, PartialEq, Eq, Structural)]
#[non_exhaustive]
pub enum DisposalMethod {
    /// The region stays as drawn.
    Keep,
    /// The region is cleared to transparent black.
    Background,
    /// The canvas returns to what it held before the frame was drawn.
    Previous,
}

impl Default for DisposalMethod {
    fn default() -> (d: Self)
        ensures
            d == DisposalMethod::Keep,
    {
        DisposalMethod::Keep
    }
}

/// How a frame is combined with the existing canvas.
#[derive(Clone, Copy, Debug, PartialEq, Eq, Structural)]
#[non_exhaustive]
pub enum BlendMode {
    Source,
    Over,
}

impl Default for BlendMode {
    fn default() -> (b: Self)
        ensures
            b == BlendMode::Source,
    {
        BlendMode::Source
    }
}

/// Animation repetition behavior.
#[derive(Clone, Copy, Debug, PartialEq, Eq, Structural)]
#[non_exhaustive]
pub enum Repeat {
    Infinite,
    Finite(u32),
}

/// The repetition that a stored play count stands for: zero means forever.
pub open spec fn repeat_from_play_count(play_count: u32) -> Repeat {
    if play_count == 0 {
        Repeat::Infinite
    } else {
        Repeat::Finite(play_count)
    }
}

/// The play count stored for a repetition.
pub open spec fn play_count_of(repeat: Repeat) -> u32 {
    match repeat {
        Repeat::Infinite => 0,
        Repeat::Finite(count) => count,
    }
}

/// The byte that stores a disposal method.
pub open spec fn disposal_code(disposal: DisposalMethod) -> u8 {
    match disposal {
        DisposalMethod::Keep => 0,
        DisposalMethod::Background => 1,
        DisposalMethod::Previous => 2,
    }
}

/// The disposal method a stored byte names, if any.
pub open spec fn disposal_from_code(code: u8) -> Option<DisposalMethod> {
    if code == 0 {
        Some(DisposalMethod::Keep)
    } else if code == 1 {
        Some(DisposalMethod::Background)
    } else if code == 2 {
        Some(DisposalMethod::Previous)
    } else {
        None
    }
}

/// The byte that stores a blend mode.
pub open spec fn blend_code(blend: BlendMode) -> u8 {
    match blend {
        BlendMode::Source => 0,
        BlendMode::Over => 1,
    }
}

/// The blend mode a stored byte names, if any.
pub open spec fn blend_from_code(code: u8) -> Option<BlendMode> {
    if code == 0 {
        Some(BlendMode::Source)
    } else if code == 1 {
        Some(BlendMode::Over)
    } else {
        None
    }
}

/// Metadata for one stored animation frame rectangle.
#[derive(Clone, Copy, Debug, PartialEq, Eq, Structural)]
pub struct FrameInfo {
    pub(crate) sequence: u32,
    pub(crate) width: u32,
    pub(crate) height: u32,
    pub(crate) x_offset: u32,
    pub(crate) y_offset: u32,
    pub(crate) delay_numerator: u16,
    pub(crate) delay_denominator: u16,
    pub(crate) disposal: DisposalMethod,
    pub(crate) blend: BlendMode,
}

/// The metadata of a one-frame resource covering the whole canvas.
pub open(crate) spec fn still_info(width: u32, height: u32) -> FrameInfo {
    FrameInfo {
        sequence: 0,
        width,
        height,
        x_offset: 0,
        y_offset: 0,
        delay_numerator: 0,
        delay_denominator: 0,
        disposal: DisposalMethod::Keep,
        blend: BlendMode::Source,
    }
}

impl FrameInfo {
    pub open(crate) spec fn sequence_spec(self) -> u32 {
        self.sequence
    }

    pub open(crate) spec fn width_spec(self) -> u32 {
        self.width
    }

    pub open(crate) spec fn height_spec(self) -> u32 {
        self.height
    }

    pub open(crate) spec fn x_offset_spec(self) -> u32 {
        self.x_offset
    }

    pub open(crate) spec fn y_offset_spec(self) -> u32 {
        self.y_offset
    }

    pub open(crate) spec fn delay_numerator_spec(self) -> u16 {
        self.delay_numerator
    }

    pub open(crate) spec fn delay_denominator_spec(self) -> u16 {
        self.delay_denominator
    }

    pub open(crate) spec fn disposal_spec(self) -> DisposalMethod {
        self.disposal
    }

    pub open(crate) spec fn blend_spec(self) -> BlendMode {
        self.blend
    }

    pub fn sequence(self) -> (v: u32)
        ensures
            v == self.sequence_spec(),
    {
        self.sequence
    }

    pub fn width(self) -> (v: u32)
        ensures
            v == self.width_spec(),
    {
        self.width
    }

    pub fn height(self) -> (v: u32)
        ensures
            v == self.height_spec(),
    {
        self.height
    }

    pub fn x_offset(self) -> (v: u32)
        ensures
            v == self.x_offset_spec(),
    {
        self.x_offset
    }

    pub fn y_offset(self) -> (v: u32)
        ensures
            v == self.y_offset_spec(),
    {
        self.y_offset
    }

    pub fn delay_numerator(self) -> (v: u16)
        ensures
            v == self.delay_numerator_spec(),
    {
        self.delay_numerator
    }

    pub fn delay_denominator(self) -> (v: u16)
        ensures
            v == self.delay_denominator_spec(),
    {
        self.delay_denominator
    }

    /// The delay denominator with zero read as one hundredth of a second.
    pub fn effective_delay_denominator(self) -> (v: u16)
        ensures
            v == if self.delay_denominator_spec() == 0 {
                100
            } else {
                self.delay_denominator_spec()
            },
    {
        if self.delay_denominator == 0 {
            100
        } else {
            self.delay_denominator
        }
    }

    pub fn disposal(self) -> (v: DisposalMethod)
        ensures
            v == self.disposal_spec(),
    {
        self.disposal
    }

    pub fn blend(self) -> (v: BlendMode)
        ensures
            v == self.blend_spec(),
    {
        self.blend
    }

    pub(crate) fn still(width: u32, height: u32) -> (info: Self)
        ensures
            info == still_info(width, height),
    {
        FrameInfo {
            sequence: 0,
            width,
            height,
            x_offset: 0,
            y_offset: 0,
            delay_numerator: 0,
            delay_denominator: 0,
            disposal: DisposalMethod::Keep,
            blend: BlendMode::Source,
        }
    }
}

/// Borrowed pixels and metadata supplied for one animation frame rectangle.
#[derive(Clone, Copy, Debug)]
pub struct FrameView<'a> {
    pub(crate) image: ImageView<'a>,
    pub(crate) x_offset: u32,
    pub(crate) y_offset: u32,
    pub(crate) delay_numerator: u16,
    pub(crate) delay_denominator: u16,
    pub(crate) disposal: DisposalMethod,
    pub(crate) blend: BlendMode,
}

impl<'a> FrameView<'a> {
    pub open(crate) spec fn image_spec(self) -> ImageView<'a> {
        self.image
    }

    pub open(crate) spec fn x_offset_spec(self) -> u32 {
        self.x_offset
    }

    pub open(crate) spec fn y_offset_spec(self) -> u32 {
        self.y_offset
    }

    pub open(crate) spec fn delay_numerator_spec(self) -> u16 {
        self.delay_numerator
    }

    pub open(crate) spec fn delay_denominator_spec(self) -> u16 {
        self.delay_denominator
    }

    pub open(crate) spec fn disposal_spec(self) -> DisposalMethod {
        self.disposal
    }

    pub open(crate) spec fn blend_spec(self) -> BlendMode {
        self.blend
    }

    /// A frame that keeps its region and replaces the pixels below it.
    pub fn new(image: ImageView<'a>, x_offset: u32, y_offset: u32, delay_numerator: u16, delay_denominator: u16) -> (f:
        Self)
        ensures
            f.image_spec() == image,
            f.x_offset_spec() == x_offset,
            f.y_offset_spec() == y_offset,
            f.delay_numerator_spec() == delay_numerator,
            f.delay_denominator_spec() == delay_denominator,
            f.disposal_spec() == DisposalMethod::Keep,
            f.blend_spec() == BlendMode::Source,
    {
        FrameView {
            image,
            x_offset,
            y_offset,
            delay_numerator,
            delay_denominator,
            disposal: DisposalMethod::Keep,
            blend: BlendMode::Source,
        }
    }

    pub fn disposal(self, disposal: DisposalMethod) -> (f: Self)
        ensures
            f.image_spec() == self.image_spec(),
            f.x_offset_spec() == self.x_offset_spec(),
            f.y_offset_spec() == self.y_offset_spec(),
            f.delay_numerator_spec() == self.delay_numerator_spec(),
            f.delay_denominator_spec() == self.delay_denominator_spec(),
            f.disposal_spec() == disposal,
            f.blend_spec() == self.blend_spec(),
    {
        FrameView { disposal, ..self }
    }

    pub fn blend(self, blend: BlendMode) -> (f: Self)
        ensures
            f.image_spec() == self.image_spec(),
            f.x_offset_spec() == self.x_offset_spec(),
            f.y_offset_spec() == self.y_offset_spec(),
            f.delay_numerator_spec() == self.delay_numerator_spec(),
            f.delay_denominator_spec() == self.delay_denominator_spec(),
            f.disposal_spec() == self.disposal_spec(),
            f.blend_spec() == blend,
    {
        FrameView { blend, ..self }
    }

    pub fn image(self) -> (v: ImageView<'a>)
        ensures
            v == self.image_spec(),
    {
        self.image
    }

    pub fn x_offset(self) -> (v: u32)
        ensures
            v == self.x_offset_spec(),
    {
        self.x_offset
    }

    pub fn y_offset(self) -> (v: u32)
        ensures
            v == self.y_offset_spec(),
    {
        self.y_offset
    }

    pub fn delay_numerator(self) -> (v: u16)
        ensures
            v == self.delay_numerator_spec(),
    {
        self.delay_numerator
    }

    pub fn delay_denominator(self) -> (v: u16)
        ensures
            v == self.delay_denominator_spec(),
    {
        self.delay_denominator
    }

    pub fn disposal_method(self) -> (v: DisposalMethod)
        ensures
            v == self.disposal_spec(),
    {
        self.disposal
    }

    pub fn blend_mode(self) -> (v: BlendMode)
        ensures
            v == self.blend_spec(),
    {
        self.blend
    }
}

} // verus!
