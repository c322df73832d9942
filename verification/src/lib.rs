
//! Decode and encode SiFli eZIP and PIXEL image resources.

mod animation;
mod animation_encoder;
mod animation_roundtrip;
mod bytes;
mod checksum;
mod compositor;
mod decoder;
mod deflate;
mod dither;
mod encoder;
mod error;
mod filter;
mod frame;
mod header;
mod huffman;
mod loader;
mod options;
mod pixels;
mod roundtrip;
mod stream;
mod seqs;
mod strict;

pub use animation_encoder::AnimationEncoder;
pub use compositor::Compositor;
pub use decoder::{Decoder, ResourceInfo};
pub use dither::{quantize_balanced, Rgb565Dithering};
pub use encoder::{AlphaMode, ColorDepth, CompressionStrategy, EncodeOptions, EncodedResource, Encoder, ResourceEncoding};
pub use error::{Error, ErrorKind, Warning, WarningKind};
pub use header::{ResourceFormat, ResourceHeader, ResourceKind};
pub use filter::{paeth, unfilter, Unfiltered};
pub use frame::{BlendMode, DisposalMethod, FrameInfo, FrameView, Repeat};
pub use huffman::HuffmanTree;
pub use loader::{
    decode_gif, decode_png, load_gif, load_png, loaded_animation_from_gif, loaded_animation_from_png, png_read_plan, GifFrame,
    GifFrameModel, GifHeader, GifImage, LoadedAnimation, LoadedFrame, PngFrame, PngFrameControl, PngFrameModel, PngHeader,
    PngImage,
};
pub use options::{DecodeLimits, DecodeMode, DecodeOptions};
pub use pixels::{gray_alpha_to_rgba, gray_to_rgb, DecodedImage, ImageView, PixelFormat, StorageFormat};
pub use stream::StreamHeader;

use vstd::prelude::*;

verus! {

/// Result type of fallible library operations.
pub type Result<T> = core::result::Result<T, Error>;

} // verus!
