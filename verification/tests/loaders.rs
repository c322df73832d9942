use ezipr::{
    decode_gif, decode_png, load_gif, load_png, loaded_animation_from_gif, loaded_animation_from_png, png_read_plan, BlendMode,
    DisposalMethod, ErrorKind, GifFrame, PngHeader,
    GifImage, PixelFormat, PngFrame, PngFrameControl, PngImage, Repeat,
};

fn rgb_frame(pixels: Vec<u8>, control: Option<PngFrameControl>) -> PngFrame {
    PngFrame { width: 1, height: 1, color: 2, bit_depth: 8, pixels, control }
}

fn still(frames: Vec<PngFrame>) -> PngImage {
    PngImage { width: 1, height: 1, num_plays: None, default_is_separate: false, frames }
}

#[test]
fn png_repeat_follows_the_play_count() {
    let mut image = still(vec![rgb_frame(vec![1, 2, 3], None)]);
    let loaded = loaded_animation_from_png(image.clone()).unwrap();
    assert_eq!(loaded.repeat, Repeat::Finite(1));
    assert!(!loaded.animated);
    image.num_plays = Some(0);
    assert_eq!(loaded_animation_from_png(image.clone()).unwrap().repeat, Repeat::Infinite);
    image.num_plays = Some(3);
    let loaded = loaded_animation_from_png(image).unwrap();
    assert_eq!(loaded.repeat, Repeat::Finite(3));
    assert!(loaded.animated);
}

#[test]
fn png_separate_default_image_is_skipped() {
    let control = PngFrameControl { x: 4, y: 5, delay_num: 7, delay_den: 9, dispose: 1, blend: 1 };
    let image = PngImage {
        width: 8,
        height: 8,
        num_plays: Some(0),
        default_is_separate: true,
        frames: vec![rgb_frame(vec![9, 9, 9], None), rgb_frame(vec![1, 2, 3], Some(control))],
    };
    let loaded = loaded_animation_from_png(image).unwrap();
    assert_eq!((loaded.width, loaded.height), (8, 8));
    assert_eq!(loaded.frames.len(), 1);
    let frame = &loaded.frames[0];
    assert_eq!(frame.pixels, vec![1, 2, 3]);
    assert_eq!((frame.x, frame.y, frame.delay_numerator, frame.delay_denominator), (4, 5, 7, 9));
    assert_eq!(frame.disposal, DisposalMethod::Background);
    assert_eq!(frame.blend, BlendMode::Over);
}

#[test]
fn png_operation_codes_map_to_disposal_and_blend() {
    let codes = [(0, 0, DisposalMethod::Keep, BlendMode::Source), (2, 1, DisposalMethod::Previous, BlendMode::Over)];
    for (dispose, blend, disposal, mode) in codes {
        let control = PngFrameControl { x: 0, y: 0, delay_num: 1, delay_den: 2, dispose, blend };
        let loaded = loaded_animation_from_png(still(vec![rgb_frame(vec![1, 2, 3], Some(control))])).unwrap();
        assert_eq!(loaded.frames[0].disposal, disposal);
        assert_eq!(loaded.frames[0].blend, mode);
    }
    let frame = &loaded_animation_from_png(still(vec![rgb_frame(vec![1, 2, 3], None)])).unwrap().frames[0];
    assert_eq!((frame.x, frame.y, frame.delay_numerator, frame.delay_denominator), (0, 0, 0, 0));
    assert_eq!((frame.disposal, frame.blend), (DisposalMethod::Keep, BlendMode::Source));
}

#[test]
fn png_gray_samples_are_widened() {
    let gray = PngFrame { width: 2, height: 1, color: 0, bit_depth: 8, pixels: vec![10, 200], control: None };
    let frame = &loaded_animation_from_png(still(vec![gray])).unwrap().frames[0];
    assert_eq!(frame.format, PixelFormat::Rgb8);
    assert_eq!(frame.pixels, vec![10, 10, 10, 200, 200, 200]);
    let gray_alpha = PngFrame { width: 2, height: 1, color: 4, bit_depth: 8, pixels: vec![10, 1, 200, 2], control: None };
    let frame = &loaded_animation_from_png(still(vec![gray_alpha])).unwrap().frames[0];
    assert_eq!(frame.format, PixelFormat::Rgba8);
    assert_eq!(frame.pixels, vec![10, 10, 10, 1, 200, 200, 200, 2]);
    let rgba = PngFrame { width: 1, height: 1, color: 6, bit_depth: 8, pixels: vec![1, 2, 3, 4], control: None };
    let frame = &loaded_animation_from_png(still(vec![rgba])).unwrap().frames[0];
    assert_eq!((frame.format, frame.pixels.clone()), (PixelFormat::Rgba8, vec![1, 2, 3, 4]));
}

#[test]
fn png_without_eight_bit_frames_is_refused() {
    let deep = PngFrame { width: 1, height: 1, color: 2, bit_depth: 16, pixels: vec![0; 6], control: None };
    assert_eq!(loaded_animation_from_png(still(vec![deep])).unwrap_err().kind(), ErrorKind::InvalidInput);
    let indexed = PngFrame { width: 1, height: 1, color: 3, bit_depth: 8, pixels: vec![0], control: None };
    assert_eq!(loaded_animation_from_png(still(vec![indexed])).unwrap_err().kind(), ErrorKind::InvalidInput);
    let only_default = PngImage {
        width: 1,
        height: 1,
        num_plays: Some(0),
        default_is_separate: true,
        frames: vec![rgb_frame(vec![1, 2, 3], None)],
    };
    let error = loaded_animation_from_png(only_default).unwrap_err();
    assert_eq!(error.kind(), ErrorKind::InvalidInput);
    assert_eq!(error.message(), "PNG contains no animation frames");
}

fn encode_png(width: u32, height: u32, pixels: &[u8]) -> Vec<u8> {
    let mut bytes = Vec::new();
    {
        let mut encoder = png::Encoder::new(&mut bytes, width, height);
        encoder.set_color(png::ColorType::Rgb);
        encoder.set_depth(png::BitDepth::Eight);
        let mut writer = encoder.write_header().unwrap();
        writer.write_image_data(pixels).unwrap();
    }
    bytes
}

#[test]
fn load_png_decodes_a_still_png() {
    let bytes = encode_png(2, 1, &[255, 0, 0, 0, 0, 255]);
    let loaded = load_png(&bytes).unwrap();
    assert_eq!((loaded.width, loaded.height), (2, 1));
    assert!(!loaded.animated);
    assert_eq!(loaded.repeat, Repeat::Finite(1));
    assert_eq!(loaded.frames.len(), 1);
    assert_eq!(loaded.frames[0].format, PixelFormat::Rgb8);
    assert_eq!(loaded.frames[0].pixels, vec![255, 0, 0, 0, 0, 255]);
}

#[test]
fn load_png_decodes_an_apng_with_a_separate_default_image() {
    let mut bytes = Vec::new();
    {
        let mut encoder = png::Encoder::new(&mut bytes, 1, 1);
        encoder.set_color(png::ColorType::Rgba);
        encoder.set_depth(png::BitDepth::Eight);
        encoder.set_animated(1, 0).unwrap();
        encoder.set_sep_def_img(true).unwrap();
        let mut writer = encoder.write_header().unwrap();
        writer.write_image_data(&[0, 0, 0, 0]).unwrap();
        writer.set_frame_delay(3, 10).unwrap();
        writer.set_dispose_op(png::DisposeOp::Background).unwrap();
        writer.set_blend_op(png::BlendOp::Over).unwrap();
        writer.write_image_data(&[1, 2, 3, 4]).unwrap();
    }
    let loaded = load_png(&bytes).unwrap();
    assert!(loaded.animated);
    assert_eq!(loaded.repeat, Repeat::Infinite);
    assert_eq!(loaded.frames.len(), 1);
    let frame = &loaded.frames[0];
    assert_eq!(frame.pixels, vec![1, 2, 3, 4]);
    assert_eq!((frame.delay_numerator, frame.delay_denominator), (3, 10));
    assert_eq!(frame.disposal, DisposalMethod::Background);
    assert_eq!(frame.blend, BlendMode::Over);
}

#[test]
fn load_png_refuses_bytes_that_are_not_png() {
    assert_eq!(load_png(b"not a png").unwrap_err().kind(), ErrorKind::InvalidInput);
}

fn gif_frame(dispose: u8) -> GifFrame {
    GifFrame { width: 1, height: 1, left: 2, top: 3, delay: 5, dispose, pixels: vec![1, 2, 3, 255] }
}

#[test]
fn gif_frames_are_loaded_over_the_canvas() {
    let image = GifImage { width: 4, height: 4, repeat: None, frames: vec![gif_frame(0), gif_frame(2), gif_frame(3)] };
    let loaded = loaded_animation_from_gif(image).unwrap();
    assert_eq!(loaded.repeat, Repeat::Infinite);
    assert!(loaded.animated);
    let disposals: Vec<_> = loaded.frames.iter().map(|frame| frame.disposal).collect();
    assert_eq!(disposals, vec![DisposalMethod::Keep, DisposalMethod::Background, DisposalMethod::Previous]);
    let frame = &loaded.frames[0];
    assert_eq!((frame.x, frame.y, frame.delay_numerator, frame.delay_denominator), (2, 3, 5, 100));
    assert_eq!((frame.format, frame.blend), (PixelFormat::Rgba8, BlendMode::Over));
    assert_eq!(frame.pixels, vec![1, 2, 3, 255]);
}

#[test]
fn gif_loop_counts_map_to_repeat() {
    let image = |repeat| GifImage { width: 1, height: 1, repeat, frames: vec![gif_frame(1)] };
    assert_eq!(loaded_animation_from_gif(image(Some(0))).unwrap().repeat, Repeat::Finite(1));
    assert_eq!(loaded_animation_from_gif(image(Some(4))).unwrap().repeat, Repeat::Finite(4));
    let empty = GifImage { width: 1, height: 1, repeat: None, frames: Vec::new() };
    let error = loaded_animation_from_gif(empty).unwrap_err();
    assert_eq!(error.kind(), ErrorKind::InvalidInput);
    assert_eq!(error.message(), "GIF contains no frames");
}

#[test]
fn load_gif_decodes_a_gif() {
    let mut bytes = Vec::new();
    {
        let mut encoder = gif::Encoder::new(&mut bytes, 2, 1, &[]).unwrap();
        encoder.set_repeat(gif::Repeat::Finite(2)).unwrap();
        let mut frame = gif::Frame::from_palette_pixels(2, 1, vec![0, 1], vec![255, 0, 0, 0, 0, 255], None);
        frame.delay = 7;
        encoder.write_frame(&frame).unwrap();
    }
    let loaded = load_gif(&bytes).unwrap();
    assert_eq!((loaded.width, loaded.height), (2, 1));
    assert_eq!(loaded.repeat, Repeat::Finite(2));
    assert_eq!(loaded.frames.len(), 1);
    assert_eq!(loaded.frames[0].pixels, vec![255, 0, 0, 255, 0, 0, 255, 255]);
    assert_eq!(loaded.frames[0].delay_numerator, 7);
}

#[test]
fn png_read_plan_refuses_unsized_buffers() {
    let still = PngHeader { width: 1, height: 1, animation: None, has_frame_control: false };
    assert_eq!(png_read_plan(still, None).unwrap_err(), "PNG image is too large");
    assert_eq!(png_read_plan(still, Some(usize::MAX)).unwrap_err(), "PNG image is too large");
    assert_eq!(png_read_plan(still, Some(12)).unwrap(), (12, 1));
    let separate = PngHeader { width: 1, height: 1, animation: Some((3, 0)), has_frame_control: false };
    assert_eq!(png_read_plan(separate, Some(4)).unwrap(), (4, 4));
    let first_is_frame = PngHeader { width: 1, height: 1, animation: Some((3, 0)), has_frame_control: true };
    assert_eq!(png_read_plan(first_is_frame, Some(4)).unwrap(), (4, 3));
}

fn two_frame_apng() -> Vec<u8> {
    let mut bytes = Vec::new();
    {
        let mut encoder = png::Encoder::new(&mut bytes, 1, 1);
        encoder.set_color(png::ColorType::Rgba);
        encoder.set_depth(png::BitDepth::Eight);
        encoder.set_animated(2, 3).unwrap();
        let mut writer = encoder.write_header().unwrap();
        writer.write_image_data(&[1, 2, 3, 4]).unwrap();
        writer.set_dispose_op(png::DisposeOp::Previous).unwrap();
        writer.write_image_data(&[5, 6, 7, 8]).unwrap();
    }
    bytes
}

#[test]
fn decode_png_returns_every_frame_in_order() {
    let image = decode_png(&two_frame_apng()).unwrap();
    assert!(!image.default_is_separate);
    assert_eq!(image.num_plays, Some(3));
    let pixels: Vec<Vec<u8>> = image.frames.iter().map(|frame| frame.pixels.clone()).collect();
    assert_eq!(pixels, vec![vec![1, 2, 3, 4], vec![5, 6, 7, 8]]);
    let loaded = load_png(&two_frame_apng()).unwrap();
    assert_eq!(loaded.repeat, Repeat::Finite(3));
    assert_eq!(loaded.frames.len(), 2);
    assert_eq!(loaded.frames[1].pixels, vec![5, 6, 7, 8]);
    assert_eq!(loaded.frames[1].disposal, DisposalMethod::Previous);
}

#[test]
fn decode_gif_returns_every_frame_in_order() {
    let mut bytes = Vec::new();
    {
        let mut encoder = gif::Encoder::new(&mut bytes, 1, 1, &[]).unwrap();
        encoder.set_repeat(gif::Repeat::Infinite).unwrap();
        for index in [0u8, 1] {
            let mut frame = gif::Frame::from_palette_pixels(1, 1, vec![index], vec![255, 0, 0, 0, 0, 255], None);
            frame.delay = 2 + u16::from(index);
            encoder.write_frame(&frame).unwrap();
        }
    }
    let image = decode_gif(&bytes).unwrap();
    assert_eq!(image.repeat, None);
    let delays: Vec<u16> = image.frames.iter().map(|frame| frame.delay).collect();
    assert_eq!(delays, vec![2, 3]);
    let loaded = load_gif(&bytes).unwrap();
    assert_eq!(loaded.frames.len(), 2);
    assert_eq!(loaded.frames[0].pixels, vec![255, 0, 0, 255]);
    assert_eq!(loaded.frames[1].pixels, vec![0, 0, 255, 255]);
}
