use ezipr::{
    gray_alpha_to_rgba, gray_to_rgb, AlphaMode, AnimationEncoder, BlendMode, ColorDepth, Decoder,
    DisposalMethod, EncodeOptions, Encoder, FrameView, ImageView, PixelFormat, Repeat,
    ResourceEncoding, ResourceFormat, ResourceHeader, ResourceKind, Rgb565Dithering, StorageFormat,
};

fn pattern(width: usize, height: usize, channels: usize, seed: u32) -> Vec<u8> {
    let mut state = seed;
    let mut pixels = Vec::with_capacity(width * height * channels);
    for _ in 0..width * height * channels {
        state = state.wrapping_mul(1_103_515_245).wrapping_add(12_345);
        pixels.push((state >> 16) as u8);
    }
    pixels
}

fn decode_rgb(bytes: &[u8], output: PixelFormat) -> Vec<u8> {
    Decoder::new(bytes)
        .unwrap()
        .decode_frame(0, output)
        .unwrap()
        .into_pixels()
}

#[test]
fn still_ezip_round_trip_returns_rgb888_pixels() {
    let rgb = pattern(7, 5, 3, 11);
    let image = ImageView::new(7, 5, PixelFormat::Rgb8, 21, &rgb).unwrap();
    for filters in [true, false] {
        for rows in [1u8, 2, 32] {
            let options = EncodeOptions::new(ColorDepth::Rgb888)
                .row_filters(filters)
                .block_rows(rows)
                .unwrap();
            let encoded = Encoder::new(options).encode(image).unwrap();
            assert_eq!(encoded.storage_format(), StorageFormat::Rgb888);
            assert_eq!(decode_rgb(encoded.as_bytes(), PixelFormat::Rgb8), rgb);
        }
    }
}

#[test]
fn still_ezip_round_trip_ignores_stride_padding() {
    let mut padded = Vec::new();
    let rows: Vec<Vec<u8>> = (0..3).map(|row| pattern(4, 1, 4, 40 + row)).collect();
    for row in &rows {
        padded.extend_from_slice(row);
        padded.extend_from_slice(&[9, 9, 9]);
    }
    let image = ImageView::new(4, 3, PixelFormat::Rgba8, 19, &padded).unwrap();
    let options = EncodeOptions::new(ColorDepth::Rgb888).alpha_mode(AlphaMode::Preserve);
    let encoded = Encoder::new(options).encode(image).unwrap();
    assert_eq!(encoded.storage_format(), StorageFormat::Argb888);
    assert_eq!(decode_rgb(encoded.as_bytes(), PixelFormat::Rgba8), rows.concat());
}

#[test]
fn still_pixel_round_trip_returns_argb888_pixels() {
    let rgba = pattern(6, 3, 4, 5);
    let image = ImageView::new(6, 3, PixelFormat::Rgba8, 24, &rgba).unwrap();
    let options = EncodeOptions::new(ColorDepth::Rgb888)
        .alpha_mode(AlphaMode::Preserve)
        .resource_encoding(ResourceEncoding::Pixel);
    let encoded = Encoder::new(options).encode(image).unwrap();
    assert_eq!(encoded.resource_format(), ResourceFormat::PixelWithAlpha);
    assert_eq!(decode_rgb(encoded.as_bytes(), PixelFormat::Rgba8), rgba);
}

#[test]
fn rgb888_storage_reports_opaque_alpha_for_rgb_input() {
    let rgb = pattern(3, 2, 3, 8);
    let image = ImageView::new(3, 2, PixelFormat::Rgb8, 9, &rgb).unwrap();
    let encoded = Encoder::new(EncodeOptions::new(ColorDepth::Rgb888))
        .encode(image)
        .unwrap();
    let rgba = decode_rgb(encoded.as_bytes(), PixelFormat::Rgba8);
    for (pixel, source) in rgba.chunks_exact(4).zip(rgb.chunks_exact(3)) {
        assert_eq!(&pixel[..3], source);
        assert_eq!(pixel[3], 255);
    }
}

#[test]
fn direct_rgb565_is_decode_encode_idempotent() {
    let rgb = pattern(16, 16, 3, 77);
    let options = EncodeOptions::new(ColorDepth::Rgb565)
        .dithering(Rgb565Dithering::Off)
        .resource_encoding(ResourceEncoding::Pixel);
    let first = Encoder::new(options)
        .encode(ImageView::new(16, 16, PixelFormat::Rgb8, 48, &rgb).unwrap())
        .unwrap();
    let decoded = decode_rgb(first.as_bytes(), PixelFormat::Rgb8);
    let second = Encoder::new(options)
        .encode(ImageView::new(16, 16, PixelFormat::Rgb8, 48, &decoded).unwrap())
        .unwrap();
    assert_eq!(first.as_bytes(), second.as_bytes());
}

#[test]
fn balanced_rgb565_keeps_every_decoded_color() {
    let mut colors = Vec::with_capacity(256 * 256 * 3);
    for word in 0u32..65536 {
        let red = (word >> 11) & 31;
        let green = (word >> 5) & 63;
        let blue = word & 31;
        colors.push((red * 255 / 31) as u8);
        colors.push((green * 255 / 63) as u8);
        colors.push((blue * 255 / 31) as u8);
    }
    let image = ImageView::new(256, 256, PixelFormat::Rgb8, 768, &colors).unwrap();
    let options = EncodeOptions::new(ColorDepth::Rgb565)
        .dithering(Rgb565Dithering::Balanced8x8)
        .resource_encoding(ResourceEncoding::Pixel);
    let encoded = Encoder::new(options).encode(image).unwrap();
    let stored = &encoded.as_bytes()[4..4 + 65536 * 2];
    for (word, bytes) in stored.chunks_exact(2).enumerate() {
        assert_eq!(u16::from_le_bytes([bytes[0], bytes[1]]) as usize, word);
    }
    assert_eq!(decode_rgb(encoded.as_bytes(), PixelFormat::Rgb8), colors);
}

#[test]
fn resource_header_bytes_parse_back() {
    for (format, width, height) in [
        (ResourceFormat::Ezip, 1u16, 1u16),
        (ResourceFormat::EzipWithAlpha, 2047, 1),
        (ResourceFormat::Pixel, 1, 2047),
        (ResourceFormat::PixelWithAlpha, 640, 480),
    ] {
        let header = ResourceHeader::new(format, width, height).unwrap();
        let parsed = ResourceHeader::parse(&header.to_bytes()).unwrap();
        assert_eq!(parsed.format(), format);
        assert_eq!((parsed.width(), parsed.height()), (width, height));
        assert_eq!(parsed.reserved(), 0);
    }
}

#[test]
fn gray_samples_widen_to_rgb_and_rgba() {
    assert_eq!(gray_to_rgb(&[0, 7, 255]), vec![0, 0, 0, 7, 7, 7, 255, 255, 255]);
    assert_eq!(gray_to_rgb(&[]), Vec::<u8>::new());
    assert_eq!(
        gray_alpha_to_rgba(&[10, 200, 30, 0, 99]),
        vec![10, 10, 10, 200, 30, 30, 30, 0]
    );
}

#[test]
fn animation_round_trip_returns_every_pushed_frame() {
    let rects: [(u32, u32, u32, u32); 3] = [(5, 4, 0, 0), (2, 3, 3, 1), (1, 1, 4, 3)];
    let pixels: Vec<Vec<u8>> = rects
        .iter()
        .enumerate()
        .map(|(index, rect)| pattern(rect.0 as usize, rect.1 as usize, 4, 90 + index as u32))
        .collect();
    let options = EncodeOptions::new(ColorDepth::Rgb888)
        .alpha_mode(AlphaMode::Preserve)
        .block_rows(2)
        .unwrap();
    let mut encoder = AnimationEncoder::new(5, 4, Repeat::Finite(3), options).unwrap();
    let disposals = [DisposalMethod::Keep, DisposalMethod::Background, DisposalMethod::Previous];
    let blends = [BlendMode::Source, BlendMode::Over, BlendMode::Source];
    for (index, rect) in rects.iter().enumerate() {
        let image = ImageView::new(rect.0, rect.1, PixelFormat::Rgba8, rect.0 as usize * 4, &pixels[index]).unwrap();
        encoder
            .push_frame(
                FrameView::new(image, rect.2, rect.3, index as u16 + 1, 50)
                    .disposal(disposals[index])
                    .blend(blends[index]),
            )
            .unwrap();
    }
    let encoded = encoder.finish().unwrap();
    let decoder = Decoder::new(encoded.as_bytes()).unwrap();
    assert_eq!(decoder.info().kind(), ResourceKind::Animation);
    assert_eq!(decoder.info().storage_format(), StorageFormat::Argb888);
    assert_eq!(decoder.info().frame_count(), 3);
    assert_eq!(decoder.repeat(), Some(Repeat::Finite(3)));
    assert!(decoder.warnings().is_empty());
    for (index, rect) in rects.iter().enumerate() {
        let info = decoder.frame_info(index).unwrap();
        assert_eq!(info.sequence(), index as u32);
        assert_eq!((info.width(), info.height()), (rect.0, rect.1));
        assert_eq!((info.x_offset(), info.y_offset()), (rect.2, rect.3));
        assert_eq!((info.delay_numerator(), info.delay_denominator()), (index as u16 + 1, 50));
        assert_eq!(info.disposal(), disposals[index]);
        assert_eq!(info.blend(), blends[index]);
        let frame = decoder.decode_frame(index, PixelFormat::Rgba8).unwrap();
        assert_eq!(frame.pixels(), &pixels[index][..]);
    }
}

#[test]
fn strict_open_records_no_warnings() {
    let pixels = pattern(5, 3, 3, 21);
    let image = ImageView::new(5, 3, PixelFormat::Rgb8, 15, &pixels).unwrap();
    for encoding in [ResourceEncoding::Ezip, ResourceEncoding::Pixel] {
        let options = EncodeOptions::default().resource_encoding(encoding);
        let encoded = Encoder::new(options).encode(image).unwrap();
        let decoder = Decoder::new(encoded.as_bytes()).unwrap();
        assert!(decoder.warnings().is_empty());
    }
}
