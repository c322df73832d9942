use ezipr::{
    DecodeMode, DecodeOptions, Decoder, ErrorKind, PixelFormat, ResourceFormat, ResourceHeader, ResourceKind,
    StorageFormat, StreamHeader, WarningKind,
};

fn source_colors() -> [[u8; 3]; 8] {
    [
        [255, 0, 0],
        [0, 255, 0],
        [0, 0, 255],
        [255, 255, 255],
        [0, 0, 0],
        [17, 33, 65],
        [123, 45, 210],
        [250, 128, 7],
    ]
}

fn expected_rgb() -> Vec<u8> {
    let colors = source_colors();
    let mut expected = Vec::new();
    for y in 0..4 {
        for x in 0..8 {
            expected.extend_from_slice(&colors[(x + y * 2) % colors.len()]);
        }
    }
    expected
}

fn expected_rgba() -> Vec<u8> {
    let colors = source_colors();
    let alphas = [0, 1, 31, 64, 127, 128, 200, 255];
    let mut expected = Vec::new();
    for y in 0..4 {
        for x in 0..8 {
            expected.extend_from_slice(&colors[(x + y * 2) % colors.len()]);
            expected.push(alphas[(x + y * 3) % alphas.len()]);
        }
    }
    expected
}

fn expected_multiblock_rgb() -> Vec<u8> {
    let mut expected = Vec::with_capacity(8 * 70 * 3);
    for y in 0..70 {
        for x in 0..8 {
            expected.extend_from_slice(&[
                (x * 37 + y * 11 + (y / 32) * 53) as u8,
                (x * 17 + y * 29) as u8,
                (x * 97 + y * 7) as u8,
            ]);
        }
    }
    expected
}

/// Writes bits least significant first, as DEFLATE does.
struct BitWriter {
    bytes: Vec<u8>,
    bits: usize,
}

impl BitWriter {
    fn bit(&mut self, value: u32) {
        if self.bits % 8 == 0 {
            self.bytes.push(0);
        }
        if value & 1 == 1 {
            *self.bytes.last_mut().unwrap() |= 1 << (self.bits % 8);
        }
        self.bits += 1;
    }

    fn value(&mut self, value: u32, count: u32) {
        for shift in 0..count {
            self.bit(value >> shift);
        }
    }

    fn align(&mut self, bytes: usize) {
        while self.bits % (8 * bytes) != 0 {
            self.bit(0);
        }
    }
}

fn pack565(color: [u8; 3]) -> [u8; 2] {
    let value = (u16::from(color[0]) >> 3) << 11 | (u16::from(color[1]) >> 2) << 5 | u16::from(color[2]) >> 3;
    value.to_le_bytes()
}

/// An eZIP resource whose stream shares one Huffman table across stored
/// blocks of `block_rows` unfiltered rows, padded to `declared` bytes.
fn shared_huffman_resource(
    storage: StorageFormat,
    width: u16,
    height: u16,
    block_rows: u16,
    rows: &[Vec<u8>],
    declared: Option<usize>,
) -> Vec<u8> {
    let (color_type, bit_depth, format) = match storage {
        StorageFormat::Rgb888 => (2, 8, ResourceFormat::Ezip),
        StorageFormat::Argb888 => (6, 8, ResourceFormat::Ezip),
        StorageFormat::Rgb565 => (8, 16, ResourceFormat::Ezip),
        StorageFormat::Argb565 => (12, 24, ResourceFormat::EzipArgb565),
        _ => unreachable!(),
    };
    let block_count = (usize::from(height) + usize::from(block_rows) - 1) / usize::from(block_rows);
    let raw_offset = 16 + (block_count + 1) * 4;
    let mut writer = BitWriter { bytes: Vec::new(), bits: 0 };
    // 257 literal/length codes, one distance code, 18 code-length codes.
    writer.value(0, 5);
    writer.value(0, 5);
    writer.value(14, 4);
    let order = [16, 17, 18, 0, 8, 7, 9, 6, 10, 5, 11, 4, 12, 3, 13, 2, 14, 1];
    for symbol in order {
        writer.value(if symbol == 1 || symbol == 18 { 1 } else { 0 }, 3);
    }
    // Code-length code: symbol 1 is `0`, symbol 18 is `1`.
    writer.bit(0);
    writer.bit(1);
    writer.value(138 - 11, 7);
    writer.bit(1);
    writer.value(117 - 11, 7);
    writer.bit(0);
    writer.bit(0);
    writer.align(4);
    let mut offsets = Vec::new();
    for block in 0..block_count {
        offsets.push(raw_offset + writer.bits / 8);
        let first = block * usize::from(block_rows);
        let last = (first + usize::from(block_rows)).min(usize::from(height));
        let mut data = Vec::new();
        for row in &rows[first..last] {
            data.push(0);
            data.extend_from_slice(row);
        }
        writer.bit(u32::from(block + 1 == block_count));
        writer.value(0, 2);
        writer.align(1);
        let length = data.len() as u16;
        writer.bytes.extend_from_slice(&length.to_le_bytes());
        writer.bytes.extend_from_slice(&(!length).to_le_bytes());
        writer.bytes.extend_from_slice(&data);
        writer.bits = writer.bytes.len() * 8;
        writer.align(4);
    }
    let mut container = Vec::new();
    container.extend_from_slice(&block_rows.to_be_bytes());
    container.extend_from_slice(&(block_count as u16).to_be_bytes());
    for offset in offsets {
        container.extend_from_slice(&(offset as u32).to_be_bytes());
    }
    container.extend_from_slice(&writer.bytes);
    if let Some(declared) = declared {
        while 16 + container.len() < declared {
            container.push(0);
        }
    }
    let mut stream = Vec::new();
    stream.extend_from_slice(&((16 + container.len()) as u32).to_be_bytes());
    stream.extend_from_slice(&[0x40 | color_type, bit_depth, block_rows as u8, 0]);
    stream.extend_from_slice(&width.to_be_bytes());
    stream.extend_from_slice(&height.to_be_bytes());
    stream.extend_from_slice(&[0, 0, 0, 0]);
    stream.extend_from_slice(&container);
    let crc = crc32fast::hash(&stream);
    let mut data = ResourceHeader::new(format, width, height).unwrap().to_bytes().to_vec();
    data.extend_from_slice(&stream);
    data.extend_from_slice(&crc.to_le_bytes());
    data
}

/// The 8x4 shared-Huffman resource of the source pattern.
fn source_ezip_resource(storage: StorageFormat) -> Vec<u8> {
    let colors = source_colors();
    let alphas = [0, 1, 31, 64, 127, 128, 200, 255];
    let mut rows = Vec::new();
    for y in 0..4 {
        let mut row = Vec::new();
        for x in 0..8 {
            let color = colors[(x + y * 2) % colors.len()];
            let alpha = alphas[(x + y * 3) % alphas.len()];
            match storage {
                StorageFormat::Rgb565 => row.extend_from_slice(&pack565(color)),
                StorageFormat::Argb565 => {
                    row.extend_from_slice(&pack565(color));
                    row.push(alpha);
                }
                StorageFormat::Rgb888 => row.extend_from_slice(&[color[2], color[1], color[0]]),
                StorageFormat::Argb888 => row.extend_from_slice(&[color[2], color[1], color[0], alpha]),
                _ => unreachable!(),
            }
        }
        rows.push(row);
    }
    let declared = if storage == StorageFormat::Rgb565 { Some(114) } else { None };
    shared_huffman_resource(storage, 8, 4, 32, &rows, declared)
}

/// The 8x70 shared-Huffman RGB888 resource spanning three row blocks.
fn multiblock_resource() -> Vec<u8> {
    let expected = expected_multiblock_rgb();
    let rows: Vec<Vec<u8>> = expected
        .chunks_exact(8 * 3)
        .map(|row| row.chunks_exact(3).flat_map(|pixel| [pixel[2], pixel[1], pixel[0]]).collect())
        .collect();
    shared_huffman_resource(StorageFormat::Rgb888, 8, 70, 32, &rows, None)
}

#[test]
fn parses_shared_huffman_stream_header() {
    let data = source_ezip_resource(StorageFormat::Rgb565);
    let header = StreamHeader::parse(&data[4..]).unwrap();
    assert_eq!(header.data_size(), 114);
    assert_eq!(header.control(), 0x48);
    assert_eq!(header.bit_depth(), 16);
    assert_eq!(header.block_rows(), 32);
    assert_eq!((header.width(), header.height()), (8, 4));
    assert_eq!(header.filter_mode(), 0);
    assert!(header.has_row_filters());
    assert!(header.uses_shared_huffman());
}

#[test]
fn decodes_all_owned_shared_huffman_fixtures() {
    let cases = [
        (source_ezip_resource(StorageFormat::Rgb565), StorageFormat::Rgb565),
        (source_ezip_resource(StorageFormat::Rgb888), StorageFormat::Rgb888),
        (source_ezip_resource(StorageFormat::Argb565), StorageFormat::Argb565),
        (source_ezip_resource(StorageFormat::Argb888), StorageFormat::Argb888),
    ];
    for (data, storage) in cases {
        let decoder = Decoder::new(&data).unwrap();
        assert_eq!(decoder.info().kind(), ResourceKind::Ezip);
        assert_eq!(decoder.info().storage_format(), storage);
        assert_eq!((decoder.info().width(), decoder.info().height()), (8, 4));
        assert!(decoder.warnings().is_empty());
    }
}

#[test]
fn decoded_888_pixels_match_owned_sources_exactly() {
    let rgb = Decoder::new(&source_ezip_resource(StorageFormat::Rgb888))
        .unwrap()
        .decode_frame(0, PixelFormat::Rgb8)
        .unwrap();
    assert_eq!(rgb.pixels(), expected_rgb());

    let rgba = Decoder::new(&source_ezip_resource(StorageFormat::Argb888))
        .unwrap()
        .decode_frame(0, PixelFormat::Rgba8)
        .unwrap();
    assert_eq!(rgba.pixels(), expected_rgba());
}

#[test]
fn decoded_565_colors_are_consistent_and_alpha_is_exact() {
    let opaque = Decoder::new(&source_ezip_resource(StorageFormat::Rgb565))
        .unwrap()
        .decode_frame(0, PixelFormat::Rgb8)
        .unwrap();
    let alpha = Decoder::new(&source_ezip_resource(StorageFormat::Argb565))
        .unwrap()
        .decode_frame(0, PixelFormat::Rgba8)
        .unwrap();
    let alpha_rgb: Vec<_> = alpha
        .pixels()
        .chunks_exact(4)
        .flat_map(|pixel| pixel[..3].iter().copied())
        .collect();
    let alpha_values: Vec<_> = alpha
        .pixels()
        .chunks_exact(4)
        .map(|pixel| pixel[3])
        .collect();
    let expected_alpha: Vec<_> = expected_rgba()
        .chunks_exact(4)
        .map(|pixel| pixel[3])
        .collect();
    assert_eq!(opaque.pixels(), alpha_rgb);
    assert_eq!(alpha_values, expected_alpha);
}

#[test]
fn validates_shared_huffman_crc32() {
    let mut data = source_ezip_resource(StorageFormat::Rgb565);
    *data.last_mut().unwrap() ^= 1;
    assert_eq!(
        Decoder::new(&data).unwrap_err().kind(),
        ErrorKind::ChecksumMismatch
    );

    let options = DecodeOptions::new().mode(DecodeMode::Diagnostic);
    let decoder = Decoder::with_options(&data, options).unwrap();
    assert_eq!(decoder.warnings().len(), 1);
    assert_eq!(decoder.warnings()[0].kind(), WarningKind::ChecksumMismatch);
}

#[test]
fn decodes_shared_huffman_across_multiple_row_blocks() {
    let data = multiblock_resource();
    let stream = StreamHeader::parse(&data[4..]).unwrap();
    assert!(stream.uses_shared_huffman());
    assert_eq!(stream.block_rows(), 32);
    assert_eq!((stream.width(), stream.height()), (8, 70));

    let decoder = Decoder::new(&data).unwrap();
    let image = decoder.decode_frame(0, PixelFormat::Rgb8).unwrap();
    assert_eq!((image.width(), image.height()), (8, 70));
    assert_eq!(image.pixels(), expected_multiblock_rgb());
}

#[test]
fn validates_shared_huffman_block_offsets() {
    let mut data = multiblock_resource();
    data[24..28].copy_from_slice(&0_u32.to_be_bytes());
    let declared = u32::from_be_bytes(data[4..8].try_into().unwrap()) as usize;
    let crc = crc32fast::hash(&data[4..4 + declared]);
    data[4 + declared..8 + declared].copy_from_slice(&crc.to_le_bytes());

    assert_eq!(
        Decoder::new(&data).unwrap_err().kind(),
        ErrorKind::InvalidOffset
    );
}

#[test]
fn reports_palette_resources_as_unsupported() {
    let mut data = source_ezip_resource(StorageFormat::Rgb565);
    data[17] = 1;
    assert_eq!(
        Decoder::new(&data).unwrap_err().kind(),
        ErrorKind::UnsupportedFormat
    );
}
