use ezipr::{quantize_balanced, unfilter, DecodeMode, ErrorKind, HuffmanTree, WarningKind};

fn error_statistics(maximum: u16) -> (i64, u64, i32) {
    let mut signed = 0;
    let mut absolute = 0;
    let mut worst = 0;
    for value in 0..=u8::MAX {
        for threshold in 0..64 {
            let quantized = quantize_balanced(value, maximum, threshold);
            let reconstructed = i32::from(quantized) * 255 / i32::from(maximum);
            let error = reconstructed - i32::from(value);
            signed += i64::from(error);
            absolute += u64::from(error.unsigned_abs());
            worst = worst.max(error.abs());
        }
    }
    (signed, absolute, worst)
}

#[test]
fn balanced_quantization_has_bounded_near_zero_error() {
    assert_eq!(error_statistics(31), (-7_854, 44_162, 8));
    assert_eq!(error_statistics(63), (-6_240, 20_700, 4));
}

#[test]
fn balanced_quantization_preserves_every_reconstruction_level() {
    for maximum in [31, 63] {
        for index in 0..=maximum {
            let value = (index * u16::from(u8::MAX) / maximum) as u8;
            for threshold in 0..64 {
                assert_eq!(quantize_balanced(value, maximum, threshold), index);
            }
        }
    }
}

#[test]
fn reverses_all_png_filter_types() {
    let input = [
        0, 10, 20, 30, 1, 10, 10, 10, 2, 5, 5, 5, 3, 5, 5, 5, 4, 5, 5, 5,
    ];
    let decoded = unfilter(&input, 3, 5, 1, 32, true, DecodeMode::Strict).unwrap();
    assert_eq!(
        decoded.pixels,
        [10, 20, 30, 10, 20, 30, 15, 25, 35, 12, 23, 34, 17, 28, 39]
    );
}

#[test]
fn resets_previous_row_at_block_boundaries() {
    let input = [0, 10, 20, 2, 1, 1, 2, 30, 40, 2, 1, 1];
    let decoded = unfilter(&input, 2, 4, 1, 2, true, DecodeMode::Strict).unwrap();
    assert_eq!(decoded.pixels, [10, 20, 11, 21, 30, 40, 31, 41]);
}

#[test]
fn diagnostic_mode_zero_fills_partial_rows_and_ignores_unknown_filters() {
    let decoded = unfilter(&[9, 1, 2], 2, 2, 1, 32, true, DecodeMode::Diagnostic).unwrap();
    assert_eq!(decoded.pixels, [1, 2, 0, 0]);
    assert_eq!(decoded.warnings.len(), 2);
    assert_eq!(decoded.warnings[0].kind(), WarningKind::PartialData);
    assert_eq!(decoded.warnings[1].kind(), WarningKind::UnknownFilter);
}

#[test]
fn rejects_over_subscribed_huffman_lengths() {
    let error = HuffmanTree::from_lengths(&[1, 1, 1]).unwrap_err();
    assert_eq!(error.kind(), ErrorKind::InvalidCompression);
    assert!(error.message().contains("over-subscribed"));
    assert!(HuffmanTree::from_lengths(&[1, 1]).is_ok());
}
