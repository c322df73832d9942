use vstd::prelude::*;

use crate::error::{Error, ErrorKind, Warning, WarningKind};
use crate::options::DecodeMode;
use crate::seqs::{lemma_chunk_index, lemma_mul_step};

verus! {

/// The Paeth predictor of PNG over left, up and up-left neighbours.
pub open spec fn paeth_spec(left: u8, up: u8, up_left: u8) -> u8 {
    let p = left + up - up_left;
    let pa = if p >= left { p - left } else { left - p };
    let pb = if p >= up { p - up } else { up - p };
    let pc = if p >= up_left { p - up_left } else { up_left - p };
    if pa <= pb && pa <= pc {
        left
    } else if pb <= pc {
        up
    } else {
        up_left
    }
}

/// The value a PNG filter type predicts from the neighbours.
pub open spec fn filter_prediction(filter: u8, left: u8, up: u8, up_left: u8) -> u8 {
    if filter == 1 {
        left
    } else if filter == 2 {
        up
    } else if filter == 3 {
        ((left + up) / 2) as u8
    } else if filter == 4 {
        paeth_spec(left, up, up_left)
    } else {
        0
    }
}

/// Byte addition modulo 256.
pub open spec fn add_mod(a: u8, b: u8) -> u8 {
    ((a + b) % 256) as u8
}

/// Byte subtraction modulo 256.
pub open spec fn sub_mod(a: u8, b: u8) -> u8 {
    ((a - b + 256) % 256) as u8
}

pub fn paeth(left: u8, up: u8, up_left: u8) -> (p: u8)
    ensures
        p == paeth_spec(left, up, up_left),
{
    let left_i = left as i32;
    let up_i = up as i32;
    let up_left_i = up_left as i32;
    let prediction = left_i + up_i - up_left_i;
    let left_distance = if prediction >= left_i { prediction - left_i } else { left_i - prediction };
    let up_distance = if prediction >= up_i { prediction - up_i } else { up_i - prediction };
    let diagonal_distance = if prediction >= up_left_i {
        prediction - up_left_i
    } else {
        up_left_i - prediction
    };
    if left_distance <= up_distance && left_distance <= diagonal_distance {
        left
    } else if up_distance <= diagonal_distance {
        up
    } else {
        up_left
    }
}

fn add_byte(a: u8, b: u8) -> (c: u8)
    ensures
        c == add_mod(a, b),
{
    ((a as u16 + b as u16) % 256) as u8
}

fn predict(filter: u8, left: u8, up: u8, up_left: u8) -> (p: u8)
    ensures
        p == filter_prediction(filter, left, up, up_left),
{
    if filter == 1 {
        left
    } else if filter == 2 {
        up
    } else if filter == 3 {
        ((left as u16 + up as u16) / 2) as u8
    } else if filter == 4 {
        paeth(left, up, up_left)
    } else {
        0
    }
}

/// Geometry of filtered rows: bytes per unfiltered row, and per stored row.
pub open spec fn filtered_row_len(stride: int, has_filters: bool) -> int {
    stride + if has_filters {
        1int
    } else {
        0int
    }
}

/// Whether `row` is the first of its independently filtered block.
pub open spec fn first_in_block(row: int, block_rows: u8) -> bool {
    block_rows == 0 || row % (block_rows as int) == 0
}

/// Byte `col` of unfiltered row `row`, reconstructed from filtered `input`.
/// Bytes that `input` does not reach are zero.
pub open spec fn unfilter_byte(
    input: Seq<u8>,
    stride: int,
    bpp: int,
    block_rows: u8,
    row: nat,
    col: nat,
) -> u8
    decreases row, col,
{
    let start = row * (stride + 1);
    if start + 1 + col >= input.len() || col >= stride {
        0
    } else {
        let raw = input[start + 1 + col];
        let filter = input[start];
        let left = if bpp > 0 && col >= bpp {
            unfilter_byte(input, stride, bpp, block_rows, row, (col - bpp) as nat)
        } else {
            0u8
        };
        let first = first_in_block(row as int, block_rows);
        let up = if first || row == 0 {
            0u8
        } else {
            unfilter_byte(input, stride, bpp, block_rows, (row - 1) as nat, col)
        };
        let up_left = if first || row == 0 || !(bpp > 0 && col >= bpp) {
            0u8
        } else {
            unfilter_byte(input, stride, bpp, block_rows, (row - 1) as nat, (col - bpp) as nat)
        };
        if filter > 4 {
            raw
        } else {
            add_mod(raw, filter_prediction(filter, left, up, up_left))
        }
    }
}

/// The unfiltered image bytes for filtered rows.
pub open spec fn unfiltered_rows(input: Seq<u8>, stride: int, height: int, bpp: int, block_rows: u8) -> Seq<u8> {
    Seq::new(
        (height * stride) as nat,
        |k: int| unfilter_byte(input, stride, bpp, block_rows, (k / stride) as nat, (k % stride) as nat),
    )
}

/// The image bytes for rows stored without filters: the input, cut or zero-padded.
pub open spec fn unfiltered_plain(input: Seq<u8>, len: int) -> Seq<u8> {
    Seq::new(
        len as nat,
        |k: int| if k < input.len() {
            input[k]
        } else {
            0u8
        },
    )
}

/// Whether stored row `row` exists in `input` and names an unknown filter.
pub open spec fn bad_filter_row(input: Seq<u8>, row_len: int, row: int) -> bool {
    row * row_len < input.len() && input[row * row_len] > 4
}

/// One warning kind for each stored row below `rows` with an unknown filter.
pub open spec fn unknown_filter_kinds(input: Seq<u8>, row_len: int, rows: nat) -> Seq<WarningKind>
    decreases rows,
{
    if rows == 0 {
        Seq::empty()
    } else {
        unknown_filter_kinds(input, row_len, (rows - 1) as nat) + if bad_filter_row(
            input,
            row_len,
            rows - 1,
        ) {
            seq![WarningKind::UnknownFilter]
        } else {
            Seq::empty()
        }
    }
}

/// The size checks made before unfiltering; the error kind, if any.
pub open spec fn unfilter_check(width: u32, height: u32, bpp: usize, block_rows: u8, has_filters: bool) -> Option<ErrorKind> {
    let stride = width * bpp;
    let row_len = filtered_row_len(stride, has_filters);
    if stride > usize::MAX || row_len > usize::MAX || height * row_len > usize::MAX || height
        * stride > usize::MAX {
        Some(ErrorKind::LimitExceeded)
    } else if has_filters && block_rows == 0 {
        Some(ErrorKind::InvalidHeader)
    } else {
        None
    }
}

/// Unfiltered pixels and the diagnostics recorded while recovering them.
#[derive(Debug)]
pub struct Unfiltered {
    pub pixels: Vec<u8>,
    pub warnings: Vec<Warning>,
}

/// The warning kinds recorded for a length mismatch, if any.
pub open spec fn length_warning_kinds(len: int, expected: int) -> Seq<WarningKind> {
    if len == expected {
        Seq::empty()
    } else if len < expected {
        seq![WarningKind::PartialData]
    } else {
        seq![WarningKind::TrailingData]
    }
}

/// Whether unfiltering `input` may succeed with `pixels` and the warning kinds `warnings`.
pub open spec fn unfilter_accepts(
    input: Seq<u8>,
    width: u32,
    height: u32,
    bpp: usize,
    block_rows: u8,
    has_filters: bool,
    mode: DecodeMode,
    pixels: Seq<u8>,
    warnings: Seq<WarningKind>,
) -> bool {
    let stride = width * bpp;
    let row_len = filtered_row_len(stride, has_filters);
    let expected = height * row_len;
    &&& unfilter_check(width, height, bpp, block_rows, has_filters) is None
    &&& !(mode == DecodeMode::Strict && input.len() != expected)
    &&& !(mode == DecodeMode::Strict && has_filters && exists|row: int| 0 <= row < height && bad_filter_row(input, row_len, row))
    &&& pixels == if has_filters {
        unfiltered_rows(input, stride, height as int, bpp as int, block_rows)
    } else {
        unfiltered_plain(input, height * stride)
    }
    &&& warnings == length_warning_kinds(input.len() as int, expected) + if has_filters {
        unknown_filter_kinds(input, row_len, height as nat)
    } else {
        Seq::empty()
    }
}

/// Unfiltering `input`: the pixels and the warning kinds recorded, or the error kind.
pub open spec fn unfilter_outcome(
    input: Seq<u8>,
    width: u32,
    height: u32,
    bpp: usize,
    block_rows: u8,
    has_filters: bool,
    mode: DecodeMode,
) -> Result<(Seq<u8>, Seq<WarningKind>), ErrorKind> {
    let stride = width * bpp;
    let row_len = filtered_row_len(stride, has_filters);
    let expected = height * row_len;
    match unfilter_check(width, height, bpp, block_rows, has_filters) {
        Some(kind) => Err(kind),
        None => if mode == DecodeMode::Strict && input.len() != expected {
            Err(ErrorKind::InvalidPixelLayout)
        } else if mode == DecodeMode::Strict && has_filters && exists|row: int|
            0 <= row < height && bad_filter_row(input, row_len, row) {
            Err(ErrorKind::InvalidFilter)
        } else {
            Ok((
                if has_filters {
                    unfiltered_rows(input, stride, height as int, bpp as int, block_rows)
                } else {
                    unfiltered_plain(input, height * stride)
                },
                length_warning_kinds(input.len() as int, expected) + if has_filters {
                    unknown_filter_kinds(input, row_len, height as nat)
                } else {
                    Seq::empty()
                },
            ))
        },
    }
}

/// Whether unfiltering `input` may fail with `kind`.
pub open spec fn unfilter_rejects(
    input: Seq<u8>,
    width: u32,
    height: u32,
    bpp: usize,
    block_rows: u8,
    has_filters: bool,
    mode: DecodeMode,
    kind: ErrorKind,
) -> bool {
    let stride = width * bpp;
    let row_len = filtered_row_len(stride, has_filters);
    let check = unfilter_check(width, height, bpp, block_rows, has_filters);
    if check is Some {
        check == Some(kind)
    } else if mode == DecodeMode::Strict && input.len() != height * row_len {
        kind == ErrorKind::InvalidPixelLayout
    } else {
        mode == DecodeMode::Strict && kind == ErrorKind::InvalidFilter && has_filters && exists|row: int|
            0 <= row < height && bad_filter_row(input, row_len, row)
    }
}

/// Reverse the per-row PNG filters of `input`, resetting the row above at each
/// `block_rows` boundary.
pub fn unfilter(
    input: &[u8],
    width: u32,
    height: u32,
    bytes_per_pixel: usize,
    block_rows: u8,
    has_filters: bool,
    mode: DecodeMode,
) -> (r: crate::Result<Unfiltered>)
    ensures
        ({
            let stride = width * bytes_per_pixel;
            let row_len = filtered_row_len(stride, has_filters);
            let expected = height * row_len;
            let check = unfilter_check(width, height, bytes_per_pixel, block_rows, has_filters);
            let length_bad = mode == DecodeMode::Strict && input@.len() != expected;
            let some_bad_row = has_filters && exists|row: int|
                0 <= row < height && bad_filter_row(input@, row_len, row);
            match r {
                Ok(u) => check is None && !length_bad && !(mode == DecodeMode::Strict && some_bad_row)
                    && (if has_filters {
                    u.pixels@ == unfiltered_rows(input@, stride, height as int, bytes_per_pixel as int, block_rows)
                } else {
                    u.pixels@ == unfiltered_plain(input@, height * stride)
                }) && crate::error::warning_kinds(u.warnings@) == length_warning_kinds(
                    input@.len() as int,
                    expected,
                ) + if has_filters {
                    unknown_filter_kinds(input@, row_len, height as nat)
                } else {
                    Seq::empty()
                },
                Err(e) => if check is Some {
                    check == Some(e.kind_spec())
                } else if length_bad {
                    e.kind_spec() == ErrorKind::InvalidPixelLayout
                } else {
                    mode == DecodeMode::Strict && e.kind_spec() == ErrorKind::InvalidFilter && (
                    e.row_index_spec() matches Some(row) && row < height && bad_filter_row(
                        input@,
                        row_len,
                        row as int,
                    ) && forall|prev: int| 0 <= prev < row ==> !bad_filter_row(input@, row_len, prev))
                },
            }
        }),
        r matches Ok(u) ==> unfilter_accepts(
            input@,
            width,
            height,
            bytes_per_pixel,
            block_rows,
            has_filters,
            mode,
            u.pixels@,
            crate::error::warning_kinds(u.warnings@),
        ),
        r matches Err(e) ==> unfilter_rejects(input@, width, height, bytes_per_pixel, block_rows, has_filters, mode, e.kind_spec()),
        match r {
            Ok(u) => unfilter_outcome(input@, width, height, bytes_per_pixel, block_rows, has_filters, mode) == Ok::<
                (Seq<u8>, Seq<WarningKind>),
                ErrorKind,
            >((u.pixels@, crate::error::warning_kinds(u.warnings@))),
            Err(e) => unfilter_outcome(input@, width, height, bytes_per_pixel, block_rows, has_filters, mode) == Err::<
                (Seq<u8>, Seq<WarningKind>),
                ErrorKind,
            >(e.kind_spec()),
        },
{
    let stride = match (width as usize).checked_mul(bytes_per_pixel) {
        Some(v) => v,
        None => return Err(Error::new(ErrorKind::LimitExceeded, "eZIP row size overflow")),
    };
    let row_len = match stride.checked_add(if has_filters { 1 } else { 0 }) {
        Some(v) => v,
        None => return Err(Error::new(ErrorKind::LimitExceeded, "eZIP row size overflow")),
    };
    let expected_input = match (height as usize).checked_mul(row_len) {
        Some(v) => v,
        None => return Err(Error::new(ErrorKind::LimitExceeded, "eZIP image size overflow")),
    };
    let output_len = match (height as usize).checked_mul(stride) {
        Some(v) => v,
        None => return Err(Error::new(ErrorKind::LimitExceeded, "eZIP image size overflow")),
    };
    if has_filters && block_rows == 0 {
        return Err(Error::new(ErrorKind::InvalidHeader, "filtered eZIP data requires a positive block-row count"));
    }
    let mut warnings: Vec<Warning> = Vec::new();
    if input.len() != expected_input {
        if mode == DecodeMode::Strict {
            return Err(Error::new(ErrorKind::InvalidPixelLayout, "decompressed eZIP data does not match the image size"));
        }
        let kind = if input.len() < expected_input {
            WarningKind::PartialData
        } else {
            WarningKind::TrailingData
        };
        warnings.push(Warning::new(kind, "decompressed eZIP data does not match the image size"));
    }
    assert(crate::error::warning_kinds(warnings@) =~= length_warning_kinds(input@.len() as int, expected_input as int));
    let mut pixels: Vec<u8> = vec![0u8; output_len];
    if !has_filters {
        let mut k: usize = 0;
        while k < output_len
            invariant
                k <= output_len,
                pixels@.len() == output_len,
                forall|i: int| 0 <= i < k ==> pixels@[i] == unfiltered_plain(input@, output_len as int)[i],
            decreases output_len - k,
        {
            if k < input.len() {
                pixels.set(k, input[k]);
            } else {
                pixels.set(k, 0);
            }
            k = k + 1;
        }
        assert(pixels@ =~= unfiltered_plain(input@, output_len as int));
        assert(crate::error::warning_kinds(warnings@) =~= crate::error::warning_kinds(warnings@) + Seq::<WarningKind>::empty());
        return Ok(Unfiltered { pixels, warnings });
    }
    let ghost spec_input = input@;
    let ghost kinds_before = crate::error::warning_kinds(warnings@);
    let mut row: u32 = 0;
    let mut row_start: usize = 0;
    let mut input_start: usize = 0;
    while row < height
        invariant
            row <= height,
            stride == width * bytes_per_pixel,
            row_len == stride + 1,
            has_filters,
            block_rows > 0,
            row_start == row * stride,
            input_start == row * row_len,
            output_len == height * stride,
            expected_input == height * row_len,
            spec_input == input@,
            unfilter_check(width, height, bytes_per_pixel, block_rows, has_filters) is None,
            mode == DecodeMode::Strict ==> input@.len() == expected_input,
            pixels@.len() == output_len,
            forall|k: int| 0 <= k < row_start ==> pixels@[k] == #[trigger] unfilter_byte(
                spec_input,
                stride as int,
                bytes_per_pixel as int,
                block_rows,
                (k / stride as int) as nat,
                (k % stride as int) as nat,
            ),
            forall|k: int| row_start <= k < output_len ==> pixels@[k] == 0,
            crate::error::warning_kinds(warnings@) == kinds_before + unknown_filter_kinds(
                spec_input,
                row_len as int,
                row as nat,
            ),
            mode == DecodeMode::Strict ==> forall|prev: int|
                0 <= prev < row ==> !bad_filter_row(spec_input, row_len as int, prev),
        decreases height - row,
    {
        proof {
            lemma_mul_step(row as int, height as int, stride as int);
            lemma_mul_step(row as int, height as int, row_len as int);
        }
        let ghost old_warnings = warnings@;
        let ghost bad = bad_filter_row(spec_input, row_len as int, row as int);
        proof {
            assert(row * row_len == input_start);
        }
        if input_start < input.len() {
            let filter = input[input_start];
            if filter > 4 {
                if mode == DecodeMode::Strict {
                    proof {
                        assert(bad_filter_row(spec_input, row_len as int, row as int));
                    }
                    return Err(Error::new(ErrorKind::InvalidFilter, "unknown PNG filter on eZIP row").on_row(row));
                }
                warnings.push(Warning::new(WarningKind::UnknownFilter, "unknown PNG filter on eZIP row").on_row(row));
            }
            let remaining = input.len() - input_start - 1;
            let available = if remaining < stride {
                remaining
            } else {
                stride
            };
            let first_in = row % (block_rows as u32) == 0;
            let mut col: usize = 0;
            while col < available
                invariant
                    col <= available,
                    available <= stride,
                    available == (if input@.len() - input_start - 1 < stride {
                        input@.len() - input_start - 1
                    } else {
                        stride as int
                    }),
                    input_start < input@.len(),
                    input_start + row_len <= expected_input,
                    row < height,
                    stride == width * bytes_per_pixel,
                    row_len == stride + 1,
                    block_rows > 0,
                    first_in == first_in_block(row as int, block_rows),
                    filter == input@[input_start as int],
                    row_start == row * stride,
                    row_start + stride <= output_len,
                    input_start == row * row_len,
                    output_len == height * stride,
                    spec_input == input@,
                    pixels@.len() == output_len,
                    forall|k: int| 0 <= k < row_start + col ==> pixels@[k] == #[trigger] unfilter_byte(
                        spec_input,
                        stride as int,
                        bytes_per_pixel as int,
                        block_rows,
                        (k / stride as int) as nat,
                        (k % stride as int) as nat,
                    ),
                    forall|k: int| row_start + col <= k < output_len ==> pixels@[k] == 0,
                decreases available - col,
            {
                let output_index = row_start + col;
                let raw = input[input_start + 1 + col];
                let ghost ub = |r: nat, c: nat| unfilter_byte(
                    spec_input,
                    stride as int,
                    bytes_per_pixel as int,
                    block_rows,
                    r,
                    c,
                );
                proof {
                    lemma_chunk_index(output_index as int, row as int, stride as int);
                }
                let left = if bytes_per_pixel > 0 && col >= bytes_per_pixel {
                    proof {
                        let k = (output_index - bytes_per_pixel) as int;
                        lemma_chunk_index(k, row as int, stride as int);
                        assert(pixels@[k] == unfilter_byte(
                            spec_input,
                            stride as int,
                            bytes_per_pixel as int,
                            block_rows,
                            (k / stride as int) as nat,
                            (k % stride as int) as nat,
                        ));
                    }
                    pixels[output_index - bytes_per_pixel]
                } else {
                    0
                };
                proof {
                    if bytes_per_pixel > 0 && col >= bytes_per_pixel {
                        assert(left == ub(row as nat, (col - bytes_per_pixel) as nat));
                    }
                }
                let up = if first_in || row == 0 {
                    0
                } else {
                    proof {
                        assert(row_start - stride == (row - 1) * stride) by (nonlinear_arith)
                            requires
                                row_start == row * stride,
                        ;
                        let k = (output_index - stride) as int;
                        lemma_chunk_index(k, (row - 1) as int, stride as int);
                        assert(pixels@[k] == unfilter_byte(
                            spec_input,
                            stride as int,
                            bytes_per_pixel as int,
                            block_rows,
                            (k / stride as int) as nat,
                            (k % stride as int) as nat,
                        ));
                    }
                    pixels[output_index - stride]
                };
                proof {
                    if !(first_in || row == 0) {
                        assert(up == ub((row - 1) as nat, col as nat));
                    }
                }
                let up_left = if first_in || row == 0 || !(bytes_per_pixel > 0 && col >= bytes_per_pixel) {
                    0
                } else {
                    proof {
                        assert(row_start - stride == (row - 1) * stride) by (nonlinear_arith)
                            requires
                                row_start == row * stride,
                        ;
                        let k = (output_index - stride - bytes_per_pixel) as int;
                        lemma_chunk_index(k, (row - 1) as int, stride as int);
                        assert(pixels@[k] == unfilter_byte(
                            spec_input,
                            stride as int,
                            bytes_per_pixel as int,
                            block_rows,
                            (k / stride as int) as nat,
                            (k % stride as int) as nat,
                        ));
                    }
                    pixels[output_index - stride - bytes_per_pixel]
                };
                proof {
                    if !(first_in || row == 0 || !(bytes_per_pixel > 0 && col >= bytes_per_pixel)) {
                        assert(up_left == ub((row - 1) as nat, (col - bytes_per_pixel) as nat));
                    }
                }
                let value = if filter > 4 {
                    raw
                } else {
                    add_byte(raw, predict(filter, left, up, up_left))
                };
                proof {
                    assert(row * (stride + 1) == input_start);
                    assert(value == ub(row as nat, col as nat));
                }
                pixels.set(output_index, value);
                col = col + 1;
            }
            proof {
                assert forall|k: int| row_start + col <= k < row_start + stride implies #[trigger] unfilter_byte(
                    spec_input,
                    stride as int,
                    bytes_per_pixel as int,
                    block_rows,
                    (k / stride as int) as nat,
                    (k % stride as int) as nat,
                ) == 0 by {
                    lemma_chunk_index(k, row as int, stride as int);
                    assert(row * (stride + 1) == input_start);
                }
            }
        } else {
            proof {
                assert forall|k: int| row_start <= k < row_start + stride implies #[trigger] unfilter_byte(
                    spec_input,
                    stride as int,
                    bytes_per_pixel as int,
                    block_rows,
                    (k / stride as int) as nat,
                    (k % stride as int) as nat,
                ) == 0 by {
                    lemma_chunk_index(k, row as int, stride as int);
                    assert(row * (stride + 1) == input_start);
                }
            }
        }
        proof {
            let added: Seq<WarningKind> = if bad {
                seq![WarningKind::UnknownFilter]
            } else {
                Seq::empty()
            };
            if bad {
                assert(warnings@ == old_warnings.push(warnings@.last()));
                assert(crate::error::warning_kinds(warnings@) =~= crate::error::warning_kinds(old_warnings) + added);
            } else {
                assert(warnings@ == old_warnings);
                assert(crate::error::warning_kinds(warnings@) =~= crate::error::warning_kinds(old_warnings) + added);
            }
            assert(unknown_filter_kinds(spec_input, row_len as int, (row + 1) as nat)
                == unknown_filter_kinds(spec_input, row_len as int, row as nat) + added);
            assert(crate::error::warning_kinds(warnings@) =~= kinds_before + unknown_filter_kinds(
                spec_input,
                row_len as int,
                (row + 1) as nat,
            ));
            if mode == DecodeMode::Strict {
                assert(!bad);
                assert forall|prev: int| 0 <= prev < row + 1 implies !bad_filter_row(
                    spec_input,
                    row_len as int,
                    prev,
                ) by {
                    if prev < row {
                    }
                }
            }
        }
        proof {
            assert((row + 1) * stride == row * stride + stride) by (nonlinear_arith);
            assert((row + 1) * row_len == row * row_len + row_len) by (nonlinear_arith);
        }
        row = row + 1;
        row_start = row_start + stride;
        input_start = input_start + row_len;
    }
    proof {
        assert(pixels@ =~= unfiltered_rows(spec_input, stride as int, height as int, bytes_per_pixel as int, block_rows));
    }
    Ok(Unfiltered { pixels, warnings })
}


/// Byte `i` of a row filtered with `filter` against the row above, if any.
pub open spec fn candidate_byte(cur: Seq<u8>, prev: Option<Seq<u8>>, bpp: int, filter: u8, i: int) -> u8 {
    let left = if i >= bpp {
        cur[i - bpp]
    } else {
        0u8
    };
    let up = match prev {
        Some(p) => p[i],
        None => 0u8,
    };
    let up_left = if i >= bpp {
        match prev {
            Some(p) => p[i - bpp],
            None => 0u8,
        }
    } else {
        0u8
    };
    sub_mod(cur[i], filter_prediction(filter, left, up, up_left))
}

/// A row filtered with `filter`.
pub open spec fn filter_candidate_spec(cur: Seq<u8>, prev: Option<Seq<u8>>, bpp: int, filter: u8) -> Seq<u8> {
    Seq::new(cur.len(), |i: int| candidate_byte(cur, prev, bpp, filter, i))
}

/// The cost of a filtered row: the sum of each byte's distance from zero modulo 256.
pub open spec fn row_score(row: Seq<u8>) -> int
    decreases row.len(),
{
    if row.len() == 0 {
        0
    } else {
        let v = row.last();
        row_score(row.drop_last()) + if v <= 128 {
            v as int
        } else {
            256 - v
        }
    }
}

/// The earliest filter below `n` with the smallest score.
pub open spec fn best_filter_below(scores: spec_fn(u8) -> int, n: nat) -> u8
    decreases n,
{
    if n <= 1 {
        0
    } else {
        let best = best_filter_below(scores, (n - 1) as nat);
        if scores((n - 1) as u8) < scores(best) {
            (n - 1) as u8
        } else {
            best
        }
    }
}

/// Unfiltered row `r` of a tightly packed image.
pub open spec fn image_row(pixels: Seq<u8>, stride: int, r: int) -> Seq<u8> {
    pixels.subrange(r * stride, r * stride + stride)
}

/// The row a filter of row `r` predicts from, if any.
pub open spec fn row_above(pixels: Seq<u8>, stride: int, block_rows: u8, r: int) -> Option<Seq<u8>> {
    if first_in_block(r, block_rows) {
        None
    } else {
        Some(image_row(pixels, stride, r - 1))
    }
}

/// The filter the adaptive encoder selects for row `r`.
pub open spec fn adaptive_filter(pixels: Seq<u8>, stride: int, bpp: int, block_rows: u8, r: int) -> u8 {
    best_filter_below(
        |f: u8|
            row_score(
                filter_candidate_spec(
                    image_row(pixels, stride, r),
                    row_above(pixels, stride, block_rows, r),
                    bpp,
                    f,
                ),
            ),
        5,
    )
}

/// A stored row: its filter byte followed by the filtered bytes.
pub open spec fn stored_row(pixels: Seq<u8>, stride: int, bpp: int, block_rows: u8, r: int, filter: u8) -> Seq<u8> {
    seq![filter] + filter_candidate_spec(
        image_row(pixels, stride, r),
        row_above(pixels, stride, block_rows, r),
        bpp,
        filter,
    )
}

/// The adaptively filtered rows of an image.
pub open spec fn filter_rows_spec(pixels: Seq<u8>, stride: int, height: nat, bpp: int, block_rows: u8) -> Seq<u8> {
    crate::seqs::concat_chunks(
        |r: int| stored_row(pixels, stride, bpp, block_rows, r, adaptive_filter(pixels, stride, bpp, block_rows, r)),
        height,
    )
}

fn sub_byte(a: u8, b: u8) -> (c: u8)
    ensures
        c == sub_mod(a, b),
{
    ((a as u16 + 256 - b as u16) % 256) as u8
}

fn filter_candidate(current: &[u8], previous: Option<&[u8]>, bytes_per_pixel: usize, filter: u8) -> (out: Vec<u8>)
    requires
        bytes_per_pixel > 0,
        filter <= 4,
        previous matches Some(p) ==> p@.len() == current@.len(),
    ensures
        out@ == filter_candidate_spec(
            current@,
            match previous {
                Some(p) => Some(p@),
                None => None,
            },
            bytes_per_pixel as int,
            filter,
        ),
{
    let ghost prev_view: Option<Seq<u8>> = match previous {
        Some(p) => Some(p@),
        None => None,
    };
    let mut out: Vec<u8> = Vec::new();
    let mut index: usize = 0;
    while index < current.len()
        invariant
            index <= current@.len(),
            bytes_per_pixel > 0,
            prev_view == (match previous {
                Some(p) => Some(p@),
                None => None,
            }),
            previous matches Some(p) ==> p@.len() == current@.len(),
            out@.len() == index,
            forall|i: int| 0 <= i < index ==> out@[i] == candidate_byte(current@, prev_view, bytes_per_pixel as int, filter, i),
        decreases current@.len() - index,
    {
        let value = current[index];
        let left = if index >= bytes_per_pixel {
            current[index - bytes_per_pixel]
        } else {
            0
        };
        let up = match previous {
            Some(row) => row[index],
            None => 0,
        };
        let up_left = if index >= bytes_per_pixel {
            match previous {
                Some(row) => row[index - bytes_per_pixel],
                None => 0,
            }
        } else {
            0
        };
        out.push(sub_byte(value, predict(filter, left, up, up_left)));
        index = index + 1;
    }
    assert(out@ =~= filter_candidate_spec(current@, prev_view, bytes_per_pixel as int, filter));
    out
}

fn filter_score(row: &[u8]) -> (score: u64)
    requires
        row@.len() <= 0xFFFF_FFFF,
    ensures
        score == row_score(row@),
{
    let mut score: u64 = 0;
    let mut index: usize = 0;
    while index < row.len()
        invariant
            index <= row@.len(),
            row@.len() <= 0xFFFF_FFFF,
            score == row_score(row@.subrange(0, index as int)),
            score <= 128 * index,
        decreases row@.len() - index,
    {
        let value = row[index];
        let cost: u64 = if value <= 128 {
            value as u64
        } else {
            256 - value as u64
        };
        proof {
            let next = row@.subrange(0, index + 1);
            assert(next.drop_last() =~= row@.subrange(0, index as int));
            assert(next.last() == value);
        }
        score = score + cost;
        index = index + 1;
    }
    assert(row@.subrange(0, row@.len() as int) =~= row@);
    score
}

/// Filter every row with the PNG filter of smallest cost, resetting the row
/// above at each `block_rows` boundary.
pub(crate) fn filter_rows(pixels: &[u8], width: usize, height: usize, bytes_per_pixel: usize, block_rows: u8) -> (out: Vec<u8>)
    requires
        block_rows > 0,
        bytes_per_pixel > 0,
        width * bytes_per_pixel <= 0xFFFF_FFFF,
        height * (width * bytes_per_pixel + 1) <= usize::MAX,
        pixels@.len() >= height * (width * bytes_per_pixel),
    ensures
        out@ == filter_rows_spec(pixels@, width * bytes_per_pixel, height as nat, bytes_per_pixel as int, block_rows),
{
    let stride = width * bytes_per_pixel;
    let pixels_len = pixels.len();
    let ghost f = |r: int| stored_row(pixels@, stride as int, bytes_per_pixel as int, block_rows, r, adaptive_filter(pixels@, stride as int, bytes_per_pixel as int, block_rows, r));
    let mut output: Vec<u8> = Vec::new();
    let mut row: usize = 0;
    let mut row_start: usize = 0;
    while row < height
        invariant
            row <= height,
            stride == width * bytes_per_pixel,
            stride <= 0xFFFF_FFFF,
            block_rows > 0,
            bytes_per_pixel > 0,
            row_start == row * stride,
            pixels@.len() >= height * stride,
            pixels_len == pixels@.len(),
            output@ == crate::seqs::concat_chunks(f, row as nat),
            f == (|r: int| stored_row(pixels@, stride as int, bytes_per_pixel as int, block_rows, r, adaptive_filter(pixels@, stride as int, bytes_per_pixel as int, block_rows, r))),
        decreases height - row,
    {
        proof {
            lemma_mul_step(row as int, height as int, stride as int);
        }
        let current = &pixels[row_start..row_start + stride];
        let previous = if row % (block_rows as usize) == 0 {
            None
        } else {
            proof {
                assert(row >= 1) by {
                    if row == 0 {
                        assert(0usize % (block_rows as usize) == 0) by (nonlinear_arith)
                            requires
                                block_rows > 0,
                        ;
                    }
                }
                assert(row_start - stride == (row - 1) * stride && (row - 1) * stride >= 0) by (nonlinear_arith)
                    requires
                        row_start == row * stride,
                        row >= 1,
                ;
            }
            Some(&pixels[row_start - stride..row_start])
        };
        let ghost cur_view = image_row(pixels@, stride as int, row as int);
        let ghost prev_view = row_above(pixels@, stride as int, block_rows, row as int);
        proof {
            assert(current@ == cur_view);
            assert(prev_view == match previous {
                Some(p) => Some(p@),
                None => None,
            });
        }
        let ghost scores = |f: u8| row_score(filter_candidate_spec(cur_view, prev_view, bytes_per_pixel as int, f));
        let mut best_filter: u8 = 0;
        let mut best = filter_candidate(current, previous, bytes_per_pixel, 0);
        let mut best_score = filter_score(best.as_slice());
        let mut filter: u8 = 1;
        while filter <= 4
            invariant
                1 <= filter <= 5,
                bytes_per_pixel > 0,
                current@ == cur_view,
                current@.len() == stride,
                stride <= 0xFFFF_FFFF,
                previous matches Some(p) ==> p@.len() == current@.len(),
                prev_view == (match previous {
                    Some(p) => Some(p@),
                    None => None,
                }),
                scores == (|f: u8| row_score(filter_candidate_spec(cur_view, prev_view, bytes_per_pixel as int, f))),
                best_filter == best_filter_below(scores, filter as nat),
                best@ == filter_candidate_spec(cur_view, prev_view, bytes_per_pixel as int, best_filter),
                best_score == scores(best_filter),
            decreases 5 - filter,
        {
            let candidate = filter_candidate(current, previous, bytes_per_pixel, filter);
            let score = filter_score(candidate.as_slice());
            if score < best_score {
                best_filter = filter;
                best = candidate;
                best_score = score;
            }
            filter = filter + 1;
        }
        proof {
            assert(best_filter == adaptive_filter(pixels@, stride as int, bytes_per_pixel as int, block_rows, row as int));
        }
        let ghost before = output@;
        output.push(best_filter);
        output.extend_from_slice(best.as_slice());
        proof {
            assert(output@ =~= before + stored_row(pixels@, stride as int, bytes_per_pixel as int, block_rows, row as int, best_filter));
            assert(f(row as int) == stored_row(pixels@, stride as int, bytes_per_pixel as int, block_rows, row as int, best_filter));
            assert((row + 1) * stride == row * stride + stride) by (nonlinear_arith);
        }
        row = row + 1;
        row_start = row_start + stride;
    }
    output
}


/// Rows stored with the given per-row filters.
pub open spec fn stored_rows_with(
    pixels: Seq<u8>,
    stride: int,
    height: nat,
    bpp: int,
    block_rows: u8,
    filters: spec_fn(int) -> u8,
) -> Seq<u8> {
    crate::seqs::concat_chunks(|r: int| stored_row(pixels, stride, bpp, block_rows, r, filters(r)), height)
}

proof fn lemma_stored_rows_layout(
    pixels: Seq<u8>,
    stride: int,
    height: nat,
    bpp: int,
    block_rows: u8,
    filters: spec_fn(int) -> u8,
)
    requires
        stride >= 0,
        pixels.len() >= height * stride,
    ensures
        stored_rows_with(pixels, stride, height, bpp, block_rows, filters).len() == height * (stride + 1),
        forall|r: int, c: int|
            0 <= r < height && 0 <= c < stride + 1 ==> #[trigger] stored_rows_with(
                pixels,
                stride,
                height,
                bpp,
                block_rows,
                filters,
            )[r * (stride + 1) + c] == stored_row(pixels, stride, bpp, block_rows, r, filters(r))[c],
{
    let f = |r: int| stored_row(pixels, stride, bpp, block_rows, r, filters(r));
    assert forall|r: int| 0 <= r < height implies (#[trigger] f(r)).len() == stride + 1 by {
        lemma_mul_step(r, height as int, stride);
    }
    crate::seqs::lemma_concat_chunks(f, height, (stride + 1) as nat);
    assert(stored_rows_with(pixels, stride, height, bpp, block_rows, filters) == crate::seqs::concat_chunks(f, height));
    assert forall|r: int, c: int| 0 <= r < height && 0 <= c < stride + 1 implies #[trigger] stored_rows_with(
        pixels,
        stride,
        height,
        bpp,
        block_rows,
        filters,
    )[r * (stride + 1) + c] == stored_row(pixels, stride, bpp, block_rows, r, filters(r))[c] by {
        assert(f(r)[c] == stored_row(pixels, stride, bpp, block_rows, r, filters(r))[c]);
    }
}

proof fn lemma_stored_byte(
    pixels: Seq<u8>,
    stride: int,
    height: nat,
    bpp: int,
    block_rows: u8,
    filters: spec_fn(int) -> u8,
    r: nat,
    c: nat,
)
    requires
        stride >= 0,
        pixels.len() >= height * stride,
        r < height,
        c < stride,
    ensures
        ({
            let filtered = stored_rows_with(pixels, stride, height, bpp, block_rows, filters);
            let start = r * (stride + 1);
            &&& filtered.len() == height * (stride + 1)
            &&& start + 1 + c < filtered.len()
            &&& filtered[start] == filters(r as int)
            &&& filtered[start + 1 + c] == candidate_byte(
                image_row(pixels, stride, r as int),
                row_above(pixels, stride, block_rows, r as int),
                bpp,
                filters(r as int),
                c as int,
            )
            &&& image_row(pixels, stride, r as int)[c as int] == pixels[r * stride + c]
        }),
{
    let filtered = stored_rows_with(pixels, stride, height, bpp, block_rows, filters);
    lemma_stored_rows_layout(pixels, stride, height, bpp, block_rows, filters);
    lemma_mul_step(r as int, height as int, stride);
    lemma_mul_step(r as int, height as int, stride + 1);
    let start = r * (stride + 1);
    let row = stored_row(pixels, stride, bpp, block_rows, r as int, filters(r as int));
    assert(filtered[r * (stride + 1) + 0] == row[0]);
    assert(filtered[r * (stride + 1) + (1 + c)] == row[1 + c as int]);
}

proof fn lemma_add_sub_mod(x: u8, y: u8)
    ensures
        add_mod(sub_mod(x, y), y) == x,
{
}

#[verifier::rlimit(40)]
proof fn lemma_unfilter_recovers_byte(
    pixels: Seq<u8>,
    stride: int,
    height: nat,
    bpp: int,
    block_rows: u8,
    filters: spec_fn(int) -> u8,
    r: nat,
    c: nat,
)
    requires
        stride >= 0,
        bpp > 0,
        block_rows > 0,
        pixels.len() >= height * stride,
        forall|row: int| 0 <= row < height ==> #[trigger] filters(row) <= 4,
        r < height,
        c < stride,
    ensures
        unfilter_byte(stored_rows_with(pixels, stride, height, bpp, block_rows, filters), stride, bpp, block_rows, r, c)
            == pixels[r * stride + c],
    decreases r, c,
{
    let filtered = stored_rows_with(pixels, stride, height, bpp, block_rows, filters);
    let ub = |rr: nat, cc: nat| unfilter_byte(filtered, stride, bpp, block_rows, rr, cc);
    lemma_stored_byte(pixels, stride, height, bpp, block_rows, filters, r, c);
    let f = filters(r as int);
    assert(f <= 4);
    let cur = image_row(pixels, stride, r as int);
    let prev = row_above(pixels, stride, block_rows, r as int);
    let first = first_in_block(r as int, block_rows);
    if r == 0 {
        assert(first) by {
            assert(0int % (block_rows as int) == 0) by (nonlinear_arith)
                requires
                    block_rows > 0,
            ;
        }
    }
    let left: u8 = if c >= bpp {
        cur[c - bpp]
    } else {
        0
    };
    let up: u8 = if first {
        0
    } else {
        image_row(pixels, stride, r - 1)[c as int]
    };
    let up_left: u8 = if !first && c >= bpp {
        image_row(pixels, stride, r - 1)[c - bpp]
    } else {
        0
    };
    assert(candidate_byte(cur, prev, bpp, f, c as int) == sub_mod(cur[c as int], filter_prediction(f, left, up, up_left)));
    if c >= bpp {
        lemma_unfilter_recovers_byte(pixels, stride, height, bpp, block_rows, filters, r, (c - bpp) as nat);
        lemma_stored_byte(pixels, stride, height, bpp, block_rows, filters, r, (c - bpp) as nat);
        assert(ub(r, (c - bpp) as nat) == left);
    }
    if !first {
        lemma_unfilter_recovers_byte(pixels, stride, height, bpp, block_rows, filters, (r - 1) as nat, c);
        lemma_stored_byte(pixels, stride, height, bpp, block_rows, filters, (r - 1) as nat, c);
        assert(ub((r - 1) as nat, c) == up);
        if c >= bpp {
            lemma_unfilter_recovers_byte(
                pixels,
                stride,
                height,
                bpp,
                block_rows,
                filters,
                (r - 1) as nat,
                (c - bpp) as nat,
            );
            lemma_stored_byte(pixels, stride, height, bpp, block_rows, filters, (r - 1) as nat, (c - bpp) as nat);
            assert(ub((r - 1) as nat, (c - bpp) as nat) == up_left);
        }
    }
    lemma_add_sub_mod(cur[c as int], filter_prediction(f, left, up, up_left));
    assert(ub(r, c) == add_mod(filtered[r * (stride + 1) + 1 + c], filter_prediction(f, left, up, up_left)));
}

/// Reversing the filters of rows that were each filtered with a PNG filter
/// (types 0 through 4) gives the original image bytes back.
pub proof fn lemma_unfilter_inverts_filters(
    pixels: Seq<u8>,
    stride: int,
    height: nat,
    bpp: int,
    block_rows: u8,
    filters: spec_fn(int) -> u8,
)
    requires
        stride >= 0,
        bpp > 0,
        block_rows > 0,
        pixels.len() >= height * stride,
        forall|row: int| 0 <= row < height ==> #[trigger] filters(row) <= 4,
    ensures
        unfiltered_rows(stored_rows_with(pixels, stride, height, bpp, block_rows, filters), stride, height as int, bpp, block_rows)
            == pixels.subrange(0, height * stride),
{
    let filtered = stored_rows_with(pixels, stride, height, bpp, block_rows, filters);
    let out = unfiltered_rows(filtered, stride, height as int, bpp, block_rows);
    let expected = pixels.subrange(0, height * stride);
    assert forall|k: int| 0 <= k < height * stride implies out[k] == expected[k] by {
        let r = k / stride;
        let c = k % stride;
        assert(stride > 0) by (nonlinear_arith)
            requires
                0 <= k < height * stride,
                stride >= 0,
        ;
        vstd::arithmetic::div_mod::lemma_fundamental_div_mod(k, stride);
        assert(r < height) by (nonlinear_arith)
            requires
                k == stride * r + c,
                0 <= c < stride,
                k < height * stride,
        ;
        assert(r >= 0) by (nonlinear_arith)
            requires
                k == stride * r + c,
                0 <= c < stride,
                k >= 0,
        ;
        lemma_unfilter_recovers_byte(pixels, stride, height, bpp, block_rows, filters, r as nat, c as nat);
        assert(r * stride + c == k) by (nonlinear_arith)
            requires
                k == stride * r + c,
        ;
    }
    assert(out =~= expected);
}

/// The adaptive filter of every row is a PNG filter type.
pub proof fn lemma_adaptive_filter_valid(pixels: Seq<u8>, stride: int, bpp: int, block_rows: u8, r: int)
    ensures
        adaptive_filter(pixels, stride, bpp, block_rows, r) <= 4,
{
    let scores = |f: u8|
        row_score(
            filter_candidate_spec(image_row(pixels, stride, r), row_above(pixels, stride, block_rows, r), bpp, f),
        );
    lemma_best_filter_below(scores, 5);
}

proof fn lemma_best_filter_below(scores: spec_fn(u8) -> int, n: nat)
    requires
        n <= 5,
    ensures
        best_filter_below(scores, n) < if n == 0 {
            1
        } else {
            n
        },
    decreases n,
{
    if n > 1 {
        lemma_best_filter_below(scores, (n - 1) as nat);
    }
}

/// Reversing the adaptive filters gives the original image bytes back.
pub proof fn lemma_unfilter_inverts_filter_rows(pixels: Seq<u8>, stride: int, height: nat, bpp: int, block_rows: u8)
    requires
        stride >= 0,
        bpp > 0,
        block_rows > 0,
        pixels.len() >= height * stride,
    ensures
        unfiltered_rows(filter_rows_spec(pixels, stride, height, bpp, block_rows), stride, height as int, bpp, block_rows)
            == pixels.subrange(0, height * stride),
{
    let filters = |r: int| adaptive_filter(pixels, stride, bpp, block_rows, r);
    assert forall|row: int| 0 <= row < height implies #[trigger] filters(row) <= 4 by {
        lemma_adaptive_filter_valid(pixels, stride, bpp, block_rows, row);
    }
    lemma_unfilter_inverts_filters(pixels, stride, height, bpp, block_rows, filters);
    crate::seqs::lemma_concat_chunks_ext(
        |r: int| stored_row(pixels, stride, bpp, block_rows, r, adaptive_filter(pixels, stride, bpp, block_rows, r)),
        |r: int| stored_row(pixels, stride, bpp, block_rows, r, filters(r)),
        height,
    );
}


/// Adaptively filtered rows take `stride + 1` bytes each, and each row starts
/// with a filter type the decoder knows.
pub(crate) proof fn lemma_filter_rows_well_formed(pixels: Seq<u8>, stride: int, height: nat, bpp: int, block_rows: u8)
    requires
        stride >= 0,
        pixels.len() >= height * stride,
    ensures
        filter_rows_spec(pixels, stride, height, bpp, block_rows).len() == height * (stride + 1),
        forall|row: int|
            0 <= row < height ==> !#[trigger] bad_filter_row(filter_rows_spec(pixels, stride, height, bpp, block_rows), stride + 1, row),
        unknown_filter_kinds(filter_rows_spec(pixels, stride, height, bpp, block_rows), stride + 1, height)
            == Seq::<WarningKind>::empty(),
{
    let filters = |r: int| adaptive_filter(pixels, stride, bpp, block_rows, r);
    crate::seqs::lemma_concat_chunks_ext(
        |r: int| stored_row(pixels, stride, bpp, block_rows, r, adaptive_filter(pixels, stride, bpp, block_rows, r)),
        |r: int| stored_row(pixels, stride, bpp, block_rows, r, filters(r)),
        height,
    );
    let filtered = filter_rows_spec(pixels, stride, height, bpp, block_rows);
    assert(filtered == stored_rows_with(pixels, stride, height, bpp, block_rows, filters));
    lemma_stored_rows_layout(pixels, stride, height, bpp, block_rows, filters);
    assert forall|row: int| 0 <= row < height implies !#[trigger] bad_filter_row(filtered, stride + 1, row) by {
        lemma_adaptive_filter_valid(pixels, stride, bpp, block_rows, row);
        assert(filtered[row * (stride + 1) + 0] == stored_row(pixels, stride, bpp, block_rows, row, filters(row))[0]);
    }
    lemma_no_unknown_filters(filtered, stride + 1, height);
}

/// Rows that all name known filters record no warning.
proof fn lemma_no_unknown_filters(input: Seq<u8>, row_len: int, rows: nat)
    requires
        forall|row: int| 0 <= row < rows ==> !#[trigger] bad_filter_row(input, row_len, row),
    ensures
        unknown_filter_kinds(input, row_len, rows) == Seq::<WarningKind>::empty(),
    decreases rows,
{
    if rows > 0 {
        lemma_no_unknown_filters(input, row_len, (rows - 1) as nat);
        assert(!bad_filter_row(input, row_len, rows - 1));
        assert(unknown_filter_kinds(input, row_len, rows) =~= Seq::<WarningKind>::empty());
    }
}

} // verus!
