use vstd::prelude::*;

use crate::bytes::{be_u16_at, be_u32_at, le_u32_at, read_be_u16, read_be_u32, read_le_u32};
use crate::checksum::{adler32, adler32_spec, crc32, crc32_spec};
use crate::deflate::{inflate, raw_inflate};
use crate::error::{keeps_prefix, warning_kinds, Error, ErrorKind, Warning, WarningKind};
use crate::huffman::{decode_shared_huffman, shared_stream_spec};
use crate::options::DecodeMode;
use crate::pixels::StorageFormat;

verus! {

/// Common header preceding static and animated eZIP stream data.
#[derive(Clone, Copy, Debug, PartialEq, Eq, Structural)]
pub struct StreamHeader {
    pub(crate) data_size: u32,
    pub(crate) control: u8,
    pub(crate) bit_depth: u8,
    pub(crate) block_rows: u8,
    pub(crate) flags: u8,
    pub(crate) width: u16,
    pub(crate) height: u16,
    pub(crate) filter_mode: u8,
    pub(crate) palette_count: u8,
}

/// What parsing the first 16 bytes of `data` as a stream header yields.
pub open(crate) spec fn parse_stream_header_spec(data: Seq<u8>) -> Result<StreamHeader, ErrorKind> {
    if data.len() < 16 {
        Err(ErrorKind::TruncatedData)
    } else if be_u16_at(data, 8) == 0 || be_u16_at(data, 10) == 0 {
        Err(ErrorKind::InvalidDimensions)
    } else {
        Ok(StreamHeader {
            data_size: be_u32_at(data, 0) as u32,
            control: data[4],
            bit_depth: data[5],
            block_rows: data[6],
            flags: data[7],
            width: be_u16_at(data, 8) as u16,
            height: be_u16_at(data, 10) as u16,
            filter_mode: data[12] % 16,
            palette_count: data[13],
        })
    }
}

/// The storage format a control byte's low nibble names, if any.
pub open spec fn control_storage(control: u8) -> Option<StorageFormat> {
    let color_type = control % 16;
    if color_type == 2 {
        Some(StorageFormat::Rgb888)
    } else if color_type == 6 {
        Some(StorageFormat::Argb888)
    } else if color_type == 8 {
        Some(StorageFormat::Rgb565)
    } else if color_type == 12 {
        Some(StorageFormat::Argb565)
    } else {
        None
    }
}

impl StreamHeader {
    pub const BYTE_LEN: usize = 16;

    pub const CHECKSUM_LEN: usize = 4;

    pub open(crate) spec fn data_size_spec(self) -> u32 {
        self.data_size
    }

    pub open(crate) spec fn control_spec(self) -> u8 {
        self.control
    }

    pub open(crate) spec fn bit_depth_spec(self) -> u8 {
        self.bit_depth
    }

    pub open(crate) spec fn block_rows_spec(self) -> u8 {
        self.block_rows
    }

    pub open(crate) spec fn flags_spec(self) -> u8 {
        self.flags
    }

    pub open(crate) spec fn width_spec(self) -> u16 {
        self.width
    }

    pub open(crate) spec fn height_spec(self) -> u16 {
        self.height
    }

    pub open(crate) spec fn filter_mode_spec(self) -> u8 {
        self.filter_mode
    }

    pub open(crate) spec fn palette_count_spec(self) -> u8 {
        self.palette_count
    }

    pub open(crate) spec fn has_row_filters_spec(self) -> bool {
        self.filter_mode != 1
    }

    pub open(crate) spec fn uses_shared_huffman_spec(self) -> bool {
        self.control / 16 == 4
    }

    pub open(crate) spec fn is_animation_spec(self) -> bool {
        self.control / 16 == 5
    }

    pub fn parse(data: &[u8]) -> (r: crate::Result<Self>)
        ensures
            match r {
                Ok(h) => parse_stream_header_spec(data@) == Ok::<StreamHeader, ErrorKind>(h),
                Err(e) => parse_stream_header_spec(data@) == Err::<StreamHeader, ErrorKind>(e.kind_spec()),
            },
    {
        if data.len() < 16 {
            return Err(Error::new(ErrorKind::TruncatedData, "input is shorter than an eZIP stream header"));
        }
        let data_size = read_be_u32(data, 0);
        let width = read_be_u16(data, 8);
        let height = read_be_u16(data, 10);
        if width == 0 || height == 0 {
            return Err(Error::new(ErrorKind::InvalidDimensions, "eZIP stream dimensions must be positive"));
        }
        Ok(StreamHeader {
            data_size,
            control: data[4],
            bit_depth: data[5],
            block_rows: data[6],
            flags: data[7],
            width,
            height,
            filter_mode: data[12] % 16,
            palette_count: data[13],
        })
    }

    pub fn data_size(self) -> (v: u32)
        ensures
            v == self.data_size_spec(),
    {
        self.data_size
    }

    pub fn control(self) -> (v: u8)
        ensures
            v == self.control_spec(),
    {
        self.control
    }

    pub fn bit_depth(self) -> (v: u8)
        ensures
            v == self.bit_depth_spec(),
    {
        self.bit_depth
    }

    pub fn block_rows(self) -> (v: u8)
        ensures
            v == self.block_rows_spec(),
    {
        self.block_rows
    }

    pub fn flags(self) -> (v: u8)
        ensures
            v == self.flags_spec(),
    {
        self.flags
    }

    pub fn width(self) -> (v: u16)
        ensures
            v == self.width_spec(),
    {
        self.width
    }

    pub fn height(self) -> (v: u16)
        ensures
            v == self.height_spec(),
    {
        self.height
    }

    pub fn filter_mode(self) -> (v: u8)
        ensures
            v == self.filter_mode_spec(),
    {
        self.filter_mode
    }

    pub fn has_row_filters(self) -> (b: bool)
        ensures
            b == self.has_row_filters_spec(),
    {
        self.filter_mode != 1
    }

    pub fn uses_shared_huffman(self) -> (b: bool)
        ensures
            b == self.uses_shared_huffman_spec(),
    {
        self.control / 16 == 4
    }

    pub fn is_animation(self) -> (b: bool)
        ensures
            b == self.is_animation_spec(),
    {
        self.control / 16 == 5
    }

    pub fn palette_count(self) -> (v: u8)
        ensures
            v == self.palette_count_spec(),
    {
        self.palette_count
    }

    pub fn storage_format(self) -> (r: crate::Result<StorageFormat>)
        ensures
            match r {
                Ok(s) => control_storage(self.control_spec()) == Some(s),
                Err(e) => control_storage(self.control_spec()) is None && e.kind_spec() == ErrorKind::UnsupportedFormat,
            },
    {
        let color_type = self.control % 16;
        if color_type == 2 {
            Ok(StorageFormat::Rgb888)
        } else if color_type == 6 {
            Ok(StorageFormat::Argb888)
        } else if color_type == 8 {
            Ok(StorageFormat::Rgb565)
        } else if color_type == 12 {
            Ok(StorageFormat::Argb565)
        } else {
            Err(Error::new(ErrorKind::UnsupportedFormat, "unsupported eZIP color type"))
        }
    }
}

/// Decompressed stream bytes and the block-row count that applies to them.
pub(crate) struct Inflated {
    pub bytes: Vec<u8>,
    pub block_rows: u8,
}

/// The error kind for a failed DEFLATE decompression that held `held` output bytes.
pub open spec fn inflate_failure_kind(held: usize, limit: usize) -> ErrorKind {
    if held >= limit {
        ErrorKind::LimitExceeded
    } else {
        ErrorKind::InvalidCompression
    }
}

/// The outcome of decompressing a standard eZIP stream: the bytes and the
/// warning kinds recorded, or the error kind.
pub open(crate) spec fn inflate_standard_spec(
    stream: Seq<u8>,
    header: StreamHeader,
    max_output: usize,
    mode: DecodeMode,
) -> Result<(Seq<u8>, Seq<WarningKind>), ErrorKind> {
    let declared = header.data_size as int;
    if declared < 20 {
        Err(ErrorKind::InvalidHeader)
    } else if declared > stream.len() {
        Err(ErrorKind::TruncatedData)
    } else if stream.len() > declared && mode == DecodeMode::Strict {
        Err(ErrorKind::InvalidHeader)
    } else {
        let trailing: Seq<WarningKind> = if stream.len() > declared {
            seq![WarningKind::TrailingData]
        } else {
            Seq::empty()
        };
        match raw_inflate(stream.subrange(16, declared - 4), max_output) {
            Err(held) => Err(inflate_failure_kind(held, max_output)),
            Ok(out) => {
                let matches = be_u32_at(stream, declared - 4) == adler32_spec(out);
                if !matches && mode == DecodeMode::Strict {
                    Err(ErrorKind::ChecksumMismatch)
                } else {
                    Ok((out, trailing + if matches {
                        Seq::<WarningKind>::empty()
                    } else {
                        seq![WarningKind::ChecksumMismatch]
                    }))
                }
            },
        }
    }
}

/// Whether block-table entry `i` of a shared-Huffman container is an aligned
/// offset inside the stream and past the table.
pub open spec fn block_offset_ok(container: Seq<u8>, i: int, raw_offset: int, declared: int) -> bool {
    let offset = be_u32_at(container, 4 + 4 * i);
    offset % 4 == 0 && offset >= raw_offset && offset < declared
}

/// The checks on a shared-Huffman container up to its bit stream: block
/// rows, the block-offset table and the warning kinds recorded, or the error kind.
pub open(crate) spec fn shared_prelude_spec(
    stream: Seq<u8>,
    header: StreamHeader,
    mode: DecodeMode,
) -> Result<(u8, Seq<usize>, Seq<WarningKind>), ErrorKind> {
    let declared = header.data_size as int;
    let len = stream.len() as int;
    if declared < 24 {
        Err(ErrorKind::InvalidHeader)
    } else if declared > len {
        Err(ErrorKind::TruncatedData)
    } else {
        let has_trailer = declared + 4 <= len;
        let crc_ok = has_trailer && le_u32_at(stream, declared) == crc32_spec(stream.subrange(0, declared));
        if has_trailer && !crc_ok && mode == DecodeMode::Strict {
            Err(ErrorKind::ChecksumMismatch)
        } else if !has_trailer && mode == DecodeMode::Strict {
            Err(ErrorKind::TruncatedData)
        } else if len > declared + 4 && mode == DecodeMode::Strict {
            Err(ErrorKind::InvalidHeader)
        } else {
            let warnings: Seq<WarningKind> = (if !has_trailer {
                seq![WarningKind::MissingChecksum]
            } else if !crc_ok {
                seq![WarningKind::ChecksumMismatch]
            } else {
                Seq::empty()
            }) + (if len > declared + 4 {
                seq![WarningKind::TrailingData]
            } else {
                Seq::empty()
            });
            let container = stream.subrange(16, declared);
            let block_rows = be_u16_at(container, 0);
            let block_count = be_u16_at(container, 2);
            let table_size = (block_count + 1) * 4;
            let raw_offset = 16 + table_size;
            if block_rows == 0 || block_rows > 255 {
                Err(ErrorKind::InvalidHeader)
            } else if block_count == 0 {
                Err(ErrorKind::InvalidHeader)
            } else if table_size > container.len() {
                Err(ErrorKind::TruncatedData)
            } else if exists|i: int|
                0 <= i < block_count && !#[trigger] block_offset_ok(container, i, raw_offset, declared) {
                Err(ErrorKind::InvalidOffset)
            } else if exists|i: int|
                1 <= i < block_count && be_u32_at(container, 4 * i) >= #[trigger] be_u32_at(container, 4 + 4 * i) {
                Err(ErrorKind::InvalidOffset)
            } else {
                Ok((
                    block_rows as u8,
                    Seq::new(block_count as nat, |i: int| be_u32_at(container, 4 + 4 * i) as usize),
                    warnings,
                ))
            }
        }
    }
}

/// The bytes of a shared-Huffman container after its block table, where its
/// bit stream starts.
pub open(crate) spec fn shared_bit_stream(stream: Seq<u8>, header: StreamHeader) -> Seq<u8> {
    let container = stream.subrange(16, header.data_size as int);
    container.subrange(shared_raw_offset(stream, header) - 16, container.len() as int)
}

/// The stream offset of a shared-Huffman bit stream: the stream header and
/// the block table come before it.
pub open(crate) spec fn shared_raw_offset(stream: Seq<u8>, header: StreamHeader) -> int {
    16 + (be_u16_at(stream.subrange(16, header.data_size as int), 2) + 1) * 4
}

/// Whether decompressing `stream` may succeed with `bytes`, `block_rows` and
/// the warning kinds `added`.
pub open(crate) spec fn inflate_accepts(
    stream: Seq<u8>,
    header: StreamHeader,
    max_output: usize,
    mode: DecodeMode,
    bytes: Seq<u8>,
    block_rows: u8,
    added: Seq<WarningKind>,
) -> bool {
    if header.uses_shared_huffman_spec() {
        shared_prelude_spec(stream, header, mode) matches Ok((rows, offsets, warnings)) && block_rows == rows
            && added == warnings && shared_stream_spec(
            shared_bit_stream(stream, header),
            max_output as int,
            offsets,
            shared_raw_offset(stream, header),
        ) == Ok::<Seq<u8>, ErrorKind>(bytes) && bytes.len() <= max_output
    } else {
        inflate_standard_spec(stream, header, max_output, mode) == Ok::<(Seq<u8>, Seq<WarningKind>), ErrorKind>((bytes, added))
            && block_rows == header.block_rows && bytes.len() <= max_output
    }
}

/// Whether decompressing `stream` may fail with `kind`.
pub open(crate) spec fn inflate_rejects(stream: Seq<u8>, header: StreamHeader, max_output: usize, mode: DecodeMode, kind: ErrorKind) -> bool {
    if header.uses_shared_huffman_spec() {
        match shared_prelude_spec(stream, header, mode) {
            Err(k) => kind == k,
            Ok((_, offsets, _)) => shared_stream_spec(
                shared_bit_stream(stream, header),
                max_output as int,
                offsets,
                shared_raw_offset(stream, header),
            ) == Err::<Seq<u8>, ErrorKind>(kind),
        }
    } else {
        inflate_standard_spec(stream, header, max_output, mode) == Err::<(Seq<u8>, Seq<WarningKind>), ErrorKind>(kind)
    }
}

fn push_warning(warnings: &mut Vec<Warning>, warning: Warning)
    ensures
        keeps_prefix(old(warnings)@, final(warnings)@),
        final(warnings)@ == old(warnings)@.push(warning),
        warning_kinds(final(warnings)@) == warning_kinds(old(warnings)@).push(warning.kind_spec()),
{
    warnings.push(warning);
    assert(warning_kinds(final(warnings)@) =~= warning_kinds(old(warnings)@).push(warning.kind_spec()));
}

pub(crate) fn inflate_stream(
    stream: &[u8],
    header: StreamHeader,
    max_output: usize,
    mode: DecodeMode,
    warnings: &mut Vec<Warning>,
) -> (r: crate::Result<Inflated>)
    ensures
        keeps_prefix(old(warnings)@, final(warnings)@),
        match r {
            Ok(inf) => exists|added: Seq<WarningKind>|
                inflate_accepts(stream@, header, max_output, mode, inf.bytes@, inf.block_rows, added)
                    && warning_kinds(final(warnings)@) == warning_kinds(old(warnings)@) + added,
            Err(e) => inflate_rejects(stream@, header, max_output, mode, e.kind_spec()),
        },
{
    if header.uses_shared_huffman() {
        return inflate_shared(stream, header, max_output, mode, warnings);
    }
    let declared_size = header.data_size as usize;
    if declared_size < 20 {
        return Err(Error::new(ErrorKind::InvalidHeader, "eZIP stream size is shorter than its header and checksum"));
    }
    if declared_size > stream.len() {
        return Err(Error::new(ErrorKind::TruncatedData, "eZIP stream declares more bytes than are available"));
    }
    let ghost start = warning_kinds(warnings@);
    if stream.len() > declared_size {
        if mode == DecodeMode::Strict {
            return Err(Error::new(ErrorKind::InvalidHeader, "bytes follow the declared eZIP stream").at_offset(declared_size));
        }
        push_warning(warnings, Warning::new(WarningKind::TrailingData, "ignored bytes after the declared eZIP stream").at_offset(declared_size));
    }
    let checksum_offset = declared_size - 4;
    let compressed = &stream[16..checksum_offset];
    let output = match inflate(compressed, max_output) {
        Ok(v) => v,
        Err(held) => {
            let kind = if held >= max_output {
                ErrorKind::LimitExceeded
            } else {
                ErrorKind::InvalidCompression
            };
            return Err(Error::new(kind, "invalid raw-DEFLATE eZIP stream").at_offset(16));
        },
    };
    let stored = read_be_u32(stream, checksum_offset);
    let calculated = adler32(output.as_slice());
    if stored != calculated {
        if mode == DecodeMode::Strict {
            return Err(Error::new(ErrorKind::ChecksumMismatch, "eZIP Adler-32 mismatch").at_offset(checksum_offset));
        }
        push_warning(warnings, Warning::new(WarningKind::ChecksumMismatch, "eZIP Adler-32 mismatch").at_offset(checksum_offset));
    }
    proof {
        let trailing: Seq<WarningKind> = if stream@.len() > declared_size {
            seq![WarningKind::TrailingData]
        } else {
            Seq::empty()
        };
        let added = trailing + if stored == calculated {
            Seq::<WarningKind>::empty()
        } else {
            seq![WarningKind::ChecksumMismatch]
        };
        assert(warning_kinds(warnings@) =~= start + added);
    }
    Ok(Inflated { bytes: output, block_rows: header.block_rows })
}

#[verifier::loop_isolation(false)]
fn inflate_shared(
    stream: &[u8],
    header: StreamHeader,
    max_output: usize,
    mode: DecodeMode,
    warnings: &mut Vec<Warning>,
) -> (r: crate::Result<Inflated>)
    requires
        header.uses_shared_huffman_spec(),
    ensures
        keeps_prefix(old(warnings)@, final(warnings)@),
        match r {
            Ok(inf) => exists|added: Seq<WarningKind>|
                inflate_accepts(stream@, header, max_output, mode, inf.bytes@, inf.block_rows, added)
                    && warning_kinds(final(warnings)@) == warning_kinds(old(warnings)@) + added,
            Err(e) => inflate_rejects(stream@, header, max_output, mode, e.kind_spec()),
        },
{
    let declared_size = header.data_size as usize;
    if declared_size < 24 {
        return Err(Error::new(ErrorKind::InvalidHeader, "shared-Huffman eZIP stream is too short"));
    }
    if declared_size > stream.len() {
        return Err(Error::new(ErrorKind::TruncatedData, "eZIP stream declares more bytes than are available"));
    }
    let ghost start = warning_kinds(warnings@);
    let len = stream.len();
    let has_trailer = declared_size <= len - 4 && len >= 4;
    let trailer_end = if has_trailer {
        declared_size + 4
    } else {
        len
    };
    let mut crc_ok = false;
    if has_trailer {
        let stored = read_le_u32(stream, declared_size);
        let calculated = crc32(&stream[0..declared_size]);
        crc_ok = stored == calculated;
        if !crc_ok {
            if mode == DecodeMode::Strict {
                return Err(Error::new(ErrorKind::ChecksumMismatch, "shared-Huffman CRC-32 mismatch").at_offset(declared_size));
            }
            push_warning(warnings, Warning::new(WarningKind::ChecksumMismatch, "shared-Huffman CRC-32 mismatch").at_offset(declared_size));
        }
    } else if mode == DecodeMode::Strict {
        return Err(Error::new(ErrorKind::TruncatedData, "shared-Huffman eZIP stream has no CRC-32 trailer").at_offset(declared_size));
    } else {
        push_warning(warnings, Warning::new(WarningKind::MissingChecksum, "shared-Huffman eZIP stream has no CRC-32 trailer").at_offset(declared_size));
    }
    if has_trailer && len > trailer_end {
        if mode == DecodeMode::Strict {
            return Err(Error::new(ErrorKind::InvalidHeader, "bytes follow the shared-Huffman CRC-32").at_offset(trailer_end));
        }
        push_warning(warnings, Warning::new(WarningKind::TrailingData, "ignored bytes after the shared-Huffman CRC-32").at_offset(trailer_end));
    }
    proof {
        let added: Seq<WarningKind> = (if !has_trailer {
            seq![WarningKind::MissingChecksum]
        } else if !crc_ok {
            seq![WarningKind::ChecksumMismatch]
        } else {
            Seq::empty()
        }) + (if stream@.len() > declared_size + 4 {
            seq![WarningKind::TrailingData]
        } else {
            Seq::empty()
        });
        assert(warning_kinds(warnings@) =~= start + added);
    }
    let container = &stream[16..declared_size];
    let block_rows = read_be_u16(container, 0);
    let block_count = read_be_u16(container, 2) as usize;
    if block_rows == 0 || block_rows > 255 {
        return Err(Error::new(ErrorKind::InvalidHeader, "invalid shared-Huffman block-row count"));
    }
    if block_count == 0 {
        return Err(Error::new(ErrorKind::InvalidHeader, "shared-Huffman stream contains no blocks"));
    }
    let table_size = (block_count + 1) * 4;
    if table_size > container.len() {
        return Err(Error::new(ErrorKind::TruncatedData, "shared-Huffman block table is truncated"));
    }
    let raw_offset = 16 + table_size;
    let ghost cview = container@;
    let mut block_offsets: Vec<usize> = Vec::new();
    let mut index: usize = 0;
    while index < block_count
        invariant
            index <= block_count,
            cview == container@,
            table_size == (block_count + 1) * 4,
            table_size <= container@.len(),
            raw_offset == 16 + table_size,
            block_count <= 65535,
            block_offsets@.len() == index,
            forall|i: int| 0 <= i < index ==> block_offset_ok(cview, i, raw_offset as int, declared_size as int),
            forall|i: int| 1 <= i < index ==> be_u32_at(cview, 4 * i) < #[trigger] be_u32_at(cview, 4 + 4 * i),
            forall|i: int| 0 <= i < index ==> block_offsets@[i] == be_u32_at(cview, 4 + 4 * i),
        decreases block_count - index,
    {
        let entry_offset = 4 + index * 4;
        let offset = read_be_u32(container, entry_offset) as usize;
        if offset % 4 != 0 || offset < raw_offset || offset >= declared_size {
            proof {
                assert(!block_offset_ok(cview, index as int, raw_offset as int, declared_size as int));
            }
            return Err(Error::new(ErrorKind::InvalidOffset, "shared-Huffman block has an invalid offset").at_offset(16 + entry_offset));
        }
        if index > 0 && block_offsets[index - 1] >= offset {
            proof {
                assert(be_u32_at(cview, 4 * index) == be_u32_at(cview, 4 + 4 * (index - 1)));
                assert(be_u32_at(cview, 4 * index) >= be_u32_at(cview, 4 + 4 * index));
            }
            return Err(Error::new(ErrorKind::InvalidOffset, "shared-Huffman block offsets are not strictly increasing").at_offset(16 + entry_offset));
        }
        proof {
            if index > 0 {
                assert(be_u32_at(cview, 4 * index) == be_u32_at(cview, 4 + 4 * (index - 1)));
            }
        }
        block_offsets.push(offset);
        index = index + 1;
    }
    proof {
        assert(block_offsets@ =~= Seq::new(block_count as nat, |i: int| be_u32_at(cview, 4 + 4 * i) as usize));
    }
    let raw_stream = &container[table_size..container.len()];
    let bytes = decode_shared_huffman(raw_stream, max_output, block_offsets.as_slice(), raw_offset)?;
    Ok(Inflated { bytes, block_rows: block_rows as u8 })
}

} // verus!
