use std::collections::HashMap;

use vstd::prelude::*;

use crate::error::{Error, ErrorKind};

verus! {

pub const LENGTH_BASE: [usize; 29] = [
    3, 4, 5, 6, 7, 8, 9, 10, 11, 13, 15, 17, 19, 23, 27, 31, 35, 43, 51, 59, 67, 83, 99, 115, 131,
    163, 195, 227, 258,
];

pub const LENGTH_EXTRA: [u8; 29] = [
    0, 0, 0, 0, 0, 0, 0, 0, 1, 1, 1, 1, 2, 2, 2, 2, 3, 3, 3, 3, 4, 4, 4, 4, 5, 5, 5, 5, 0,
];

pub const DISTANCE_BASE: [usize; 30] = [
    1, 2, 3, 4, 5, 7, 9, 13, 17, 25, 33, 49, 65, 97, 129, 193, 257, 385, 513, 769, 1025, 1537,
    2049, 3073, 4097, 6145, 8193, 12289, 16385, 24577,
];

pub const DISTANCE_EXTRA: [u8; 30] = [
    0, 0, 0, 0, 1, 1, 2, 2, 3, 3, 4, 4, 5, 5, 6, 6, 7, 7, 8, 8, 9, 9, 10, 10, 11, 11, 12, 12, 13,
    13,
];

pub const CODE_LENGTH_ORDER: [usize; 19] = [
    16, 17, 18, 0, 8, 7, 9, 6, 10, 5, 11, 4, 12, 3, 13, 2, 14, 1, 15,
];

/// Bit `pos` of `data`, counting from the least significant bit of each byte.
pub open spec fn bit_at(data: Seq<u8>, pos: int) -> u8 {
    (data[pos / 8] >> ((pos % 8) as u8)) & 1u8
}

/// `2^k`.
pub open spec fn pow2(k: int) -> int
    decreases k,
{
    if k <= 0 {
        1
    } else {
        2 * pow2(k - 1)
    }
}

pub proof fn lemma_pow2_step(k: int)
    requires
        0 <= k,
    ensures
        pow2(k + 1) == 2 * pow2(k),
        pow2(k) >= 1,
    decreases k,
{
    if k > 0 {
        lemma_pow2_step(k - 1);
    }
}

pub proof fn lemma_pow2_monotone(a: int, b: int)
    requires
        0 <= a <= b,
    ensures
        pow2(a) <= pow2(b),
    decreases b - a,
{
    if a < b {
        lemma_pow2_monotone(a, b - 1);
        lemma_pow2_step(b - 1);
    }
}

/// The value of `n` bits starting at `pos`, least significant bit first.
pub open spec fn bits_value(data: Seq<u8>, pos: int, n: nat) -> int
    decreases n,
{
    if n == 0 {
        0
    } else {
        bits_value(data, pos, (n - 1) as nat) + if bit_at(data, pos + n - 1) == 1 {
            pow2(n - 1)
        } else {
            0
        }
    }
}

proof fn lemma_bits_value_bound(data: Seq<u8>, pos: int, n: nat)
    requires
        forall|i: int| 0 <= i < n ==> #[trigger] bit_at(data, pos + i) <= 1,
    ensures
        0 <= bits_value(data, pos, n) < pow2(n as int),
    decreases n,
{
    if n > 0 {
        lemma_bits_value_bound(data, pos, (n - 1) as nat);
        lemma_pow2_step((n - 1) as int);
    }
}

/// Reads a stream of bits least significant bit first.
pub struct BitReader<'a> {
    pub(crate) data: &'a [u8],
    pub(crate) bit_position: usize,
}

impl<'a> BitReader<'a> {
    /// The position never leaves the addressable range of bits.
    pub open(crate) spec fn wf(&self) -> bool {
        self.data@.len() <= usize::MAX / 16 && self.bit_position <= self.data@.len() * 8 + 32
    }

    pub open(crate) spec fn pos(&self) -> int {
        self.bit_position as int
    }

    pub open(crate) spec fn bits(&self) -> Seq<u8> {
        self.data@
    }

    pub(crate) fn new(data: &'a [u8]) -> (r: Self)
        requires
            data@.len() <= usize::MAX / 16,
        ensures
            r.wf(),
            r.bits() == data@,
            r.pos() == 0,
    {
        BitReader { data, bit_position: 0 }
    }

    pub(crate) fn read_bit(&mut self) -> (r: crate::Result<u8>)
        requires
            old(self).wf(),
        ensures
            final(self).wf(),
            final(self).bits() == old(self).bits(),
            match r {
                Ok(bit) => old(self).pos() < old(self).bits().len() * 8 && final(self).pos() == old(self).pos() + 1
                    && bit == bit_at(old(self).bits(), old(self).pos()) && bit <= 1,
                Err(e) => old(self).pos() >= old(self).bits().len() * 8 && e.kind_spec() == ErrorKind::TruncatedData
                    && final(self).pos() == old(self).pos(),
            },
    {
        let index = self.bit_position / 8;
        if index >= self.data.len() {
            return Err(Error::new(ErrorKind::TruncatedData, "shared-Huffman bit stream ended unexpectedly"));
        }
        let byte = self.data[index];
        let shift = (self.bit_position % 8) as u8;
        let bit = (byte >> shift) & 1;
        assert(bit <= 1) by (bit_vector)
            requires
                bit == (byte >> shift) & 1u8,
        ;
        self.bit_position = self.bit_position + 1;
        Ok(bit)
    }

    pub(crate) fn read_bits(&mut self, count: u8) -> (r: crate::Result<usize>)
        requires
            old(self).wf(),
            count <= 16,
        ensures
            final(self).wf(),
            final(self).bits() == old(self).bits(),
            match r {
                Ok(v) => v == bits_value(old(self).bits(), old(self).pos(), count as nat) && v < pow2(count as int)
                    && final(self).pos() == old(self).pos() + count
                    && (count > 0 ==> final(self).pos() <= final(self).bits().len() * 8),
                Err(e) => e.kind_spec() == ErrorKind::TruncatedData && old(self).pos() + count > old(self).bits().len() * 8,
            },
    {
        let mut value: usize = 0;
        let mut weight: usize = 1;
        let mut shift: u8 = 0;
        let ghost start = self.bit_position as int;
        let ghost data = self.data@;
        while shift < count
            invariant
                self.wf(),
                self.bits() == data,
                data == old(self).bits(),
                shift <= count,
                count <= 16,
                self.pos() == start + shift,
                start == old(self).pos(),
                shift > 0 ==> start + shift <= data.len() * 8,
                weight == pow2(shift as int),
                value == bits_value(data, start, shift as nat),
                value < pow2(shift as int),
                forall|i: int| 0 <= i < shift ==> #[trigger] bit_at(data, start + i) <= 1,
            decreases count - shift,
        {
            let ghost before = self.pos();
            let bit = match self.read_bit() {
                Ok(b) => b,
                Err(e) => {
                    return Err(e);
                },
            };
            proof {
                lemma_pow2_step(shift as int);
                lemma_pow2_monotone(shift as int, 15);
                reveal_with_fuel(pow2, 16);
                assert(pow2(15) == 32768);
            }
            if bit == 1 {
                value = value + weight;
            }
            weight = weight * 2;
            shift = shift + 1;
            proof {
                assert(bit_at(data, start + (shift - 1)) <= 1);
            }
        }
        Ok(value)
    }

    pub(crate) fn align_byte(&mut self)
        requires
            old(self).wf(),
            old(self).pos() <= old(self).bits().len() * 8,
        ensures
            final(self).wf(),
            final(self).bits() == old(self).bits(),
            final(self).pos() == if old(self).pos() % 8 == 0 {
                old(self).pos()
            } else {
                old(self).pos() + 8 - old(self).pos() % 8
            },
            final(self).pos() <= final(self).bits().len() * 8,
    {
        let rem = self.bit_position % 8;
        if rem != 0 {
            self.bit_position = self.bit_position + (8 - rem);
        }
    }

    pub(crate) fn align_four_bytes(&mut self)
        requires
            old(self).wf(),
            old(self).pos() <= old(self).bits().len() * 8,
        ensures
            final(self).wf(),
            final(self).bits() == old(self).bits(),
            final(self).pos() == aligned_to_four_bytes(old(self).pos()),
    {
        self.align_byte();
        let byte_position = self.bit_position / 8;
        let rem = byte_position % 4;
        let aligned = if rem != 0 {
            byte_position + (4 - rem)
        } else {
            byte_position
        };
        self.bit_position = aligned * 8;
    }

    pub(crate) fn read_aligned_bytes(&mut self, count: usize) -> (r: crate::Result<&'a [u8]>)
        requires
            old(self).wf(),
            old(self).pos() % 8 == 0,
        ensures
            final(self).wf(),
            final(self).bits() == old(self).bits(),
            match r {
                Ok(bytes) => old(self).pos() / 8 + count <= old(self).bits().len()
                    && bytes@ == old(self).bits().subrange(old(self).pos() / 8, old(self).pos() / 8 + count)
                    && final(self).pos() == old(self).pos() + count * 8,
                Err(e) => e.kind_spec() == ErrorKind::TruncatedData && old(self).pos() / 8 + count > old(self).bits().len(),
            },
    {
        let start = self.bit_position / 8;
        if count > self.data.len() || start > self.data.len() - count {
            return Err(Error::new(ErrorKind::TruncatedData, "shared-Huffman stored block is truncated"));
        }
        let end = start + count;
        let bytes = &self.data[start..end];
        self.bit_position = end * 8;
        Ok(bytes)
    }
}

/// A bit position rounded up to the next four-byte boundary.
pub open spec fn aligned_to_four_bytes(pos: int) -> int {
    let bytes = if pos % 8 == 0 {
        pos / 8
    } else {
        pos / 8 + 1
    };
    if bytes % 4 == 0 {
        bytes * 8
    } else {
        (bytes + 4 - bytes % 4) * 8
    }
}

/// Number of entries of `lengths` below `n` that equal `length`.
pub open spec fn count_prefix(lengths: Seq<u8>, n: nat, length: int) -> nat
    decreases n,
{
    if n == 0 {
        0
    } else {
        count_prefix(lengths, (n - 1) as nat, length) + if lengths[n - 1] == length {
            1nat
        } else {
            0nat
        }
    }
}

/// Number of symbols with code length `length`.
pub open spec fn count_len(lengths: Seq<u8>, length: int) -> nat {
    count_prefix(lengths, lengths.len(), length)
}

/// Largest code length among the first `n` entries.
pub open spec fn max_prefix(lengths: Seq<u8>, n: nat) -> u8
    decreases n,
{
    if n == 0 {
        0
    } else {
        let m = max_prefix(lengths, (n - 1) as nat);
        if lengths[n - 1] > m {
            lengths[n - 1]
        } else {
            m
        }
    }
}

/// The first canonical code of length `length`.
pub open spec fn first_code(lengths: Seq<u8>, length: int) -> int
    decreases length,
{
    if length <= 1 {
        0
    } else {
        (first_code(lengths, length - 1) + count_len(lengths, length - 1)) * 2
    }
}

/// Whether the code lengths can be assigned prefix-free canonical codes.
pub open spec fn lengths_valid(lengths: Seq<u8>) -> bool {
    let max = max_prefix(lengths, lengths.len());
    1 <= max <= 15 && forall|b: int|
        1 <= b <= max ==> #[trigger] first_code(lengths, b) + count_len(lengths, b) <= pow2(b)
}

/// The map key of the code `code` of length `length`.
pub open spec fn code_key(length: int, code: int) -> u32 {
    (length * 65536 + code) as u32
}

/// The canonical codes of the first `n` symbols, keyed by length and code.
pub open spec fn canonical_map(lengths: Seq<u8>, n: nat) -> Map<u32, u16>
    decreases n,
{
    if n == 0 {
        Map::empty()
    } else {
        let m = canonical_map(lengths, (n - 1) as nat);
        let length = lengths[n - 1] as int;
        if length == 0 {
            m
        } else {
            m.insert(
                code_key(length, first_code(lengths, length) + count_prefix(lengths, (n - 1) as nat, length)),
                (n - 1) as u16,
            )
        }
    }
}

/// The value of `n` bits starting at `pos`, first bit most significant.
pub open spec fn code_bits(data: Seq<u8>, pos: int, n: nat) -> int
    decreases n,
{
    if n == 0 {
        0
    } else {
        code_bits(data, pos, (n - 1) as nat) * 2 + bit_at(data, pos + n - 1)
    }
}

/// Decoding one symbol at bit `pos`, trying code lengths from `length` up to
/// `max`: the symbol and the number of bits it took, or the error kind.
pub open spec fn decode_from(symbols: Map<u32, u16>, max: u8, data: Seq<u8>, pos: int, length: int) -> Result<(u16, int), ErrorKind>
    decreases max + 1 - length,
{
    if length > max {
        Err(ErrorKind::InvalidCompression)
    } else if pos + length > data.len() * 8 {
        Err(ErrorKind::TruncatedData)
    } else {
        let key = code_key(length, code_bits(data, pos, length as nat));
        if symbols.contains_key(key) {
            Ok((symbols[key], length))
        } else {
            decode_from(symbols, max, data, pos, length + 1)
        }
    }
}

/// A canonical Huffman code keyed by code length and code.
#[derive(Debug)]
pub struct HuffmanTree {
    pub(crate) symbols: HashMap<u32, u16>,
    pub(crate) max_length: u8,
}

impl HuffmanTree {
    pub open(crate) spec fn symbols_spec(&self) -> Map<u32, u16> {
        self.symbols@
    }

    pub open(crate) spec fn max_length_spec(&self) -> u8 {
        self.max_length
    }

    /// Build the canonical code for a table of code lengths; zero means unused.
    pub fn from_lengths(lengths: &[u8]) -> (r: crate::Result<Self>)
        ensures
            match r {
                Ok(tree) => lengths_valid(lengths@) && tree.max_length_spec() == max_prefix(lengths@, lengths@.len())
                    && tree.symbols_spec() == canonical_map(lengths@, lengths@.len()),
                Err(e) => !lengths_valid(lengths@) && e.kind_spec() == ErrorKind::InvalidCompression && e.message_spec() == (if 1
                    <= max_prefix(lengths@, lengths@.len()) <= 15 {
                    "over-subscribed shared-Huffman code lengths"@
                } else {
                    "invalid shared-Huffman code lengths"@
                }),
            },
    {
        broadcast use vstd::std_specs::hash::group_hash_axioms;
        let ghost l = lengths@;
        let mut max_length: u8 = 0;
        let mut i: usize = 0;
        while i < lengths.len()
            invariant
                i <= l.len(),
                l == lengths@,
                max_length == max_prefix(l, i as nat),
            decreases l.len() - i,
        {
            if lengths[i] > max_length {
                max_length = lengths[i];
            }
            i = i + 1;
        }
        if max_length == 0 || max_length > 15 {
            return Err(Error::new(ErrorKind::InvalidCompression, "invalid shared-Huffman code lengths"));
        }
        proof {
            lemma_max_prefix_bound(l, l.len());
        }
        let max = max_length as usize;
        let mut counts: Vec<u64> = vec![0u64; max + 1];
        let mut i: usize = 0;
        while i < lengths.len()
            invariant
                i <= l.len(),
                l == lengths@,
                1 <= max <= 15,
                max == max_prefix(l, l.len()),
                counts@.len() == max + 1,
                counts@[0] == 0,
                forall|b: int| 1 <= b <= max ==> #[trigger] counts@[b] == count_prefix(l, i as nat, b),
                forall|k: int| 0 <= k < l.len() ==> #[trigger] l[k] <= max,
            decreases l.len() - i,
        {
            let length = lengths[i] as usize;
            if length > 0 {
                proof {
                    lemma_count_prefix_bound(l, i as nat, length as int);
                }
                let c = counts[length];
                counts.set(length, c + 1);
            }
            i = i + 1;
        }
        let mut next_code: Vec<u16> = vec![0u16; max + 1];
        let mut code: u64 = 0;
        let mut bits: usize = 1;
        while bits <= max
            invariant
                1 <= bits <= max + 1,
                1 <= max <= 15,
                l == lengths@,
                max == max_prefix(l, l.len()),
                counts@.len() == max + 1,
                counts@[0] == 0,
                forall|b: int| 1 <= b <= max ==> #[trigger] counts@[b] == count_len(l, b),
                next_code@.len() == max + 1,
                code == if bits == 1 { 0 } else { first_code(l, bits - 1) },
                bits > 1 ==> first_code(l, bits - 1) + count_len(l, bits - 1) <= pow2(bits - 1),
                forall|b: int| 1 <= b < bits ==> #[trigger] first_code(l, b) + count_len(l, b) <= pow2(b),
                forall|b: int| 1 <= b < bits ==> #[trigger] next_code@[b] == first_code(l, b),
            decreases max + 1 - bits,
        {
            proof {
                lemma_pow2_step(bits as int - 1);
                lemma_pow2_monotone(bits as int, 15);
                reveal_with_fuel(pow2, 16);
                assert(pow2(15) == 32768);
                if bits == 1 {
                    assert(first_code(l, 1) == 0);
                } else {
                    assert(first_code(l, bits as int) == (first_code(l, bits - 1) + count_len(l, bits - 1)) * 2);
                }
            }
            code = (code + counts[bits - 1]) * 2;
            let limit = pow2_exec(bits);
            if counts[bits] > limit || code > limit - counts[bits] {
                return Err(Error::new(ErrorKind::InvalidCompression, "over-subscribed shared-Huffman code lengths"));
            }
            next_code.set(bits, code as u16);
            bits = bits + 1;
        }
        let mut symbols: HashMap<u32, u16> = HashMap::new();
        let mut symbol: usize = 0;
        while symbol < lengths.len()
            invariant
                symbol <= l.len(),
                l == lengths@,
                1 <= max <= 15,
                max == max_prefix(l, l.len()),
                forall|k: int| 0 <= k < l.len() ==> #[trigger] l[k] <= max,
                next_code@.len() == max + 1,
                forall|b: int| 1 <= b <= max ==> #[trigger] first_code(l, b) + count_len(l, b) <= pow2(b),
                forall|b: int| 1 <= b <= max ==> #[trigger] next_code@[b] == first_code(l, b) + count_prefix(l, symbol as nat, b),
                symbols@ == canonical_map(l, symbol as nat),
            decreases l.len() - symbol,
        {
            let length = lengths[symbol];
            if length != 0 {
                let length_index = length as usize;
                let code = next_code[length_index];
                proof {
                    lemma_count_prefix_le(l, symbol as nat, length as int);
                    lemma_pow2_monotone(length as int, 15);
                    reveal_with_fuel(pow2, 16);
                    assert(pow2(15) == 32768);
                }
                let key = length as u32 * 65536 + code as u32;
                symbols.insert(key, #[verifier::truncate] (symbol as u16));
                next_code.set(length_index, code + 1);
            }
            symbol = symbol + 1;
        }
        Ok(HuffmanTree { symbols, max_length })
    }
}

impl HuffmanTree {
    /// Read one symbol, one bit at a time, until the bits read so far form a code.
    pub(crate) fn decode(&self, reader: &mut BitReader) -> (r: crate::Result<u16>)
        requires
            old(reader).wf(),
            self.max_length_spec() <= 15,
        ensures
            final(reader).wf(),
            final(reader).bits() == old(reader).bits(),
            match r {
                Ok(s) => decode_from(self.symbols_spec(), self.max_length_spec(), old(reader).bits(), old(reader).pos(), 1) matches Ok((sym, n))
                    && s == sym && 1 <= n && final(reader).pos() == old(reader).pos() + n
                    && final(reader).pos() <= final(reader).bits().len() * 8,
                Err(e) => decode_from(self.symbols_spec(), self.max_length_spec(), old(reader).bits(), old(reader).pos(), 1)
                    == Err::<(u16, int), ErrorKind>(e.kind_spec()),
            },
            r matches Err(e) ==> e.kind_spec() == ErrorKind::TruncatedData || e.kind_spec() == ErrorKind::InvalidCompression,
    {
        broadcast use vstd::std_specs::hash::group_hash_axioms;
        let ghost data = reader.bits();
        let ghost start = reader.pos();
        let ghost symbols = self.symbols_spec();
        let ghost max = self.max_length_spec();
        let mut code: u32 = 0;
        let mut length: u8 = 1;
        while length <= self.max_length
            invariant
                1 <= length <= max + 1,
                max == self.max_length,
                max <= 15,
                symbols == self.symbols@,
                reader.wf(),
                reader.bits() == data,
                data == old(reader).bits(),
                start == old(reader).pos(),
                reader.pos() == start + length - 1,
                length > 1 ==> reader.pos() <= data.len() * 8,
                code == code_bits(data, start, (length - 1) as nat),
                code < pow2(length - 1),
                decode_from(symbols, max, data, start, 1) == decode_from(symbols, max, data, start, length as int),
            decreases max + 1 - length,
        {
            let bit = match reader.read_bit() {
                Ok(b) => b,
                Err(e) => {
                    return Err(e);
                },
            };
            proof {
                lemma_pow2_step(length - 1);
                lemma_pow2_monotone(length as int, 15);
                reveal_with_fuel(pow2, 16);
                assert(pow2(15) == 32768);
            }
            code = code * 2 + bit as u32;
            let key = length as u32 * 65536 + code;
            match self.symbols.get(&key) {
                Some(symbol) => {
                    return Ok(*symbol);
                },
                None => {},
            }
            length = length + 1;
        }
        Err(Error::new(ErrorKind::InvalidCompression, "invalid shared-Huffman code"))
    }
}

/// A bit-field value is never negative.
pub proof fn lemma_bits_value_nonneg(data: Seq<u8>, pos: int, n: nat)
    ensures
        bits_value(data, pos, n) >= 0,
    decreases n,
{
    if n > 0 {
        lemma_bits_value_nonneg(data, pos, (n - 1) as nat);
        lemma_pow2_step((n - 1) as int);
    }
}

/// A decoded symbol takes at least the length tried first, and the stream holds its bits.
pub proof fn lemma_decode_from_bounds(symbols: Map<u32, u16>, max: u8, data: Seq<u8>, pos: int, length: int)
    ensures
        decode_from(symbols, max, data, pos, length) matches Ok((s, n)) ==> length <= n && pos + n <= data.len() * 8,
    decreases max + 1 - length,
{
    if length <= max && pos + length <= data.len() * 8 {
        lemma_decode_from_bounds(symbols, max, data, pos, length + 1);
    }
}

/// Reading `n` bits at `pos`: their value and the position after them, or
/// the error kind when the stream ends first.
pub open spec fn take_bits(data: Seq<u8>, pos: int, n: nat) -> Result<(int, int), ErrorKind> {
    if n > 0 && pos + n > data.len() * 8 {
        Err(ErrorKind::TruncatedData)
    } else {
        Ok((bits_value(data, pos, n), pos + n))
    }
}

/// The code-length code lengths after the first `i` three-bit entries read at `pos`.
pub open spec fn code_length_code_lengths(data: Seq<u8>, pos: int, i: nat) -> Seq<u8>
    decreases i,
{
    if i == 0 {
        Seq::new(19, |k: int| 0u8)
    } else {
        code_length_code_lengths(data, pos, (i - 1) as nat).update(
            CODE_LENGTH_ORDER@[i - 1] as int,
            bits_value(data, pos + 3 * (i - 1), 3) as u8,
        )
    }
}

/// Decoding code lengths with the code-length code `symbols` (longest code
/// `max`) at `pos` until `total` lengths are known, starting from `lengths`:
/// the lengths and the position after them, or the error kind.
pub open spec fn code_lengths_from(
    data: Seq<u8>,
    symbols: Map<u32, u16>,
    max: u8,
    total: nat,
    pos: int,
    lengths: Seq<u8>,
) -> Result<(Seq<u8>, int), ErrorKind>
    decreases total - lengths.len(),
{
    if lengths.len() >= total {
        Ok((lengths, pos))
    } else {
        match decode_from(symbols, max, data, pos, 1) {
            Err(kind) => Err(kind),
            Ok((symbol, n)) => {
                let p = pos + n;
                if symbol <= 15 {
                    code_lengths_from(data, symbols, max, total, p, lengths.push(symbol as u8))
                } else if symbol <= 18 {
                    if symbol == 16 && lengths.len() == 0 {
                        Err(ErrorKind::InvalidCompression)
                    } else {
                        let extra: nat = if symbol == 16 {
                            2
                        } else if symbol == 17 {
                            3
                        } else {
                            7
                        };
                        let base: int = if symbol == 18 {
                            11
                        } else {
                            3
                        };
                        match take_bits(data, p, extra) {
                            Err(kind) => Err(kind),
                            Ok((v, p2)) => {
                                let repeat = base + v;
                                proof {
                                    lemma_bits_value_nonneg(data, p, extra);
                                }
                                let value = if symbol == 16 {
                                    lengths.last()
                                } else {
                                    0u8
                                };
                                if lengths.len() + repeat > total {
                                    Err(ErrorKind::InvalidCompression)
                                } else {
                                    code_lengths_from(
                                        data,
                                        symbols,
                                        max,
                                        total,
                                        p2,
                                        lengths + Seq::new(repeat as nat, |k: int| value),
                                    )
                                }
                            },
                        }
                    }
                } else {
                    Err(ErrorKind::InvalidCompression)
                }
            },
        }
    }
}

/// The code lengths of one canonical code, as a code: its symbol map and
/// longest length, or the error kind when they cannot form a prefix code.
pub open spec fn code_of(lengths: Seq<u8>) -> Result<(Map<u32, u16>, u8), ErrorKind> {
    if lengths_valid(lengths) {
        Ok((canonical_map(lengths, lengths.len()), max_prefix(lengths, lengths.len())))
    } else {
        Err(ErrorKind::InvalidCompression)
    }
}

/// The literal/length code, the distance code and the bit position of the
/// first block, read from the table at the start of a shared-Huffman bit
/// stream, or the error kind.
pub open spec fn shared_tables(data: Seq<u8>) -> Result<((Map<u32, u16>, u8), (Map<u32, u16>, u8), int), ErrorKind> {
    if data.len() * 8 < 14 {
        Err(ErrorKind::TruncatedData)
    } else {
        let literal_count = bits_value(data, 0, 5) + 257;
        let distance_count = bits_value(data, 5, 5) + 1;
        let code_length_count = bits_value(data, 10, 4) + 4;
        let total = literal_count + distance_count;
        if literal_count > 288 || distance_count > 32 {
            Err(ErrorKind::InvalidCompression)
        } else if 14 + 3 * code_length_count > data.len() * 8 {
            Err(ErrorKind::TruncatedData)
        } else {
            match code_of(code_length_code_lengths(data, 14, code_length_count as nat)) {
                Err(kind) => Err(kind),
                Ok((symbols, max)) => match code_lengths_from(
                    data,
                    symbols,
                    max,
                    total as nat,
                    14 + 3 * code_length_count,
                    Seq::empty(),
                ) {
                    Err(kind) => Err(kind),
                    Ok((lengths, pos)) => match code_of(lengths.subrange(0, literal_count)) {
                        Err(kind) => Err(kind),
                        Ok(literal) => match code_of(lengths.subrange(literal_count, total)) {
                            Err(kind) => Err(kind),
                            Ok(distance) => Ok((literal, distance, aligned_to_four_bytes(pos))),
                        },
                    },
                },
            }
        }
    }
}

/// `out` extended by `length` bytes copied from `distance` bytes back, one
/// byte at a time, so that a copy may repeat bytes it has just written.
pub open spec fn copy_back(out: Seq<u8>, distance: int, length: nat) -> Seq<u8>
    decreases length,
{
    if length == 0 {
        out
    } else {
        let o = copy_back(out, distance, (length - 1) as nat);
        o.push(o[o.len() - distance])
    }
}

/// Decoding the symbols of a Huffman-coded block at `pos` onto `out` until
/// its end-of-block symbol: the position after it and the output, or the
/// error kind.
pub open spec fn huffman_block_from(
    data: Seq<u8>,
    literal: (Map<u32, u16>, u8),
    distance: (Map<u32, u16>, u8),
    max_output: int,
    pos: int,
    out: Seq<u8>,
) -> Result<(int, Seq<u8>), ErrorKind>
    decreases data.len() * 8 - pos,
{
    match decode_from(literal.0, literal.1, data, pos, 1) {
        Err(kind) => Err(kind),
        Ok((symbol, n)) => {
            let p = pos + n;
            proof {
                lemma_decode_from_bounds(literal.0, literal.1, data, pos, 1);
            }
            if symbol <= 255 {
                if out.len() + 1 > max_output {
                    Err(ErrorKind::LimitExceeded)
                } else {
                    huffman_block_from(data, literal, distance, max_output, p, out.push(symbol as u8))
                }
            } else if symbol == 256 {
                Ok((p, out))
            } else if symbol <= 285 {
                let index = symbol - 257;
                match take_bits(data, p, LENGTH_EXTRA@[index] as nat) {
                    Err(kind) => Err(kind),
                    Ok((v, p2)) => {
                        let length = LENGTH_BASE@[index] + v;
                        match decode_from(distance.0, distance.1, data, p2, 1) {
                            Err(kind) => Err(kind),
                            Ok((distance_symbol, dn)) => {
                                let p3 = p2 + dn;
                                proof {
                                    lemma_decode_from_bounds(distance.0, distance.1, data, p2, 1);
                                }
                                if distance_symbol >= 30 {
                                    Err(ErrorKind::InvalidCompression)
                                } else {
                                    match take_bits(data, p3, DISTANCE_EXTRA@[distance_symbol as int] as nat) {
                                        Err(kind) => Err(kind),
                                        Ok((dv, p4)) => {
                                            let back = DISTANCE_BASE@[distance_symbol as int] + dv;
                                            if back == 0 || back > out.len() {
                                                Err(ErrorKind::InvalidCompression)
                                            } else if out.len() + length > max_output {
                                                Err(ErrorKind::LimitExceeded)
                                            } else {
                                                huffman_block_from(
                                                    data,
                                                    literal,
                                                    distance,
                                                    max_output,
                                                    p4,
                                                    copy_back(out, back, length as nat),
                                                )
                                            }
                                        },
                                    }
                                }
                            },
                        }
                    },
                }
            } else {
                Err(ErrorKind::InvalidCompression)
            }
        },
    }
}

/// A back-reference copy appends `length` bytes, each equal to the byte
/// `distance` places before it, and keeps what came before.
pub proof fn lemma_copy_back(out: Seq<u8>, distance: int, length: nat)
    requires
        1 <= distance <= out.len(),
    ensures
        copy_back(out, distance, length).len() == out.len() + length,
        copy_back(out, distance, length).subrange(0, out.len() as int) == out,
        forall|k: int|
            0 <= k < length ==> #[trigger] copy_back(out, distance, length)[out.len() + k] == copy_back(out, distance, length)[out.len()
                + k - distance],
    decreases length,
{
    if length > 0 {
        lemma_copy_back(out, distance, (length - 1) as nat);
        let o = copy_back(out, distance, (length - 1) as nat);
        let n = copy_back(out, distance, length);
        assert(n == o.push(o[o.len() - distance]));
        assert(n.subrange(0, out.len() as int) =~= o.subrange(0, out.len() as int));
        assert forall|k: int| 0 <= k < length implies #[trigger] n[out.len() + k] == n[out.len() + k - distance] by {
            if k < length - 1 {
                assert(n[out.len() + k] == o[out.len() + k]);
                assert(n[out.len() + k - distance] == o[out.len() + k - distance]);
            }
        }
    }
}

/// The other symbols of a Huffman-coded block: a literal below 256 appends
/// its byte and decoding goes on after it, and symbol 256 ends the block
/// with the output as it stands.
pub proof fn lemma_literal_and_end_symbols(
    data: Seq<u8>,
    literal: (Map<u32, u16>, u8),
    distance: (Map<u32, u16>, u8),
    max_output: int,
    pos: int,
    out: Seq<u8>,
    symbol: u16,
    n: int,
)
    requires
        decode_from(literal.0, literal.1, data, pos, 1) == Ok::<(u16, int), ErrorKind>((symbol, n)),
    ensures
        symbol <= 255 && out.len() < max_output ==> huffman_block_from(data, literal, distance, max_output, pos, out)
            == huffman_block_from(data, literal, distance, max_output, pos + n, out.push(symbol as u8)),
        symbol <= 255 && out.len() >= max_output ==> huffman_block_from(data, literal, distance, max_output, pos, out) == Err::<
            (int, Seq<u8>),
            ErrorKind,
        >(ErrorKind::LimitExceeded),
        symbol == 256 ==> huffman_block_from(data, literal, distance, max_output, pos, out) == Ok::<(int, Seq<u8>), ErrorKind>(
            (pos + n, out),
        ),
{
}

/// A length/distance pair in a Huffman-coded block: after a length symbol
/// `257 + l` with its extra bits and a distance symbol `d` with its extra
/// bits, decoding goes on from the bit after them with `LENGTH_BASE[l]` plus
/// the value of the length's extra bits bytes appended, each copied from
/// `DISTANCE_BASE[d]` plus the value of the distance's extra bits bytes back.
pub proof fn lemma_length_distance_pair(
    data: Seq<u8>,
    literal: (Map<u32, u16>, u8),
    distance: (Map<u32, u16>, u8),
    max_output: int,
    pos: int,
    out: Seq<u8>,
    symbol: u16,
    n: int,
    distance_symbol: u16,
    dn: int,
)
    requires
        decode_from(literal.0, literal.1, data, pos, 1) == Ok::<(u16, int), ErrorKind>((symbol, n)),
        257 <= symbol <= 285,
        take_bits(data, pos + n, LENGTH_EXTRA@[symbol - 257] as nat) is Ok,
        decode_from(
            distance.0,
            distance.1,
            data,
            pos + n + LENGTH_EXTRA@[symbol - 257],
            1,
        ) == Ok::<(u16, int), ErrorKind>((distance_symbol, dn)),
        distance_symbol < 30,
        take_bits(data, pos + n + LENGTH_EXTRA@[symbol - 257] + dn, DISTANCE_EXTRA@[distance_symbol as int] as nat) is Ok,
        ({
            let back = DISTANCE_BASE@[distance_symbol as int] + bits_value(
                data,
                pos + n + LENGTH_EXTRA@[symbol - 257] + dn,
                DISTANCE_EXTRA@[distance_symbol as int] as nat,
            );
            let length = LENGTH_BASE@[symbol - 257] + bits_value(data, pos + n, LENGTH_EXTRA@[symbol - 257] as nat);
            1 <= back <= out.len() && out.len() + length <= max_output
        }),
    ensures
        ({
            let length_end = pos + n + LENGTH_EXTRA@[symbol - 257];
            let distance_start = length_end + dn;
            let back = DISTANCE_BASE@[distance_symbol as int] + bits_value(
                data,
                distance_start,
                DISTANCE_EXTRA@[distance_symbol as int] as nat,
            );
            let length = LENGTH_BASE@[symbol - 257] + bits_value(data, pos + n, LENGTH_EXTRA@[symbol - 257] as nat);
            let copied = copy_back(out, back, length as nat);
            &&& huffman_block_from(data, literal, distance, max_output, pos, out) == huffman_block_from(
                data,
                literal,
                distance,
                max_output,
                distance_start + DISTANCE_EXTRA@[distance_symbol as int],
                copied,
            )
            &&& copied.len() == out.len() + length
            &&& copied.subrange(0, out.len() as int) == out
            &&& forall|k: int| 0 <= k < length ==> #[trigger] copied[out.len() + k] == copied[out.len() + k - back]
        }),
{
    let length = LENGTH_BASE@[symbol - 257] + bits_value(data, pos + n, LENGTH_EXTRA@[symbol - 257] as nat);
    assert(length >= 0) by {
        lemma_bits_value_nonneg(data, pos + n, LENGTH_EXTRA@[symbol - 257] as nat);
    }
    let back = DISTANCE_BASE@[distance_symbol as int] + bits_value(
        data,
        pos + n + LENGTH_EXTRA@[symbol - 257] + dn,
        DISTANCE_EXTRA@[distance_symbol as int] as nat,
    );
    lemma_copy_back(out, back, length as nat);
}

/// The byte index a bit position rounds up to.
pub open spec fn byte_after(pos: int) -> int {
    if pos % 8 == 0 {
        pos / 8
    } else {
        pos / 8 + 1
    }
}

/// Copying a stored block whose header starts at the first byte boundary at
/// or after `pos` onto `out`: the position after it and the output, or the
/// error kind.
pub open spec fn stored_block_from(data: Seq<u8>, max_output: int, pos: int, out: Seq<u8>) -> Result<(int, Seq<u8>), ErrorKind> {
    let start = byte_after(pos);
    if start + 4 > data.len() {
        Err(ErrorKind::TruncatedData)
    } else {
        let length = data[start] + 256 * data[start + 1];
        let complement = data[start + 2] + 256 * data[start + 3];
        if length != 65535 - complement {
            Err(ErrorKind::InvalidCompression)
        } else if out.len() + length > max_output {
            Err(ErrorKind::LimitExceeded)
        } else if start + 4 + length > data.len() {
            Err(ErrorKind::TruncatedData)
        } else {
            Ok(((start + 4 + length) * 8, out + data.subrange(start + 4, start + 4 + length)))
        }
    }
}

/// Decoding blocks `index` onward of a shared-Huffman bit stream, the next
/// one at bit `pos`, onto `out`: each block must start at the byte offset the
/// block table declares (counted from `raw_offset`), and only the last block
/// carries the final-block flag. The output, or the error kind.
pub open spec fn shared_blocks_from(
    data: Seq<u8>,
    literal: (Map<u32, u16>, u8),
    distance: (Map<u32, u16>, u8),
    max_output: int,
    offsets: Seq<usize>,
    raw_offset: int,
    index: nat,
    pos: int,
    out: Seq<u8>,
) -> Result<Seq<u8>, ErrorKind>
    decreases offsets.len() - index,
{
    if index >= offsets.len() {
        Ok(out)
    } else {
        let actual = raw_offset + pos / 8;
        if actual > usize::MAX {
            Err(ErrorKind::LimitExceeded)
        } else if actual != offsets[index as int] {
            Err(ErrorKind::InvalidOffset)
        } else if pos >= data.len() * 8 {
            Err(ErrorKind::TruncatedData)
        } else {
            match take_bits(data, pos + 1, 2) {
                Err(kind) => Err(kind),
                Ok((block_type, p)) => {
                    let body = if block_type == 0 {
                        stored_block_from(data, max_output, p, out)
                    } else if block_type == 1 || block_type == 2 {
                        huffman_block_from(data, literal, distance, max_output, p, out)
                    } else {
                        Err(ErrorKind::InvalidCompression)
                    };
                    match body {
                        Err(kind) => Err(kind),
                        Ok((end, next)) => if (bit_at(data, pos) != 0) != (index + 1 == offsets.len()) {
                            Err(ErrorKind::InvalidCompression)
                        } else {
                            shared_blocks_from(
                                data,
                                literal,
                                distance,
                                max_output,
                                offsets,
                                raw_offset,
                                index + 1,
                                aligned_to_four_bytes(end),
                                next,
                            )
                        },
                    }
                },
            }
        }
    }
}

/// Decoding a shared-Huffman bit stream: its code table, then one block per
/// entry of `offsets`, with at most `max_output` bytes of output. The
/// decoded bytes, or the error kind.
pub open spec fn shared_stream_spec(data: Seq<u8>, max_output: int, offsets: Seq<usize>, raw_offset: int) -> Result<
    Seq<u8>,
    ErrorKind,
> {
    if data.len() > usize::MAX / 16 {
        Err(ErrorKind::LimitExceeded)
    } else {
        match shared_tables(data) {
            Err(kind) => Err(kind),
            Ok((literal, distance, pos)) => shared_blocks_from(
                data,
                literal,
                distance,
                max_output,
                offsets,
                raw_offset,
                0,
                pos,
                Seq::empty(),
            ),
        }
    }
}

/// Succeeds exactly when `additional` more bytes keep the output within `maximum`.
pub(crate) fn ensure_output_limit(current: usize, additional: usize, maximum: usize) -> (r: crate::Result<()>)
    ensures
        r is Ok <==> current + additional <= maximum,
        r matches Err(e) ==> e.kind_spec() == ErrorKind::LimitExceeded,
{
    if additional > maximum || current > maximum - additional {
        return Err(Error::new(ErrorKind::LimitExceeded, "decompressed eZIP data exceeds the configured limit"));
    }
    Ok(())
}

/// Copy a stored block onto `output`: its four-byte length header starts at
/// the next byte boundary, and the bytes follow it.
#[verifier::loop_isolation(false)]
fn copy_stored_block(reader: &mut BitReader, max_output: usize, output: &mut Vec<u8>) -> (r: crate::Result<()>)
    requires
        old(reader).wf(),
        old(reader).pos() <= old(reader).bits().len() * 8,
        old(output)@.len() <= max_output,
    ensures
        final(reader).wf(),
        final(reader).bits() == old(reader).bits(),
        match r {
            Ok(()) => stored_block_from(old(reader).bits(), max_output as int, old(reader).pos(), old(output)@) == Ok::<
                (int, Seq<u8>),
                ErrorKind,
            >((final(reader).pos(), final(output)@)) && final(reader).pos() <= final(reader).bits().len() * 8
                && final(output)@.len() <= max_output,
            Err(e) => stored_block_from(old(reader).bits(), max_output as int, old(reader).pos(), old(output)@) == Err::<
                (int, Seq<u8>),
                ErrorKind,
            >(e.kind_spec()),
        },
{
    let ghost bits = reader.bits();
    let ghost pos0 = reader.pos();
    let ghost out0 = output@;
    reader.align_byte();
    proof {
        assert(reader.pos() / 8 == byte_after(pos0));
        assert(reader.pos() % 8 == 0);
    }
    let header = reader.read_aligned_bytes(4)?;
    let length = header[0] as u16 + header[1] as u16 * 256;
    let complement = header[2] as u16 + header[3] as u16 * 256;
    if length != 65535 - complement {
        return Err(Error::new(ErrorKind::InvalidCompression, "stored block length complement does not match"));
    }
    ensure_output_limit(output.len(), length as usize, max_output)?;
    let stored = reader.read_aligned_bytes(length as usize)?;
    let mut k: usize = 0;
    while k < stored.len()
        invariant
            k <= stored@.len(),
            output@ == out0 + stored@.subrange(0, k as int),
            out0.len() + stored@.len() <= max_output,
        decreases stored@.len() - k,
    {
        output.push(stored[k]);
        k = k + 1;
        proof {
            assert(output@ =~= out0 + stored@.subrange(0, k as int));
        }
    }
    proof {
        assert(stored@.subrange(0, stored@.len() as int) =~= stored@);
    }
    Ok(())
}

/// Decode the symbols of one Huffman-coded block onto `output`, up to and
/// including its end-of-block symbol.
#[verifier::loop_isolation(false)]
fn decode_huffman_block(
    reader: &mut BitReader,
    literal: &HuffmanTree,
    distance: &HuffmanTree,
    max_output: usize,
    output: &mut Vec<u8>,
) -> (r: crate::Result<()>)
    requires
        old(reader).wf(),
        old(reader).pos() <= old(reader).bits().len() * 8,
        literal.max_length_spec() <= 15,
        distance.max_length_spec() <= 15,
        old(output)@.len() <= max_output,
    ensures
        final(reader).wf(),
        final(reader).bits() == old(reader).bits(),
        match r {
            Ok(()) => huffman_block_from(
                old(reader).bits(),
                (literal.symbols_spec(), literal.max_length_spec()),
                (distance.symbols_spec(), distance.max_length_spec()),
                max_output as int,
                old(reader).pos(),
                old(output)@,
            ) == Ok::<(int, Seq<u8>), ErrorKind>((final(reader).pos(), final(output)@)) && final(reader).pos()
                <= final(reader).bits().len() * 8 && final(output)@.len() <= max_output,
            Err(e) => huffman_block_from(
                old(reader).bits(),
                (literal.symbols_spec(), literal.max_length_spec()),
                (distance.symbols_spec(), distance.max_length_spec()),
                max_output as int,
                old(reader).pos(),
                old(output)@,
            ) == Err::<(int, Seq<u8>), ErrorKind>(e.kind_spec()),
        },
{
    let ghost bits = reader.bits();
    let ghost lit = (literal.symbols_spec(), literal.max_length_spec());
    let ghost dist = (distance.symbols_spec(), distance.max_length_spec());
    let ghost goal = huffman_block_from(bits, lit, dist, max_output as int, reader.pos(), output@);
    loop
        invariant
            reader.wf(),
            reader.bits() == bits,
            reader.pos() <= bits.len() * 8,
            output@.len() <= max_output,
            literal.max_length_spec() <= 15,
            distance.max_length_spec() <= 15,
            lit == (literal.symbols_spec(), literal.max_length_spec()),
            dist == (distance.symbols_spec(), distance.max_length_spec()),
            huffman_block_from(bits, lit, dist, max_output as int, reader.pos(), output@) == goal,
        decreases bits.len() * 8 - reader.pos(),
    {
        let ghost pos = reader.pos();
        let ghost out = output@;
        proof {
            reveal_with_fuel(pow2, 17);
            lemma_decode_from_bounds(lit.0, lit.1, bits, pos, 1);
        }
        let symbol = literal.decode(reader)?;
        if symbol <= 255 {
            ensure_output_limit(output.len(), 1, max_output)?;
            output.push(symbol as u8);
        } else if symbol == 256 {
            return Ok(());
        } else if symbol <= 285 {
            let index = (symbol - 257) as usize;
            let extra = LENGTH_EXTRA[index];
            let base = LENGTH_BASE[index];
            proof {
                lemma_pow2_monotone(extra as int, 16);
                assert(base <= 258);
            }
            let length = match reader.read_bits(extra) {
                Ok(v) => base + v,
                Err(e) => {
                    return Err(e);
                },
            };
            let ghost p2 = reader.pos();
            proof {
                lemma_decode_from_bounds(dist.0, dist.1, bits, p2, 1);
            }
            let distance_symbol = distance.decode(reader)? as usize;
            if distance_symbol >= 30 {
                return Err(Error::new(ErrorKind::InvalidCompression, "invalid shared-Huffman distance symbol"));
            }
            let distance_extra = DISTANCE_EXTRA[distance_symbol];
            let distance_base = DISTANCE_BASE[distance_symbol];
            proof {
                lemma_pow2_monotone(distance_extra as int, 16);
                assert(distance_base <= 24577);
            }
            let back = match reader.read_bits(distance_extra) {
                Ok(v) => distance_base + v,
                Err(e) => {
                    return Err(e);
                },
            };
            if back == 0 || back > output.len() {
                return Err(Error::new(ErrorKind::InvalidCompression, "shared-Huffman back-reference is out of range"));
            }
            ensure_output_limit(output.len(), length, max_output)?;
            let mut copied: usize = 0;
            while copied < length
                invariant
                    copied <= length,
                    1 <= back <= out.len(),
                    out.len() + length <= max_output,
                    output@ == copy_back(out, back as int, copied as nat),
                    output@.len() == out.len() + copied,
                decreases length - copied,
            {
                let byte = output[output.len() - back];
                output.push(byte);
                copied = copied + 1;
            }
        } else {
            return Err(Error::new(ErrorKind::InvalidCompression, "invalid shared-Huffman literal/length symbol"));
        }
    }
}

/// Decode `total` code lengths with the code-length code `tree`.
#[verifier::loop_isolation(false)]
fn read_code_lengths(reader: &mut BitReader, code_length_tree: &HuffmanTree, total: usize) -> (r: crate::Result<Vec<u8>>)
    requires
        old(reader).wf(),
        old(reader).pos() <= old(reader).bits().len() * 8,
        code_length_tree.max_length_spec() <= 15,
        total <= 320,
    ensures
        final(reader).wf(),
        final(reader).bits() == old(reader).bits(),
        match r {
            Ok(lengths) => code_lengths_from(
                old(reader).bits(),
                code_length_tree.symbols_spec(),
                code_length_tree.max_length_spec(),
                total as nat,
                old(reader).pos(),
                Seq::empty(),
            ) == Ok::<(Seq<u8>, int), ErrorKind>((lengths@, final(reader).pos())) && lengths@.len() == total
                && final(reader).pos() <= final(reader).bits().len() * 8,
            Err(e) => code_lengths_from(
                old(reader).bits(),
                code_length_tree.symbols_spec(),
                code_length_tree.max_length_spec(),
                total as nat,
                old(reader).pos(),
                Seq::empty(),
            ) == Err::<(Seq<u8>, int), ErrorKind>(e.kind_spec()),
        },
{
    let ghost bits = reader.bits();
    let ghost cl = (code_length_tree.symbols_spec(), code_length_tree.max_length_spec());
    let ghost goal = code_lengths_from(bits, cl.0, cl.1, total as nat, reader.pos(), Seq::empty());
    let mut lengths: Vec<u8> = Vec::new();
    while lengths.len() < total
        invariant
            lengths@.len() <= total,
            total <= 320,
            code_length_tree.max_length_spec() <= 15,
            cl == (code_length_tree.symbols_spec(), code_length_tree.max_length_spec()),
            reader.wf(),
            reader.bits() == bits,
            reader.pos() <= bits.len() * 8,
            code_lengths_from(bits, cl.0, cl.1, total as nat, reader.pos(), lengths@) == goal,
        decreases total - lengths@.len(),
    {
        proof {
            reveal_with_fuel(pow2, 17);
            lemma_decode_from_bounds(cl.0, cl.1, bits, reader.pos(), 1);
        }
        let symbol = code_length_tree.decode(reader)?;
        if symbol <= 15 {
            lengths.push(symbol as u8);
        } else if symbol == 16 {
            if lengths.len() == 0 {
                return Err(Error::new(ErrorKind::InvalidCompression, "repeat code appears before a Huffman length"));
            }
            let previous = lengths[lengths.len() - 1];
            let repeat = match reader.read_bits(2) {
                Ok(v) => v + 3,
                Err(e) => {
                    return Err(e);
                },
            };
            proof {
                reveal_with_fuel(pow2, 3);
            }
            if lengths.len() + repeat > total {
                return Err(Error::new(ErrorKind::InvalidCompression, "repeated Huffman lengths exceed the table"));
            }
            push_repeated(&mut lengths, previous, repeat);
        } else if symbol == 17 || symbol == 18 {
            let repeat = if symbol == 17 {
                match reader.read_bits(3) {
                    Ok(v) => v + 3,
                    Err(e) => {
                        return Err(e);
                    },
                }
            } else {
                match reader.read_bits(7) {
                    Ok(v) => v + 11,
                    Err(e) => {
                        return Err(e);
                    },
                }
            };
            proof {
                reveal_with_fuel(pow2, 8);
            }
            if lengths.len() + repeat > total {
                return Err(Error::new(ErrorKind::InvalidCompression, "zero Huffman lengths exceed the table"));
            }
            push_repeated(&mut lengths, 0, repeat);
        } else {
            return Err(Error::new(ErrorKind::InvalidCompression, "invalid code-length symbol"));
        }
    }
    Ok(lengths)
}

/// Read the code table at the start of a shared-Huffman bit stream and build
/// its literal/length and distance codes; the reader ends at the first block.
#[verifier::loop_isolation(false)]
fn read_shared_tables(reader: &mut BitReader) -> (r: crate::Result<(HuffmanTree, HuffmanTree)>)
    requires
        old(reader).wf(),
        old(reader).pos() == 0,
    ensures
        final(reader).wf(),
        final(reader).bits() == old(reader).bits(),
        match r {
            Ok((literal, distance)) => shared_tables(old(reader).bits()) == Ok::<
                ((Map<u32, u16>, u8), (Map<u32, u16>, u8), int),
                ErrorKind,
            >(
                (
                    (literal.symbols_spec(), literal.max_length_spec()),
                    (distance.symbols_spec(), distance.max_length_spec()),
                    final(reader).pos(),
                ),
            ) && literal.max_length_spec() <= 15 && distance.max_length_spec() <= 15,
            Err(e) => shared_tables(old(reader).bits()) == Err::<
                ((Map<u32, u16>, u8), (Map<u32, u16>, u8), int),
                ErrorKind,
            >(e.kind_spec()),
        },
{
    let ghost bits = reader.bits();
    proof {
        reveal_with_fuel(pow2, 17);
        assert(pow2(16) == 65536);
    }
    let literal_count = match reader.read_bits(5) {
        Ok(v) => v + 257,
        Err(e) => {
            return Err(e);
        },
    };
    let distance_count = match reader.read_bits(5) {
        Ok(v) => v + 1,
        Err(e) => {
            return Err(e);
        },
    };
    let code_length_count = match reader.read_bits(4) {
        Ok(v) => v + 4,
        Err(e) => {
            return Err(e);
        },
    };
    proof {
        reveal_with_fuel(pow2, 6);
    }
    if literal_count > 288 || distance_count > 32 {
        return Err(Error::new(ErrorKind::InvalidCompression, "shared-Huffman table dimensions are invalid"));
    }
    let mut code_lengths: Vec<u8> = vec![0u8; 19];
    proof {
        assert(code_lengths@ =~= code_length_code_lengths(bits, 14, 0));
    }
    let mut i: usize = 0;
    while i < code_length_count
        invariant
            i <= code_length_count,
            code_length_count <= 19,
            code_length_count == bits_value(bits, 10, 4) + 4,
            code_lengths@ == code_length_code_lengths(bits, 14, i as nat),
            code_lengths@.len() == 19,
            reader.wf(),
            reader.bits() == bits,
            reader.pos() == 14 + 3 * i,
            reader.pos() <= bits.len() * 8,
        decreases code_length_count - i,
    {
        let index = CODE_LENGTH_ORDER[i];
        let value = match reader.read_bits(3) {
            Ok(v) => v,
            Err(e) => {
                return Err(e);
            },
        };
        proof {
            reveal_with_fuel(pow2, 4);
        }
        code_lengths.set(index, value as u8);
        i = i + 1;
    }
    let code_length_tree = HuffmanTree::from_lengths(code_lengths.as_slice())?;
    let total = literal_count + distance_count;
    let lengths = read_code_lengths(reader, &code_length_tree, total)?;
    let literal_tree = HuffmanTree::from_lengths(&lengths.as_slice()[0..literal_count])?;
    let distance_tree = HuffmanTree::from_lengths(&lengths.as_slice()[literal_count..total])?;
    reader.align_four_bytes();
    Ok((literal_tree, distance_tree))
}

/// Decode the bit stream of a shared-Huffman container: one dynamic Huffman
/// table followed by `block_offsets.len()` blocks that each start on a
/// four-byte boundary at the offset the block table declares.
#[verifier::loop_isolation(false)]
pub(crate) fn decode_shared_huffman(data: &[u8], max_output: usize, block_offsets: &[usize], raw_offset: usize) -> (r:
    crate::Result<Vec<u8>>)
    ensures
        match r {
            Ok(out) => shared_stream_spec(data@, max_output as int, block_offsets@, raw_offset as int) == Ok::<
                Seq<u8>,
                ErrorKind,
            >(out@) && out@.len() <= max_output,
            Err(e) => shared_stream_spec(data@, max_output as int, block_offsets@, raw_offset as int) == Err::<
                Seq<u8>,
                ErrorKind,
            >(e.kind_spec()),
        },
{
    if data.len() > usize::MAX / 16 {
        return Err(Error::new(ErrorKind::LimitExceeded, "bit-stream offset overflow"));
    }
    let mut reader = BitReader::new(data);
    let ghost bits = data@;
    let (literal_tree, distance_tree) = read_shared_tables(&mut reader)?;
    let ghost lit = (literal_tree.symbols_spec(), literal_tree.max_length_spec());
    let ghost dist = (distance_tree.symbols_spec(), distance_tree.max_length_spec());
    let ghost offsets = block_offsets@;
    let ghost goal = shared_blocks_from(bits, lit, dist, max_output as int, offsets, raw_offset as int, 0, reader.pos(), Seq::empty());
    let mut output: Vec<u8> = Vec::new();
    let mut block_index: usize = 0;
    while block_index < block_offsets.len()
        invariant
            reader.wf(),
            reader.bits() == bits,
            bits == data@,
            offsets == block_offsets@,
            block_index <= offsets.len(),
            output@.len() <= max_output,
            literal_tree.max_length_spec() <= 15,
            distance_tree.max_length_spec() <= 15,
            lit == (literal_tree.symbols_spec(), literal_tree.max_length_spec()),
            dist == (distance_tree.symbols_spec(), distance_tree.max_length_spec()),
            shared_blocks_from(bits, lit, dist, max_output as int, offsets, raw_offset as int, block_index as nat, reader.pos(), output@)
                == goal,
        decreases offsets.len() - block_index,
    {
        let expected_offset = block_offsets[block_index];
        let byte_position = reader.bit_position / 8;
        if raw_offset > usize::MAX - byte_position {
            return Err(Error::new(ErrorKind::LimitExceeded, "block offset overflow"));
        }
        let actual_offset = raw_offset + byte_position;
        if actual_offset != expected_offset {
            return Err(Error::new(ErrorKind::InvalidOffset, "shared-Huffman block does not start where the table declares").at_offset(expected_offset));
        }
        let final_bit = reader.read_bit()?;
        let block_type = reader.read_bits(2)?;
        if block_type == 0 {
            copy_stored_block(&mut reader, max_output, &mut output)?;
        } else if block_type == 1 || block_type == 2 {
            decode_huffman_block(&mut reader, &literal_tree, &distance_tree, max_output, &mut output)?;
        } else {
            return Err(Error::new(ErrorKind::InvalidCompression, "reserved shared-Huffman block type"));
        }
        reader.align_four_bytes();
        let should_be_final = block_index + 1 == block_offsets.len();
        let final_block = final_bit != 0;
        if final_block != should_be_final {
            if final_block {
                return Err(Error::new(ErrorKind::InvalidCompression, "shared-Huffman stream ends before its declared block count"));
            }
            return Err(Error::new(ErrorKind::InvalidCompression, "shared-Huffman final block marker is missing"));
        }
        block_index = block_index + 1;
    }
    Ok(output)
}

/// Append `count` copies of `value`.
fn push_repeated(lengths: &mut Vec<u8>, value: u8, count: usize)
    ensures
        final(lengths)@ == old(lengths)@ + Seq::new(count as nat, |i: int| value),
{
    let ghost start = lengths@;
    let mut k: usize = 0;
    while k < count
        invariant
            k <= count,
            lengths@ == start + Seq::new(k as nat, |i: int| value),
        decreases count - k,
    {
        lengths.push(value);
        k = k + 1;
        assert(lengths@ =~= start + Seq::new(k as nat, |i: int| value));
    }
}

proof fn lemma_max_prefix_bound(lengths: Seq<u8>, n: nat)
    requires
        n <= lengths.len(),
    ensures
        forall|k: int| 0 <= k < n ==> #[trigger] lengths[k] <= max_prefix(lengths, n),
    decreases n,
{
    if n > 0 {
        lemma_max_prefix_bound(lengths, (n - 1) as nat);
    }
}

proof fn lemma_count_prefix_bound(lengths: Seq<u8>, n: nat, length: int)
    ensures
        count_prefix(lengths, n, length) <= n,
    decreases n,
{
    if n > 0 {
        lemma_count_prefix_bound(lengths, (n - 1) as nat, length);
    }
}

/// A prefix count grows to the full count, and the next occurrence stays below it.
proof fn lemma_count_prefix_le(lengths: Seq<u8>, n: nat, length: int)
    requires
        n < lengths.len(),
        lengths[n as int] == length,
    ensures
        count_prefix(lengths, n, length) + 1 <= count_len(lengths, length),
{
    lemma_count_prefix_mono(lengths, (n + 1) as nat, lengths.len(), length);
}

proof fn lemma_count_prefix_mono(lengths: Seq<u8>, a: nat, b: nat, length: int)
    requires
        a <= b <= lengths.len(),
    ensures
        count_prefix(lengths, a, length) <= count_prefix(lengths, b, length),
    decreases b - a,
{
    if a < b {
        lemma_count_prefix_mono(lengths, a, (b - 1) as nat, length);
    }
}

fn pow2_exec(k: usize) -> (p: u64)
    requires
        k <= 15,
    ensures
        p == pow2(k as int),
{
    let mut p: u64 = 1;
    let mut i: usize = 0;
    while i < k
        invariant
            i <= k,
            k <= 15,
            p == pow2(i as int),
            p <= 32768,
        decreases k - i,
    {
        proof {
            lemma_pow2_step(i as int);
            lemma_pow2_monotone((i + 1) as int, 15);
            reveal_with_fuel(pow2, 16);
        }
        p = p * 2;
        i = i + 1;
    }
    p
}

} // verus!
