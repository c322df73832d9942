use vstd::prelude::*;

verus! {

/// Little-endian 16-bit value at `i`.
pub open spec fn le_u16_at(s: Seq<u8>, i: int) -> int {
    s[i] + 256 * s[i + 1]
}

/// Big-endian 16-bit value at `i`.
pub open spec fn be_u16_at(s: Seq<u8>, i: int) -> int {
    256 * s[i] + s[i + 1]
}

/// Little-endian 32-bit value at `i`.
pub open spec fn le_u32_at(s: Seq<u8>, i: int) -> int {
    s[i] + 256 * s[i + 1] + 65536 * s[i + 2] + 16777216 * s[i + 3]
}

/// Big-endian 32-bit value at `i`.
pub open spec fn be_u32_at(s: Seq<u8>, i: int) -> int {
    16777216 * s[i] + 65536 * s[i + 1] + 256 * s[i + 2] + s[i + 3]
}

/// The four little-endian bytes of `v`.
pub open spec fn le_u32_bytes(v: u32) -> Seq<u8> {
    seq![(v % 256) as u8, ((v / 256) % 256) as u8, ((v / 65536) % 256) as u8, (v / 16777216) as u8]
}

/// The four big-endian bytes of `v`.
pub open spec fn be_u32_bytes(v: u32) -> Seq<u8> {
    seq![(v / 16777216) as u8, ((v / 65536) % 256) as u8, ((v / 256) % 256) as u8, (v % 256) as u8]
}

/// The two big-endian bytes of `v`.
pub open spec fn be_u16_bytes(v: u16) -> Seq<u8> {
    seq![(v / 256) as u8, (v % 256) as u8]
}

/// The two little-endian bytes of `v`.
pub open spec fn le_u16_bytes(v: u16) -> Seq<u8> {
    seq![(v % 256) as u8, (v / 256) as u8]
}

pub proof fn lemma_le_u32_roundtrip(v: u32)
    ensures
        le_u32_at(le_u32_bytes(v), 0) == v,
        be_u32_at(be_u32_bytes(v), 0) == v,
{
    let b0 = (v % 256) as u8;
    let b1 = ((v / 256) % 256) as u8;
    let b2 = ((v / 65536) % 256) as u8;
    let b3 = (v / 16777216) as u8;
    assert(b0 + 256 * b1 + 65536 * b2 + 16777216 * b3 == v) by (nonlinear_arith)
        requires
            b0 == v % 256,
            b1 == (v / 256) % 256,
            b2 == (v / 65536) % 256,
            b3 == v / 16777216,
            v <= 0xffff_ffff,
    ;
    assert(le_u32_bytes(v)[0] == b0 && le_u32_bytes(v)[1] == b1 && le_u32_bytes(v)[2] == b2 && le_u32_bytes(v)[3] == b3);
    assert(be_u32_bytes(v)[0] == b3 && be_u32_bytes(v)[1] == b2 && be_u32_bytes(v)[2] == b1 && be_u32_bytes(v)[3] == b0);
}

pub proof fn lemma_be_u16_roundtrip(v: u16)
    ensures
        be_u16_at(be_u16_bytes(v), 0) == v,
        le_u16_at(le_u16_bytes(v), 0) == v,
{
}

pub fn read_be_u16(data: &[u8], offset: usize) -> (v: u16)
    requires
        offset + 2 <= data@.len(),
    ensures
        v == be_u16_at(data@, offset as int),
{
    let b0 = data[offset] as u16;
    let b1 = data[offset + 1] as u16;
    b0 * 256 + b1
}

pub fn read_le_u16(data: &[u8], offset: usize) -> (v: u16)
    requires
        offset + 2 <= data@.len(),
    ensures
        v == le_u16_at(data@, offset as int),
{
    let b0 = data[offset] as u16;
    let b1 = data[offset + 1] as u16;
    b0 + b1 * 256
}

pub fn read_be_u32(data: &[u8], offset: usize) -> (v: u32)
    requires
        offset + 4 <= data@.len(),
    ensures
        v == be_u32_at(data@, offset as int),
{
    let b0 = data[offset] as u32;
    let b1 = data[offset + 1] as u32;
    let b2 = data[offset + 2] as u32;
    let b3 = data[offset + 3] as u32;
    b0 * 16777216 + b1 * 65536 + b2 * 256 + b3
}

pub fn read_le_u32(data: &[u8], offset: usize) -> (v: u32)
    requires
        offset + 4 <= data@.len(),
    ensures
        v == le_u32_at(data@, offset as int),
{
    let b0 = data[offset] as u32;
    let b1 = data[offset + 1] as u32;
    let b2 = data[offset + 2] as u32;
    let b3 = data[offset + 3] as u32;
    b0 + b1 * 256 + b2 * 65536 + b3 * 16777216
}

pub fn push_be_u32(out: &mut Vec<u8>, v: u32)
    ensures
        final(out)@ == old(out)@ + be_u32_bytes(v),
{
    out.push((v / 16777216) as u8);
    out.push(((v / 65536) % 256) as u8);
    out.push(((v / 256) % 256) as u8);
    out.push((v % 256) as u8);
}

pub fn push_le_u32(out: &mut Vec<u8>, v: u32)
    ensures
        final(out)@ == old(out)@ + le_u32_bytes(v),
{
    out.push((v % 256) as u8);
    out.push(((v / 256) % 256) as u8);
    out.push(((v / 65536) % 256) as u8);
    out.push((v / 16777216) as u8);
}

pub fn push_be_u16(out: &mut Vec<u8>, v: u16)
    ensures
        final(out)@ == old(out)@ + be_u16_bytes(v),
{
    out.push((v / 256) as u8);
    out.push((v % 256) as u8);
}

pub fn push_le_u16(out: &mut Vec<u8>, v: u16)
    ensures
        final(out)@ == old(out)@ + le_u16_bytes(v),
{
    out.push((v % 256) as u8);
    out.push((v / 256) as u8);
}

pub fn push_all(out: &mut Vec<u8>, source: &[u8])
    ensures
        final(out)@ == old(out)@ + source@,
{
    let mut i: usize = 0;
    while i < source.len()
        invariant
            i <= source@.len(),
            out@ == old(out)@ + source@.subrange(0, i as int),
        decreases source@.len() - i,
    {
        out.push(source[i]);
        i = i + 1;
        assert(out@ =~= old(out)@ + source@.subrange(0, i as int));
    }
    assert(source@.subrange(0, source@.len() as int) =~= source@);
}

pub fn copy_bytes(source: &[u8]) -> (out: Vec<u8>)
    ensures
        out@ == source@,
{
    let mut out: Vec<u8> = Vec::new();
    push_all(&mut out, source);
    assert(out@ =~= source@);
    out
}

} // verus!
