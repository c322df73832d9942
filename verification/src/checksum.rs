use vstd::prelude::*;

verus! {

/// One bit step of the reflected CRC-32 register (polynomial 0xEDB88320).
pub open spec fn crc32_step(c: u32) -> u32 {
    if c & 1 == 1 {
        (c >> 1u32) ^ 0xEDB8_8320u32
    } else {
        c >> 1u32
    }
}

/// `n` bit steps of the CRC-32 register.
pub open spec fn crc32_steps(c: u32, n: nat) -> u32
    decreases n,
{
    if n == 0 {
        c
    } else {
        crc32_steps(crc32_step(c), (n - 1) as nat)
    }
}

/// The CRC-32 register after feeding `data`, starting from all ones.
pub open spec fn crc32_register(data: Seq<u8>) -> u32
    decreases data.len(),
{
    if data.len() == 0 {
        0xFFFF_FFFFu32
    } else {
        crc32_steps(crc32_register(data.drop_last()) ^ (data.last() as u32), 8)
    }
}

/// CRC-32 (ISO-HDLC, as used by zlib and PNG) of `data`.
pub open spec fn crc32_spec(data: Seq<u8>) -> u32 {
    !crc32_register(data)
}

/// The two Adler-32 running sums of `data`.
pub open spec fn adler32_sums(data: Seq<u8>) -> (int, int)
    decreases data.len(),
{
    if data.len() == 0 {
        (1, 0)
    } else {
        let (a, b) = adler32_sums(data.drop_last());
        let a2 = (a + data.last()) % 65521;
        (a2, (b + a2) % 65521)
    }
}

/// Adler-32 of `data`, as defined by RFC 1950.
pub open spec fn adler32_spec(data: Seq<u8>) -> u32 {
    let (a, b) = adler32_sums(data);
    (b * 65536 + a) as u32
}

/// Calls `crc32fast::hash`, which computes the standard CRC-32 of its input;
/// the contract claims exactly that value.
#[verifier::external_body]
pub(crate) fn crc32(data: &[u8]) -> (c: u32)
    ensures
        c == crc32_spec(data@),
{
    crc32fast::hash(data)
}

/// Calls `miniz_oxide::mz_adler32_oxide` starting from the initial Adler-32
/// value, which computes the RFC 1950 checksum of its input; the contract
/// claims exactly that value.
#[verifier::external_body]
pub(crate) fn adler32(data: &[u8]) -> (c: u32)
    ensures
        c == adler32_spec(data@),
{
    miniz_oxide::mz_adler32_oxide(miniz_oxide::MZ_ADLER32_INIT, data)
}

} // verus!
