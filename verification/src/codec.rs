//! The outside codecs that the save format is built from: fixed-width
//! integers (`byteorder`), CRC-32 (`crc`) and SHA-1 (`sha1`).
use vstd::prelude::*;
use byteorder::{BigEndian, ByteOrder, LittleEndian};

verus! {

/// The big-endian `u32` in `b[i..i + 4]`.
pub open spec fn be_u32_at(b: Seq<u8>, i: int) -> nat {
    (b[i] as nat) * 0x100_0000 + (b[i + 1] as nat) * 0x1_0000 + (b[i + 2] as nat) * 0x100 + (b[i + 3] as nat)
}

/// The little-endian `u32` in `b[i..i + 4]`.
pub open spec fn le_u32_at(b: Seq<u8>, i: int) -> nat {
    (b[i] as nat) + (b[i + 1] as nat) * 0x100 + (b[i + 2] as nat) * 0x1_0000 + (b[i + 3] as nat) * 0x100_0000
}

/// One bit step of CRC-32 with the reflected IEEE polynomial.
pub open spec fn crc32_bit_step(c: u32) -> u32 {
    if c & 1u32 == 1u32 {
        (c >> 1u32) ^ 0xedb88320u32
    } else {
        c >> 1u32
    }
}

/// `n` bit steps from `c`.
pub open spec fn crc32_bit_steps(c: u32, n: nat) -> u32
    decreases n,
{
    if n == 0 {
        c
    } else {
        crc32_bit_step(crc32_bit_steps(c, (n - 1) as nat))
    }
}

/// The CRC register after `data`, starting from all ones: each byte is XORed
/// into the low bits and followed by eight bit steps.
pub open spec fn crc32_register(data: Seq<u8>) -> u32
    decreases data.len(),
{
    if data.len() == 0 {
        0xffff_ffffu32
    } else {
        crc32_bit_steps(crc32_register(data.drop_last()) ^ (data.last() as u32), 8)
    }
}

/// The CRC-32 (IEEE) of `data`: the final register, inverted.
pub open spec fn crc32_ieee(data: Seq<u8>) -> u32 {
    !crc32_register(data)
}

/// The SHA-1 digest of `data`, as the `sha1` crate computes it.
pub uninterp spec fn sha1_digest(data: Seq<u8>) -> Seq<u8>;

/// `BigEndian::read_u32`: the first four bytes of `buf`, most significant
/// first. It panics on a shorter buffer.
#[verifier::external_body]
pub(crate) fn read_u32_be(buf: &[u8]) -> (r: u32)
    requires
        buf@.len() >= 4,
    ensures
        r as nat == be_u32_at(buf@, 0),
{
    BigEndian::read_u32(buf)
}

/// `LittleEndian::read_u32`: the first four bytes of `buf`, least significant
/// first. It panics on a shorter buffer.
#[verifier::external_body]
pub(crate) fn read_u32_le(buf: &[u8]) -> (r: u32)
    requires
        buf@.len() >= 4,
    ensures
        r as nat == le_u32_at(buf@, 0),
{
    LittleEndian::read_u32(buf)
}

/// `crc::crc32::checksum_ieee`: the CRC-32 of `data` (its table is built from
/// the polynomial `0xedb88320` by the same eight bit steps, and the register
/// is inverted before and after).
#[verifier::external_body]
pub(crate) fn checksum_ieee(data: &[u8]) -> (r: u32)
    ensures
        r == crc32_ieee(data@),
{
    crc::crc32::checksum_ieee(data)
}

/// `sha1::Sha1`: a fresh hasher fed with `data`; its digest is 20 bytes long
/// (the crate documents `Digest::bytes` as the 160-bit digest).
#[verifier::external_body]
pub(crate) fn sha1_of(data: &[u8]) -> (r: Vec<u8>)
    ensures
        r@ == sha1_digest(data@),
        r@.len() == 20,
{
    let mut hasher = sha1::Sha1::new();
    hasher.update(data);
    hasher.digest().bytes().to_vec()
}

} // verus!
