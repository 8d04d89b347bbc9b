//! The layers of a save file, from the outside in:
//!
//! 1. a SHA-1 digest (20 bytes) of everything after it;
//! 2. the decompressed size (big-endian `u32`) and an LZO-compressed block;
//! 3. in the decompressed block: its size less 4 (big-endian `u32`), the
//!    magic `WSG`, the version 2, the CRC-32 of the Huffman output and the
//!    Huffman output's size (three little-endian `u32`s);
//! 4. the Huffman layer, whose output is the protobuf-encoded save game.
//!
//! `open_save` checks the outer layer and hands out the compressed block;
//! its decompression is the caller's (the LZO library is a system library);
//! `finish_save` takes the decompressed block the rest of the way.
use vstd::prelude::*;
use vstd::slice::{slice_subrange, slice_to_vec};
use crate::bits::{MsbBitReader, msb_bits};
use crate::codec::{
    be_u32_at, le_u32_at, crc32_ieee, sha1_digest, read_u32_be, read_u32_le, checksum_ieee, sha1_of,
};
use crate::huffman::{lemma_decode_n_len, parse_tree, decode_n, try_read_huffman_tree, try_decompress_huffman};

verus! {

/// Why a save file was refused.
#[derive(Debug, Clone, Copy, PartialEq, Eq, Structural)]
pub enum SaveError {
    /// Shorter than its 20-byte digest.
    FileTooShort,
    /// The digest does not match the SHA-1 of the rest.
    DigestMismatch,
    /// No room for the decompressed size.
    PayloadTooShort,
    /// The decompressed block ends inside its header.
    HeaderTruncated,
    /// The size in the header is not the decompressed size less 4.
    SizeMismatch,
    /// The magic is not `WSG`.
    BadMagic,
    /// The version is not 2.
    BadVersion,
    /// The bits end inside the Huffman tree.
    HuffmanTreeTruncated,
    /// The bits end before the Huffman output is complete.
    HuffmanDataTruncated,
    /// The Huffman output does not match the CRC-32 in the header.
    CrcMismatch,
}

/// The header of the decompressed block.
#[derive(Debug, Clone, Copy, PartialEq, Eq, Structural)]
pub struct SaveHeader {
    pub payload_size: u32,
    pub version: u32,
    pub stored_crc: u32,
    pub huffman_size: usize,
}

/// The outer layer of a save file, checked: the size that its block
/// decompresses to, and the compressed block.
#[derive(Debug, PartialEq, Eq)]
pub struct CompressedSave {
    pub decomp_size: usize,
    pub compressed: Vec<u8>,
}

/// Where the Huffman layer starts in the decompressed block.
pub const HEADER_LEN: usize = 19;

/// The header of the decompressed block `d`, whose decompressed size was
/// announced as `decomp_size`, checked in the order in which it is read.
pub open spec fn header_spec(d: Seq<u8>, decomp_size: nat) -> Result<SaveHeader, SaveError> {
    if d.len() < 4 {
        Err(SaveError::HeaderTruncated)
    } else if decomp_size < 4 || be_u32_at(d, 0) != decomp_size - 4 {
        Err(SaveError::SizeMismatch)
    } else if !(d.len() >= 7 && d[4] == 0x57u8 && d[5] == 0x53u8 && d[6] == 0x47u8) {
        Err(SaveError::BadMagic)
    } else if d.len() < 11 {
        Err(SaveError::HeaderTruncated)
    } else if le_u32_at(d, 7) != 2 {
        Err(SaveError::BadVersion)
    } else if d.len() < 19 {
        Err(SaveError::HeaderTruncated)
    } else {
        Ok(
            SaveHeader {
                payload_size: be_u32_at(d, 0) as u32,
                version: 2,
                stored_crc: le_u32_at(d, 11) as u32,
                huffman_size: le_u32_at(d, 15) as usize,
            },
        )
    }
}

/// The header and the Huffman output of the decompressed block `d`.
pub open spec fn decompressed_spec(d: Seq<u8>, decomp_size: nat) -> Result<(SaveHeader, Seq<u8>), SaveError> {
    match header_spec(d, decomp_size) {
        Err(e) => Err(e),
        Ok(h) => match parse_tree(msb_bits(d.skip(19))) {
            None => Err(SaveError::HuffmanTreeTruncated),
            Some((tree, rest)) => match decode_n(tree, rest, h.huffman_size as nat) {
                None => Err(SaveError::HuffmanDataTruncated),
                Some((out, _)) => Ok((h, out)),
            },
        },
    }
}

/// The decompressed size and the compressed block of the save file `file`,
/// once its digest checks out.
pub open spec fn open_save_spec(file: Seq<u8>) -> Result<(usize, Seq<u8>), SaveError> {
    if file.len() < 20 {
        Err(SaveError::FileTooShort)
    } else if sha1_digest(file.skip(20)) != file.take(20) {
        Err(SaveError::DigestMismatch)
    } else if file.len() < 24 {
        Err(SaveError::PayloadTooShort)
    } else {
        Ok((be_u32_at(file, 20) as usize, file.skip(24)))
    }
}

/// The protobuf bytes inside the decompressed block `d`, once the CRC-32 in
/// its header checks out.
pub open spec fn finish_save_spec(d: Seq<u8>, decomp_size: nat) -> Result<Seq<u8>, SaveError> {
    match decompressed_spec(d, decomp_size) {
        Err(e) => Err(e),
        Ok((h, out)) => if crc32_ieee(out) != h.stored_crc {
            Err(SaveError::CrcMismatch)
        } else {
            Ok(out)
        },
    }
}

/// Reads and checks the header of the decompressed block `d`.
pub fn parse_save_header(d: &[u8], decomp_size: usize) -> (res: Result<SaveHeader, SaveError>)
    ensures
        res == header_spec(d@, decomp_size as nat),
{
    if d.len() < 4 {
        return Err(SaveError::HeaderTruncated);
    }
    let payload_size: u32 = read_u32_be(d);
    if decomp_size < 4 || payload_size as usize != decomp_size - 4 {
        return Err(SaveError::SizeMismatch);
    }
    if !(d.len() >= 7 && d[4] == 0x57u8 && d[5] == 0x53u8 && d[6] == 0x47u8) {
        return Err(SaveError::BadMagic);
    }
    if d.len() < 11 {
        return Err(SaveError::HeaderTruncated);
    }
    let version: u32 = read_u32_le(slice_subrange(d, 7, 11));
    if version != 2 {
        return Err(SaveError::BadVersion);
    }
    if d.len() < 19 {
        return Err(SaveError::HeaderTruncated);
    }
    let stored_crc: u32 = read_u32_le(slice_subrange(d, 11, 15));
    let huffman_size: usize = read_u32_le(slice_subrange(d, 15, 19)) as usize;
    Ok(SaveHeader { payload_size, version, stored_crc, huffman_size })
}

/// Reads the header and undoes the Huffman layer of the decompressed block
/// `d`; the CRC-32 in the header is left to the caller.
pub fn unpack_decompressed(d: &[u8], decomp_size: usize) -> (res: Result<(SaveHeader, Vec<u8>), SaveError>)
    ensures
        match decompressed_spec(d@, decomp_size as nat) {
            Ok((h, out)) => res matches Ok((h2, v)) && h2 == h && v@ == out,
            Err(e) => res == Err::<(SaveHeader, Vec<u8>), SaveError>(e),
        },
{
    let header = match parse_save_header(d, decomp_size) {
        Ok(h) => h,
        Err(e) => return Err(e),
    };
    let rest = slice_to_vec(slice_subrange(d, HEADER_LEN, d.len()));
    assert(rest@ =~= d@.skip(19));
    let mut brdr = MsbBitReader::new(rest);
    let tree = match try_read_huffman_tree(&mut brdr) {
        Some(t) => t,
        None => return Err(SaveError::HuffmanTreeTruncated),
    };
    match try_decompress_huffman(&mut brdr, tree, header.huffman_size) {
        Some(out) => Ok((header, out)),
        None => Err(SaveError::HuffmanDataTruncated),
    }
}

/// Whether `a` and `b` hold the same bytes.
fn same_bytes(a: &[u8], b: &[u8]) -> (res: bool)
    ensures
        res == (a@ == b@),
{
    if a.len() != b.len() {
        return false;
    }
    let mut i: usize = 0;
    while i < a.len()
        invariant
            a@.len() == b@.len(),
            i <= a@.len(),
            forall|j: int| 0 <= j < i ==> a@[j] == b@[j],
        decreases a@.len() - i,
    {
        if a[i] != b[i] {
            return false;
        }
        i = i + 1;
    }
    assert(a@ =~= b@);
    true
}

/// Checks the digest of the save file `file` and hands out its decompressed
/// size and its compressed block.
pub fn open_save(file: &[u8]) -> (res: Result<CompressedSave, SaveError>)
    ensures
        match open_save_spec(file@) {
            Ok((size, compressed)) => res matches Ok(c) && c.decomp_size == size && c.compressed@
                == compressed,
            Err(e) => res == Err::<CompressedSave, SaveError>(e),
        },
{
    if file.len() < 20 {
        return Err(SaveError::FileTooShort);
    }
    let stored_sha = slice_subrange(file, 0, 20);
    let payload = slice_subrange(file, 20, file.len());
    let calc_sha = sha1_of(payload);
    assert(stored_sha@ =~= file@.take(20));
    assert(payload@ =~= file@.skip(20));
    if !same_bytes(stored_sha, calc_sha.as_slice()) {
        return Err(SaveError::DigestMismatch);
    }
    if payload.len() < 4 {
        return Err(SaveError::PayloadTooShort);
    }
    let decomp_size: usize = read_u32_be(payload) as usize;
    let compressed = slice_to_vec(slice_subrange(payload, 4, payload.len()));
    assert(compressed@ =~= file@.skip(24));
    Ok(CompressedSave { decomp_size, compressed })
}

/// Unpacks the decompressed block `d` of a save file whose decompressed size
/// was announced as `decomp_size`, down to the protobuf-encoded save game:
/// header, Huffman layer and CRC-32.
pub fn finish_save(d: &[u8], decomp_size: usize) -> (res: Result<Vec<u8>, SaveError>)
    ensures
        match finish_save_spec(d@, decomp_size as nat) {
            Ok(out) => res matches Ok(v) && v@ == out,
            Err(e) => res == Err::<Vec<u8>, SaveError>(e),
        },
{
    let (header, out) = match unpack_decompressed(d, decomp_size) {
        Ok(r) => r,
        Err(e) => return Err(e),
    };
    let calc_crc: u32 = checksum_ieee(out.as_slice());
    if header.stored_crc != calc_crc {
        return Err(SaveError::CrcMismatch);
    }
    Ok(out)
}

/// A save file is opened only when its digest is the SHA-1 of the rest.
pub proof fn lemma_opened_save_digest(file: Seq<u8>)
    requires
        open_save_spec(file) is Ok,
    ensures
        file.len() >= 24,
        sha1_digest(file.skip(20)) == file.take(20),
        open_save_spec(file)->Ok_0.0 as nat == (file[20] as nat) * 0x100_0000 + (file[21] as nat)
            * 0x1_0000 + (file[22] as nat) * 0x100 + (file[23] as nat),
        open_save_spec(file)->Ok_0.1 == file.skip(24),
{
}

/// A decompressed block is unpacked only when its header has the version 2
/// and the decompressed size less 4, and the save game has the length and the
/// CRC-32 that the header gives.
pub proof fn lemma_finished_save_consistent(d: Seq<u8>, decomp_size: nat)
    requires
        finish_save_spec(d, decomp_size) is Ok,
    ensures
        ({
            let out = finish_save_spec(d, decomp_size)->Ok_0;
            &&& header_spec(d, decomp_size) matches Ok(h)
            &&& h.version == 2
            &&& h.payload_size + 4 == decomp_size
            &&& out.len() == h.huffman_size
            &&& crc32_ieee(out) == h.stored_crc
        }),
{
    let h = header_spec(d, decomp_size)->Ok_0;
    let (tree, rest) = parse_tree(msb_bits(d.skip(19)))->Some_0;
    lemma_decode_n_len(tree, rest, h.huffman_size as nat);
}

/// An accepted header is read from fixed places of the block: the payload
/// size big-endian from bytes 0 to 3, the magic `WSG` in bytes 4 to 6, the
/// version 2 and then the CRC-32 and the Huffman output size little-endian
/// from bytes 7, 11 and 15; and every block laid out so is accepted.
pub proof fn lemma_header_layout(d: Seq<u8>, decomp_size: nat)
    ensures
        header_spec(d, decomp_size) matches Ok(h) ==> {
            &&& d.len() >= 19
            &&& d[4] == 0x57u8 && d[5] == 0x53u8 && d[6] == 0x47u8
            &&& h.version == 2
            &&& (d[7] as nat) + (d[8] as nat) * 0x100 + (d[9] as nat) * 0x1_0000 + (d[10] as nat)
                * 0x100_0000 == 2
            &&& h.payload_size as nat == (d[0] as nat) * 0x100_0000 + (d[1] as nat) * 0x1_0000
                + (d[2] as nat) * 0x100 + (d[3] as nat)
            &&& h.payload_size as nat + 4 == decomp_size
            &&& h.stored_crc as nat == (d[11] as nat) + (d[12] as nat) * 0x100 + (d[13] as nat)
                * 0x1_0000 + (d[14] as nat) * 0x100_0000
            &&& h.huffman_size as nat == (d[15] as nat) + (d[16] as nat) * 0x100 + (d[17] as nat)
                * 0x1_0000 + (d[18] as nat) * 0x100_0000
        },
        ({
            &&& d.len() >= 19
            &&& d[4] == 0x57u8 && d[5] == 0x53u8 && d[6] == 0x47u8
            &&& (d[7] as nat) + (d[8] as nat) * 0x100 + (d[9] as nat) * 0x1_0000 + (d[10] as nat)
                * 0x100_0000 == 2
            &&& (d[0] as nat) * 0x100_0000 + (d[1] as nat) * 0x1_0000 + (d[2] as nat) * 0x100 + (
            d[3] as nat) + 4 == decomp_size
        }) ==> header_spec(d, decomp_size) is Ok,
{
}

/// An unpacked save game is exactly as long as the little-endian `u32` in
/// bytes 15 to 18 of the block says.
pub proof fn lemma_finished_save_length(d: Seq<u8>, decomp_size: nat)
    requires
        finish_save_spec(d, decomp_size) is Ok,
    ensures
        finish_save_spec(d, decomp_size)->Ok_0.len() == (d[15] as nat) + (d[16] as nat) * 0x100 + (
        d[17] as nat) * 0x1_0000 + (d[18] as nat) * 0x100_0000,
{
    lemma_finished_save_consistent(d, decomp_size);
    lemma_header_layout(d, decomp_size);
}

} // verus!
