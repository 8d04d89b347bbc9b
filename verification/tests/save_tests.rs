use bl2save::{finish_save, open_save, parse_save_header, unpack_decompressed, CompressedSave, SaveError, SaveHeader};

fn pack_msb(bits: &[u8]) -> Vec<u8> {
    let mut out = vec![0u8; (bits.len() + 7) / 8];
    for (i, b) in bits.iter().enumerate() {
        if *b != 0 {
            out[i / 8] |= 0x80 >> (i % 8);
        }
    }
    out
}

fn byte_bits(b: u8) -> Vec<u8> {
    (0..8).map(|i| (b >> (7 - i)) & 1).collect()
}

/// Huffman layer for "abcab" with the code a=0, b=10, c=11.
fn huffman_layer() -> Vec<u8> {
    let mut bits = vec![0, 1];
    bits.extend(byte_bits(b'a'));
    bits.extend(vec![0, 1]);
    bits.extend(byte_bits(b'b'));
    bits.push(1);
    bits.extend(byte_bits(b'c'));
    bits.extend(vec![0, 1, 0, 1, 1, 0, 1, 0]);
    pack_msb(&bits)
}

/// A decompressed block: header, then the Huffman layer.
fn decompressed_block(crc: u32, huffman_size: u32) -> Vec<u8> {
    let huff = huffman_layer();
    let total = 19 + huff.len();
    let mut d = Vec::new();
    d.extend_from_slice(&((total - 4) as u32).to_be_bytes());
    d.extend_from_slice(b"WSG");
    d.extend_from_slice(&2u32.to_le_bytes());
    d.extend_from_slice(&crc.to_le_bytes());
    d.extend_from_slice(&huffman_size.to_le_bytes());
    d.extend(huff);
    d
}

fn good_block() -> Vec<u8> {
    decompressed_block(crc::crc32::checksum_ieee(b"abcab"), 5)
}

fn sha1_bytes(data: &[u8]) -> Vec<u8> {
    let mut h = sha1::Sha1::new();
    h.update(data);
    h.digest().bytes().to_vec()
}

/// A save file whose compressed block is `compressed`, announced to
/// decompress to `size` bytes.
fn save_file(size: u32, compressed: &[u8]) -> Vec<u8> {
    let mut payload = Vec::new();
    payload.extend_from_slice(&size.to_be_bytes());
    payload.extend_from_slice(compressed);
    let mut file = sha1_bytes(&payload);
    file.extend(payload);
    file
}

#[test]
fn save_header_is_read() {
    let d = good_block();
    let h = parse_save_header(&d, d.len()).unwrap();
    assert_eq!(
        h,
        SaveHeader {
            payload_size: (d.len() - 4) as u32,
            version: 2,
            stored_crc: crc::crc32::checksum_ieee(b"abcab"),
            huffman_size: 5,
        }
    );
}

#[test]
fn save_header_little_endian_fields() {
    let mut d = good_block();
    d[11..15].copy_from_slice(&[0x01, 0x02, 0x03, 0x04]);
    d[15..19].copy_from_slice(&[0x05, 0x00, 0x00, 0x00]);
    let h = parse_save_header(&d, d.len()).unwrap();
    assert_eq!(h.stored_crc, 0x04030201);
    assert_eq!(h.huffman_size, 5);
}

#[test]
fn save_header_errors() {
    let d = good_block();
    assert_eq!(parse_save_header(&d[..3], d.len()), Err(SaveError::HeaderTruncated));
    assert_eq!(parse_save_header(&d, d.len() + 1), Err(SaveError::SizeMismatch));
    assert_eq!(parse_save_header(&d, 3), Err(SaveError::SizeMismatch));
    assert_eq!(parse_save_header(&d[..6], d.len()), Err(SaveError::BadMagic));
    let mut bad_magic = d.clone();
    bad_magic[6] = b'X';
    assert_eq!(parse_save_header(&bad_magic, d.len()), Err(SaveError::BadMagic));
    assert_eq!(parse_save_header(&d[..10], d.len()), Err(SaveError::HeaderTruncated));
    let mut bad_version = d.clone();
    bad_version[7] = 3;
    assert_eq!(parse_save_header(&bad_version, d.len()), Err(SaveError::BadVersion));
    let mut big_endian_version = d.clone();
    big_endian_version[7..11].copy_from_slice(&[0, 0, 0, 2]);
    assert_eq!(parse_save_header(&big_endian_version, d.len()), Err(SaveError::BadVersion));
    assert_eq!(parse_save_header(&d[..18], d.len()), Err(SaveError::HeaderTruncated));
}

#[test]
fn decompressed_block_is_unpacked() {
    let d = good_block();
    let (h, out) = unpack_decompressed(&d, d.len()).unwrap();
    assert_eq!(out, b"abcab".to_vec());
    assert_eq!(h.huffman_size, 5);
}

#[test]
fn decompressed_block_huffman_errors() {
    let d = good_block();
    assert_eq!(unpack_decompressed(&d[..19], d.len()), Err(SaveError::HuffmanTreeTruncated));
    let long = decompressed_block(0, 50);
    assert_eq!(unpack_decompressed(&long, long.len()), Err(SaveError::HuffmanDataTruncated));
}

#[test]
fn save_file_is_opened() {
    let file = save_file(0x01020304, &[9, 8, 7]);
    assert_eq!(open_save(&file), Ok(CompressedSave { decomp_size: 0x01020304, compressed: vec![9, 8, 7] }));
}

#[test]
fn save_file_with_empty_block_is_opened() {
    let file = save_file(0, &[]);
    assert_eq!(open_save(&file), Ok(CompressedSave { decomp_size: 0, compressed: vec![] }));
}

#[test]
fn save_file_too_short() {
    assert_eq!(open_save(&[0u8; 19]), Err(SaveError::FileTooShort));
}

#[test]
fn save_file_digest_mismatch() {
    let mut file = save_file(10, &[1, 2, 3]);
    file[0] ^= 1;
    assert_eq!(open_save(&file), Err(SaveError::DigestMismatch));
    let mut tampered = save_file(10, &[1, 2, 3]);
    let last = tampered.len() - 1;
    tampered[last] ^= 1;
    assert_eq!(open_save(&tampered), Err(SaveError::DigestMismatch));
}

#[test]
fn save_file_payload_too_short() {
    let payload = vec![0u8, 1, 2];
    let mut file = sha1_bytes(&payload);
    file.extend(payload);
    assert_eq!(open_save(&file), Err(SaveError::PayloadTooShort));
}

#[test]
fn save_game_is_finished() {
    let d = good_block();
    assert_eq!(finish_save(&d, d.len()), Ok(b"abcab".to_vec()));
}

#[test]
fn save_game_crc_mismatch() {
    let d = decompressed_block(crc::crc32::checksum_ieee(b"abcab") ^ 1, 5);
    assert_eq!(finish_save(&d, d.len()), Err(SaveError::CrcMismatch));
}

#[test]
fn save_game_header_errors_come_through() {
    let mut d = good_block();
    d[4] = b'X';
    assert_eq!(finish_save(&d, d.len()), Err(SaveError::BadMagic));
}
