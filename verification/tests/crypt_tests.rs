use bl2save::bogo_decrypt;

#[test]
fn bogo_decrypt_without_key_leaves_data() {
    let mut data: Vec<u8> = vec![9, 8, 7, 6, 5];
    bogo_decrypt(&mut data[..], 0);
    assert_eq!(data, vec![9, 8, 7, 6, 5]);
}

#[test]
fn bogo_decrypt_without_key_accepts_empty_data() {
    let mut data: Vec<u8> = vec![];
    bogo_decrypt(&mut data[..], 0);
    assert!(data.is_empty());
}

#[test]
fn bogo_decrypt_known_vector() {
    let mut data: Vec<u8> = (1..=10).collect();
    bogo_decrypt(&mut data[..], 0x12345678);
    assert_eq!(data, vec![236, 253, 144, 24, 189, 178, 124, 59, 187, 237]);
}

#[test]
fn bogo_decrypt_key_with_sign_bit() {
    let mut data: Vec<u8> = vec![0xaa, 0xbb, 0xcc, 0xdd, 0xee];
    bogo_decrypt(&mut data[..], 0x80000021);
    assert_eq!(data, vec![7, 93, 89, 72, 63]);
}

#[test]
fn bogo_decrypt_single_byte_is_not_rotated() {
    let mut data: Vec<u8> = vec![0x42];
    bogo_decrypt(&mut data[..], 0x1f);
    assert_eq!(data, vec![0x42]);
}

#[test]
fn bogo_decrypt_keeps_length() {
    let mut data: Vec<u8> = vec![0; 33];
    bogo_decrypt(&mut data[..], 0xdeadbeef);
    assert_eq!(data.len(), 33);
}
