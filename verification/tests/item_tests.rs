use bl2save::{
    checksum_block, decode_item, decode_item_block, decode_weapon, fold_checksum, try_decode_item, try_decode_weapon,
    AssetConfigs, AssetGroup,
    AssetGroupConfig, AssetReference, ItemError, ItemHeader, LsbBitReader,
};

fn group() -> AssetGroupConfig {
    AssetGroupConfig {
        sublibrary_bits: 2,
        asset_bits: 3,
        none_index: 31,
        asset_mask: 7,
        sublibrary_mask: 3,
        use_set_id_mask: 1,
    }
}

fn configs() -> AssetConfigs {
    AssetConfigs { weapon_types: group(), balance_defs: group(), manufacturers: group(), weapon_parts: group() }
}

fn part(index: usize, g: AssetGroup) -> Option<AssetReference> {
    Some(AssetReference { asset_index: index & 7, sublibrary_index: (index >> 3) & 3, use_set_id: (index >> 3) & 1 != 0, group: g })
}

const SERIAL_PLAIN: [u8; 19] = [7, 0, 0, 0, 0, 83, 157, 7, 225, 167, 130, 12, 4, 49, 72, 49, 7, 165, 15];
const SERIAL_KEYED: [u8; 19] =
    [7, 222, 173, 190, 239, 79, 65, 35, 203, 38, 199, 43, 116, 6, 121, 174, 59, 51, 60];

fn block_for(key: [u8; 4]) -> Vec<u8> {
    let mut b = vec![7, key[0], key[1], key[2], key[3], 255, 255, 7, 225, 167, 130, 12, 4, 49, 72, 49, 7, 165, 15];
    b.resize(40, 0xff);
    b
}

#[test]
fn fold_checksum_xors_halves() {
    assert_eq!(fold_checksum(0x12345678), 0x444c);
    assert_eq!(fold_checksum(0xffff0000), 0xffff);
}

#[test]
fn checksum_block_unscrambled_serial() {
    let c = checksum_block(&SERIAL_PLAIN).unwrap();
    assert_eq!(c.block, block_for([0, 0, 0, 0]));
    assert_eq!(c.stored_checksum, 0x539d);
}

#[test]
fn checksum_block_scrambled_serial() {
    let c = checksum_block(&SERIAL_KEYED).unwrap();
    assert_eq!(c.block, block_for([0xde, 0xad, 0xbe, 0xef]));
    assert_eq!(c.stored_checksum, 0x6ffc);
}

#[test]
fn checksum_block_length_errors() {
    assert_eq!(checksum_block(&SERIAL_PLAIN[..6]), Err(ItemError::SerialTooShort));
    assert_eq!(checksum_block(&[0u8; 41]), Err(ItemError::SerialTooLong));
    let c = checksum_block(&[0u8; 40]).unwrap();
    assert_eq!(c.block.len(), 40);
    assert_eq!(c.stored_checksum, 0);
}

fn expected_weapon_parts(item: &bl2save::DecodedItem) {
    let w = &item.weapon;
    assert_eq!(w.typ, part(1, AssetGroup::WeaponTypes));
    assert_eq!(w.balance, None);
    assert_eq!(w.manufacturer, part(9, AssetGroup::Manufacturers));
    assert_eq!(w.manufacturer_grade_index, 5);
    assert_eq!(w.game_stage, 50);
    assert_eq!(w.body_part, part(0, AssetGroup::WeaponParts));
    assert_eq!(w.grip_part, part(1, AssetGroup::WeaponParts));
    assert_eq!(w.barrel_part, part(2, AssetGroup::WeaponParts));
    assert_eq!(w.sight_part, part(3, AssetGroup::WeaponParts));
    assert_eq!(w.stock_part, part(4, AssetGroup::WeaponParts));
    assert_eq!(w.elemental_part, part(5, AssetGroup::WeaponParts));
    assert_eq!(w.accessory_1_part, part(6, AssetGroup::WeaponParts));
    assert_eq!(w.accessory_2_part, part(7, AssetGroup::WeaponParts));
    assert_eq!(w.material_part, part(8, AssetGroup::WeaponParts));
    assert_eq!(w.prefix_part, part(9, AssetGroup::WeaponParts));
    assert_eq!(w.title_part, None);
}

#[test]
fn decode_unscrambled_item() {
    let item = decode_item(&SERIAL_PLAIN, &configs());
    assert_eq!(item.header, ItemHeader { is_weapon: true, version: 3, unique_id: 0, set_id: 7 });
    expected_weapon_parts(&item);
}

#[test]
fn decode_scrambled_item() {
    let item = decode_item(&SERIAL_KEYED, &configs());
    assert_eq!(item.header, ItemHeader { is_weapon: true, version: 3, unique_id: 0xefbeadde, set_id: 7 });
    expected_weapon_parts(&item);
}

#[test]
fn decode_item_checksum_mismatch() {
    let mut s = SERIAL_PLAIN;
    s[10] ^= 0x10;
    assert_eq!(try_decode_item(&s, &configs()), Err(ItemError::ChecksumMismatch));
    let mut t = SERIAL_PLAIN;
    t[6] ^= 1;
    assert_eq!(try_decode_item(&t, &configs()), Err(ItemError::ChecksumMismatch));
}

#[test]
fn decode_item_length_errors() {
    assert_eq!(try_decode_item(&SERIAL_PLAIN[..5], &configs()), Err(ItemError::SerialTooShort));
    assert_eq!(try_decode_item(&[0u8; 41], &configs()), Err(ItemError::SerialTooLong));
}

#[test]
fn decode_item_block_version_too_old() {
    let mut b = block_for([0, 0, 0, 0]);
    b[0] = 1 | (2 << 1);
    assert_eq!(decode_item_block(&b, &configs()), Err(ItemError::UnsupportedVersion));
}

#[test]
fn decode_item_block_check_bits() {
    let mut b = block_for([0, 0, 0, 0]);
    b[6] = 0x7f;
    assert_eq!(decode_item_block(&b, &configs()), Err(ItemError::BadCheckBits));
}

#[test]
fn decode_item_block_truncated() {
    let b = block_for([0, 0, 0, 0]);
    assert_eq!(decode_item_block(&b[..0], &configs()), Err(ItemError::Truncated));
    assert_eq!(decode_item_block(&b[..6], &configs()), Err(ItemError::Truncated));
    assert_eq!(decode_item_block(&b[..12], &configs()), Err(ItemError::Truncated));
    assert!(decode_item_block(&b[..19], &configs()).is_ok());
}

#[test]
fn decode_item_block_not_a_weapon() {
    let mut b = block_for([0, 0, 0, 0]);
    b[0] = 3 << 1;
    let item = decode_item_block(&b, &configs()).unwrap();
    assert!(!item.header.is_weapon);
    assert_eq!(item.header.version, 3);
}

#[test]
fn asset_reference_none_index() {
    let mut r = LsbBitReader::new(vec![0x1f]);
    assert_eq!(AssetReference::from(&group(), &mut r, AssetGroup::BalanceDefs), None);
}

#[test]
fn asset_reference_fields() {
    // 0b01110: asset 6, sublibrary 1, set id flag from the sublibrary bits
    let mut r = LsbBitReader::new(vec![0x0e]);
    assert_eq!(
        AssetReference::from(&group(), &mut r, AssetGroup::WeaponParts),
        Some(AssetReference { asset_index: 6, sublibrary_index: 1, use_set_id: true, group: AssetGroup::WeaponParts })
    );
    let mut empty = LsbBitReader::new(vec![]);
    assert_eq!(AssetReference::try_read(&group(), &mut empty, AssetGroup::WeaponParts), Err(ItemError::Truncated));
}

#[test]
fn asset_reference_wide_index_is_read_as_32_bits() {
    let wide = AssetGroupConfig {
        sublibrary_bits: 30,
        asset_bits: 10,
        none_index: 0,
        asset_mask: 0x3ff,
        sublibrary_mask: 0x3f_ffff,
        use_set_id_mask: 0x20_0000,
    };
    let mut r = LsbBitReader::new(vec![0x01, 0x04, 0x00, 0x80, 0xaa]);
    let got = AssetReference::from(&wide, &mut r, AssetGroup::WeaponTypes).unwrap();
    assert_eq!(got.asset_index, 1);
    assert_eq!(got.sublibrary_index, 0x20_0001);
    assert!(got.use_set_id);
}

#[test]
fn decode_weapon_from_bits() {
    let b = block_for([0, 0, 0, 0]);
    let mut r = LsbBitReader::new(b[8..].to_vec());
    let w = decode_weapon(&configs(), &mut r);
    assert_eq!(w.game_stage, 50);
    let mut short = LsbBitReader::new(b[8..12].to_vec());
    assert_eq!(try_decode_weapon(&configs(), &mut short), Err(ItemError::Truncated));
}

#[test]
fn checksum_block_check_bytes_are_always_set() {
    let c = checksum_block(&[1, 2, 3, 4, 5, 6, 7, 8]).unwrap();
    assert_eq!(&c.block[5..7], &[0xff, 0xff]);
    assert!(decode_item_block(&c.block, &configs()) != Err(ItemError::BadCheckBits));
}

#[test]
fn checked_item_decoding_agrees_with_strict() {
    assert_eq!(try_decode_item(&SERIAL_KEYED, &configs()), Ok(decode_item(&SERIAL_KEYED, &configs())));
}

#[test]
fn asset_reference_too_wide_asset_part() {
    let wide = AssetGroupConfig {
        sublibrary_bits: 0,
        asset_bits: 200,
        none_index: 0,
        asset_mask: 1,
        sublibrary_mask: 1,
        use_set_id_mask: 1,
    };
    let mut none = LsbBitReader::new(vec![0, 0, 0, 0]);
    assert_eq!(AssetReference::try_read(&wide, &mut none, AssetGroup::WeaponParts), Ok(None));
    let mut some = LsbBitReader::new(vec![1, 0, 0, 0]);
    assert_eq!(AssetReference::try_read(&wide, &mut some, AssetGroup::WeaponParts), Err(ItemError::AssetBitsTooWide));
}

#[test]
fn checksum_bytes_do_not_change_the_block() {
    let mut other = SERIAL_PLAIN;
    other[5] ^= 0x5a;
    other[6] ^= 0xa5;
    let a = checksum_block(&SERIAL_PLAIN).unwrap();
    let b = checksum_block(&other).unwrap();
    assert_eq!(a.block, b.block);
    assert_ne!(a.stored_checksum, b.stored_checksum);
    assert_eq!(try_decode_item(&other, &configs()), Err(ItemError::ChecksumMismatch));
}

