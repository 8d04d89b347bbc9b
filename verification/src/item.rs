//! Packed weapon serial numbers: a key, a scrambled body with a checksum,
//! and behind it a bit-packed header and the weapon's asset references.
use vstd::prelude::*;
use vstd::slice::{slice_subrange, slice_to_vec};
use vstd::pervasive::unreached;
use crate::bits::{LsbBitReader, lsb_bits, lsb_unread, lsb_value, bits_per_read};
use crate::codec::{be_u32_at, crc32_ieee, read_u32_be, checksum_ieee};
use crate::crypt::{bogo_decrypt, bogo_decrypted, rotate_right, rotation, xor_keystream};

verus! {

/// Why a serial number was refused.
#[derive(Debug, Clone, Copy, PartialEq, Eq, Structural)]
pub enum ItemError {
    /// Shorter than its key and checksum (7 bytes).
    SerialTooShort,
    /// Longer than the 40-byte checksum block.
    SerialTooLong,
    /// The stored checksum does not match the computed one.
    ChecksumMismatch,
    /// A format version below 3, which has no unique id.
    UnsupportedVersion,
    /// The 16 bits after the unique id are not all set.
    BadCheckBits,
    /// The bits end before the item does.
    Truncated,
    /// A reference's asset part is as wide as a `usize`, so its index cannot
    /// be taken apart.
    AssetBitsTooWide,
}

/// The asset library that an asset reference points into.
#[derive(Debug, Clone, Copy, PartialEq, Eq, Structural)]
pub enum AssetGroup {
    WeaponTypes,
    BalanceDefs,
    Manufacturers,
    WeaponParts,
}

/// How references into one asset library are packed: the widths of their
/// two parts, the index that means "no asset", and the masks that take the
/// index apart. These values come with the game's asset data.
#[derive(Debug, Clone, Copy, PartialEq, Eq, Structural)]
pub struct AssetGroupConfig {
    pub sublibrary_bits: usize,
    pub asset_bits: usize,
    pub none_index: usize,
    pub asset_mask: usize,
    pub sublibrary_mask: usize,
    pub use_set_id_mask: usize,
}

impl AssetGroupConfig {
    /// A reference is at least one bit wide.
    pub open spec fn wf(self) -> bool {
        1 <= self.sublibrary_bits + self.asset_bits <= usize::MAX
    }
}

/// The packing of the four asset libraries that a weapon refers to.
#[derive(Debug, Clone, Copy, PartialEq, Eq, Structural)]
pub struct AssetConfigs {
    pub weapon_types: AssetGroupConfig,
    pub balance_defs: AssetGroupConfig,
    pub manufacturers: AssetGroupConfig,
    pub weapon_parts: AssetGroupConfig,
}

impl AssetConfigs {
    pub open spec fn wf(self) -> bool {
        &&& self.weapon_types.wf()
        &&& self.balance_defs.wf()
        &&& self.manufacturers.wf()
        &&& self.weapon_parts.wf()
    }
}

/// A reference to one asset.
#[derive(Debug, Clone, Copy, PartialEq, Eq, Structural)]
pub struct AssetReference {
    pub asset_index: usize,
    pub sublibrary_index: usize,
    pub use_set_id: bool,
    pub group: AssetGroup,
}

/// A decoded weapon.
#[derive(Debug, Clone, Copy, PartialEq, Eq, Structural)]
pub struct Weapon {
    pub typ: Option<AssetReference>,
    pub balance: Option<AssetReference>,
    pub manufacturer: Option<AssetReference>,
    pub manufacturer_grade_index: usize,
    pub game_stage: usize,
    pub body_part: Option<AssetReference>,
    pub grip_part: Option<AssetReference>,
    pub barrel_part: Option<AssetReference>,
    pub sight_part: Option<AssetReference>,
    pub stock_part: Option<AssetReference>,
    pub elemental_part: Option<AssetReference>,
    pub accessory_1_part: Option<AssetReference>,
    pub accessory_2_part: Option<AssetReference>,
    pub material_part: Option<AssetReference>,
    pub prefix_part: Option<AssetReference>,
    pub title_part: Option<AssetReference>,
}

/// The fields that precede the weapon in the checksum block.
#[derive(Debug, Clone, Copy, PartialEq, Eq, Structural)]
pub struct ItemHeader {
    pub is_weapon: bool,
    pub version: u32,
    pub unique_id: u32,
    pub set_id: usize,
}

/// A decoded serial number.
#[derive(Debug, Clone, Copy, PartialEq, Eq, Structural)]
pub struct DecodedItem {
    pub header: ItemHeader,
    pub weapon: Weapon,
}

/// A serial number with its body descrambled, laid out for the checksum:
/// the 40-byte block and the checksum that was stored in it.
#[derive(Debug, PartialEq, Eq)]
pub struct ChecksumBlock {
    pub block: Vec<u8>,
    pub stored_checksum: u16,
}

/// The key that scrambles a serial number: its bytes 1 to 4, big-endian.
pub open spec fn serial_key(serial: Seq<u8>) -> u32 {
    be_u32_at(serial, 1) as u32
}

/// The serial number with everything after the key descrambled.
pub open spec fn descrambled(serial: Seq<u8>) -> Seq<u8> {
    serial.take(5) + bogo_decrypted(serial.skip(5), serial_key(serial))
}

/// The checksum block of a serial number and the checksum stored in it: the
/// descrambled serial with the checksum bytes (5 and 6) set to `0xff`, padded
/// with `0xff` to 40 bytes.
pub open spec fn checksum_block_spec(serial: Seq<u8>) -> Result<(Seq<u8>, u16), ItemError> {
    if serial.len() < 7 {
        Err(ItemError::SerialTooShort)
    } else if serial.len() > 40 {
        Err(ItemError::SerialTooLong)
    } else {
        let d = descrambled(serial);
        let stored = (d[5] as nat * 0x100 + d[6] as nat) as u16;
        let block = d.update(5, 0xffu8).update(6, 0xffu8) + Seq::new(
            (40 - serial.len()) as nat,
            |i: int| 0xffu8,
        );
        Ok((block, stored))
    }
}

/// The 16-bit checksum made from a CRC-32: its two halves XORed.
pub open spec fn fold_checksum_spec(crc: u32) -> u16 {
    (((crc & 0xffff0000u32) >> 16u32) ^ (crc & 0xffffu32)) as u16
}

/// One `read_bits(n)` from `bits`: the value and the bits after it.
pub open spec fn read_spec(bits: Seq<bool>, n: nat) -> Option<(nat, Seq<bool>)> {
    let k = bits_per_read(n);
    if bits.len() < k {
        None
    } else {
        Some((lsb_value(bits.take(k as int)), bits.skip(k as int)))
    }
}

/// The asset reference that `index` packs under `cfg`; `None` for the
/// library's "no asset" index.
pub open spec fn unpack_reference(cfg: AssetGroupConfig, group: AssetGroup, index: usize) -> Option<AssetReference> {
    if index == cfg.none_index {
        None
    } else {
        Some(
            AssetReference {
                asset_index: index & cfg.asset_mask,
                sublibrary_index: (index >> cfg.asset_bits) & cfg.sublibrary_mask,
                use_set_id: ((index >> cfg.asset_bits) & cfg.use_set_id_mask) != 0,
                group,
            },
        )
    }
}

/// One asset reference read from `bits`, and the bits after it. An index
/// other than "no asset" is taken apart by shifting it by the asset width,
/// which must be less than a `usize`'s.
pub open spec fn asset_ref_spec(cfg: AssetGroupConfig, group: AssetGroup, bits: Seq<bool>) -> Result<
    (Option<AssetReference>, Seq<bool>),
    ItemError,
> {
    match read_spec(bits, (cfg.sublibrary_bits + cfg.asset_bits) as nat) {
        None => Err(ItemError::Truncated),
        Some((index, rest)) => if index as usize != cfg.none_index && cfg.asset_bits >= usize::BITS {
            Err(ItemError::AssetBitsTooWide)
        } else {
            Ok((unpack_reference(cfg, group, index as usize), rest))
        },
    }
}

/// `count` asset references of one library read from `bits`, and the bits after them.
pub open spec fn asset_refs_spec(cfg: AssetGroupConfig, group: AssetGroup, bits: Seq<bool>, count: nat) -> Result<
    (Seq<Option<AssetReference>>, Seq<bool>),
    ItemError,
>
    decreases count,
{
    if count == 0 {
        Ok((Seq::empty(), bits))
    } else {
        match asset_refs_spec(cfg, group, bits, (count - 1) as nat) {
            Err(e) => Err(e),
            Ok((refs, rest)) => match asset_ref_spec(cfg, group, rest) {
                Err(e) => Err(e),
                Ok((r, rest2)) => Ok((refs.push(r), rest2)),
            },
        }
    }
}

/// The weapon with the given references and numbers; `parts` lists its
/// eleven parts in the order in which they are packed.
pub open spec fn weapon_of(
    typ: Option<AssetReference>,
    balance: Option<AssetReference>,
    manufacturer: Option<AssetReference>,
    grade: nat,
    stage: nat,
    parts: Seq<Option<AssetReference>>,
) -> Weapon {
    Weapon {
        typ,
        balance,
        manufacturer,
        manufacturer_grade_index: grade as usize,
        game_stage: stage as usize,
        body_part: parts[0],
        grip_part: parts[1],
        barrel_part: parts[2],
        sight_part: parts[3],
        stock_part: parts[4],
        elemental_part: parts[5],
        accessory_1_part: parts[6],
        accessory_2_part: parts[7],
        material_part: parts[8],
        prefix_part: parts[9],
        title_part: parts[10],
    }
}

/// How many parts a weapon has.
pub const WEAPON_PARTS: usize = 11;

/// The weapon packed at the start of `bits`, and the bits after it: its type,
/// balance and manufacturer, two 7-bit numbers, then its eleven parts.
#[verifier::opaque]
pub open spec fn weapon_spec(configs: AssetConfigs, bits: Seq<bool>) -> Result<(Weapon, Seq<bool>), ItemError> {
    match asset_ref_spec(configs.weapon_types, AssetGroup::WeaponTypes, bits) {
        Err(e) => Err(e),
        Ok((typ, b1)) => match asset_ref_spec(configs.balance_defs, AssetGroup::BalanceDefs, b1) {
            Err(e) => Err(e),
            Ok((balance, b2)) => match asset_ref_spec(
                configs.manufacturers,
                AssetGroup::Manufacturers,
                b2,
            ) {
                Err(e) => Err(e),
                Ok((manufacturer, b3)) => match read_spec(b3, 7) {
                    None => Err(ItemError::Truncated),
                    Some((grade, b4)) => match read_spec(b4, 7) {
                        None => Err(ItemError::Truncated),
                        Some((stage, b5)) => match asset_refs_spec(
                            configs.weapon_parts,
                            AssetGroup::WeaponParts,
                            b5,
                            11,
                        ) {
                            Err(e) => Err(e),
                            Ok((parts, b6)) => Ok(
                                (weapon_of(typ, balance, manufacturer, grade, stage, parts), b6),
                            ),
                        },
                    },
                },
            },
        },
    }
}

/// The header and weapon packed in `bits` (least significant bit first):
/// one bit "is a weapon", a 7-bit version (at least 3), a 32-bit unique id,
/// 16 bits that are all set, an 8-bit set id, then the weapon.
pub open spec fn item_bits_spec(configs: AssetConfigs, bits: Seq<bool>) -> Result<DecodedItem, ItemError> {
    if bits.len() < 1 {
        Err(ItemError::Truncated)
    } else {
        match read_spec(bits.drop_first(), 7) {
            None => Err(ItemError::Truncated),
            Some((version, b1)) => if version < 3 {
                Err(ItemError::UnsupportedVersion)
            } else {
                match read_spec(b1, 32) {
                    None => Err(ItemError::Truncated),
                    Some((unique_id, b2)) => match read_spec(b2, 16) {
                        None => Err(ItemError::Truncated),
                        Some((check, b3)) => if check != 0xffff {
                            Err(ItemError::BadCheckBits)
                        } else {
                            match read_spec(b3, 8) {
                                None => Err(ItemError::Truncated),
                                Some((set_id, b4)) => match weapon_spec(configs, b4) {
                                    Err(e) => Err(e),
                                    Ok((weapon, _)) => Ok(
                                        DecodedItem {
                                            header: ItemHeader {
                                                is_weapon: bits.first(),
                                                version: version as u32,
                                                unique_id: unique_id as u32,
                                                set_id: set_id as usize,
                                            },
                                            weapon,
                                        },
                                    ),
                                },
                            }
                        },
                    },
                }
            },
        }
    }
}

/// The item that the serial number `serial` holds.
pub open spec fn item_spec(configs: AssetConfigs, serial: Seq<u8>) -> Result<DecodedItem, ItemError> {
    match checksum_block_spec(serial) {
        Err(e) => Err(e),
        Ok((block, stored)) => if stored != fold_checksum_spec(crc32_ieee(block)) {
            Err(ItemError::ChecksumMismatch)
        } else {
            item_bits_spec(configs, lsb_bits(block))
        },
    }
}

/// The 16-bit checksum made from the CRC-32 `crc`.
pub fn fold_checksum(crc: u32) -> (r: u16)
    ensures
        r == fold_checksum_spec(crc),
{
    (((crc & 0xffff0000u32) >> 16u32) ^ (crc & 0xffffu32)) as u16
}

/// Descrambles the serial number `serial` and lays it out for its checksum.
pub fn checksum_block(serial: &[u8]) -> (res: Result<ChecksumBlock, ItemError>)
    ensures
        match checksum_block_spec(serial@) {
            Ok((block, stored)) => res matches Ok(c) && c.block@ == block && c.stored_checksum == stored,
            Err(e) => res == Err::<ChecksumBlock, ItemError>(e),
        },
{
    if serial.len() < 7 {
        return Err(ItemError::SerialTooShort);
    }
    if serial.len() > 40 {
        return Err(ItemError::SerialTooLong);
    }
    let key: u32 = read_u32_be(slice_subrange(serial, 1, 5));
    let mut body = slice_to_vec(slice_subrange(serial, 5, serial.len()));
    assert(body@ =~= serial@.skip(5));
    bogo_decrypt(body.as_mut_slice(), key);
    let mut data = slice_to_vec(slice_subrange(serial, 0, 5));
    let mut i: usize = 0;
    while i < body.len()
        invariant
            i <= body@.len(),
            data@ =~= serial@.take(5) + body@.take(i as int),
        decreases body@.len() - i,
    {
        data.push(body[i]);
        i = i + 1;
    }
    assert(body@.take(i as int) =~= body@);
    let ghost d = data@;
    assert(d =~= descrambled(serial@));
    let hi: u8 = data[5];
    let lo: u8 = data[6];
    let stored: u16 = ((hi as u16) << 8u16) | (lo as u16);
    assert(((hi as u16) << 8u16) | (lo as u16) == (hi as u16) * 256 + (lo as u16)) by (bit_vector);
    data.set(5, 0xffu8);
    data.set(6, 0xffu8);
    let ghost filled = data@;
    while data.len() < 40
        invariant
            data@.len() <= 40,
            filled.len() <= data@.len(),
            data@ =~= filled + Seq::new((data@.len() - filled.len()) as nat, |k: int| 0xffu8),
        decreases 40 - data@.len(),
    {
        data.push(0xffu8);
    }
    Ok(ChecksumBlock { block: data, stored_checksum: stored })
}

/// Reads an `n`-bit number from `brdr`.
fn read_number(brdr: &mut LsbBitReader, n: usize) -> (res: Result<u32, ItemError>)
    requires
        n >= 1,
    ensures
        match read_spec(lsb_unread(*old(brdr)), n as nat) {
            Some((v, rest)) => res == Ok::<u32, ItemError>(v as u32) && lsb_unread(*final(brdr)) == rest,
            None => res == Err::<u32, ItemError>(ItemError::Truncated),
        },
        read_spec(lsb_unread(*old(brdr)), n as nat) matches Some((v, rest)) ==> v < 0x1_0000_0000,
{
    match brdr.read_bits(n) {
        Ok(v) => Ok(v),
        Err(_) => Err(ItemError::Truncated),
    }
}

impl AssetReference {
    /// Reads one reference into the library `group`, packed as `cfg` says;
    /// the bits must hold it and, unless it is the library's "no asset"
    /// index (`None`), the asset width must be less than a `usize`'s.
    pub fn from(cfg: &AssetGroupConfig, brdr: &mut LsbBitReader, group: AssetGroup) -> (r: Option<AssetReference>)
        requires
            cfg.wf(),
            asset_ref_spec(*cfg, group, lsb_unread(*old(brdr))) is Ok,
        ensures
            asset_ref_spec(*cfg, group, lsb_unread(*old(brdr))) == Ok::<
                (Option<AssetReference>, Seq<bool>),
                ItemError,
            >((r, lsb_unread(*final(brdr)))),
    {
        match AssetReference::try_read(cfg, brdr, group) {
            Ok(r) => r,
            Err(_) => unreached(),
        }
    }

    /// Reads one reference into the library `group`, packed as `cfg` says,
    /// or says why it cannot. `Ok(None)` is the library's "no asset" index.
    pub fn try_read(cfg: &AssetGroupConfig, brdr: &mut LsbBitReader, group: AssetGroup) -> (res: Result<
        Option<AssetReference>,
        ItemError,
    >)
        requires
            cfg.wf(),
        ensures
            match asset_ref_spec(*cfg, group, lsb_unread(*old(brdr))) {
                Ok((r, rest)) => res == Ok::<Option<AssetReference>, ItemError>(r) && lsb_unread(
                    *final(brdr),
                ) == rest,
                Err(e) => res == Err::<Option<AssetReference>, ItemError>(e),
            },
    {
        let index: usize = match read_number(brdr, cfg.sublibrary_bits + cfg.asset_bits) {
            Ok(v) => v as usize,
            Err(e) => return Err(e),
        };
        if index == cfg.none_index {
            return Ok(None);
        }
        if cfg.asset_bits >= usize::BITS as usize {
            return Err(ItemError::AssetBitsTooWide);
        }
        Ok(
            Some(
                AssetReference {
                    asset_index: index & cfg.asset_mask,
                    sublibrary_index: (index >> cfg.asset_bits) & cfg.sublibrary_mask,
                    use_set_id: ((index >> cfg.asset_bits) & cfg.use_set_id_mask) != 0,
                    group,
                },
            ),
        )
    }
}

/// Reads `count` references into the library `group`.
fn read_asset_refs(cfg: &AssetGroupConfig, brdr: &mut LsbBitReader, group: AssetGroup, count: usize) -> (res:
    Result<Vec<Option<AssetReference>>, ItemError>)
    requires
        cfg.wf(),
    ensures
        match asset_refs_spec(*cfg, group, lsb_unread(*old(brdr)), count as nat) {
            Ok((refs, rest)) => res matches Ok(v) && v@ == refs && lsb_unread(*final(brdr)) == rest,
            Err(e) => res == Err::<Vec<Option<AssetReference>>, ItemError>(e),
        },
        res matches Ok(v) ==> v@.len() == count,
{
    let ghost bits = lsb_unread(*brdr);
    let mut refs: Vec<Option<AssetReference>> = Vec::new();
    while refs.len() < count
        invariant
            cfg.wf(),
            refs.len() <= count,
            bits == lsb_unread(*old(brdr)),
            asset_refs_spec(*cfg, group, bits, refs.len() as nat) == Ok::<
                (Seq<Option<AssetReference>>, Seq<bool>),
                ItemError,
            >((refs@, lsb_unread(*brdr))),
        decreases count - refs.len(),
    {
        let ghost k = refs.len() as nat;
        match AssetReference::try_read(cfg, brdr, group) {
            Ok(r) => {
                refs.push(r);
                assert(asset_refs_spec(*cfg, group, bits, k + 1) == Ok::<
                    (Seq<Option<AssetReference>>, Seq<bool>),
                    ItemError,
                >((refs@, lsb_unread(*brdr))));
            },
            Err(e) => {
                proof {
                    lemma_refs_fail_later(*cfg, group, bits, k + 1, count as nat, e);
                }
                return Err(e);
            },
        }
    }
    Ok(refs)
}

/// Once reading `k` references fails, reading more fails the same way.
proof fn lemma_refs_fail_later(cfg: AssetGroupConfig, group: AssetGroup, bits: Seq<bool>, k: nat, m: nat, e: ItemError)
    requires
        k <= m,
        asset_refs_spec(cfg, group, bits, k) == Err::<(Seq<Option<AssetReference>>, Seq<bool>), ItemError>(e),
    ensures
        asset_refs_spec(cfg, group, bits, m) == Err::<(Seq<Option<AssetReference>>, Seq<bool>), ItemError>(e),
    decreases m,
{
    if m > k {
        lemma_refs_fail_later(cfg, group, bits, k, (m - 1) as nat, e);
    }
}

/// Reads a weapon from `brdr`; the bits must hold all of it (see `weapon_spec`).
pub fn decode_weapon(configs: &AssetConfigs, brdr: &mut LsbBitReader) -> (w: Weapon)
    requires
        configs.wf(),
        weapon_spec(*configs, lsb_unread(*old(brdr))) is Ok,
    ensures
        weapon_spec(*configs, lsb_unread(*old(brdr))) == Ok::<(Weapon, Seq<bool>), ItemError>(
            (w, lsb_unread(*final(brdr))),
        ),
{
    match try_decode_weapon(configs, brdr) {
        Ok(w) => w,
        Err(_) => unreached(),
    }
}

/// Reads a weapon from `brdr`, or says why it cannot.
pub fn try_decode_weapon(configs: &AssetConfigs, brdr: &mut LsbBitReader) -> (res: Result<Weapon, ItemError>)
    requires
        configs.wf(),
    ensures
        match weapon_spec(*configs, lsb_unread(*old(brdr))) {
            Ok((w, rest)) => res == Ok::<Weapon, ItemError>(w) && lsb_unread(*final(brdr)) == rest,
            Err(e) => res == Err::<Weapon, ItemError>(e),
        },
{
    proof {
        reveal(weapon_spec);
    }
    let typ = match AssetReference::try_read(&configs.weapon_types, brdr, AssetGroup::WeaponTypes) {
        Ok(r) => r,
        Err(e) => return Err(e),
    };
    let balance = match AssetReference::try_read(&configs.balance_defs, brdr, AssetGroup::BalanceDefs) {
        Ok(r) => r,
        Err(e) => return Err(e),
    };
    let manufacturer = match AssetReference::try_read(&configs.manufacturers, brdr, AssetGroup::Manufacturers) {
        Ok(r) => r,
        Err(e) => return Err(e),
    };
    let manufacturer_grade_index: usize = match read_number(brdr, 7) {
        Ok(v) => v as usize,
        Err(e) => return Err(e),
    };
    let game_stage: usize = match read_number(brdr, 7) {
        Ok(v) => v as usize,
        Err(e) => return Err(e),
    };
    let parts = match read_asset_refs(&configs.weapon_parts, brdr, AssetGroup::WeaponParts, WEAPON_PARTS) {
        Ok(p) => p,
        Err(e) => return Err(e),
    };
    Ok(
        Weapon {
            typ,
            balance,
            manufacturer,
            manufacturer_grade_index,
            game_stage,
            body_part: parts[0],
            grip_part: parts[1],
            barrel_part: parts[2],
            sight_part: parts[3],
            stock_part: parts[4],
            elemental_part: parts[5],
            accessory_1_part: parts[6],
            accessory_2_part: parts[7],
            material_part: parts[8],
            prefix_part: parts[9],
            title_part: parts[10],
        },
    )
}

/// Decodes the header and the weapon packed in a checksum block, or says why
/// it cannot.
pub fn decode_item_block(block: &[u8], configs: &AssetConfigs) -> (res: Result<DecodedItem, ItemError>)
    requires
        configs.wf(),
    ensures
        res == item_bits_spec(*configs, lsb_bits(block@)),
{
    let mut brdr = LsbBitReader::new(slice_to_vec(block));
    let is_weapon = match brdr.read_bit() {
        Ok(b) => b,
        Err(_) => return Err(ItemError::Truncated),
    };
    let version: u32 = match read_number(&mut brdr, 7) {
        Ok(v) => v,
        Err(e) => return Err(e),
    };
    if version < 3 {
        return Err(ItemError::UnsupportedVersion);
    }
    let unique_id: u32 = match read_number(&mut brdr, 32) {
        Ok(v) => v,
        Err(e) => return Err(e),
    };
    let check: u32 = match read_number(&mut brdr, 16) {
        Ok(v) => v,
        Err(e) => return Err(e),
    };
    if check != 0x0000ffffu32 {
        return Err(ItemError::BadCheckBits);
    }
    let set_id: usize = match read_number(&mut brdr, 8) {
        Ok(v) => v as usize,
        Err(e) => return Err(e),
    };
    let weapon = match try_decode_weapon(configs, &mut brdr) {
        Ok(w) => w,
        Err(e) => return Err(e),
    };
    Ok(DecodedItem { header: ItemHeader { is_weapon, version, unique_id, set_id }, weapon })
}

/// Decodes the packed weapon serial number `serial`: descrambles it, checks
/// its checksum, and reads its header and its weapon. The serial must be one
/// that decodes (see `item_spec`); `try_decode_item` is the checked counterpart.
pub fn decode_item(serial: &[u8], configs: &AssetConfigs) -> (item: DecodedItem)
    requires
        configs.wf(),
        item_spec(*configs, serial@) is Ok,
    ensures
        item_spec(*configs, serial@) == Ok::<DecodedItem, ItemError>(item),
{
    let prepared = match checksum_block(serial) {
        Ok(c) => c,
        Err(_) => unreached(),
    };
    let calc_crc: u32 = checksum_ieee(prepared.block.as_slice());
    let calc_checksum: u16 = fold_checksum(calc_crc);
    if prepared.stored_checksum != calc_checksum {
        return unreached();
    }
    match decode_item_block(prepared.block.as_slice(), configs) {
        Ok(item) => item,
        Err(_) => unreached(),
    }
}

/// Decodes the packed weapon serial number `serial`, or says why it cannot.
pub fn try_decode_item(serial: &[u8], configs: &AssetConfigs) -> (res: Result<DecodedItem, ItemError>)
    requires
        configs.wf(),
    ensures
        res == item_spec(*configs, serial@),
{
    let prepared = match checksum_block(serial) {
        Ok(c) => c,
        Err(e) => return Err(e),
    };
    let calc_crc: u32 = checksum_ieee(prepared.block.as_slice());
    let calc_checksum: u16 = fold_checksum(calc_crc);
    if prepared.stored_checksum != calc_checksum {
        return Err(ItemError::ChecksumMismatch);
    }
    decode_item_block(prepared.block.as_slice(), configs)
}

/// A serial number is accepted only when it is 7 to 40 bytes long, its
/// stored checksum is the folded CRC-32 of its 40-byte checksum block, its
/// version is at least 3 and its check bits are all set.
pub proof fn lemma_accepted_item_is_consistent(configs: AssetConfigs, serial: Seq<u8>)
    requires
        item_spec(configs, serial) is Ok,
    ensures
        7 <= serial.len() <= 40,
        checksum_block_spec(serial) matches Ok((block, stored)) && block.len() == 40 && stored
            == fold_checksum_spec(crc32_ieee(block)),
        item_spec(configs, serial)->Ok_0.header.version >= 3,
{
    let (block, stored) = checksum_block_spec(serial)->Ok_0;
    let bits = lsb_bits(block);
    let (version, b1) = read_spec(bits.drop_first(), 7)->Some_0;
    let v = item_spec(configs, serial)->Ok_0;
    assert(lsb_value(bits.drop_first().take(7)) < 0x80) by {
        crate::bits::lemma_lsb_value_bound(bits.drop_first().take(7));
        reveal_with_fuel(crate::bits::pow2, 8);
    }
}

/// `n` set bits spell `2^n - 1`.
proof fn lemma_lsb_value_all_set(bits: Seq<bool>)
    requires
        forall|i: int| 0 <= i < bits.len() ==> bits[i],
    ensures
        lsb_value(bits) + 1 == crate::bits::pow2(bits.len()),
    decreases bits.len(),
{
    if bits.len() > 0 {
        lemma_lsb_value_all_set(bits.drop_first());
    }
}

/// Reading references fails only for want of bits or for a too-wide asset part.
proof fn lemma_refs_errors(cfg: AssetGroupConfig, group: AssetGroup, bits: Seq<bool>, count: nat)
    ensures
        asset_refs_spec(cfg, group, bits, count) matches Err(e) ==> e == ItemError::Truncated || e
            == ItemError::AssetBitsTooWide,
    decreases count,
{
    if count > 0 {
        lemma_refs_errors(cfg, group, bits, (count - 1) as nat);
    }
}

/// Reading a weapon fails only for want of bits or for a too-wide asset part.
proof fn lemma_weapon_errors(configs: AssetConfigs, bits: Seq<bool>)
    ensures
        weapon_spec(configs, bits) matches Err(e) ==> e == ItemError::Truncated || e
            == ItemError::AssetBitsTooWide,
{
    reveal(weapon_spec);
    if let Ok((typ, b1)) = asset_ref_spec(configs.weapon_types, AssetGroup::WeaponTypes, bits) {
        if let Ok((balance, b2)) = asset_ref_spec(configs.balance_defs, AssetGroup::BalanceDefs, b1) {
            if let Ok((m, b3)) = asset_ref_spec(configs.manufacturers, AssetGroup::Manufacturers, b2) {
                if let Some((g, b4)) = read_spec(b3, 7) {
                    if let Some((st, b5)) = read_spec(b4, 7) {
                        lemma_refs_errors(configs.weapon_parts, AssetGroup::WeaponParts, b5, 11);
                    }
                }
            }
        }
    }
}

/// Bits whose positions 40 to 55 are all set pass the check-bits test.
proof fn lemma_check_bits_pass(configs: AssetConfigs, bits: Seq<bool>)
    requires
        bits.len() >= 64,
        forall|i: int| 40 <= i < 56 ==> bits[i],
    ensures
        item_bits_spec(configs, bits) != Err::<DecodedItem, ItemError>(ItemError::BadCheckBits),
{
    let b1 = bits.drop_first().skip(7);
    let b2 = b1.skip(32);
    let check_bits = b2.take(16);
    assert(read_spec(bits.drop_first(), 7) == Some((lsb_value(bits.drop_first().take(7)), b1)));
    assert(read_spec(b1, 32) == Some((lsb_value(b1.take(32)), b2)));
    assert forall|i: int| 0 <= i < check_bits.len() implies check_bits[i] by {
        assert(check_bits[i] == bits[40 + i]);
    }
    lemma_lsb_value_all_set(check_bits);
    assert(crate::bits::pow2(16) == 0x1_0000) by {
        reveal_with_fuel(crate::bits::pow2, 17);
    }
    assert(read_spec(b2, 16) == Some((0xffffnat, b2.skip(16))));
    let b3 = b2.skip(16);
    if let Some((set_id, b4)) = read_spec(b3, 8) {
        lemma_weapon_errors(configs, b4);
    }
}

/// The 16 check bits of a checksum block are the two checksum bytes, which
/// the block always holds as `0xff`: a serial number is never refused for
/// its check bits.
pub proof fn lemma_check_bits_always_set(configs: AssetConfigs, serial: Seq<u8>)
    requires
        checksum_block_spec(serial) is Ok,
    ensures
        item_spec(configs, serial) != Err::<DecodedItem, ItemError>(ItemError::BadCheckBits),
{
    let (block, stored) = checksum_block_spec(serial)->Ok_0;
    assert(block.len() == 40);
    assert(block[5] == 0xffu8 && block[6] == 0xffu8);
    let bits = lsb_bits(block);
    assert forall|i: int| 40 <= i < 56 implies bits[i] by {
        let byte = block[i / 8];
        assert(byte == 0xffu8);
        let k: u8 = (i % 8) as u8;
        assert(k < 8 ==> (0xffu8 >> k) & 1u8 == 1u8) by (bit_vector);
    }
    lemma_check_bits_pass(configs, bits);
}

/// Two serial numbers of one length whose descrambled forms differ at most
/// in the two checksum bytes (5 and 6) have the same checksum block, so the
/// same computed checksum: of the values those two bytes can hold, only the
/// one that spells the computed checksum passes.
pub proof fn lemma_checksum_ignores_stored_bytes(s1: Seq<u8>, s2: Seq<u8>)
    requires
        checksum_block_spec(s1) is Ok,
        s1.len() == s2.len(),
        forall|i: int|
            0 <= i < s1.len() && i != 5 && i != 6 ==> #[trigger] descrambled(s1)[i] == descrambled(s2)[i],
    ensures
        checksum_block_spec(s2) is Ok,
        checksum_block_spec(s1)->Ok_0.0 == checksum_block_spec(s2)->Ok_0.0,
        fold_checksum_spec(crc32_ieee(checksum_block_spec(s1)->Ok_0.0)) == fold_checksum_spec(
            crc32_ieee(checksum_block_spec(s2)->Ok_0.0),
        ),
        checksum_block_spec(s1)->Ok_0.1 != checksum_block_spec(s2)->Ok_0.1 ==> !(checksum_block_spec(
            s1,
        )->Ok_0.1 == fold_checksum_spec(crc32_ieee(checksum_block_spec(s1)->Ok_0.0))
            && checksum_block_spec(s2)->Ok_0.1 == fold_checksum_spec(
            crc32_ieee(checksum_block_spec(s2)->Ok_0.0),
        )),
{
    lemma_descrambled_len(s1);
    lemma_descrambled_len(s2);
    let d1 = descrambled(s1);
    let d2 = descrambled(s2);
    let b1 = checksum_block_spec(s1)->Ok_0.0;
    let b2 = checksum_block_spec(s2)->Ok_0.0;
    assert(d1.update(5, 0xffu8).update(6, 0xffu8) =~= d2.update(5, 0xffu8).update(6, 0xffu8));
    assert(b1 =~= b2);
}

/// Descrambling keeps the length of a serial number.
pub proof fn lemma_descrambled_len(serial: Seq<u8>)
    requires
        7 <= serial.len() <= 40,
    ensures
        descrambled(serial).len() == serial.len(),
{
    let body = serial.skip(5);
    let key = serial_key(serial);
    if key != 0 {
        let x = xor_keystream(body, key);
        let r = rotation(body.len(), key);
        assert(r < body.len()) by {
            assert((body.len() as u32) as nat == body.len());
        }
        assert(rotate_right(x, r).len() == body.len());
    }
}

/// The folded checksum XORed with the CRC's low half gives back its high half.
pub proof fn lemma_fold_checksum_halves(crc: u32)
    ensures
        fold_checksum_spec(crc) ^ ((crc & 0xffffu32) as u16) == (crc >> 16u32) as u16,
        fold_checksum_spec(crc) ^ ((crc >> 16u32) as u16) == (crc & 0xffffu32) as u16,
{
    assert((((crc & 0xffff0000u32) >> 16u32) ^ (crc & 0xffffu32)) as u16 ^ ((crc & 0xffffu32) as u16)
        == (crc >> 16u32) as u16) by (bit_vector);
    assert((((crc & 0xffff0000u32) >> 16u32) ^ (crc & 0xffffu32)) as u16 ^ ((crc >> 16u32) as u16)
        == (crc & 0xffffu32) as u16) by (bit_vector);
}

/// The checksum block of a serial number of 7 to 40 bytes: its first five
/// bytes (the key and the byte before it) are kept, the rest is descrambled
/// with the key in bytes 1 to 4 (big-endian); bytes 5 and 6 become `0xff` and
/// held the stored checksum (high byte first); the block is padded with `0xff`
/// to 40 bytes.
pub proof fn lemma_checksum_block_layout(serial: Seq<u8>)
    requires
        7 <= serial.len() <= 40,
    ensures
        ({
            let d = descrambled(serial);
            let key = ((serial[1] as nat) * 0x100_0000 + (serial[2] as nat) * 0x1_0000 + (serial[3] as nat)
                * 0x100 + (serial[4] as nat)) as u32;
            let (block, stored) = checksum_block_spec(serial)->Ok_0;
            &&& checksum_block_spec(serial) is Ok
            &&& d.take(5) == serial.take(5)
            &&& d.skip(5) == bogo_decrypted(serial.skip(5), key)
            &&& block.len() == 40
            &&& stored as nat == (d[5] as nat) * 0x100 + (d[6] as nat)
            &&& block[5] == 0xffu8 && block[6] == 0xffu8
            &&& forall|i: int| 0 <= i < serial.len() && i != 5 && i != 6 ==> block[i] == #[trigger] d[i]
            &&& forall|i: int| serial.len() <= i < 40 ==> #[trigger] block[i] == 0xffu8
        }),
{
    lemma_descrambled_len(serial);
    let d = descrambled(serial);
    assert(d.take(5) =~= serial.take(5));
    assert(d.skip(5) =~= bogo_decrypted(serial.skip(5), serial_key(serial)));
    assert((d[5] as nat) * 0x100 + (d[6] as nat) < 0x1_0000);
}

/// How many bits a reference packed as `cfg` takes: its two widths, at most 32.
pub open spec fn reference_width(cfg: AssetGroupConfig) -> nat {
    bits_per_read((cfg.sublibrary_bits + cfg.asset_bits) as nat)
}

/// A reference is read from the next `reference_width(cfg)` bits, least
/// significant first. It is absent exactly for the "no asset" index; otherwise
/// its asset index is the index under the asset mask, and its sublibrary index
/// and set-id flag are the index shifted past the asset bits, under the
/// sublibrary mask and the set-id mask. Neither index has a bit outside its
/// mask, and the reference belongs to the library it was read for.
pub proof fn lemma_reference_fields(cfg: AssetGroupConfig, group: AssetGroup, bits: Seq<bool>)
    requires
        asset_ref_spec(cfg, group, bits) is Ok,
    ensures
        ({
            let k = reference_width(cfg);
            let index = lsb_value(bits.take(k as int)) as usize;
            let (r, rest) = asset_ref_spec(cfg, group, bits)->Ok_0;
            &&& bits.len() >= k
            &&& rest == bits.skip(k as int)
            &&& (r is None <==> index == cfg.none_index)
            &&& r matches Some(a) ==> {
                &&& a.group == group
                &&& a.asset_index == index & cfg.asset_mask
                &&& a.sublibrary_index == (index >> cfg.asset_bits) & cfg.sublibrary_mask
                &&& a.use_set_id == (((index >> cfg.asset_bits) & cfg.use_set_id_mask) != 0)
                &&& a.asset_index & !cfg.asset_mask == 0
                &&& a.sublibrary_index & !cfg.sublibrary_mask == 0
            }
        }),
{
    let k = reference_width(cfg);
    let index = lsb_value(bits.take(k as int)) as usize;
    let am = cfg.asset_mask;
    let sm = cfg.sublibrary_mask;
    let ab = cfg.asset_bits;
    assert((index & am) & !am == 0) by (bit_vector);
    assert(((index >> ab) & sm) & !sm == 0) by (bit_vector);
}

/// Once `n` references of one library are read, each was read from its own
/// place: reference `i` from `i` widths in, and what is left starts `n`
/// widths in.
proof fn lemma_refs_positions(cfg: AssetGroupConfig, group: AssetGroup, bits: Seq<bool>, n: nat)
    requires
        asset_refs_spec(cfg, group, bits, n) is Ok,
    ensures
        ({
            let k = reference_width(cfg) as int;
            let (refs, rest) = asset_refs_spec(cfg, group, bits, n)->Ok_0;
            &&& refs.len() == n
            &&& bits.len() >= n * k
            &&& rest == bits.skip(n * k)
            &&& forall|i: int|
                0 <= i < n ==> #[trigger] refs[i] == asset_ref_spec(cfg, group, bits.skip(i * k))->Ok_0.0
        }),
    decreases n,
{
    let k = reference_width(cfg) as int;
    if n == 0 {
        assert(bits.skip(0) =~= bits);
    } else {
        let m = (n - 1) as nat;
        lemma_refs_positions(cfg, group, bits, m);
        let (refs0, rest0) = asset_refs_spec(cfg, group, bits, m)->Ok_0;
        lemma_reference_fields(cfg, group, rest0);
        assert(m * k + k == n * k) by (nonlinear_arith)
            requires
                m + 1 == n,
        ;
        assert(m * k >= 0) by (nonlinear_arith)
            requires
                k >= 0,
        ;
        assert(rest0.skip(k) =~= bits.skip(n * k));
        assert(bits.skip(m * k) == rest0);
    }
}

/// A weapon is read from fixed places: its type, balance and manufacturer one
/// after the other, each with its own library's width; then the 7-bit grade
/// and game stage; then its eleven parts, each a parts-library width long.
/// What is left starts right after the last part.
pub proof fn lemma_weapon_layout(configs: AssetConfigs, bits: Seq<bool>)
    requires
        weapon_spec(configs, bits) is Ok,
    ensures
        ({
            let (w, rest) = weapon_spec(configs, bits)->Ok_0;
            let kt = reference_width(configs.weapon_types) as int;
            let kb = reference_width(configs.balance_defs) as int;
            let km = reference_width(configs.manufacturers) as int;
            let kp = reference_width(configs.weapon_parts) as int;
            let og = kt + kb + km;
            let op = og + 14;
            &&& bits.len() >= op + 11 * kp
            &&& rest == bits.skip(op + 11 * kp)
            &&& w.typ == asset_ref_spec(configs.weapon_types, AssetGroup::WeaponTypes, bits)->Ok_0.0
            &&& w.balance == asset_ref_spec(
                configs.balance_defs,
                AssetGroup::BalanceDefs,
                bits.skip(kt),
            )->Ok_0.0
            &&& w.manufacturer == asset_ref_spec(
                configs.manufacturers,
                AssetGroup::Manufacturers,
                bits.skip(kt + kb),
            )->Ok_0.0
            &&& w.manufacturer_grade_index as nat == lsb_value(bits.subrange(og, og + 7))
            &&& w.game_stage as nat == lsb_value(bits.subrange(og + 7, og + 14))
            &&& w.body_part == asset_ref_spec(configs.weapon_parts, AssetGroup::WeaponParts, bits.skip(op))->Ok_0.0
            &&& w.grip_part == asset_ref_spec(configs.weapon_parts, AssetGroup::WeaponParts, bits.skip(op + kp))->Ok_0.0
            &&& w.barrel_part == asset_ref_spec(configs.weapon_parts, AssetGroup::WeaponParts, bits.skip(op + 2 * kp))->Ok_0.0
            &&& w.sight_part == asset_ref_spec(configs.weapon_parts, AssetGroup::WeaponParts, bits.skip(op + 3 * kp))->Ok_0.0
            &&& w.stock_part == asset_ref_spec(configs.weapon_parts, AssetGroup::WeaponParts, bits.skip(op + 4 * kp))->Ok_0.0
            &&& w.elemental_part == asset_ref_spec(configs.weapon_parts, AssetGroup::WeaponParts, bits.skip(op + 5 * kp))->Ok_0.0
            &&& w.accessory_1_part == asset_ref_spec(configs.weapon_parts, AssetGroup::WeaponParts, bits.skip(op + 6 * kp))->Ok_0.0
            &&& w.accessory_2_part == asset_ref_spec(configs.weapon_parts, AssetGroup::WeaponParts, bits.skip(op + 7 * kp))->Ok_0.0
            &&& w.material_part == asset_ref_spec(configs.weapon_parts, AssetGroup::WeaponParts, bits.skip(op + 8 * kp))->Ok_0.0
            &&& w.prefix_part == asset_ref_spec(configs.weapon_parts, AssetGroup::WeaponParts, bits.skip(op + 9 * kp))->Ok_0.0
            &&& w.title_part == asset_ref_spec(configs.weapon_parts, AssetGroup::WeaponParts, bits.skip(op + 10 * kp))->Ok_0.0
        }),
{
    let kt = reference_width(configs.weapon_types) as int;
    let kb = reference_width(configs.balance_defs) as int;
    let km = reference_width(configs.manufacturers) as int;
    let kp = reference_width(configs.weapon_parts) as int;
    let og = kt + kb + km;
    let op = og + 14;
    let (typ, bal, man, grade, stage, parts, b5) = lemma_weapon_pieces(configs, bits);
    let (w, rest) = weapon_spec(configs, bits)->Ok_0;
    crate::bits::lemma_lsb_value_bound(bits.subrange(og, og + 7));
    crate::bits::lemma_lsb_value_bound(bits.subrange(og + 7, og + 14));
    assert(crate::bits::pow2(7) == 0x80) by {
        reveal_with_fuel(crate::bits::pow2, 8);
    }
    lemma_refs_positions(configs.weapon_parts, AssetGroup::WeaponParts, b5, 11);
    assert(11 * kp >= 0);
    lemma_skip_skip(bits, op, 0 * kp);
    lemma_skip_skip(bits, op, 1 * kp);
    lemma_skip_skip(bits, op, 2 * kp);
    lemma_skip_skip(bits, op, 3 * kp);
    lemma_skip_skip(bits, op, 4 * kp);
    lemma_skip_skip(bits, op, 5 * kp);
    lemma_skip_skip(bits, op, 6 * kp);
    lemma_skip_skip(bits, op, 7 * kp);
    lemma_skip_skip(bits, op, 8 * kp);
    lemma_skip_skip(bits, op, 9 * kp);
    lemma_skip_skip(bits, op, 10 * kp);
    lemma_skip_skip(bits, op, 11 * kp);
    assert(parts[0] == w.body_part);
    assert(parts[1] == w.grip_part);
    assert(parts[2] == w.barrel_part);
    assert(parts[3] == w.sight_part);
    assert(parts[4] == w.stock_part);
    assert(parts[5] == w.elemental_part);
    assert(parts[6] == w.accessory_1_part);
    assert(parts[7] == w.accessory_2_part);
    assert(parts[8] == w.material_part);
    assert(parts[9] == w.prefix_part);
    assert(parts[10] == w.title_part);
}

/// Skipping `a` and then `b` items skips `a + b`.
proof fn lemma_skip_skip(bits: Seq<bool>, a: int, b: int)
    requires
        0 <= a,
        0 <= b,
        a + b <= bits.len(),
    ensures
        bits.skip(a).skip(b) == bits.skip(a + b),
{
    assert(bits.skip(a).skip(b) =~= bits.skip(a + b));
}

/// The pieces a weapon is made of, and where each was read: the three
/// references in turn, the two 7-bit numbers, and the bits of the parts.
proof fn lemma_weapon_pieces(configs: AssetConfigs, bits: Seq<bool>) -> (pieces: (
    Option<AssetReference>,
    Option<AssetReference>,
    Option<AssetReference>,
    nat,
    nat,
    Seq<Option<AssetReference>>,
    Seq<bool>,
))
    requires
        weapon_spec(configs, bits) is Ok,
    ensures
        ({
            let (typ, bal, man, grade, stage, parts, b5) = pieces;
            let (w, rest) = weapon_spec(configs, bits)->Ok_0;
            let kt = reference_width(configs.weapon_types) as int;
            let kb = reference_width(configs.balance_defs) as int;
            let km = reference_width(configs.manufacturers) as int;
            let og = kt + kb + km;
            &&& bits.len() >= og + 14
            &&& typ == asset_ref_spec(configs.weapon_types, AssetGroup::WeaponTypes, bits)->Ok_0.0
            &&& bal == asset_ref_spec(configs.balance_defs, AssetGroup::BalanceDefs, bits.skip(kt))->Ok_0.0
            &&& man == asset_ref_spec(configs.manufacturers, AssetGroup::Manufacturers, bits.skip(kt + kb))->Ok_0.0
            &&& grade == lsb_value(bits.subrange(og, og + 7))
            &&& stage == lsb_value(bits.subrange(og + 7, og + 14))
            &&& b5 == bits.skip(og + 14)
            &&& asset_refs_spec(configs.weapon_parts, AssetGroup::WeaponParts, b5, 11) == Ok::<
                (Seq<Option<AssetReference>>, Seq<bool>),
                ItemError,
            >((parts, rest))
            &&& w == weapon_of(typ, bal, man, grade, stage, parts)
        }),
{
    reveal(weapon_spec);
    let kt = reference_width(configs.weapon_types) as int;
    let kb = reference_width(configs.balance_defs) as int;
    let km = reference_width(configs.manufacturers) as int;
    let og = kt + kb + km;
    let (typ, b1) = asset_ref_spec(configs.weapon_types, AssetGroup::WeaponTypes, bits)->Ok_0;
    lemma_reference_fields(configs.weapon_types, AssetGroup::WeaponTypes, bits);
    let (bal, b2) = asset_ref_spec(configs.balance_defs, AssetGroup::BalanceDefs, b1)->Ok_0;
    lemma_reference_fields(configs.balance_defs, AssetGroup::BalanceDefs, b1);
    let (man, b3) = asset_ref_spec(configs.manufacturers, AssetGroup::Manufacturers, b2)->Ok_0;
    lemma_reference_fields(configs.manufacturers, AssetGroup::Manufacturers, b2);
    assert(b2 =~= bits.skip(kt + kb));
    assert(b3 =~= bits.skip(og));
    let (grade, b4) = read_spec(b3, 7)->Some_0;
    let (stage, b5) = read_spec(b4, 7)->Some_0;
    assert(b3.take(7) =~= bits.subrange(og, og + 7));
    assert(b4 =~= bits.skip(og + 7));
    assert(b4.take(7) =~= bits.subrange(og + 7, og + 14));
    assert(b5 =~= bits.skip(og + 14));
    let (parts, b6) = asset_refs_spec(configs.weapon_parts, AssetGroup::WeaponParts, b5, 11)->Ok_0;
    (typ, bal, man, grade, stage, parts, b5)
}

/// Only versions below 3 are refused: a block is refused for its version
/// exactly when it holds the 7-bit version after its first bit and that
/// version is below 3; a decoded block carries that version and that first bit.
pub proof fn lemma_version_gate(configs: AssetConfigs, bits: Seq<bool>)
    ensures
        item_bits_spec(configs, bits) == Err::<DecodedItem, ItemError>(ItemError::UnsupportedVersion) <==> (
        bits.len() >= 8 && lsb_value(bits.subrange(1, 8)) < 3),
        item_bits_spec(configs, bits) matches Ok(item) ==> {
            &&& item.header.version as nat == lsb_value(bits.subrange(1, 8))
            &&& item.header.version >= 3
            &&& item.header.is_weapon == bits[0]
        },
{
    if bits.len() >= 8 {
        assert(bits.drop_first().take(7) =~= bits.subrange(1, 8));
        crate::bits::lemma_lsb_value_bound(bits.subrange(1, 8));
        assert(crate::bits::pow2(7) == 0x80) by {
            reveal_with_fuel(crate::bits::pow2, 8);
        }
        let b1 = bits.drop_first().skip(7);
        if let Some((u, b2)) = read_spec(b1, 32) {
            if let Some((c, b3)) = read_spec(b2, 16) {
                if let Some((sid, b4)) = read_spec(b3, 8) {
                    lemma_weapon_errors(configs, b4);
                }
            }
        }
    }
}

} // verus!
