//! Reading Borderlands 2 save files.
//!
//! A save file is unpacked layer by layer (`save`): a SHA-1 digest, LZO
//! compression (undone by the caller), a small header and a Huffman code (`huffman`) wrap the
//! protobuf-encoded save game. Inside it, each packed weapon carries a
//! scrambled serial number (`crypt`) whose bits (`bits`) hold the weapon's
//! asset references (`item`). The outside codecs are in `codec`.
pub mod bits;
pub mod codec;
pub mod crypt;
pub mod huffman;
pub mod item;
pub mod save;

pub use crypt::bogo_decrypt;
pub use huffman::{
    HuffmanNode, decompress_huffman, read_huffman_tree, try_decompress_huffman, try_read_huffman_tree,
};
pub use item::{
    AssetConfigs, AssetGroup, AssetGroupConfig, AssetReference, ChecksumBlock, DecodedItem, ItemError,
    ItemHeader, Weapon, checksum_block, decode_item, decode_item_block, decode_weapon, fold_checksum, try_decode_item,
    try_decode_weapon,
};
pub use save::{
    CompressedSave, SaveError, SaveHeader, finish_save, open_save, parse_save_header, unpack_decompressed,
};
pub use bits::{LsbBitReader, MsbBitReader};
