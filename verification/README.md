# bl2save

Reading Borderlands 2 save files, verified with Verus.

- `src/save.rs`: the outer layers of a save file (SHA-1 digest, sizes,
  header, Huffman layer, CRC-32). LZO decompression is done by the caller
  between `open_save` and `finish_save`.
- `src/huffman.rs`: the Huffman code tree and the decoding of its bits.
- `src/crypt.rs`: the descrambling of item serial numbers.
- `src/item.rs`: checksums and the bit-packed weapon data in serial numbers.
- `src/bits.rs`: bit readers over byte buffers (`bitbit`).
- `src/codec.rs`: fixed-width integers (`byteorder`), CRC-32 (`crc`), SHA-1 (`sha1`).
- `app/main.rs`: reads a save file, decompresses it with `minilzo` and prints
  the unpacked save game.
