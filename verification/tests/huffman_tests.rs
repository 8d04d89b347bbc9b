use bl2save::{
    decompress_huffman, read_huffman_tree, try_decompress_huffman, try_read_huffman_tree, HuffmanNode, MsbBitReader,
};

/// Packs bits into bytes, most significant bit first, padding with zeros.
fn pack_msb(bits: &[u8]) -> Vec<u8> {
    let mut out = vec![0u8; (bits.len() + 7) / 8];
    for (i, b) in bits.iter().enumerate() {
        if *b != 0 {
            out[i / 8] |= 0x80 >> (i % 8);
        }
    }
    out
}

fn byte_bits(b: u8) -> Vec<u8> {
    (0..8).map(|i| (b >> (7 - i)) & 1).collect()
}

/// The tree a=0, b=10, c=11 followed by the given code bits.
fn abc_stream(code: &[u8]) -> Vec<u8> {
    let mut bits = vec![0, 1];
    bits.extend(byte_bits(b'a'));
    bits.extend(vec![0, 1]);
    bits.extend(byte_bits(b'b'));
    bits.push(1);
    bits.extend(byte_bits(b'c'));
    bits.extend_from_slice(code);
    pack_msb(&bits)
}

#[test]
fn huffman_tree_is_read() {
    let mut r = MsbBitReader::new(abc_stream(&[]));
    let tree = read_huffman_tree(&mut r);
    match tree {
        HuffmanNode::Internal(left, right) => {
            assert!(matches!(*left, HuffmanNode::Leaf(b'a')));
            match *right {
                HuffmanNode::Internal(l2, r2) => {
                    assert!(matches!(*l2, HuffmanNode::Leaf(b'b')));
                    assert!(matches!(*r2, HuffmanNode::Leaf(b'c')));
                }
                _ => panic!("expected an inner node"),
            }
        }
        _ => panic!("expected an inner node"),
    }
}

#[test]
fn huffman_leaf_byte_is_most_significant_bit_first() {
    let mut bits = vec![1];
    bits.extend(byte_bits(0x81));
    let mut r = MsbBitReader::new(pack_msb(&bits));
    assert!(matches!(read_huffman_tree(&mut r), HuffmanNode::Leaf(0x81)));
}

#[test]
fn huffman_tree_truncated() {
    let mut r = MsbBitReader::new(vec![0x00]);
    assert!(try_read_huffman_tree(&mut r).is_none());
    let mut r2 = MsbBitReader::new(vec![]);
    assert!(try_read_huffman_tree(&mut r2).is_none());
}

#[test]
fn huffman_decodes_symbols() {
    let mut r = MsbBitReader::new(abc_stream(&[0, 1, 0, 1, 1, 0, 1, 0]));
    let tree = read_huffman_tree(&mut r);
    let out = decompress_huffman(&mut r, tree, 5);
    assert_eq!(out, b"abcab".to_vec());
}

#[test]
fn huffman_output_has_requested_length() {
    let mut r = MsbBitReader::new(abc_stream(&[0, 0, 0, 0, 0, 0, 0]));
    let tree = read_huffman_tree(&mut r);
    let out = decompress_huffman(&mut r, tree, 3);
    assert_eq!(out, b"aaa".to_vec());
}

#[test]
fn huffman_data_truncated() {
    // 19 tree bits + 5 padding bits of zeros: at most 5 more symbols.
    let mut r = MsbBitReader::new(abc_stream(&[]));
    let tree = read_huffman_tree(&mut r);
    assert!(try_decompress_huffman(&mut r, tree, 6).is_none());
}

#[test]
fn huffman_single_leaf_needs_no_bits() {
    let mut bits = vec![1];
    bits.extend(byte_bits(b'z'));
    let mut r = MsbBitReader::new(pack_msb(&bits));
    let tree = read_huffman_tree(&mut r);
    let out = decompress_huffman(&mut r, tree, 4);
    assert_eq!(out, b"zzzz".to_vec());
}

#[test]
fn huffman_two_calls_read_what_one_call_reads() {
    let code = [0, 1, 0, 1, 1, 0, 1, 0];
    let mut r1 = MsbBitReader::new(abc_stream(&code));
    let t1 = read_huffman_tree(&mut r1);
    let whole = decompress_huffman(&mut r1, t1, 5);

    let mut r2 = MsbBitReader::new(abc_stream(&code));
    let t2 = read_huffman_tree(&mut r2);
    let t3 = read_huffman_tree(&mut MsbBitReader::new(abc_stream(&[])));
    let mut first = decompress_huffman(&mut r2, t2, 2);
    let second = decompress_huffman(&mut r2, t3, 3);
    first.extend(second);
    assert_eq!(first, whole);
}

#[test]
fn huffman_checked_reads_agree_with_strict_ones() {
    let code = [0, 1, 0, 1, 1, 0, 1, 0];
    let mut r = MsbBitReader::new(abc_stream(&code));
    let tree = try_read_huffman_tree(&mut r).unwrap();
    assert_eq!(try_decompress_huffman(&mut r, tree, 5), Some(b"abcab".to_vec()));
}
