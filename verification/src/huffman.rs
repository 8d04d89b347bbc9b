//! The Huffman layer of a save file: a code tree written as a bit stream,
//! followed by the bits of the encoded bytes.
use vstd::prelude::*;
use vstd::pervasive::unreached;
use crate::bits::{MsbBitReader, msb_unread, msb_value, lemma_msb_value_bound, lemma_pow2_32};

verus! {

/// A node of the code tree: an inner node with its two children, or a leaf
/// with the byte that it encodes.
#[derive(Debug)]
pub enum HuffmanNode {
    Internal(Box<HuffmanNode>, Box<HuffmanNode>),
    Leaf(u8),
}

/// The tree that `bits` start with, and the bits after it.
///
/// A `1` bit is a leaf, followed by its byte (most significant bit first);
/// a `0` bit is an inner node, followed by its left and then its right subtree.
/// `None` when the bits end before the tree does.
pub open spec fn parse_tree(bits: Seq<bool>) -> Option<(HuffmanNode, Seq<bool>)>
    decreases bits.len(),
{
    if bits.len() == 0 {
        None
    } else if bits.first() {
        if bits.len() >= 9 {
            Some((HuffmanNode::Leaf(msb_value(bits.drop_first().take(8)) as u8), bits.skip(9)))
        } else {
            None
        }
    } else {
        match parse_tree(bits.drop_first()) {
            None => None,
            Some((left, rest)) => {
                if rest.len() < bits.len() {
                    match parse_tree(rest) {
                        None => None,
                        Some((right, rest2)) => Some(
                            (HuffmanNode::Internal(Box::new(left), Box::new(right)), rest2),
                        ),
                    }
                } else {
                    None
                }
            },
        }
    }
}

/// The byte that `bits` encode under `tree`, and the bits after its code:
/// from the root, a `0` goes left and a `1` goes right until a leaf.
/// `None` when the bits end before a leaf is reached.
pub open spec fn decode_one(tree: HuffmanNode, bits: Seq<bool>) -> Option<(u8, Seq<bool>)>
    decreases tree,
{
    match tree {
        HuffmanNode::Leaf(c) => Some((c, bits)),
        HuffmanNode::Internal(left, right) => {
            if bits.len() == 0 {
                None
            } else if bits.first() {
                decode_one(*right, bits.drop_first())
            } else {
                decode_one(*left, bits.drop_first())
            }
        },
    }
}

/// The first `n` bytes that `bits` encode under `tree`, and the bits after them.
pub open spec fn decode_n(tree: HuffmanNode, bits: Seq<bool>, n: nat) -> Option<(Seq<u8>, Seq<bool>)>
    decreases n,
{
    if n == 0 {
        Some((Seq::empty(), bits))
    } else {
        match decode_n(tree, bits, (n - 1) as nat) {
            None => None,
            Some((out, rest)) => match decode_one(tree, rest) {
                None => None,
                Some((c, rest2)) => Some((out.push(c), rest2)),
            },
        }
    }
}

/// What follows a tree is shorter than what it was read from.
pub proof fn lemma_parse_tree_consumes(bits: Seq<bool>)
    ensures
        parse_tree(bits) matches Some((t, rest)) ==> rest.len() < bits.len(),
    decreases bits.len(),
{
    if bits.len() > 0 && !bits.first() {
        lemma_parse_tree_consumes(bits.drop_first());
        if let Some((left, rest)) = parse_tree(bits.drop_first()) {
            lemma_parse_tree_consumes(rest);
        }
    }
}

/// Decoding `n` bytes gives `n` bytes.
pub proof fn lemma_decode_n_len(tree: HuffmanNode, bits: Seq<bool>, n: nat)
    ensures
        decode_n(tree, bits, n) matches Some((out, rest)) ==> out.len() == n,
    decreases n,
{
    if n > 0 {
        lemma_decode_n_len(tree, bits, (n - 1) as nat);
    }
}

/// Once the bits run out before `k` bytes, they run out before any later count.
pub proof fn lemma_decode_n_fails_later(tree: HuffmanNode, bits: Seq<bool>, k: nat, m: nat)
    requires
        k <= m,
        decode_n(tree, bits, k) is None,
    ensures
        decode_n(tree, bits, m) is None,
    decreases m,
{
    if m > k {
        lemma_decode_n_fails_later(tree, bits, k, (m - 1) as nat);
    }
}

/// Decoding `n + m` bytes is decoding `n` bytes and then `m` more from the bits
/// that are left: two calls of `decompress_huffman` on one reader read what one
/// call for the sum reads.
pub proof fn lemma_decode_split(tree: HuffmanNode, bits: Seq<bool>, n: nat, m: nat)
    ensures
        decode_n(tree, bits, n + m) == (match decode_n(tree, bits, n) {
            None => None,
            Some((first, rest)) => match decode_n(tree, rest, m) {
                None => None,
                Some((second, rest2)) => Some((first + second, rest2)),
            },
        }),
    decreases m,
{
    if m == 0 {
        if let Some((first, rest)) = decode_n(tree, bits, n) {
            assert(first + Seq::<u8>::empty() =~= first);
        }
    } else {
        lemma_decode_split(tree, bits, n, (m - 1) as nat);
        assert((n + m - 1) as nat == n + (m - 1) as nat);
        if let Some((first, rest)) = decode_n(tree, bits, n) {
            if let Some((second, rest2)) = decode_n(tree, rest, (m - 1) as nat) {
                if let Some((c, rest3)) = decode_one(tree, rest2) {
                    assert((first + second).push(c) =~= first + second.push(c));
                }
            }
        }
    }
}

/// A tree read from bits starts with its kind: a leaf is a `1` followed by its
/// byte, most significant bit first, and decodes to that byte without using
/// any bits; an inner node is a `0` followed by its two subtrees, and a code
/// bit `0` picks the subtree written first, `1` the one written second.
pub proof fn lemma_tree_codes(bits: Seq<bool>, code: Seq<bool>)
    requires
        parse_tree(bits) is Some,
    ensures
        ({
            let (t, rest) = parse_tree(bits)->Some_0;
            match t {
                HuffmanNode::Leaf(c) => {
                    &&& bits[0]
                    &&& bits.len() >= 9
                    &&& c as nat == msb_value(bits.subrange(1, 9))
                    &&& rest == bits.skip(9)
                    &&& decode_one(t, code) == Some((c, code))
                },
                HuffmanNode::Internal(_, _) => {
                    let (first, mid) = parse_tree(bits.drop_first())->Some_0;
                    let (second, rest2) = parse_tree(mid)->Some_0;
                    &&& !bits[0]
                    &&& rest2 == rest
                    &&& decode_one(t, seq![false] + code) == decode_one(first, code)
                    &&& decode_one(t, seq![true] + code) == decode_one(second, code)
                },
            }
        }),
{
    let (t, rest) = parse_tree(bits)->Some_0;
    assert((seq![false] + code).drop_first() =~= code);
    assert((seq![true] + code).drop_first() =~= code);
    if bits[0] {
        assert(bits.drop_first().take(8) =~= bits.subrange(1, 9));
        lemma_msb_value_bound(bits.subrange(1, 9));
        lemma_pow2_32();
    }
}

/// Reads a code tree from `brdr`; the bits must hold a whole tree.
pub fn read_huffman_tree(brdr: &mut MsbBitReader) -> (tree: HuffmanNode)
    requires
        parse_tree(msb_unread(*old(brdr))) is Some,
    ensures
        parse_tree(msb_unread(*old(brdr))) == Some((tree, msb_unread(*final(brdr)))),
{
    match try_read_huffman_tree(brdr) {
        Some(t) => t,
        None => unreached(),
    }
}

/// Reads a code tree from `brdr`, or `None` when the bits end before the
/// tree does (what was read is then gone).
pub fn try_read_huffman_tree(brdr: &mut MsbBitReader) -> (res: Option<HuffmanNode>)
    ensures
        match parse_tree(msb_unread(*old(brdr))) {
            Some((t, rest)) => res == Some(t) && msb_unread(*final(brdr)) == rest,
            None => res is None,
        },
    decreases msb_unread(*old(brdr)).len(),
{
    let ghost bits = msb_unread(*brdr);
    let is_leaf = match brdr.read_bit() {
        Ok(b) => b,
        Err(_) => return None,
    };
    if is_leaf {
        match brdr.read_byte() {
            Ok(c) => {
                proof {
                    let byte_bits = bits.drop_first().take(8);
                    lemma_msb_value_bound(byte_bits);
                    lemma_pow2_32();
                    assert(bits.drop_first().skip(8) =~= bits.skip(9));
                }
                Some(HuffmanNode::Leaf(c))
            },
            Err(_) => None,
        }
    } else {
        proof {
            lemma_parse_tree_consumes(bits.drop_first());
        }
        let left = match try_read_huffman_tree(brdr) {
            Some(t) => t,
            None => return None,
        };
        let right = match try_read_huffman_tree(brdr) {
            Some(t) => t,
            None => return None,
        };
        Some(HuffmanNode::Internal(Box::new(left), Box::new(right)))
    }
}

/// Reads the code of one byte from `brdr` and returns the byte.
fn decode_symbol(brdr: &mut MsbBitReader, tree: &HuffmanNode) -> (res: Option<u8>)
    ensures
        match decode_one(*tree, msb_unread(*old(brdr))) {
            Some((c, rest)) => res == Some(c) && msb_unread(*final(brdr)) == rest,
            None => res is None,
        },
    decreases tree,
{
    match tree {
        HuffmanNode::Leaf(c) => Some(*c),
        HuffmanNode::Internal(left, right) => {
            let b = match brdr.read_bit() {
                Ok(b) => b,
                Err(_) => return None,
            };
            if b {
                decode_symbol(brdr, &**right)
            } else {
                decode_symbol(brdr, &**left)
            }
        },
    }
}

/// Decodes `outsize` bytes from `brdr` with the code `tree`; the bits must
/// hold them all.
pub fn decompress_huffman(brdr: &mut MsbBitReader, tree: HuffmanNode, outsize: usize) -> (out: Vec<u8>)
    requires
        decode_n(tree, msb_unread(*old(brdr)), outsize as nat) is Some,
    ensures
        decode_n(tree, msb_unread(*old(brdr)), outsize as nat) == Some((out@, msb_unread(*final(brdr)))),
        out.len() == outsize,
{
    match try_decompress_huffman(brdr, tree, outsize) {
        Some(v) => v,
        None => unreached(),
    }
}

/// Decodes `outsize` bytes from `brdr` with the code `tree`, or `None` when
/// the bits end before `outsize` bytes are decoded.
pub fn try_decompress_huffman(brdr: &mut MsbBitReader, tree: HuffmanNode, outsize: usize) -> (res: Option<Vec<u8>>)
    ensures
        match decode_n(tree, msb_unread(*old(brdr)), outsize as nat) {
            Some((out, rest)) => res matches Some(v) && v@ == out && msb_unread(*final(brdr)) == rest,
            None => res is None,
        },
        res matches Some(v) ==> v.len() == outsize,
{
    let ghost bits = msb_unread(*brdr);
    let mut out: Vec<u8> = Vec::with_capacity(outsize);
    while out.len() < outsize
        invariant
            out.len() <= outsize,
            bits == msb_unread(*old(brdr)),
            decode_n(tree, bits, out.len() as nat) == Some((out@, msb_unread(*brdr))),
        decreases outsize - out.len(),
    {
        let ghost k = out.len() as nat;
        match decode_symbol(brdr, &tree) {
            Some(c) => {
                out.push(c);
                assert(decode_n(tree, bits, (k + 1) as nat) == Some((out@, msb_unread(*brdr))));
            },
            None => {
                proof {
                    assert(decode_n(tree, bits, k + 1) is None);
                    lemma_decode_n_fails_later(tree, bits, k + 1, outsize as nat);
                }
                return None;
            },
        }
    }
    Some(out)
}

} // verus!
