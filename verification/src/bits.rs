//! Bit streams over byte buffers, read with `bitbit`'s `BitReader`.
//!
//! Each reader is modelled by the sequence of bits that it has not handed
//! out yet. `msb_bits` and `lsb_bits` say which bits a byte buffer yields in
//! each bit order; `msb_value` and `lsb_value` say which number a run of bits
//! stands for when `read_bits` assembles it.
use vstd::prelude::*;
use std::io::Cursor;
use bitbit::{BitReader, LSB, MSB};

verus! {

#[verifier::external_type_specification]
#[verifier::external_body]
pub struct ExIoError(std::io::Error);

/// Bit `i` of `bytes`, counting from the most significant bit of the first byte.
pub open spec fn msb_bit(bytes: Seq<u8>, i: int) -> bool {
    (bytes[i / 8] >> ((7 - i % 8) as u8)) & 1u8 == 1u8
}

/// Bit `i` of `bytes`, counting from the least significant bit of the first byte.
pub open spec fn lsb_bit(bytes: Seq<u8>, i: int) -> bool {
    (bytes[i / 8] >> ((i % 8) as u8)) & 1u8 == 1u8
}

/// The bits of `bytes`, each byte most significant bit first.
pub open spec fn msb_bits(bytes: Seq<u8>) -> Seq<bool> {
    Seq::new(8 * bytes.len(), |i: int| msb_bit(bytes, i))
}

/// The bits of `bytes`, each byte least significant bit first.
pub open spec fn lsb_bits(bytes: Seq<u8>) -> Seq<bool> {
    Seq::new(8 * bytes.len(), |i: int| lsb_bit(bytes, i))
}

pub open spec fn bit_value(b: bool) -> nat {
    if b { 1 } else { 0 }
}

/// The number that `bits` spell when the first bit is the most significant.
pub open spec fn msb_value(bits: Seq<bool>) -> nat
    decreases bits.len(),
{
    if bits.len() == 0 {
        0
    } else {
        2 * msb_value(bits.drop_last()) + bit_value(bits.last())
    }
}

/// The number that `bits` spell when the first bit is the least significant.
pub open spec fn lsb_value(bits: Seq<bool>) -> nat
    decreases bits.len(),
{
    if bits.len() == 0 {
        0
    } else {
        bit_value(bits.first()) + 2 * lsb_value(bits.drop_first())
    }
}

/// How many bits one `read_bits(n)` call of `bitbit` takes: it never reads more than 32.
pub open spec fn bits_per_read(n: nat) -> nat {
    if n > 32 { 32 } else { n }
}

/// `2^n`, written out for the bounds on `msb_value` and `lsb_value`.
pub open spec fn pow2(n: nat) -> nat
    decreases n,
{
    if n == 0 { 1 } else { 2 * pow2((n - 1) as nat) }
}

pub proof fn lemma_msb_value_bound(bits: Seq<bool>)
    ensures
        msb_value(bits) < pow2(bits.len()),
    decreases bits.len(),
{
    if bits.len() > 0 {
        lemma_msb_value_bound(bits.drop_last());
    }
}

pub proof fn lemma_lsb_value_bound(bits: Seq<bool>)
    ensures
        lsb_value(bits) < pow2(bits.len()),
    decreases bits.len(),
{
    if bits.len() > 0 {
        lemma_lsb_value_bound(bits.drop_first());
    }
}

pub proof fn lemma_pow2_32()
    ensures
        pow2(8) == 0x100,
        pow2(32) == 0x1_0000_0000,
{
    reveal_with_fuel(pow2, 33);
}

/// A reader over a byte buffer that hands out its bits, each byte most
/// significant bit first (`bitbit`'s `BitReader` in `MSB` order over a `Cursor`).
#[verifier::external_body]
pub struct MsbBitReader {
    reader: BitReader<Cursor<Vec<u8>>, MSB>,
}

/// A reader over a byte buffer that hands out its bits, each byte least
/// significant bit first (`bitbit`'s `BitReader` in `LSB` order over a `Cursor`).
#[verifier::external_body]
pub struct LsbBitReader {
    reader: BitReader<Cursor<Vec<u8>>, LSB>,
}

/// The bits that an `MsbBitReader` has not handed out yet.
pub uninterp spec fn msb_unread(r: MsbBitReader) -> Seq<bool>;

/// The bits that an `LsbBitReader` has not handed out yet.
pub uninterp spec fn lsb_unread(r: LsbBitReader) -> Seq<bool>;

impl MsbBitReader {
    /// `BitReader::new` over `Cursor::new(bytes)`: the reader starts with all
    /// of the buffer's bits unread, each byte most significant bit first
    /// (`Cursor` hands out the buffer byte by byte, and `MSB::extract_bit`
    /// takes the top bit first).
    #[verifier::external_body]
    fn open(bytes: Vec<u8>) -> (r: Self)
        ensures
            msb_unread(r) == msb_bits(bytes@),
    {
        MsbBitReader { reader: BitReader::new(Cursor::new(bytes)) }
    }

    /// `BitReader::read_bit`: hands out the next unread bit, or fails at the
    /// end of the buffer and leaves the reader as it was.
    #[verifier::external_body]
    pub(crate) fn read_bit(&mut self) -> (res: Result<bool, std::io::Error>)
        ensures
            res is Ok <==> msb_unread(*old(self)).len() > 0,
            res matches Ok(b) ==> b == msb_unread(*old(self)).first() && msb_unread(*final(self))
                == msb_unread(*old(self)).drop_first(),
            res is Err ==> msb_unread(*final(self)) == msb_unread(*old(self)),
    {
        self.reader.read_bit()
    }

    /// `BitReader::read_byte`: eight bits, the first one most significant.
    /// It fails when fewer than eight bits are left.
    #[verifier::external_body]
    pub(crate) fn read_byte(&mut self) -> (res: Result<u8, std::io::Error>)
        ensures
            res is Ok <==> msb_unread(*old(self)).len() >= 8,
            res matches Ok(b) ==> b as nat == msb_value(msb_unread(*old(self)).take(8))
                && msb_unread(*final(self)) == msb_unread(*old(self)).skip(8),
    {
        self.reader.read_byte()
    }
}

impl LsbBitReader {
    /// `BitReader::new` over `Cursor::new(bytes)`: the reader starts with all
    /// of the buffer's bits unread, each byte least significant bit first
    /// (`LSB::extract_bit` takes the bottom bit first).
    #[verifier::external_body]
    fn open(bytes: Vec<u8>) -> (r: Self)
        ensures
            lsb_unread(r) == lsb_bits(bytes@),
    {
        LsbBitReader { reader: BitReader::new(Cursor::new(bytes)) }
    }

    /// `BitReader::read_bit`: hands out the next unread bit, or fails at the
    /// end of the buffer and leaves the reader as it was.
    #[verifier::external_body]
    pub(crate) fn read_bit(&mut self) -> (res: Result<bool, std::io::Error>)
        ensures
            res is Ok <==> lsb_unread(*old(self)).len() > 0,
            res matches Ok(b) ==> b == lsb_unread(*old(self)).first() && lsb_unread(*final(self))
                == lsb_unread(*old(self)).drop_first(),
            res is Err ==> lsb_unread(*final(self)) == lsb_unread(*old(self)),
    {
        self.reader.read_bit()
    }

    /// `BitReader::read_bits(n)` in `LSB` order: it takes `min(n, 32)` bits,
    /// the first one least significant, and fails when fewer are left.
    /// With `n == 0` its final shift by 32 overflows, so `n` is at least 1.
    #[verifier::external_body]
    pub(crate) fn read_bits(&mut self, n: usize) -> (res: Result<u32, std::io::Error>)
        requires
            n >= 1,
        ensures
            res is Ok <==> lsb_unread(*old(self)).len() >= bits_per_read(n as nat),
            res matches Ok(v) ==> v as nat == lsb_value(
                lsb_unread(*old(self)).take(bits_per_read(n as nat) as int),
            ) && lsb_unread(*final(self)) == lsb_unread(*old(self)).skip(
                bits_per_read(n as nat) as int,
            ),
    {
        self.reader.read_bits(n)
    }
}

impl MsbBitReader {
    /// A reader over `bytes`, most significant bit first.
    pub fn new(bytes: Vec<u8>) -> (r: Self)
        ensures
            msb_unread(r) == msb_bits(bytes@),
    {
        Self::open(bytes)
    }
}

impl LsbBitReader {
    /// A reader over `bytes`, least significant bit first.
    pub fn new(bytes: Vec<u8>) -> (r: Self)
        ensures
            lsb_unread(r) == lsb_bits(bytes@),
    {
        Self::open(bytes)
    }
}

} // verus!
