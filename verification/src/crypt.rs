//! The light scrambling of item serial numbers: a keystream XOR followed by
//! a rotation, both driven by a 32-bit key.
use vstd::prelude::*;

verus! {

/// One step of the keystream generator.
pub open spec fn lcg_next(x: nat) -> nat {
    (x * 0x10a860c1) % 0xfffffffb
}

/// The generator's state after `i` steps from `seed`.
pub open spec fn keystream_state(seed: nat, i: nat) -> nat
    decreases i,
{
    if i == 0 {
        seed
    } else {
        lcg_next(keystream_state(seed, (i - 1) as nat))
    }
}

/// The generator's seed: the key, read as a signed number, shifted right by 5
/// (the sign bit is copied into the vacated bits).
pub open spec fn keystream_seed(key: u32) -> u32 {
    ((key as i32) >> 5u32) as u32
}

/// The byte that byte `i` of the data is XORed with: the low byte of the state
/// after `i + 1` steps.
pub open spec fn keystream_byte(key: u32, i: nat) -> u8 {
    (keystream_state(keystream_seed(key) as nat, i + 1) % 256) as u8
}

/// `data` with each byte XORed with its keystream byte.
pub open spec fn xor_keystream(data: Seq<u8>, key: u32) -> Seq<u8> {
    Seq::new(data.len(), |i: int| data[i] ^ keystream_byte(key, i as nat))
}

/// How far the data is rotated to the right: the key's low five bits, modulo
/// the length (taken as a `u32`).
pub open spec fn rotation(len: nat, key: u32) -> nat {
    ((key % 32) % (len as u32)) as nat
}

/// `s` rotated right by `r`: its last `r` items come first.
pub open spec fn rotate_right(s: Seq<u8>, r: nat) -> Seq<u8> {
    s.skip(s.len() - r) + s.take(s.len() - r)
}

/// What `bogo_decrypt` leaves in `data`: a key of 0 means "not encrypted".
pub open spec fn bogo_decrypted(data: Seq<u8>, key: u32) -> Seq<u8> {
    if key == 0 {
        data
    } else {
        rotate_right(xor_keystream(data, key), rotation(data.len(), key))
    }
}

/// `bogo_decrypt` needs a non-empty buffer (by its length taken as a `u32`)
/// unless the key is 0.
pub open spec fn bogo_decrypt_accepts(len: nat, key: u32) -> bool {
    key == 0 || (len as u32) != 0
}

/// Undoes the scrambling of `data` under `key`, in place.
pub fn bogo_decrypt(data: &mut [u8], key: u32)
    requires
        bogo_decrypt_accepts(old(data)@.len(), key),
    ensures
        final(data)@ == bogo_decrypted(old(data)@, key),
        final(data)@.len() == old(data)@.len(),
        key == 0 ==> final(data)@ == old(data)@,
{
    // no key == not encrypted
    if key == 0 {
        return;
    }
    let ghost orig = data@;
    let data_len: usize = data.len();

    let mut xor: u32 = ((key as i32) >> 5u32) as u32;
    let mut i: usize = 0;
    while i < data_len
        invariant
            data_len == data@.len(),
            orig.len() == data_len,
            key != 0,
            i <= data_len,
            xor as nat == keystream_state(keystream_seed(key) as nat, i as nat),
            forall|j: int| 0 <= j < i ==> data@[j] == orig[j] ^ keystream_byte(key, j as nat),
            forall|j: int| i <= j < data_len ==> data@[j] == orig[j],
        decreases data_len - i,
    {
        let x: u64 = xor as u64;
        assert(x * 0x10a860c1 < 0x1_0000_0000 * 0x10a860c1) by (nonlinear_arith)
            requires
                x < 0x1_0000_0000,
        ;
        xor = ((x * 0x10a860c1) % 0xfffffffb) as u32;
        let xb: u32 = xor;
        assert((xb & 0xff) as u8 == (xb % 256) as u8) by (bit_vector);
        data[i] = data[i] ^ ((xor & 0xff) as u8);
        i = i + 1;
    }
    let ghost xored = data@;
    assert(xored =~= xor_keystream(orig, key));

    let pivot: usize = data_len - ((key % 32) % (data_len as u32)) as usize;
    let mut swapped: Vec<u8> = Vec::with_capacity(data_len);
    let mut j: usize = pivot;
    while j < data_len
        invariant
            data_len == data@.len(),
            data@ == xored,
            pivot <= j <= data_len,
            swapped@ =~= xored.subrange(pivot as int, j as int),
        decreases data_len - j,
    {
        swapped.push(data[j]);
        j = j + 1;
    }
    let mut k: usize = 0;
    while k < pivot
        invariant
            data_len == data@.len(),
            data@ == xored,
            pivot <= data_len,
            k <= pivot,
            swapped@ =~= xored.skip(pivot as int) + xored.take(k as int),
        decreases pivot - k,
    {
        swapped.push(data[k]);
        k = k + 1;
    }
    assert(swapped@ =~= rotate_right(xored, rotation(orig.len(), key)));

    let mut m: usize = 0;
    while m < data_len
        invariant
            data_len == data@.len(),
            swapped@.len() == data_len,
            m <= data_len,
            forall|t: int| 0 <= t < m ==> data@[t] == swapped@[t],
        decreases data_len - m,
    {
        data[m] = swapped[m];
        m = m + 1;
    }
    assert(data@ =~= swapped@);
}

/// Every nonzero key descrambles: byte `i` of the data, XORed with the low
/// byte of the keystream state after `i + 1` steps from the signed key
/// shifted right by 5, ends up `(key % 32) % len` places further right
/// (wrapping around), where `len` is taken as a `u32`.
pub proof fn lemma_descramble_positions(data: Seq<u8>, key: u32)
    requires
        key != 0,
        (data.len() as u32) != 0,
    ensures
        bogo_decrypted(data, key).len() == data.len(),
        forall|i: int|
            0 <= i < data.len() ==> bogo_decrypted(data, key)[if i + ((key % 32) % (data.len() as u32))
                < data.len() {
                i + ((key % 32) % (data.len() as u32))
            } else {
                i + ((key % 32) % (data.len() as u32)) - data.len()
            }] == #[trigger] data[i] ^ ((keystream_state(
                (((key as i32) >> 5u32) as u32) as nat,
                (i + 1) as nat,
            ) % 256) as u8),
{
    let n = data.len();
    let r = rotation(n, key);
    assert(r < n) by {
        assert((n as u32) as nat <= n);
    }
    let x = xor_keystream(data, key);
    let out = rotate_right(x, r);
    assert(out.len() == n);
    assert forall|i: int| 0 <= i < n implies out[if i + r < n { i + r } else { i + r - n }] == #[trigger] data[i]
        ^ ((keystream_state((((key as i32) >> 5u32) as u32) as nat, (i + 1) as nat) % 256) as u8) by {
        assert(x[i] == data[i] ^ keystream_byte(key, i as nat));
        if i + r < n {
            assert(out[i + r] == x.take(n - r)[i]);
        } else {
            assert(out[i + r - n] == x.skip(n - r)[i + r - n]);
        }
    }
}

} // verus!
