use crate::stream_cipher::{
    chacha20_apply, chacha20_keystream, salsa20_apply, salsa20_keystream, CHACHA20_BYTES,
};
use vstd::prelude::*;

verus! {

/// One layer of a stack. Every layer keeps the length of the data; cipher
/// layers xor it with a keystream indexed by stream position, the others
/// pass it through unchanged.
#[derive(Debug, Clone, Copy)]
pub enum Transform {
    /// Buffers reads and writes; the bytes pass unchanged.
    Buffered,
    /// Encrypts on write and decrypts on read with ChaCha20.
    ChaCha20 { key: [u8; 32], nonce: [u8; 12] },
    /// Encrypts on write and decrypts on read with Salsa20.
    Salsa20 { key: [u8; 32], nonce: [u8; 8] },
    /// Computes the CRC-32 of the bytes passing through; they pass unchanged.
    Crc,
}

impl Transform {
    /// The byte this layer xors into the data at stream position `pos`.
    pub open spec fn keystream(self, pos: int) -> u8 {
        match self {
            Transform::ChaCha20 { key, nonce } => chacha20_keystream(key@, nonce@, pos),
            Transform::Salsa20 { key, nonce } => salsa20_keystream(key@, nonce@, pos),
            _ => 0,
        }
    }

    pub open spec fn is_cipher(self) -> bool {
        self is ChaCha20 || self is Salsa20
    }
}

/// The combined byte that layers `lo..hi` xor into the data at position `pos`.
pub open spec fn mask(layers: Seq<Transform>, lo: int, hi: int, pos: int) -> u8
    decreases hi - lo,
{
    if hi <= lo {
        0
    } else {
        mask(layers, lo, hi - 1, pos) ^ layers[hi - 1].keystream(pos)
    }
}

/// `data`, found at stream position `pos`, after passing layers `lo..hi`.
pub open spec fn through(layers: Seq<Transform>, lo: int, hi: int, pos: int, data: Seq<u8>) -> Seq<
    u8,
> {
    Seq::new(data.len(), |i: int| data[i] ^ mask(layers, lo, hi, pos + i))
}

/// What a writer of a stack hands to the store for plaintext `data` at `pos`.
pub open spec fn encode(layers: Seq<Transform>, pos: int, data: Seq<u8>) -> Seq<u8> {
    through(layers, 0, layers.len() as int, pos, data)
}

/// What a reader of a stack hands out for stored bytes `data` at `pos`.
pub open spec fn decode(layers: Seq<Transform>, pos: int, data: Seq<u8>) -> Seq<u8> {
    through(layers, 0, layers.len() as int, pos, data)
}

/// Some ChaCha20 layer of `layers` would need keystream past its end to
/// reach stream position `end`.
pub open spec fn cipher_exhausted(layers: Seq<Transform>, end: int) -> bool {
    exists|k: int| 0 <= k < layers.len() && #[trigger] layers[k] is ChaCha20 && end > CHACHA20_BYTES
}

/// Reaching a later position runs out no sooner.
pub proof fn lemma_exhausted_later(layers: Seq<Transform>, end: int, later: int)
    requires
        cipher_exhausted(layers, end),
        end <= later,
    ensures
        cipher_exhausted(layers, later),
{
    let k = choose|k: int| 0 <= k < layers.len() && #[trigger] layers[k] is ChaCha20 && end > CHACHA20_BYTES;
    assert(layers[k] is ChaCha20);
}

pub proof fn lemma_xor_twice(a: u8, m: u8)
    ensures
        (a ^ m) ^ m == a,
{
    assert((a ^ m) ^ m == a) by (bit_vector);
}

pub proof fn lemma_xor_assoc(a: u8, b: u8, c: u8)
    ensures
        (a ^ b) ^ c == a ^ (b ^ c),
        a ^ b == b ^ a,
        a ^ 0 == a,
{
    assert((a ^ b) ^ c == a ^ (b ^ c)) by (bit_vector);
    assert(a ^ b == b ^ a) by (bit_vector);
    assert(a ^ 0 == a) by (bit_vector);
}

/// Peeling the innermost layer off a range of layers.
pub proof fn lemma_mask_low(layers: Seq<Transform>, lo: int, hi: int, pos: int)
    requires
        lo < hi,
    ensures
        mask(layers, lo, hi, pos) == layers[lo].keystream(pos) ^ mask(layers, lo + 1, hi, pos),
    decreases hi - lo,
{
    if hi == lo + 1 {
        assert(mask(layers, lo, lo, pos) == 0);
        assert(mask(layers, lo + 1, hi, pos) == 0);
        lemma_xor_assoc(0, layers[lo].keystream(pos), 0);
        lemma_xor_assoc(layers[lo].keystream(pos), 0, 0);
    } else {
        lemma_mask_low(layers, lo, hi - 1, pos);
        lemma_xor_assoc(
            layers[lo].keystream(pos),
            mask(layers, lo + 1, hi - 1, pos),
            layers[hi - 1].keystream(pos),
        );
    }
}

/// The layers `lo..hi` act as `lo..mid` followed by `mid..hi`.
pub proof fn lemma_mask_split(layers: Seq<Transform>, lo: int, mid: int, hi: int, pos: int)
    requires
        lo <= mid <= hi,
    ensures
        mask(layers, lo, hi, pos) == mask(layers, lo, mid, pos) ^ mask(layers, mid, hi, pos),
    decreases hi - mid,
{
    if hi == mid {
        assert(mask(layers, mid, hi, pos) == 0);
        lemma_xor_assoc(mask(layers, lo, mid, pos), 0, 0);
    } else {
        lemma_mask_split(layers, lo, mid, hi - 1, pos);
        lemma_xor_assoc(
            mask(layers, lo, mid, pos),
            mask(layers, mid, hi - 1, pos),
            layers[hi - 1].keystream(pos),
        );
    }
}

/// Whether some ChaCha20 layer of `layers` would run out of keystream
/// before stream position `end`.
pub fn exhausts(layers: &Vec<Transform>, end: usize) -> (r: bool)
    ensures
        r == cipher_exhausted(layers@, end as int),
{
    if (end as u64) <= CHACHA20_BYTES {
        return false;
    }
    let mut k: usize = 0;
    while k < layers.len()
        invariant
            k <= layers@.len(),
            end > CHACHA20_BYTES,
            forall|j: int| 0 <= j < k ==> !(#[trigger] layers@[j] is ChaCha20),
        decreases layers@.len() - k,
    {
        if let Transform::ChaCha20 { .. } = layers[k] {
            assert(layers@[k as int] is ChaCha20);
            return true;
        }
        k = k + 1;
    }
    false
}

/// Applies layer `t` to the first `len` bytes of `data`, found at stream
/// position `pos`. Fails only where a cipher refuses to go on.
pub fn apply_layer(t: &Transform, pos: usize, data: &mut [u8], len: usize) -> (ok: bool)
    requires
        len <= old(data)@.len(),
    ensures
        final(data)@.len() == old(data)@.len(),
        ok ==> forall|i: int|
            0 <= i < len ==> #[trigger] final(data)@[i] == old(data)@[i] ^ t.keystream(pos + i),
        ok ==> forall|i: int| len <= i < old(data)@.len() ==> #[trigger] final(data)@[i] == old(data)@[i],
        !ok ==> final(data)@ == old(data)@,
        !ok ==> t is ChaCha20 && pos + len > CHACHA20_BYTES,
{
    match t {
        Transform::ChaCha20 { key, nonce } => chacha20_apply(key, nonce, pos, data, len),
        Transform::Salsa20 { key, nonce } => salsa20_apply(key, nonce, pos, data, len),
        _ => {
            assert forall|i: int| 0 <= i < len implies #[trigger] data@[i] == data@[i] ^ t.keystream(
                pos + i,
            ) by {
                lemma_xor_assoc(data@[i], 0, 0);
            }
            true
        },
    }
}

/// Reading back through a stack undoes writing through it: decoding what
/// was encoded at the same stream position gives the data back, whatever the
/// layers.
pub proof fn lemma_round_trip(layers: Seq<Transform>, pos: int, data: Seq<u8>)
    ensures
        decode(layers, pos, encode(layers, pos, data)) == data,
{
    assert forall|i: int| 0 <= i < data.len() implies #[trigger] decode(
        layers,
        pos,
        encode(layers, pos, data),
    )[i] == data[i] by {
        lemma_xor_twice(data[i], mask(layers, 0, layers.len() as int, pos + i));
    }
    assert(decode(layers, pos, encode(layers, pos, data)) =~= data);
}

/// How the data is cut into calls does not matter: encoding or decoding two
/// pieces one after the other gives what one call on both gives.
pub proof fn lemma_chunks(layers: Seq<Transform>, pos: int, a: Seq<u8>, b: Seq<u8>)
    ensures
        encode(layers, pos, a + b) == encode(layers, pos, a) + encode(layers, pos + a.len(), b),
        decode(layers, pos, a + b) == decode(layers, pos, a) + decode(layers, pos + a.len(), b),
{
    let n = layers.len() as int;
    assert forall|i: int| 0 <= i < a.len() + b.len() implies #[trigger] through(layers, 0, n, pos, a + b)[i]
        == (through(layers, 0, n, pos, a) + through(layers, 0, n, pos + a.len(), b))[i] by {
        if i >= a.len() {
            assert(pos + a.len() + (i - a.len()) == pos + i);
        }
    }
    assert(through(layers, 0, n, pos, a + b) =~= through(layers, 0, n, pos, a) + through(
        layers,
        0,
        n,
        pos + a.len(),
        b,
    ));
}

} // verus!
