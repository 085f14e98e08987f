use chacha20::ChaCha20;
use cipher::{KeyIvInit, StreamCipher, StreamCipherSeek};
use salsa20::Salsa20;
use vstd::prelude::*;

verus! {

/// How many keystream bytes ChaCha20 has for one key and nonce.
pub const CHACHA20_BYTES: u64 = 64 * 0xffff_ffff;

/// The ChaCha20 keystream byte at byte position `pos` for `key` and `nonce`.
pub uninterp spec fn chacha20_keystream(key: Seq<u8>, nonce: Seq<u8>, pos: int) -> u8;

/// The Salsa20 keystream byte at byte position `pos` for `key` and `nonce`.
pub uninterp spec fn salsa20_keystream(key: Seq<u8>, nonce: Seq<u8>, pos: int) -> u8;

/// Relies on chacha20's `ChaCha20` through cipher's `KeyIvInit::new`,
/// `StreamCipherSeek::try_seek` and `StreamCipher::try_apply_keystream`: the
/// first `len` bytes of `data` are xored with the keystream from byte `pos`
/// on. The 32-bit block counter runs out only past `64 * (2^32 - 1)` bytes;
/// when it does, `data` is left alone.
#[verifier::external_body]
pub(crate) fn chacha20_apply(
    key: &[u8; 32],
    nonce: &[u8; 12],
    pos: usize,
    data: &mut [u8],
    len: usize,
) -> (ok: bool)
    requires
        len <= old(data)@.len(),
    ensures
        final(data)@.len() == old(data)@.len(),
        ok ==> forall|i: int|
            0 <= i < len ==> #[trigger] final(data)@[i] == old(data)@[i] ^ chacha20_keystream(
                key@,
                nonce@,
                pos + i,
            ),
        ok ==> forall|i: int| len <= i < old(data)@.len() ==> #[trigger] final(data)@[i] == old(data)@[i],
        !ok ==> final(data)@ == old(data)@,
        pos + len <= CHACHA20_BYTES ==> ok,
{
    let mut cipher = ChaCha20::new(&(*key).into(), &(*nonce).into());
    if cipher.try_seek(pos).is_err() {
        return false;
    }
    cipher.try_apply_keystream(&mut data[..len]).is_ok()
}

/// Relies on salsa20's `Salsa20` through cipher's `KeyIvInit::new`,
/// `StreamCipherSeek::try_seek` and `StreamCipher::try_apply_keystream`: the
/// first `len` bytes of `data` are xored with the keystream from byte `pos`
/// on. The 64-bit block counter cannot run out for a `usize` position.
#[verifier::external_body]
pub(crate) fn salsa20_apply(
    key: &[u8; 32],
    nonce: &[u8; 8],
    pos: usize,
    data: &mut [u8],
    len: usize,
) -> (ok: bool)
    requires
        len <= old(data)@.len(),
    ensures
        final(data)@.len() == old(data)@.len(),
        ok ==> forall|i: int|
            0 <= i < len ==> #[trigger] final(data)@[i] == old(data)@[i] ^ salsa20_keystream(
                key@,
                nonce@,
                pos + i,
            ),
        ok ==> forall|i: int| len <= i < old(data)@.len() ==> #[trigger] final(data)@[i] == old(data)@[i],
        ok,
{
    let mut cipher = Salsa20::new(&(*key).into(), &(*nonce).into());
    if cipher.try_seek(pos).is_err() {
        return false;
    }
    cipher.try_apply_keystream(&mut data[..len]).is_ok()
}

} // verus!
