//! The suite's cryptographic primitives: HKDF-SHA256, ChaCha20-Poly1305,
//! constant-time comparison and secret wiping, each reached through one
//! small trusted wrapper.

use chacha20poly1305::aead::{Aead, Payload};
use chacha20poly1305::{ChaCha20Poly1305, Key, KeyInit, Nonce};
use hkdf::Hkdf;
use sha2::Sha256;
use subtle::ConstantTimeEq;
use zeroize::Zeroize;

use vstd::prelude::*;

verus! {

/// Byte length of one SHA-256 output block.
pub const SHA256_LEN: usize = 32;

/// HKDF-SHA256 extract-then-expand output of `len` bytes.
pub uninterp spec fn hkdf_sha256(salt: Seq<u8>, ikm: Seq<u8>, info: Seq<u8>, len: nat) -> Seq<u8>;

/// ChaCha20-Poly1305 ciphertext (with its trailing tag) of `msg`.
pub uninterp spec fn chacha20poly1305_seal(
    key: Seq<u8>,
    nonce: Seq<u8>,
    aad: Seq<u8>,
    msg: Seq<u8>,
) -> Seq<u8>;

/// ChaCha20-Poly1305 plaintext of `ct`, or `None` when `ct` does not
/// authenticate.
pub uninterp spec fn chacha20poly1305_open(
    key: Seq<u8>,
    nonce: Seq<u8>,
    aad: Seq<u8>,
    ct: Seq<u8>,
) -> Option<Seq<u8>>;

/// Messages short enough for the ChaCha20 block counter.
pub open spec fn aead_msg_fits(len: nat) -> bool {
    len / 64 < 0xFFFF_FFFFnat
}

/// `hkdf::Hkdf::<Sha256>::new` followed by `expand`: HKDF-SHA256 over
/// `salt`, `ikm` and `info`, producing `len` bytes. The expand step fails
/// only when `len` exceeds 255 hash blocks, which `requires` rules out; its
/// output is exactly `len` bytes long.
#[verifier::external_body]
pub(crate) fn hkdf_sha256_expand(salt: &[u8], ikm: &[u8], info: &[u8], len: usize) -> (okm: Vec<u8>)
    requires
        len <= 255 * SHA256_LEN,
    ensures
        okm@ == hkdf_sha256(salt@, ikm@, info@, len as nat),
        okm@.len() == len,
{
    let hk = Hkdf::<Sha256>::new(Some(salt), ikm);
    let mut okm = vec![0u8; len];
    hk.expand(info, &mut okm).expect("requested length is within the HKDF-SHA256 bound");
    okm
}

/// `ChaCha20Poly1305::new` followed by `Aead::encrypt` of `msg` under
/// `aad`. The source fails only when the ChaCha20 block counter would
/// overflow; on success the ciphertext is the message length plus the
/// 16-byte tag. The key copy the construction consumes is wiped.
#[verifier::external_body]
pub(crate) fn aead_encrypt(key: &[u8; 32], nonce: &[u8; 12], msg: &[u8], aad: &[u8]) -> (r: Option<Vec<u8>>)
    requires
        msg@.len() + 16 <= isize::MAX,
    ensures
        r is Some <==> aead_msg_fits(msg@.len()),
        r matches Some(ct) ==> ct@ == chacha20poly1305_seal(key@, nonce@, aad@, msg@) && ct@.len()
            == msg@.len() + 16,
{
    let mut key_block = Key::from(*key);
    let cipher = ChaCha20Poly1305::new(&key_block);
    key_block.as_mut_slice().zeroize();
    cipher.encrypt(&Nonce::from(*nonce), Payload { msg, aad }).ok()
}

/// `ChaCha20Poly1305::new` followed by `Aead::decrypt` of `ct` under `aad`.
/// The result is the plaintext that `ct` authenticates to, if any; a
/// ciphertext shorter than the tag never authenticates, and decryption
/// undoes encryption under the same key, nonce and AAD. The key copy the
/// construction consumes is wiped.
#[verifier::external_body]
pub(crate) fn aead_decrypt(key: &[u8; 32], nonce: &[u8; 12], ct: &[u8], aad: &[u8]) -> (r: Option<Vec<u8>>)
    ensures
        r is Some <==> chacha20poly1305_open(key@, nonce@, aad@, ct@) is Some,
        r matches Some(pt) ==> chacha20poly1305_open(key@, nonce@, aad@, ct@) == Some(pt@),
        ct@.len() < 16 ==> r is None,
        forall|m: Seq<u8>|
            aead_msg_fits(m.len()) && #[trigger] chacha20poly1305_seal(key@, nonce@, aad@, m) == ct@
                ==> r is Some && r.unwrap()@ == m,
{
    let mut key_block = Key::from(*key);
    let cipher = ChaCha20Poly1305::new(&key_block);
    key_block.as_mut_slice().zeroize();
    cipher.decrypt(&Nonce::from(*nonce), Payload { msg: ct, aad }).ok()
}

/// `subtle::ConstantTimeEq::ct_eq` on byte slices: true exactly when both
/// slices hold the same bytes (different lengths compare unequal).
#[verifier::external_body]
pub(crate) fn ct_eq_bytes(a: &[u8], b: &[u8]) -> (r: bool)
    ensures
        r == (a@ == b@),
{
    a.ct_eq(b).into()
}

/// `subtle::ConstantTimeEq::ct_eq` on bytes: true exactly when `a == b`.
#[verifier::external_body]
pub(crate) fn ct_eq_u8(a: u8, b: u8) -> (r: bool)
    ensures
        r == (a == b),
{
    a.ct_eq(&b).into()
}

/// `zeroize::Zeroize::zeroize` on a `Vec<u8>`: overwrites the bytes and the
/// spare capacity, then clears the vector.
#[verifier::external_body]
pub(crate) fn wipe_vec(v: &mut Vec<u8>)
    ensures
        final(v)@ == Seq::<u8>::empty(),
{
    v.zeroize();
}

/// `zeroize::Zeroize::zeroize` on a byte array: every byte becomes zero.
#[verifier::external_body]
pub(crate) fn wipe_array<const N: usize>(a: &mut [u8; N])
    ensures
        final(a)@ == Seq::new(N as nat, |i: int| 0u8),
{
    a.zeroize();
}

} // verus!
