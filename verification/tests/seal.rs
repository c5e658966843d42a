use chacha20poly1305::aead::{Aead, Payload};
use chacha20poly1305::{ChaCha20Poly1305, Key, KeyInit, Nonce};
use hkdf::Hkdf;
use sha2::Sha256;
use rand_chacha::ChaCha20Rng;
use rand_core::{Rng, SeedableRng};
use sealring::envelope::VERSION;
use sealring::kem::{EntropySource, Kem};
use sealring::seal::{kdf_info_for_test, open_with_secret, seal_with_secret};
use sealring::{open, seal, Domain, OpenError, Recipient, SealError, SealedNote};

/// Test KEM: the public key is the secret key, the shared secret is the
/// ephemeral key xor the recipient key.
#[derive(Debug, Clone)]
struct MockKem;

fn xor(a: &[u8], b: &[u8; 32]) -> [u8; 32] {
    let mut out = [0u8; 32];
    for i in 0..32 {
        out[i] = a[i] ^ b[i];
    }
    out
}

impl Kem for MockKem {
    type PublicKey = [u8; 32];
    type SecretKey = [u8; 32];
    type Epk = [u8; 32];
    type SharedSecret = [u8; 32];

    const KEM_ID: u8 = 0xFF;
    const EPK_LEN: usize = 32;

    fn encap<R: EntropySource>(rng: &mut R, to: &[u8; 32]) -> ([u8; 32], [u8; 32]) {
        let mut epk = [0u8; 32];
        rng.fill_bytes(&mut epk);
        let shared = xor(&epk, to);
        (epk, shared)
    }

    fn decap(sk: &[u8; 32], epk: &[u8]) -> Option<[u8; 32]> {
        if epk.len() != 32 {
            return None;
        }
        Some(xor(epk, sk))
    }

    fn encode_pk(pk: &[u8; 32]) -> [u8; 32] {
        *pk
    }

    fn derive_pk(sk: &[u8; 32]) -> [u8; 32] {
        *sk
    }
}

struct TestRng(ChaCha20Rng);

impl EntropySource for TestRng {
    fn fill_bytes(&mut self, dest: &mut [u8]) {
        self.0.fill_bytes(dest);
    }
}

fn rng(seed: u64) -> TestRng {
    TestRng(ChaCha20Rng::seed_from_u64(seed))
}

struct TestDomain;

impl Domain for TestDomain {
    type Note = Vec<u8>;
    type Error = ();
    const DOMAIN_TAG: &'static str = "sealring-test";

    fn encode_note(note: &Vec<u8>, out: &mut Vec<u8>) -> Result<(), ()> {
        out.extend_from_slice(note);
        Ok(())
    }

    fn decode_note(bytes: &[u8]) -> Result<Vec<u8>, ()> {
        Ok(bytes.to_vec())
    }
}

struct OtherDomain;

impl Domain for OtherDomain {
    type Note = Vec<u8>;
    type Error = ();
    const DOMAIN_TAG: &'static str = "sealring-test-other";

    fn encode_note(note: &Vec<u8>, out: &mut Vec<u8>) -> Result<(), ()> {
        out.extend_from_slice(note);
        Ok(())
    }

    fn decode_note(bytes: &[u8]) -> Result<Vec<u8>, ()> {
        Ok(bytes.to_vec())
    }
}

/// Encoding fails for an empty note; decoding fails unless the first byte is 0xA5.
struct PickyDomain;

#[derive(Debug, PartialEq, Eq)]
struct NoteRejected;

impl Domain for PickyDomain {
    type Note = Vec<u8>;
    type Error = NoteRejected;
    const DOMAIN_TAG: &'static str = "sealring-test-picky";

    fn encode_note(note: &Vec<u8>, out: &mut Vec<u8>) -> Result<(), NoteRejected> {
        out.extend_from_slice(note);
        if note.is_empty() {
            return Err(NoteRejected);
        }
        Ok(())
    }

    fn decode_note(bytes: &[u8]) -> Result<Vec<u8>, NoteRejected> {
        match bytes.first() {
            Some(0xA5) => Ok(bytes.to_vec()),
            _ => Err(NoteRejected),
        }
    }
}

/// PickyDomain's tag with a codec that accepts anything.
struct PermissiveDomain;

impl Domain for PermissiveDomain {
    type Note = Vec<u8>;
    type Error = ();
    const DOMAIN_TAG: &'static str = "sealring-test-picky";

    fn encode_note(note: &Vec<u8>, out: &mut Vec<u8>) -> Result<(), ()> {
        out.extend_from_slice(note);
        Ok(())
    }

    fn decode_note(bytes: &[u8]) -> Result<Vec<u8>, ()> {
        Ok(bytes.to_vec())
    }
}

/// A domain whose commitment check rejects every note.
struct RejectingDomain;

impl Domain for RejectingDomain {
    type Note = Vec<u8>;
    type Error = ();
    const DOMAIN_TAG: &'static str = "sealring-test";

    fn encode_note(note: &Vec<u8>, out: &mut Vec<u8>) -> Result<(), ()> {
        out.extend_from_slice(note);
        Ok(())
    }

    fn decode_note(bytes: &[u8]) -> Result<Vec<u8>, ()> {
        Ok(bytes.to_vec())
    }

    fn verify(_note: &Vec<u8>, _aad: &[u8]) -> bool {
        false
    }
}

#[test]
fn seal_then_open_round_trips() {
    let me = Recipient::<MockKem>::new([5u8; 32]);
    let note = vec![1u8, 2, 3, 4, 5];
    let aad = b"context";
    let envelope =
        seal::<MockKem, TestDomain, _>(me.public_key(), &note, aad, &mut rng(7)).unwrap();
    let opened = open::<MockKem, TestDomain, _>(&me, &envelope, aad).unwrap();
    assert_eq!(opened, Some(note));
}

#[test]
fn open_with_wrong_sk_returns_none_not_error() {
    let recipient_a = [1u8; 32];
    let recipient_b = Recipient::<MockKem>::new([2u8; 32]);
    let envelope =
        seal::<MockKem, TestDomain, _>(&recipient_a, &vec![5u8, 6, 7], b"aad", &mut rng(2)).unwrap();
    let result = open::<MockKem, TestDomain, _>(&recipient_b, &envelope, b"aad");
    assert!(matches!(result, Ok(None)));
}

#[test]
fn any_single_byte_flip_never_opens() {
    let me = Recipient::<MockKem>::new([33u8; 32]);
    let note = vec![9u8, 8, 7, 6];
    let aad = b"aad";
    let envelope = seal::<MockKem, TestDomain, _>(me.public_key(), &note, aad, &mut rng(4)).unwrap();
    let pristine = envelope.as_bytes().to_vec();
    for i in 0..pristine.len() {
        let mut flipped = pristine.clone();
        flipped[i] ^= 0x01;
        if let Ok(parsed) = SealedNote::<MockKem, Vec<u8>>::parse(flipped) {
            let result = open::<MockKem, TestDomain, _>(&me, &parsed, aad);
            assert!(!matches!(result, Ok(Some(_))), "byte {i} flip must not open");
        }
    }
}

#[test]
fn different_recipients_produce_unopenable_cross_envelope() {
    let recipient_a = [11u8; 32];
    let recipient_b = Recipient::<MockKem>::new([22u8; 32]);
    let note = vec![1u8, 2, 3];
    let mut r = rng(3);
    let envelope_a = seal::<MockKem, TestDomain, _>(&recipient_a, &note, b"aad", &mut r).unwrap();
    let envelope_b =
        seal::<MockKem, TestDomain, _>(recipient_b.public_key(), &note, b"aad", &mut r).unwrap();
    assert_ne!(envelope_a.as_bytes(), envelope_b.as_bytes());
    let result = open::<MockKem, TestDomain, _>(&recipient_b, &envelope_a, b"aad");
    assert!(matches!(result, Ok(None)));
}

#[test]
fn cross_domain_tag_yields_nothing() {
    let me = Recipient::<MockKem>::new([9u8; 32]);
    let envelope =
        seal::<MockKem, TestDomain, _>(me.public_key(), &vec![10u8, 20, 30], b"aad", &mut rng(1))
            .unwrap();
    let result = open::<MockKem, OtherDomain, _>(&me, &envelope, b"aad");
    assert!(matches!(result, Ok(None)));
}

#[test]
fn encode_rejection_fails_the_seal() {
    let recipient = [13u8; 32];
    let mut r = rng(13);
    let rejected = seal::<MockKem, PickyDomain, _>(&recipient, &Vec::new(), b"aad", &mut r);
    assert_eq!(rejected.err(), Some(SealError));
    let accepted = seal::<MockKem, PickyDomain, _>(&recipient, &vec![0xA5, 1], b"aad", &mut r);
    assert!(accepted.is_ok());
}

#[test]
fn decode_rejection_surfaces_as_note_decode() {
    let me = Recipient::<MockKem>::new([17u8; 32]);
    let aad = b"aad";
    let mut r = rng(17);
    let envelope =
        seal::<MockKem, PermissiveDomain, _>(me.public_key(), &vec![0x00, 1], aad, &mut r).unwrap();
    let result = open::<MockKem, PickyDomain, _>(&me, &envelope, aad);
    assert_eq!(result, Err(OpenError::NoteDecode));
    let accepted =
        seal::<MockKem, PermissiveDomain, _>(me.public_key(), &vec![0xA5, 1], aad, &mut r).unwrap();
    let opened = open::<MockKem, PickyDomain, _>(&me, &accepted, aad);
    assert_eq!(opened, Ok(Some(vec![0xA5, 1])));
}

#[test]
fn kdf_info_layout_is_length_prefixed() {
    let info = kdf_info_for_test(0xAB, "example-tag", &[1, 2, 3], &[4, 5, 6, 7]);
    let mut expected = Vec::new();
    expected.extend_from_slice(&1u16.to_be_bytes());
    expected.push(VERSION);
    expected.extend_from_slice(&1u16.to_be_bytes());
    expected.push(0xAB);
    expected.extend_from_slice(&11u16.to_be_bytes());
    expected.extend_from_slice(b"example-tag");
    expected.extend_from_slice(&3u16.to_be_bytes());
    expected.extend_from_slice(&[1, 2, 3]);
    expected.extend_from_slice(&4u16.to_be_bytes());
    expected.extend_from_slice(&[4, 5, 6, 7]);
    assert_eq!(info, expected);
}

#[test]
fn kdf_info_prefix_carries_lengths_above_one_byte() {
    let epk = vec![7u8; 300];
    let info = kdf_info_for_test(1, "t", &epk, &[]);
    // lp(version) lp(kem_id) lp(tag) then the 300-byte epk prefixed by 0x01 0x2C.
    assert_eq!(&info[9..11], &[0x01, 0x2C]);
    assert_eq!(info.len(), 3 + 3 + 3 + 302 + 2);
    assert_eq!(&info[info.len() - 2..], &[0, 0]);
}

#[test]
fn identity_shared_secret_fails_the_seal() {
    // Sealing to the key that cancels the ephemeral key yields an all-zero secret.
    let epk = [4u8; 32];
    let result = seal_with_secret::<MockKem>("sealring-test", &epk, &[0u8; 32], &epk, b"note", b"aad");
    assert_eq!(result.err(), Some(SealError));
}

#[test]
fn seal_with_secret_lays_out_header_epk_commit_ct() {
    let epk = [0x11u8; 32];
    let shared = [0x22u8; 32];
    let pk_r = [0x33u8; 32];
    let note = vec![1u8, 2, 3];
    let env = seal_with_secret::<MockKem>("sealring-test", &epk, &shared, &pk_r, &note, b"aad").unwrap();
    let bytes = env.as_bytes();
    assert_eq!(bytes[0], VERSION);
    assert_eq!(bytes[1], 0xFF);
    assert_eq!(&bytes[2..34], &epk);
    assert_eq!(env.ct().len(), note.len() + 16);
    // The ciphertext is not the plaintext.
    assert_ne!(&env.ct()[..3], &note[..]);
    let recovered = open_with_secret(&shared, "sealring-test", &pk_r, &env, b"aad");
    assert_eq!(recovered, Some(Ok(note)));
    // A different AAD keeps the commit but fails the AEAD.
    let wrong_aad = open_with_secret(&shared, "sealring-test", &pk_r, &env, b"other");
    assert_eq!(wrong_aad, Some(Err(OpenError::Aead)));
    // A different recipient key changes the commit.
    let wrong_pk = open_with_secret(&shared, "sealring-test", &[0x34u8; 32], &env, b"aad");
    assert_eq!(wrong_pk, None);
}

#[test]
fn seal_rejects_a_note_over_the_ciphertext_bound() {
    let epk = [0x11u8; 32];
    let too_long = vec![0u8; sealring::MAX_CT_LEN - 15];
    let result = seal_with_secret::<MockKem>("sealring-test", &epk, &[1u8; 32], &epk, &too_long, b"");
    assert_eq!(result.err(), Some(SealError));
    let at_bound = vec![0u8; sealring::MAX_CT_LEN - 16];
    let env = seal_with_secret::<MockKem>("sealring-test", &epk, &[1u8; 32], &epk, &at_bound, b"").unwrap();
    assert_eq!(env.ct().len(), sealring::MAX_CT_LEN);
}

#[test]
fn verify_rejection_surfaces_as_verify() {
    let me = Recipient::<MockKem>::new([19u8; 32]);
    let envelope =
        seal::<MockKem, TestDomain, _>(me.public_key(), &vec![3u8], b"aad", &mut rng(19)).unwrap();
    let result = open::<MockKem, RejectingDomain, _>(&me, &envelope, b"aad");
    assert_eq!(result, Err(OpenError::Verify));
}

#[test]
fn seal_is_deterministic_for_a_fixed_rng() {
    let a = seal::<MockKem, TestDomain, _>(&[8u8; 32], &vec![1u8, 2], b"x", &mut rng(5)).unwrap();
    let b = seal::<MockKem, TestDomain, _>(&[8u8; 32], &vec![1u8, 2], b"x", &mut rng(5)).unwrap();
    assert_eq!(a, b);
}

#[test]
fn envelope_fields_match_independent_hkdf_and_aead() {
    let epk = [0x51u8; 32];
    let shared = [0x62u8; 32];
    let pk_r = [0x73u8; 32];
    let note = b"pay alice 5 units".to_vec();
    let aad = b"block-height:1000";
    let env = seal_with_secret::<MockKem>("sealring-test", &epk, &shared, &pk_r, &note, aad).unwrap();

    let info = kdf_info_for_test(0xFF, "sealring-test", &epk, &pk_r);
    let hk = Hkdf::<Sha256>::new(Some(b"sealring/v1"), &shared);
    let mut okm = [0u8; 76];
    hk.expand(&info, &mut okm).unwrap();
    assert_eq!(env.commit(), &okm[44..76]);

    let mut key = [0u8; 32];
    key.copy_from_slice(&okm[..32]);
    let mut nonce = [0u8; 12];
    nonce.copy_from_slice(&okm[32..44]);
    let cipher = ChaCha20Poly1305::new(&Key::from(key));
    let expected_ct = cipher.encrypt(&Nonce::from(nonce), Payload { msg: &note, aad }).unwrap();
    assert_eq!(env.ct(), expected_ct.as_slice());
    assert_ne!(env.commit(), &shared[..]);
}

#[test]
fn kdf_info_binds_the_recipient_key() {
    let a = kdf_info_for_test(3, "tag", &[1, 2], &[9, 9, 9]);
    let b = kdf_info_for_test(3, "tag", &[1, 2], &[9, 9, 8]);
    let c = kdf_info_for_test(3, "tag", &[1, 2, 9], &[9, 9]);
    assert_ne!(a, b);
    assert_ne!(a, c);
}

#[test]
fn kdf_info_prefixes_are_big_endian() {
    let mut out = Vec::new();
    sealring::seal::write_kdf_info(&mut out, 1, 3, "t", &[0u8; 256], &[]);
    let mut expected = vec![0, 1, 1, 0, 1, 3, 0, 1, b't', 1, 0];
    expected.extend_from_slice(&[0u8; 256]);
    expected.extend_from_slice(&[0, 0]);
    assert_eq!(out, expected);
}
