use ark_ec::{AffineRepr, CurveGroup};
use ark_ff::PrimeField;
use ark_grumpkin::{Affine, Fr};
use ark_serialize::CanonicalSerialize;
use rand_chacha::ChaCha20Rng;
use rand_core::{Rng, SeedableRng};
use sealring::adapters::grumpkin::{GrumpkinPoint, GrumpkinScalar, GRUMPKIN_EPK_LEN};
use sealring::kem::{ByteStorage, EntropySource, Kem};
use sealring::{open, seal, Domain, Grumpkin, Recipient};

struct TestRng(ChaCha20Rng);

impl EntropySource for TestRng {
    fn fill_bytes(&mut self, dest: &mut [u8]) {
        self.0.fill_bytes(dest);
    }
}

struct TestDomain;

impl Domain for TestDomain {
    type Note = Vec<u8>;
    type Error = ();
    const DOMAIN_TAG: &'static str = "sealring-test";

    fn encode_note(note: &Vec<u8>, out: &mut Vec<u8>) -> Result<(), ()> {
        out.extend_from_slice(note);
        Ok(())
    }

    fn decode_note(bytes: &[u8]) -> Result<Vec<u8>, ()> {
        Ok(bytes.to_vec())
    }
}

fn scalar(seed: u64) -> GrumpkinScalar {
    let mut rng = ChaCha20Rng::seed_from_u64(seed);
    let mut bytes = [0u8; 64];
    rng.fill_bytes(&mut bytes);
    GrumpkinScalar(Fr::from_le_bytes_mod_order(&bytes))
}

#[test]
fn epk_len_matches_compressed_size() {
    assert_eq!(GRUMPKIN_EPK_LEN, Affine::generator().compressed_size());
}

#[test]
fn grumpkin_seal_then_open_round_trips() {
    let me = Recipient::<Grumpkin>::new(scalar(300));
    let mut rng = TestRng(ChaCha20Rng::seed_from_u64(301));
    let note = vec![1u8, 2, 3, 4];
    let envelope = seal::<Grumpkin, TestDomain, _>(me.public_key(), &note, b"golden-aad", &mut rng).unwrap();
    assert_eq!(envelope.kem_id(), 0x03);
    assert_eq!(envelope.epk().len(), 32);
    let opened = open::<Grumpkin, TestDomain, _>(&me, &envelope, b"golden-aad").unwrap();
    assert_eq!(opened, Some(note));
}

#[test]
fn grumpkin_wrong_key_does_not_open() {
    let me = Recipient::<Grumpkin>::new(scalar(1));
    let other = Recipient::<Grumpkin>::new(scalar(2));
    let mut rng = TestRng(ChaCha20Rng::seed_from_u64(3));
    let envelope = seal::<Grumpkin, TestDomain, _>(me.public_key(), &vec![9u8], b"aad", &mut rng).unwrap();
    assert_eq!(open::<Grumpkin, TestDomain, _>(&other, &envelope, b"aad"), Ok(None));
}

#[test]
fn grumpkin_decap_rejects_bad_lengths_and_identity() {
    let sk = scalar(5);
    assert!(Grumpkin::decap(&sk, &[0u8; 31]).is_none());
    assert!(Grumpkin::decap(&sk, &[0u8; 33]).is_none());
    let mut identity = [0u8; 32];
    Affine::zero().serialize_compressed(&mut identity[..]).unwrap();
    assert!(Grumpkin::decap(&sk, &identity).is_none());
}

#[test]
fn grumpkin_decap_matches_encap() {
    let sk = scalar(7);
    let pk = Grumpkin::derive_pk(&sk);
    let mut rng = TestRng(ChaCha20Rng::seed_from_u64(8));
    let (epk, shared) = Grumpkin::encap(&mut rng, &pk);
    let recovered = Grumpkin::decap(&sk, &epk).unwrap();
    assert_eq!(recovered.bytes(), shared.bytes());
}

#[test]
fn grumpkin_encode_pk_is_the_compressed_point() {
    let sk = scalar(9);
    let pk = Grumpkin::derive_pk(&sk);
    let expected_point = (Affine::generator() * sk.0).into_affine();
    let mut expected = [0u8; 32];
    expected_point.serialize_compressed(&mut expected[..]).unwrap();
    assert_eq!(Grumpkin::encode_pk(&pk), expected);
    assert_eq!(pk.0, expected_point);
    let _ = GrumpkinPoint(expected_point);
}
