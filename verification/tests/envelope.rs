use sealring::envelope::{AEAD_TAG_LEN, COMMIT_LEN, HEADER_LEN, VERSION};
use sealring::kem::{EntropySource, Kem};
use sealring::{SealedNote, MAX_CT_LEN};

/// Test KEM: the public key is the secret key, the shared secret is the
/// ephemeral key xor the recipient key.
#[derive(Debug, Clone)]
struct MockKem;

fn xor(a: &[u8], b: &[u8; 32]) -> [u8; 32] {
    let mut out = [0u8; 32];
    for i in 0..32 {
        out[i] = a[i] ^ b[i];
    }
    out
}

impl Kem for MockKem {
    type PublicKey = [u8; 32];
    type SecretKey = [u8; 32];
    type Epk = [u8; 32];
    type SharedSecret = [u8; 32];

    const KEM_ID: u8 = 0xFF;
    const EPK_LEN: usize = 32;

    fn encap<R: EntropySource>(rng: &mut R, to: &[u8; 32]) -> ([u8; 32], [u8; 32]) {
        let mut epk = [0u8; 32];
        rng.fill_bytes(&mut epk);
        let shared = xor(&epk, to);
        (epk, shared)
    }

    fn decap(sk: &[u8; 32], epk: &[u8]) -> Option<[u8; 32]> {
        if epk.len() != 32 {
            return None;
        }
        Some(xor(epk, sk))
    }

    fn encode_pk(pk: &[u8; 32]) -> [u8; 32] {
        *pk
    }

    fn derive_pk(sk: &[u8; 32]) -> [u8; 32] {
        *sk
    }
}

const MIN_LEN: usize = HEADER_LEN + MockKem::EPK_LEN + COMMIT_LEN + AEAD_TAG_LEN;

fn valid_bytes(ct_len: usize) -> Vec<u8> {
    let mut bytes = Vec::with_capacity(HEADER_LEN + MockKem::EPK_LEN + COMMIT_LEN + ct_len);
    bytes.push(VERSION);
    bytes.push(MockKem::KEM_ID);
    bytes.extend(vec![0xAAu8; MockKem::EPK_LEN]);
    bytes.extend(vec![0xBBu8; COMMIT_LEN]);
    bytes.extend(vec![0xCCu8; ct_len]);
    bytes
}

#[test]
fn parse_round_trip_accessors() {
    let bytes = valid_bytes(AEAD_TAG_LEN + 4);
    let note = SealedNote::<MockKem, Vec<u8>>::parse(bytes).unwrap();
    assert_eq!(note.version(), VERSION);
    assert_eq!(note.kem_id(), MockKem::KEM_ID);
    assert_eq!(note.epk(), &[0xAAu8; MockKem::EPK_LEN]);
    assert_eq!(note.commit(), &[0xBBu8; COMMIT_LEN]);
    assert_eq!(note.ct(), &[0xCCu8; AEAD_TAG_LEN + 4][..]);
}

#[test]
fn wrong_version_fails() {
    let mut bytes = valid_bytes(AEAD_TAG_LEN);
    bytes[0] = VERSION.wrapping_add(1);
    assert!(SealedNote::<MockKem, Vec<u8>>::parse(bytes).is_err());
}

#[test]
fn wrong_kem_id_fails() {
    let mut bytes = valid_bytes(AEAD_TAG_LEN);
    bytes[1] = MockKem::KEM_ID.wrapping_add(1);
    assert!(SealedNote::<MockKem, Vec<u8>>::parse(bytes).is_err());
}

#[test]
fn too_short_fails() {
    let bytes = vec![0u8; MIN_LEN - 1];
    assert!(SealedNote::<MockKem, Vec<u8>>::parse(bytes).is_err());
}

#[test]
fn ct_too_long_fails() {
    let bytes = valid_bytes(MAX_CT_LEN + 1);
    assert!(SealedNote::<MockKem, Vec<u8>>::parse(bytes).is_err());
}

#[test]
fn ct_at_max_len_succeeds() {
    let bytes = valid_bytes(MAX_CT_LEN);
    assert!(SealedNote::<MockKem, Vec<u8>>::parse(bytes).is_ok());
}

#[test]
fn envelope_parse_error_into_inner_returns_input() {
    let bytes = vec![0u8; MIN_LEN - 1];
    let Err(err) = SealedNote::<MockKem, Vec<u8>>::parse(bytes.clone()) else {
        panic!("parse of a too-short buffer must fail");
    };
    assert_eq!(err.into_inner(), bytes);
}

#[test]
fn as_bytes_returns_input_verbatim() {
    let bytes = valid_bytes(AEAD_TAG_LEN);
    let note = SealedNote::<MockKem, Vec<u8>>::parse(bytes.clone()).unwrap();
    assert_eq!(note.as_bytes(), bytes.as_slice());
}

#[test]
fn clone_preserves_bytes_and_compares_equal() {
    let bytes = valid_bytes(AEAD_TAG_LEN);
    let note = SealedNote::<MockKem, Vec<u8>>::parse(bytes.clone()).unwrap();
    let cloned = note.clone();
    assert_eq!(cloned.as_bytes(), bytes.as_slice());
    assert_eq!(note, cloned);
}

#[test]
fn parses_from_owned_and_borrowed_storage() {
    let bytes = valid_bytes(AEAD_TAG_LEN);
    let owned = SealedNote::<MockKem, Vec<u8>>::parse(bytes.clone()).unwrap();
    let borrowed = SealedNote::<MockKem, &[u8]>::parse(bytes.as_slice()).unwrap();
    assert_eq!(owned.as_bytes(), borrowed.as_bytes());
}

#[test]
fn parse_reports_each_defect_in_check_order() {
    let short = SealedNote::<MockKem, Vec<u8>>::parse(vec![VERSION; MIN_LEN - 1]).unwrap_err();
    assert_eq!(short.to_string(), "envelope too short: 81 bytes, need at least 82");

    // A wrong version is reported before a wrong kem id.
    let mut both = valid_bytes(AEAD_TAG_LEN);
    both[0] = 7;
    both[1] = 9;
    let err = SealedNote::<MockKem, Vec<u8>>::parse(both).unwrap_err();
    assert_eq!(err.to_string(), "unexpected envelope version 7, expected 1");

    let mut kem = valid_bytes(AEAD_TAG_LEN);
    kem[1] = 9;
    let err = SealedNote::<MockKem, Vec<u8>>::parse(kem).unwrap_err();
    assert_eq!(err.to_string(), "unexpected kem id 9, expected 255");

    let err = SealedNote::<MockKem, Vec<u8>>::parse(valid_bytes(MAX_CT_LEN + 3)).unwrap_err();
    assert_eq!(err.to_string(), "ciphertext too long: 65539 bytes exceeds max 65536");
}

#[test]
fn parse_accepts_exactly_the_minimum_length() {
    let bytes = valid_bytes(AEAD_TAG_LEN);
    assert_eq!(bytes.len(), MIN_LEN);
    let note = SealedNote::<MockKem, Vec<u8>>::parse(bytes).unwrap();
    assert_eq!(note.ct().len(), AEAD_TAG_LEN);
}

#[test]
fn accessors_partition_the_envelope() {
    let bytes = valid_bytes(AEAD_TAG_LEN + 9);
    let note = SealedNote::<MockKem, Vec<u8>>::parse(bytes.clone()).unwrap();
    let mut joined = vec![note.version(), note.kem_id()];
    joined.extend_from_slice(note.epk());
    joined.extend_from_slice(note.commit());
    joined.extend_from_slice(note.ct());
    assert_eq!(joined, bytes);
}

#[test]
fn notes_over_different_bytes_compare_unequal() {
    let a = SealedNote::<MockKem, Vec<u8>>::parse(valid_bytes(AEAD_TAG_LEN)).unwrap();
    let mut other = valid_bytes(AEAD_TAG_LEN);
    other[5] ^= 1;
    let b = SealedNote::<MockKem, Vec<u8>>::parse(other).unwrap();
    assert_ne!(a, b);
}
