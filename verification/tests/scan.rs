use rand_chacha::ChaCha20Rng;
use rand_core::{Rng, SeedableRng};
use sealring::kem::{EntropySource, Kem};
use sealring::scan::{append_parts, append_rebased, scan_for};
use sealring::open;
use sealring::{seal, Domain, Malformed, OpenError, Recipient, Scanner, SealedNote, SCAN_CHUNK};

/// Test KEM: the public key is the secret key, the shared secret is the
/// ephemeral key xor the recipient key.
#[derive(Debug, Clone)]
struct MockKem;

fn xor(a: &[u8], b: &[u8; 32]) -> [u8; 32] {
    let mut out = [0u8; 32];
    for i in 0..32 {
        out[i] = a[i] ^ b[i];
    }
    out
}

impl Kem for MockKem {
    type PublicKey = [u8; 32];
    type SecretKey = [u8; 32];
    type Epk = [u8; 32];
    type SharedSecret = [u8; 32];

    const KEM_ID: u8 = 0xFF;
    const EPK_LEN: usize = 32;

    fn encap<R: EntropySource>(rng: &mut R, to: &[u8; 32]) -> ([u8; 32], [u8; 32]) {
        let mut epk = [0u8; 32];
        rng.fill_bytes(&mut epk);
        let shared = xor(&epk, to);
        (epk, shared)
    }

    fn decap(sk: &[u8; 32], epk: &[u8]) -> Option<[u8; 32]> {
        if epk.len() != 32 {
            return None;
        }
        Some(xor(epk, sk))
    }

    fn encode_pk(pk: &[u8; 32]) -> [u8; 32] {
        *pk
    }

    fn derive_pk(sk: &[u8; 32]) -> [u8; 32] {
        *sk
    }
}

struct TestRng(ChaCha20Rng);

impl EntropySource for TestRng {
    fn fill_bytes(&mut self, dest: &mut [u8]) {
        self.0.fill_bytes(dest);
    }
}

fn rng(seed: u64) -> TestRng {
    TestRng(ChaCha20Rng::seed_from_u64(seed))
}

struct TestDomain;

impl Domain for TestDomain {
    type Note = Vec<u8>;
    type Error = ();
    const DOMAIN_TAG: &'static str = "sealring-test";

    fn encode_note(note: &Vec<u8>, out: &mut Vec<u8>) -> Result<(), ()> {
        out.extend_from_slice(note);
        Ok(())
    }

    fn decode_note(bytes: &[u8]) -> Result<Vec<u8>, ()> {
        Ok(bytes.to_vec())
    }
}

#[test]
fn scan_yields_correct_results_for_mixed_batch() {
    let me = Recipient::<MockKem>::new([7u8; 32]);
    let stranger = [9u8; 32];
    let aad = b"scan-aad";
    let mut r = rng(11);
    let mine = seal::<MockKem, TestDomain, _>(me.public_key(), &vec![1, 2, 3], aad, &mut r).unwrap();
    let not_mine = seal::<MockKem, TestDomain, _>(&stranger, &vec![4, 5, 6], aad, &mut r).unwrap();
    let sealed_to_recipient =
        seal::<MockKem, TestDomain, _>(me.public_key(), &vec![7, 8, 9], aad, &mut r).unwrap();
    let mut malformed_bytes = sealed_to_recipient.as_bytes().to_vec();
    let last = malformed_bytes.len() - 1;
    malformed_bytes[last] ^= 0x01;
    let malformed = SealedNote::<MockKem, Vec<u8>>::parse(malformed_bytes).unwrap();

    let envelopes = vec![&mine, &not_mine, &malformed];
    let mut scanner = Scanner::<MockKem, TestDomain>::new(me);
    let results = scanner.scan(&envelopes, aad);

    assert_eq!(results.len(), 2);
    assert_eq!(results[0].0, 0);
    assert_eq!(results[0].1, Ok(vec![1, 2, 3]));
    assert_eq!(results[1].0, 2);
    assert!(matches!(results[1].1, Err(Malformed(OpenError::Aead))));
}

#[test]
fn scan_iterators_do_not_borrow_the_scanner() {
    let recipient = [6u8; 32];
    let aad = b"borrow-aad";
    let envelope = seal::<MockKem, TestDomain, _>(&recipient, &vec![1u8], aad, &mut rng(41)).unwrap();
    let refs = [&envelope];
    let mut scanner = Scanner::<MockKem, TestDomain>::new(Recipient::new(recipient));
    let first = scanner.scan(&refs, aad);
    let second = scanner.scan(&refs, aad);
    assert_eq!(first.len(), 1);
    assert_eq!(second.len(), 1);
}

#[test]
fn empty_batch_yields_nothing() {
    let mut scanner = Scanner::<MockKem, TestDomain>::new(Recipient::new([1u8; 32]));
    let envelopes: Vec<&SealedNote<MockKem, Vec<u8>>> = Vec::new();
    let results = scanner.scan(&envelopes, b"aad");
    assert!(results.is_empty());
}

#[test]
fn scan_spans_multiple_chunks_in_order() {
    let recipient = [4u8; 32];
    let aad = b"chunk-aad";
    let mut r = rng(31);
    let count = SCAN_CHUNK + 5;
    let envelopes: Vec<_> = (0..count)
        .map(|i| seal::<MockKem, TestDomain, _>(&recipient, &vec![(i % 256) as u8], aad, &mut r).unwrap())
        .collect();
    let refs: Vec<_> = envelopes.iter().collect();
    let mut scanner = Scanner::<MockKem, TestDomain>::new(Recipient::new(recipient));
    let results = scanner.scan(&refs, aad);
    assert_eq!(results.len(), count);
    for (expected_index, (index, outcome)) in results.into_iter().enumerate() {
        assert_eq!(index, expected_index);
        assert_eq!(outcome, Ok(vec![(expected_index % 256) as u8]));
    }
}

#[test]
fn scan_skips_strangers_across_exactly_full_chunks() {
    let recipient = [5u8; 32];
    let stranger = [6u8; 32];
    let aad = b"parallel-aad";
    let mut r = rng(31);
    let count = SCAN_CHUNK * 2;
    let envelopes: Vec<_> = (0..count)
        .map(|i| {
            let to = if i % 5 == 0 { &recipient } else { &stranger };
            seal::<MockKem, TestDomain, _>(to, &vec![i as u8], aad, &mut r).unwrap()
        })
        .collect();
    let refs: Vec<_> = envelopes.iter().collect();
    let mut scanner = Scanner::<MockKem, TestDomain>::new(Recipient::new(recipient));
    let results = scanner.scan(&refs, aad);
    assert_eq!(results.len(), (count + 4) / 5);
    for (k, (index, outcome)) in results.iter().enumerate() {
        assert_eq!(*index, k * 5);
        assert_eq!(outcome, &Ok(vec![(k * 5) as u8]));
    }
}

#[test]
fn scan_reports_decode_and_verify_failures_as_malformed() {
    let me = Recipient::<MockKem>::new([12u8; 32]);
    let aad = b"aad";
    let mut r = rng(12);
    let bad_first_byte = seal::<MockKem, TestDomain, _>(me.public_key(), &vec![0x00], aad, &mut r).unwrap();
    let good = seal::<MockKem, TestDomain, _>(me.public_key(), &vec![0xA5, 2], aad, &mut r).unwrap();
    let refs = vec![&bad_first_byte, &good];
    let mut scanner = Scanner::<MockKem, PickyTagDomain>::new(me);
    let results = scanner.scan(&refs, aad);
    assert_eq!(results, vec![(0, Err(Malformed(OpenError::NoteDecode))), (1, Ok(vec![0xA5, 2]))]);
}

#[test]
fn scanner_keeps_its_recipient() {
    let scanner = Scanner::<MockKem, TestDomain>::new(Recipient::new([3u8; 32]));
    assert_eq!(scanner.recipient().public_key(), &[3u8; 32]);
    assert_eq!(scanner.recipient().secret_key(), &[3u8; 32]);
}

/// TestDomain's tag with a decoder that requires a leading 0xA5.
struct PickyTagDomain;

impl Domain for PickyTagDomain {
    type Note = Vec<u8>;
    type Error = ();
    const DOMAIN_TAG: &'static str = "sealring-test";

    fn encode_note(note: &Vec<u8>, out: &mut Vec<u8>) -> Result<(), ()> {
        out.extend_from_slice(note);
        Ok(())
    }

    fn decode_note(bytes: &[u8]) -> Result<Vec<u8>, ()> {
        match bytes.first() {
            Some(0xA5) => Ok(bytes.to_vec()),
            _ => Err(()),
        }
    }
}

#[test]
fn append_rebased_moves_indices_to_the_whole_input() {
    let mut results: Vec<(usize, Result<Vec<u8>, Malformed>)> = vec![(0, Ok(vec![1]))];
    let found = vec![(0, Ok(vec![2])), (3, Err(Malformed(OpenError::Aead)))];
    append_rebased(&mut results, found, 64);
    assert_eq!(
        results,
        vec![(0, Ok(vec![1])), (64, Ok(vec![2])), (67, Err(Malformed(OpenError::Aead)))]
    );
}

#[test]
fn scan_agrees_with_open_envelope_by_envelope() {
    let me = Recipient::<MockKem>::new([8u8; 32]);
    let aad = b"agree-aad";
    let mut r = rng(8);
    let mine = seal::<MockKem, TestDomain, _>(me.public_key(), &vec![1, 2], aad, &mut r).unwrap();
    let other = seal::<MockKem, TestDomain, _>(&[9u8; 32], &vec![3], aad, &mut r).unwrap();
    let mut broken_bytes = seal::<MockKem, TestDomain, _>(me.public_key(), &vec![4], aad, &mut r)
        .unwrap()
        .as_bytes()
        .to_vec();
    let last = broken_bytes.len() - 1;
    broken_bytes[last] ^= 0x01;
    let broken = SealedNote::<MockKem, Vec<u8>>::parse(broken_bytes).unwrap();
    let refs = vec![&mine, &other, &broken];
    let results = scan_for::<MockKem, TestDomain, Vec<u8>>(&me, &refs, aad);
    let mut expected = Vec::new();
    for (index, envelope) in refs.iter().enumerate() {
        match open::<MockKem, TestDomain, Vec<u8>>(&me, envelope, aad) {
            Ok(None) => {}
            Ok(Some(note)) => expected.push((index, Ok(note))),
            Err(e) => expected.push((index, Err(Malformed(e)))),
        }
    }
    assert_eq!(results, expected);
    assert_eq!(results, vec![(0, Ok(vec![1, 2])), (2, Err(Malformed(OpenError::Aead)))]);
}

#[test]
fn append_parts_places_each_part_after_the_ones_before() {
    let mut results: Vec<(usize, Result<Vec<u8>, Malformed>)> = Vec::new();
    let parts = vec![
        (3, vec![(1, Ok(vec![1]))]),
        (2, vec![]),
        (4, vec![(0, Ok(vec![2])), (3, Err(Malformed(OpenError::Verify)))]),
    ];
    append_parts(&mut results, parts, 10);
    assert_eq!(
        results,
        vec![(11, Ok(vec![1])), (15, Ok(vec![2])), (18, Err(Malformed(OpenError::Verify)))]
    );
}
