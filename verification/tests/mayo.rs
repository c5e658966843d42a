use sealring::mayo::params::{
    CPK_BYTES, EXPANDED_PK_BYTES, K, M_VEC_BYTES, N, P1_BYTES, P2_BYTES, P3_BYTES, SALT_BYTES,
    SIG_BYTES, S_BYTES,
};
use sealring::mayo::witness::{le_words, unpack_signature};

#[test]
fn sizes_match_mayo2() {
    assert_eq!(SIG_BYTES, 186);
    assert_eq!(S_BYTES, 162);
    assert_eq!(CPK_BYTES, 4912);
    assert_eq!(P1_BYTES, 66_560);
    assert_eq!(P2_BYTES, 34_816);
    assert_eq!(P3_BYTES, 4_896);
    assert_eq!(EXPANDED_PK_BYTES, 106_272);
    assert_eq!(M_VEC_BYTES, 32);
}

#[test]
fn le_words_reads_each_eight_bytes_little_endian() {
    let bytes: Vec<u8> = (1..=16).collect();
    let words = le_words(&bytes);
    assert_eq!(words, vec![0x0807060504030201, 0x100f0e0d0c0b0a09]);
    assert!(le_words(&[]).is_empty());
    assert_eq!(le_words(&[0xFF; 8]), vec![u64::MAX]);
}

#[test]
fn unpack_signature_splits_nibbles_low_first() {
    let mut sig = [0u8; SIG_BYTES];
    for (i, b) in sig.iter_mut().enumerate() {
        *b = i as u8;
    }
    let unpacked = unpack_signature(&sig);
    assert_eq!(unpacked.lanes.len(), K);
    for lane in &unpacked.lanes {
        assert_eq!(lane.len(), N);
    }
    // byte 0x01 -> nibbles 1, 0; byte 0x02 -> 2, 0
    assert_eq!(&unpacked.lanes[0][..4], &[0, 0, 1, 0]);
    // column 1 starts at nibble 81, the high nibble of byte 40 (0x28 -> 8, 2)
    assert_eq!(unpacked.lanes[1][0], 2);
    assert_eq!(unpacked.lanes[1][1], 9);
    assert_eq!(unpacked.salt, sig[S_BYTES..].to_vec());
    assert_eq!(unpacked.salt.len(), SALT_BYTES);
}
