//! Suite v1 key schedule, sealing and opening.

use vstd::prelude::*;
use vstd::string::StringSliceAdditionalSpecFns;

use crate::crypto::{
    aead_decrypt, aead_encrypt, aead_msg_fits, chacha20poly1305_open, chacha20poly1305_seal,
    ct_eq_bytes, ct_eq_u8, hkdf_sha256, hkdf_sha256_expand, wipe_array, wipe_vec,
};
use crate::domain::Domain;
use crate::envelope::{
    commit_start, ct_start, is_envelope, kem_offsets_fit, SealedNote, AEAD_TAG_LEN, COMMIT_LEN,
    HEADER_LEN, MAX_CT_LEN, VERSION,
};
use crate::error::{OpenError, SealError};
use crate::kem::{ByteStorage, EntropySource, Kem, Wipe};
use crate::recipient::Recipient;

verus! {

/// Domain-separation salt for the suite v1 HKDF-SHA256 extract step.
pub const SALT: &'static str = "sealring/v1";

/// Byte length of the suite v1 symmetric key.
pub const KEY_LEN: usize = 32;

/// Byte length of the suite v1 AEAD nonce.
pub const NONCE_LEN: usize = 12;

/// Byte length of the HKDF-Expand output: key, nonce, and commit tag.
pub const DERIVED_LEN: usize = KEY_LEN + NONCE_LEN + COMMIT_LEN;

/// Byte length of the u16 big-endian length prefix in front of each KDF
/// info field.
pub const LP_PREFIX_LEN: usize = 2;

/// Number of length-prefixed fields in the KDF info string.
pub const INFO_FIELD_COUNT: usize = 5;

/// Bytes the KDF info string spends on length prefixes plus the
/// single-byte version and kem-id fields.
pub const INFO_FIXED_LEN: usize = INFO_FIELD_COUNT * LP_PREFIX_LEN + HEADER_LEN;

/// Largest field a u16 length prefix can describe.
pub const LP_MAX: usize = 0xFFFF;

/// Big-endian two-byte encoding of `n`.
pub open spec fn be16(n: nat) -> Seq<u8> {
    seq![(n / 256) as u8, (n % 256) as u8]
}

/// `field` behind its u16 big-endian length prefix.
pub open spec fn lp(field: Seq<u8>) -> Seq<u8> {
    be16(field.len()) + field
}

/// The HKDF-Expand info string: `lp(version) lp(kem_id) lp(tag) lp(epk) lp(pk_r)`.
pub open spec fn kdf_info(version: u8, kem_id: u8, tag: Seq<u8>, epk: Seq<u8>, pk_r: Seq<u8>) -> Seq<
    u8,
> {
    lp(seq![version]) + lp(seq![kem_id]) + lp(tag) + lp(epk) + lp(pk_r)
}

/// The HKDF output suite v1 derives from a shared secret for one envelope.
pub open spec fn suite_okm(shared: Seq<u8>, kem_id: u8, tag: Seq<u8>, epk: Seq<u8>, pk_r: Seq<u8>) -> Seq<
    u8,
> {
    hkdf_sha256(SALT.spec_bytes(), shared, kdf_info(VERSION, kem_id, tag, epk, pk_r), DERIVED_LEN as nat)
}

/// The AEAD key part of a derivation.
pub open spec fn okm_key(okm: Seq<u8>) -> Seq<u8> {
    okm.subrange(0, KEY_LEN as int)
}

/// The AEAD nonce part of a derivation.
pub open spec fn okm_nonce(okm: Seq<u8>) -> Seq<u8> {
    okm.subrange(KEY_LEN as int, (KEY_LEN + NONCE_LEN) as int)
}

/// The key-commitment part of a derivation.
pub open spec fn okm_commit(okm: Seq<u8>) -> Seq<u8> {
    okm.subrange((KEY_LEN + NONCE_LEN) as int, DERIVED_LEN as int)
}

/// Every byte of `s` is zero.
pub open spec fn all_zero(s: Seq<u8>) -> bool {
    forall|i: int| 0 <= i < s.len() ==> s[i] == 0
}

/// The envelope sealing `note` yields under an encapsulation (`epk`,
/// `shared`) to the recipient whose encoded key is `pk_r`, or `None` when
/// sealing fails: an all-zero shared secret, or a note too long for the
/// ciphertext bound.
pub open spec fn sealed_envelope(
    kem_id: u8,
    tag: Seq<u8>,
    epk: Seq<u8>,
    shared: Seq<u8>,
    pk_r: Seq<u8>,
    note: Seq<u8>,
    aad: Seq<u8>,
) -> Option<Seq<u8>> {
    if all_zero(shared) || note.len() + AEAD_TAG_LEN > MAX_CT_LEN {
        None
    } else {
        let okm = suite_okm(shared, kem_id, tag, epk, pk_r);
        Some(
            seq![VERSION, kem_id] + epk + okm_commit(okm) + chacha20poly1305_seal(
                okm_key(okm),
                okm_nonce(okm),
                aad,
                note,
            ),
        )
    }
}

/// What opening the envelope `env` under shared secret `shared` recovers:
/// `None` when the commit does not match (not addressed to this key),
/// `Some(None)` when the commit matches but the AEAD rejects the
/// ciphertext, `Some(Some(plaintext))` otherwise.
pub open spec fn unsealed_plaintext(
    kem_id: u8,
    epk_len: int,
    tag: Seq<u8>,
    shared: Seq<u8>,
    pk_r: Seq<u8>,
    env: Seq<u8>,
    aad: Seq<u8>,
) -> Option<Option<Seq<u8>>> {
    let epk = env.subrange(HEADER_LEN as int, commit_start(epk_len));
    let commit = env.subrange(commit_start(epk_len), ct_start(epk_len));
    let ct = env.subrange(ct_start(epk_len), env.len() as int);
    let okm = suite_okm(shared, kem_id, tag, epk, pk_r);
    if okm_commit(okm) != commit {
        None
    } else {
        Some(chacha20poly1305_open(okm_key(okm), okm_nonce(okm), aad, ct))
    }
}

/// The suite's compile-time requirements on a KEM and a domain: a non-empty
/// domain tag, and a tag and ephemeral key that fit their u16 length prefix.
pub open spec fn suite_is_usable<K: Kem, D: Domain>() -> bool {
    &&& D::DOMAIN_TAG.spec_bytes().len() > 0
    &&& D::DOMAIN_TAG.spec_bytes().len() <= LP_MAX
    &&& K::EPK_LEN <= LP_MAX
}


/// The length prefix is the big-endian two-byte form of the length: high
/// byte first, reading back as the length.
pub proof fn lemma_be16_reads_back(n: nat)
    requires
        n <= LP_MAX,
    ensures
        be16(n).len() == 2,
        be16(n)[0] == n / 256,
        be16(n)[1] == n % 256,
        256 * (be16(n)[0] as nat) + (be16(n)[1] as nat) == n,
{
    let hi = n / 256;
    let lo = n % 256;
    assert(hi < 256);
    assert((hi as u8) == hi);
    assert((lo as u8) == lo);
    assert(n == 256 * hi + lo);
}

/// A length-prefixed field followed by anything can be split back into the
/// field and the rest.
pub proof fn lemma_lp_unique(a: Seq<u8>, r1: Seq<u8>, b: Seq<u8>, r2: Seq<u8>)
    requires
        a.len() <= LP_MAX,
        b.len() <= LP_MAX,
        lp(a) + r1 == lp(b) + r2,
    ensures
        a == b,
        r1 == r2,
{
    let x = lp(a) + r1;
    let y = lp(b) + r2;
    assert(x[0] == y[0] && x[1] == y[1]);
    let na = a.len() as int;
    let nb = b.len() as int;
    assert(na / 256 < 256 && nb / 256 < 256);
    assert((na / 256) as u8 == na / 256);
    assert((nb / 256) as u8 == nb / 256);
    assert((na % 256) as u8 == na % 256);
    assert((nb % 256) as u8 == nb % 256);
    assert(na == 256 * (na / 256) + na % 256);
    assert(nb == 256 * (nb / 256) + nb % 256);
    assert(na == nb);
    assert(a =~= x.subrange(2, 2 + na));
    assert(b =~= y.subrange(2, 2 + nb));
    assert(r1 =~= x.subrange(2 + na, x.len() as int));
    assert(r2 =~= y.subrange(2 + nb, y.len() as int));
}

/// The KDF info string determines every field it binds: two info strings
/// are equal only when the version, KEM id, domain tag, ephemeral key and
/// recipient key all agree. In particular the derived key material is bound
/// to the recipient public key.
pub proof fn lemma_kdf_info_binds_every_field(
    version1: u8,
    kem_id1: u8,
    tag1: Seq<u8>,
    epk1: Seq<u8>,
    pk_r1: Seq<u8>,
    version2: u8,
    kem_id2: u8,
    tag2: Seq<u8>,
    epk2: Seq<u8>,
    pk_r2: Seq<u8>,
)
    requires
        tag1.len() <= LP_MAX,
        epk1.len() <= LP_MAX,
        pk_r1.len() <= LP_MAX,
        tag2.len() <= LP_MAX,
        epk2.len() <= LP_MAX,
        pk_r2.len() <= LP_MAX,
        kdf_info(version1, kem_id1, tag1, epk1, pk_r1) == kdf_info(
            version2,
            kem_id2,
            tag2,
            epk2,
            pk_r2,
        ),
    ensures
        version1 == version2,
        kem_id1 == kem_id2,
        tag1 == tag2,
        epk1 == epk2,
        pk_r1 == pk_r2,
{
    let rest1_4 = lp(pk_r1);
    let rest2_4 = lp(pk_r2);
    let rest1_3 = lp(epk1) + rest1_4;
    let rest2_3 = lp(epk2) + rest2_4;
    let rest1_2 = lp(tag1) + rest1_3;
    let rest2_2 = lp(tag2) + rest2_3;
    let rest1_1 = lp(seq![kem_id1]) + rest1_2;
    let rest2_1 = lp(seq![kem_id2]) + rest2_2;
    assert(kdf_info(version1, kem_id1, tag1, epk1, pk_r1) =~= lp(seq![version1]) + rest1_1);
    assert(kdf_info(version2, kem_id2, tag2, epk2, pk_r2) =~= lp(seq![version2]) + rest2_1);
    lemma_lp_unique(seq![version1], rest1_1, seq![version2], rest2_1);
    lemma_lp_unique(seq![kem_id1], rest1_2, seq![kem_id2], rest2_2);
    lemma_lp_unique(tag1, rest1_3, tag2, rest2_3);
    lemma_lp_unique(epk1, rest1_4, epk2, rest2_4);
    assert(lp(pk_r1) =~= lp(pk_r1) + Seq::<u8>::empty());
    assert(lp(pk_r2) =~= lp(pk_r2) + Seq::<u8>::empty());
    lemma_lp_unique(pk_r1, Seq::<u8>::empty(), pk_r2, Seq::<u8>::empty());
    assert(seq![version1][0] == version1);
    assert(seq![kem_id1][0] == kem_id1);
}

/// Appends `field` to `out` as a u16 big-endian length prefix followed by
/// its bytes.
fn push_lp(out: &mut Vec<u8>, field: &[u8])
    requires
        field@.len() <= LP_MAX,
    ensures
        final(out)@ == old(out)@ + lp(field@),
{
    let len: usize = field.len();
    out.push((len / 256) as u8);
    out.push((len % 256) as u8);
    out.extend_from_slice(field);
    proof {
        assert(final(out)@ =~= old(out)@ + lp(field@));
    }
}

/// Appends the HKDF-Expand info string to `out`: `lp(version) lp(kem_id)
/// lp(tag) lp(epk) lp(pk_r)`.
pub fn write_kdf_info(out: &mut Vec<u8>, version: u8, kem_id: u8, tag: &str, epk: &[u8], pk_r: &[u8])
    requires
        tag.spec_bytes().len() <= LP_MAX,
        epk@.len() <= LP_MAX,
        pk_r@.len() <= LP_MAX,
    ensures
        final(out)@ == old(out)@ + kdf_info(version, kem_id, tag.spec_bytes(), epk@, pk_r@),
{
    let version_field: [u8; 1] = [version];
    let kem_id_field: [u8; 1] = [kem_id];
    push_lp(out, version_field.as_slice());
    push_lp(out, kem_id_field.as_slice());
    push_lp(out, tag.as_bytes());
    push_lp(out, epk);
    push_lp(out, pk_r);
    proof {
        assert(version_field@ =~= seq![version]);
        assert(kem_id_field@ =~= seq![kem_id]);
        assert(final(out)@ =~= old(out)@ + kdf_info(version, kem_id, tag.spec_bytes(), epk@, pk_r@));
    }
}

/// The KDF info string for the current suite version, as a fresh vector.
pub fn kdf_info_for_test(kem_id: u8, tag: &str, epk: &[u8], pk_r: &[u8]) -> (info: Vec<u8>)
    requires
        tag.spec_bytes().len() <= LP_MAX,
        epk@.len() <= LP_MAX,
        pk_r@.len() <= LP_MAX,
    ensures
        info@ == kdf_info(VERSION, kem_id, tag.spec_bytes(), epk@, pk_r@),
{
    let mut info = Vec::new();
    write_kdf_info(&mut info, VERSION, kem_id, tag, epk, pk_r);
    proof {
        assert(info@ =~= kdf_info(VERSION, kem_id, tag.spec_bytes(), epk@, pk_r@));
    }
    info
}

/// Key, nonce, and commit tag produced by HKDF-Expand.
pub(crate) struct Derived {
    pub(crate) key: [u8; 32],
    pub(crate) nonce: [u8; 12],
    pub(crate) commit: [u8; 32],
}

impl Derived {
    /// `self` holds the three parts of `okm`.
    pub(crate) open spec fn splits(&self, okm: Seq<u8>) -> bool {
        &&& self.key@ == okm_key(okm)
        &&& self.nonce@ == okm_nonce(okm)
        &&& self.commit@ == okm_commit(okm)
    }

    /// Overwrites the key material: every byte of key, nonce and commit tag
    /// becomes zero.
    pub(crate) fn wipe(&mut self)
        ensures
            final(self).key@ == Seq::new(32, |i: int| 0u8),
            final(self).nonce@ == Seq::new(12, |i: int| 0u8),
            final(self).commit@ == Seq::new(32, |i: int| 0u8),
    {
        wipe_array(&mut self.key);
        wipe_array(&mut self.nonce);
        wipe_array(&mut self.commit);
    }
}

/// Runs HKDF-SHA256 extract-then-expand over `shared` under `info` and
/// splits the output into key, nonce, and commit tag.
pub(crate) fn expand(shared: &[u8], info: &[u8]) -> (d: Derived)
    ensures
        d.splits(hkdf_sha256(SALT.spec_bytes(), shared@, info@, DERIVED_LEN as nat)),
{
    let mut okm = hkdf_sha256_expand(SALT.as_bytes(), shared, info, DERIVED_LEN);
    let ghost full = okm@;
    let mut d = Derived { key: [0u8; 32], nonce: [0u8; 12], commit: [0u8; 32] };
    let mut i: usize = 0;
    while i < KEY_LEN
        invariant
            i <= KEY_LEN,
            okm@ == full,
            full.len() == DERIVED_LEN,
            forall|j: int| 0 <= j < i ==> d.key@[j] == full[j],
        decreases KEY_LEN - i,
    {
        d.key[i] = okm[i];
        i = i + 1;
    }
    let mut i: usize = 0;
    while i < NONCE_LEN
        invariant
            i <= NONCE_LEN,
            okm@ == full,
            full.len() == DERIVED_LEN,
            forall|j: int| 0 <= j < KEY_LEN ==> d.key@[j] == full[j],
            forall|j: int| 0 <= j < i ==> d.nonce@[j] == full[KEY_LEN + j],
        decreases NONCE_LEN - i,
    {
        d.nonce[i] = okm[KEY_LEN + i];
        i = i + 1;
    }
    let mut i: usize = 0;
    while i < COMMIT_LEN
        invariant
            i <= COMMIT_LEN,
            okm@ == full,
            full.len() == DERIVED_LEN,
            forall|j: int| 0 <= j < KEY_LEN ==> d.key@[j] == full[j],
            forall|j: int| 0 <= j < NONCE_LEN ==> d.nonce@[j] == full[KEY_LEN + j],
            forall|j: int| 0 <= j < i ==> d.commit@[j] == full[KEY_LEN + NONCE_LEN + j],
        decreases COMMIT_LEN - i,
    {
        d.commit[i] = okm[KEY_LEN + NONCE_LEN + i];
        i = i + 1;
    }
    wipe_vec(&mut okm);
    proof {
        assert(d.key@ =~= okm_key(full));
        assert(d.nonce@ =~= okm_nonce(full));
        assert(d.commit@ =~= okm_commit(full));
    }
    d
}

/// Writes the suite v1 info string into `info`, replacing its contents, and
/// derives key, nonce and commit tag from `shared` under it.
pub(crate) fn derive_into(
    info: &mut Vec<u8>,
    shared: &[u8],
    kem_id: u8,
    tag: &str,
    epk: &[u8],
    pk_r: &[u8],
) -> (d: Derived)
    requires
        tag.spec_bytes().len() <= LP_MAX,
        epk@.len() <= LP_MAX,
        pk_r@.len() <= LP_MAX,
    ensures
        d.splits(suite_okm(shared@, kem_id, tag.spec_bytes(), epk@, pk_r@)),
        final(info)@ == kdf_info(VERSION, kem_id, tag.spec_bytes(), epk@, pk_r@),
{
    info.clear();
    write_kdf_info(info, VERSION, kem_id, tag, epk, pk_r);
    proof {
        assert(info@ =~= kdf_info(VERSION, kem_id, tag.spec_bytes(), epk@, pk_r@));
    }
    expand(shared, info.as_slice())
}

/// Builds the suite v1 info string and derives key, nonce and commit tag
/// from `shared`.
pub(crate) fn derive(shared: &[u8], kem_id: u8, tag: &str, epk: &[u8], pk_r: &[u8]) -> (d: Derived)
    requires
        tag.spec_bytes().len() <= LP_MAX,
        epk@.len() <= LP_MAX,
        pk_r@.len() <= LP_MAX,
    ensures
        d.splits(suite_okm(shared@, kem_id, tag.spec_bytes(), epk@, pk_r@)),
{
    let mut info_scratch: Vec<u8> = Vec::with_capacity(
        INFO_FIXED_LEN + tag.len() + epk.len() + pk_r.len(),
    );
    derive_into(&mut info_scratch, shared, kem_id, tag, epk, pk_r)
}

/// Constant-time test for an all-zero byte string.
pub fn is_all_zero(bytes: &[u8]) -> (r: bool)
    ensures
        r == all_zero(bytes@),
{
    let mut residue: u8 = 0;
    let mut i: usize = 0;
    while i < bytes.len()
        invariant
            i <= bytes@.len(),
            residue == 0 <==> forall|j: int| 0 <= j < i ==> bytes@[j] == 0,
        decreases bytes@.len() - i,
    {
        let octet = bytes[i];
        let next: u8 = residue | octet;
        assert(next == 0 <==> (residue == 0 && octet == 0)) by (bit_vector)
            requires
                next == residue | octet,
        ;
        residue = next;
        i = i + 1;
    }
    ct_eq_u8(residue, 0)
}

/// Seals the encoded note `note` under an encapsulation already made: `epk`
/// is the ephemeral key carried in the envelope, `shared` the secret it
/// encapsulates, `pk_r` the recipient's encoded public key.
///
/// Fails on an all-zero shared secret, which a low-order or identity
/// recipient key yields, and on a note too long for the ciphertext bound.
pub fn seal_with_secret<K: Kem>(
    tag: &str,
    epk: &[u8],
    shared: &[u8],
    pk_r: &[u8],
    note: &[u8],
    aad: &[u8],
) -> (r: Result<SealedNote<K, Vec<u8>>, SealError>)
    requires
        K::EPK_LEN <= LP_MAX,
        epk@.len() == K::EPK_LEN,
        tag.spec_bytes().len() <= LP_MAX,
        pk_r@.len() <= LP_MAX,
    ensures
        match sealed_envelope(K::KEM_ID, tag.spec_bytes(), epk@, shared@, pk_r@, note@, aad@) {
            Some(b) => r matches Ok(n) && n.view() == b,
            None => r == Err::<SealedNote<K, Vec<u8>>, SealError>(SealError),
        },
{
    if is_all_zero(shared) {
        return Err(SealError);
    }
    if note.len() > MAX_CT_LEN - AEAD_TAG_LEN {
        return Err(SealError);
    }
    let mut derived = derive(shared, K::KEM_ID, tag, epk, pk_r);
    let ghost okm = suite_okm(shared@, K::KEM_ID, tag.spec_bytes(), epk@, pk_r@);
    let encrypted = aead_encrypt(&derived.key, &derived.nonce, note, aad);
    let ct = match encrypted {
        Some(ct) => ct,
        None => {
            derived.wipe();
            return Err(SealError);
        },
    };
    let mut bytes: Vec<u8> = Vec::with_capacity(HEADER_LEN + K::EPK_LEN + COMMIT_LEN + ct.len());
    bytes.push(VERSION);
    bytes.push(K::KEM_ID);
    bytes.extend_from_slice(epk);
    bytes.extend_from_slice(derived.commit.as_slice());
    bytes.extend_from_slice(ct.as_slice());
    derived.wipe();
    proof {
        assert(bytes@ =~= seq![VERSION, K::KEM_ID] + epk@ + okm_commit(okm)
            + chacha20poly1305_seal(okm_key(okm), okm_nonce(okm), aad@, note@));
        assert(is_envelope::<K>(bytes@));
    }
    match SealedNote::parse(bytes) {
        Ok(n) => Ok(n),
        Err(_) => Err(SealError),
    }
}

/// Recovers the plaintext of `envelope` under a shared secret already
/// decapsulated from its ephemeral key, building the KDF info in `info`;
/// see [`open_with_secret`].
pub(crate) fn recover_plaintext<K: Kem, B: ByteStorage>(
    info: &mut Vec<u8>,
    shared: &[u8],
    tag: &str,
    pk_r: &[u8],
    envelope: &SealedNote<K, B>,
    aad: &[u8],
) -> (r: Option<Result<Vec<u8>, OpenError>>)
    requires
        K::EPK_LEN <= LP_MAX,
        tag.spec_bytes().len() <= LP_MAX,
        pk_r@.len() <= LP_MAX,
    ensures
        match unsealed_plaintext(
            K::KEM_ID,
            K::EPK_LEN as int,
            tag.spec_bytes(),
            shared@,
            pk_r@,
            envelope.view(),
            aad@,
        ) {
            None => r is None,
            Some(None) => r == Some(Err::<Vec<u8>, OpenError>(OpenError::Aead)),
            Some(Some(pt)) => r matches Some(Ok(p)) && p@ == pt,
        },
        forall|note: Seq<u8>|
            #[trigger] sealed_envelope(
                K::KEM_ID,
                tag.spec_bytes(),
                envelope.view().subrange(HEADER_LEN as int, commit_start(K::EPK_LEN as int)),
                shared@,
                pk_r@,
                note,
                aad@,
            ) == Some(envelope.view()) ==> (r matches Some(Ok(p)) && p@ == note),
        final(info)@ == kdf_info(
            VERSION,
            K::KEM_ID,
            tag.spec_bytes(),
            envelope.view().subrange(HEADER_LEN as int, commit_start(K::EPK_LEN as int)),
            pk_r@,
        ),
{
    let epk = envelope.epk();
    let mut derived = derive_into(info, shared, K::KEM_ID, tag, epk, pk_r);
    let ghost okm = suite_okm(shared@, K::KEM_ID, tag.spec_bytes(), epk@, pk_r@);
    let commit_matches = ct_eq_bytes(derived.commit.as_slice(), envelope.commit());
    if !commit_matches {
        derived.wipe();
        proof {
            assert forall|note: Seq<u8>|
                #[trigger] sealed_envelope(
                    K::KEM_ID,
                    tag.spec_bytes(),
                    epk@,
                    shared@,
                    pk_r@,
                    note,
                    aad@,
                ) != Some(envelope.view()) by {
                if sealed_envelope(K::KEM_ID, tag.spec_bytes(), epk@, shared@, pk_r@, note, aad@)
                    == Some(envelope.view()) {
                    let b = envelope.view();
                    assert(b.subrange(commit_start(K::EPK_LEN as int), ct_start(K::EPK_LEN as int))
                        =~= okm_commit(okm));
                }
            }
        }
        return None;
    }
    let plaintext = aead_decrypt(&derived.key, &derived.nonce, envelope.ct(), aad);
    derived.wipe();
    proof {
        assert forall|note: Seq<u8>|
            #[trigger] sealed_envelope(K::KEM_ID, tag.spec_bytes(), epk@, shared@, pk_r@, note, aad@)
                == Some(envelope.view()) implies (plaintext matches Some(p) && p@ == note) by {
            let b = envelope.view();
            let sealed_ct = chacha20poly1305_seal(okm_key(okm), okm_nonce(okm), aad@, note);
            assert(b =~= seq![VERSION, K::KEM_ID] + epk@ + okm_commit(okm) + sealed_ct);
            assert(b.subrange(ct_start(K::EPK_LEN as int), b.len() as int) =~= sealed_ct);
            assert(aead_msg_fits(note.len()));
        }
    }
    match plaintext {
        Some(p) => Some(Ok(p)),
        None => Some(Err(OpenError::Aead)),
    }
}

/// Recovers the plaintext of `envelope` under a shared secret already
/// decapsulated from its ephemeral key, for the recipient whose encoded
/// public key is `pk_r`.
///
/// `None` when the commit does not match this key: the envelope was not
/// addressed to it. `Some(Err(OpenError::Aead))` when the commit matches but
/// the ciphertext does not authenticate. An envelope sealed under the same
/// secret, tag, recipient and AAD always yields the sealed note.
pub fn open_with_secret<K: Kem, B: ByteStorage>(
    shared: &[u8],
    tag: &str,
    pk_r: &[u8],
    envelope: &SealedNote<K, B>,
    aad: &[u8],
) -> (r: Option<Result<Vec<u8>, OpenError>>)
    requires
        K::EPK_LEN <= LP_MAX,
        tag.spec_bytes().len() <= LP_MAX,
        pk_r@.len() <= LP_MAX,
    ensures
        match unsealed_plaintext(
            K::KEM_ID,
            K::EPK_LEN as int,
            tag.spec_bytes(),
            shared@,
            pk_r@,
            envelope.view(),
            aad@,
        ) {
            None => r is None,
            Some(None) => r == Some(Err::<Vec<u8>, OpenError>(OpenError::Aead)),
            Some(Some(pt)) => r matches Some(Ok(p)) && p@ == pt,
        },
        forall|note: Seq<u8>|
            #[trigger] sealed_envelope(
                K::KEM_ID,
                tag.spec_bytes(),
                envelope.view().subrange(HEADER_LEN as int, commit_start(K::EPK_LEN as int)),
                shared@,
                pk_r@,
                note,
                aad@,
            ) == Some(envelope.view()) ==> (r matches Some(Ok(p)) && p@ == note),
{
    let mut info: Vec<u8> = Vec::with_capacity(
        INFO_FIXED_LEN + tag.len() + K::EPK_LEN + pk_r.len(),
    );
    recover_plaintext(&mut info, shared, tag, pk_r, envelope, aad)
}

/// What decoding `plaintext` under domain `D` and checking the note against
/// `aad` gives: `Err(OpenError::NoteDecode)` when the domain's decoder
/// rejects the bytes, `Err(OpenError::Verify)` when the decoded note fails
/// the domain's check, and the decoded note otherwise.
pub open spec fn note_outcome<D: Domain>(plaintext: Seq<u8>, aad: &[u8], r: Result<D::Note, OpenError>) -> bool {
    exists|bytes: &[u8], decoded: Result<D::Note, D::Error>|
        bytes@ == plaintext && #[trigger] call_ensures(D::decode_note, (bytes,), decoded) && match decoded {
            Err(_) => r == Err::<D::Note, OpenError>(OpenError::NoteDecode),
            Ok(note) => exists|valid: bool|
                #[trigger] call_ensures(D::verify, (&note, aad), valid) && r == if valid {
                    Ok::<D::Note, OpenError>(note)
                } else {
                    Err::<D::Note, OpenError>(OpenError::Verify)
                },
        }
}

/// What opening an envelope whose commit matched gives, when its AEAD
/// stage ended in `recovered`: `Err(OpenError::Aead)` when the AEAD
/// rejected the ciphertext, otherwise what decoding and checking the
/// plaintext gives.
pub open spec fn matched_outcome<D: Domain>(
    recovered: Option<Seq<u8>>,
    aad: &[u8],
    r: Result<D::Note, OpenError>,
) -> bool {
    match recovered {
        None => r == Err::<D::Note, OpenError>(OpenError::Aead),
        Some(plaintext) => note_outcome::<D>(plaintext, aad, r),
    }
}

/// A decoded note as an opened envelope's result: `Ok(note)` becomes
/// `Ok(Some(note))`, an error stays as it is.
pub open spec fn found<N>(r: Result<N, OpenError>) -> Result<Option<N>, OpenError> {
    match r {
        Ok(note) => Ok(Some(note)),
        Err(e) => Err(e),
    }
}

/// The bytes of a decapsulated shared secret, if any.
pub open spec fn secret_bytes<S: ByteStorage>(secret: Option<S>) -> Option<Seq<u8>> {
    match secret {
        Some(s) => Some(s.stored()),
        None => None,
    }
}

/// `r` is what opening `env` for the recipient whose encoded public key is
/// `pk_r` gives, binding `aad`, when decapsulating its ephemeral key gave
/// `shared`.
///
/// `Ok(None)` when decapsulation failed or the commit does not match;
/// otherwise what the AEAD stage and the note's decoding and check give.
/// An envelope that sealing a plaintext under the same secret, recipient
/// and AAD yields opens to what decoding that plaintext gives.
pub open spec fn opens_to<K: Kem, D: Domain>(
    pk_r: Seq<u8>,
    env: Seq<u8>,
    aad: &[u8],
    shared: Option<Seq<u8>>,
    r: Result<Option<D::Note>, OpenError>,
) -> bool {
    match shared {
        None => r == Ok::<Option<D::Note>, OpenError>(None),
        Some(s) => {
            &&& match unsealed_plaintext(
                K::KEM_ID,
                K::EPK_LEN as int,
                D::DOMAIN_TAG.spec_bytes(),
                s,
                pk_r,
                env,
                aad@,
            ) {
                None => r == Ok::<Option<D::Note>, OpenError>(None),
                Some(recovered) => exists|o: Result<D::Note, OpenError>|
                    #[trigger] matched_outcome::<D>(recovered, aad, o) && r == found(o),
            }
            &&& forall|plaintext: Seq<u8>|
                #[trigger] sealed_envelope(
                    K::KEM_ID,
                    D::DOMAIN_TAG.spec_bytes(),
                    env.subrange(HEADER_LEN as int, commit_start(K::EPK_LEN as int)),
                    s,
                    pk_r,
                    plaintext,
                    aad@,
                ) == Some(env) ==> exists|o: Result<D::Note, OpenError>|
                    #[trigger] note_outcome::<D>(plaintext, aad, o) && r == found(o)
        },
    }
}

/// Every way the domain's decoder can read `bytes` gives `note`.
pub open spec fn decodes_to<D: Domain>(bytes: Seq<u8>, note: D::Note) -> bool {
    forall|b: &[u8], decoded: Result<D::Note, D::Error>|
        b@ == bytes && #[trigger] call_ensures(D::decode_note, (b,), decoded) ==> decoded == Ok::<
            D::Note,
            D::Error,
        >(note)
}

/// The domain's check accepts `note` under `aad` whenever it returns.
pub open spec fn accepts<D: Domain>(note: D::Note, aad: &[u8]) -> bool {
    forall|valid: bool| #[trigger] call_ensures(D::verify, (&note, aad), valid) ==> valid
}

/// An envelope sealed to a recipient opens to the sealed note for that
/// recipient: when sealing the encoding `note_bytes` under the shared secret
/// `shared` for the encoded recipient key `pk_r` gave `env`, decapsulating
/// `env` gives that same secret back, the domain decodes `note_bytes` to
/// `note` and accepts it under `aad`, then opening `env` gives `note`.
pub proof fn lemma_open_recovers_sealed_note<K: Kem, D: Domain>(
    pk_r: Seq<u8>,
    epk: Seq<u8>,
    shared: Seq<u8>,
    note_bytes: Seq<u8>,
    aad: &[u8],
    env: Seq<u8>,
    note: D::Note,
    r: Result<Option<D::Note>, OpenError>,
)
    requires
        epk.len() == K::EPK_LEN,
        sealed_envelope(
            K::KEM_ID,
            D::DOMAIN_TAG.spec_bytes(),
            epk,
            shared,
            pk_r,
            note_bytes,
            aad@,
        ) == Some(env),
        decodes_to::<D>(note_bytes, note),
        accepts::<D>(note, aad),
        opens_to::<K, D>(pk_r, env, aad, Some(shared), r),
    ensures
        r == Ok::<Option<D::Note>, OpenError>(Some(note)),
{
    let okm = suite_okm(shared, K::KEM_ID, D::DOMAIN_TAG.spec_bytes(), epk, pk_r);
    assert(env =~= seq![VERSION, K::KEM_ID] + epk + okm_commit(okm) + chacha20poly1305_seal(
        okm_key(okm),
        okm_nonce(okm),
        aad@,
        note_bytes,
    ));
    assert(env.subrange(HEADER_LEN as int, commit_start(K::EPK_LEN as int)) =~= epk);
    let o = choose|o: Result<D::Note, OpenError>| #[trigger] note_outcome::<D>(note_bytes, aad, o) && r == found(o);
    assert(o == Ok::<D::Note, OpenError>(note));
}

/// Decodes a recovered plaintext under domain `D` and checks it against
/// `aad`, wiping the plaintext once decoded.
pub(crate) fn decode_and_verify<D: Domain>(plaintext: Vec<u8>, aad: &[u8]) -> (r: Result<
    D::Note,
    OpenError,
>)
    ensures
        note_outcome::<D>(plaintext@, aad, r),
{
    let mut plaintext = plaintext;
    let decoded = D::decode_note(plaintext.as_slice());
    wipe_vec(&mut plaintext);
    let note = match decoded {
        Ok(note) => note,
        Err(_) => return Err(OpenError::NoteDecode),
    };
    if !D::verify(&note, aad) {
        return Err(OpenError::Verify);
    }
    Ok(note)
}

/// Seals `note` to `pk` under domain `D`, binding `aad` into the AEAD.
///
/// Returns `Err(SealError)` when encapsulation produces an all-zero shared
/// secret, which a low-order or identity recipient key yields, when the
/// domain has no encoding for `note`, or when the encoding is too long for
/// the ciphertext bound. Otherwise the envelope is the one
/// [`seal_with_secret`] builds from the encapsulation and the encoding.
pub fn seal<K: Kem, D: Domain, R: EntropySource>(
    pk: &K::PublicKey,
    note: &D::Note,
    aad: &[u8],
    rng: &mut R,
) -> (r: Result<SealedNote<K, Vec<u8>>, SealError>)
    requires
        suite_is_usable::<K, D>(),
    ensures
        exists|source: &mut R, encapsulated: (K::Epk, K::SharedSecret)|
            *source == *old(rng) && *final(source) == *final(rng) && #[trigger] call_ensures(
                K::encap::<R>,
                (source, pk),
                encapsulated,
            ) && if all_zero(encapsulated.1.stored()) {
                r == Err::<SealedNote<K, Vec<u8>>, SealError>(SealError)
            } else {
                exists|pk_r: K::Epk, buf: &mut Vec<u8>, encoded: Result<(), D::Error>|
                    #![trigger call_ensures(K::encode_pk, (pk,), pk_r), call_ensures(D::encode_note, (note, buf), encoded)]
                    call_ensures(K::encode_pk, (pk,), pk_r) && (*buf)@ == Seq::<u8>::empty()
                        && call_ensures(D::encode_note, (note, buf), encoded) && match encoded {
                        Err(_) => r == Err::<SealedNote<K, Vec<u8>>, SealError>(SealError),
                        Ok(_) => match sealed_envelope(
                            K::KEM_ID,
                            D::DOMAIN_TAG.spec_bytes(),
                            encapsulated.0.stored(),
                            encapsulated.1.stored(),
                            pk_r.stored(),
                            (*final(buf))@,
                            aad@,
                        ) {
                            Some(b) => r matches Ok(n) && n.view() == b,
                            None => r == Err::<SealedNote<K, Vec<u8>>, SealError>(SealError),
                        },
                    }
            },
{
    let (epk, mut shared) = K::encap(rng, pk);
    if is_all_zero(shared.bytes()) {
        shared.wipe();
        return Err(SealError);
    }
    let pk_r_encoded = K::encode_pk(pk);
    let mut note_bytes: Vec<u8> = Vec::new();
    if D::encode_note(note, &mut note_bytes).is_err() {
        wipe_vec(&mut note_bytes);
        shared.wipe();
        return Err(SealError);
    }
    let sealed = seal_with_secret::<K>(
        D::DOMAIN_TAG,
        epk.bytes(),
        shared.bytes(),
        pk_r_encoded.bytes(),
        note_bytes.as_slice(),
        aad,
    );
    shared.wipe();
    wipe_vec(&mut note_bytes);
    sealed
}

/// Opens `envelope` for `recipient`, whose public key reproduces the KDF
/// binding, and binds `aad` into the AEAD.
///
/// Returns `Ok(None)` when decapsulation fails or the commit does not match
/// this key: the envelope was not addressed to it, which is not an error.
/// Returns `Err` when the commit matches but AEAD decryption, note
/// decoding, or `Domain::verify` fails: an authenticated envelope that is
/// wrong.
pub fn open<K: Kem, D: Domain, B: ByteStorage>(
    recipient: &Recipient<K>,
    envelope: &SealedNote<K, B>,
    aad: &[u8],
) -> (r: Result<Option<D::Note>, OpenError>)
    requires
        suite_is_usable::<K, D>(),
    ensures
        exists|epk: &[u8], decapsulated: Option<K::SharedSecret>|
            epk@ == envelope.view().subrange(HEADER_LEN as int, commit_start(K::EPK_LEN as int))
                && #[trigger] call_ensures(K::decap, (&recipient.spec_secret_key(), epk), decapsulated)
                && opens_to::<K, D>(
                recipient.spec_pk_encoded(),
                envelope.view(),
                aad,
                secret_bytes(decapsulated),
                r,
            ),
{
    let epk = envelope.epk();
    let decapsulated = K::decap(recipient.secret_key(), epk);
    let ghost pk_r = recipient.spec_pk_encoded();
    let ghost env = envelope.view();
    let mut shared = match decapsulated {
        Some(shared) => shared,
        None => {
            assert(opens_to::<K, D>(pk_r, env, aad, secret_bytes(decapsulated), Ok(None)));
            return Ok(None);
        },
    };
    let ghost ss = shared.stored();
    let recovered = open_with_secret(
        shared.bytes(),
        D::DOMAIN_TAG,
        recipient.pk_encoded(),
        envelope,
        aad,
    );
    shared.wipe();
    let plaintext = match recovered {
        None => {
            assert(opens_to::<K, D>(pk_r, env, aad, Some(ss), Ok(None)));
            return Ok(None);
        },
        Some(Err(e)) => {
            assert(matched_outcome::<D>(None, aad, Err(e)));
            assert(opens_to::<K, D>(pk_r, env, aad, Some(ss), Err(e)));
            return Err(e);
        },
        Some(Ok(p)) => p,
    };
    let ghost recovered_bytes = plaintext@;
    let outcome = decode_and_verify::<D>(plaintext, aad);
    proof {
        assert(matched_outcome::<D>(Some(recovered_bytes), aad, outcome));
        assert forall|pt: Seq<u8>|
            #[trigger] sealed_envelope(
                K::KEM_ID,
                D::DOMAIN_TAG.spec_bytes(),
                env.subrange(HEADER_LEN as int, commit_start(K::EPK_LEN as int)),
                ss,
                pk_r,
                pt,
                aad@,
            ) == Some(env) implies exists|o: Result<D::Note, OpenError>|
                #[trigger] note_outcome::<D>(pt, aad, o) && found(outcome) == found(o) by {
            assert(note_outcome::<D>(pt, aad, outcome));
        }
        assert(opens_to::<K, D>(pk_r, env, aad, Some(ss), found(outcome)));
    }
    match outcome {
        Ok(note) => Ok(Some(note)),
        Err(e) => Err(e),
    }
}

} // verus!
