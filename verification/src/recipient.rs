//! A recipient keypair, with the encoded public key the KDF binds.

use vstd::prelude::*;

use crate::kem::{ByteStorage, Kem};

verus! {

/// A recipient secret key together with the public key it derives.
///
/// Suite v1 mixes the recipient public key into the KDF info, so the receive
/// path needs both halves of the keypair. Construction pays one public-key
/// derivation and caches the encoded form the KDF consumes.
pub struct Recipient<K: Kem> {
    sk: K::SecretKey,
    pk: K::PublicKey,
    pk_encoded: K::Epk,
}

impl<K: Kem> Recipient<K> {
    #[verifier::type_invariant]
    closed spec fn well_formed(&self) -> bool {
        self.pk_encoded.stored().len() == K::EPK_LEN
    }

    /// The secret key this recipient was built from.
    pub closed spec fn spec_secret_key(&self) -> K::SecretKey {
        self.sk
    }

    /// The public key derived at construction.
    pub closed spec fn spec_public_key(&self) -> K::PublicKey {
        self.pk
    }

    /// The public key in `Epk` encoding.
    pub closed spec fn spec_pk_encoded(&self) -> Seq<u8> {
        self.pk_encoded.stored()
    }

    /// Builds a recipient from `sk`, deriving its public key.
    pub fn new(sk: K::SecretKey) -> (r: Self)
        ensures
            r.spec_secret_key() == sk,
            call_ensures(K::derive_pk, (&sk,), r.spec_public_key()),
            exists|encoded: K::Epk|
                #[trigger] call_ensures(K::encode_pk, (&r.spec_public_key(),), encoded)
                    && encoded.stored() == r.spec_pk_encoded(),
    {
        let pk = K::derive_pk(&sk);
        let pk_encoded = K::encode_pk(&pk);
        Self { sk, pk, pk_encoded }
    }

    /// The public key senders seal to.
    pub fn public_key(&self) -> (pk: &K::PublicKey)
        ensures
            *pk == self.spec_public_key(),
    {
        &self.pk
    }

    /// The secret key this recipient was built from.
    pub fn secret_key(&self) -> (sk: &K::SecretKey)
        ensures
            *sk == self.spec_secret_key(),
    {
        &self.sk
    }

    /// The public key in `Epk` encoding, the form suite v1 binds into the
    /// KDF info.
    pub fn pk_encoded(&self) -> (b: &[u8])
        ensures
            b@ == self.spec_pk_encoded(),
            b@.len() == K::EPK_LEN,
    {
        proof {
            use_type_invariant(self);
        }
        self.pk_encoded.bytes()
    }
}

} // verus!
