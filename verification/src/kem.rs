//! The key-encapsulation seam and the byte-carrier traits the suite reads
//! keys, secrets and storage through.

use vstd::prelude::*;

use crate::crypto::{wipe_array, wipe_vec};

verus! {

/// A value that carries a byte string: envelope storage, encoded keys,
/// shared secrets.
pub trait ByteStorage {
    /// The bytes this value carries.
    spec fn stored(&self) -> Seq<u8>;

    /// Borrows the bytes this value carries.
    fn bytes(&self) -> (s: &[u8])
        ensures
            s@ == self.stored(),
    ;

    /// An independent value carrying the same bytes.
    fn duplicate(&self) -> (d: Self) where Self: Sized
        ensures
            d.stored() == self.stored(),
    ;
}

impl ByteStorage for Vec<u8> {
    open spec fn stored(&self) -> Seq<u8> {
        self@
    }

    fn bytes(&self) -> (s: &[u8]) {
        self.as_slice()
    }

    fn duplicate(&self) -> (d: Self) {
        let mut d: Vec<u8> = Vec::with_capacity(self.len());
        d.extend_from_slice(self.as_slice());
        d
    }
}

impl<'a> ByteStorage for &'a [u8] {
    open spec fn stored(&self) -> Seq<u8> {
        (*self)@
    }

    fn bytes(&self) -> (s: &[u8]) {
        *self
    }

    fn duplicate(&self) -> (d: Self) {
        *self
    }
}

impl<const N: usize> ByteStorage for [u8; N] {
    open spec fn stored(&self) -> Seq<u8> {
        self@
    }

    fn bytes(&self) -> (s: &[u8]) {
        self.as_slice()
    }

    fn duplicate(&self) -> (d: Self) {
        *self
    }
}

/// Secret material that can be overwritten in place once consumed.
pub trait Wipe {
    /// Overwrites the secret bytes this value holds.
    fn wipe(&mut self);
}

impl<const N: usize> Wipe for [u8; N] {
    fn wipe(&mut self)
        ensures
            final(self)@ == Seq::new(N as nat, |i: int| 0u8),
    {
        wipe_array(self);
    }
}

impl Wipe for Vec<u8> {
    fn wipe(&mut self)
        ensures
            final(self)@ == Seq::<u8>::empty(),
    {
        wipe_vec(self);
    }
}

/// Caller-supplied randomness.
pub trait EntropySource {
    /// Fills `dest` with random bytes.
    fn fill_bytes(&mut self, dest: &mut [u8]);
}

/// Curve-generic key-encapsulation mechanism.
pub trait Kem {
    /// Recipient long-term public key.
    type PublicKey;

    /// Recipient long-term secret key.
    type SecretKey;

    /// Ephemeral public key carried in the envelope alongside the ciphertext.
    type Epk: ByteStorage;

    /// Per-envelope KEM output fed into HKDF; wiped by the suite once consumed.
    type SharedSecret: ByteStorage + Wipe;

    /// Wire identifier for this KEM, carried in the envelope header.
    const KEM_ID: u8;

    /// Byte length of `Epk`.
    const EPK_LEN: usize;

    /// Encapsulates a fresh shared secret to `to`, returning the ephemeral
    /// public key and the shared secret.
    /// The ephemeral key is `EPK_LEN` bytes long.
    fn encap<R: EntropySource>(rng: &mut R, to: &Self::PublicKey) -> (r: (
        Self::Epk,
        Self::SharedSecret,
    ))
        ensures
            r.0.stored().len() == Self::EPK_LEN,
    ;

    /// Decapsulates `epk` under `sk`; `None` for invalid points and for
    /// non-contributory results.
    fn decap(sk: &Self::SecretKey, epk: &[u8]) -> Option<Self::SharedSecret>;

    /// Encodes `pk` in the same format as `Epk`, `EPK_LEN` bytes long.
    fn encode_pk(pk: &Self::PublicKey) -> (e: Self::Epk)
        ensures
            e.stored().len() == Self::EPK_LEN,
    ;

    /// Derives the public key that belongs to `sk`.
    fn derive_pk(sk: &Self::SecretKey) -> Self::PublicKey;

    /// Decapsulates a batch of ephemeral keys, one output slot per input.
    ///
    /// Slot `i` receives what `decap` gives for `epks[i]`, and slots past
    /// the last key keep their contents. The default is a scalar loop over
    /// `decap`; adapters that can batch field inversions override it and
    /// owe the same slots.
    fn decap_batch(sk: &Self::SecretKey, epks: &Vec<&[u8]>, out: &mut Vec<Option<Self::SharedSecret>>)
        ensures
            final(out)@.len() == old(out)@.len(),
            forall|i: int|
                0 <= i < epks@.len() && i < old(out)@.len() ==> call_ensures(
                    Self::decap,
                    (sk, epks@[i]),
                    #[trigger] final(out)@[i],
                ),
            forall|i: int|
                epks@.len() <= i < old(out)@.len() ==> #[trigger] final(out)@[i] == old(out)@[i],
    {
        let n = if epks.len() < out.len() {
            epks.len()
        } else {
            out.len()
        };
        let mut i: usize = 0;
        while i < n
            invariant
                n <= epks.len(),
                n <= out.len(),
                n == epks@.len() || n == old(out)@.len(),
                out@.len() == old(out)@.len(),
                i <= n,
                forall|j: int| 0 <= j < i ==> call_ensures(Self::decap, (sk, epks@[j]), #[trigger] out@[j]),
                forall|j: int| i <= j < old(out)@.len() ==> #[trigger] out@[j] == old(out)@[j],
            decreases n - i,
        {
            let shared = Self::decap(sk, epks[i]);
            out.set(i, shared);
            i = i + 1;
        }
    }
}

} // verus!
