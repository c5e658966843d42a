//! Grumpkin ECDH KEM.

use ark_ec::{AffineRepr, CurveGroup};
use ark_ff::PrimeField;
use ark_grumpkin::{Affine, Fr};
use ark_serialize::{CanonicalDeserialize, CanonicalSerialize};

use vstd::prelude::*;
use vstd::string::StringSliceAdditionalSpecFns;

use crate::crypto::wipe_array;
use crate::domain::Domain;
use crate::kem::{ByteStorage, EntropySource, Kem, Wipe};
use crate::seal::{suite_is_usable, LP_MAX};

verus! {

/// Byte length of a compressed Grumpkin affine point. Its base field is 254
/// bits wide and serializes to 32 bytes with 2 spare bits, exactly enough to
/// carry the sign and infinity flags without an extra byte.
pub const GRUMPKIN_EPK_LEN: usize = 32;

/// A Grumpkin affine point, held opaquely: only the arkworks wrappers below
/// look inside it.
#[verifier::external_body]
pub struct GrumpkinPoint(pub Affine);

/// A Grumpkin scalar, held opaquely like [`GrumpkinPoint`].
#[verifier::external_body]
pub struct GrumpkinScalar(pub Fr);

/// Grumpkin ECDH KEM. Grumpkin's cofactor is 1, so a valid on-curve decode
/// needs no subgroup check; only the identity point is rejected.
pub struct Grumpkin;

/// Grumpkin shared-point x-coordinate, reduced to a fixed-size byte string.
pub struct GrumpkinSharedSecret([u8; 32]);

impl ByteStorage for GrumpkinSharedSecret {
    closed spec fn stored(&self) -> Seq<u8> {
        self.0@
    }

    fn bytes(&self) -> (s: &[u8]) {
        self.0.as_slice()
    }

    fn duplicate(&self) -> (d: Self) {
        GrumpkinSharedSecret(self.0)
    }
}

impl Wipe for GrumpkinSharedSecret {
    fn wipe(&mut self)
        ensures
            final(self).stored() == Seq::new(32, |i: int| 0u8),
    {
        wipe_array(&mut self.0);
    }
}

/// `ark_ff::PrimeField::from_le_bytes_mod_order` for the Grumpkin scalar
/// field: the scalar the 64 little-endian bytes denote, reduced modulo the
/// field order. Nothing is stated of the opaque scalar.
#[verifier::external_body]
fn scalar_from_le_bytes(bytes: &[u8; 64]) -> GrumpkinScalar {
    GrumpkinScalar(Fr::from_le_bytes_mod_order(bytes))
}

/// `ark_ec::AffineRepr::generator` for Grumpkin: the fixed group generator.
#[verifier::external_body]
fn generator() -> GrumpkinPoint {
    GrumpkinPoint(Affine::generator())
}

/// Scalar multiplication of an affine point, normalised back to affine
/// form (`ark_ec` `Mul` then `CurveGroup::into_affine`).
#[verifier::external_body]
fn scalar_mul(point: &GrumpkinPoint, scalar: &GrumpkinScalar) -> GrumpkinPoint {
    GrumpkinPoint((point.0 * scalar.0).into_affine())
}

/// `ark_serialize::CanonicalSerialize::serialize_compressed` of an affine
/// point into its 32-byte compressed encoding, which always fits.
#[verifier::external_body]
fn compress(point: &GrumpkinPoint) -> [u8; GRUMPKIN_EPK_LEN] {
    let mut out = [0u8; GRUMPKIN_EPK_LEN];
    point.0.serialize_compressed(&mut out[..]).expect("grumpkin affine point compresses to 32 bytes");
    out
}

/// `ark_ec::AffineRepr::xy` followed by `serialize_compressed` of the x
/// coordinate: the 32-byte x coordinate, `None` for the identity.
#[verifier::external_body]
fn x_coordinate(point: &GrumpkinPoint) -> Option<[u8; 32]> {
    let (x, _) = point.0.xy()?;
    let mut out = [0u8; 32];
    x.serialize_compressed(&mut out[..]).expect("grumpkin base field element serializes to 32 bytes");
    Some(out)
}

/// `ark_serialize::CanonicalDeserialize::deserialize_compressed` of a
/// Grumpkin point; `None` when the bytes are not a valid compressed point.
#[verifier::external_body]
fn decompress(bytes: &[u8]) -> Option<GrumpkinPoint> {
    Affine::deserialize_compressed(bytes).ok().map(GrumpkinPoint)
}

/// `ark_ec::AffineRepr::is_zero`: whether the point is the identity.
#[verifier::external_body]
fn is_identity(point: &GrumpkinPoint) -> bool {
    point.0.is_zero()
}

/// Draws a scalar from 64 bytes of caller-supplied randomness, reduced
/// modulo the Grumpkin scalar field order; the randomness buffer is wiped.
fn random_scalar<R: EntropySource>(rng: &mut R) -> (r: GrumpkinScalar)
    ensures
        exists|source: &mut R, dest: &mut [u8], bytes: [u8; 64]|
            #![trigger call_ensures(R::fill_bytes, (source, dest), ()), scalar_from_bytes(bytes, r)]
            *source == *old(rng) && *final(source) == *final(rng) && (*dest)@ == Seq::new(
                64,
                |i: int| 0u8,
            ) && call_ensures(R::fill_bytes, (source, dest), ()) && (*final(dest))@ == bytes@
                && scalar_from_bytes(bytes, r),
{
    let mut bytes = [0u8; 64];
    rng.fill_bytes(&mut bytes);
    let ghost filled = bytes;
    let scalar = scalar_from_le_bytes(&bytes);
    assert(scalar_from_bytes(filled, scalar));
    wipe_array(&mut bytes);
    scalar
}

/// What decapsulating `epk` under `sk` may give: `None` unless `epk` is 32
/// bytes that decompress to a point other than the identity whose product
/// with `sk` has an x coordinate; otherwise the secret carrying that
/// x coordinate.
pub closed spec fn decap_outcome(sk: &GrumpkinScalar, epk: &[u8], r: Option<GrumpkinSharedSecret>) -> bool {
    if epk@.len() != GRUMPKIN_EPK_LEN {
        r is None
    } else {
        exists|decoded: Option<GrumpkinPoint>|
            #[trigger] call_ensures(decompress, (epk,), decoded) && match decoded {
                None => r is None,
                Some(point) => exists|zero: bool|
                    #[trigger] call_ensures(is_identity, (&point,), zero) && if zero {
                        r is None
                    } else {
                        exists|shared: GrumpkinPoint, x: Option<[u8; 32]>|
                            call_ensures(scalar_mul, (&point, sk), shared) && #[trigger] call_ensures(
                                x_coordinate,
                                (&shared,),
                                x,
                            ) && match x {
                                None => r is None,
                                Some(bytes) => r matches Some(secret) && secret.stored() == bytes@,
                            }
                    },
            }
    }
}

/// `e` is what compressing `point` gives.
pub closed spec fn compressed_point(point: &GrumpkinPoint, e: [u8; GRUMPKIN_EPK_LEN]) -> bool {
    call_ensures(compress, (point,), e)
}

/// `point` is what multiplying the group generator by `scalar` gives.
pub closed spec fn generator_multiple(scalar: &GrumpkinScalar, point: GrumpkinPoint) -> bool {
    exists|g: GrumpkinPoint|
        call_ensures(generator, (), g) && #[trigger] call_ensures(scalar_mul, (&g, scalar), point)
}

/// `scalar` is what reducing the 64 little-endian `bytes` modulo the
/// scalar field order gives.
pub closed spec fn scalar_from_bytes(bytes: [u8; 64], scalar: GrumpkinScalar) -> bool {
    call_ensures(scalar_from_le_bytes, (&bytes,), scalar)
}

/// An encapsulation to `to` under the ephemeral scalar `esk`: `epk` is the
/// compressed ephemeral point `esk·G`, and `shared` the x coordinate of
/// `esk·to`, or 32 zero bytes when that product is the identity.
pub closed spec fn encapsulation(
    esk: &GrumpkinScalar,
    to: &GrumpkinPoint,
    epk: [u8; GRUMPKIN_EPK_LEN],
    shared: Seq<u8>,
) -> bool {
    exists|ephemeral: GrumpkinPoint, product: GrumpkinPoint, x: Option<[u8; 32]>|
        #[trigger] generator_multiple(esk, ephemeral) && compressed_point(&ephemeral, epk) && call_ensures(
            scalar_mul,
            (to, esk),
            product,
        ) && #[trigger] call_ensures(x_coordinate, (&product,), x) && shared == match x {
            Some(bytes) => bytes@,
            None => Seq::new(32, |i: int| 0u8),
        }
}

/// A Grumpkin shared secret always carries 32 bytes.
pub proof fn lemma_shared_secret_len(secret: GrumpkinSharedSecret)
    ensures
        secret.stored().len() == 32,
{
}

/// Decapsulation gives nothing for a key of the wrong length, and a secret
/// it gives is 32 bytes long.
pub proof fn lemma_decap_outcome_shape(sk: &GrumpkinScalar, epk: &[u8], r: Option<GrumpkinSharedSecret>)
    requires
        decap_outcome(sk, epk, r),
    ensures
        epk@.len() != GRUMPKIN_EPK_LEN ==> r is None,
        r matches Some(secret) ==> epk@.len() == GRUMPKIN_EPK_LEN && secret.stored().len() == 32,
{
}

/// An encapsulation's shared secret is 32 bytes long.
pub proof fn lemma_encapsulation_secret_len(
    esk: &GrumpkinScalar,
    to: &GrumpkinPoint,
    epk: [u8; GRUMPKIN_EPK_LEN],
    shared: Seq<u8>,
)
    requires
        encapsulation(esk, to, epk, shared),
    ensures
        shared.len() == 32,
{
}

impl Grumpkin {
    /// Encapsulation: draws an ephemeral scalar from 64 bytes of `rng`,
    /// returns the compressed ephemeral point and the x coordinate of the
    /// ephemeral scalar times `to`. An identity recipient key yields the
    /// all-zero shared secret, which sealing rejects.
    pub fn encapsulate<R: EntropySource>(rng: &mut R, to: &GrumpkinPoint) -> (r: ([u8; GRUMPKIN_EPK_LEN], GrumpkinSharedSecret))
        ensures
            exists|source: &mut R, dest: &mut [u8], bytes: [u8; 64], esk: GrumpkinScalar|
                #![trigger call_ensures(R::fill_bytes, (source, dest), ()), scalar_from_bytes(bytes, esk)]
                *source == *old(rng) && *final(source) == *final(rng) && (*dest)@ == Seq::new(
                    64,
                    |i: int| 0u8,
                ) && call_ensures(R::fill_bytes, (source, dest), ()) && (*final(dest))@ == bytes@
                    && scalar_from_bytes(bytes, esk) && encapsulation(&esk, to, r.0, r.1.stored()),
    {
        let esk = random_scalar(rng);
        let g = generator();
        let epk = scalar_mul(&g, &esk);
        let shared = scalar_mul(to, &esk);
        let x = x_coordinate(&shared);
        let secret = match x {
            Some(x) => x,
            None => [0u8; 32],
        };
        let epk_bytes = compress(&epk);
        proof {
            assert(generator_multiple(&esk, epk));
            assert(compressed_point(&epk, epk_bytes));
            assert(secret@ == match x {
                Some(bytes) => bytes@,
                None => Seq::new(32, |i: int| 0u8),
            });
            assert(encapsulation(&esk, to, epk_bytes, secret@));
        }
        (epk_bytes, GrumpkinSharedSecret(secret))
    }

    /// Decapsulation: `None` unless `epk` is a 32-byte compressed point
    /// other than the identity whose product with `sk` has an x coordinate.
    pub fn decapsulate(sk: &GrumpkinScalar, epk: &[u8]) -> (r: Option<GrumpkinSharedSecret>)
        ensures
            epk@.len() != GRUMPKIN_EPK_LEN ==> r is None,
            decap_outcome(sk, epk, r),
    {
        if epk.len() != GRUMPKIN_EPK_LEN {
            return None;
        }
        let point = match decompress(epk) {
            Some(point) => point,
            None => return None,
        };
        if is_identity(&point) {
            return None;
        }
        let shared = scalar_mul(&point, sk);
        match x_coordinate(&shared) {
            Some(x) => Some(GrumpkinSharedSecret(x)),
            None => None,
        }
    }
}

impl Kem for Grumpkin {
    type PublicKey = GrumpkinPoint;
    type SecretKey = GrumpkinScalar;
    type Epk = [u8; GRUMPKIN_EPK_LEN];
    type SharedSecret = GrumpkinSharedSecret;

    const KEM_ID: u8 = 0x03;
    const EPK_LEN: usize = GRUMPKIN_EPK_LEN;

    /// An identity recipient key yields the all-zero shared secret, which
    /// sealing rejects.
    fn encap<R: EntropySource>(rng: &mut R, to: &GrumpkinPoint) -> (r: ([u8; GRUMPKIN_EPK_LEN], GrumpkinSharedSecret)) {
        Self::encapsulate(rng, to)
    }

    fn decap(sk: &GrumpkinScalar, epk: &[u8]) -> (r: Option<GrumpkinSharedSecret>)
        ensures
            epk@.len() != GRUMPKIN_EPK_LEN ==> r is None,
            decap_outcome(sk, epk, r),
    {
        Self::decapsulate(sk, epk)
    }

    fn encode_pk(pk: &GrumpkinPoint) -> (e: [u8; GRUMPKIN_EPK_LEN])
        ensures
            compressed_point(pk, e),
    {
        compress(pk)
    }

    fn derive_pk(sk: &GrumpkinScalar) -> (pk: GrumpkinPoint)
        ensures
            generator_multiple(sk, pk),
    {
        scalar_mul(&generator(), sk)
    }
}

/// Grumpkin's wire identifier is 3 and its ephemeral key is 32 bytes.
pub proof fn lemma_grumpkin_constants()
    ensures
        <Grumpkin as Kem>::KEM_ID == 3,
        <Grumpkin as Kem>::EPK_LEN == GRUMPKIN_EPK_LEN,
        GRUMPKIN_EPK_LEN == 32,
{
}

/// The suite accepts Grumpkin under any domain whose tag is non-empty and
/// fits its length prefix: the 32-byte ephemeral key fits its own.
pub proof fn lemma_grumpkin_suite_is_usable<D: Domain>()
    requires
        0 < D::DOMAIN_TAG.spec_bytes().len() <= LP_MAX,
    ensures
        suite_is_usable::<Grumpkin, D>(),
{
    assert(<Grumpkin as Kem>::EPK_LEN == GRUMPKIN_EPK_LEN);
}

} // verus!
