//! Suite v1 wire format: `version ‖ kem_id ‖ epk ‖ commit ‖ ct`.

use core::marker::PhantomData;

use vstd::prelude::*;

use crate::error::{ParseError, ParseErrorKind};
use crate::kem::{ByteStorage, Kem};

verus! {

/// Maximum ciphertext length accepted by [`SealedNote::parse`].
pub const MAX_CT_LEN: usize = 64 * 1024;

/// Wire-format version byte for suite v1.
pub const VERSION: u8 = 1;

/// Bytes spent on the fixed version and kem-id header.
pub const HEADER_LEN: usize = 2;

/// Byte length of the key-commitment tag.
pub const COMMIT_LEN: usize = 32;

/// Byte length of the ChaCha20-Poly1305 authentication tag carried at the
/// end of `ct`.
pub const AEAD_TAG_LEN: usize = 16;

/// Shortest envelope for an ephemeral key of `epk_len` bytes.
pub open spec fn min_envelope_len(epk_len: int) -> int {
    HEADER_LEN + epk_len + COMMIT_LEN + AEAD_TAG_LEN
}

/// Offset of the commit tag for an ephemeral key of `epk_len` bytes.
pub open spec fn commit_start(epk_len: int) -> int {
    HEADER_LEN + epk_len
}

/// Offset of the ciphertext for an ephemeral key of `epk_len` bytes.
pub open spec fn ct_start(epk_len: int) -> int {
    HEADER_LEN + epk_len + COMMIT_LEN
}

/// The reason `b` is refused as an envelope under a KEM with this id and
/// ephemeral-key length, or `None` when it is accepted. The checks run in
/// order: length, version, kem id, ciphertext bound.
pub open spec fn envelope_defect(kem_id: u8, epk_len: int, b: Seq<u8>) -> Option<ParseErrorKind> {
    if b.len() < min_envelope_len(epk_len) {
        Some(
            ParseErrorKind::TooShort {
                expected: min_envelope_len(epk_len) as usize,
                actual: b.len() as usize,
            },
        )
    } else if b[0] != VERSION {
        Some(ParseErrorKind::WrongVersion { expected: VERSION, actual: b[0] })
    } else if b[1] != kem_id {
        Some(ParseErrorKind::WrongKemId { expected: kem_id, actual: b[1] })
    } else if b.len() - ct_start(epk_len) > MAX_CT_LEN {
        Some(
            ParseErrorKind::CtTooLong {
                max: MAX_CT_LEN,
                actual: (b.len() - ct_start(epk_len)) as usize,
            },
        )
    } else {
        None
    }
}

/// `b` is a well-formed envelope for `K`.
pub open spec fn is_envelope<K: Kem>(b: Seq<u8>) -> bool {
    envelope_defect(K::KEM_ID, K::EPK_LEN as int, b) is None
}

/// `K` has an ephemeral key short enough for the envelope offsets to be
/// machine integers.
pub open spec fn kem_offsets_fit<K: Kem>() -> bool {
    min_envelope_len(K::EPK_LEN as int) <= usize::MAX
}

/// Suite v1 wire-format envelope: version, kem id, epk, commit, ciphertext.
///
/// Wraps its canonical bytes instead of exposing plain fields: one value
/// equals exactly one byte string.
#[derive(Debug)]
pub struct SealedNote<K: Kem, B: ByteStorage> {
    bytes: B,
    _kem: PhantomData<K>,
}

impl<K: Kem, B: ByteStorage> SealedNote<K, B> {
    /// The envelope's bytes.
    pub closed spec fn view(&self) -> Seq<u8> {
        self.bytes.stored()
    }

    /// The storage the envelope was parsed from.
    pub closed spec fn storage(&self) -> B {
        self.bytes
    }

    #[verifier::type_invariant]
    closed spec fn well_formed(&self) -> bool {
        is_envelope::<K>(self.bytes.stored())
    }

    /// Parses `bytes` into a sealed note.
    ///
    /// Validates the version byte, `K::KEM_ID`, and buffer length before
    /// trusting any offset; the ciphertext length is bounded by
    /// [`MAX_CT_LEN`].
    pub fn parse(bytes: B) -> (r: Result<Self, ParseError<B>>)
        requires
            kem_offsets_fit::<K>(),
        ensures
            match envelope_defect(K::KEM_ID, K::EPK_LEN as int, bytes.stored()) {
                None => r matches Ok(note) && note.view() == bytes.stored() && note.storage()
                    == bytes,
                Some(kind) => r matches Err(e) && e.reason() == kind && e.rejected() == bytes,
            },
    {
        let min_len = HEADER_LEN + K::EPK_LEN + COMMIT_LEN + AEAD_TAG_LEN;
        let len = bytes.bytes().len();
        if len < min_len {
            return Err(ParseError::too_short(bytes, min_len, len));
        }
        let version = bytes.bytes()[0];
        if version != VERSION {
            return Err(ParseError::wrong_version(bytes, VERSION, version));
        }
        let kem_id = bytes.bytes()[1];
        if kem_id != K::KEM_ID {
            return Err(ParseError::wrong_kem_id(bytes, K::KEM_ID, kem_id));
        }
        let ct_len = len - (HEADER_LEN + K::EPK_LEN + COMMIT_LEN);
        if ct_len > MAX_CT_LEN {
            return Err(ParseError::ct_too_long(bytes, MAX_CT_LEN, ct_len));
        }
        Ok(Self { bytes, _kem: PhantomData })
    }

    /// Wire-format version byte.
    pub fn version(&self) -> (v: u8)
        ensures
            v == self.view()[0],
            v == VERSION,
    {
        proof {
            use_type_invariant(self);
        }
        self.bytes.bytes()[0]
    }

    /// KEM id byte, equal to `K::KEM_ID` for a parsed envelope.
    pub fn kem_id(&self) -> (id: u8)
        ensures
            id == self.view()[1],
            id == K::KEM_ID,
    {
        proof {
            use_type_invariant(self);
        }
        self.bytes.bytes()[1]
    }

    /// Ephemeral public key bytes.
    pub fn epk(&self) -> (epk: &[u8])
        ensures
            epk@ == self.view().subrange(HEADER_LEN as int, commit_start(K::EPK_LEN as int)),
            epk@.len() == K::EPK_LEN,
    {
        proof {
            use_type_invariant(self);
        }
        let b = self.bytes.bytes();
        let _n = b.len();
        &b[HEADER_LEN..HEADER_LEN + K::EPK_LEN]
    }

    /// Key-commitment tag.
    pub fn commit(&self) -> (commit: &[u8])
        ensures
            commit@ == self.view().subrange(
                commit_start(K::EPK_LEN as int),
                ct_start(K::EPK_LEN as int),
            ),
            commit@.len() == COMMIT_LEN,
    {
        proof {
            use_type_invariant(self);
        }
        let b = self.bytes.bytes();
        let _n = b.len();
        let start = HEADER_LEN + K::EPK_LEN;
        &b[start..start + COMMIT_LEN]
    }

    /// Note ciphertext, including the trailing AEAD tag.
    pub fn ct(&self) -> (ct: &[u8])
        ensures
            ct@ == self.view().subrange(ct_start(K::EPK_LEN as int), self.view().len() as int),
            AEAD_TAG_LEN <= ct@.len() <= MAX_CT_LEN,
    {
        proof {
            use_type_invariant(self);
        }
        let b = self.bytes.bytes();
        let n = b.len();
        let start = HEADER_LEN + K::EPK_LEN + COMMIT_LEN;
        &b[start..n]
    }

    /// Returns the parsed input verbatim.
    pub fn as_bytes(&self) -> (b: &[u8])
        ensures
            b@ == self.view(),
    {
        self.bytes.bytes()
    }
}

/// `a` and `b` hold the same bytes.
fn bytes_equal(a: &[u8], b: &[u8]) -> (r: bool)
    ensures
        r == (a@ == b@),
{
    if a.len() != b.len() {
        return false;
    }
    let mut i: usize = 0;
    while i < a.len()
        invariant
            a@.len() == b@.len(),
            i <= a@.len(),
            forall|j: int| 0 <= j < i ==> a@[j] == b@[j],
        decreases a@.len() - i,
    {
        if a[i] != b[i] {
            return false;
        }
        i = i + 1;
    }
    proof {
        assert(a@ =~= b@);
    }
    true
}

impl<K: Kem, B: ByteStorage> Clone for SealedNote<K, B> {
    /// An envelope over a duplicate of the same bytes.
    fn clone(&self) -> (c: Self)
        ensures
            c.view() == self.view(),
    {
        proof {
            use_type_invariant(self);
        }
        SealedNote { bytes: self.bytes.duplicate(), _kem: PhantomData }
    }
}

impl<K: Kem, B: ByteStorage> PartialEq for SealedNote<K, B> {
    fn eq(&self, other: &Self) -> (r: bool) {
        bytes_equal(self.bytes.bytes(), other.bytes.bytes())
    }
}

impl<K: Kem, B: ByteStorage> vstd::std_specs::cmp::PartialEqSpecImpl for SealedNote<K, B> {
    open spec fn obeys_eq_spec() -> bool {
        true
    }

    open spec fn eq_spec(&self, other: &Self) -> bool {
        self.view() == other.view()
    }
}

impl<K: Kem, B: ByteStorage> Eq for SealedNote<K, B> {

}

/// A parsed envelope is exactly its fields laid end to end: the accessors
/// partition the input with nothing dropped or repeated.
pub proof fn lemma_fields_partition_envelope(kem_id: u8, epk_len: int, b: Seq<u8>)
    requires
        0 <= epk_len,
        envelope_defect(kem_id, epk_len, b) is None,
    ensures
        b =~= seq![b[0], b[1]] + b.subrange(HEADER_LEN as int, commit_start(epk_len)) + b.subrange(
            commit_start(epk_len),
            ct_start(epk_len),
        ) + b.subrange(ct_start(epk_len), b.len() as int),
        b[0] == VERSION,
        b[1] == kem_id,
        AEAD_TAG_LEN <= b.len() - ct_start(epk_len) <= MAX_CT_LEN,
{
}

} // verus!
