//! Batch trial-decryption of an inbox of sealed notes.

use core::marker::PhantomData;

use vstd::prelude::*;
use vstd::string::StringSliceAdditionalSpecFns;

use crate::domain::Domain;
use crate::envelope::{commit_start, SealedNote, HEADER_LEN, MAX_CT_LEN, VERSION};
use crate::error::{Malformed, OpenError};
use crate::kem::{ByteStorage, Kem, Wipe};
use crate::recipient::Recipient;
use crate::seal::{
    decode_and_verify, kdf_info, matched_outcome, note_outcome, opens_to, recover_plaintext,
    secret_bytes, sealed_envelope, suite_is_usable, unsealed_plaintext, INFO_FIXED_LEN, LP_MAX,
};

verus! {

/// Fixed-size chunk used for batched trial decryption.
pub const SCAN_CHUNK: usize = 64;

/// What scanning one envelope finds, given what decapsulation returned for
/// it: `None` when it is not addressed to the key (decapsulation failed or
/// the commit does not match), `Some(None)` when the commit matches but the
/// AEAD rejects it, `Some(Some(plaintext))` otherwise.
pub open spec fn scan_outcome<K: Kem>(
    tag: Seq<u8>,
    pk_r: Seq<u8>,
    aad: Seq<u8>,
    shared: Option<Seq<u8>>,
    env: Seq<u8>,
) -> Option<Option<Seq<u8>>> {
    match shared {
        None => None,
        Some(s) => unsealed_plaintext(K::KEM_ID, K::EPK_LEN as int, tag, s, pk_r, env, aad),
    }
}

/// The outcomes of scanning `envs` when decapsulation returned `shareds`.
pub open spec fn scan_outcomes<K: Kem>(
    tag: Seq<u8>,
    pk_r: Seq<u8>,
    aad: Seq<u8>,
    shareds: Seq<Option<Seq<u8>>>,
    envs: Seq<Seq<u8>>,
) -> Seq<Option<Option<Seq<u8>>>> {
    Seq::new(shareds.len(), |i: int| scan_outcome::<K>(tag, pk_r, aad, shareds[i], envs[i]))
}

/// Indices, in increasing order, of the envelopes whose commit matched.
pub open spec fn hit_indices(outcomes: Seq<Option<Option<Seq<u8>>>>) -> Seq<int>
    decreases outcomes.len(),
{
    if outcomes.len() == 0 {
        Seq::empty()
    } else {
        let prev = hit_indices(outcomes.drop_last());
        if outcomes.last() is Some {
            prev.push(outcomes.len() - 1)
        } else {
            prev
        }
    }
}

/// A scan's report for an envelope, as the result opening it gives:
/// `Ok(note)` is `Ok(Some(note))`, `Err(Malformed(e))` is `Err(e)`.
pub open spec fn opened<N>(v: Result<N, Malformed>) -> Result<Option<N>, OpenError> {
    match v {
        Ok(note) => Ok(Some(note)),
        Err(m) => Err(m.0),
    }
}

/// `shared` is the bytes of what decapsulating the ephemeral key of `env`
/// under `sk` gives, `None` where it gives nothing.
pub open spec fn decapsulates_to<K: Kem>(sk: &K::SecretKey, env: Seq<u8>, shared: Option<Seq<u8>>) -> bool {
    exists|epk: &[u8], secret: Option<K::SharedSecret>|
        epk@ == env.subrange(HEADER_LEN as int, commit_start(K::EPK_LEN as int)) && #[trigger] call_ensures(
            K::decap,
            (sk, epk),
            secret,
        ) && shared == secret_bytes(secret)
}

/// `results` reports exactly the matched envelopes of `envs`, in input
/// order, each with its index and what opening it under the shared secret
/// in `shareds` gives, for the recipient whose encoded key is `pk_r`.
pub open spec fn reports_scan<K: Kem, D: Domain>(
    results: Seq<(usize, Result<D::Note, Malformed>)>,
    pk_r: Seq<u8>,
    aad: &[u8],
    shareds: Seq<Option<Seq<u8>>>,
    envs: Seq<Seq<u8>>,
) -> bool {
    let outcomes = scan_outcomes::<K>(D::DOMAIN_TAG.spec_bytes(), pk_r, aad@, shareds, envs);
    &&& results.len() == hit_indices(outcomes).len()
    &&& forall|k: int|
        0 <= k < results.len() ==> {
            &&& #[trigger] results[k].0 == hit_indices(outcomes)[k]
            &&& opens_to::<K, D>(
                pk_r,
                envs[results[k].0 as int],
                aad,
                shareds[results[k].0 as int],
                opened(results[k].1),
            )
        }
}

/// Scanning agrees with opening, envelope by envelope: under the same
/// shared secret, a scan reports an envelope exactly when opening it gives
/// something other than `Ok(None)`.
pub proof fn lemma_scan_matches_open<K: Kem, D: Domain>(
    pk_r: Seq<u8>,
    env: Seq<u8>,
    aad: &[u8],
    shared: Option<Seq<u8>>,
    r: Result<Option<D::Note>, OpenError>,
)
    requires
        opens_to::<K, D>(pk_r, env, aad, shared, r),
    ensures
        scan_outcome::<K>(D::DOMAIN_TAG.spec_bytes(), pk_r, aad@, shared, env) is Some <==> r
            != Ok::<Option<D::Note>, OpenError>(None),
{
}

/// The indices of matched envelopes stay below the count scanned.
proof fn lemma_hit_indices_bounded(outcomes: Seq<Option<Option<Seq<u8>>>>)
    ensures
        forall|k: int|
            0 <= k < hit_indices(outcomes).len() ==> #[trigger] hit_indices(outcomes)[k]
                < outcomes.len() && 0 <= hit_indices(outcomes)[k] && outcomes[hit_indices(
                outcomes,
            )[k]] is Some,
    decreases outcomes.len(),
{
    if outcomes.len() > 0 {
        lemma_hit_indices_bounded(outcomes.drop_last());
        assert forall|k: int| 0 <= k < hit_indices(outcomes).len() implies #[trigger] hit_indices(
            outcomes,
        )[k] < outcomes.len() && 0 <= hit_indices(outcomes)[k] && outcomes[hit_indices(
            outcomes,
        )[k]] is Some by {
            let prev = hit_indices(outcomes.drop_last());
            if k < prev.len() {
                assert(outcomes.drop_last()[prev[k]] == outcomes[prev[k]]);
            }
        }
    }
}

/// A scan reports matched envelopes in strictly increasing input order,
/// each at most once, and never more envelopes than it scanned.
pub proof fn lemma_scan_reports_in_input_order(outcomes: Seq<Option<Option<Seq<u8>>>>)
    ensures
        forall|a: int, b: int|
            0 <= a < b < hit_indices(outcomes).len() ==> hit_indices(outcomes)[a] < hit_indices(
                outcomes,
            )[b],
        hit_indices(outcomes).len() <= outcomes.len(),
    decreases outcomes.len(),
{
    if outcomes.len() > 0 {
        lemma_scan_reports_in_input_order(outcomes.drop_last());
        lemma_hit_indices_bounded(outcomes.drop_last());
    }
}

/// Scanning one more envelope extends the report by that envelope when
/// its commit matched, and leaves it unchanged otherwise.
proof fn lemma_hit_indices_push(
    outcomes: Seq<Option<Option<Seq<u8>>>>,
    next: Option<Option<Seq<u8>>>,
)
    ensures
        hit_indices(outcomes.push(next)) == if next is Some {
            hit_indices(outcomes).push(outcomes.len() as int)
        } else {
            hit_indices(outcomes)
        },
{
    assert(outcomes.push(next).drop_last() =~= outcomes);
}

/// Working memory one chunk needs, reused across the envelopes in it: the
/// decapsulation out-slots and the KDF info buffer.
struct ScanBuffers<K: Kem> {
    out: Vec<Option<K::SharedSecret>>,
    info: Vec<u8>,
}

impl<K: Kem> ScanBuffers<K> {
    /// Builds a set holding `info_cap` bytes of KDF info.
    fn new(info_cap: usize) -> (b: Self)
        ensures
            b.out@.len() == 0,
    {
        ScanBuffers { out: Vec::with_capacity(SCAN_CHUNK), info: Vec::with_capacity(info_cap) }
    }
}

/// Batch trial-decryption over sealed notes.
///
/// Scans in fixed-size chunks: `Kem::decap_batch` per chunk, then commit
/// compare, then decrypt.
pub struct Scanner<K: Kem, D: Domain> {
    recipient: Recipient<K>,
    buffers: ScanBuffers<K>,
    _domain: PhantomData<D>,
}

impl<K: Kem, D: Domain> Scanner<K, D> {
    /// The recipient this scanner holds.
    pub closed spec fn spec_recipient(&self) -> Recipient<K> {
        self.recipient
    }

    /// No decapsulation out-slot of the scanner holds a shared secret.
    pub closed spec fn holds_no_secret(&self) -> bool {
        self.buffers.out@.len() == 0
    }

    /// Builds a scanner for `recipient`, pre-reserving the KDF-info buffer.
    pub fn new(recipient: Recipient<K>) -> (s: Self)
        requires
            suite_is_usable::<K, D>(),
        ensures
            s.spec_recipient() == recipient,
            s.holds_no_secret(),
    {
        let info_len = INFO_FIXED_LEN + D::DOMAIN_TAG.len() + K::EPK_LEN + recipient.pk_encoded().len();
        Scanner { recipient, buffers: ScanBuffers::new(info_len), _domain: PhantomData }
    }

    /// The recipient this scanner holds, whose public key senders seal to.
    pub fn recipient(&self) -> (r: &Recipient<K>)
        ensures
            *r == self.spec_recipient(),
    {
        &self.recipient
    }

    /// Scans `envelopes` under this scanner's key, binding `aad` into each
    /// AEAD.
    ///
    /// Yields `(index, Result)` per commit match, in input order; a mismatch
    /// is not addressed to this key and is skipped. A match that fails
    /// afterward (AEAD, note decode, `Domain::verify`) yields
    /// `Err(Malformed)`.
    pub fn scan<B: ByteStorage>(&mut self, envelopes: &[&SealedNote<K, B>], aad: &[u8]) -> (results: Vec<
        (usize, Result<D::Note, Malformed>),
    >)
        requires
            suite_is_usable::<K, D>(),
        ensures
            final(self).spec_recipient() == old(self).spec_recipient(),
            old(self).holds_no_secret() || envelopes@.len() > 0 ==> final(self).holds_no_secret(),
            exists|shareds: Seq<Option<Seq<u8>>>|
                shareds.len() == envelopes@.len() && (forall|i: int|
                    0 <= i < shareds.len() ==> decapsulates_to::<K>(
                        &old(self).spec_recipient().spec_secret_key(),
                        envelopes@[i].view(),
                        #[trigger] shareds[i],
                    )) && reports_scan::<K, D>(
                    results@,
                    old(self).spec_recipient().spec_pk_encoded(),
                    aad,
                    shareds,
                    Seq::new(envelopes@.len(), |i: int| envelopes@[i].view()),
                ),
    {
        scan_all::<K, D, B>(
            self.recipient.secret_key(),
            self.recipient.pk_encoded(),
            aad,
            envelopes,
            &mut self.buffers,
        )
    }
}

/// Scans `envelopes` for `recipient` the way [`Scanner::scan`] does, with
/// working memory of its own: the unit of work a parallel scan hands to one
/// task. Indices are positions in `envelopes`.
pub fn scan_for<K: Kem, D: Domain, B: ByteStorage>(
    recipient: &Recipient<K>,
    envelopes: &[&SealedNote<K, B>],
    aad: &[u8],
) -> (results: Vec<(usize, Result<D::Note, Malformed>)>)
    requires
        suite_is_usable::<K, D>(),
    ensures
        exists|shareds: Seq<Option<Seq<u8>>>|
            shareds.len() == envelopes@.len() && (forall|i: int|
                0 <= i < shareds.len() ==> decapsulates_to::<K>(
                    &recipient.spec_secret_key(),
                    envelopes@[i].view(),
                    #[trigger] shareds[i],
                )) && reports_scan::<K, D>(
                results@,
                recipient.spec_pk_encoded(),
                aad,
                shareds,
                Seq::new(envelopes@.len(), |i: int| envelopes@[i].view()),
            ),
{
    let pk_r = recipient.pk_encoded();
    let info_len = INFO_FIXED_LEN + D::DOMAIN_TAG.len() + K::EPK_LEN + pk_r.len();
    let mut buffers = ScanBuffers::<K>::new(info_len);
    scan_all::<K, D, B>(recipient.secret_key(), pk_r, aad, envelopes, &mut buffers)
}

/// `found` with every index moved up by `offset`.
pub open spec fn rebased<N>(found: Seq<(usize, N)>, offset: usize) -> Seq<(usize, N)> {
    Seq::new(found.len(), |k: int| ((offset + found[k].0) as usize, found[k].1))
}

/// Appends the report of a scan over a part of a larger input, which
/// starts at position `offset` of it, to `results`, moving each index from
/// a position in the part to the same envelope's position in the whole.
pub fn append_rebased<N>(
    results: &mut Vec<(usize, N)>,
    found: Vec<(usize, N)>,
    offset: usize,
)
    requires
        forall|k: int| 0 <= k < found@.len() ==> offset + #[trigger] found@[k].0 <= usize::MAX,
    ensures
        final(results)@ == old(results)@ + rebased(found@, offset),
{
    let mut rest = found;
    let total = rest.len();
    let ghost all = rest@;
    let ghost start = results@;
    let mut done: usize = 0;
    while rest.len() > 0
        invariant
            done + rest@.len() == all.len(),
            all.len() == total,
            rest@ == all.subrange(done as int, all.len() as int),
            results@ == start + rebased(all.subrange(0, done as int), offset),
            forall|k: int| 0 <= k < all.len() ==> offset + #[trigger] all[k].0 <= usize::MAX,
        decreases rest@.len(),
    {
        let (index, outcome) = rest.remove(0);
        proof {
            assert(all[done as int] == (index, outcome));
        }
        results.push((offset + index, outcome));
        proof {
            assert(rebased(all.subrange(0, done + 1), offset) =~= rebased(all.subrange(0, done as int), offset).push(
                ((offset + index) as usize, outcome),
            ));
            assert(rest@ =~= all.subrange(done + 1, all.len() as int));
        }
        done = done + 1;
    }
    proof {
        assert(all.subrange(0, done as int) =~= all);
    }
}

/// The matched indices of two consecutive runs of outcomes are those of the
/// first run followed by those of the second, moved up by the first run's
/// length.
proof fn lemma_hit_indices_concat(a: Seq<Option<Option<Seq<u8>>>>, b: Seq<Option<Option<Seq<u8>>>>)
    ensures
        hit_indices(a + b) == hit_indices(a) + hit_indices(b).map_values(|x: int| x + a.len()),
    decreases b.len(),
{
    if b.len() == 0 {
        assert(a + b =~= a);
        assert(hit_indices(b).map_values(|x: int| x + a.len()) =~= Seq::<int>::empty());
        assert(hit_indices(a) + Seq::<int>::empty() =~= hit_indices(a));
    } else {
        lemma_hit_indices_concat(a, b.drop_last());
        assert((a + b).drop_last() =~= a + b.drop_last());
        assert((a + b).last() == b.last());
        let shifted_prev = hit_indices(b.drop_last()).map_values(|x: int| x + a.len());
        if b.last() is Some {
            assert(hit_indices(b).map_values(|x: int| x + a.len()) =~= shifted_prev.push(
                b.len() - 1 + a.len(),
            ));
            assert(hit_indices(a) + shifted_prev.push(b.len() - 1 + a.len()) =~= (hit_indices(a)
                + shifted_prev).push(b.len() - 1 + a.len()));
        } else {
            assert(hit_indices(b).map_values(|x: int| x + a.len()) =~= shifted_prev);
        }
    }
}

/// Scanning an input in two consecutive parts and joining the reports,
/// with the second part's indices moved up by the first part's length,
/// reports the whole input as one scan of it does.
pub proof fn lemma_reports_concat<K: Kem, D: Domain>(
    r1: Seq<(usize, Result<D::Note, Malformed>)>,
    r2: Seq<(usize, Result<D::Note, Malformed>)>,
    pk_r: Seq<u8>,
    aad: &[u8],
    sh1: Seq<Option<Seq<u8>>>,
    sh2: Seq<Option<Seq<u8>>>,
    envs1: Seq<Seq<u8>>,
    envs2: Seq<Seq<u8>>,
)
    requires
        sh1.len() == envs1.len(),
        sh2.len() == envs2.len(),
        envs1.len() + envs2.len() <= usize::MAX,
        reports_scan::<K, D>(r1, pk_r, aad, sh1, envs1),
        reports_scan::<K, D>(r2, pk_r, aad, sh2, envs2),
    ensures
        reports_scan::<K, D>(
            r1 + rebased(r2, envs1.len() as usize),
            pk_r,
            aad,
            sh1 + sh2,
            envs1 + envs2,
        ),
{
    let tag = D::DOMAIN_TAG.spec_bytes();
    let o1 = scan_outcomes::<K>(tag, pk_r, aad@, sh1, envs1);
    let o2 = scan_outcomes::<K>(tag, pk_r, aad@, sh2, envs2);
    let o = scan_outcomes::<K>(tag, pk_r, aad@, sh1 + sh2, envs1 + envs2);
    assert(o =~= o1 + o2);
    lemma_hit_indices_concat(o1, o2);
    lemma_hit_indices_bounded(o1);
    lemma_hit_indices_bounded(o2);
    let r = r1 + rebased(r2, envs1.len() as usize);
    let shifted = hit_indices(o2).map_values(|x: int| x + o1.len());
    assert forall|k: int| 0 <= k < r.len() implies {
        &&& #[trigger] r[k].0 == hit_indices(o)[k]
        &&& opens_to::<K, D>(pk_r, (envs1 + envs2)[r[k].0 as int], aad, (sh1 + sh2)[r[k].0 as int], opened(r[k].1))
    } by {
        if k < r1.len() {
            let idx = r1[k].0 as int;
            assert(hit_indices(o1)[k] == idx);
            assert((envs1 + envs2)[idx] == envs1[idx]);
            assert((sh1 + sh2)[idx] == sh1[idx]);
        } else {
            let k2 = k - r1.len();
            let idx2 = r2[k2].0 as int;
            assert(hit_indices(o2)[k2] == idx2);
            assert(r[k] == rebased(r2, envs1.len() as usize)[k2]);
            assert(r[k].0 == envs1.len() + idx2);
            assert(shifted[k2] == idx2 + o1.len());
            assert((envs1 + envs2)[envs1.len() + idx2] == envs2[idx2]);
            assert((sh1 + sh2)[envs1.len() + idx2] == sh2[idx2]);
        }
    }
}

/// The number of envelopes in all of `parts`, each part given as its
/// envelope count and its report.
pub open spec fn part_lens<N>(parts: Seq<(usize, Vec<(usize, N)>)>) -> nat
    decreases parts.len(),
{
    if parts.len() == 0 {
        0
    } else {
        part_lens(parts.drop_last()) + parts.last().0 as nat
    }
}

/// The reports of consecutive parts of an input that starts at position
/// `base`, joined in order, each part's indices moved up by the position
/// where the part starts.
pub open spec fn joined<N>(parts: Seq<(usize, Vec<(usize, N)>)>, base: nat) -> Seq<(usize, N)>
    decreases parts.len(),
{
    if parts.len() == 0 {
        Seq::empty()
    } else {
        joined(parts.drop_last(), base) + rebased(
            parts.last().1@,
            (base + part_lens(parts.drop_last())) as usize,
        )
    }
}

/// A prefix of the parts holds no more envelopes than all of them.
proof fn lemma_part_lens_prefix<N>(parts: Seq<(usize, Vec<(usize, N)>)>, n: int)
    requires
        0 <= n <= parts.len(),
    ensures
        part_lens(parts.subrange(0, n)) <= part_lens(parts),
    decreases parts.len(),
{
    if n < parts.len() {
        assert(parts.drop_last() =~= parts.subrange(0, parts.len() - 1));
        lemma_part_lens_prefix(parts.drop_last(), n);
        assert(parts.drop_last().subrange(0, n) =~= parts.subrange(0, n));
    } else {
        assert(parts.subrange(0, n) =~= parts);
    }
}

/// Appends the reports of consecutive parts of an input, which starts at
/// position `base` of the whole, to `results`, moving each part's indices
/// to the same envelopes' positions in the whole.
pub fn append_parts<N>(results: &mut Vec<(usize, N)>, parts: Vec<(usize, Vec<(usize, N)>)>, base: usize)
    requires
        base + part_lens(parts@) <= usize::MAX,
        forall|p: int, k: int|
            0 <= p < parts@.len() && 0 <= k < parts@[p].1@.len() ==> #[trigger] parts@[p].1@[k].0
                < parts@[p].0,
    ensures
        final(results)@ == old(results)@ + joined(parts@, base as nat),
{
    let mut rest = parts;
    let total = rest.len();
    let ghost all = rest@;
    let ghost start = results@;
    let mut done: usize = 0;
    let mut offset: usize = base;
    proof {
        assert(all.subrange(0, 0) =~= Seq::<(usize, Vec<(usize, N)>)>::empty());
        assert(start + joined(all.subrange(0, 0), base as nat) =~= start);
    }
    while rest.len() > 0
        invariant
            done + rest@.len() == all.len(),
            all.len() == total,
            rest@ == all.subrange(done as int, all.len() as int),
            base + part_lens(all) <= usize::MAX,
            offset == base + part_lens(all.subrange(0, done as int)),
            results@ == start + joined(all.subrange(0, done as int), base as nat),
            forall|p: int, k: int|
                0 <= p < all.len() && 0 <= k < all[p].1@.len() ==> #[trigger] all[p].1@[k].0 < all[p].0,
        decreases rest@.len(),
    {
        let (count, found) = rest.remove(0);
        proof {
            assert(all[done as int] == (count, found));
            lemma_part_lens_prefix(all, done + 1);
            let prefix = all.subrange(0, done + 1);
            assert(prefix.drop_last() =~= all.subrange(0, done as int));
            assert(prefix.last() == (count, found));
            assert forall|k: int| 0 <= k < found@.len() implies offset + #[trigger] found@[k].0 <= usize::MAX by {
                assert(all[done as int].1@[k].0 < all[done as int].0);
            }
        }
        append_rebased(results, found, offset);
        proof {
            let prefix = all.subrange(0, done + 1);
            assert(prefix.drop_last() =~= all.subrange(0, done as int));
            assert(results@ =~= start + joined(prefix, base as nat));
            assert(rest@ =~= all.subrange(done + 1, all.len() as int));
        }
        offset = offset + count;
        done = done + 1;
    }
    proof {
        assert(all.subrange(0, done as int) =~= all);
    }
}

/// Scans `envelopes` chunk by chunk with the given working memory.
fn scan_all<K: Kem, D: Domain, B: ByteStorage>(
    sk: &K::SecretKey,
    pk_r: &[u8],
    aad: &[u8],
    envelopes: &[&SealedNote<K, B>],
    buffers: &mut ScanBuffers<K>,
) -> (results: Vec<(usize, Result<D::Note, Malformed>)>)
    requires
        suite_is_usable::<K, D>(),
        pk_r@.len() == K::EPK_LEN,
    ensures
        old(buffers).out@.len() == 0 || envelopes@.len() > 0 ==> final(buffers).out@.len() == 0,
        exists|shareds: Seq<Option<Seq<u8>>>|
            shareds.len() == envelopes@.len() && (forall|i: int|
                0 <= i < shareds.len() ==> decapsulates_to::<K>(
                    sk,
                    envelopes@[i].view(),
                    #[trigger] shareds[i],
                )) && reports_scan::<K, D>(
                results@,
                pk_r@,
                aad,
                shareds,
                Seq::new(envelopes@.len(), |i: int| envelopes@[i].view()),
            ),
{
    let ghost envs = Seq::new(envelopes@.len(), |i: int| envelopes@[i].view());
    let ghost tag = D::DOMAIN_TAG.spec_bytes();
    let mut results: Vec<(usize, Result<D::Note, Malformed>)> = Vec::new();
    let ghost mut shareds: Seq<Option<Seq<u8>>> = Seq::empty();
    let n = envelopes.len();
    let mut start: usize = 0;
    loop
        invariant
            suite_is_usable::<K, D>(),
            pk_r@.len() == K::EPK_LEN,
            n == envelopes@.len(),
            start <= n,
            shareds.len() == start,
            envs == Seq::new(envelopes@.len(), |i: int| envelopes@[i].view()),
            tag == D::DOMAIN_TAG.spec_bytes(),
            forall|i: int|
                0 <= i < shareds.len() ==> decapsulates_to::<K>(sk, envs[i], #[trigger] shareds[i]),
            reports_scan::<K, D>(results@, pk_r@, aad, shareds, envs.subrange(0, start as int)),
            start == 0 ==> buffers.out@ == old(buffers).out@,
            start > 0 ==> buffers.out@.len() == 0,
        ensures
            n == 0 ==> buffers.out@ == old(buffers).out@,
            n > 0 ==> buffers.out@.len() == 0,
            shareds.len() == n,
            forall|i: int|
                0 <= i < shareds.len() ==> decapsulates_to::<K>(sk, envs[i], #[trigger] shareds[i]),
            reports_scan::<K, D>(results@, pk_r@, aad, shareds, envs.subrange(0, n as int)),
        decreases n - start,
    {
        let remaining = n - start;
        let chunk_len = if remaining < SCAN_CHUNK {
            remaining
        } else {
            SCAN_CHUNK
        };
        if chunk_len == 0 {
            break;
        }
        let chunk_shareds = scan_chunk::<K, D, B>(
            sk,
            pk_r,
            aad,
            envelopes,
            start,
            chunk_len,
            buffers,
            &mut results,
            Ghost(shareds),
        );
        proof {
            shareds = shareds + chunk_shareds@;
        }
        start = start + chunk_len;
        if chunk_len < SCAN_CHUNK {
            break;
        }
    }
    proof {
        assert(envs.subrange(0, n as int) =~= envs);
    }
    results
}

/// Runs one chunk end to end: batch decapsulate `envelopes[start..start +
/// len]`, trial-decrypt each envelope against the shared secret that came
/// back, then wipe every shared secret the batch produced.
///
/// Pushes an `(index, outcome)` pair onto `hits` for each envelope whose
/// commit matches; returns what decapsulation gave for the chunk, and
/// leaves no out-slot holding a secret.
fn scan_chunk<K: Kem, D: Domain, B: ByteStorage>(
    sk: &K::SecretKey,
    pk_r: &[u8],
    aad: &[u8],
    envelopes: &[&SealedNote<K, B>],
    start: usize,
    len: usize,
    buffers: &mut ScanBuffers<K>,
    hits: &mut Vec<(usize, Result<D::Note, Malformed>)>,
    Ghost(prefix): Ghost<Seq<Option<Seq<u8>>>>,
) -> (chunk: Ghost<Seq<Option<Seq<u8>>>>)
    requires
        suite_is_usable::<K, D>(),
        pk_r@.len() == K::EPK_LEN,
        0 < len <= SCAN_CHUNK,
        start + len <= envelopes@.len(),
        prefix.len() == start,
        reports_scan::<K, D>(
            old(hits)@,
            pk_r@,
            aad,
            prefix,
            Seq::new(envelopes@.len(), |i: int| envelopes@[i].view()).subrange(0, start as int),
        ),
    ensures
        chunk@.len() == len,
        forall|j: int|
            0 <= j < len ==> decapsulates_to::<K>(sk, envelopes@[start + j].view(), #[trigger] chunk@[j]),
        final(buffers).out@.len() == 0,
        final(hits)@.len() >= old(hits)@.len(),
        final(hits)@.subrange(0, old(hits)@.len() as int) == old(hits)@,
        reports_scan::<K, D>(
            final(hits)@,
            pk_r@,
            aad,
            prefix + chunk@,
            Seq::new(envelopes@.len(), |i: int| envelopes@[i].view()).subrange(0, start + len),
        ),
{
    let ghost tag = D::DOMAIN_TAG.spec_bytes();
    let ghost envs = Seq::new(envelopes@.len(), |i: int| envelopes@[i].view());
    let _total = envelopes.len();
    let mut epks: Vec<&[u8]> = Vec::with_capacity(SCAN_CHUNK);
    let mut i: usize = 0;
    while i < len
        invariant
            i <= len,
            start + len <= envelopes@.len() <= usize::MAX,
            epks@.len() == i,
            forall|j: int| 0 <= j < i ==> #[trigger] epks@[j]@.len() == K::EPK_LEN,
            forall|j: int|
                0 <= j < i ==> #[trigger] epks@[j]@ == envelopes@[start + j].view().subrange(
                    HEADER_LEN as int,
                    commit_start(K::EPK_LEN as int),
                ),
        decreases len - i,
    {
        epks.push(envelopes[start + i].epk());
        i = i + 1;
    }
    buffers.out.clear();
    let mut i: usize = 0;
    while i < len
        invariant
            i <= len,
            buffers.out@.len() == i,
        decreases len - i,
    {
        buffers.out.push(None);
        i = i + 1;
    }
    K::decap_batch(sk, &epks, &mut buffers.out);
    let ghost chunk_shareds: Seq<Option<Seq<u8>>> = Seq::new(
        len as nat,
        |j: int| secret_bytes(buffers.out@[j]),
    );
    proof {
        assert forall|j: int| 0 <= j < len implies decapsulates_to::<K>(
            sk,
            envelopes@[start + j].view(),
            #[trigger] chunk_shareds[j],
        ) by {
            assert(call_ensures(K::decap, (sk, epks@[j]), buffers.out@[j]));
        }
    }
    let mut i: usize = 0;
    while i < len
        invariant
            suite_is_usable::<K, D>(),
            pk_r@.len() == K::EPK_LEN,
            i <= len,
            start + len <= envelopes@.len() <= usize::MAX,
            buffers.out@.len() == len,
            tag == D::DOMAIN_TAG.spec_bytes(),
            envs == Seq::new(envelopes@.len(), |i: int| envelopes@[i].view()),
            chunk_shareds.len() == len,
            forall|j: int| 0 <= j < len ==> #[trigger] chunk_shareds[j] == secret_bytes(buffers.out@[j]),
            forall|j: int|
                0 <= j < len ==> decapsulates_to::<K>(
                    sk,
                    envelopes@[start + j].view(),
                    #[trigger] chunk_shareds[j],
                ),
            prefix.len() == start,
            hits@.len() >= old(hits)@.len(),
            hits@.subrange(0, old(hits)@.len() as int) == old(hits)@,
            reports_scan::<K, D>(
                hits@,
                pk_r@,
                aad,
                prefix + chunk_shareds.subrange(0, i as int),
                envs.subrange(0, start + i),
            ),
        decreases len - i,
    {
        let index = start + i;
        let envelope = envelopes[index];
        let ghost before = scan_outcomes::<K>(
            tag,
            pk_r@,
            aad@,
            prefix + chunk_shareds.subrange(0, i as int),
            envs.subrange(0, start + i),
        );
        let ghost next = scan_outcome::<K>(tag, pk_r@, aad@, chunk_shareds[i as int], envs[index as int]);
        let outcome = match &buffers.out[i] {
            Some(shared) => process_envelope::<K, D, B>(
                shared.bytes(),
                pk_r,
                envelope,
                aad,
                &mut buffers.info,
            ),
            None => None,
        };
        proof {
            assert(scan_outcomes::<K>(
                tag,
                pk_r@,
                aad@,
                prefix + chunk_shareds.subrange(0, i + 1),
                envs.subrange(0, start + i + 1),
            ) =~= before.push(next));
            lemma_hit_indices_push(before, next);
            lemma_hit_indices_bounded(before);
            assert(next is Some <==> outcome is Some);
        }
        match outcome {
            Some(o) => {
                hits.push((index, o));
            },
            None => {},
        }
        proof {
            let after = before.push(next);
            let envs_before = envs.subrange(0, start + i);
            let envs_after = envs.subrange(0, start + i + 1);
            let shareds_before = prefix + chunk_shareds.subrange(0, i as int);
            let shareds_after = prefix + chunk_shareds.subrange(0, i + 1);
            assert forall|k: int| 0 <= k < hits@.len() implies {
                &&& #[trigger] hits@[k].0 == hit_indices(after)[k]
                &&& opens_to::<K, D>(
                    pk_r@,
                    envs_after[hits@[k].0 as int],
                    aad,
                    shareds_after[hits@[k].0 as int],
                    opened(hits@[k].1),
                )
            } by {
                if k < hit_indices(before).len() {
                    let idx = hits@[k].0 as int;
                    assert(envs_after[idx] == envs_before[idx]);
                    assert(shareds_after[idx] == shareds_before[idx]);
                } else {
                    assert(envs_after[start + i] == envs[index as int]);
                    assert(shareds_after[start + i] == chunk_shareds[i as int]);
                }
            }
        }
        i = i + 1;
    }
    while buffers.out.len() > 0
        invariant
            hits@.len() >= old(hits)@.len(),
            hits@.subrange(0, old(hits)@.len() as int) == old(hits)@,
        decreases buffers.out@.len(),
    {
        let slot = buffers.out.pop();
        match slot {
            Some(Some(mut shared)) => {
                shared.wipe();
            },
            _ => {},
        }
    }
    proof {
        assert(chunk_shareds.subrange(0, len as int) =~= chunk_shareds);
    }
    Ghost(chunk_shareds)
}

/// Derives the suite v1 key material for `envelope` from `shared`, then
/// decrypts and decodes the note if the commit matches.
///
/// `None` on commit mismatch: not this scanner's note. `Some(Err(Malformed))`
/// when the commit matches but decryption, decoding, or domain verification
/// fails.
fn process_envelope<K: Kem, D: Domain, B: ByteStorage>(
    shared: &[u8],
    pk_r: &[u8],
    envelope: &SealedNote<K, B>,
    aad: &[u8],
    info: &mut Vec<u8>,
) -> (r: Option<Result<D::Note, Malformed>>)
    requires
        suite_is_usable::<K, D>(),
        pk_r@.len() == K::EPK_LEN,
    ensures
        match unsealed_plaintext(
            K::KEM_ID,
            K::EPK_LEN as int,
            D::DOMAIN_TAG.spec_bytes(),
            shared@,
            pk_r@,
            envelope.view(),
            aad@,
        ) {
            None => r is None,
            Some(_) => r matches Some(v) && opens_to::<K, D>(
                pk_r@,
                envelope.view(),
                aad,
                Some(shared@),
                opened(v),
            ),
        },
        final(info)@ == kdf_info(
            VERSION,
            K::KEM_ID,
            D::DOMAIN_TAG.spec_bytes(),
            envelope.view().subrange(HEADER_LEN as int, commit_start(K::EPK_LEN as int)),
            pk_r@,
        ),
{
    let recovered = recover_plaintext(info, shared, D::DOMAIN_TAG, pk_r, envelope, aad);
    let ghost env = envelope.view();
    match recovered {
        None => None,
        Some(Err(e)) => {
            assert(matched_outcome::<D>(None, aad, Err(e)));
            assert(opens_to::<K, D>(pk_r@, env, aad, Some(shared@), opened(Err::<D::Note, Malformed>(Malformed(e)))));
            Some(Err(Malformed(e)))
        },
        Some(Ok(plaintext)) => {
            let ghost recovered_bytes = plaintext@;
            let outcome = decode_and_verify::<D>(plaintext, aad);
            let v = match outcome {
                Ok(note) => Ok(note),
                Err(e) => Err(Malformed(e)),
            };
            proof {
                assert(matched_outcome::<D>(Some(recovered_bytes), aad, outcome));
                assert(opened(v) == crate::seal::found(outcome));
                assert forall|pt: Seq<u8>|
                    #[trigger] sealed_envelope(
                        K::KEM_ID,
                        D::DOMAIN_TAG.spec_bytes(),
                        env.subrange(HEADER_LEN as int, commit_start(K::EPK_LEN as int)),
                        shared@,
                        pk_r@,
                        pt,
                        aad@,
                    ) == Some(env) implies exists|o: Result<D::Note, OpenError>|
                        #[trigger] note_outcome::<D>(pt, aad, o) && opened(v) == crate::seal::found(o) by {
                    assert(note_outcome::<D>(pt, aad, outcome));
                }
                assert(opens_to::<K, D>(pk_r@, env, aad, Some(shared@), opened(v)));
            }
            Some(v)
        },
    }
}

} // verus!
