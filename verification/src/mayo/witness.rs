//! Byte-level preparation of the MAYO-2 verifier witness: the little-endian
//! word layout used for digests, salt and public commitments, and the
//! unpacking of a signature into its nibble lanes and salt.

use vstd::arithmetic::power::{lemma_pow0, lemma_pow1, pow};
use vstd::prelude::*;

use crate::mayo::params::{K, N, SALT_BYTES, SIG_BYTES, S_BYTES};

verus! {

/// Value of `b` read as a little-endian unsigned integer.
pub open spec fn le_value(b: Seq<u8>) -> nat
    decreases b.len(),
{
    if b.len() == 0 {
        0
    } else {
        (b[0] as nat) + 256 * le_value(b.drop_first())
    }
}

/// The `i`-th 8-byte little-endian word of `bytes`.
pub open spec fn le_word(bytes: Seq<u8>, i: int) -> nat {
    le_value(bytes.subrange(8 * i, 8 * i + 8))
}

proof fn lemma_pow256_step(k: nat)
    ensures
        pow(256, k + 1) == 256 * pow(256, k),
{
    vstd::arithmetic::power::lemma_pow_adds(256, k, 1);
    lemma_pow1(256);
}

proof fn lemma_pow256_8()
    ensures
        pow(256, 8) == 0x1_0000_0000_0000_0000,
{
    reveal_with_fuel(pow, 9);
}

/// Reads the 8 bytes at `bytes[start..start + 8]` as a little-endian word.
fn read_le_word(bytes: &[u8], start: usize) -> (w: u64)
    requires
        start + 8 <= bytes@.len(),
    ensures
        w == le_value(bytes@.subrange(start as int, start + 8)),
{
    let _len = bytes.len();
    let mut w: u64 = 0;
    let mut j: usize = 8;
    proof {
        lemma_pow256_8();
        lemma_pow0(256);
        assert(bytes@.subrange(start + 8, start + 8) =~= Seq::<u8>::empty());
    }
    while j > 0
        invariant
            j <= 8,
            start + 8 <= bytes@.len() <= usize::MAX,
            w == le_value(bytes@.subrange(start + j, start + 8)),
            (w as nat) < pow(256, (8 - j) as nat),
            pow(256, 8) == 0x1_0000_0000_0000_0000,
        decreases j,
    {
        j = j - 1;
        let b = bytes[start + j];
        proof {
            lemma_pow256_step((7 - j) as nat);
            vstd::arithmetic::power::lemma_pow_increases(256, (8 - j) as nat, 8);
            assert(w * 256 + b < 256 * pow(256, (7 - j) as nat)) by (nonlinear_arith)
                requires
                    (w as nat) < pow(256, (7 - j) as nat),
                    b < 256,
            ;
            let s = bytes@.subrange(start + j, start + 8);
            assert(s.drop_first() =~= bytes@.subrange(start + j + 1, start + 8));
        }
        w = w * 256 + b as u64;
    }
    w
}

/// Packs `bytes` little-endian into words, one word per 8 input bytes: the
/// layout the MAYO-2 verifier uses for digests, salt and public commitments.
pub fn le_words(bytes: &[u8]) -> (words: Vec<u64>)
    requires
        bytes@.len() % 8 == 0,
    ensures
        words@.len() == bytes@.len() / 8,
        forall|i: int| 0 <= i < words@.len() ==> #[trigger] words@[i] == le_word(bytes@, i),
{
    let count = bytes.len() / 8;
    let mut words: Vec<u64> = Vec::with_capacity(count);
    let mut i: usize = 0;
    while i < count
        invariant
            count == bytes@.len() / 8,
            bytes@.len() % 8 == 0,
            bytes@.len() <= usize::MAX,
            i <= count,
            words@.len() == i,
            forall|k: int| 0 <= k < i ==> #[trigger] words@[k] == le_word(bytes@, k),
        decreases count - i,
    {
        proof {
            assert(8 * i + 8 <= bytes@.len()) by (nonlinear_arith)
                requires
                    i < count,
                    count == bytes@.len() / 8,
            ;
        }
        let w = read_le_word(bytes, 8 * i);
        words.push(w);
        i = i + 1;
    }
    words
}

/// Nibble `t` of the packed scalar block: low nibble first within each byte.
pub open spec fn sig_nibble(sig: Seq<u8>, t: int) -> u8 {
    if t % 2 == 0 {
        sig[t / 2] % 16
    } else {
        sig[t / 2] / 16
    }
}

/// A signature split into its `K` scalar columns of `N` nibbles each and its
/// salt.
pub struct UnpackedSignature {
    pub lanes: Vec<Vec<u8>>,
    pub salt: Vec<u8>,
}

/// `u` is the unpacking of `sig`: `K` columns of `N` nibbles taken in order
/// from the nibble stream of `sig[..S_BYTES]`, and the salt
/// `sig[S_BYTES..]`.
pub open spec fn unpacks_to(sig: Seq<u8>, u: UnpackedSignature) -> bool {
    &&& u.lanes@.len() == K
    &&& forall|col: int| 0 <= col < K ==> #[trigger] u.lanes@[col]@.len() == N
    &&& forall|col: int, j: int|
        0 <= col < K && 0 <= j < N ==> #[trigger] u.lanes@[col]@[j] == sig_nibble(sig, col * N + j)
    &&& u.salt@ == sig.subrange(S_BYTES as int, SIG_BYTES as int)
    &&& u.salt@.len() == SALT_BYTES
}

/// Nibble `t` of the stream, read from the columns of an unpacking.
pub open spec fn lane_nibble(u: UnpackedSignature, t: int) -> u8 {
    u.lanes@[t / (N as int)]@[t % (N as int)]
}

/// Unpacking loses no bit of the packed block: the two nibbles taken from
/// byte `i` are each below 16, and the first plus 16 times the second is
/// that byte.
pub proof fn lemma_unpacked_nibbles_recombine(sig: Seq<u8>, u: UnpackedSignature, i: int)
    requires
        sig.len() == SIG_BYTES,
        unpacks_to(sig, u),
        0 <= i < S_BYTES,
    ensures
        lane_nibble(u, 2 * i) < 16,
        lane_nibble(u, 2 * i + 1) < 16,
        lane_nibble(u, 2 * i) + 16 * lane_nibble(u, 2 * i + 1) == sig[i],
{
    let n = N as int;
    assert forall|t: int| 0 <= t < 2 * S_BYTES implies lane_nibble(u, t) == sig_nibble(sig, t) by {
        vstd::arithmetic::div_mod::lemma_fundamental_div_mod(t, n);
        assert(0 <= t / n < K as int) by (nonlinear_arith)
            requires
                0 <= t < 2 * S_BYTES,
                n == N,
                t == n * (t / n) + t % n,
                0 <= t % n < n,
        ;
        assert(u.lanes@[t / n]@[t % n] == sig_nibble(sig, (t / n) * n + t % n));
        assert((t / n) * n + t % n == t) by (nonlinear_arith)
            requires
                t == n * (t / n) + t % n,
        ;
    }
    assert((2 * i) / 2 == i);
    assert((2 * i + 1) / 2 == i);
    let b = sig[i];
    assert(b % 16 + 16 * (b / 16) == b);
}

/// Splits a MAYO-2 signature: `sig[..S_BYTES]` holds `K * N` nibbles packed
/// two per byte (low then high); with `N` odd, column boundaries fall
/// mid-byte, so the nibble stream is unpacked first and then cut into `K`
/// columns of `N`. `sig[S_BYTES..]` is the salt.
pub fn unpack_signature(sig: &[u8; SIG_BYTES]) -> (u: UnpackedSignature)
    ensures
        unpacks_to(sig@, u),
{
    let mut nibbles: Vec<u8> = Vec::with_capacity(K * N);
    let mut i: usize = 0;
    while i < S_BYTES
        invariant
            i <= S_BYTES,
            nibbles@.len() == 2 * i,
            forall|t: int| 0 <= t < 2 * i ==> #[trigger] nibbles@[t] == sig_nibble(sig@, t),
        decreases S_BYTES - i,
    {
        let byte = sig[i];
        let low = byte & 0x0F;
        let high = (byte >> 4) & 0x0F;
        assert(low == byte % 16 && high == byte / 16) by (bit_vector)
            requires
                low == byte & 0x0F,
                high == (byte >> 4) & 0x0F,
        ;
        nibbles.push(low);
        nibbles.push(high);
        proof {
            assert forall|t: int| 0 <= t < 2 * (i + 1) implies #[trigger] nibbles@[t] == sig_nibble(
                sig@,
                t,
            ) by {
                if t == 2 * i || t == 2 * i + 1 {
                    assert(t / 2 == i);
                }
            }
        }
        i = i + 1;
    }
    let mut lanes: Vec<Vec<u8>> = Vec::with_capacity(K);
    let mut col: usize = 0;
    while col < K
        invariant
            col <= K,
            nibbles@.len() == K * N,
            forall|t: int| 0 <= t < K * N ==> #[trigger] nibbles@[t] == sig_nibble(sig@, t),
            lanes@.len() == col,
            forall|c: int| 0 <= c < col ==> #[trigger] lanes@[c]@.len() == N,
            forall|c: int, j: int|
                0 <= c < col && 0 <= j < N ==> #[trigger] lanes@[c]@[j] == sig_nibble(
                    sig@,
                    c * N + j,
                ),
        decreases K - col,
    {
        let mut lane: Vec<u8> = Vec::with_capacity(N);
        let mut j: usize = 0;
        while j < N
            invariant
                col < K,
                j <= N,
                nibbles@.len() == K * N,
                forall|t: int| 0 <= t < K * N ==> #[trigger] nibbles@[t] == sig_nibble(sig@, t),
                lane@.len() == j,
                forall|k: int| 0 <= k < j ==> #[trigger] lane@[k] == sig_nibble(sig@, col * N + k),
            decreases N - j,
        {
            proof {
                assert(col * N + j < K * N) by (nonlinear_arith)
                    requires
                        col < K,
                        j < N,
                ;
            }
            lane.push(nibbles[col * N + j]);
            j = j + 1;
        }
        lanes.push(lane);
        col = col + 1;
    }
    let mut salt: Vec<u8> = Vec::with_capacity(SALT_BYTES);
    salt.extend_from_slice(&sig.as_slice()[S_BYTES..SIG_BYTES]);
    let u = UnpackedSignature { lanes, salt };
    proof {
        assert(u.salt@ =~= sig@.subrange(S_BYTES as int, SIG_BYTES as int));
        assert(u.salt@.len() == SALT_BYTES);
        assert(u.lanes@.len() == K);
    }
    u
}

} // verus!
