//! MAYO-2 parameters and constants.

use vstd::prelude::*;

verus! {

/// Total number of variables in the MQ system.
pub const N: usize = 81;

/// Number of equations / output dimension of the public map.
pub const M: usize = 64;

/// "Oil" dimension.
pub const O: usize = 17;

/// "Vinegar" dimension = N - O.
pub const V: usize = N - O;

/// Whipping factor = number of signature blocks.
pub const K: usize = 4;

/// Salt length of a signature.
pub const SALT_BYTES: usize = 24;

/// Public-key seed length.
pub const PK_SEED_BYTES: usize = 16;

/// Packed signature scalar block: K*N nibbles = 162 bytes for MAYO-2.
pub const S_BYTES: usize = (K * N) / 2;

/// MAYO-2 signature size in bytes: (k*n)/2 + salt = 162 + 24 = 186.
pub const SIG_BYTES: usize = S_BYTES + SALT_BYTES;

/// Number of bytes per packed m-vector (32 = M/2).
pub const M_VEC_BYTES: usize = M / 2;

/// P^(1) is upper-triangular over [V] x [V]. Number of entries.
pub const P1_ENTRIES: usize = V * (V + 1) / 2;

/// P^(2) is rectangular over [V] x [O]. Number of entries.
pub const P2_ENTRIES: usize = V * O;

/// P^(3) is upper-triangular over [O] x [O]. Number of entries.
pub const P3_ENTRIES: usize = O * (O + 1) / 2;

/// Bytes of P^(1).
#[verifier::nonlinear]
pub const P1_BYTES: usize = P1_ENTRIES * M_VEC_BYTES;

/// Bytes of P^(2).
#[verifier::nonlinear]
pub const P2_BYTES: usize = P2_ENTRIES * M_VEC_BYTES;

/// Bytes of P^(3).
#[verifier::nonlinear]
pub const P3_BYTES: usize = P3_ENTRIES * M_VEC_BYTES;

/// MAYO-2 compact public key size in bytes: 16 + P3_BYTES = 4912.
pub const CPK_BYTES: usize = PK_SEED_BYTES + P3_BYTES;

/// Total size of expanded public key (P^(1) ‖ P^(2) ‖ P^(3)) in bytes.
pub const EXPANDED_PK_BYTES: usize = P1_BYTES + P2_BYTES + P3_BYTES;

} // verus!
