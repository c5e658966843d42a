//! MAYO-2 parameters and the byte-level preparation of a MAYO-2 verifier's
//! witness: little-endian word packing and signature unpacking.

pub mod params;

pub mod witness;
