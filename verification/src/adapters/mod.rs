//! `Kem` adapters for concrete curves.

pub mod grumpkin;
