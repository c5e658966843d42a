//! Sealed-note envelopes: seal a note to a recipient public key, open it with
//! the recipient secret key, and trial-decrypt a mixed inbox.

pub mod adapters;
pub mod chain;
pub mod crypto;
pub mod domain;
pub mod envelope;
pub mod error;
pub mod kem;
pub mod mayo;
pub mod recipient;
pub mod scan;
pub mod seal;
pub mod text;

pub use domain::Domain;
pub use envelope::{SealedNote, MAX_CT_LEN};
pub use error::{Malformed, OpenError, ParseError, SealError};
pub use kem::Kem;
pub use recipient::Recipient;
pub use seal::{open, seal};
pub use scan::{Scanner, SCAN_CHUNK};
pub use adapters::grumpkin::Grumpkin;
