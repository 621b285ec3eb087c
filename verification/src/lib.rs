//! Sortable, type-taggable 128-bit identifiers with a fixed base32 text form.
//!
//! An identifier is 16 bytes, ordered bytewise (big-endian, most significant
//! byte first). It renders as 26 symbols from a fixed 32-symbol alphabet with
//! one separator character, so that the string order of rendered identifiers
//! equals the byte order of the identifiers themselves.

pub mod bigend;
pub mod codec;
pub mod label;
pub mod monotonic;
pub mod oid;
pub mod ordering;
pub mod roundtrip;
mod sys;

pub use codec::{DecodeError, base32_encode, base32_decode};
pub use codec::SHORT_LENGTH;
pub use roundtrip::lemma_round_trip;
pub use ordering::lemma_order_preserved;
pub use oid::{Oid, NoLabel, new_oid};
pub use monotonic::MonotonicGenerator;
pub use label::{render_labeled, short_labeled, parse, lemma_labeled_round_trip};
