//! Page codes for multi-page documents: a short fingerprint of a set of
//! byte buffers, joined with (set id, page) metadata into a small payload
//! that is handed to a QR code encoder.

pub mod digest;
pub mod error;
pub mod framing;
pub mod meta;
pub mod payload;
pub mod series;

pub use digest::{fingerprint_contents, gen_hash, Fingerprint, HASH_SIZE};
pub use error::Error;
pub use framing::collapse_contents;
pub use meta::{Meta, MetaIter};
pub use payload::{build_payload, MAX_PAYLOAD};
pub use series::{encode_payload, encoding_outcome, mul_qr, EcStrength, QrPage, QrSeries, PAGE_STRENGTH};
