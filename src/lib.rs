//! Enclave identifiers: a host fingerprint and a slot number joined by a
//! fixed delimiter, with a generator and a strict parser.
pub mod hex;
pub mod identifier;
pub mod text;

pub use identifier::{enclave_id_from_asset_tag, get_slot_id, host_fingerprint};
