//! Codecs, records and session logic for a legacy game client: the on-disk
//! record formats with their obfuscation, the length-prefixed wire framing,
//! and the state of an intercepting proxy session.

pub mod consts;
pub mod encodings;
pub mod errors;
pub mod files;
pub mod get_file;
pub mod numbers;
pub mod packets;
pub mod security;
pub mod structs;
pub mod sniffer;
