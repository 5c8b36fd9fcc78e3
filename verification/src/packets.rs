//! The wire model of the game protocol: the packed header that opens every
//! frame, the packets built on it, and their conversion to and from bytes.

pub mod serializer;
pub mod strings;
pub mod structs;
