//! The packets of the protocol that the library can build or read.

pub mod p101;
pub mod p20d;
