//! The packed structures that travel on the wire.

pub mod header;
pub mod packets;
