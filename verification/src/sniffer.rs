//! The intercepting proxy: identifiers, captured frames, the frame codec,
//! the life of a connection and the store of a session.

pub mod buffer_view;
pub mod codec;
pub mod last_id;
pub mod packet;
pub mod connection;
pub mod functions;
pub mod state;
