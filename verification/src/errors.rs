//! The kinds of failure that the library reports.

use vstd::prelude::*;

verus! {

/// A kind of failure. None of them ends the process: each is reported to the
/// caller or kept with the connection that it ended.
#[derive(Debug, Clone, Copy, PartialEq, Eq, Structural)]
pub enum ErrorKind {
    /// A socket could not be bound, accepted, dialled or read. It ends the
    /// connection it happened on and no other.
    IoTransient,
    /// The remote peer did not answer the dial in time.
    IoTimeout,
    /// A frame declares a size smaller than a header. The framing pass
    /// stops there and the connection goes on.
    FrameMalformed,
    /// A record file does not have the length of its layout. Nothing is
    /// loaded from it.
    RecordSize,
}

} // verus!
