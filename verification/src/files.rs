//! What is decided about a record file before it is read into a record and
//! before it is written: the caller reads and writes, the library says
//! what is accepted and what goes where.

pub mod load;
pub mod save;
