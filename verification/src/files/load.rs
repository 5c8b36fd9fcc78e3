//! Accepting what was read from a record file.

use vstd::prelude::*;
use crate::consts::{SERVER_LIST_SIZE, SERVER_NAME_SIZE, STRDEF_SIZE};

verus! {

/// What is loaded from a file that should hold `size` bytes: the bytes that
/// were read, when there are exactly that many; nothing when the file could
/// not be read or has another length.
pub open spec fn accepted(read: Option<Vec<u8>>, size: nat) -> Option<Seq<u8>> {
    match read {
        Some(bytes) => if bytes@.len() == size {
            Some(bytes@)
        } else {
            None
        },
        None => None,
    }
}

/// The contents of an optional byte vector.
pub open spec fn content(bytes: Option<Vec<u8>>) -> Option<Seq<u8>> {
    match bytes {
        Some(b) => Some(b@),
        None => None,
    }
}

/// Accepts what was read from a file that should hold `size` bytes: `read`
/// is the whole content of the file, or nothing when it could not be read.
pub fn load(read: Option<Vec<u8>>, size: usize) -> (bytes: Option<Vec<u8>>)
    ensures
        content(bytes) == accepted(read, size as nat),
{
    match read {
        Some(found) => {
            if found.len() == size {
                Some(found)
            } else {
                None
            }
        },
        None => None,
    }
}

/// Accepts what was read from the server list file: 7044 bytes.
pub fn server_list(read: Option<Vec<u8>>) -> (bytes: Option<Vec<u8>>)
    ensures
        content(bytes) == accepted(read, SERVER_LIST_SIZE as nat),
{
    load(read, SERVER_LIST_SIZE)
}

/// Accepts what was read from the server name file: 143 bytes.
pub fn server_name(read: Option<Vec<u8>>) -> (bytes: Option<Vec<u8>>)
    ensures
        content(bytes) == accepted(read, SERVER_NAME_SIZE as nat),
{
    load(read, SERVER_NAME_SIZE)
}

/// Accepts what was read from the string table file: 256004 bytes.
pub fn strdef(read: Option<Vec<u8>>) -> (bytes: Option<Vec<u8>>)
    ensures
        content(bytes) == accepted(read, STRDEF_SIZE as nat),
{
    load(read, STRDEF_SIZE)
}

} // verus!
