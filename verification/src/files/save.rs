//! Deciding what is written to a record file.

use vstd::prelude::*;
use crate::consts::{
    SERVER_LIST_FILE, SERVER_LIST_SIZE, SERVER_NAME_FILE, SERVER_NAME_SIZE, STRDEF_FILE,
    STRDEF_SIZE,
};

verus! {

/// A file to write: its name within the folder of the record, and its whole
/// content.
#[derive(Debug)]
pub struct FileWrite {
    pub name: &'static str,
    pub bytes: Vec<u8>,
}

/// What is written for `buf` to a file named `name` that holds `size`
/// bytes: `buf` under that name, when it has exactly that length; nothing
/// otherwise.
pub open spec fn written(write: Option<FileWrite>, name: &'static str, buf: Seq<u8>, size: nat) -> bool {
    match write {
        Some(w) => buf.len() == size && w.name@ == name@ && w.bytes@ == buf,
        None => buf.len() != size,
    }
}

/// Decides what is written for the bytes `buf` of a record whose file is
/// named `name` and holds `size` bytes: a record of another length is not
/// written.
pub fn save(name: &'static str, buf: Vec<u8>, size: usize) -> (write: Option<FileWrite>)
    ensures
        written(write, name, buf@, size as nat),
{
    if buf.len() == size {
        Some(FileWrite { name, bytes: buf })
    } else {
        None
    }
}

/// Decides what is written for the bytes of a server list.
pub fn server_list(buf: Vec<u8>) -> (write: Option<FileWrite>)
    ensures
        written(write, SERVER_LIST_FILE, buf@, SERVER_LIST_SIZE as nat),
{
    save(SERVER_LIST_FILE, buf, SERVER_LIST_SIZE)
}

/// Decides what is written for the bytes of the server names.
pub fn server_name(buf: Vec<u8>) -> (write: Option<FileWrite>)
    ensures
        written(write, SERVER_NAME_FILE, buf@, SERVER_NAME_SIZE as nat),
{
    save(SERVER_NAME_FILE, buf, SERVER_NAME_SIZE)
}

/// Decides what is written for the bytes of a string table.
pub fn strdef(buf: Vec<u8>) -> (write: Option<FileWrite>)
    ensures
        written(write, STRDEF_FILE, buf@, STRDEF_SIZE as nat),
{
    save(STRDEF_FILE, buf, STRDEF_SIZE)
}

} // verus!
