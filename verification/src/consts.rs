//! Sizes, file names and the obfuscation table shared by the record codecs.

use vstd::prelude::*;

verus! {

/// Number of bytes in the server list obfuscation table.
pub const SERVER_LIST_KEY_LEN: usize = 63;

/// The additive table that obfuscates the body of the server list file.
pub const SERVER_LIST_KEY: [u8; 63] = [
    0xc1, 0xb6, 0xc0, 0xcc, 0xc0, 0xd3, 0xc6, 0xd1, 0xc6, 0xae, 0xbe, 0xcf, 0xc8, 0xa3, 0xc8, 0xad,
    0xc0, 0xdb, 0xbe, 0xf7, 0xc0, 0xbb, 0xc0, 0xa7, 0xc7, 0xd1, 0xbd, 0xba, 0xc5, 0xa9, 0xb8, 0xb3,
    0xc6, 0xae, 0xc0, 0xd4, 0xb4, 0xcf, 0xb4, 0xd9, 0xb8, 0xb8, 0xc7, 0xd1, 0xb1, 0xdb, 0xb7, 0xce,
    0xbe, 0xcf, 0xc8, 0xad, 0xc8, 0xad, 0xc7, 0xd2, 0xc1, 0xd9, 0xa4, 0xbb, 0xa4, 0xbb, 0x00,
];

/// Bytes of one string cell of the server list.
pub const SERVER_LIST_CELL: usize = 64;

/// Bytes of the obfuscated body of the server list: ten worlds of eleven cells.
pub const SERVER_LIST_BODY_SIZE: usize = 7040;

/// Bytes of the whole server list file: the clear key prefix and the body.
pub const SERVER_LIST_SIZE: usize = 7044;

/// Number of worlds in the server list.
pub const SERVER_LIST_WORLDS: usize = 10;

/// Number of channels of a world in the server list.
pub const SERVER_LIST_CHANNELS: usize = 10;

/// Number of cells in the server list: for each world its address and those
/// of its channels.
pub const SERVER_LIST_CELLS: usize = 110;

/// Number of worlds in the server name file.
pub const SERVER_NAME_WORLDS: usize = 11;

/// Bytes of one world name of the server name file.
pub const SERVER_NAME_CELL: usize = 9;

/// Bytes of the names of the server name file.
pub const SERVER_NAME_NAMES_SIZE: usize = 99;

/// Bytes of the whole server name file: eleven names and eleven counts of
/// four bytes.
pub const SERVER_NAME_SIZE: usize = 143;

/// Number of messages in the string table.
pub const STRDEF_MESSAGES_LEN: usize = 2000;

/// Bytes of one message of the string table.
pub const STRDEF_CELL: usize = 128;

/// Bytes of the messages of the string table.
pub const STRDEF_MESSAGES_SIZE: usize = 256000;

/// Bytes of the whole string table file: the messages and a closing number.
pub const STRDEF_SIZE: usize = 256004;

/// The name of the server list file in the client folder.
pub const SERVER_LIST_FILE: &'static str = "serverlist.bin";

/// The name of the server name file in the client folder.
pub const SERVER_NAME_FILE: &'static str = "server_name.bin";

/// The name of the string table file in a language folder.
pub const STRDEF_FILE: &'static str = "strdef.bin";

} // verus!
