//! Taking a record file into a buffer of its fixed size.

use vstd::prelude::*;
use crate::files::load::content;

verus! {

/// What a buffer of `T` bytes holds of a file: the file, when it was read
/// and has exactly `T` bytes, with `T` as the number of bytes taken; and
/// nothing when the file could not be read or has another length.
pub open spec fn file_taken<const T: usize>(
    found: Option<(usize, [u8; T])>,
    read: Option<Seq<u8>>,
) -> bool {
    match read {
        Some(bytes) => if bytes.len() == T {
            found.is_some() && found.unwrap().0 == T && found.unwrap().1@ == bytes
        } else {
            found.is_none()
        },
        None => found.is_none(),
    }
}

/// Takes a file into a buffer of `T` bytes: `read` is the whole content of
/// the file, or nothing when it could not be read. A file of another length
/// is rejected: it is neither filled up nor cut.
pub fn get_file<const T: usize>(read: Option<Vec<u8>>) -> (found: Option<(usize, [u8; T])>)
    ensures
        file_taken::<T>(found, content(read)),
{
    match read {
        Some(bytes) => {
            if bytes.len() != T {
                return None;
            }
            let buf: [u8; T] = crate::packets::serializer::read_array::<T>(bytes.as_slice(), 0);
            assert(bytes@.subrange(0, T as int) =~= bytes@);
            Some((T, buf))
        },
        None => None,
    }
}

/// Takes the server list file into a buffer of 7044 bytes.
pub fn get_server_list_file(read: Option<Vec<u8>>) -> (found: Option<(usize, [u8; 7044])>)
    ensures
        file_taken::<7044>(found, content(read)),
{
    get_file::<7044>(read)
}

/// Takes the server name file into a buffer of 143 bytes.
pub fn get_server_name_file(read: Option<Vec<u8>>) -> (found: Option<(usize, [u8; 143])>)
    ensures
        file_taken::<143>(found, content(read)),
{
    get_file::<143>(read)
}

} // verus!
