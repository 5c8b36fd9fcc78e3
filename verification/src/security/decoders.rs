//! Removing the obfuscation from the body of a server list.

use vstd::prelude::*;
use crate::consts::{SERVER_LIST_KEY, SERVER_LIST_BODY_SIZE};

verus! {

/// The table byte that obfuscates offset `k` of a cell, for `1 <= k < 64`.
pub open spec fn key_at(k: int) -> int {
    SERVER_LIST_KEY@[63 - k] as int
}

/// Whether the byte at body offset `p` is obfuscated: every byte of the
/// first 7040 but the first of each 64-byte cell.
pub open spec fn is_keyed(p: int) -> bool {
    0 <= p < SERVER_LIST_BODY_SIZE && p % 64 != 0
}

/// The clear value of the byte `b` found at body offset `p`.
pub open spec fn decoded_byte(b: u8, p: int) -> u8 {
    if is_keyed(p) {
        ((b as int - key_at(p % 64)) % 256) as u8
    } else {
        b
    }
}

/// The clear form of an obfuscated body.
pub open spec fn decoded(body: Seq<u8>) -> Seq<u8> {
    Seq::new(body.len(), |p: int| decoded_byte(body[p], p))
}

/// The clear form of a whole server list file: its first four bytes, the
/// key prefix, are kept, and what follows is decoded as a body.
pub open spec fn decoded_file(file: Seq<u8>) -> Seq<u8> {
    if file.len() < 4 {
        file
    } else {
        file.subrange(0, 4) + decoded(file.subrange(4, file.len() as int))
    }
}

/// The clear form of a server name file: its first byte less 100, modulo 256.
pub open spec fn name_decoded(file: Seq<u8>) -> Seq<u8> {
    if file.len() == 0 {
        file
    } else {
        file.update(0, ((file[0] as int - 100) % 256) as u8)
    }
}

/// Removes the obfuscation from `buf`, the bytes of a server list that
/// follow its four-byte key. Returns `false`, leaving `buf` as it is, when
/// `buf` is shorter than a body.
pub fn server_list(buf: &mut [u8]) -> (ok: bool)
    ensures
        ok == (old(buf)@.len() >= SERVER_LIST_BODY_SIZE),
        ok ==> final(buf)@ == decoded(old(buf)@),
        !ok ==> final(buf)@ == old(buf)@,
{
    if buf.len() < SERVER_LIST_BODY_SIZE {
        return false;
    }
    let mut p: usize = 0;
    while p < SERVER_LIST_BODY_SIZE
        invariant
            p <= SERVER_LIST_BODY_SIZE,
            buf@.len() == old(buf)@.len(),
            buf@.len() >= SERVER_LIST_BODY_SIZE,
            forall|q: int| 0 <= q < p ==> buf@[q] == decoded_byte(old(buf)@[q], q),
            forall|q: int| p <= q < buf@.len() ==> buf@[q] == old(buf)@[q],
        decreases SERVER_LIST_BODY_SIZE - p,
    {
        let k: usize = p % 64;
        if k != 0 {
            let key_value: u8 = SERVER_LIST_KEY[63 - k];
            buf[p] = buf[p].wrapping_sub(key_value);
        }
        p = p + 1;
    }
    true
}

/// Removes the obfuscation from `buf`, the bytes of a server name file: the
/// first byte loses 100, modulo 256. An empty buffer is left as it is.
pub fn server_name(buf: &mut [u8])
    ensures
        final(buf)@ == name_decoded(old(buf)@),
{
    if buf.len() > 0 {
        buf[0] = buf[0].wrapping_sub(100);
    }
}

} // verus!
