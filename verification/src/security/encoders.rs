//! Applying the obfuscation to the body of a server list.

use vstd::prelude::*;
use crate::consts::{SERVER_LIST_KEY, SERVER_LIST_BODY_SIZE};
use crate::security::decoders::{is_keyed, key_at};

verus! {

/// The obfuscated value of the clear byte `b` at body offset `p`.
pub open spec fn encoded_byte(b: u8, p: int) -> u8 {
    if is_keyed(p) {
        ((b as int + key_at(p % 64)) % 256) as u8
    } else {
        b
    }
}

/// The obfuscated form of a clear body.
pub open spec fn encoded(body: Seq<u8>) -> Seq<u8> {
    Seq::new(body.len(), |p: int| encoded_byte(body[p], p))
}

/// The obfuscated form of a whole server list file: its first four bytes,
/// the key prefix, are kept, and what follows is encoded as a body.
pub open spec fn encoded_file(file: Seq<u8>) -> Seq<u8> {
    if file.len() < 4 {
        file
    } else {
        file.subrange(0, 4) + encoded(file.subrange(4, file.len() as int))
    }
}

/// The obfuscated form of a server name file: its first byte plus 100,
/// modulo 256.
pub open spec fn name_encoded(file: Seq<u8>) -> Seq<u8> {
    if file.len() == 0 {
        file
    } else {
        file.update(0, ((file[0] as int + 100) % 256) as u8)
    }
}

/// Applies the obfuscation to `buf`, the bytes of a server list that follow
/// its four-byte key. Returns `false`, leaving `buf` as it is, when `buf` is
/// shorter than a body.
pub fn server_list(buf: &mut [u8]) -> (ok: bool)
    ensures
        ok == (old(buf)@.len() >= SERVER_LIST_BODY_SIZE),
        ok ==> final(buf)@ == encoded(old(buf)@),
        !ok ==> final(buf)@ == old(buf)@,
{
    if buf.len() < SERVER_LIST_BODY_SIZE {
        return false;
    }
    let mut p: usize = 0;
    while p < SERVER_LIST_BODY_SIZE
        invariant
            p <= SERVER_LIST_BODY_SIZE,
            buf@.len() == old(buf)@.len(),
            buf@.len() >= SERVER_LIST_BODY_SIZE,
            forall|q: int| 0 <= q < p ==> buf@[q] == encoded_byte(old(buf)@[q], q),
            forall|q: int| p <= q < buf@.len() ==> buf@[q] == old(buf)@[q],
        decreases SERVER_LIST_BODY_SIZE - p,
    {
        let k: usize = p % 64;
        if k != 0 {
            let key_value: u8 = SERVER_LIST_KEY[63 - k];
            buf[p] = buf[p].wrapping_add(key_value);
        }
        p = p + 1;
    }
    true
}

/// Applies the obfuscation to `buf`, the bytes of a server name file: the
/// first byte gains 100, modulo 256. An empty buffer is left as it is.
pub fn server_name(buf: &mut [u8])
    ensures
        final(buf)@ == name_encoded(old(buf)@),
{
    if buf.len() > 0 {
        buf[0] = buf[0].wrapping_add(100);
    }
}

} // verus!
