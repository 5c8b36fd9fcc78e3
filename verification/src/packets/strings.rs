//! Text in the fixed byte fields of a packet.

use vstd::prelude::*;
use crate::encodings::{decode, encode, windows_1252_decoded, windows_1252_encoded, TEXT_LIMIT};

verus! {

/// The bytes of `bytes` that are not zero, in their order.
pub open spec fn without_zeros(bytes: Seq<u8>) -> Seq<u8>
    decreases bytes.len(),
{
    if bytes.len() == 0 {
        bytes
    } else if bytes.last() == 0 {
        without_zeros(bytes.drop_last())
    } else {
        without_zeros(bytes.drop_last()).push(bytes.last())
    }
}

/// `bytes` cut or filled up with zeros to the length `len`.
pub open spec fn resized(bytes: Seq<u8>, len: nat) -> Seq<u8> {
    Seq::new(
        len,
        |i: int|
            if i < bytes.len() {
                bytes[i]
            } else {
                0u8
            },
    )
}

/// The field of `len` bytes that holds the encoded text `encoded`: its bytes
/// that are not zero, cut or filled up with zeros to the length of the field.
pub open spec fn fitted(encoded: Seq<u8>, len: nat) -> Seq<u8> {
    resized(without_zeros(encoded), len)
}

/// The text of the bytes of a field, in the legacy encoding. Zero bytes are
/// part of the text.
pub fn bytes_to_str(bytes: &[u8]) -> (text: String)
    requires
        bytes@.len() <= TEXT_LIMIT,
    ensures
        text@ == windows_1252_decoded(bytes@),
{
    decode(bytes)
}

/// What is left of a run of bytes without its zeros has no zero byte and is
/// no longer than the run.
pub proof fn lemma_without_zeros(bytes: Seq<u8>)
    ensures
        without_zeros(bytes).len() <= bytes.len(),
        forall|i: int| 0 <= i < without_zeros(bytes).len() ==> without_zeros(bytes)[i] != 0,
    decreases bytes.len(),
{
    if bytes.len() > 0 {
        lemma_without_zeros(bytes.drop_last());
    }
}

/// The bytes of `encoded` that are not zero, in their order.
pub fn drop_zeros(encoded: &[u8]) -> (clean: Vec<u8>)
    ensures
        clean@ == without_zeros(encoded@),
{
    let mut clean: Vec<u8> = Vec::new();
    let mut i: usize = 0;
    assert(encoded@.take(0) =~= Seq::<u8>::empty());
    while i < encoded.len()
        invariant
            i <= encoded@.len(),
            clean@ == without_zeros(encoded@.take(i as int)),
        decreases encoded@.len() - i,
    {
        assert(encoded@.take(i + 1).drop_last() =~= encoded@.take(i as int));
        if encoded[i] != 0 {
            clean.push(encoded[i]);
        }
        i = i + 1;
    }
    assert(encoded@.take(i as int) =~= encoded@);
    clean
}

/// Fills the field `bytes` with encoded text: the bytes of `encoded` that
/// are not zero, cut or filled up with zeros to the length of the field.
pub fn fill(bytes: &mut [u8], encoded: &[u8])
    ensures
        final(bytes)@ == fitted(encoded@, old(bytes)@.len()),
{
    let clean: Vec<u8> = drop_zeros(encoded);
    let len: usize = bytes.len();
    let mut j: usize = 0;
    while j < len
        invariant
            j <= len,
            len == bytes@.len(),
            len == old(bytes)@.len(),
            forall|k: int| 0 <= k < j ==> bytes@[k] == resized(clean@, len as nat)[k],
        decreases len - j,
    {
        if j < clean.len() {
            bytes[j] = clean[j];
        } else {
            bytes[j] = 0;
        }
        j = j + 1;
    }
    assert(bytes@ =~= fitted(encoded@, len as nat));
}

/// Writes the text `value` into the field `bytes`, in the legacy encoding:
/// zero bytes are dropped, and the rest is cut or filled up with zeros to
/// the length of the field.
pub fn str_to_bytes(bytes: &mut [u8], value: &str)
    requires
        value.len() <= TEXT_LIMIT,
    ensures
        final(bytes)@ == fitted(windows_1252_encoded(value@), old(bytes)@.len()),
{
    let encoded: Vec<u8> = encode(value);
    fill(bytes, encoded.as_slice());
}

} // verus!
