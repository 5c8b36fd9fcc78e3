//! The obfuscation applied to the record files on disk, and the laws that
//! tie removing it to applying it.

use vstd::prelude::*;

pub mod decoders;
pub mod encoders;

verus! {

/// Removing the obfuscation of a server list body and applying it again gives
/// the body back, byte for byte, and so does applying and then removing it.
pub proof fn lemma_server_list_round_trip(body: Seq<u8>)
    ensures
        encoders::encoded(decoders::decoded(body)) == body,
        decoders::decoded(encoders::encoded(body)) == body,
{
    assert forall|p: int| 0 <= p < body.len() implies
        encoders::encoded_byte(decoders::decoded_byte(body[p], p), p) == body[p]
        && decoders::decoded_byte(encoders::encoded_byte(body[p], p), p) == body[p] by {
        lemma_byte_round_trip(body[p], p);
    }
    assert(encoders::encoded(decoders::decoded(body)) =~= body);
    assert(decoders::decoded(encoders::encoded(body)) =~= body);
}

/// Removing the obfuscation of a whole server list file and applying it
/// again gives the file back, bit for bit, and so does applying and then
/// removing it. Neither changes the length.
pub proof fn lemma_server_list_file_round_trip(file: Seq<u8>)
    ensures
        decoders::decoded_file(file).len() == file.len(),
        encoders::encoded_file(file).len() == file.len(),
        encoders::encoded_file(decoders::decoded_file(file)) == file,
        decoders::decoded_file(encoders::encoded_file(file)) == file,
{
    if file.len() >= 4 {
        let head = file.subrange(0, 4);
        let body = file.subrange(4, file.len() as int);
        lemma_server_list_round_trip(body);
        let clear = decoders::decoded_file(file);
        assert(clear == head + decoders::decoded(body));
        assert(clear.subrange(0, 4) =~= head);
        assert(clear.subrange(4, clear.len() as int) =~= decoders::decoded(body));
        assert(encoders::encoded_file(clear) == head + body);
        let hidden = encoders::encoded_file(file);
        assert(hidden == head + encoders::encoded(body));
        assert(hidden.subrange(0, 4) =~= head);
        assert(hidden.subrange(4, hidden.len() as int) =~= encoders::encoded(body));
        assert(decoders::decoded_file(hidden) == head + body);
        assert(head + body =~= file);
    }
}

/// At every offset the two byte transforms undo each other.
pub proof fn lemma_byte_round_trip(b: u8, p: int)
    ensures
        encoders::encoded_byte(decoders::decoded_byte(b, p), p) == b,
        decoders::decoded_byte(encoders::encoded_byte(b, p), p) == b,
{
    if decoders::is_keyed(p) {
        let k = decoders::key_at(p % 64);
        assert(0 <= k < 256);
        assert((((b as int - k) % 256) + k) % 256 == b as int);
        assert((((b as int + k) % 256) - k) % 256 == b as int);
    }
}

/// Byte by byte, what removing the obfuscation does to a whole server list
/// file: the four bytes of the key prefix and the first byte of every cell
/// stay, and every other byte of the body loses the table byte of its place
/// in the cell, modulo 256. Bytes beyond the body stay as well.
pub proof fn lemma_server_list_file_positions(file: Seq<u8>, p: int)
    requires
        0 <= p < file.len(),
    ensures
        p < 4 ==> decoders::decoded_file(file)[p] == file[p],
        p >= 4 && (p - 4) % 64 == 0 ==> decoders::decoded_file(file)[p] == file[p],
        p >= 4 + crate::consts::SERVER_LIST_BODY_SIZE ==> decoders::decoded_file(file)[p] == file[p],
        4 <= p < 4 + crate::consts::SERVER_LIST_BODY_SIZE && (p - 4) % 64 != 0
            ==> decoders::decoded_file(file)[p] as int
                == (file[p] as int - crate::consts::SERVER_LIST_KEY@[63 - (p - 4) % 64] as int) % 256,
{
}

/// Counted from the start of the file the cells lie four bytes further on
/// than counted from the start of the body. The rule of the body, read with
/// the offset in the file in place of the offset in the body, still holds
/// where the shift does not show: in the key prefix, which stays, and at
/// offset 47 of every run of 64 bytes, where the table holds the same byte
/// four places apart.
pub proof fn lemma_server_list_positions_from_file_start(file: Seq<u8>, p: int)
    requires
        file.len() == crate::consts::SERVER_LIST_SIZE,
        0 <= p < file.len(),
        p < 4 || p % 64 == 47,
    ensures
        p < 4 ==> decoders::decoded_file(file)[p] == file[p],
        p >= 4 && p % 64 == 0 ==> decoders::decoded_file(file)[p] == file[p],
        p >= 4 && p % 64 != 0 ==> decoders::decoded_file(file)[p] as int == (file[p] as int
            - crate::consts::SERVER_LIST_KEY@[63 - p % 64] as int) % 256,
{
    lemma_server_list_file_positions(file, p);
    if p >= 4 {
        assert((p - 4) % 64 == 43);
        assert(crate::consts::SERVER_LIST_KEY@[16] == crate::consts::SERVER_LIST_KEY@[20]);
    }
}

/// Removing the obfuscation of a server name file and applying it again gives
/// the file back, and so does applying and then removing it.
pub proof fn lemma_server_name_round_trip(file: Seq<u8>)
    ensures
        encoders::name_encoded(decoders::name_decoded(file)) == file,
        decoders::name_decoded(encoders::name_encoded(file)) == file,
{
    if file.len() > 0 {
        let b = file[0] as int;
        assert((((b - 100) % 256) + 100) % 256 == b);
        assert((((b + 100) % 256) - 100) % 256 == b);
    }
    assert(encoders::name_encoded(decoders::name_decoded(file)) =~= file);
    assert(decoders::name_decoded(encoders::name_encoded(file)) =~= file);
}

/// Removing the obfuscation of a server name file takes 100 from its first
/// byte, modulo 256, and changes no other byte.
pub proof fn lemma_server_name_positions(file: Seq<u8>, p: int)
    requires
        0 <= p < file.len(),
    ensures
        p == 0 ==> decoders::name_decoded(file)[p] as int == (file[p] as int - 100) % 256,
        p != 0 ==> decoders::name_decoded(file)[p] == file[p],
        decoders::name_decoded(file).len() == file.len(),
{
}

} // verus!
