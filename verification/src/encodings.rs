//! The bridge between the legacy single-byte encoding of the files and the
//! wire, Windows-1252, and the text that a program works with.

use vstd::prelude::*;
use encoding_rs::WINDOWS_1252;

verus! {

/// The most bytes of text that are handed to the converter at once.
pub const TEXT_LIMIT: usize = 0x0fff_ffff;

/// The text that the converter decodes bytes to.
pub uninterp spec fn windows_1252_decoded(bytes: Seq<u8>) -> Seq<char>;

/// The bytes that the converter encodes text to.
pub uninterp spec fn windows_1252_encoded(text: Seq<char>) -> Seq<u8>;

/// A text without the white space at its two ends.
pub uninterp spec fn trimmed(text: Seq<char>) -> Seq<char>;

/// The texts of a list of strings.
pub open spec fn texts(strings: Seq<String>) -> Seq<Seq<char>> {
    strings.map_values(|s: String| s@)
}

/// `encoding_rs::Encoding::decode_without_bom_handling` on
/// `encoding_rs::WINDOWS_1252`: the text that the bytes decode to, each byte
/// read in that encoding, whatever the bytes open with. The result depends
/// on the bytes alone. The call computes the size of its buffer from the
/// length of the input, which the limit keeps far from overflow.
#[verifier::external_body]
pub(crate) fn decode(bytes: &[u8]) -> (text: String)
    requires
        bytes@.len() <= TEXT_LIMIT,
    ensures
        text@ == windows_1252_decoded(bytes@),
{
    WINDOWS_1252.decode_without_bom_handling(bytes).0.into_owned()
}

/// `encoding_rs::Encoding::encode` on `encoding_rs::WINDOWS_1252`: the bytes
/// that the text encodes to. The result depends on the text alone. The call
/// computes the size of its buffer from the length of the input, which the
/// limit keeps far from overflow.
#[verifier::external_body]
pub(crate) fn encode(text: &str) -> (bytes: Vec<u8>)
    requires
        text.len() <= TEXT_LIMIT,
    ensures
        bytes@ == windows_1252_encoded(text@),
{
    WINDOWS_1252.encode(text).0.into_owned()
}

/// `str::trim`: the text without its leading and trailing white space.
pub assume_specification[ str::trim ](text: &str) -> (inner: &str)
    ensures
        inner@ == trimmed(text@),
;

/// The text of bytes in the legacy encoding, without the white space at its
/// two ends.
pub fn windows1252_to_utf8(buf: &[u8]) -> (text: String)
    requires
        buf@.len() <= TEXT_LIMIT,
    ensures
        text@ == trimmed(windows_1252_decoded(buf@)),
{
    let decoded: String = decode(buf);
    decoded.as_str().trim().to_owned()
}

/// The bytes of a text in the legacy encoding.
pub fn utf8_to_windows1252(string: &str) -> (bytes: Vec<u8>)
    requires
        string.len() <= TEXT_LIMIT,
    ensures
        bytes@ == windows_1252_encoded(string@),
{
    encode(string)
}

} // verus!
