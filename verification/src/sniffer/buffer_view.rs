//! The bytes of a frame as the texts that the viewer shows.

use vstd::prelude::*;
use crate::encodings::texts;
use crate::sniffer::state::BufferType;

verus! {

/// The character of a decimal digit.
pub open spec fn digit(d: int) -> char {
    ((48 + d) as u8) as char
}

/// The character of a hexadecimal digit, in upper case.
pub open spec fn hex_digit(d: int) -> char {
    if d < 10 {
        ((48 + d) as u8) as char
    } else {
        ((55 + d) as u8) as char
    }
}

/// A byte as a text: its decimal number without leading zeros, its two
/// upper-case hexadecimal digits, or the character of its code.
pub open spec fn byte_text(b: u8, kind: BufferType) -> Seq<char> {
    match kind {
        BufferType::Byte => if b < 10 {
            seq![digit(b as int)]
        } else if b < 100 {
            seq![digit(b as int / 10), digit(b as int % 10)]
        } else {
            seq![digit(b as int / 100), digit(b as int / 10 % 10), digit(b as int % 10)]
        },
        BufferType::Hex => seq![hex_digit(b as int / 16), hex_digit(b as int % 16)],
        BufferType::ASCII => seq![b as char],
    }
}

/// The bytes of a frame as texts.
pub open spec fn byte_texts(bytes: Seq<u8>, kind: BufferType) -> Seq<Seq<char>> {
    Seq::new(bytes.len(), |i: int| byte_text(bytes[i], kind))
}

/// `String::push`: the string with the character appended at its end.
pub assume_specification[ String::push ](text: &mut String, ch: char)
    ensures
        final(text)@ == old(text)@.push(ch),
;

/// The character of a decimal or hexadecimal digit, in upper case.
fn digit_char(d: u8) -> (c: char)
    requires
        d < 16,
    ensures
        c == hex_digit(d as int),
        d < 10 ==> c == digit(d as int),
{
    if d < 10 {
        (48 + d) as char
    } else {
        (55 + d) as char
    }
}

/// A byte as a text, in the way `kind`.
pub fn byte_to_text(b: u8, kind: BufferType) -> (text: String)
    ensures
        text@ == byte_text(b, kind),
{
    let mut text: String = String::new();
    match kind {
        BufferType::Byte => {
            if b >= 100 {
                text.push(digit_char(b / 100));
            }
            if b >= 10 {
                text.push(digit_char(b / 10 % 10));
            }
            text.push(digit_char(b % 10));
        },
        BufferType::Hex => {
            text.push(digit_char(b / 16));
            text.push(digit_char(b % 16));
        },
        BufferType::ASCII => {
            text.push(b as char);
        },
    }
    assert(text@ =~= byte_text(b, kind));
    text
}

/// The bytes of a frame as texts, in the way `kind`.
pub fn buffer_texts(bytes: &[u8], kind: BufferType) -> (view: Vec<String>)
    ensures
        texts(view@) == byte_texts(bytes@, kind),
{
    let mut view: Vec<String> = Vec::with_capacity(bytes.len());
    let mut i: usize = 0;
    while i < bytes.len()
        invariant
            i <= bytes@.len(),
            view@.len() == i,
            forall|j: int| 0 <= j < i ==> (#[trigger] view@[j])@ == byte_text(bytes@[j], kind),
        decreases bytes@.len() - i,
    {
        view.push(byte_to_text(bytes[i], kind));
        i = i + 1;
    }
    assert(texts(view@) =~= byte_texts(bytes@, kind));
    view
}

} // verus!
