//! The string table: the messages of the client in one language, and a
//! closing number.

use vstd::prelude::*;
use vstd::utf8::encode_utf8;
use crate::consts::{STRDEF_MESSAGES_LEN, STRDEF_MESSAGES_SIZE, STRDEF_SIZE};
use crate::encodings::{
    texts, trimmed, windows_1252_decoded, windows_1252_encoded, TEXT_LIMIT,
};
use crate::errors::ErrorKind;
use crate::packets::serializer::{
    le_u32, lemma_u32_bytes_round_trip, lemma_u32_round_trip, read_u32, u32_le, write_u32,
};
use crate::structs::{
    cell_views, chunks, flat, lemma_chunks, lemma_flat, read_cells, text_cell, text_of, uniform,
    write_cells, ZStr,
};

verus! {

/// What a string table is: the mathematical value of a [`Strdef`].
pub struct StrdefView {
    pub messages: Seq<Seq<u8>>,
    pub unk: u32,
}

impl StrdefView {
    /// Whether the table has its messages, each of 128 bytes.
    pub open spec fn wf(&self) -> bool {
        self.messages.len() == STRDEF_MESSAGES_LEN && uniform(self.messages, 128)
    }

    /// The bytes of the file that holds the table: the messages, then the
    /// closing number, little-endian. The file is not obfuscated.
    pub open spec fn file(&self) -> Seq<u8> {
        flat(self.messages) + u32_le(self.unk)
    }
}

/// The table that the bytes of a file stand for.
pub open spec fn loaded(file: Seq<u8>) -> StrdefView {
    StrdefView {
        messages: chunks(file.take(STRDEF_MESSAGES_SIZE as int), 128),
        unk: le_u32(file.skip(STRDEF_MESSAGES_SIZE as int)),
    }
}

/// Whether each of the texts can be handed to the converter.
pub open spec fn convertible(texts: Seq<Seq<char>>) -> bool {
    forall|i: int| 0 <= i < texts.len() ==> encode_utf8(#[trigger] texts[i]).len() <= TEXT_LIMIT
}

/// The cells that hold the first messages of `texts`, as many as the table
/// has.
pub open spec fn cells_of(texts: Seq<Seq<char>>) -> Seq<Seq<u8>> {
    Seq::new(
        STRDEF_MESSAGES_LEN as nat,
        |i: int| text_cell(windows_1252_encoded(texts[i]), 128),
    )
}

/// The texts of the messages of a table.
pub open spec fn texts_of(messages: Seq<Seq<u8>>) -> Seq<Seq<char>> {
    Seq::new(messages.len(), |i: int| trimmed(windows_1252_decoded(text_of(messages[i]))))
}

/// A file of the right length stands for a sound table, and that table is
/// written back as the same file, bit for bit.
pub proof fn lemma_file_round_trip(file: Seq<u8>)
    requires
        file.len() == STRDEF_SIZE,
    ensures
        loaded(file).wf(),
        loaded(file).file() == file,
{
    let messages = file.take(STRDEF_MESSAGES_SIZE as int);
    let tail = file.skip(STRDEF_MESSAGES_SIZE as int);
    lemma_chunks(messages, 128);
    lemma_u32_bytes_round_trip(tail);
    assert(messages.take(256000) =~= messages);
    assert(messages + tail =~= file);
}

/// A sound table is written as a file of the right length that stands for
/// it.
pub proof fn lemma_table_round_trip(table: StrdefView)
    requires
        table.wf(),
    ensures
        table.file().len() == STRDEF_SIZE,
        loaded(table.file()) == table,
{
    lemma_flat(table.messages, 128);
    lemma_u32_round_trip(table.unk);
    let file = table.file();
    assert(file.take(STRDEF_MESSAGES_SIZE as int) =~= flat(table.messages));
    assert(file.skip(STRDEF_MESSAGES_SIZE as int) =~= u32_le(table.unk));
}

/// The string table.
#[derive(Debug)]
pub struct Strdef {
    messages: Vec<ZStr<128>>,
    unk: u32,
}

impl View for Strdef {
    type V = StrdefView;

    closed spec fn view(&self) -> StrdefView {
        StrdefView { messages: cell_views(self.messages@), unk: self.unk }
    }
}

impl Strdef {
    /// Whether the table has its messages, each of 128 bytes. Every table
    /// has: the functions that hand a table out say so.
    pub open spec fn wf(&self) -> bool {
        self@.wf()
    }

    /// Every table has its messages, each of 128 bytes.
    #[verifier::type_invariant]
    spec fn sound(&self) -> bool {
        self@.wf()
    }

    /// Reads the table from the bytes of its file. A file that does not
    /// have exactly the length of the table is rejected.
    pub fn new(buf: &[u8]) -> (table: Result<Strdef, ErrorKind>)
        ensures
            buf@.len() != STRDEF_SIZE ==> table == Err::<Strdef, ErrorKind>(ErrorKind::RecordSize),
            buf@.len() == STRDEF_SIZE ==> table.is_ok() && table.unwrap()@ == loaded(buf@)
                && table.unwrap().wf(),
    {
        if buf.len() != STRDEF_SIZE {
            return Err(ErrorKind::RecordSize);
        }
        let unk: u32 = read_u32(buf, STRDEF_MESSAGES_SIZE);
        let mut body: Vec<u8> = Vec::with_capacity(STRDEF_SIZE);
        body.extend_from_slice(buf);
        body.truncate(STRDEF_MESSAGES_SIZE);
        let messages: Vec<ZStr<128>> = read_cells::<128>(body.as_slice());
        proof {
            assert(body@ =~= buf@.take(STRDEF_MESSAGES_SIZE as int));
            assert(buf@.subrange(STRDEF_MESSAGES_SIZE as int, STRDEF_MESSAGES_SIZE + 4) =~= buf@.skip(
                STRDEF_MESSAGES_SIZE as int,
            ));
            lemma_file_round_trip(buf@);
        }
        Ok(Strdef { messages, unk })
    }

    /// The texts of the messages, in order.
    pub fn get_messages(&self) -> (messages: Vec<String>)
        ensures
            self.wf(),
            texts(messages@) == texts_of(self@.messages),
    {
        proof {
            use_type_invariant(self);
        }
        let mut messages: Vec<String> = Vec::with_capacity(self.messages.len());
        let mut i: usize = 0;
        while i < self.messages.len()
            invariant
                i <= self.messages@.len(),
                messages@.len() == i,
                forall|j: int|
                    0 <= j < i ==> (#[trigger] messages@[j])@ == trimmed(
                        windows_1252_decoded(text_of(self.messages@[j]@)),
                    ),
            decreases self.messages@.len() - i,
        {
            let text: String = self.messages[i].to_string();
            messages.push(text);
            i = i + 1;
        }
        assert(texts(messages@) =~= texts_of(self@.messages));
        messages
    }

    /// Replaces the messages by the first of `messages`, each in the legacy
    /// encoding, without its zero bytes and cut to what a cell holds, and
    /// returns the bytes of the file that holds the table. The closing
    /// number stays.
    pub fn save(&mut self, messages: &Vec<String>) -> (file: Vec<u8>)
        requires
            messages@.len() >= STRDEF_MESSAGES_LEN,
            convertible(texts(messages@)),
        ensures
            final(self).wf(),
            final(self)@ == (StrdefView { messages: cells_of(texts(messages@)), ..old(self)@ }),
            file@ == final(self)@.file(),
            file@.len() == STRDEF_SIZE,
    {
        proof {
            use_type_invariant(&*self);
        }
        let mut i: usize = 0;
        while i < STRDEF_MESSAGES_LEN
            invariant
                i <= STRDEF_MESSAGES_LEN,
                messages@.len() >= STRDEF_MESSAGES_LEN,
                convertible(texts(messages@)),
                self.messages@.len() == STRDEF_MESSAGES_LEN,
                self.unk == old(self).unk,
                forall|j: int|
                    0 <= j < i ==> (#[trigger] self.messages@[j])@ == text_cell(
                        windows_1252_encoded(messages@[j]@),
                        128,
                    ),
            decreases STRDEF_MESSAGES_LEN - i,
        {
            assert(texts(messages@)[i as int] == messages@[i as int]@);
            let cell: ZStr<128> = ZStr::from_text(messages[i].as_str());
            proof {
                use_type_invariant(&*self);
                cell.lemma_len();
            }
            self.messages[i] = cell;
            i = i + 1;
        }
        assert(self@.messages =~= cells_of(texts(messages@)));
        proof {
            assert forall|j: int| 0 <= j < self@.messages.len() implies (
            #[trigger] self@.messages[j]).len() == 128 by {
                self.messages@[j].lemma_len();
            }
        }
        self.to_file()
    }

    /// The bytes of the file that holds the table.
    pub fn to_file(&self) -> (file: Vec<u8>)
        ensures
            self.wf(),
            file@ == self@.file(),
            file@.len() == STRDEF_SIZE,
    {
        proof {
            use_type_invariant(self);
        }
        let mut file: Vec<u8> = Vec::with_capacity(STRDEF_SIZE);
        write_cells::<128>(&mut file, &self.messages);
        write_u32(&mut file, self.unk);
        proof {
            lemma_flat(self@.messages, 128);
            assert(file@ =~= self@.file());
        }
        file
    }

    /// The closing number of the table.
    pub fn get_unk(&self) -> (unk: u32)
        ensures
            unk == self@.unk,
    {
        self.unk
    }
}

} // verus!
