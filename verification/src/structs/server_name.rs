//! The server names: the names of eleven worlds and a count of four bytes
//! for each.

use vstd::prelude::*;
use crate::consts::{SERVER_NAME_NAMES_SIZE, SERVER_NAME_SIZE, SERVER_NAME_WORLDS};
use crate::encodings::{trimmed, windows_1252_decoded, windows_1252_encoded, TEXT_LIMIT};
use crate::errors::ErrorKind;
use crate::numbers::{parse_unsigned, unsigned};
use crate::security::{decoders, encoders, lemma_server_name_round_trip};
use crate::structs::{
    cell_views, chunks, flat, lemma_chunks, lemma_flat, read_cells, text_cell, text_of, uniform,
    write_cells, ZStr,
};

verus! {

/// What the server names are: the mathematical value of a [`ServerName`].
pub struct ServerNameView {
    pub worlds: Seq<Seq<u8>>,
    pub counts: Seq<Seq<u8>>,
}

impl ServerNameView {
    /// Whether there are eleven names of 9 bytes and eleven counts of 4.
    pub open spec fn wf(&self) -> bool {
        &&& self.worlds.len() == SERVER_NAME_WORLDS
        &&& uniform(self.worlds, 9)
        &&& self.counts.len() == SERVER_NAME_WORLDS
        &&& uniform(self.counts, 4)
    }

    /// The clear bytes of the record: the names, then the counts.
    pub open spec fn clear(&self) -> Seq<u8> {
        flat(self.worlds) + flat(self.counts)
    }

    /// The bytes of the file that holds the record.
    pub open spec fn file(&self) -> Seq<u8> {
        encoders::name_encoded(self.clear())
    }
}

/// The record that clear bytes stand for.
pub open spec fn parsed(clear: Seq<u8>) -> ServerNameView {
    ServerNameView {
        worlds: chunks(clear.take(SERVER_NAME_NAMES_SIZE as int), 9),
        counts: chunks(clear.skip(SERVER_NAME_NAMES_SIZE as int), 4),
    }
}

/// The record that the bytes of a file stand for.
pub open spec fn loaded(file: Seq<u8>) -> ServerNameView {
    parsed(decoders::name_decoded(file))
}

/// A file of 143 bytes stands for a sound record, and that record is
/// written back as the same file, bit for bit.
pub proof fn lemma_file_round_trip(file: Seq<u8>)
    requires
        file.len() == SERVER_NAME_SIZE,
    ensures
        loaded(file).wf(),
        loaded(file).file() == file,
{
    lemma_server_name_round_trip(file);
    lemma_clear_round_trip(decoders::name_decoded(file));
}

/// Clear bytes of the length of a file stand for a sound record whose clear
/// bytes they are.
pub proof fn lemma_clear_round_trip(clear: Seq<u8>)
    requires
        clear.len() == SERVER_NAME_SIZE,
    ensures
        parsed(clear).wf(),
        parsed(clear).clear() == clear,
{
    let names = clear.take(SERVER_NAME_NAMES_SIZE as int);
    let counts = clear.skip(SERVER_NAME_NAMES_SIZE as int);
    lemma_chunks(names, 9);
    lemma_chunks(counts, 4);
    assert(names.take(99) =~= names);
    assert(counts.take(44) =~= counts);
    assert(names + counts =~= clear);
}

/// A sound record is written as a file of 143 bytes that stands for it.
pub proof fn lemma_record_round_trip(record: ServerNameView)
    requires
        record.wf(),
    ensures
        record.file().len() == SERVER_NAME_SIZE,
        loaded(record.file()) == record,
{
    lemma_flat(record.worlds, 9);
    lemma_flat(record.counts, 4);
    let clear = record.clear();
    lemma_server_name_round_trip(clear);
    assert(clear.take(SERVER_NAME_NAMES_SIZE as int) =~= flat(record.worlds));
    assert(clear.skip(SERVER_NAME_NAMES_SIZE as int) =~= flat(record.counts));
}

/// The server names.
#[derive(Debug)]
pub struct ServerName {
    worlds: Vec<ZStr<9>>,
    counts: Vec<ZStr<4>>,
}

impl View for ServerName {
    type V = ServerNameView;

    closed spec fn view(&self) -> ServerNameView {
        ServerNameView { worlds: cell_views(self.worlds@), counts: cell_views(self.counts@) }
    }
}

impl ServerName {
    /// Whether there are eleven names of 9 bytes and eleven counts of 4.
    /// Every record has: the functions that hand a record out say so.
    pub open spec fn wf(&self) -> bool {
        self@.wf()
    }

    /// Every record has its eleven names and its eleven counts.
    #[verifier::type_invariant]
    spec fn sound(&self) -> bool {
        self@.wf()
    }

    /// Reads the record from the bytes of its file. A file that does not
    /// have exactly 143 bytes is rejected.
    pub fn new(buf: &[u8]) -> (record: Result<ServerName, ErrorKind>)
        ensures
            buf@.len() != SERVER_NAME_SIZE ==> record == Err::<ServerName, ErrorKind>(
                ErrorKind::RecordSize,
            ),
            buf@.len() == SERVER_NAME_SIZE ==> record.is_ok() && record.unwrap()@ == loaded(buf@)
                && record.unwrap().wf(),
    {
        if buf.len() != SERVER_NAME_SIZE {
            return Err(ErrorKind::RecordSize);
        }
        let mut clear: Vec<u8> = Vec::with_capacity(SERVER_NAME_SIZE);
        clear.extend_from_slice(buf);
        decoders::server_name(clear.as_mut_slice());
        let counts_part: Vec<u8> = clear.split_off(SERVER_NAME_NAMES_SIZE);
        let worlds: Vec<ZStr<9>> = read_cells::<9>(clear.as_slice());
        let counts: Vec<ZStr<4>> = read_cells::<4>(counts_part.as_slice());
        proof {
            let all = decoders::name_decoded(buf@);
            assert(clear@ =~= all.take(SERVER_NAME_NAMES_SIZE as int));
            assert(counts_part@ =~= all.skip(SERVER_NAME_NAMES_SIZE as int));
            lemma_file_round_trip(buf@);
        }
        Ok(ServerName { worlds, counts })
    }

    /// The bytes of the file that holds the record: 143 of them.
    pub fn save(&self) -> (file: Vec<u8>)
        ensures
            self.wf(),
            file@ == self@.file(),
            file@.len() == SERVER_NAME_SIZE,
    {
        proof {
            use_type_invariant(self);
        }
        let mut file: Vec<u8> = Vec::with_capacity(SERVER_NAME_SIZE);
        write_cells::<9>(&mut file, &self.worlds);
        write_cells::<4>(&mut file, &self.counts);
        proof {
            lemma_flat(self@.worlds, 9);
            lemma_flat(self@.counts, 4);
            assert(file@ =~= self@.clear());
        }
        encoders::server_name(file.as_mut_slice());
        file
    }

    /// The name of world `world`, as text.
    pub fn get_name(&self, world: usize) -> (name: String)
        requires
            world < SERVER_NAME_WORLDS,
        ensures
            name@ == trimmed(windows_1252_decoded(text_of(self@.worlds[world as int]))),
    {
        proof {
            use_type_invariant(self);
        }
        self.worlds[world].to_string()
    }

    /// Replaces the name of world `world` by `name` in the legacy encoding,
    /// without its zero bytes and cut to what a cell holds. Nothing else
    /// changes.
    pub fn set_name(&mut self, world: usize, name: &str)
        requires
            world < SERVER_NAME_WORLDS,
            name.len() <= TEXT_LIMIT,
        ensures
            final(self).wf(),
            final(self)@ == (ServerNameView {
                worlds: old(self)@.worlds.update(
                    world as int,
                    text_cell(windows_1252_encoded(name@), 9),
                ),
                ..old(self)@
            }),
    {
        let cell: ZStr<9> = ZStr::from_text(name);
        proof {
            use_type_invariant(&*self);
            cell.lemma_len();
        }
        self.worlds[world] = cell;
        assert(self@.worlds =~= old(self)@.worlds.update(world as int, cell@));
    }

    /// The count of world `world`: the first of its four bytes.
    pub fn get_count(&self, world: usize) -> (count: u8)
        requires
            world < SERVER_NAME_WORLDS,
        ensures
            count == self@.counts[world as int][0],
    {
        proof {
            use_type_invariant(self);
        }
        let cell: [u8; 4] = self.counts[world].to_bytes();
        cell[0]
    }

    /// Replaces the count of world `world` by the number that `text` stands
    /// for; a text that stands for no number of 8 bits leaves the record as
    /// it is.
    pub fn edit_count(&mut self, world: usize, text: &str)
        requires
            world < SERVER_NAME_WORLDS,
        ensures
            final(self).wf(),
            final(self)@ == (match unsigned(text@, 255) {
                Some(count) => ServerNameView {
                    counts: old(self)@.counts.update(
                        world as int,
                        old(self)@.counts[world as int].update(0, count as u8),
                    ),
                    ..old(self)@
                },
                None => old(self)@,
            }),
    {
        proof {
            use_type_invariant(&*self);
        }
        match parse_unsigned(text, 255) {
            Some(count) => {
                self.set_count(world, count as u8);
            },
            None => {},
        }
    }

    /// Replaces the count of world `world`: the first of its four bytes.
    /// Nothing else changes.
    pub fn set_count(&mut self, world: usize, count: u8)
        requires
            world < SERVER_NAME_WORLDS,
        ensures
            final(self).wf(),
            final(self)@ == (ServerNameView {
                counts: old(self)@.counts.update(
                    world as int,
                    old(self)@.counts[world as int].update(0, count),
                ),
                ..old(self)@
            }),
    {
        proof {
            use_type_invariant(&*self);
        }
        let mut cell: [u8; 4] = self.counts[world].to_bytes();
        cell[0] = count;
        let z: ZStr<4> = ZStr::from_bytes(cell);
        assert(z@ =~= old(self)@.counts[world as int].update(0, count));
        self.counts[world] = z;
        assert(self@.counts =~= old(self)@.counts.update(world as int, z@));
    }
}

} // verus!
