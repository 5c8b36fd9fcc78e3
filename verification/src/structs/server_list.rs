//! The server list: a key and, for each of ten worlds, the address of the
//! world and those of its ten channels.

use vstd::prelude::*;
use crate::consts::{
    SERVER_LIST_BODY_SIZE, SERVER_LIST_CELLS, SERVER_LIST_CHANNELS, SERVER_LIST_SIZE,
    SERVER_LIST_WORLDS,
};
use crate::encodings::{trimmed, windows_1252_decoded, windows_1252_encoded, TEXT_LIMIT};
use crate::errors::ErrorKind;
use crate::numbers::{parse_unsigned, unsigned};
use crate::packets::serializer::{
    le_u32, lemma_u32_bytes_round_trip, lemma_u32_round_trip, read_u32, u32_le, write_u32,
};
use crate::security::{decoders, encoders, lemma_server_list_file_round_trip};
use crate::structs::{
    cell_views, chunks, flat, lemma_chunks, lemma_flat, lemma_flat_index, read_cells,
    text_cell, text_of, uniform, write_cells, ZStr,
};

verus! {

/// What a server list is: the mathematical value of a [`ServerList`].
pub struct ServerListView {
    pub key: u32,
    pub cells: Seq<Seq<u8>>,
}

impl ServerListView {
    /// Whether the list has its 110 cells of 64 bytes.
    pub open spec fn wf(&self) -> bool {
        self.cells.len() == SERVER_LIST_CELLS && uniform(self.cells, 64)
    }

    /// The clear bytes of the list: the key, little-endian, then the cells.
    pub open spec fn clear(&self) -> Seq<u8> {
        u32_le(self.key) + flat(self.cells)
    }

    /// The bytes of the file that holds the list.
    pub open spec fn file(&self) -> Seq<u8> {
        encoders::encoded_file(self.clear())
    }
}

/// The list that clear bytes stand for.
pub open spec fn parsed(clear: Seq<u8>) -> ServerListView {
    ServerListView { key: le_u32(clear.subrange(0, 4)), cells: chunks(clear.skip(4), 64) }
}

/// The list that the bytes of a file stand for.
pub open spec fn loaded(file: Seq<u8>) -> ServerListView {
    parsed(decoders::decoded_file(file))
}

/// The place among the cells of slot `slot` of world `world`: slot 0 is the
/// address of the world, slots 1 to 10 are its channels.
pub open spec fn cell_index(world: int, slot: int) -> int {
    world * 11 + slot
}

/// A file of 7044 bytes stands for a sound list, and that list is written
/// back as the same file, bit for bit.
pub proof fn lemma_file_round_trip(file: Seq<u8>)
    requires
        file.len() == SERVER_LIST_SIZE,
    ensures
        loaded(file).wf(),
        loaded(file).file() == file,
{
    lemma_server_list_file_round_trip(file);
    lemma_clear_round_trip(decoders::decoded_file(file));
}

/// Clear bytes of the length of a file stand for a sound list whose clear
/// bytes they are.
pub proof fn lemma_clear_round_trip(clear: Seq<u8>)
    requires
        clear.len() == SERVER_LIST_SIZE,
    ensures
        parsed(clear).wf(),
        parsed(clear).clear() == clear,
{
    let body = clear.skip(4);
    lemma_chunks(body, 64);
    lemma_u32_bytes_round_trip(clear.subrange(0, 4));
    assert(body.take(7040) =~= body);
    assert(clear.subrange(0, 4) + body =~= clear);
}

/// A sound list is written as a file of 7044 bytes that stands for it.
pub proof fn lemma_list_round_trip(list: ServerListView)
    requires
        list.wf(),
    ensures
        list.file().len() == SERVER_LIST_SIZE,
        loaded(list.file()) == list,
{
    lemma_flat(list.cells, 64);
    lemma_u32_round_trip(list.key);
    let clear = list.clear();
    let body = flat(list.cells);
    lemma_server_list_file_round_trip(clear);
    assert(clear.subrange(0, 4) =~= u32_le(list.key));
    assert(clear.skip(4) =~= body);
}

/// Replacing one cell of a sound list changes, in the file, the 64 bytes of
/// that cell and no other: the file keeps its length, its key prefix and
/// every byte of every other cell.
pub proof fn lemma_edit_is_local(list: ServerListView, k: int, cell: Seq<u8>, p: int)
    requires
        list.wf(),
        0 <= k < SERVER_LIST_CELLS,
        cell.len() == 64,
        0 <= p < SERVER_LIST_SIZE,
        p < 4 + 64 * k || p >= 4 + 64 * k + 64,
    ensures
        (ServerListView { cells: list.cells.update(k, cell), ..list }).wf(),
        (ServerListView { cells: list.cells.update(k, cell), ..list }).file().len()
            == SERVER_LIST_SIZE,
        list.file().len() == SERVER_LIST_SIZE,
        (ServerListView { cells: list.cells.update(k, cell), ..list }).file()[p] == list.file()[p],
{
    let edited = ServerListView { cells: list.cells.update(k, cell), ..list };
    assert(edited.wf());
    lemma_flat(list.cells, 64);
    lemma_flat(edited.cells, 64);
    let before = list.clear();
    let after = edited.clear();
    assert(before.subrange(0, 4) =~= u32_le(list.key));
    assert(after.subrange(0, 4) =~= u32_le(list.key));
    if p >= 4 {
        let q = p - 4;
        lemma_flat_index(list.cells, 64, q);
        lemma_flat_index(edited.cells, 64, q);
        assert(q / 64 != k);
        assert(flat(list.cells)[q] == flat(edited.cells)[q]);
        assert(before.subrange(4, before.len() as int)[q] == flat(list.cells)[q]);
        assert(after.subrange(4, after.len() as int)[q] == flat(edited.cells)[q]);
    }
}

/// The server list.
#[derive(Debug)]
pub struct ServerList {
    key: u32,
    cells: Vec<ZStr<64>>,
}

impl View for ServerList {
    type V = ServerListView;

    closed spec fn view(&self) -> ServerListView {
        ServerListView { key: self.key, cells: cell_views(self.cells@) }
    }
}

impl ServerList {
    /// Whether the list has its 110 cells of 64 bytes. Every list has: the
    /// functions that hand a list out say so.
    pub open spec fn wf(&self) -> bool {
        self@.wf()
    }

    /// Every list has its 110 cells of 64 bytes.
    #[verifier::type_invariant]
    spec fn sound(&self) -> bool {
        self@.wf()
    }

    /// Reads the list from the bytes of its file. A file that does not have
    /// exactly 7044 bytes is rejected.
    pub fn new(buf: &[u8]) -> (list: Result<ServerList, ErrorKind>)
        ensures
            buf@.len() != SERVER_LIST_SIZE ==> list == Err::<ServerList, ErrorKind>(
                ErrorKind::RecordSize,
            ),
            buf@.len() == SERVER_LIST_SIZE ==> list.is_ok() && list.unwrap()@ == loaded(buf@)
                && list.unwrap().wf(),
    {
        if buf.len() != SERVER_LIST_SIZE {
            return Err(ErrorKind::RecordSize);
        }
        let key: u32 = read_u32(buf, 0);
        let mut body: Vec<u8> = Vec::with_capacity(SERVER_LIST_BODY_SIZE);
        let mut i: usize = 4;
        while i < SERVER_LIST_SIZE
            invariant
                4 <= i <= SERVER_LIST_SIZE,
                buf@.len() == SERVER_LIST_SIZE,
                body@ == buf@.subrange(4, i as int),
            decreases SERVER_LIST_SIZE - i,
        {
            body.push(buf[i]);
            i = i + 1;
            assert(body@ =~= buf@.subrange(4, i as int));
        }
        let ok = decoders::server_list(body.as_mut_slice());
        let cells: Vec<ZStr<64>> = read_cells::<64>(body.as_slice());
        proof {
            let clear = decoders::decoded_file(buf@);
            assert(clear == buf@.subrange(0, 4) + body@);
            assert(clear.subrange(0, 4) =~= buf@.subrange(0, 4));
            assert(clear.skip(4) =~= body@);
            lemma_file_round_trip(buf@);
        }
        Ok(ServerList { key, cells })
    }

    /// The bytes of the file that holds the list: 7044 of them.
    pub fn save(&self) -> (file: Vec<u8>)
        ensures
            self.wf(),
            file@ == self@.file(),
            file@.len() == SERVER_LIST_SIZE,
    {
        proof {
            use_type_invariant(self);
        }
        let mut body: Vec<u8> = Vec::with_capacity(SERVER_LIST_BODY_SIZE);
        write_cells::<64>(&mut body, &self.cells);
        proof {
            lemma_flat(self@.cells, 64);
            assert(body@ =~= flat(self@.cells));
        }
        let ok = encoders::server_list(body.as_mut_slice());
        let mut file: Vec<u8> = Vec::with_capacity(SERVER_LIST_SIZE);
        write_u32(&mut file, self.key);
        file.extend_from_slice(body.as_slice());
        proof {
            let clear = self@.clear();
            assert(clear.subrange(0, 4) =~= u32_le(self.key));
            assert(clear.subrange(4, clear.len() as int) =~= flat(self@.cells));
            assert(self@.file() == u32_le(self.key) + encoders::encoded(flat(self@.cells)));
        }
        file
    }

    /// The key at the head of the list.
    pub fn get_key(&self) -> (key: u32)
        ensures
            key == self@.key,
    {
        self.key
    }

    /// Replaces the key.
    pub fn set_key(&mut self, key: u32)
        ensures
            final(self).wf(),
            final(self)@ == (ServerListView { key, ..old(self)@ }),
    {
        proof {
            use_type_invariant(&*self);
        }
        self.key = key;
    }

    /// Replaces the key by the number that `text` stands for; a text that
    /// stands for no number of 32 bits leaves the key as it is.
    pub fn edit_key(&mut self, text: &str)
        ensures
            final(self).wf(),
            final(self)@ == (ServerListView {
                key: match unsigned(text@, u32::MAX as nat) {
                    Some(key) => key as u32,
                    None => old(self)@.key,
                },
                ..old(self)@
            }),
    {
        proof {
            use_type_invariant(&*self);
        }
        match parse_unsigned(text, 0xffff_ffff) {
            Some(key) => {
                self.key = key as u32;
            },
            None => {},
        }
    }

    /// The cell of slot `slot` of world `world`.
    pub fn get_cell(&self, world: usize, slot: usize) -> (cell: ZStr<64>)
        requires
            world < SERVER_LIST_WORLDS,
            slot <= SERVER_LIST_CHANNELS,
        ensures
            cell@ == self@.cells[cell_index(world as int, slot as int)],
    {
        proof {
            use_type_invariant(self);
        }
        self.cells[world * 11 + slot]
    }

    /// Replaces the cell of slot `slot` of world `world`. No other cell and
    /// not the key changes.
    pub fn set_cell(&mut self, world: usize, slot: usize, cell: ZStr<64>)
        requires
            world < SERVER_LIST_WORLDS,
            slot <= SERVER_LIST_CHANNELS,
        ensures
            final(self).wf(),
            final(self)@ == (ServerListView {
                cells: old(self)@.cells.update(cell_index(world as int, slot as int), cell@),
                ..old(self)@
            }),
    {
        proof {
            use_type_invariant(&*self);
            cell.lemma_len();
        }
        self.cells[world * 11 + slot] = cell;
        assert(self@.cells =~= old(self)@.cells.update(
            cell_index(world as int, slot as int),
            cell@,
        ));
    }

    /// The address of world `world`, as text.
    pub fn get_url(&self, world: usize) -> (url: String)
        requires
            world < SERVER_LIST_WORLDS,
        ensures
            url@ == trimmed(
                windows_1252_decoded(text_of(self@.cells[cell_index(world as int, 0)])),
            ),
    {
        self.get_cell(world, 0).to_string()
    }

    /// Replaces the address of world `world` by `url` in the legacy
    /// encoding, without its zero bytes and cut to what a cell holds. Nothing
    /// else changes.
    pub fn set_url(&mut self, world: usize, url: &str)
        requires
            world < SERVER_LIST_WORLDS,
            url.len() <= TEXT_LIMIT,
        ensures
            final(self).wf(),
            final(self)@ == (ServerListView {
                cells: old(self)@.cells.update(
                    cell_index(world as int, 0),
                    text_cell(windows_1252_encoded(url@), 64),
                ),
                ..old(self)@
            }),
    {
        self.set_cell(world, 0, ZStr::from_text(url));
    }

    /// The address of channel `channel` of world `world`, as text. Channels
    /// are counted from 0.
    pub fn get_channel(&self, world: usize, channel: usize) -> (url: String)
        requires
            world < SERVER_LIST_WORLDS,
            channel < SERVER_LIST_CHANNELS,
        ensures
            url@ == trimmed(
                windows_1252_decoded(
                    text_of(self@.cells[cell_index(world as int, channel + 1)]),
                ),
            ),
    {
        self.get_cell(world, channel + 1).to_string()
    }

    /// Replaces the address of channel `channel` of world `world` by `url`
    /// in the legacy encoding, without its zero bytes and cut to what a cell
    /// holds. Nothing else changes.
    pub fn set_channel(&mut self, world: usize, channel: usize, url: &str)
        requires
            world < SERVER_LIST_WORLDS,
            channel < SERVER_LIST_CHANNELS,
            url.len() <= TEXT_LIMIT,
        ensures
            final(self).wf(),
            final(self)@ == (ServerListView {
                cells: old(self)@.cells.update(
                    cell_index(world as int, channel + 1),
                    text_cell(windows_1252_encoded(url@), 64),
                ),
                ..old(self)@
            }),
    {
        self.set_cell(world, channel + 1, ZStr::from_text(url));
    }
}

} // verus!
