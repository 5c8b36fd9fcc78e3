//! Packet 0x101: a line of text from the server.

use vstd::prelude::*;
use crate::encodings::{windows_1252_decoded, windows_1252_encoded, TEXT_LIMIT};
use crate::packets::serializer::{
    array_of, lemma_array_of, lemma_seq_of, read_array, write_array, Packed,
};
use crate::packets::strings::{bytes_to_str, fitted, str_to_bytes};
use crate::packets::structs::header::{SHeader, HEADER_SIZE};

verus! {

/// The packet id of a text packet.
pub const P101_ID: u16 = 0x101;

/// Bytes of the packed packet: the header, 80 bytes of text and 48 more.
pub const P101_SIZE: usize = 140;

/// A text packet.
#[derive(Debug, Clone, Copy)]
pub struct P101 {
    pub header: SHeader,
    message: [u8; 80],
    unk1: [u8; 48],
}

impl P101 {
    /// The header of the packet.
    pub closed spec fn header_of(&self) -> SHeader {
        self.header
    }

    /// The 80 bytes of the text field.
    pub closed spec fn message_of(&self) -> Seq<u8> {
        self.message@
    }

    /// The 48 bytes that follow the text field.
    pub closed spec fn rest_of(&self) -> Seq<u8> {
        self.unk1@
    }

    /// The packed packet is its packed header, its text field and the
    /// bytes that follow, one after another.
    pub proof fn lemma_layout(&self)
        ensures
            self.packed() == self.header_of().packed() + self.message_of() + self.rest_of(),
            self.message_of().len() == 80,
            self.rest_of().len() == 48,
    {
    }

    /// A text packet that carries `message`: its header declares the packet
    /// id 0x101 and the size of the packet, the text field holds the message
    /// as [`str_to_bytes`] writes it, and the rest is zero.
    pub fn new(message: &str) -> (packet: P101)
        requires
            message.len() <= TEXT_LIMIT,
        ensures
            packet.header_of() == (SHeader {
                size: 140,
                key: 0,
                checksum: 0,
                packet_id: 0x101,
                client_id: 0,
                timestamp: 0,
            }),
            packet.message_of() == fitted(windows_1252_encoded(message@), 80),
            packet.rest_of() == Seq::new(48, |i: int| 0u8),
    {
        let mut p = P101 {
            header: SHeader::new_packet::<P101>(P101_ID),
            message: [0u8; 80],
            unk1: [0u8; 48],
        };
        assert(p.unk1@ =~= Seq::new(48, |i: int| 0u8));
        p.set_message(message);
        p
    }

    /// The header of the packet.
    pub fn get_header(&self) -> (header: SHeader)
        ensures
            header == self.header_of(),
    {
        self.header
    }

    /// The text of the packet: all 80 bytes of the field, decoded.
    pub fn get_message(&self) -> (text: String)
        ensures
            text@ == windows_1252_decoded(self.message_of()),
    {
        bytes_to_str(self.message.as_slice())
    }

    /// Replaces the text of the packet, as [`str_to_bytes`] writes it.
    pub fn set_message(&mut self, message: &str)
        requires
            message.len() <= TEXT_LIMIT,
        ensures
            final(self).message_of() == fitted(windows_1252_encoded(message@), 80),
            final(self).header_of() == old(self).header_of(),
            final(self).rest_of() == old(self).rest_of(),
    {
        str_to_bytes(&mut self.message, message)
    }
}

impl Packed for P101 {
    open spec fn packed_len() -> nat {
        140
    }

    closed spec fn packed(&self) -> Seq<u8> {
        self.header.packed() + self.message@ + self.unk1@
    }

    closed spec fn unpacked(bytes: Seq<u8>) -> P101 {
        P101 {
            header: SHeader::unpacked(bytes.subrange(0, 12)),
            message: array_of::<80>(bytes.subrange(12, 92)),
            unk1: array_of::<48>(bytes.subrange(92, 140)),
        }
    }

    proof fn lemma_packed(&self) {
        self.header.lemma_packed();
        let b = self.packed();
        assert(b.subrange(0, 12) =~= self.header.packed());
        assert(b.subrange(12, 92) =~= self.message@);
        assert(b.subrange(92, 140) =~= self.unk1@);
        lemma_array_of::<80>(self.message);
        lemma_array_of::<48>(self.unk1);
    }

    proof fn lemma_unpacked(bytes: Seq<u8>) {
        SHeader::lemma_unpacked(bytes.subrange(0, 12));
        lemma_seq_of::<80>(bytes.subrange(12, 92));
        lemma_seq_of::<48>(bytes.subrange(92, 140));
        assert(Self::unpacked(bytes).packed() =~= bytes);
    }

    fn size() -> (n: usize) {
        P101_SIZE
    }

    fn pack(&self) -> (bytes: Vec<u8>) {
        let mut bytes: Vec<u8> = self.header.pack();
        write_array(&mut bytes, &self.message);
        write_array(&mut bytes, &self.unk1);
        bytes
    }

    fn unpack(buf: &[u8]) -> (value: P101) {
        let head: [u8; 12] = read_array::<12>(buf, 0);
        let value = P101 {
            header: SHeader::unpack(head.as_slice()),
            message: read_array::<80>(buf, HEADER_SIZE),
            unk1: read_array::<48>(buf, 92),
        };
        proof {
            lemma_seq_of::<80>(buf@.subrange(12, 92));
            lemma_seq_of::<48>(buf@.subrange(92, 140));
            assert(value.message == array_of::<80>(buf@.subrange(12, 92)));
            assert(value.unk1 == array_of::<48>(buf@.subrange(92, 140)));
        }
        value
    }
}

} // verus!
