//! Packet 0x20D: the login of a client.

use vstd::prelude::*;
use crate::encodings::windows_1252_decoded;
use crate::packets::serializer::{
    array_of, le_u32, lemma_array_of, lemma_seq_of, lemma_u32_bytes_round_trip,
    lemma_u32_round_trip, read_array, read_u32, u32_le, write_array, write_u32, Packed,
};
use crate::packets::strings::bytes_to_str;
use crate::packets::structs::header::SHeader;

verus! {

/// Bytes of the packed packet.
pub const P20D_SIZE: usize = 116;

/// A login packet. It is read from the wire, never built.
#[derive(Debug, Clone, Copy)]
pub struct P20D {
    pub header: SHeader,
    password: [u8; 12],
    username: [u8; 12],
    unk1: [u8; 56],
    pub what1: u32,
    pub what2: u32,
    pub mac_id: [u8; 16],
}

impl P20D {
    /// The header of the packet.
    pub closed spec fn header_of(&self) -> SHeader {
        self.header
    }

    /// The 12 bytes of the password field.
    pub closed spec fn password_of(&self) -> Seq<u8> {
        self.password@
    }

    /// The 12 bytes of the user name field.
    pub closed spec fn username_of(&self) -> Seq<u8> {
        self.username@
    }

    /// What follows the two names: 56 bytes, two numbers and the 16 bytes of
    /// the machine id, packed.
    pub closed spec fn rest_of(&self) -> Seq<u8> {
        self.unk1@ + u32_le(self.what1) + u32_le(self.what2) + self.mac_id@
    }

    /// The packed packet is its packed header, the password field, the user
    /// name field and the rest, one after another.
    pub proof fn lemma_layout(&self)
        ensures
            self.packed() == self.header_of().packed() + self.password_of() + self.username_of()
                + self.rest_of(),
            self.password_of().len() == 12,
            self.username_of().len() == 12,
            self.rest_of().len() == 80,
    {
        assert(self.packed() =~= self.header_of().packed() + self.password_of()
            + self.username_of() + self.rest_of());
    }

    /// The user name: all 12 bytes of the field, decoded.
    pub fn get_username(&self) -> (text: String)
        ensures
            text@ == windows_1252_decoded(self.username_of()),
    {
        bytes_to_str(self.username.as_slice())
    }

    /// The password: all 12 bytes of the field, decoded.
    pub fn get_password(&self) -> (text: String)
        ensures
            text@ == windows_1252_decoded(self.password_of()),
    {
        bytes_to_str(self.password.as_slice())
    }
}

impl Packed for P20D {
    open spec fn packed_len() -> nat {
        116
    }

    closed spec fn packed(&self) -> Seq<u8> {
        self.header.packed() + self.password@ + self.username@ + self.unk1@ + u32_le(self.what1)
            + u32_le(self.what2) + self.mac_id@
    }

    closed spec fn unpacked(bytes: Seq<u8>) -> P20D {
        P20D {
            header: SHeader::unpacked(bytes.subrange(0, 12)),
            password: array_of::<12>(bytes.subrange(12, 24)),
            username: array_of::<12>(bytes.subrange(24, 36)),
            unk1: array_of::<56>(bytes.subrange(36, 92)),
            what1: le_u32(bytes.subrange(92, 96)),
            what2: le_u32(bytes.subrange(96, 100)),
            mac_id: array_of::<16>(bytes.subrange(100, 116)),
        }
    }

    proof fn lemma_packed(&self) {
        self.header.lemma_packed();
        lemma_u32_round_trip(self.what1);
        lemma_u32_round_trip(self.what2);
        let b = self.packed();
        assert(b.subrange(0, 12) =~= self.header.packed());
        assert(b.subrange(12, 24) =~= self.password@);
        assert(b.subrange(24, 36) =~= self.username@);
        assert(b.subrange(36, 92) =~= self.unk1@);
        assert(b.subrange(92, 96) =~= u32_le(self.what1));
        assert(b.subrange(96, 100) =~= u32_le(self.what2));
        assert(b.subrange(100, 116) =~= self.mac_id@);
        lemma_array_of::<12>(self.password);
        lemma_array_of::<12>(self.username);
        lemma_array_of::<56>(self.unk1);
        lemma_array_of::<16>(self.mac_id);
    }

    proof fn lemma_unpacked(bytes: Seq<u8>) {
        SHeader::lemma_unpacked(bytes.subrange(0, 12));
        lemma_seq_of::<12>(bytes.subrange(12, 24));
        lemma_seq_of::<12>(bytes.subrange(24, 36));
        lemma_seq_of::<56>(bytes.subrange(36, 92));
        lemma_seq_of::<16>(bytes.subrange(100, 116));
        lemma_u32_bytes_round_trip(bytes.subrange(92, 96));
        lemma_u32_bytes_round_trip(bytes.subrange(96, 100));
        assert(Self::unpacked(bytes).packed() =~= bytes);
    }

    fn size() -> (n: usize) {
        P20D_SIZE
    }

    fn pack(&self) -> (bytes: Vec<u8>) {
        let mut bytes: Vec<u8> = self.header.pack();
        write_array(&mut bytes, &self.password);
        write_array(&mut bytes, &self.username);
        write_array(&mut bytes, &self.unk1);
        write_u32(&mut bytes, self.what1);
        write_u32(&mut bytes, self.what2);
        write_array(&mut bytes, &self.mac_id);
        bytes
    }

    fn unpack(buf: &[u8]) -> (value: P20D) {
        let head: [u8; 12] = read_array::<12>(buf, 0);
        let value = P20D {
            header: SHeader::unpack(head.as_slice()),
            password: read_array::<12>(buf, 12),
            username: read_array::<12>(buf, 24),
            unk1: read_array::<56>(buf, 36),
            what1: read_u32(buf, 92),
            what2: read_u32(buf, 96),
            mac_id: read_array::<16>(buf, 100),
        };
        proof {
            lemma_seq_of::<12>(buf@.subrange(12, 24));
            lemma_seq_of::<12>(buf@.subrange(24, 36));
            lemma_seq_of::<56>(buf@.subrange(36, 92));
            lemma_seq_of::<16>(buf@.subrange(100, 116));
        }
        value
    }
}

} // verus!
