//! The twelve-byte header that opens every frame.

use vstd::prelude::*;
use crate::packets::serializer::{
    le_u16, le_u32, u16_le, u32_le, read_u16, read_u32, write_u16, write_u32, Packed,
    lemma_u16_round_trip, lemma_u32_round_trip, lemma_u16_bytes_round_trip,
    lemma_u32_bytes_round_trip,
};

verus! {

/// Bytes of a packed header.
pub const HEADER_SIZE: usize = 12;

/// The header of a frame. On the wire it is packed in this order, each
/// number little-endian; `size` counts the header and the payload.
#[derive(Debug, Clone, Copy, PartialEq, Eq, Structural)]
pub struct SHeader {
    pub size: u16,
    pub key: u8,
    pub checksum: u8,
    pub packet_id: u16,
    pub client_id: u16,
    pub timestamp: u32,
}

impl SHeader {
    /// A header with every field zero.
    pub fn new() -> (header: SHeader)
        ensures
            header == (SHeader {
                size: 0,
                key: 0,
                checksum: 0,
                packet_id: 0,
                client_id: 0,
                timestamp: 0,
            }),
    {
        SHeader { size: 0, key: 0, checksum: 0, packet_id: 0, client_id: 0, timestamp: 0 }
    }

    /// The header of a packet of type `T` with the given packet id: `size` is
    /// the length of `T`'s layout, reduced modulo 65536, and the other fields
    /// are zero.
    pub fn new_packet<T: Packed>(packet_id: u16) -> (header: SHeader)
        ensures
            header == (SHeader {
                size: (T::packed_len() % 65536) as u16,
                key: 0,
                checksum: 0,
                packet_id,
                client_id: 0,
                timestamp: 0,
            }),
    {
        SHeader {
            size: (T::size() % 65536) as u16,
            key: 0,
            checksum: 0,
            packet_id,
            client_id: 0,
            timestamp: 0,
        }
    }
}

impl Packed for SHeader {
    open spec fn packed_len() -> nat {
        12
    }

    open spec fn packed(&self) -> Seq<u8> {
        u16_le(self.size) + seq![self.key, self.checksum] + u16_le(self.packet_id) + u16_le(
            self.client_id,
        ) + u32_le(self.timestamp)
    }

    open spec fn unpacked(bytes: Seq<u8>) -> SHeader {
        SHeader {
            size: le_u16(bytes.subrange(0, 2)),
            key: bytes[2],
            checksum: bytes[3],
            packet_id: le_u16(bytes.subrange(4, 6)),
            client_id: le_u16(bytes.subrange(6, 8)),
            timestamp: le_u32(bytes.subrange(8, 12)),
        }
    }

    proof fn lemma_packed(&self) {
        lemma_u16_round_trip(self.size);
        lemma_u16_round_trip(self.packet_id);
        lemma_u16_round_trip(self.client_id);
        lemma_u32_round_trip(self.timestamp);
        let b = self.packed();
        assert(b.subrange(0, 2) =~= u16_le(self.size));
        assert(b.subrange(4, 6) =~= u16_le(self.packet_id));
        assert(b.subrange(6, 8) =~= u16_le(self.client_id));
        assert(b.subrange(8, 12) =~= u32_le(self.timestamp));
    }

    proof fn lemma_unpacked(bytes: Seq<u8>) {
        lemma_u16_bytes_round_trip(bytes.subrange(0, 2));
        lemma_u16_bytes_round_trip(bytes.subrange(4, 6));
        lemma_u16_bytes_round_trip(bytes.subrange(6, 8));
        lemma_u32_bytes_round_trip(bytes.subrange(8, 12));
        let h = Self::unpacked(bytes);
        assert(u16_le(h.size) == bytes.subrange(0, 2));
        assert(u16_le(h.packet_id) == bytes.subrange(4, 6));
        assert(u16_le(h.client_id) == bytes.subrange(6, 8));
        assert(u32_le(h.timestamp) == bytes.subrange(8, 12));
        assert(h.packed() =~= bytes);
    }

    fn size() -> (n: usize) {
        HEADER_SIZE
    }

    fn pack(&self) -> (bytes: Vec<u8>) {
        let mut bytes: Vec<u8> = Vec::new();
        write_u16(&mut bytes, self.size);
        bytes.push(self.key);
        bytes.push(self.checksum);
        write_u16(&mut bytes, self.packet_id);
        write_u16(&mut bytes, self.client_id);
        write_u32(&mut bytes, self.timestamp);
        assert(bytes@ =~= self.packed());
        bytes
    }

    fn unpack(buf: &[u8]) -> (value: SHeader) {
        SHeader {
            size: read_u16(buf, 0),
            key: buf[2],
            checksum: buf[3],
            packet_id: read_u16(buf, 4),
            client_id: read_u16(buf, 6),
            timestamp: read_u32(buf, 8),
        }
    }
}

} // verus!
