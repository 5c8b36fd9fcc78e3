//! A captured frame.

use vstd::prelude::*;
use crate::packets::serializer::{deserialize, Packed};
use crate::packets::structs::header::{SHeader, HEADER_SIZE};
use crate::sniffer::last_id::LastId;

verus! {

/// The way a frame travelled, seen from the local client: sent to the
/// server or received from it.
#[derive(Debug, Clone, Copy, PartialEq, Eq, Structural)]
pub enum PacketDirection {
    SND,
    RCV,
}

impl PacketDirection {
    /// The name of the direction.
    pub open spec fn label(&self) -> Seq<char> {
        match self {
            PacketDirection::SND => "SND"@,
            PacketDirection::RCV => "RCV"@,
        }
    }

    /// The name of the direction, as text.
    pub fn to_string(&self) -> (text: String)
        ensures
            text@ == self.label(),
    {
        match self {
            PacketDirection::SND => "SND".to_owned(),
            PacketDirection::RCV => "RCV".to_owned(),
        }
    }
}

/// What the bytes from a place of a frame on stand for, read as numbers of
/// one, two, four and eight bytes, little-endian, each signed and unsigned;
/// a number is there when the frame has that many bytes from the place on.
#[derive(Debug, Clone, Copy, PartialEq, Eq, Structural)]
pub struct ByteInfo {
    pub sbyte: Option<i8>,
    pub byte: Option<u8>,
    pub short: Option<i16>,
    pub ushort: Option<u16>,
    pub int: Option<i32>,
    pub uint: Option<u32>,
    pub long: Option<i64>,
    pub ulong: Option<u64>,
}

/// The number that `width` bytes of `bytes` from `at` on stand for,
/// little-endian.
pub open spec fn unsigned_at(bytes: Seq<u8>, at: int, width: nat) -> nat
    decreases width,
{
    if width == 0 {
        0
    } else {
        bytes[at] as nat + 256 * unsigned_at(bytes, at + 1, (width - 1) as nat)
    }
}

/// The signed reading of an unsigned number of `bits` bits.
pub open spec fn signed(value: nat, bits: nat) -> int {
    if value < vstd::arithmetic::power2::pow2((bits - 1) as nat) {
        value as int
    } else {
        value - vstd::arithmetic::power2::pow2(bits)
    }
}

/// What the bytes of `bytes` from `at` on stand for.
pub open spec fn byte_info(bytes: Seq<u8>, at: int) -> ByteInfo {
    ByteInfo {
        sbyte: if at + 1 <= bytes.len() {
            Some(signed(unsigned_at(bytes, at, 1), 8) as i8)
        } else {
            None
        },
        byte: if at + 1 <= bytes.len() {
            Some(unsigned_at(bytes, at, 1) as u8)
        } else {
            None
        },
        short: if at + 2 <= bytes.len() {
            Some(signed(unsigned_at(bytes, at, 2), 16) as i16)
        } else {
            None
        },
        ushort: if at + 2 <= bytes.len() {
            Some(unsigned_at(bytes, at, 2) as u16)
        } else {
            None
        },
        int: if at + 4 <= bytes.len() {
            Some(signed(unsigned_at(bytes, at, 4), 32) as i32)
        } else {
            None
        },
        uint: if at + 4 <= bytes.len() {
            Some(unsigned_at(bytes, at, 4) as u32)
        } else {
            None
        },
        long: if at + 8 <= bytes.len() {
            Some(signed(unsigned_at(bytes, at, 8), 64) as i64)
        } else {
            None
        },
        ulong: if at + 8 <= bytes.len() {
            Some(unsigned_at(bytes, at, 8) as u64)
        } else {
            None
        },
    }
}

/// How many rows a table of `columns_count` columns takes for `len` bytes.
pub open spec fn rows_of(len: nat, columns_count: nat) -> nat {
    if len % columns_count > 0 {
        len / columns_count + 1
    } else {
        len / columns_count
    }
}

/// What a captured frame is: the mathematical value of a [`Packet`].
pub struct PacketView {
    pub id: u64,
    pub direction: PacketDirection,
    pub buffer: Seq<u8>,
    pub header: SHeader,
    pub columns_count: usize,
    pub selected_buffer_index: usize,
}

/// The frame that is recorded under `id` for the bytes `buffer`: its header
/// is read from the first twelve bytes, and nothing is selected in it.
pub open spec fn captured(id: u64, direction: PacketDirection, buffer: Seq<u8>) -> PacketView {
    PacketView {
        id,
        direction,
        buffer,
        header: SHeader::unpacked(buffer.subrange(0, HEADER_SIZE as int)),
        columns_count: 0,
        selected_buffer_index: 0,
    }
}

/// A captured frame: its identifier, its direction, its bytes as recorded,
/// the header read from them, and what the viewer has selected in it.
#[derive(Debug)]
pub struct Packet {
    id: u64,
    direction: PacketDirection,
    buffer: Vec<u8>,
    header: SHeader,
    columns_count: usize,
    selected_buffer_index: usize,
}

impl View for Packet {
    type V = PacketView;

    closed spec fn view(&self) -> PacketView {
        PacketView {
            id: self.id,
            direction: self.direction,
            buffer: self.buffer@,
            header: self.header,
            columns_count: self.columns_count,
            selected_buffer_index: self.selected_buffer_index,
        }
    }
}

impl PartialEq for Packet {
    /// Two frames are the same frame when they carry the same identifier.
    fn eq(&self, other: &Packet) -> (same: bool) {
        self.id == other.id
    }
}

impl vstd::std_specs::cmp::PartialEqSpecImpl for Packet {
    open spec fn obeys_eq_spec() -> bool {
        true
    }

    open spec fn eq_spec(&self, other: &Packet) -> bool {
        self@.id == other@.id
    }
}

impl Clone for Packet {
    fn clone(&self) -> (copy: Packet)
        ensures
            copy@ == self@,
    {
        Packet {
            id: self.id,
            direction: self.direction,
            buffer: self.buffer.clone(),
            header: self.header,
            columns_count: self.columns_count,
            selected_buffer_index: self.selected_buffer_index,
        }
    }
}

impl PacketView {
    /// Whether the frame holds at least a header and carries the header that
    /// its first twelve bytes stand for.
    pub open spec fn wf(&self) -> bool {
        &&& self.buffer.len() >= HEADER_SIZE
        &&& self.header == SHeader::unpacked(self.buffer.subrange(0, HEADER_SIZE as int))
    }
}

impl Packet {
    /// Whether the frame holds at least a header and carries the header that
    /// its first twelve bytes stand for.
    pub open spec fn wf(&self) -> bool {
        self@.wf()
    }

    /// Records `buffer` under `id`.
    pub fn new(id: u64, direction: PacketDirection, buffer: Vec<u8>) -> (packet: Packet)
        requires
            buffer@.len() >= HEADER_SIZE,
        ensures
            packet@ == captured(id, direction, buffer@),
            packet.wf(),
    {
        let head: Vec<u8> = head_of(&buffer);
        let header: SHeader = deserialize::<SHeader>(head.as_slice()).unwrap();
        Packet { id, direction, buffer, header, columns_count: 0, selected_buffer_index: 0 }
    }

    /// Records `buffer` under the next frame identifier. Nothing is recorded
    /// when the identifiers have run out.
    pub fn new_sync(last_id: &mut LastId, direction: PacketDirection, buffer: Vec<u8>) -> (packet:
        Option<Packet>)
        requires
            buffer@.len() >= HEADER_SIZE,
        ensures
            final(last_id).connections == old(last_id).connections,
            old(last_id).packets == u64::MAX ==> packet.is_none() && final(last_id).packets == old(
                last_id,
            ).packets,
            old(last_id).packets < u64::MAX ==> final(last_id).packets == old(last_id).packets + 1
                && packet.is_some() && packet.unwrap()@ == captured(
                (old(last_id).packets + 1) as u64,
                direction,
                buffer@,
            ) && packet.unwrap().wf(),
    {
        match last_id.sync_next_packet_id() {
            Some(id) => Some(Packet::new(id, direction, buffer)),
            None => None,
        }
    }

    /// The identifier of the frame.
    pub fn get_id(&self) -> (id: u64)
        ensures
            id == self@.id,
    {
        self.id
    }

    /// The bytes of the frame as recorded.
    pub fn get_buffer(&self) -> (buffer: &Vec<u8>)
        ensures
            buffer@ == self@.buffer,
    {
        &self.buffer
    }

    /// The way the frame travelled.
    pub fn get_direction(&self) -> (direction: PacketDirection)
        ensures
            direction == self@.direction,
    {
        self.direction
    }

    /// The header read from the frame.
    pub fn get_header(&self) -> (header: SHeader)
        ensures
            header == self@.header,
    {
        self.header
    }

    /// The number of columns in which the viewer last laid the bytes out.
    pub fn get_columns_count(&self) -> (count: usize)
        ensures
            count == self@.columns_count,
    {
        self.columns_count
    }

    /// Notes the number of columns in which the viewer lays the bytes out.
    pub fn update_columns_count(&mut self, new_columns_count: usize)
        ensures
            final(self)@ == (PacketView { columns_count: new_columns_count, ..old(self)@ }),
    {
        if self.columns_count != new_columns_count {
            self.columns_count = new_columns_count;
        }
    }

    /// What the bytes from the selected one on stand for, read as numbers.
    pub fn selected_byte_info(&self) -> (info: ByteInfo)
        ensures
            info == byte_info(self@.buffer, self@.selected_buffer_index as int),
    {
        let at: usize = self.selected_buffer_index;
        let len: usize = self.buffer.len();
        let mut info = ByteInfo {
            sbyte: None,
            byte: None,
            short: None,
            ushort: None,
            int: None,
            uint: None,
            long: None,
            ulong: None,
        };
        proof {
            vstd::arithmetic::power2::lemma2_to64();
            vstd::arithmetic::power2::lemma2_to64_rest();
        }
        if at < len {
            let left: usize = len - at;
            let b: u64 = read_unsigned(&self.buffer, at, 1);
            let sb: i8 = if b < 0x80 {
                b as i8
            } else {
                (b as i64 - 0x100) as i8
            };
            info.sbyte = Some(sb);
            info.byte = Some(b as u8);
            if left >= 2 {
                let s: u64 = read_unsigned(&self.buffer, at, 2);
                let ss: i16 = if s < 0x8000 {
                    s as i16
                } else {
                    (s as i64 - 0x1_0000) as i16
                };
                info.short = Some(ss);
                info.ushort = Some(s as u16);
            }
            if left >= 4 {
                let w: u64 = read_unsigned(&self.buffer, at, 4);
                let sw: i32 = if w < 0x8000_0000 {
                    w as i32
                } else {
                    (w as i64 - 0x1_0000_0000) as i32
                };
                info.int = Some(sw);
                info.uint = Some(w as u32);
            }
            if left >= 8 {
                let l: u64 = read_unsigned_long(&self.buffer, at);
                let sl: i64 = if l < 0x8000_0000_0000_0000 {
                    l as i64
                } else {
                    ((l - 0x8000_0000_0000_0000) as i64) + i64::MIN
                };
                info.long = Some(sl);
                info.ulong = Some(l);
            }
        }
        info
    }

    /// How many rows a table of `columns_count` columns takes for the bytes
    /// of the frame.
    pub fn table_rows(&self, columns_count: usize) -> (rows: usize)
        requires
            columns_count > 0,
        ensures
            rows == rows_of(self@.buffer.len(), columns_count as nat),
    {
        let len: usize = self.buffer.len();
        let mut rows: usize = len / columns_count;
        if len % columns_count > 0 {
            proof {
                assert(len / columns_count < len) by (nonlinear_arith)
                    requires
                        columns_count > 0,
                        len % columns_count > 0,
                ;
            }
            rows = rows + 1;
        }
        rows
    }

    /// The places of the first and of the last byte of row `row` of a table
    /// of `columns_count` columns.
    pub fn row_bounds(&self, row: usize, columns_count: usize) -> (bounds: (usize, usize))
        requires
            columns_count > 0,
            row < rows_of(self@.buffer.len(), columns_count as nat),
        ensures
            bounds.0 == row * columns_count,
            bounds.0 <= bounds.1 < self@.buffer.len(),
            bounds.1 == if (row + 1) * columns_count <= self@.buffer.len() {
                (row + 1) * columns_count - 1
            } else {
                self@.buffer.len() - 1
            },
    {
        let len: usize = self.buffer.len();
        proof {
            let c = columns_count as int;
            let n = len as int;
            let r = row as int;
            assert(r * c < n && r * c >= 0 && (r + 1) * c == r * c + c) by (nonlinear_arith)
                requires
                    c > 0,
                    r >= 0,
                    n >= 0,
                    r < (if n % c > 0 {
                        n / c + 1
                    } else {
                        n / c
                    }),
            ;
        }
        let first: usize = row * columns_count;
        let last: usize = if len - first <= columns_count {
            len - 1
        } else {
            first + columns_count - 1
        };
        (first, last)
    }

    /// The index of the byte that the viewer has selected.
    pub fn get_selected_buffer_index(&self) -> (index: usize)
        ensures
            index == self@.selected_buffer_index,
    {
        self.selected_buffer_index
    }

    /// Selects the byte at `index`; an index beyond the frame selects nothing
    /// that can be shown.
    pub fn set_selected_buffer_index(&mut self, index: usize)
        ensures
            final(self)@ == (PacketView { selected_buffer_index: index, ..old(self)@ }),
    {
        self.selected_buffer_index = index;
    }
}

/// Reads one, two or four bytes from `at` on as a little-endian number.
fn read_unsigned(bytes: &Vec<u8>, at: usize, width: usize) -> (value: u64)
    requires
        width == 1 || width == 2 || width == 4,
        at + width <= bytes@.len(),
    ensures
        value == unsigned_at(bytes@, at as int, width as nat),
        width == 1 ==> value < 0x100,
        width == 2 ==> value < 0x1_0000,
        width == 4 ==> value < 0x1_0000_0000,
{
    proof {
        reveal_with_fuel(unsigned_at, 5);
    }
    let len: usize = bytes.len();
    let b0: u64 = bytes[at] as u64;
    if width == 1 {
        return b0;
    }
    let b1: u64 = bytes[at + 1] as u64;
    if width == 2 {
        return b0 + 256 * b1;
    }
    let b2: u64 = bytes[at + 2] as u64;
    let b3: u64 = bytes[at + 3] as u64;
    b0 + 256 * b1 + 65536 * b2 + 16777216 * b3
}

/// Reads eight bytes from `at` on as a little-endian number.
fn read_unsigned_long(bytes: &Vec<u8>, at: usize) -> (value: u64)
    requires
        at + 8 <= bytes@.len(),
    ensures
        value == unsigned_at(bytes@, at as int, 8),
{
    let len: usize = bytes.len();
    let lo: u64 = read_unsigned(bytes, at, 4);
    let hi: u64 = read_unsigned(bytes, at + 4, 4);
    proof {
        reveal_with_fuel(unsigned_at, 5);
        let low = unsigned_at(bytes@, at as int, 4);
        let high = unsigned_at(bytes@, at + 4, 4);
        assert(unsigned_at(bytes@, at as int, 8) == low + 4294967296 * high) by {
            assert(unsigned_at(bytes@, at + 3, 5) == bytes@[at + 3] as nat + 256 * high);
            assert(unsigned_at(bytes@, at + 2, 6) == bytes@[at + 2] as nat + 256 * unsigned_at(
                bytes@,
                at + 3,
                5,
            ));
            assert(unsigned_at(bytes@, at + 1, 7) == bytes@[at + 1] as nat + 256 * unsigned_at(
                bytes@,
                at + 2,
                6,
            ));
            assert(unsigned_at(bytes@, at as int, 8) == bytes@[at as int] as nat + 256
                * unsigned_at(bytes@, at + 1, 7));
        }
    }
    lo + 4294967296 * hi
}

/// The first twelve bytes of a frame.
fn head_of(buffer: &Vec<u8>) -> (head: Vec<u8>)
    requires
        buffer@.len() >= HEADER_SIZE,
    ensures
        head@ == buffer@.subrange(0, HEADER_SIZE as int),
{
    let mut head: Vec<u8> = Vec::with_capacity(HEADER_SIZE);
    let mut i: usize = 0;
    while i < HEADER_SIZE
        invariant
            i <= HEADER_SIZE,
            buffer@.len() >= HEADER_SIZE,
            head@ == buffer@.subrange(0, i as int),
        decreases HEADER_SIZE - i,
    {
        head.push(buffer[i]);
        i = i + 1;
        assert(head@ =~= buffer@.subrange(0, i as int));
    }
    head
}

} // verus!
