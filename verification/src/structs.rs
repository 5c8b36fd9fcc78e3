//! The fixed-layout records of the client's files, and the zero-terminated
//! string cells they are made of.

use vstd::prelude::*;
use fixedstr::zstr;
use crate::encodings::{
    trimmed, utf8_to_windows1252, windows1252_to_utf8, windows_1252_decoded, windows_1252_encoded,
    TEXT_LIMIT,
};
use crate::packets::strings::{drop_zeros, lemma_without_zeros, resized, without_zeros};

pub mod server_list;
pub mod server_name;
pub mod strdef;

verus! {

/// How many bytes of `raw` go into a cell of `n` bytes: those before its
/// first zero byte, and `n - 1` at most.
pub open spec fn raw_len(raw: Seq<u8>, n: nat) -> nat
    decreases raw.len(),
{
    if n <= 1 || raw.len() == 0 || raw[0] == 0 {
        0
    } else {
        1 + raw_len(raw.skip(1), (n - 1) as nat)
    }
}

/// The bytes of `raw` that go into a cell of `n` bytes.
pub open spec fn raw_text(raw: Seq<u8>, n: nat) -> Seq<u8> {
    raw.take(raw_len(raw, n) as int)
}

/// The cell of `n` bytes that holds `raw`: its text, then zeros.
pub open spec fn cell_of(raw: Seq<u8>, n: nat) -> Seq<u8> {
    resized(raw_text(raw, n), n)
}

/// How many bytes of text a cell of `n` bytes holds of `len`: all of them
/// while a zero byte still fits behind them, and `n - 1` otherwise.
pub open spec fn kept(len: nat, n: nat) -> nat {
    if n == 0 {
        0
    } else if len < n {
        len
    } else {
        (n - 1) as nat
    }
}

/// The cell of `n` bytes that holds the encoded text `encoded`: its bytes
/// that are not zero, as many as the cell holds, then zeros.
pub open spec fn text_cell(encoded: Seq<u8>, n: nat) -> Seq<u8> {
    resized(
        without_zeros(encoded).take(kept(without_zeros(encoded).len(), n) as int),
        n,
    )
}

/// The place of the first zero byte of a cell, or its length when it has
/// none.
pub open spec fn first_zero(cell: Seq<u8>) -> nat
    decreases cell.len(),
{
    if cell.len() == 0 || cell[0] == 0 {
        0
    } else {
        1 + first_zero(cell.skip(1))
    }
}

/// The text of a cell: its bytes before the first zero.
pub open spec fn text_of(cell: Seq<u8>) -> Seq<u8> {
    cell.take(first_zero(cell) as int)
}

/// The cells of `width` bytes that `bytes` is made of, in order; bytes at
/// the end that do not fill a cell belong to none.
pub open spec fn chunks(bytes: Seq<u8>, width: nat) -> Seq<Seq<u8>>
    decreases bytes.len(),
{
    if width == 0 || bytes.len() < width {
        seq![]
    } else {
        seq![bytes.take(width as int)] + chunks(bytes.skip(width as int), width)
    }
}

/// The bytes of a run of cells, one after another.
pub open spec fn flat(cells: Seq<Seq<u8>>) -> Seq<u8>
    decreases cells.len(),
{
    if cells.len() == 0 {
        seq![]
    } else {
        cells[0] + flat(cells.skip(1))
    }
}

/// Whether every cell of a run has `width` bytes.
pub open spec fn uniform(cells: Seq<Seq<u8>>, width: nat) -> bool {
    forall|i: int| 0 <= i < cells.len() ==> (#[trigger] cells[i]).len() == width
}

/// The first zero byte of a cell stands within the cell or at its end, and
/// no byte before it is zero.
pub proof fn lemma_first_zero(cell: Seq<u8>)
    ensures
        first_zero(cell) <= cell.len(),
        forall|i: int| 0 <= i < first_zero(cell) ==> cell[i] != 0,
        first_zero(cell) < cell.len() ==> cell[first_zero(cell) as int] == 0,
    decreases cell.len(),
{
    if cell.len() == 0 || cell[0] == 0 {
    } else {
        let rest = cell.skip(1);
        lemma_first_zero(rest);
        assert forall|i: int| 0 <= i < first_zero(cell) implies cell[i] != 0 by {
            if i > 0 {
                assert(rest[i - 1] == cell[i]);
            }
        }
        if first_zero(cell) < cell.len() {
            assert(rest[first_zero(rest) as int] == cell[first_zero(cell) as int]);
        }
    }
}

/// The text that goes into a cell has no zero byte and is shorter than the
/// cell, and the cell gives it back.
pub proof fn lemma_cell_text(raw: Seq<u8>, n: nat)
    requires
        n >= 1,
    ensures
        raw_len(raw, n) <= raw.len(),
        raw_len(raw, n) < n,
        forall|i: int| 0 <= i < raw_len(raw, n) ==> raw[i] != 0,
        cell_of(raw, n).len() == n,
        first_zero(cell_of(raw, n)) == raw_len(raw, n),
        text_of(cell_of(raw, n)) == raw_text(raw, n),
    decreases raw.len(),
{
    if n <= 1 || raw.len() == 0 || raw[0] == 0 {
        assert(raw_text(raw, n) =~= Seq::<u8>::empty());
        assert(cell_of(raw, n)[0] == 0u8);
        assert(text_of(cell_of(raw, n)) =~= raw_text(raw, n));
    } else {
        let rest = raw.skip(1);
        let m = (n - 1) as nat;
        lemma_cell_text(rest, m);
        assert forall|i: int| 0 <= i < raw_len(raw, n) implies raw[i] != 0 by {
            if i > 0 {
                assert(rest[i - 1] == raw[i]);
            }
        }
        assert(cell_of(raw, n).skip(1) =~= cell_of(rest, m)) by {
            assert forall|i: int| 0 <= i < m implies cell_of(raw, n).skip(1)[i] == cell_of(
                rest,
                m,
            )[i] by {
                if i < raw_len(rest, m) {
                    assert(rest[i] == raw[i + 1]);
                }
            }
        }
        assert(cell_of(raw, n)[0] == raw[0]);
        assert(first_zero(cell_of(raw, n)) == 1 + first_zero(cell_of(rest, m)));
        assert(text_of(cell_of(raw, n)) =~= raw_text(raw, n));
    }
}

/// Of bytes none of which is zero, a cell holds as many as it has room for.
pub proof fn lemma_raw_len_clean(raw: Seq<u8>, n: nat)
    requires
        forall|i: int| 0 <= i < raw.len() ==> raw[i] != 0,
    ensures
        raw_len(raw, n) == kept(raw.len(), n),
    decreases raw.len(),
{
    if n <= 1 || raw.len() == 0 {
    } else {
        let rest = raw.skip(1);
        assert forall|i: int| 0 <= i < rest.len() implies rest[i] != 0 by {
            assert(rest[i] == raw[i + 1]);
        }
        lemma_raw_len_clean(rest, (n - 1) as nat);
    }
}

/// The cell made from encoded text without its zeros is the cell that holds
/// the text, and that cell gives the text back as far as it holds it.
pub proof fn lemma_text_cell(encoded: Seq<u8>, n: nat)
    ensures
        cell_of(without_zeros(encoded), n) == text_cell(encoded, n),
        text_cell(encoded, n).len() == n,
        n >= 1 ==> text_of(text_cell(encoded, n)) == without_zeros(encoded).take(
            kept(without_zeros(encoded).len(), n) as int,
        ),
{
    lemma_without_zeros(encoded);
    lemma_raw_len_clean(without_zeros(encoded), n);
    if n >= 1 {
        lemma_cell_text(without_zeros(encoded), n);
    }
}

/// The cells of a run of whole cells, laid out again, are the run; and
/// there are as many of them as the run has room for.
pub proof fn lemma_chunks(bytes: Seq<u8>, width: nat)
    requires
        width > 0,
    ensures
        uniform(chunks(bytes, width), width),
        chunks(bytes, width).len() * width <= bytes.len(),
        bytes.len() < chunks(bytes, width).len() * width + width,
        flat(chunks(bytes, width)) == bytes.take((chunks(bytes, width).len() * width) as int),
    decreases bytes.len(),
{
    if bytes.len() < width {
        assert(chunks(bytes, width).len() * width == 0) by (nonlinear_arith)
            requires
                chunks(bytes, width).len() == 0,
        ;
        assert(flat(chunks(bytes, width)) =~= bytes.take(0));
    } else {
        let rest = bytes.skip(width as int);
        lemma_chunks(rest, width);
        let tail = chunks(rest, width);
        let all = chunks(bytes, width);
        assert(all.skip(1) =~= tail);
        assert(all.len() == tail.len() + 1);
        assert((tail.len() + 1) * width == tail.len() * width + width) by (nonlinear_arith);
        assert(flat(all) == bytes.take(width as int) + flat(tail));
        assert(flat(all) =~= bytes.take((all.len() * width) as int));
    }
}

/// A run of cells of one width, laid out, is made of just those cells.
pub proof fn lemma_flat(cells: Seq<Seq<u8>>, width: nat)
    requires
        width > 0,
        uniform(cells, width),
    ensures
        flat(cells).len() == cells.len() * width,
        chunks(flat(cells), width) == cells,
    decreases cells.len(),
{
    if cells.len() == 0 {
        assert(cells.len() * width == 0) by (nonlinear_arith)
            requires
                cells.len() == 0,
        ;
        assert(chunks(flat(cells), width) =~= cells);
    } else {
        let tail = cells.skip(1);
        assert(uniform(tail, width)) by {
            assert forall|i: int| 0 <= i < tail.len() implies (#[trigger] tail[i]).len()
                == width by {
                assert(tail[i] == cells[i + 1]);
            }
        }
        lemma_flat(tail, width);
        assert(cells.len() == tail.len() + 1);
        assert((tail.len() + 1) * width == tail.len() * width + width) by (nonlinear_arith);
        let all = flat(cells);
        assert(all.take(width as int) =~= cells[0]);
        assert(all.skip(width as int) =~= flat(tail));
        assert(chunks(all, width) =~= cells);
    }
}

/// In a run of cells of one width, laid out, the byte at place `p` is byte
/// `p % width` of cell `p / width`.
pub proof fn lemma_flat_index(cells: Seq<Seq<u8>>, width: nat, p: int)
    requires
        width > 0,
        uniform(cells, width),
        0 <= p < cells.len() * width,
    ensures
        0 <= p / (width as int) < cells.len(),
        0 <= p % (width as int) < width,
        flat(cells)[p] == cells[p / (width as int)][p % (width as int)],
    decreases cells.len(),
{
    let w = width as int;
    if cells.len() == 0 {
        assert(cells.len() * width == 0) by (nonlinear_arith)
            requires
                cells.len() == 0,
        ;
    } else {
        let tail = cells.skip(1);
        assert(uniform(tail, width)) by {
            assert forall|i: int| 0 <= i < tail.len() implies (#[trigger] tail[i]).len()
                == width by {
                assert(tail[i] == cells[i + 1]);
            }
        }
        lemma_flat(tail, width);
        assert(cells[0].len() == width);
        assert((tail.len() + 1) * width == tail.len() * width + width) by (nonlinear_arith);
        if p < w {
            assert(p / w == 0 && p % w == p) by (nonlinear_arith)
                requires
                    0 <= p < w,
            ;
        } else {
            lemma_flat_index(tail, width, p - w);
            assert((p - w) / w == p / w - 1 && (p - w) % w == p % w) by (nonlinear_arith)
                requires
                    w > 0,
                    p >= w,
            ;
            assert(tail[(p - w) / w] == cells[p / w]);
        }
    }
}

/// `fixedstr::zstr::<N>::from_raw`, read back with
/// `zstr::as_bytes_non_terminated`: the bytes of `raw` before its first
/// zero byte, `N - 1` of them at most, which is the text that the
/// zero-terminated string of `N` bytes made from `raw` holds.
#[verifier::external_body]
fn from_raw<const N: usize>(raw: &[u8]) -> (text: Vec<u8>)
    ensures
        text@ == raw_text(raw@, N as nat),
{
    zstr::<N>::from_raw(raw).as_bytes_non_terminated().to_vec()
}

/// A zero-terminated string in a cell of `N` bytes, as the record files
/// hold it. A cell read from a file is kept byte for byte, whatever follows
/// its first zero.
#[derive(Debug, Clone, Copy)]
pub struct ZStr<const N: usize> {
    chrs: [u8; N],
}

impl<const N: usize> View for ZStr<N> {
    type V = Seq<u8>;

    closed spec fn view(&self) -> Seq<u8> {
        self.chrs@
    }
}

impl<const N: usize> ZStr<N> {
    /// A cell has `N` bytes.
    pub proof fn lemma_len(&self)
        ensures
            self@.len() == N,
    {
    }

    /// The cell with exactly these bytes.
    pub fn from_bytes(cell: [u8; N]) -> (z: ZStr<N>)
        ensures
            z@ == cell@,
    {
        ZStr { chrs: cell }
    }

    /// The bytes of the cell.
    pub fn to_bytes(&self) -> (cell: [u8; N])
        ensures
            cell@ == self@,
    {
        self.chrs
    }

    /// The cell that holds the bytes `raw`: those before its first zero
    /// byte, `N - 1` at most, then zeros.
    pub fn from_raw(raw: &[u8]) -> (z: ZStr<N>)
        ensures
            z@ == cell_of(raw@, N as nat),
    {
        let text: Vec<u8> = from_raw::<N>(raw);
        let mut chrs: [u8; N] = [0u8; N];
        let mut i: usize = 0;
        while i < N && i < text.len()
            invariant
                i <= N,
                i <= text@.len(),
                chrs@.len() == N,
                forall|j: int| 0 <= j < i ==> chrs@[j] == text@[j],
                forall|j: int| i <= j < N ==> chrs@[j] == 0,
            decreases N - i,
        {
            chrs[i] = text[i];
            i = i + 1;
        }
        assert(chrs@ =~= cell_of(raw@, N as nat));
        ZStr { chrs }
    }

    /// The cell that holds the encoded text `encoded`: its bytes that are
    /// not zero, `N - 1` of them at most, then zeros.
    pub fn from_encoded(encoded: &[u8]) -> (z: ZStr<N>)
        ensures
            z@ == text_cell(encoded@, N as nat),
    {
        let clean: Vec<u8> = drop_zeros(encoded);
        proof {
            lemma_text_cell(encoded@, N as nat);
        }
        Self::from_raw(clean.as_slice())
    }

    /// The cell that holds `text` in the legacy encoding: the bytes of the
    /// encoded text that are not zero, `N - 1` of them at most, then zeros.
    pub fn from_text(text: &str) -> (z: ZStr<N>)
        requires
            text.len() <= TEXT_LIMIT,
        ensures
            z@ == text_cell(windows_1252_encoded(text@), N as nat),
    {
        let encoded: Vec<u8> = utf8_to_windows1252(text);
        Self::from_encoded(encoded.as_slice())
    }

    /// The length of the text of the cell: the place of its first zero byte,
    /// or `N` when it has none.
    pub fn len(&self) -> (n: usize)
        ensures
            n == first_zero(self@),
            n <= N,
    {
        let mut i: usize = 0;
        assert(self.chrs@.skip(0) =~= self.chrs@);
        while i < N && self.chrs[i] != 0
            invariant
                i <= N,
                self.chrs@.len() == N,
                first_zero(self.chrs@) == i + first_zero(self.chrs@.skip(i as int)),
            decreases N - i,
        {
            assert(self.chrs@.skip(i as int).skip(1) =~= self.chrs@.skip(i + 1));
            i = i + 1;
        }
        i
    }

    /// The text of the cell: its bytes before the first zero.
    pub fn as_bytes_non_terminated(&self) -> (text: Vec<u8>)
        ensures
            text@ == text_of(self@),
            text@.len() <= N,
    {
        let n: usize = self.len();
        let mut text: Vec<u8> = Vec::with_capacity(n);
        let mut i: usize = 0;
        while i < n
            invariant
                i <= n,
                n <= N,
                self.chrs@.len() == N,
                text@ == self.chrs@.take(i as int),
            decreases n - i,
        {
            text.push(self.chrs[i]);
            i = i + 1;
            assert(text@ =~= self.chrs@.take(i as int));
        }
        text
    }

    /// The text of the cell as a string: decoded from the legacy encoding,
    /// without the white space at its two ends.
    pub fn to_string(&self) -> (text: String)
        requires
            N <= TEXT_LIMIT,
        ensures
            text@ == trimmed(windows_1252_decoded(text_of(self@))),
    {
        let bytes: Vec<u8> = self.as_bytes_non_terminated();
        windows1252_to_utf8(bytes.as_slice())
    }
}

/// The values of a list of cells.
pub open spec fn cell_views<const N: usize>(cells: Seq<ZStr<N>>) -> Seq<Seq<u8>> {
    cells.map_values(|z: ZStr<N>| z@)
}

/// Reads the cells of `N` bytes that `section` is made of.
pub fn read_cells<const N: usize>(section: &[u8]) -> (cells: Vec<ZStr<N>>)
    requires
        N > 0,
    ensures
        cell_views(cells@) == chunks(section@, N as nat),
{
    let mut cells: Vec<ZStr<N>> = Vec::new();
    let len: usize = section.len();
    let mut pos: usize = 0;
    assert(section@.skip(0) =~= section@);
    assert(cell_views(cells@) =~= Seq::<Seq<u8>>::empty());
    while len - pos >= N
        invariant
            N > 0,
            pos <= len,
            len == section@.len(),
            chunks(section@, N as nat) == cell_views(cells@) + chunks(
                section@.skip(pos as int),
                N as nat,
            ),
        decreases len - pos,
    {
        let cell: [u8; N] = crate::packets::serializer::read_array::<N>(section, pos);
        let z: ZStr<N> = ZStr::from_bytes(cell);
        let ghost rest = section@.skip(pos as int);
        assert(z@ =~= rest.take(N as int));
        assert(rest.skip(N as int) =~= section@.skip(pos + N));
        let ghost before = cells@;
        cells.push(z);
        assert(cell_views(cells@) =~= cell_views(before) + seq![z@]);
        pos = pos + N;
    }
    cells
}

/// Appends the bytes of the cells, one after another.
pub fn write_cells<const N: usize>(out: &mut Vec<u8>, cells: &Vec<ZStr<N>>)
    ensures
        final(out)@ == old(out)@ + flat(cell_views(cells@)),
{
    let ghost all = cell_views(cells@);
    let mut k: usize = 0;
    assert(all.skip(0) =~= all);
    while k < cells.len()
        invariant
            k <= cells@.len(),
            all == cell_views(cells@),
            out@ + flat(all.skip(k as int)) == old(out)@ + flat(all),
        decreases cells@.len() - k,
    {
        let cell: [u8; N] = cells[k].to_bytes();
        let ghost before = out@;
        out.extend_from_slice(cell.as_slice());
        proof {
            let rest = all.skip(k as int);
            assert(rest[0] == cells@[k as int]@);
            assert(rest.skip(1) =~= all.skip(k + 1));
            assert(flat(rest) == rest[0] + flat(all.skip(k + 1)));
            assert(out@ + flat(all.skip(k + 1)) =~= before + flat(rest));
        }
        k = k + 1;
    }
    assert(all.skip(k as int) =~= Seq::<Seq<u8>>::empty());
    assert(out@ + flat(all.skip(k as int)) =~= out@);
}

} // verus!
