//! The frame codec: cutting a byte stream into length-prefixed frames, and
//! the reversible transform that a frame passes through before it is
//! recorded.

use vstd::prelude::*;
use crate::errors::ErrorKind;
use crate::packets::structs::header::HEADER_SIZE;

verus! {

/// The total size that the first two bytes of `buf` declare, little-endian.
pub open spec fn declared_size(buf: Seq<u8>) -> int
    recommends
        buf.len() >= 2,
{
    buf[0] as int + 256 * (buf[1] as int)
}

/// Whether `buf` opens with a whole frame: a declared size that leaves room
/// for a header and that `buf` holds in full.
pub open spec fn has_frame(buf: Seq<u8>) -> bool {
    buf.len() >= 2 && HEADER_SIZE <= declared_size(buf) <= buf.len()
}

/// Whether `buf` opens with a declared size too small for a header.
pub open spec fn is_malformed(buf: Seq<u8>) -> bool {
    buf.len() >= 2 && declared_size(buf) < HEADER_SIZE
}

/// The frames that open `buf`, in order, up to the first place where no
/// whole frame stands.
pub open spec fn frames_of(buf: Seq<u8>) -> Seq<Seq<u8>>
    decreases buf.len(),
{
    if has_frame(buf) {
        seq![buf.take(declared_size(buf))] + frames_of(buf.skip(declared_size(buf)))
    } else {
        seq![]
    }
}

/// What is left of `buf` behind its frames.
pub open spec fn residue_of(buf: Seq<u8>) -> Seq<u8>
    decreases buf.len(),
{
    if has_frame(buf) {
        residue_of(buf.skip(declared_size(buf)))
    } else {
        buf
    }
}

/// The bytes of a run of frames, one after another.
pub open spec fn concat(frames: Seq<Seq<u8>>) -> Seq<u8>
    decreases frames.len(),
{
    if frames.len() == 0 {
        seq![]
    } else {
        frames[0] + concat(frames.skip(1))
    }
}

/// The contents of a list of byte vectors.
pub open spec fn contents(frames: Seq<Vec<u8>>) -> Seq<Seq<u8>> {
    frames.map_values(|f: Vec<u8>| f@)
}

/// The frames extracted, concatenated and followed by the residue, are the
/// stream; every frame is as long as its first two bytes declare and holds
/// at least a header; and the residue opens with no whole frame. Unless the
/// residue is malformed it is shorter than the frame it declares, so at most
/// 65534 bytes long.
pub proof fn lemma_framing(stream: Seq<u8>)
    ensures
        concat(frames_of(stream)) + residue_of(stream) == stream,
        forall|i: int|
            0 <= i < frames_of(stream).len() ==> {
                let f = #[trigger] frames_of(stream)[i];
                f.len() >= HEADER_SIZE && f.len() == declared_size(f)
            },
        !has_frame(residue_of(stream)),
        !is_malformed(residue_of(stream)) ==> residue_of(stream).len() <= 65534 && (residue_of(
            stream,
        ).len() < 2 || residue_of(stream).len() < declared_size(residue_of(stream))),
    decreases stream.len(),
{
    if has_frame(stream) {
        let size = declared_size(stream);
        let rest = stream.skip(size);
        lemma_framing(rest);
        let frames = frames_of(stream);
        assert(frames.skip(1) =~= frames_of(rest));
        assert(frames[0] == stream.take(size));
        assert(concat(frames) == stream.take(size) + concat(frames_of(rest)));
        assert(concat(frames) + residue_of(stream) =~= stream.take(size) + (concat(
            frames_of(rest),
        ) + residue_of(rest)));
        assert(stream.take(size) + rest =~= stream);
        assert forall|i: int| 0 <= i < frames.len() implies {
            let f = #[trigger] frames[i];
            f.len() >= HEADER_SIZE && f.len() == declared_size(f)
        } by {
            if i > 0 {
                assert(frames[i] == frames_of(rest)[i - 1]);
            }
        }
    } else {
        assert(concat(frames_of(stream)) + residue_of(stream) =~= stream);
    }
}

/// Framing what a first pass left, with more bytes behind it, finds the same
/// frames as framing the whole stream at once: the split points of the
/// stream do not matter.
pub proof fn lemma_framing_resumes(first: Seq<u8>, more: Seq<u8>)
    ensures
        frames_of(first + more) == frames_of(first) + frames_of(residue_of(first) + more),
        residue_of(first + more) == residue_of(residue_of(first) + more),
    decreases first.len(),
{
    if has_frame(first) {
        let size = declared_size(first);
        assert(declared_size(first + more) == size);
        assert(has_frame(first + more));
        assert((first + more).take(size) =~= first.take(size));
        assert((first + more).skip(size) =~= first.skip(size) + more);
        lemma_framing_resumes(first.skip(size), more);
        assert(frames_of(first + more) =~= frames_of(first) + frames_of(
            residue_of(first) + more,
        ));
    } else {
        assert(frames_of(first) + frames_of(residue_of(first) + more) =~= frames_of(
            first + more,
        ));
    }
}

/// The frames found when the reads `reads` arrive one after another behind
/// `persisted` and each is framed on arrival, a pass taking up what the pass
/// before it left.
pub open spec fn frames_after(persisted: Seq<u8>, reads: Seq<Seq<u8>>) -> Seq<Seq<u8>>
    decreases reads.len(),
{
    if reads.len() == 0 {
        seq![]
    } else {
        frames_of(persisted + reads[0]) + frames_after(
            residue_of(persisted + reads[0]),
            reads.skip(1),
        )
    }
}

/// What the last of those passes leaves.
pub open spec fn residue_after(persisted: Seq<u8>, reads: Seq<Seq<u8>>) -> Seq<u8>
    decreases reads.len(),
{
    if reads.len() == 0 {
        persisted
    } else {
        residue_after(residue_of(persisted + reads[0]), reads.skip(1))
    }
}

/// However a stream is cut into reads, and however many there are, framing
/// each read on arrival finds the frames of the whole stream and leaves its
/// residue. `persisted` is what an earlier pass left, or nothing.
pub proof fn lemma_framing_over_reads(persisted: Seq<u8>, reads: Seq<Seq<u8>>)
    requires
        !has_frame(persisted),
    ensures
        frames_after(persisted, reads) == frames_of(persisted + concat(reads)),
        residue_after(persisted, reads) == residue_of(persisted + concat(reads)),
    decreases reads.len(),
{
    if reads.len() == 0 {
        assert(persisted + concat(reads) =~= persisted);
    } else {
        let first = persisted + reads[0];
        let more = concat(reads.skip(1));
        assert(persisted + concat(reads) =~= first + more);
        lemma_framing_resumes(first, more);
        lemma_framing(first);
        lemma_framing_over_reads(residue_of(first), reads.skip(1));
    }
}

/// Two ways of cutting one stream into reads give the same frames and leave
/// the same residue: reassembly does not depend on the split points.
pub proof fn lemma_split_points_do_not_matter(
    persisted: Seq<u8>,
    one: Seq<Seq<u8>>,
    other: Seq<Seq<u8>>,
)
    requires
        !has_frame(persisted),
        concat(one) == concat(other),
    ensures
        frames_after(persisted, one) == frames_after(persisted, other),
        residue_after(persisted, one) == residue_after(persisted, other),
{
    lemma_framing_over_reads(persisted, one);
    lemma_framing_over_reads(persisted, other);
}

/// What a framing pass reports of the residue it left: a malformed frame,
/// or nothing when more bytes are simply awaited.
pub open spec fn framing_end(residue: Seq<u8>) -> Option<ErrorKind> {
    if is_malformed(residue) {
        Some(ErrorKind::FrameMalformed)
    } else {
        None
    }
}

/// Cuts the frames that open `buf` out of it. `buf` keeps the residue, and
/// stays as it is when it opens with no whole frame; the second result
/// reports a pass that ended on a malformed frame.
pub fn extract_frames(buf: &mut Vec<u8>) -> (out: (Vec<Vec<u8>>, Option<ErrorKind>))
    ensures
        contents(out.0@) == frames_of(old(buf)@),
        final(buf)@ == residue_of(old(buf)@),
        out.1 == framing_end(final(buf)@),
{
    let mut frames: Vec<Vec<u8>> = Vec::new();
    let mut pos: usize = 0;
    let len: usize = buf.len();
    let mut end: Option<ErrorKind> = None;
    assert(buf@.skip(0) =~= buf@);
    assert(contents(frames@) =~= Seq::<Seq<u8>>::empty());
    while len - pos >= 2
        invariant_except_break
            end.is_none(),
        invariant
            pos <= len,
            len == buf@.len(),
            buf@ == old(buf)@,
            frames_of(buf@) == contents(frames@) + frames_of(buf@.skip(pos as int)),
            residue_of(buf@) == residue_of(buf@.skip(pos as int)),
        ensures
            pos <= len,
            len == buf@.len(),
            buf@ == old(buf)@,
            frames_of(buf@) == contents(frames@),
            residue_of(buf@) == buf@.skip(pos as int),
            end == framing_end(buf@.skip(pos as int)),
        decreases len - pos,
    {
        let ghost rest = buf@.skip(pos as int);
        let size: usize = buf[pos] as usize + 256 * (buf[pos + 1] as usize);
        assert(size == declared_size(rest));
        if size < HEADER_SIZE {
            end = Some(ErrorKind::FrameMalformed);
            break;
        }
        if size > len - pos {
            break;
        }
        let mut frame: Vec<u8> = Vec::with_capacity(size);
        let mut i: usize = 0;
        while i < size
            invariant
                i <= size,
                pos + size <= len,
                len == buf@.len(),
                frame@ == buf@.subrange(pos as int, pos + i),
            decreases size - i,
        {
            frame.push(buf[pos + i]);
            i = i + 1;
            assert(frame@ =~= buf@.subrange(pos as int, pos + i));
        }
        assert(frame@ =~= rest.take(size as int));
        assert(rest.skip(size as int) =~= buf@.skip(pos + size));
        let ghost before = frames@;
        frames.push(frame);
        assert(contents(frames@) =~= contents(before) + seq![rest.take(size as int)]);
        pos = pos + size;
    }
    let residue = buf.split_off(pos);
    *buf = residue;
    assert(buf@ =~= old(buf)@.skip(pos as int));
    (frames, end)
}

/// The transform between a frame as it travels and the frame as it is
/// recorded. It works in place, keeps the length, and encoding undoes
/// decoding.
pub trait FrameTransform {
    /// The recorded form of a frame as it travelled.
    spec fn decoded(&self, frame: Seq<u8>) -> Seq<u8>;

    /// The travelling form of a recorded frame.
    spec fn encoded(&self, frame: Seq<u8>) -> Seq<u8>;

    /// Both directions keep the length, and encoding a decoded frame gives
    /// the frame back.
    proof fn lemma_round_trip(&self, frame: Seq<u8>)
        ensures
            self.decoded(frame).len() == frame.len(),
            self.encoded(frame).len() == frame.len(),
            self.encoded(self.decoded(frame)) == frame,
    ;

    /// Decodes a frame in place.
    fn decode(&self, buf: &mut [u8])
        ensures
            final(buf)@ == self.decoded(old(buf)@),
    ;

    /// Encodes a frame in place.
    fn encode(&self, buf: &mut [u8])
        ensures
            final(buf)@ == self.encoded(old(buf)@),
    ;
}

/// The transform of a stream that travels in the clear: both directions
/// leave a frame as it is.
#[derive(Debug, Clone, Copy, PartialEq, Eq, Structural)]
pub struct Cleartext;

impl FrameTransform for Cleartext {
    open spec fn decoded(&self, frame: Seq<u8>) -> Seq<u8> {
        frame
    }

    open spec fn encoded(&self, frame: Seq<u8>) -> Seq<u8> {
        frame
    }

    proof fn lemma_round_trip(&self, frame: Seq<u8>) {
    }

    fn decode(&self, buf: &mut [u8]) {
    }

    fn encode(&self, buf: &mut [u8]) {
    }
}

} // verus!
