//! The byte layout of a whole PNG stream, and what it decodes to.
//!
//! ```text
//! stream := signature (8 bytes) frame*
//! frame  := the bytes of one chunk
//! ```
//!
//! Everything here is about byte sequences and chunk models; the `Png` type
//! that holds a decoded stream is built on it.

use vstd::prelude::*;
use crate::byte_order::{be_bytes, be_value, lemma_be_value_of_be_bytes, lemma_be_value_of_front};
use crate::chunk::{
    decoding, encoding, lemma_decoding_of_encoding, lemma_encoding_len,
    lemma_encoding_of_decoding, length_field, ChunkModel,
};
use crate::chunk_type::valid_code;
use crate::error::Error;

verus! {

/// The eight bytes that open every PNG stream.
pub open spec fn magic() -> Seq<u8> {
    seq![137u8, 80u8, 78u8, 71u8, 13u8, 10u8, 26u8, 10u8]
}

/// Whether `buf` opens with the PNG signature.
pub open spec fn starts_with_magic(buf: Seq<u8>) -> bool {
    buf.len() >= 8 && buf.subrange(0, 8) == magic()
}

/// The bytes that store a sequence of chunks: the bytes of each, one after
/// the other.
#[verifier::opaque]
pub open spec fn frames(chunks: Seq<ChunkModel>) -> Seq<u8>
    decreases chunks.len(),
{
    if chunks.len() == 0 {
        Seq::empty()
    } else {
        encoding(chunks[0]) + frames(chunks.drop_first())
    }
}

/// The bytes of a whole stream: the signature, then the chunks.
pub open spec fn stream(chunks: Seq<ChunkModel>) -> Seq<u8> {
    magic() + frames(chunks)
}

/// Whether every chunk of the sequence can be stored and read back: its
/// type code is four letters and the size of its payload fits the 32-bit
/// length field.
pub open spec fn storable(chunks: Seq<ChunkModel>) -> bool {
    forall|i: int|
        0 <= i < chunks.len() ==> valid_code((#[trigger] chunks[i]).code) && chunks[i].data.len()
            <= u32::MAX
}

/// The result for a whole buffer, given the chunks `done` that its front
/// decoded to and the result `rest` for what follows them.
pub open spec fn after(done: Seq<ChunkModel>, rest: Result<Seq<ChunkModel>, Error>) -> Result<
    Seq<ChunkModel>,
    Error,
> {
    match rest {
        Ok(more) => Ok(done + more),
        Err(e) => Err(e),
    }
}

/// What the frame at the front of `buf` decodes to, together with the
/// number of bytes that the frame takes.
///
/// The buffer must hold a whole frame, as long as its first four bytes
/// announce (`TruncatedBuffer` if it ends too early); the type code of the
/// frame must be four letters (`InvalidTypeCode`); and the frame must pass
/// the checks of a single chunk (`CrcMismatch`). The checks are made in this
/// order, and the first that fails names the error.
pub open spec fn first_frame(buf: Seq<u8>) -> Result<(ChunkModel, int), Error> {
    if buf.len() < 12 || buf.len() - 12 < be_value(buf) {
        Err(Error::TruncatedBuffer)
    } else {
        let n = 12 + be_value(buf) as int;
        let frame = buf.subrange(0, n);
        if !valid_code(frame.subrange(4, 8)) {
            Err(Error::InvalidTypeCode)
        } else {
            match decoding(frame) {
                Err(e) => Err(e),
                Ok(c) => Ok((c, n)),
            }
        }
    }
}

/// What a run of frames decodes to: nothing if the buffer is empty, and
/// otherwise the chunk of the frame at the front, followed by what the rest
/// of the buffer decodes to. The first frame that is refused, from the
/// front, names the error.
#[verifier::opaque]
pub open spec fn parse_frames(buf: Seq<u8>) -> Result<Seq<ChunkModel>, Error>
    decreases buf.len(),
{
    if buf.len() == 0 {
        Ok(Seq::empty())
    } else {
        match first_frame(buf) {
            Err(e) => Err(e),
            Ok((c, n)) => after(seq![c], parse_frames(buf.subrange(n, buf.len() as int))),
        }
    }
}

/// What a whole stream decodes to: `BadMagic` unless it opens with the
/// signature, and otherwise what the frames after the signature decode to.
pub open spec fn parse_stream(buf: Seq<u8>) -> Result<Seq<ChunkModel>, Error> {
    if !starts_with_magic(buf) {
        Err(Error::BadMagic)
    } else {
        parse_frames(buf.subrange(8, buf.len() as int))
    }
}

/// Whether `e` is one of the four errors that the decoding of a stream can
/// end in.
pub open spec fn is_stream_error(e: Error) -> bool {
    e == Error::BadMagic || e == Error::TruncatedBuffer || e == Error::InvalidTypeCode || e
        == Error::CrcMismatch
}

/// Whether the decoding of `buf` stops with `error` at the byte `offset`,
/// after `index` whole chunks.
///
/// A buffer without the signature stops at its first byte. Any other stops
/// at the start of a frame: the bytes between the signature and `offset`
/// decode to `index` chunks, and the frame at `offset` is refused with
/// `error`.
pub open spec fn stops_at(buf: Seq<u8>, error: Error, index: nat, offset: nat) -> bool {
    if !starts_with_magic(buf) {
        error == Error::BadMagic && index == 0 && offset == 0
    } else {
        &&& 8 <= offset < buf.len()
        &&& parse_frames(buf.subrange(8, offset as int)) matches Ok(done) && done.len() == index
        &&& first_frame(buf.subrange(offset as int, buf.len() as int)) == Err::<
            (ChunkModel, int),
            Error,
        >(error)
    }
}

/// Chunks may be counted with what is done or with what follows.
pub proof fn lemma_after_after(
    done: Seq<ChunkModel>,
    next: Seq<ChunkModel>,
    rest: Result<Seq<ChunkModel>, Error>,
)
    ensures
        after(done, after(next, rest)) == after(done + next, rest),
{
    match rest {
        Ok(more) => {
            assert(done + (next + more) =~= (done + next) + more);
        },
        Err(_) => {},
    }
}

/// No chunks take no bytes.
pub proof fn lemma_frames_empty()
    ensures
        frames(Seq::empty()) == Seq::<u8>::empty(),
{
    reveal(frames);
}

/// The bytes of a sequence of chunks with one more at the front are the
/// bytes of that chunk followed by the bytes of the sequence.
pub proof fn lemma_frames_front(c: ChunkModel, chunks: Seq<ChunkModel>)
    ensures
        frames(seq![c] + chunks) == encoding(c) + frames(chunks),
{
    reveal(frames);
    let all = seq![c] + chunks;
    assert(all.drop_first() =~= chunks);
}

/// The bytes of a sequence of chunks with one more at the end are the bytes
/// of the sequence followed by the bytes of that chunk.
pub proof fn lemma_frames_push(chunks: Seq<ChunkModel>, c: ChunkModel)
    ensures
        frames(chunks.push(c)) == frames(chunks) + encoding(c),
    decreases chunks.len(),
{
    if chunks.len() == 0 {
        lemma_frames_empty();
        lemma_frames_front(c, Seq::empty());
        assert(chunks =~= Seq::<ChunkModel>::empty());
    } else {
        let first = chunks[0];
        let others = chunks.drop_first();
        lemma_frames_push(others, c);
        lemma_frames_front(first, others);
        lemma_frames_front(first, others.push(c));
        assert(chunks =~= seq![first] + others);
    }
}

/// An empty buffer decodes to no chunks.
pub proof fn lemma_parse_frames_empty()
    ensures
        parse_frames(Seq::empty()) == Ok::<Seq<ChunkModel>, Error>(Seq::empty()),
{
    reveal(parse_frames);
}

/// A nonempty run of frames decodes to the chunk of the frame at its front,
/// followed by what the rest decodes to; or fails as the first of them that
/// fails.
pub proof fn lemma_parse_frames_front(buf: Seq<u8>)
    requires
        buf.len() > 0,
    ensures
        parse_frames(buf) == match first_frame(buf) {
            Err(e) => Err::<Seq<ChunkModel>, Error>(e),
            Ok((c, n)) => after(seq![c], parse_frames(buf.subrange(n, buf.len() as int))),
        },
{
    reveal(parse_frames);
}

/// The frame at the front of the bytes of a storable chunk, whatever
/// follows them, decodes to that chunk and takes exactly those bytes.
pub proof fn lemma_first_frame_of_encoding(c: ChunkModel, tail: Seq<u8>)
    requires
        valid_code(c.code),
        c.data.len() <= u32::MAX,
    ensures
        first_frame(encoding(c) + tail) == Ok::<(ChunkModel, int), Error>(
            (c, encoding(c).len() as int),
        ),
{
    let buf = encoding(c) + tail;
    lemma_encoding_len(c);
    lemma_be_value_of_be_bytes(length_field(c.data.len()));
    lemma_be_value_of_front(buf);
    assert(buf.subrange(0, 4) =~= be_bytes(length_field(c.data.len())));
    assert(buf.subrange(0, 12 + be_value(buf) as int) =~= encoding(c));
    lemma_decoding_of_encoding(c);
}

/// A frame that decodes is exactly the bytes that store its chunk.
pub proof fn lemma_encoding_of_first_frame(buf: Seq<u8>)
    requires
        first_frame(buf) is Ok,
    ensures
        12 <= first_frame(buf)->Ok_0.1 <= buf.len(),
        encoding(first_frame(buf)->Ok_0.0) == buf.subrange(0, first_frame(buf)->Ok_0.1),
{
    let n = 12 + be_value(buf) as int;
    let frame = buf.subrange(0, n);
    lemma_encoding_of_decoding(frame);
}

/// What a frame decodes to depends on its own bytes alone: a buffer that
/// begins with the bytes of a frame that decodes has the same frame at its
/// front.
pub proof fn lemma_first_frame_of_front(buf: Seq<u8>, other: Seq<u8>)
    requires
        first_frame(buf) is Ok,
        other.len() >= first_frame(buf)->Ok_0.1,
        other.subrange(0, first_frame(buf)->Ok_0.1) == buf.subrange(0, first_frame(buf)->Ok_0.1),
    ensures
        first_frame(other) == first_frame(buf),
{
    let n = first_frame(buf)->Ok_0.1;
    lemma_be_value_of_front(buf);
    lemma_be_value_of_front(other);
    assert(buf.subrange(0, 4) =~= buf.subrange(0, n).subrange(0, 4));
    assert(other.subrange(0, 4) =~= other.subrange(0, n).subrange(0, 4));
}

/// A run of frames that decodes, followed by more bytes, decodes to the
/// same chunks and then what the further bytes decode to.
pub proof fn lemma_parse_frames_append(front: Seq<u8>, tail: Seq<u8>)
    requires
        parse_frames(front) is Ok,
    ensures
        parse_frames(front + tail) == after(parse_frames(front)->Ok_0, parse_frames(tail)),
    decreases front.len(),
{
    if front.len() == 0 {
        lemma_parse_frames_empty();
        assert(front =~= Seq::<u8>::empty());
    } else {
        let buf = front + tail;
        lemma_parse_frames_front(front);
        let c = first_frame(front)->Ok_0.0;
        let n = first_frame(front)->Ok_0.1;
        let rest = front.subrange(n, front.len() as int);
        assert(buf.subrange(0, n) =~= front.subrange(0, n));
        lemma_first_frame_of_front(front, buf);
        lemma_parse_frames_front(buf);
        assert(buf.subrange(n, buf.len() as int) =~= rest + tail);
        lemma_parse_frames_append(rest, tail);
        lemma_after_after(seq![c], parse_frames(rest)->Ok_0, parse_frames(tail));
    }
}

/// A run of frames that decodes, followed by one more frame that decodes,
/// decodes to the same chunks and then the chunk of that frame.
pub proof fn lemma_parse_frames_one_more(front: Seq<u8>, rest: Seq<u8>)
    requires
        parse_frames(front) is Ok,
        first_frame(rest) is Ok,
    ensures
        parse_frames(front + rest.subrange(0, first_frame(rest)->Ok_0.1)) == Ok::<
            Seq<ChunkModel>,
            Error,
        >(parse_frames(front)->Ok_0.push(first_frame(rest)->Ok_0.0)),
{
    let c = first_frame(rest)->Ok_0.0;
    let n = first_frame(rest)->Ok_0.1;
    let frame = rest.subrange(0, n);
    let done = parse_frames(front)->Ok_0;
    assert(frame.subrange(0, n) =~= rest.subrange(0, n));
    lemma_parse_frames_front(frame);
    lemma_parse_frames_empty();
    assert(frame.subrange(n, frame.len() as int) =~= Seq::<u8>::empty());
    lemma_parse_frames_append(front, frame);
    assert(done + (seq![c] + Seq::<ChunkModel>::empty()) =~= done.push(c));
}

/// Reading the bytes of storable chunks yields those chunks.
pub proof fn lemma_parse_frames_of_frames(chunks: Seq<ChunkModel>)
    requires
        storable(chunks),
    ensures
        parse_frames(frames(chunks)) == Ok::<Seq<ChunkModel>, Error>(chunks),
    decreases chunks.len(),
{
    if chunks.len() == 0 {
        lemma_frames_empty();
        lemma_parse_frames_empty();
        assert(chunks =~= Seq::<ChunkModel>::empty());
    } else {
        let c = chunks[0];
        let others = chunks.drop_first();
        let buf = frames(chunks);
        let n = encoding(c).len() as int;
        assert(chunks =~= seq![c] + others);
        lemma_frames_front(c, others);
        lemma_first_frame_of_encoding(c, frames(others));
        lemma_parse_frames_front(buf);
        assert(buf.subrange(n, buf.len() as int) =~= frames(others));
        lemma_parse_frames_of_frames(others);
    }
}

/// Round trip: decoding the bytes of a stream of storable chunks gives the
/// chunks back, in order and unchanged.
pub proof fn lemma_parse_stream_of_stream(chunks: Seq<ChunkModel>)
    requires
        storable(chunks),
    ensures
        parse_stream(stream(chunks)) == Ok::<Seq<ChunkModel>, Error>(chunks),
{
    let buf = stream(chunks);
    lemma_parse_frames_of_frames(chunks);
    assert(buf.subrange(0, 8) =~= magic());
    assert(buf.subrange(8, buf.len() as int) =~= frames(chunks));
}

/// Truncation: a stream of storable chunks followed by a frame that the
/// buffer cuts short, before the end that its length field announces or
/// before that field is complete, is refused with `TruncatedBuffer`.
pub proof fn lemma_truncated_stream(chunks: Seq<ChunkModel>, tail: Seq<u8>)
    requires
        storable(chunks),
        0 < tail.len(),
        tail.len() < 12 || tail.len() - 12 < be_value(tail),
    ensures
        parse_stream(stream(chunks) + tail) == Err::<Seq<ChunkModel>, Error>(
            Error::TruncatedBuffer,
        ),
{
    let buf = stream(chunks) + tail;
    lemma_parse_frames_front(tail);
    lemma_parse_frames_of_frames(chunks);
    lemma_parse_frames_append(frames(chunks), tail);
    assert(buf.subrange(0, 8) =~= magic());
    assert(buf.subrange(8, buf.len() as int) =~= frames(chunks) + tail);
}

/// A run of frames that decodes is exactly the bytes that store the chunks
/// it decodes to.
pub proof fn lemma_frames_of_parse(buf: Seq<u8>, chunks: Seq<ChunkModel>)
    requires
        parse_frames(buf) == Ok::<Seq<ChunkModel>, Error>(chunks),
    ensures
        frames(chunks) == buf,
    decreases buf.len(),
{
    if buf.len() == 0 {
        lemma_parse_frames_empty();
        lemma_frames_empty();
        assert(buf =~= Seq::<u8>::empty());
    } else {
        lemma_parse_frames_front(buf);
        lemma_encoding_of_first_frame(buf);
        let c = first_frame(buf)->Ok_0.0;
        let n = first_frame(buf)->Ok_0.1;
        let rest = buf.subrange(n, buf.len() as int);
        let more = parse_frames(rest)->Ok_0;
        lemma_frames_of_parse(rest, more);
        lemma_frames_front(c, more);
    }
}

/// A buffer that decodes to a stream is exactly the bytes of that stream:
/// no two buffers decode to the same chunks.
pub proof fn lemma_stream_of_parse(buf: Seq<u8>, chunks: Seq<ChunkModel>)
    requires
        parse_stream(buf) == Ok::<Seq<ChunkModel>, Error>(chunks),
    ensures
        stream(chunks) == buf,
{
    let body = buf.subrange(8, buf.len() as int);
    lemma_frames_of_parse(body, chunks);
}

/// A frame is refused for one of three reasons: it is cut short, its type
/// code is not four letters, or its checksum is wrong. Its length field
/// cannot disagree with its size, which is taken from that field.
pub proof fn lemma_first_frame_errors(buf: Seq<u8>)
    ensures
        first_frame(buf) matches Err(e) ==> e == Error::TruncatedBuffer || e
            == Error::InvalidTypeCode || e == Error::CrcMismatch,
{
    if buf.len() >= 12 && buf.len() - 12 >= be_value(buf) {
        let frame = buf.subrange(0, 12 + be_value(buf) as int);
        lemma_be_value_of_front(buf);
        lemma_be_value_of_front(frame);
        assert(frame.subrange(0, 4) =~= buf.subrange(0, 4));
    }
}

/// A run of frames is refused for one of the three reasons for which a
/// frame is.
pub proof fn lemma_parse_frames_errors(buf: Seq<u8>)
    ensures
        parse_frames(buf) matches Err(e) ==> e == Error::TruncatedBuffer || e
            == Error::InvalidTypeCode || e == Error::CrcMismatch,
    decreases buf.len(),
{
    if buf.len() == 0 {
        lemma_parse_frames_empty();
        assert(buf =~= Seq::<u8>::empty());
    } else {
        lemma_parse_frames_front(buf);
        lemma_first_frame_errors(buf);
        if first_frame(buf) is Ok {
            lemma_parse_frames_errors(buf.subrange(first_frame(buf)->Ok_0.1, buf.len() as int));
        }
    }
}

/// A stream is refused with `BadMagic`, `TruncatedBuffer`, `InvalidTypeCode`
/// or `CrcMismatch`, and with no other error.
pub proof fn lemma_parse_stream_errors(buf: Seq<u8>)
    ensures
        parse_stream(buf) matches Err(e) ==> is_stream_error(e),
{
    if starts_with_magic(buf) {
        lemma_parse_frames_errors(buf.subrange(8, buf.len() as int));
    }
}

/// Where the decoding of a buffer stops, it fails, and with the error of
/// the frame at which it stops.
pub proof fn lemma_stops_at_names_the_error(buf: Seq<u8>, error: Error, index: nat, offset: nat)
    requires
        stops_at(buf, error, index, offset),
    ensures
        parse_stream(buf) == Err::<Seq<ChunkModel>, Error>(error),
{
    if starts_with_magic(buf) {
        let front = buf.subrange(8, offset as int);
        let tail = buf.subrange(offset as int, buf.len() as int);
        lemma_parse_frames_front(tail);
        lemma_parse_frames_append(front, tail);
        assert(front + tail =~= buf.subrange(8, buf.len() as int));
    }
}

/// Where a run of frames that decodes goes on past the end of a shorter
/// one, the frame at that end decodes too.
pub proof fn lemma_frame_between(buf: Seq<u8>, offset: nat, later: nat)
    requires
        8 <= offset < later <= buf.len(),
        parse_frames(buf.subrange(8, offset as int)) is Ok,
        parse_frames(buf.subrange(8, later as int)) is Ok,
    ensures
        first_frame(buf.subrange(offset as int, buf.len() as int)) is Ok,
{
    let front = buf.subrange(8, offset as int);
    let middle = buf.subrange(offset as int, later as int);
    let rest = buf.subrange(offset as int, buf.len() as int);
    assert(front + middle =~= buf.subrange(8, later as int));
    lemma_parse_frames_append(front, middle);
    lemma_parse_frames_front(middle);
    let n = first_frame(middle)->Ok_0.1;
    assert(rest.subrange(0, n) =~= middle.subrange(0, n));
    lemma_first_frame_of_front(middle, rest);
}

/// Decoding stops at one place only, and for one reason.
pub proof fn lemma_stops_at_one_place(
    buf: Seq<u8>,
    error: Error,
    index: nat,
    offset: nat,
    other_error: Error,
    other_index: nat,
    other_offset: nat,
)
    requires
        stops_at(buf, error, index, offset),
        stops_at(buf, other_error, other_index, other_offset),
    ensures
        error == other_error,
        index == other_index,
        offset == other_offset,
{
    if starts_with_magic(buf) {
        if offset < other_offset {
            lemma_frame_between(buf, offset, other_offset);
        } else if other_offset < offset {
            lemma_frame_between(buf, other_offset, offset);
        }
    }
}

} // verus!
