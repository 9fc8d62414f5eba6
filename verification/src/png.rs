//! A decoded PNG stream: its chunks in file order, with lookup, removal and
//! appending, and the way to and from bytes.

use vstd::prelude::*;
use vstd::std_specs::cmp::PartialEqSpecImpl;
use vstd::std_specs::convert::TryFromSpecImpl;
use vstd::utf8::encode_utf8;
use crate::byte_order::{be_value, lemma_be_value_of_front, read_u32};
use crate::chunk::{Chunk, ChunkModel};
use crate::chunk_type::ChunkType;
use crate::error::{DecodeFailure, Error};
use crate::stream::{
    first_frame, frames, is_stream_error, lemma_frames_empty, lemma_frames_push,
    lemma_parse_frames_empty, lemma_parse_frames_one_more, lemma_parse_stream_errors,
    lemma_parse_stream_of_stream, lemma_stops_at_names_the_error, magic, parse_frames,
    parse_stream, starts_with_magic, stops_at, storable, stream,
};

verus! {

/// The models of a sequence of chunks, in the same order.
pub open spec fn models(chunks: Seq<Chunk>) -> Seq<ChunkModel> {
    Seq::new(chunks.len(), |i: int| chunks[i]@)
}

/// Whether some chunk of the sequence has the type code `code`.
pub open spec fn has_type(chunks: Seq<ChunkModel>, code: Seq<u8>) -> bool {
    exists|i: int| 0 <= i < chunks.len() && (#[trigger] chunks[i]).code == code
}

/// Whether `i` is the place of the first chunk with the type code `code`.
pub open spec fn is_first_of_type(chunks: Seq<ChunkModel>, code: Seq<u8>, i: int) -> bool {
    &&& 0 <= i < chunks.len()
    &&& chunks[i].code == code
    &&& forall|j: int| 0 <= j < i ==> (#[trigger] chunks[j]).code != code
}

/// The place of the first chunk with the type code `code`, where there is
/// one.
pub open spec fn first_of_type(chunks: Seq<ChunkModel>, code: Seq<u8>) -> int {
    choose|i: int| is_first_of_type(chunks, code, i)
}

/// A PNG stream: the chunks in file order. The signature is the same in
/// every stream and is not stored. Chunks of the same type may occur more
/// than once.
#[derive(Debug)]
pub struct Png {
    bytes: Vec<Chunk>,
}

impl View for Png {
    type V = Seq<ChunkModel>;

    /// The models of the chunks, in file order.
    open spec fn view(&self) -> Seq<ChunkModel> {
        models(self.spec_chunks())
    }
}

impl Png {
    /// The signature of every PNG stream.
    pub const STANDARD_HEADER: [u8; 8] = [137, 80, 78, 71, 13, 10, 26, 10];

    /// The chunks, as a specification value.
    pub closed spec fn spec_chunks(&self) -> Seq<Chunk> {
        self.bytes@
    }

    /// A stream made of the given chunks, in the given order.
    pub fn from_chunks(chunk: Vec<Chunk>) -> (png: Png)
        ensures
            png.spec_chunks() == chunk@,
            png@ == models(chunk@),
    {
        Png { bytes: chunk }
    }

    /// Adds a chunk at the end. Nothing is checked: a chunk of a type that
    /// is already present is added like any other.
    pub fn append_chunk(&mut self, chunk: Chunk)
        ensures
            final(self).spec_chunks() == old(self).spec_chunks().push(chunk),
            final(self)@ == old(self)@.push(chunk@),
    {
        self.bytes.push(chunk);
    }

    /// The place of the first chunk whose type code is `code`, if there is
    /// one.
    fn position(&self, code: &ChunkType) -> (at: Option<usize>)
        ensures
            match at {
                Some(i) => is_first_of_type(self@, code@, i as int),
                None => !has_type(self@, code@),
            },
    {
        let mut i: usize = 0;
        while i < self.bytes.len()
            invariant
                0 <= i <= self.bytes.len(),
                forall|j: int| 0 <= j < i ==> (#[trigger] self@[j]).code != code@,
            decreases self.bytes.len() - i,
        {
            if self.bytes[i].chunk_type() == code {
                return Some(i);
            }
            i += 1;
        }
        None
    }

    /// Removes the first chunk whose type code is the UTF-8 encoding of
    /// `chunk_type`, and returns it. The chunks that stay keep their order.
    ///
    /// Fails, and changes nothing, if `chunk_type` is not four bytes long
    /// (`InvalidTypeCode`) or if no chunk has that type (`NotFound`).
    pub fn remove_chunk(&mut self, chunk_type: &str) -> (r: Result<Chunk, Error>)
        ensures
            match r {
                Ok(c) => {
                    let i = first_of_type(old(self)@, encode_utf8(chunk_type@));
                    &&& is_first_of_type(old(self)@, encode_utf8(chunk_type@), i)
                    &&& c == old(self).spec_chunks()[i]
                    &&& c@ == old(self)@[i]
                    &&& final(self).spec_chunks() == old(self).spec_chunks().remove(i)
                    &&& final(self)@ == old(self)@.remove(i)
                },
                Err(e) => {
                    &&& final(self).spec_chunks() == old(self).spec_chunks()
                    &&& !has_type(old(self)@, encode_utf8(chunk_type@))
                    &&& if encode_utf8(chunk_type@).len() == 4 {
                        e == Error::NotFound
                    } else {
                        e == Error::InvalidTypeCode
                    }
                },
            },
    {
        let code = match ChunkType::from_text(chunk_type) {
            Ok(code) => code,
            Err(_) => {
                return Err(Error::InvalidTypeCode);
            },
        };
        match self.position(&code) {
            Some(i) => Ok(self.bytes.remove(i)),
            None => Err(Error::NotFound),
        }
    }

    /// The signature: always the standard one.
    pub fn header(&self) -> (h: &[u8; 8])
        ensures
            h@ == magic(),
    {
        &Png::STANDARD_HEADER
    }

    /// The chunks, in file order.
    pub fn chunks(&self) -> (c: &[Chunk])
        ensures
            c@ == self.spec_chunks(),
    {
        self.bytes.as_slice()
    }

    /// The first chunk whose type code is the UTF-8 encoding of
    /// `chunk_type`, or `None` if there is none.
    pub fn chunk_by_type(&self, chunk_type: &str) -> (r: Option<&Chunk>)
        ensures
            match r {
                Some(c) => {
                    let i = first_of_type(self@, encode_utf8(chunk_type@));
                    &&& is_first_of_type(self@, encode_utf8(chunk_type@), i)
                    &&& *c == self.spec_chunks()[i]
                    &&& c@ == self@[i]
                },
                None => !has_type(self@, encode_utf8(chunk_type@)),
            },
    {
        let code = match ChunkType::from_text(chunk_type) {
            Ok(code) => code,
            Err(_) => {
                return None;
            },
        };
        match self.position(&code) {
            Some(i) => Some(&self.bytes[i]),
            None => None,
        }
    }

    /// The bytes of the stream: the signature, then each chunk in order.
    pub fn as_bytes(&self) -> (v: Vec<u8>)
        ensures
            v@ == stream(self@),
    {
        let mut tab: Vec<u8> = Vec::new();
        let header: [u8; 8] = Png::STANDARD_HEADER;
        tab.extend_from_slice(header.as_slice());
        proof {
            lemma_frames_empty();
            assert(self@.take(0) =~= Seq::<ChunkModel>::empty());
        }
        let mut i: usize = 0;
        while i < self.bytes.len()
            invariant
                0 <= i <= self.bytes.len(),
                tab@ == magic() + frames(self@.take(i as int)),
            decreases self.bytes.len() - i,
        {
            let encoded: Vec<u8> = self.bytes[i].as_bytes();
            tab.extend_from_slice(encoded.as_slice());
            proof {
                lemma_frames_push(self@.take(i as int), self@[i as int]);
                assert(self@.take(i + 1) =~= self@.take(i as int).push(self@[i as int]));
            }
            i += 1;
        }
        proof {
            assert(self@.take(i as int) =~= self@);
        }
        tab
    }

    /// Reads the frame that starts at index `start` of `value`, and tells
    /// where it ends.
    fn read_frame(value: &[u8], start: usize) -> (r: Result<(Chunk, usize), Error>)
        requires
            start <= value@.len(),
        ensures
            match r {
                Ok((chunk, end)) => {
                    &&& start < end <= value@.len()
                    &&& first_frame(value@.subrange(start as int, value@.len() as int)) == Ok::<
                        (ChunkModel, int),
                        Error,
                    >((chunk@, end - start))
                },
                Err(e) => first_frame(value@.subrange(start as int, value@.len() as int)) == Err::<
                    (ChunkModel, int),
                    Error,
                >(e),
            },
    {
        let len: usize = value.len();
        let ghost rest: Seq<u8> = value@.subrange(start as int, len as int);
        let remaining: usize = len - start;
        if remaining < Chunk::METADATA_LENGTH {
            return Err(Error::TruncatedBuffer);
        }
        let length: u32 = read_u32(value, start);
        proof {
            lemma_be_value_of_front(rest);
            assert(rest.subrange(0, 4) =~= value@.subrange(start as int, start + 4));
        }
        if remaining - Chunk::METADATA_LENGTH < length as usize {
            return Err(Error::TruncatedBuffer);
        }
        let end: usize = start + Chunk::METADATA_LENGTH + length as usize;
        let frame: &[u8] = &value[start..end];
        let code: [u8; 4] = [value[start + 4], value[start + 5], value[start + 6], value[start + 7]];
        proof {
            assert(frame@ =~= rest.subrange(0, 12 + be_value(rest) as int));
            assert(code@ =~= frame@.subrange(4, 8));
        }
        match ChunkType::from_bytes(code) {
            Ok(_) => {},
            Err(e) => {
                return Err(e);
            },
        }
        match Chunk::decode(frame) {
            Ok(chunk) => Ok((chunk, end)),
            Err(e) => Err(e),
        }
    }

    /// Reads a whole stream, and tells where it stopped if it could not.
    ///
    /// Succeeds exactly when `parse_stream` does, with those chunks in that
    /// order. Otherwise it fails with the error that `parse_stream` names,
    /// the number of chunks that came before the frame that was refused,
    /// and the offset of that frame, as `stops_at` says. Nothing is returned
    /// of a stream of which a part is refused.
    pub fn decode_located(value: &[u8]) -> (r: Result<Png, DecodeFailure>)
        ensures
            match r {
                Ok(png) => parse_stream(value@) == Ok::<Seq<ChunkModel>, Error>(png@),
                Err(f) => {
                    &&& parse_stream(value@) == Err::<Seq<ChunkModel>, Error>(f.error)
                    &&& is_stream_error(f.error)
                    &&& stops_at(value@, f.error, f.chunk_index as nat, f.offset as nat)
                },
            },
    {
        let len: usize = value.len();
        let header: [u8; 8] = Png::STANDARD_HEADER;
        if len < 8 {
            return Err(DecodeFailure { error: Error::BadMagic, chunk_index: 0, offset: 0 });
        }
        let mut k: usize = 0;
        while k < 8
            invariant
                0 <= k <= 8,
                len == value@.len(),
                len >= 8,
                header@ == magic(),
                forall|j: int| 0 <= j < k ==> value@[j] == magic()[j],
            decreases 8 - k,
        {
            if value[k] != header[k] {
                return Err(DecodeFailure { error: Error::BadMagic, chunk_index: 0, offset: 0 });
            }
            k += 1;
        }
        let mut chunks: Vec<Chunk> = Vec::new();
        let mut i: usize = 8;
        proof {
            lemma_parse_frames_empty();
            assert(value@.subrange(0, 8) =~= magic());
            assert(value@.subrange(8, 8) =~= Seq::<u8>::empty());
            assert(models(chunks@) =~= Seq::<ChunkModel>::empty());
        }
        while i < len
            invariant
                8 <= i <= len,
                len == value@.len(),
                starts_with_magic(value@),
                parse_frames(value@.subrange(8, i as int)) == Ok::<Seq<ChunkModel>, Error>(
                    models(chunks@),
                ),
            decreases len - i,
        {
            let ghost front: Seq<u8> = value@.subrange(8, i as int);
            let ghost rest: Seq<u8> = value@.subrange(i as int, len as int);
            let (chunk, end) = match Png::read_frame(value, i) {
                Ok(found) => found,
                Err(error) => {
                    proof {
                        lemma_stops_at_names_the_error(
                            value@,
                            error,
                            chunks@.len() as nat,
                            i as nat,
                        );
                        lemma_parse_stream_errors(value@);
                    }
                    return Err(DecodeFailure { error, chunk_index: chunks.len(), offset: i });
                },
            };
            proof {
                lemma_parse_frames_one_more(front, rest);
                assert(front + rest.subrange(0, end - i) =~= value@.subrange(8, end as int));
                assert(models(chunks@.push(chunk)) =~= models(chunks@).push(chunk@));
            }
            chunks.push(chunk);
            i = end;
        }
        Ok(Png { bytes: chunks })
    }

    /// Reads a whole stream.
    ///
    /// Succeeds exactly when `parse_stream` does, with those chunks in that
    /// order, and otherwise fails with the error that `parse_stream` names.
    /// In particular a buffer that does not open with the signature is
    /// refused with `BadMagic`, whatever follows. Nothing is returned of a
    /// stream of which a part is refused.
    pub fn decode(value: &[u8]) -> (r: Result<Png, Error>)
        ensures
            match r {
                Ok(png) => parse_stream(value@) == Ok::<Seq<ChunkModel>, Error>(png@),
                Err(e) => parse_stream(value@) == Err::<Seq<ChunkModel>, Error>(e)
                    && is_stream_error(e),
            },
            !starts_with_magic(value@) ==> (r matches Err(e) && e == Error::BadMagic),
    {
        match Png::decode_located(value) {
            Ok(png) => Ok(png),
            Err(failure) => Err(failure.error),
        }
    }
}

/// Round trip: decoding the bytes of a stream gives its chunks back, in
/// order and unchanged, whenever every chunk is storable.
pub proof fn lemma_stream_round_trip(png: Png)
    requires
        storable(png@),
    ensures
        parse_stream(stream(png@)) == Ok::<Seq<ChunkModel>, Error>(png@),
{
    lemma_parse_stream_of_stream(png@);
}

impl PartialEq for Png {
    fn eq(&self, other: &Self) -> (same: bool) {
        if self.bytes.len() != other.bytes.len() {
            proof {
                assert(self@.len() != other@.len());
            }
            return false;
        }
        let mut i: usize = 0;
        while i < self.bytes.len()
            invariant
                0 <= i <= self.bytes.len(),
                self.bytes.len() == other.bytes.len(),
                forall|j: int| 0 <= j < i ==> self@[j] == other@[j],
            decreases self.bytes.len() - i,
        {
            if self.bytes[i] != other.bytes[i] {
                proof {
                    assert(self@[i as int] != other@[i as int]);
                }
                return false;
            }
            i += 1;
        }
        proof {
            assert(self@ =~= other@);
        }
        true
    }
}

impl PartialEqSpecImpl for Png {
    open spec fn obeys_eq_spec() -> bool {
        true
    }

    /// Two streams are equal when they hold equal chunks in the same order;
    /// the signature is the same in all.
    open spec fn eq_spec(&self, other: &Self) -> bool {
        self@ == other@
    }
}

impl TryFrom<&[u8]> for Png {
    type Error = Error;

    /// The same as `Png::decode`.
    fn try_from(value: &[u8]) -> (r: Result<Png, Error>)
        ensures
            match r {
                Ok(png) => parse_stream(value@) == Ok::<Seq<ChunkModel>, Error>(png@),
                Err(e) => parse_stream(value@) == Err::<Seq<ChunkModel>, Error>(e)
                    && is_stream_error(e),
            },
    {
        Png::decode(value)
    }
}

impl TryFromSpecImpl<&[u8]> for Png {
    /// The conversion is specified on models, by `parse_stream`; no `Png`
    /// value is offered for it in specifications.
    open spec fn obeys_try_from_spec() -> bool {
        false
    }

    open spec fn try_from_spec(value: &[u8]) -> Result<Self, Error> {
        arbitrary()
    }
}

} // verus!
