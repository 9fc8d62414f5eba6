//! One record of a PNG stream: a type code, a payload, and the bytes that
//! carry them.
//!
//! On the wire a chunk is laid out as
//!
//! ```text
//! length (4 bytes, big-endian) | type (4 bytes) | data (length bytes) | crc (4 bytes, big-endian)
//! ```
//!
//! where the checksum covers the type and the data, but not the length.

use vstd::prelude::*;
use vstd::slice::slice_to_vec;
use vstd::std_specs::cmp::PartialEqSpecImpl;
use vstd::std_specs::convert::TryFromSpecImpl;
use vstd::utf8::{decode_utf8, valid_utf8};
use crate::byte_order::{
    be_bytes, be_value, lemma_be_bytes_len, lemma_be_bytes_of_be_value, lemma_be_value_of_be_bytes,
    lemma_be_value_of_front, read_u32, u32_to_u8_array,
};
use crate::checksum::{checksum, crc32_iso_hdlc};
use crate::chunk_type::ChunkType;
use crate::error::Error;
use crate::text::utf8_text;

verus! {

/// What a chunk is, apart from how it is stored: its type code and its
/// payload.
pub struct ChunkModel {
    /// The type code; four bytes in the model of every `Chunk`.
    pub code: Seq<u8>,
    /// The payload.
    pub data: Seq<u8>,
}

/// What the length field of a chunk with `n` bytes of payload holds: `n`
/// itself wherever it fits in 32 bits, and its low 32 bits beyond that.
pub open spec fn length_field(n: nat) -> u32 {
    (n % 0x1_0000_0000) as u32
}

/// The checksum of a chunk: the CRC-32 of its type code followed by its
/// payload.
pub open spec fn checksum_of(c: ChunkModel) -> u32 {
    crc32_iso_hdlc(c.code + c.data)
}

/// The bytes that store a chunk.
pub open spec fn encoding(c: ChunkModel) -> Seq<u8> {
    be_bytes(length_field(c.data.len())) + c.code + c.data + be_bytes(checksum_of(c))
}

/// What a buffer that is meant to hold exactly one chunk decodes to.
///
/// The buffer must be long enough for an empty chunk, which takes twelve
/// bytes; its length field must account for every byte between the type
/// code and the checksum; and the
/// stored checksum must be that of the type code and payload found. The
/// checks are made in this order, and the first that fails names the error.
/// The type code is taken as found, letters or not.
pub open spec fn decoding(buf: Seq<u8>) -> Result<ChunkModel, Error> {
    if buf.len() < 12 {
        Err(Error::TruncatedBuffer)
    } else if be_value(buf) != buf.len() - 12 {
        Err(Error::LengthMismatch)
    } else {
        let c = ChunkModel { code: buf.subrange(4, 8), data: buf.subrange(8, buf.len() - 4) };
        if checksum_of(c) != be_value(buf.subrange(buf.len() - 4, buf.len() as int)) {
            Err(Error::CrcMismatch)
        } else {
            Ok(c)
        }
    }
}

/// The bytes of the chunk `c` after its type code and payload were replaced
/// by `code` and `data`, while the length and the checksum stayed as they
/// were stored for `c`.
pub open spec fn altered(c: ChunkModel, code: Seq<u8>, data: Seq<u8>) -> Seq<u8> {
    be_bytes(length_field(c.data.len())) + code + data + be_bytes(checksum_of(c))
}

/// The bytes that store a chunk are twelve more than its payload.
pub proof fn lemma_encoding_len(c: ChunkModel)
    requires
        c.code.len() == 4,
    ensures
        encoding(c).len() == c.data.len() + 12,
{
    lemma_be_bytes_len(length_field(c.data.len()));
    lemma_be_bytes_len(checksum_of(c));
}

/// Decoding the bytes that store a chunk gives the chunk back, whenever the
/// size of the payload fits the 32-bit length field.
pub proof fn lemma_decoding_of_encoding(c: ChunkModel)
    requires
        c.code.len() == 4,
        c.data.len() <= u32::MAX,
    ensures
        decoding(encoding(c)) == Ok::<ChunkModel, Error>(c),
{
    lemma_altered_contents(c, c.code, c.data);
}

/// Round trip: for every chunk whose payload fits the 32-bit length field,
/// decoding its bytes gives the chunk back.
pub proof fn lemma_chunk_round_trip(k: Chunk)
    requires
        k@.data.len() <= u32::MAX,
    ensures
        decoding(encoding(k@)) == Ok::<ChunkModel, Error>(k@),
{
    lemma_decoding_of_encoding(k@);
}

/// What the checksum catches: when the type code and the payload of a
/// stored chunk are replaced by others of the same sizes, decoding fails
/// with `CrcMismatch` unless the new contents have the checksum of the old,
/// and in that one case yields the new contents.
pub proof fn lemma_altered_contents(c: ChunkModel, code: Seq<u8>, data: Seq<u8>)
    requires
        c.code.len() == 4,
        c.data.len() <= u32::MAX,
        code.len() == 4,
        data.len() == c.data.len(),
    ensures
        decoding(altered(c, code, data)) == if crc32_iso_hdlc(code + data) == checksum_of(c) {
            Ok::<ChunkModel, Error>(ChunkModel { code, data })
        } else {
            Err::<ChunkModel, Error>(Error::CrcMismatch)
        },
{
    let buf = altered(c, code, data);
    let n = buf.len() as int;
    lemma_be_value_of_be_bytes(length_field(c.data.len()));
    lemma_be_value_of_be_bytes(checksum_of(c));
    lemma_be_value_of_front(buf);
    assert(buf.subrange(0, 4) =~= be_bytes(length_field(c.data.len())));
    assert(buf.subrange(4, 8) =~= code);
    assert(buf.subrange(8, n - 4) =~= data);
    assert(buf.subrange(n - 4, n) =~= be_bytes(checksum_of(c)));
}

/// A buffer that decodes to a chunk is exactly the bytes that store that
/// chunk: no two buffers decode to the same chunk.
pub proof fn lemma_encoding_of_decoding(buf: Seq<u8>)
    requires
        decoding(buf) is Ok,
    ensures
        encoding(decoding(buf)->Ok_0) == buf,
{
    let n = buf.len() as int;
    lemma_be_value_of_front(buf);
    lemma_be_bytes_of_be_value(buf.subrange(0, 4));
    lemma_be_bytes_of_be_value(buf.subrange(n - 4, n));
}

/// A chunk: a type code and a payload of any length.
#[derive(Debug)]
pub struct Chunk {
    chunk_type: ChunkType,
    data: Vec<u8>,
}

impl View for Chunk {
    type V = ChunkModel;

    open spec fn view(&self) -> ChunkModel {
        ChunkModel { code: self.spec_chunk_type()@, data: self.spec_data()@ }
    }
}

impl Chunk {
    /// The number of bytes of the length field.
    pub const DATA_LENGTH_BYTES: usize = 4;

    /// The number of bytes of the type code.
    pub const CHUNK_TYPE_BYTES: usize = 4;

    /// The number of bytes of the checksum.
    pub const CRC_BYTES: usize = 4;

    /// The number of bytes of a chunk that are not payload.
    pub const METADATA_LENGTH: usize = Chunk::DATA_LENGTH_BYTES + Chunk::CHUNK_TYPE_BYTES
        + Chunk::CRC_BYTES;

    /// The type code of the chunk, as a specification value.
    pub closed spec fn spec_chunk_type(&self) -> &ChunkType {
        &self.chunk_type
    }

    /// The payload of the chunk, as a specification value.
    pub closed spec fn spec_data(&self) -> &Vec<u8> {
        &self.data
    }

    /// A chunk of the given type with the given payload. Nothing is checked:
    /// length and checksum are computed when asked for.
    pub fn new(chunk_type: ChunkType, data: Vec<u8>) -> (c: Chunk)
        ensures
            *c.spec_chunk_type() == chunk_type,
            *c.spec_data() == data,
            c@ == (ChunkModel { code: chunk_type@, data: data@ }),
    {
        Chunk { chunk_type, data }
    }

    /// The length field of the chunk: the number of payload bytes, reduced
    /// to 32 bits.
    pub fn length(&self) -> (n: u32)
        ensures
            n == length_field(self@.data.len()),
    {
        let len: usize = self.data.len();
        let n: u32 = len as u32;
        proof {
            let wide: u64 = len as u64;
            assert(wide as u32 == wide % 0x1_0000_0000) by (bit_vector);
        }
        n
    }

    /// The type code.
    #[verifier::when_used_as_spec(spec_chunk_type)]
    pub fn chunk_type(&self) -> (t: &ChunkType)
        ensures
            t == self.spec_chunk_type(),
    {
        &self.chunk_type
    }

    /// The payload.
    #[verifier::when_used_as_spec(spec_data)]
    pub fn data(&self) -> (d: &Vec<u8>)
        ensures
            d == self.spec_data(),
    {
        &self.data
    }

    /// The checksum of the chunk, computed afresh on every call.
    pub fn crc(&self) -> (sum: u32)
        ensures
            sum == checksum_of(self@),
    {
        let code: [u8; 4] = self.chunk_type.bytes();
        let mut bytes: Vec<u8> = Vec::new();
        bytes.extend_from_slice(code.as_slice());
        bytes.extend_from_slice(self.data.as_slice());
        proof {
            assert(bytes@ =~= self@.code + self@.data);
        }
        checksum(bytes.as_slice())
    }

    /// The payload as text.
    ///
    /// Succeeds exactly when the payload is valid UTF-8, with the characters
    /// it encodes; fails with `InvalidEncoding` otherwise.
    pub fn data_as_string(&self) -> (r: Result<String, Error>)
        ensures
            match r {
                Ok(s) => valid_utf8(self@.data) && s@ == decode_utf8(self@.data),
                Err(e) => !valid_utf8(self@.data) && e == Error::InvalidEncoding,
            },
    {
        utf8_text(self.data.as_slice())
    }

    /// The bytes that store the chunk: length, type code, payload, checksum.
    pub fn as_bytes(&self) -> (v: Vec<u8>)
        ensures
            v@ == encoding(self@),
    {
        let mut v: Vec<u8> = Vec::new();
        let len: u32 = self.length();
        v.extend_from_slice(u32_to_u8_array(len).as_slice());
        v.extend_from_slice(self.chunk_type.bytes().as_slice());
        v.extend_from_slice(self.data.as_slice());
        let crc: u32 = self.crc();
        v.extend_from_slice(u32_to_u8_array(crc).as_slice());
        v
    }

    /// Reads one chunk from a buffer that holds it and nothing else.
    ///
    /// Succeeds exactly when `decoding` does, with a chunk of that model;
    /// fails with `TruncatedBuffer`, `LengthMismatch` or `CrcMismatch` as
    /// `decoding` says.
    pub fn decode(bytes: &[u8]) -> (r: Result<Chunk, Error>)
        ensures
            match r {
                Ok(c) => decoding(bytes@) == Ok::<ChunkModel, Error>(c@),
                Err(e) => decoding(bytes@) == Err::<ChunkModel, Error>(e),
            },
    {
        let len: usize = bytes.len();
        if len < Chunk::METADATA_LENGTH {
            return Err(Error::TruncatedBuffer);
        }
        let length: u32 = read_u32(bytes, 0);
        proof {
            lemma_be_value_of_front(bytes@);
        }
        if len - Chunk::METADATA_LENGTH != length as usize {
            return Err(Error::LengthMismatch);
        }
        let chunk_type = ChunkType { chunk: [bytes[4], bytes[5], bytes[6], bytes[7]] };
        let data: Vec<u8> = slice_to_vec(&bytes[8..len - 4]);
        let chunk = Chunk { chunk_type, data };
        let crc: u32 = read_u32(bytes, len - 4);
        proof {
            assert(chunk@.code =~= bytes@.subrange(4, 8));
        }
        if chunk.crc() != crc {
            return Err(Error::CrcMismatch);
        }
        Ok(chunk)
    }
}

impl PartialEq for Chunk {
    fn eq(&self, other: &Self) -> (same: bool) {
        if self.chunk_type != other.chunk_type {
            return false;
        }
        if self.data.len() != other.data.len() {
            return false;
        }
        let mut i: usize = 0;
        while i < self.data.len()
            invariant
                0 <= i <= self.data.len(),
                self.data.len() == other.data.len(),
                forall|j: int| 0 <= j < i ==> self.data@[j] == other.data@[j],
            decreases self.data.len() - i,
        {
            if self.data[i] != other.data[i] {
                return false;
            }
            i += 1;
        }
        proof {
            assert(self.data@ =~= other.data@);
        }
        true
    }
}

impl PartialEqSpecImpl for Chunk {
    open spec fn obeys_eq_spec() -> bool {
        true
    }

    /// Two chunks are equal when they have the same type code and payload.
    open spec fn eq_spec(&self, other: &Self) -> bool {
        self@ == other@
    }
}

impl TryFrom<&[u8]> for Chunk {
    type Error = Error;

    /// The same as `Chunk::decode`.
    fn try_from(bytes: &[u8]) -> (r: Result<Chunk, Error>)
        ensures
            match r {
                Ok(c) => decoding(bytes@) == Ok::<ChunkModel, Error>(c@),
                Err(e) => decoding(bytes@) == Err::<ChunkModel, Error>(e),
            },
    {
        Chunk::decode(bytes)
    }
}

impl TryFromSpecImpl<&[u8]> for Chunk {
    /// The conversion is specified on models, by `decoding`; no `Chunk`
    /// value is offered for it in specifications.
    open spec fn obeys_try_from_spec() -> bool {
        false
    }

    open spec fn try_from_spec(bytes: &[u8]) -> Result<Self, Error> {
        arbitrary()
    }
}

} // verus!
