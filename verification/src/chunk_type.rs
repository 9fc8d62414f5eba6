//! The four-byte code that names the kind of a chunk.

use vstd::prelude::*;
use vstd::arithmetic::power2::{lemma2_to64, pow2};
use vstd::bits::lemma_u8_shr_is_div;
use vstd::std_specs::cmp::PartialEqSpecImpl;
use vstd::std_specs::convert::TryFromSpecImpl;
use vstd::utf8::{
    decode_utf8, encode_utf8, encode_utf8_decode_utf8, encode_utf8_valid_utf8,
    is_ascii_chars_encode_utf8, valid_utf8,
};
use crate::error::Error;
use crate::text::utf8_text;

verus! {

/// Whether `b` is an ASCII letter, `A`-`Z` or `a`-`z`.
pub open spec fn is_letter(b: u8) -> bool {
    (65 <= b <= 90) || (97 <= b <= 122)
}

/// Whether `code` is a well-formed type code: four ASCII letters.
pub open spec fn valid_code(code: Seq<u8>) -> bool {
    &&& code.len() == 4
    &&& forall|i: int| 0 <= i < 4 ==> is_letter(#[trigger] code[i])
}

/// Bit `n` of `b`, counted from the least significant bit: 0 or 1.
pub open spec fn bit(b: u8, n: nat) -> nat {
    (b as nat / pow2(n)) % 2
}

/// Bit 5 of `b`, the bit that tells the case of an ASCII letter: 0 in an
/// upper-case letter, 1 in a lower-case one.
pub open spec fn bit_five(b: u8) -> nat {
    (b as nat / 32) % 2
}

/// Whether a chunk with this code is critical rather than ancillary: bit 5
/// of the first byte is clear.
pub open spec fn critical(code: Seq<u8>) -> bool {
    bit_five(code[0]) == 0
}

/// Whether this code is public rather than private: bit 5 of the second byte
/// is clear.
pub open spec fn public(code: Seq<u8>) -> bool {
    bit_five(code[1]) == 0
}

/// Whether the reserved bit of this code, bit 5 of the third byte, is clear
/// as the format demands.
pub open spec fn reserved_bit_valid(code: Seq<u8>) -> bool {
    bit_five(code[2]) == 0
}

/// Whether a chunk with this code may be copied by an editor that does not
/// know it: bit 5 of the fourth byte is set.
pub open spec fn safe_to_copy(code: Seq<u8>) -> bool {
    bit_five(code[3]) == 1
}

/// A chunk type code: four bytes, compared byte for byte.
#[derive(Debug, Clone, Copy, Eq)]
pub struct ChunkType {
    pub chunk: [u8; 4],
}

impl View for ChunkType {
    type V = Seq<u8>;

    /// The four bytes of the code, in order.
    open spec fn view(&self) -> Seq<u8> {
        self.chunk@
    }
}

impl ChunkType {
    /// The number of bytes of a type code.
    pub const CHUNK_TYPE_LENGTH: usize = 4;

    /// The raw code.
    pub fn bytes(&self) -> (code: [u8; 4])
        ensures
            code == self.chunk,
    {
        self.chunk
    }

    /// Whether every byte of the code is an ASCII letter.
    pub fn is_valid(&self) -> (ok: bool)
        ensures
            ok == valid_code(self@),
    {
        let mut i: usize = 0;
        while i < 4
            invariant
                0 <= i <= 4,
                forall|j: int| 0 <= j < i ==> is_letter(#[trigger] self@[j]),
            decreases 4 - i,
        {
            let b: u8 = self.chunk[i];
            if !((65 <= b && b <= 90) || (97 <= b && b <= 122)) {
                return false;
            }
            i += 1;
        }
        true
    }

    /// Bit `bit_number` of the byte at `byte_index`.
    fn get_bit(&self, byte_index: usize, bit_number: u8) -> (b: u8)
        requires
            byte_index < 4,
            bit_number < 8,
        ensures
            b == bit(self@[byte_index as int], bit_number as nat),
            bit_number == 5 ==> b == bit_five(self@[byte_index as int]),
    {
        let byte: u8 = self.chunk[byte_index];
        let shifted: u8 = byte >> bit_number;
        proof {
            lemma_u8_shr_is_div(byte, bit_number);
            lemma2_to64();
            assert(shifted & 1 == shifted % 2) by (bit_vector);
        }
        shifted & 1
    }

    /// Whether the chunk is critical: the first byte has bit 5 clear, which
    /// for a letter means upper case.
    pub fn is_critical(&self) -> (yes: bool)
        ensures
            yes == critical(self@),
    {
        self.get_bit(0, 5) == 0
    }

    /// Whether the chunk is public: the second byte has bit 5 clear.
    pub fn is_public(&self) -> (yes: bool)
        ensures
            yes == public(self@),
    {
        self.get_bit(1, 5) == 0
    }

    /// Whether the reserved bit is valid: the third byte has bit 5 clear.
    pub fn is_reserved_bit_valid(&self) -> (yes: bool)
        ensures
            yes == reserved_bit_valid(self@),
    {
        self.get_bit(2, 5) == 0
    }

    /// Whether the chunk is safe to copy: the fourth byte has bit 5 set.
    pub fn is_safe_to_copy(&self) -> (yes: bool)
        ensures
            yes == safe_to_copy(self@),
    {
        self.get_bit(3, 5) == 1
    }

    /// Builds a type code from four bytes, all of which must be ASCII
    /// letters; any other byte is refused with `InvalidTypeCode`.
    pub fn from_bytes(value: [u8; 4]) -> (r: Result<ChunkType, Error>)
        ensures
            match r {
                Ok(t) => valid_code(value@) && t.chunk == value,
                Err(e) => !valid_code(value@) && e == Error::InvalidTypeCode,
            },
    {
        let t = ChunkType { chunk: value };
        if t.is_valid() {
            Ok(t)
        } else {
            Err(Error::InvalidTypeCode)
        }
    }

    /// Builds a type code from text whose UTF-8 encoding is exactly four
    /// bytes long; any other length is refused with `InvalidLength`. The
    /// bytes are taken as they are: they need not be letters, and
    /// `is_valid` tells whether they are.
    pub fn from_text(s: &str) -> (r: Result<ChunkType, Error>)
        ensures
            match r {
                Ok(t) => encode_utf8(s@).len() == 4 && t@ == encode_utf8(s@),
                Err(e) => encode_utf8(s@).len() != 4 && e == Error::InvalidLength,
            },
    {
        let b = s.as_bytes();
        if b.len() != ChunkType::CHUNK_TYPE_LENGTH {
            return Err(Error::InvalidLength);
        }
        Ok(ChunkType { chunk: [b[0], b[1], b[2], b[3]] })
    }

    /// The code as text.
    ///
    /// Succeeds exactly when the four bytes are valid UTF-8, with the
    /// characters they encode; fails with `InvalidEncoding` otherwise. A
    /// valid code always succeeds, and reads as its four letters.
    pub fn to_text(&self) -> (r: Result<String, Error>)
        ensures
            match r {
                Ok(s) => valid_utf8(self@) && s@ == decode_utf8(self@),
                Err(e) => !valid_utf8(self@) && e == Error::InvalidEncoding,
            },
            valid_code(self@) ==> (r matches Ok(s) && s@ == letters(self@)),
    {
        proof {
            if valid_code(self@) {
                lemma_valid_code_is_text(self@);
            }
        }
        utf8_text(self.chunk.as_slice())
    }
}

impl PartialEq for ChunkType {
    fn eq(&self, other: &Self) -> (same: bool) {
        let mut i: usize = 0;
        while i < 4
            invariant
                0 <= i <= 4,
                forall|j: int| 0 <= j < i ==> self@[j] == other@[j],
            decreases 4 - i,
        {
            if self.chunk[i] != other.chunk[i] {
                return false;
            }
            i += 1;
        }
        proof {
            assert(self@ =~= other@);
        }
        true
    }
}

impl PartialEqSpecImpl for ChunkType {
    open spec fn obeys_eq_spec() -> bool {
        true
    }

    /// Two codes are equal when their bytes are: upper and lower case differ.
    open spec fn eq_spec(&self, other: &Self) -> bool {
        self@ == other@
    }
}

impl TryFrom<[u8; 4]> for ChunkType {
    type Error = Error;

    /// The same as `ChunkType::from_bytes`.
    fn try_from(value: [u8; 4]) -> (r: Result<ChunkType, Error>) {
        ChunkType::from_bytes(value)
    }
}

impl TryFromSpecImpl<[u8; 4]> for ChunkType {
    open spec fn obeys_try_from_spec() -> bool {
        true
    }

    open spec fn try_from_spec(value: [u8; 4]) -> Result<Self, Error> {
        if valid_code(value@) {
            Ok(ChunkType { chunk: value })
        } else {
            Err(Error::InvalidTypeCode)
        }
    }
}

impl core::str::FromStr for ChunkType {
    type Err = Error;

    /// The same as `ChunkType::from_text`.
    fn from_str(s: &str) -> (r: Result<ChunkType, Error>)
        ensures
            match r {
                Ok(t) => encode_utf8(s@).len() == 4 && t@ == encode_utf8(s@),
                Err(e) => encode_utf8(s@).len() != 4 && e == Error::InvalidLength,
            },
    {
        ChunkType::from_text(s)
    }
}

/// The four letters that a valid code spells.
pub open spec fn letters(code: Seq<u8>) -> Seq<char> {
    Seq::new(4, |i: int| code[i] as char)
}

/// In a valid code the four flags can be read off the case of the letters:
/// critical and public and a valid reserved bit are upper case in the first,
/// second and third place, and safe-to-copy is lower case in the fourth.
pub proof fn lemma_flags_follow_letter_case(code: Seq<u8>)
    requires
        valid_code(code),
    ensures
        critical(code) <==> code[0] <= 90,
        public(code) <==> code[1] <= 90,
        reserved_bit_valid(code) <==> code[2] <= 90,
        safe_to_copy(code) <==> code[3] >= 97,
{
}

/// A valid code is valid UTF-8, and reads as its four letters.
pub proof fn lemma_valid_code_is_text(code: Seq<u8>)
    requires
        valid_code(code),
    ensures
        valid_utf8(code),
        decode_utf8(code) == letters(code),
{
    let text = letters(code);
    is_ascii_chars_encode_utf8(text);
    assert(encode_utf8(text) =~= code);
    encode_utf8_valid_utf8(text);
    encode_utf8_decode_utf8(text);
}

} // verus!
