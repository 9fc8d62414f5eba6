//! Big-endian 32-bit fields, as the length and checksum of a chunk are stored.

use vstd::prelude::*;

verus! {

/// The four bytes that store `x`, most significant byte first.
#[verifier::opaque]
pub open spec fn be_bytes(x: u32) -> Seq<u8> {
    seq![
        (x / 0x100_0000) as u8,
        (x / 0x1_0000 % 0x100) as u8,
        (x / 0x100 % 0x100) as u8,
        (x % 0x100) as u8,
    ]
}

/// The number that the first four bytes of `b` store, most significant byte
/// first.
#[verifier::opaque]
pub open spec fn be_value(b: Seq<u8>) -> nat
    recommends
        b.len() >= 4,
{
    (b[0] * 0x100_0000 + b[1] * 0x1_0000 + b[2] * 0x100 + b[3]) as nat
}

/// Reading back what was stored gives the number that was stored.
pub proof fn lemma_be_value_of_be_bytes(x: u32)
    ensures
        be_bytes(x).len() == 4,
        be_value(be_bytes(x)) == x,
{
    reveal(be_bytes);
    reveal(be_value);
    assert((x / 0x100_0000) * 0x100_0000 + (x / 0x1_0000 % 0x100) * 0x1_0000 + (x / 0x100 % 0x100)
        * 0x100 + x % 0x100 == x) by (bit_vector);
}

/// A number is stored in four bytes.
pub proof fn lemma_be_bytes_len(x: u32)
    ensures
        be_bytes(x).len() == 4,
{
    reveal(be_bytes);
}

/// The number that a buffer stores at its front depends on its first four
/// bytes alone.
pub proof fn lemma_be_value_of_front(b: Seq<u8>)
    requires
        b.len() >= 4,
    ensures
        be_value(b) == be_value(b.subrange(0, 4)),
{
    reveal(be_value);
}

/// Any four bytes store a number that fits in 32 bits, and storing that
/// number gives the same four bytes.
pub proof fn lemma_be_bytes_of_be_value(b: Seq<u8>)
    requires
        b.len() == 4,
    ensures
        be_value(b) <= u32::MAX,
        be_bytes(be_value(b) as u32) == b,
{
    reveal(be_bytes);
    reveal(be_value);
    let v: int = be_value(b) as int;
    let b0: int = b[0] as int;
    let b1: int = b[1] as int;
    let b2: int = b[2] as int;
    let b3: int = b[3] as int;
    assert(v / 0x100_0000 == b0);
    assert(v / 0x1_0000 == b0 * 0x100 + b1);
    assert(v / 0x100 == b0 * 0x1_0000 + b1 * 0x100 + b2);
    assert(v / 0x1_0000 % 0x100 == b1);
    assert(v / 0x100 % 0x100 == b2);
    assert(v % 0x100 == b3);
    assert(be_bytes(v as u32) =~= b);
}

/// Splits `x` into its four bytes, most significant byte first.
pub fn u32_to_u8_array(x: u32) -> (b: [u8; 4])
    ensures
        b@ == be_bytes(x),
{
    let b1: u8 = ((x >> 24) & 0xff) as u8;
    let b2: u8 = ((x >> 16) & 0xff) as u8;
    let b3: u8 = ((x >> 8) & 0xff) as u8;
    let b4: u8 = (x & 0xff) as u8;
    proof {
        reveal(be_bytes);
        assert((x >> 24) & 0xff == x / 0x100_0000) by (bit_vector);
        assert((x >> 16) & 0xff == x / 0x1_0000 % 0x100) by (bit_vector);
        assert((x >> 8) & 0xff == x / 0x100 % 0x100) by (bit_vector);
        assert(x & 0xff == x % 0x100) by (bit_vector);
    }
    [b1, b2, b3, b4]
}

/// Reads the 32-bit number stored in the four bytes of `b` that start at
/// index `at`, most significant byte first.
pub(crate) fn read_u32(b: &[u8], at: usize) -> (x: u32)
    requires
        at + 4 <= b@.len(),
    ensures
        x == be_value(b@.subrange(at as int, at + 4)),
{
    let b0: u32 = b[at] as u32;
    let b1: u32 = b[at + 1] as u32;
    let b2: u32 = b[at + 2] as u32;
    let b3: u32 = b[at + 3] as u32;
    proof {
        reveal(be_value);
        assert(b0 << 24 == b0 * 0x100_0000) by (bit_vector)
            requires
                b0 < 0x100,
        ;
        assert(b1 << 16 == b1 * 0x1_0000) by (bit_vector)
            requires
                b1 < 0x100,
        ;
        assert(b2 << 8 == b2 * 0x100) by (bit_vector)
            requires
                b2 < 0x100,
        ;
    }
    b3 + (b2 << 8) + (b1 << 16) + (b0 << 24)
}

} // verus!
