//! Arithmetic on 32-bit words: rotation, addition modulo 2^32 and the
//! big-endian correspondence between words and bytes.

use vstd::prelude::*;

verus! {

/// Left rotation of a 32-bit word by `n` bit positions, for `0 < n < 32`:
/// the bits shifted out at the top come back in at the bottom.
pub open spec fn rotl(x: u32, n: u32) -> u32 {
    (x << n) | (x >> ((32 - n) as u32))
}

/// The residue of `x` modulo 2^32, as a word.
pub open spec fn wrap32(x: int) -> u32 {
    (x % 0x1_0000_0000) as u32
}

/// The word whose big-endian bytes are `b0`, `b1`, `b2`, `b3`
/// (`b0` is the most significant).
pub open spec fn word_from_be(b0: u8, b1: u8, b2: u8, b3: u8) -> u32 {
    (b0 * 0x100_0000 + b1 * 0x1_0000 + b2 * 0x100 + b3) as u32
}

/// The four bytes of `w`, most significant first.
pub open spec fn word_to_be(w: u32) -> Seq<u8> {
    seq![
        (w / 0x100_0000) as u8,
        (w / 0x1_0000 % 0x100) as u8,
        (w / 0x100 % 0x100) as u8,
        (w % 0x100) as u8,
    ]
}

/// The low 64 bits of `n` as eight bytes, most significant first.
pub open spec fn length_to_be(n: nat) -> Seq<u8> {
    seq![
        (n / 0x100_0000_0000_0000 % 0x100) as u8,
        (n / 0x1_0000_0000_0000 % 0x100) as u8,
        (n / 0x100_0000_0000 % 0x100) as u8,
        (n / 0x1_0000_0000 % 0x100) as u8,
        (n / 0x100_0000 % 0x100) as u8,
        (n / 0x1_0000 % 0x100) as u8,
        (n / 0x100 % 0x100) as u8,
        (n % 0x100) as u8,
    ]
}

/// Reading the big-endian bytes of a word back gives the word.
pub proof fn lemma_word_be_round_trip(w: u32)
    ensures
        word_to_be(w).len() == 4,
        word_from_be(word_to_be(w)[0], word_to_be(w)[1], word_to_be(w)[2], word_to_be(w)[3]) == w,
{
}

/// The big-endian bytes of the word read from four bytes are those bytes.
pub proof fn lemma_bytes_be_round_trip(b0: u8, b1: u8, b2: u8, b3: u8)
    ensures
        word_to_be(word_from_be(b0, b1, b2, b3)) == seq![b0, b1, b2, b3],
{
    let w = word_from_be(b0, b1, b2, b3);
    assert(w == b0 * 0x100_0000 + b1 * 0x1_0000 + b2 * 0x100 + b3);
    assert(w / 0x100_0000 == b0 && w / 0x1_0000 % 0x100 == b1 && w / 0x100 % 0x100 == b2 && w
        % 0x100 == b3) by (bit_vector)
        requires
            w == b0 * 0x100_0000 + b1 * 0x1_0000 + b2 * 0x100 + b3,
    ;
    assert(word_to_be(w) =~= seq![b0, b1, b2, b3]);
}

/// Rotates `x` left by `n` bit positions.
pub(crate) fn rotate_left(x: u32, n: u32) -> (r: u32)
    requires
        0 < n < 32,
    ensures
        r == rotl(x, n),
{
    (x << n) | (x >> (32 - n))
}

/// Adds five words modulo 2^32.
pub(crate) fn add5(a: u32, b: u32, c: u32, d: u32, e: u32) -> (r: u32)
    ensures
        r == wrap32(a + b + c + d + e),
{
    a.wrapping_add(b).wrapping_add(c).wrapping_add(d).wrapping_add(e)
}

/// Assembles a word from its big-endian bytes.
pub(crate) fn pack_be(b0: u8, b1: u8, b2: u8, b3: u8) -> (w: u32)
    ensures
        w == word_from_be(b0, b1, b2, b3),
{
    assert(((b0 as u32) << 24) | ((b1 as u32) << 16) | ((b2 as u32) << 8) | (b3 as u32) == b0
        * 0x100_0000 + b1 * 0x1_0000 + b2 * 0x100 + b3) by (bit_vector);
    ((b0 as u32) << 24) | ((b1 as u32) << 16) | ((b2 as u32) << 8) | (b3 as u32)
}

/// Splits a word into its big-endian bytes.
pub(crate) fn unpack_be(w: u32) -> (b: [u8; 4])
    ensures
        b@ == word_to_be(w),
{
    assert(w >> 24 == w / 0x100_0000 && w >> 24 < 0x100 && (w >> 16) & 0xff == w / 0x1_0000
        % 0x100 && (w >> 8) & 0xff == w / 0x100 % 0x100 && w & 0xff == w % 0x100) by (bit_vector);
    assert((w >> 16) & 0xff < 0x100 && (w >> 8) & 0xff < 0x100 && w & 0xff < 0x100)
        by (bit_vector);
    let b: [u8; 4] = [
        (w >> 24) as u8,
        ((w >> 16) & 0xff) as u8,
        ((w >> 8) & 0xff) as u8,
        (w & 0xff) as u8,
    ];
    assert(b@ =~= word_to_be(w));
    b
}

/// Splits a 64-bit count into its big-endian bytes.
pub(crate) fn unpack_be64(n: u64) -> (b: [u8; 8])
    ensures
        b@ == length_to_be(n as nat),
{
    assert((n >> 56) & 0xff == n / 0x100_0000_0000_0000 % 0x100 && (n >> 48) & 0xff == n
        / 0x1_0000_0000_0000 % 0x100 && (n >> 40) & 0xff == n / 0x100_0000_0000 % 0x100 && (n
        >> 32) & 0xff == n / 0x1_0000_0000 % 0x100) by (bit_vector);
    assert((n >> 24) & 0xff == n / 0x100_0000 % 0x100 && (n >> 16) & 0xff == n / 0x1_0000 % 0x100
        && (n >> 8) & 0xff == n / 0x100 % 0x100 && n & 0xff == n % 0x100) by (bit_vector);
    assert((n >> 56) & 0xff < 0x100 && (n >> 48) & 0xff < 0x100 && (n >> 40) & 0xff < 0x100 && (n
        >> 32) & 0xff < 0x100 && (n >> 24) & 0xff < 0x100 && (n >> 16) & 0xff < 0x100 && (n >> 8)
        & 0xff < 0x100 && n & 0xff < 0x100) by (bit_vector);
    let b: [u8; 8] = [
        ((n >> 56) & 0xff) as u8,
        ((n >> 48) & 0xff) as u8,
        ((n >> 40) & 0xff) as u8,
        ((n >> 32) & 0xff) as u8,
        ((n >> 24) & 0xff) as u8,
        ((n >> 16) & 0xff) as u8,
        ((n >> 8) & 0xff) as u8,
        (n & 0xff) as u8,
    ];
    assert(b@ =~= length_to_be(n as nat));
    b
}

} // verus!
