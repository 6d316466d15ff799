//! Message padding: the terminator byte, the zero fill and the 64-bit
//! big-endian bit length that bring a message to a whole number of blocks.

use vstd::prelude::*;
use crate::word::length_to_be;

verus! {

/// Number of zero bytes in the padding of a message of `len` bytes: the
/// least count that makes the message, the terminator byte, the zeros and
/// the eight length bytes together a multiple of 64 bytes.
pub open spec fn zero_fill(len: nat) -> nat {
    ((55 - len) % 64) as nat
}

/// The padding of a message of `len` bytes: the byte `0x80`, then
/// `zero_fill(len)` zero bytes, then the message length in bits as eight
/// big-endian bytes.
pub open spec fn padding(len: nat) -> Seq<u8> {
    seq![0x80u8] + Seq::new(zero_fill(len), |i: int| 0u8) + length_to_be(8 * len)
}

/// A message followed by its padding.
pub open spec fn padded(msg: Seq<u8>) -> Seq<u8> {
    msg + padding(msg.len())
}

/// The zero fill is shorter than a block and completes the last block
/// exactly, so no smaller count would do.
pub proof fn lemma_zero_fill(len: nat)
    ensures
        zero_fill(len) < 64,
        (len + 1 + zero_fill(len) + 8) % 64 == 0,
{
}

/// A padded message is a whole number of blocks: one block more than the
/// complete blocks of the message when at most 55 bytes are left over, so
/// that terminator and length fit into the last block, and two blocks more
/// when 56 to 63 bytes are left over.
pub proof fn lemma_padded_len(msg: Seq<u8>)
    ensures
        padded(msg).len() % 64 == 0,
        msg.len() % 64 < 56 ==> padded(msg).len() == 64 * (msg.len() / 64 + 1),
        msg.len() % 64 >= 56 ==> padded(msg).len() == 64 * (msg.len() / 64 + 2),
{
}

/// The bytes of a padded message, place by place: the message, the
/// terminator, zeros, and the bit length in the last eight bytes.
pub proof fn lemma_padded_bytes(msg: Seq<u8>)
    ensures
        padded(msg).len() == msg.len() + 1 + zero_fill(msg.len()) + 8,
        forall|i: int| 0 <= i < msg.len() ==> padded(msg)[i] == msg[i],
        padded(msg)[msg.len() as int] == 0x80,
        forall|i: int| msg.len() < i < padded(msg).len() - 8 ==> padded(msg)[i] == 0,
        forall|i: int|
            padded(msg).len() - 8 <= i < padded(msg).len() ==> #[trigger] padded(msg)[i]
                == length_to_be(8 * msg.len())[i - (padded(msg).len() - 8)],
{
}

} // verus!
