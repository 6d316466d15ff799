//! The digest of a message as a mathematical function: the initial state,
//! the state after a number of blocks, and the serialised final state.

use vstd::prelude::*;
use crate::compress::compress;
use crate::padding::padded;
use crate::word::{unpack_be, word_to_be};

verus! {

/// Number of bytes in a digest.
pub const DIGEST_LEN: usize = 20;

/// Largest message length in bytes whose bit count fits the 64-bit length
/// field: 2^61 - 1.
pub const MAX_MESSAGE_LEN: u64 = 0x1fff_ffff_ffff_ffff;

/// The state before any block has been compressed.
pub open spec fn initial_state() -> Seq<u32> {
    seq![0x67452301u32, 0xEFCDAB89u32, 0x98BADCFEu32, 0x10325476u32, 0xC3D2E1F0u32]
}

/// Block `k` of `data`, counted from zero: bytes `64k .. 64k + 63`.
pub open spec fn nth_block(data: Seq<u8>, k: int) -> Seq<u8> {
    data.subrange(64 * k, 64 * k + 64)
}

/// The state after compressing the first `n` blocks of `data` into `h`, in
/// order. Bytes of `data` from `64 * n` on play no part.
pub open spec fn absorb(h: Seq<u32>, data: Seq<u8>, n: nat) -> Seq<u32>
    decreases n,
{
    if n == 0 {
        h
    } else {
        compress(absorb(h, data, (n - 1) as nat), nth_block(data, n - 1))
    }
}

/// The five state words as twenty bytes, each word big-endian.
pub open spec fn state_bytes(h: Seq<u32>) -> Seq<u8> {
    word_to_be(h[0]) + word_to_be(h[1]) + word_to_be(h[2]) + word_to_be(h[3]) + word_to_be(h[4])
}

/// The state after every complete block of `data` has been compressed
/// into the initial state.
pub open spec fn running_state(data: Seq<u8>) -> Seq<u32> {
    absorb(initial_state(), data, data.len() / 64)
}

/// The bytes of `data` behind its last complete block: fewer than 64.
pub open spec fn leftover(data: Seq<u8>) -> Seq<u8> {
    data.skip(data.len() - data.len() % 64)
}

/// The SHA-1 digest of a message: the initial state with every block of
/// the padded message compressed into it, serialised. The padding holds
/// the exact bit count for messages of at most `MAX_MESSAGE_LEN` bytes.
pub open spec fn sha1(msg: Seq<u8>) -> Seq<u8> {
    state_bytes(running_state(padded(msg)))
}

/// The state after `n` blocks depends only on the first `64 * n` bytes.
pub proof fn lemma_absorb_prefix(h: Seq<u32>, d1: Seq<u8>, d2: Seq<u8>, n: nat)
    requires
        64 * n <= d1.len(),
        64 * n <= d2.len(),
        forall|i: int| 0 <= i < 64 * n ==> d1[i] == d2[i],
    ensures
        absorb(h, d1, n) == absorb(h, d2, n),
    decreases n,
{
    if n > 0 {
        lemma_absorb_prefix(h, d1, d2, (n - 1) as nat);
        assert(nth_block(d1, n - 1) =~= nth_block(d2, n - 1));
    }
}

/// Every digest is exactly twenty bytes long, whatever the message.
pub proof fn lemma_digest_len(msg: Seq<u8>)
    ensures
        sha1(msg).len() == DIGEST_LEN,
{
}

/// Messages with the same bytes have the same digest.
pub proof fn lemma_digest_deterministic(a: Seq<u8>, b: Seq<u8>)
    requires
        a.len() == b.len(),
        forall|i: int| 0 <= i < a.len() ==> a[i] == b[i],
    ensures
        sha1(a) == sha1(b),
{
    assert(a =~= b);
}

/// Serialises the state, each word big-endian.
pub(crate) fn state_to_bytes(state: &[u32; 5]) -> (out: [u8; 20])
    ensures
        out@ == state_bytes(state@),
{
    let mut out = [0u8; 20];
    let mut i: usize = 0;
    while i < 5
        invariant
            i <= 5,
            forall|j: int| 0 <= j < 4 * i ==> out@[j] == state_bytes(state@)[j],
        decreases 5 - i,
    {
        let b = unpack_be(state[i]);
        out[4 * i] = b[0];
        out[4 * i + 1] = b[1];
        out[4 * i + 2] = b[2];
        out[4 * i + 3] = b[3];
        i += 1;
    }
    assert(out@ =~= state_bytes(state@));
    out
}

} // verus!
