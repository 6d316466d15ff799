//! The incremental hasher: it takes a message in pieces of any size,
//! compresses each block as soon as it is complete, and pads and
//! serialises at the end.

use vstd::prelude::*;
use vstd::slice::slice_subrange;
use crate::compress::{compress, update_hash};
use crate::digest::{
    absorb, initial_state, leftover, lemma_absorb_prefix, nth_block, running_state, sha1,
    state_to_bytes, DIGEST_LEN, MAX_MESSAGE_LEN,
};
use crate::padding::{lemma_padded_bytes, lemma_padded_len, padded};
use crate::word::{length_to_be, unpack_be64};

verus! {

/// A hash computation in progress. Its view is the whole message taken in
/// so far; of that message it keeps the running state, the bytes that do
/// not yet fill a block, and the length.
///
/// A `Framer` accumulates until `finalize` consumes it, so nothing can be
/// added to a finished computation and none can be finished twice.
pub struct Framer {
    state: [u32; 5],
    buffer: [u8; 64],
    pending: usize,
    length: u64,
    stream: Ghost<Seq<u8>>,
}

/// What the fields hold when the message so far is `msg`: the state has
/// every complete block of `msg` compressed into it, and the first
/// `pending` bytes of the buffer are the bytes of `msg` after those blocks.
spec fn holds(state: Seq<u32>, buffer: Seq<u8>, pending: int, msg: Seq<u8>) -> bool {
    &&& msg.len() <= MAX_MESSAGE_LEN
    &&& pending == msg.len() % 64
    &&& state == running_state(msg)
    &&& buffer.len() == 64
    &&& forall|j: int| 0 <= j < pending ==> buffer[j] == msg[msg.len() - pending + j]
}

/// Taking in one whole block while the buffer is empty compresses it.
proof fn lemma_holds_block(state: Seq<u32>, buffer: Seq<u8>, msg: Seq<u8>, block: Seq<u8>)
    requires
        holds(state, buffer, 0, msg),
        block.len() == 64,
        msg.len() + 64 <= MAX_MESSAGE_LEN,
    ensures
        holds(compress(state, block), buffer, 0, msg + block),
{
    let n = msg.len() / 64;
    let next = msg + block;
    assert(msg.len() == 64 * n);
    assert(next.len() / 64 == n + 1);
    lemma_absorb_prefix(initial_state(), msg, next, n);
    assert(nth_block(next, n as int) =~= block);
    assert(absorb(initial_state(), next, n + 1) == compress(
        absorb(initial_state(), next, n),
        nth_block(next, n as int),
    ));
}

/// Taking in one byte puts it into the buffer, and compresses the buffer
/// when that byte completes a block.
proof fn lemma_holds_byte(state: Seq<u32>, buffer: Seq<u8>, pending: int, msg: Seq<u8>, b: u8)
    requires
        holds(state, buffer, pending, msg),
        msg.len() + 1 <= MAX_MESSAGE_LEN,
    ensures
        pending + 1 < 64 ==> holds(
            state,
            buffer.update(pending, b),
            pending + 1,
            msg.push(b),
        ),
        pending + 1 == 64 ==> holds(
            compress(state, buffer.update(pending, b)),
            buffer.update(pending, b),
            0,
            msg.push(b),
        ),
{
    let n = msg.len() / 64;
    let next = msg.push(b);
    let filled = buffer.update(pending, b);
    assert(msg.len() == 64 * n + pending);
    lemma_absorb_prefix(initial_state(), msg, next, n);
    if pending + 1 < 64 {
        assert(next.len() / 64 == n);
        assert(next.len() % 64 == pending + 1);
    } else {
        assert(next.len() == 64 * (n + 1));
        assert(next.len() / 64 == n + 1);
        assert(next.len() % 64 == 0);
        assert(nth_block(next, n as int) =~= filled);
        assert(absorb(initial_state(), next, n + 1) == compress(
            absorb(initial_state(), next, n),
            nth_block(next, n as int),
        ));
    }
}

/// The last block of a padded message when terminator and length fit
/// behind what is left of the message.
proof fn lemma_one_final_block(msg: Seq<u8>, block: Seq<u8>)
    requires
        msg.len() % 64 < 56,
        block.len() == 64,
        forall|j: int|
            0 <= j < msg.len() % 64 ==> block[j] == msg[msg.len() - msg.len() % 64 + j],
        block[(msg.len() % 64) as int] == 0x80,
        forall|j: int| msg.len() % 64 < j < 56 ==> block[j] == 0,
        forall|j: int| 56 <= j < 64 ==> block[j] == length_to_be(8 * msg.len())[j - 56],
    ensures
        padded(msg).len() / 64 == msg.len() / 64 + 1,
        nth_block(padded(msg), msg.len() as int / 64) == block,
{
    let n = msg.len() / 64;
    let p = msg.len() % 64;
    let all = padded(msg);
    lemma_padded_len(msg);
    lemma_padded_bytes(msg);
    assert(msg.len() == 64 * n + p);
    assert(all.len() == 64 * n + 64);
    assert forall|j: int| 0 <= j < 64 implies nth_block(all, n as int)[j] == block[j] by {
        assert(nth_block(all, n as int)[j] == all[64 * n + j]);
    }
    assert(nth_block(all, n as int) =~= block);
}

/// The last two blocks of a padded message when the length no longer fits
/// behind what is left of the message.
proof fn lemma_two_final_blocks(msg: Seq<u8>, first: Seq<u8>, second: Seq<u8>)
    requires
        msg.len() % 64 >= 56,
        first.len() == 64,
        second.len() == 64,
        forall|j: int|
            0 <= j < msg.len() % 64 ==> first[j] == msg[msg.len() - msg.len() % 64 + j],
        first[(msg.len() % 64) as int] == 0x80,
        forall|j: int| msg.len() % 64 < j < 64 ==> first[j] == 0,
        forall|j: int| 0 <= j < 56 ==> second[j] == 0,
        forall|j: int| 56 <= j < 64 ==> second[j] == length_to_be(8 * msg.len())[j - 56],
    ensures
        padded(msg).len() / 64 == msg.len() / 64 + 2,
        nth_block(padded(msg), msg.len() as int / 64) == first,
        nth_block(padded(msg), msg.len() as int / 64 + 1) == second,
{
    let n = msg.len() / 64;
    let p = msg.len() % 64;
    let all = padded(msg);
    lemma_padded_len(msg);
    lemma_padded_bytes(msg);
    assert(msg.len() == 64 * n + p);
    assert(all.len() == 64 * n + 128);
    assert forall|j: int| 0 <= j < 64 implies nth_block(all, n as int)[j] == first[j] by {
        assert(nth_block(all, n as int)[j] == all[64 * n + j]);
    }
    assert forall|j: int| 0 <= j < 64 implies nth_block(all, n as int + 1)[j] == second[j] by {
        assert(nth_block(all, n as int + 1)[j] == all[64 * n + 64 + j]);
    }
    assert(nth_block(all, n as int) =~= first);
    assert(nth_block(all, n as int + 1) =~= second);
}

/// The buffer with the terminator byte behind its first `pending` bytes
/// and zeros from there to the end of the block.
fn terminated(buffer: &[u8; 64], pending: usize) -> (block: [u8; 64])
    requires
        pending < 64,
    ensures
        forall|j: int| 0 <= j < pending ==> block@[j] == buffer@[j],
        block@[pending as int] == 0x80,
        forall|j: int| pending < j < 64 ==> block@[j] == 0,
{
    let mut block = *buffer;
    block[pending] = 0x80;
    let mut i: usize = pending + 1;
    while i < 64
        invariant
            pending < i <= 64,
            forall|j: int| 0 <= j < pending ==> block@[j] == buffer@[j],
            block@[pending as int] == 0x80,
            forall|j: int| pending < j < i ==> block@[j] == 0,
        decreases 64 - i,
    {
        block[i] = 0;
        i += 1;
    }
    block
}

/// The block with the bit count of a message of `length` bytes in its
/// last eight bytes.
fn with_length(block: &[u8; 64], length: u64) -> (out: [u8; 64])
    requires
        length <= MAX_MESSAGE_LEN,
    ensures
        forall|j: int| 0 <= j < 56 ==> out@[j] == block@[j],
        forall|j: int| 56 <= j < 64 ==> out@[j] == length_to_be(8 * (length as nat))[j - 56],
{
    let bits = unpack_be64(length * 8);
    let mut out = *block;
    let mut k: usize = 0;
    while k < 8
        invariant
            k <= 8,
            forall|j: int| 0 <= j < 56 ==> out@[j] == block@[j],
            forall|j: int| 56 <= j < 56 + k ==> out@[j] == bits@[j - 56],
        decreases 8 - k,
    {
        out[56 + k] = bits[k];
        k += 1;
    }
    out
}

impl View for Framer {
    type V = Seq<u8>;

    closed spec fn view(&self) -> Seq<u8> {
        self.stream@
    }
}

impl Framer {
    /// The fields always describe the message of the view.
    #[verifier::type_invariant]
    spec fn inv(self) -> bool {
        &&& holds(self.state@, self.buffer@, self.pending as int, self.stream@)
        &&& self.length == self.stream@.len()
    }

    /// The running five-word state.
    pub closed spec fn state(&self) -> Seq<u32> {
        self.state@
    }

    /// The buffered bytes, which wait for their block to be complete.
    pub closed spec fn pending(&self) -> Seq<u8> {
        self.buffer@.take(self.pending as int)
    }

    /// Starts a computation on the empty message.
    pub fn new() -> (framer: Framer)
        ensures
            framer@ == Seq::<u8>::empty(),
            framer.state() == initial_state(),
            framer.pending() == Seq::<u8>::empty(),
    {
        Framer {
            state: [0x67452301, 0xEFCDAB89, 0x98BADCFE, 0x10325476, 0xC3D2E1F0],
            buffer: [0u8; 64],
            pending: 0,
            length: 0,
            stream: Ghost(Seq::empty()),
        }
    }

    /// Number of bytes taken in so far.
    pub fn len(&self) -> (n: u64)
        ensures
            n == self@.len(),
            n <= MAX_MESSAGE_LEN,
    {
        proof {
            use_type_invariant(self);
        }
        self.length
    }

    /// Appends `data` to the message: every block that `data` completes
    /// is compressed, in order, and what is left stays buffered.
    ///
    /// The whole message may be at most `MAX_MESSAGE_LEN` bytes long;
    /// `len` tells how many have been taken in.
    pub fn update(&mut self, data: &[u8])
        requires
            old(self)@.len() + data@.len() <= MAX_MESSAGE_LEN,
        ensures
            final(self)@ == old(self)@ + data@,
            final(self).state() == running_state(final(self)@),
            final(self).pending() == leftover(final(self)@),
    {
        proof {
            use_type_invariant(&*self);
        }
        let ghost start = self.stream@;
        let mut state = self.state;
        let mut buffer = self.buffer;
        let mut pending = self.pending;
        let mut i: usize = 0;
        while i < data.len()
            invariant
                i <= data@.len(),
                start.len() + data@.len() <= MAX_MESSAGE_LEN,
                holds(state@, buffer@, pending as int, start + data@.take(i as int)),
            decreases data@.len() - i,
        {
            let ghost msg = start + data@.take(i as int);
            if pending == 0 && data.len() - i >= 64 {
                let block = slice_subrange(data, i, i + 64);
                proof {
                    lemma_holds_block(state@, buffer@, msg, block@);
                    assert(start + data@.take(i + 64) =~= msg + block@);
                }
                update_hash(&mut state, block);
                i += 64;
            } else {
                proof {
                    lemma_holds_byte(state@, buffer@, pending as int, msg, data@[i as int]);
                    assert(start + data@.take(i + 1) =~= msg.push(data@[i as int]));
                }
                buffer[pending] = data[i];
                pending += 1;
                if pending == 64 {
                    update_hash(&mut state, buffer.as_slice());
                    pending = 0;
                }
                i += 1;
            }
        }
        assert(data@.take(data@.len() as int) =~= data@);
        assert(buffer@.take(pending as int) =~= leftover(start + data@));
        *self = Framer {
            state,
            buffer,
            pending,
            length: self.length + data.len() as u64,
            stream: Ghost(start + data@),
        };
    }

    /// Pads the message, compresses what is left and returns the digest.
    pub fn finalize(self) -> (digest: [u8; 20])
        ensures
            digest@ == sha1(self@),
            digest@.len() == DIGEST_LEN,
    {
        proof {
            use_type_invariant(&self);
        }
        let ghost msg = self.stream@;
        let ghost all = padded(msg);
        let ghost n = msg.len() / 64;
        let mut state = self.state;
        let first = terminated(&self.buffer, self.pending);
        let last = if self.pending < 56 {
            with_length(&first, self.length)
        } else {
            update_hash(&mut state, first.as_slice());
            with_length(&[0u8; 64], self.length)
        };
        proof {
            lemma_absorb_prefix(initial_state(), msg, all, n);
            assert(absorb(initial_state(), all, n + 1) == compress(
                absorb(initial_state(), all, n),
                nth_block(all, n as int),
            ));
            if self.pending < 56 {
                lemma_one_final_block(msg, last@);
            } else {
                lemma_two_final_blocks(msg, first@, last@);
                assert(absorb(initial_state(), all, n + 2) == compress(
                    absorb(initial_state(), all, (n + 1) as nat),
                    nth_block(all, n as int + 1),
                ));
            }
        }
        update_hash(&mut state, last.as_slice());
        state_to_bytes(&state)
    }
}

/// The message held after the pieces `chunks` have been appended one
/// after the other to `start`.
pub open spec fn fed(start: Seq<u8>, chunks: Seq<Seq<u8>>) -> Seq<u8>
    decreases chunks.len(),
{
    if chunks.len() == 0 {
        start
    } else {
        fed(start + chunks.first(), chunks.drop_first())
    }
}

/// Appending pieces one after the other appends their concatenation.
pub proof fn lemma_fed_is_concatenation(start: Seq<u8>, chunks: Seq<Seq<u8>>)
    ensures
        fed(start, chunks) == start + chunks.flatten(),
    decreases chunks.len(),
{
    if chunks.len() == 0 {
        assert(start + chunks.flatten() =~= start);
    } else {
        lemma_fed_is_concatenation(start + chunks.first(), chunks.drop_first());
        assert((start + chunks.first()) + chunks.drop_first().flatten() =~= start
            + chunks.flatten());
    }
}

/// However a message is cut into pieces, empty ones included, taking the
/// pieces in one by one leads to the same digest as taking in the whole
/// message at once.
pub proof fn lemma_chunking_invariance(chunks: Seq<Seq<u8>>)
    ensures
        fed(Seq::empty(), chunks) == fed(Seq::empty(), seq![chunks.flatten()]),
        sha1(fed(Seq::empty(), chunks)) == sha1(chunks.flatten()),
{
    let whole = seq![chunks.flatten()];
    lemma_fed_is_concatenation(Seq::empty(), chunks);
    lemma_fed_is_concatenation(Seq::empty(), whole);
    whole.lemma_flatten_one_element();
    assert(Seq::<u8>::empty() + chunks.flatten() =~= chunks.flatten());
}

} // verus!
