//! SHA-1 message digest: block compression, message framing and an
//! incremental hasher, with contracts stated over byte sequences.
//!
//! - `word`: rotation, addition modulo 2^32 and big-endian bytes of words.
//! - `compress`: the message schedule, the rounds and `update_hash`.
//! - `padding`: what is appended to a message before its last blocks.
//! - `digest`: the digest of a message as a function of its bytes.
//! - `framer`: the incremental hasher `Framer`.

pub mod compress;
pub mod digest;
pub mod framer;
pub mod padding;
pub mod word;

pub use crate::compress::update_hash;
pub use crate::digest::{DIGEST_LEN, MAX_MESSAGE_LEN};
pub use crate::framer::Framer;

use crate::digest::sha1;
use vstd::prelude::*;

verus! {

/// Computes the SHA-1 digest of `input` in one call.
///
/// The input may be at most `MAX_MESSAGE_LEN` bytes long, so that its
/// length in bits fits the 64-bit length field.
pub fn hash(input: &[u8]) -> (digest: [u8; 20])
    requires
        input@.len() <= MAX_MESSAGE_LEN,
    ensures
        digest@ == sha1(input@),
        digest@.len() == DIGEST_LEN,
{
    let mut framer = Framer::new();
    framer.update(input);
    assert(Seq::<u8>::empty() + input@ =~= input@);
    framer.finalize()
}

} // verus!
