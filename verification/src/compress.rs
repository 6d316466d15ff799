//! The block compression function: the 80-word message schedule and the
//! 80 mixing rounds that fold one 64-byte block into the 160-bit state.

use vstd::prelude::*;
use crate::word::{add5, pack_be, rotate_left, rotl, word_from_be, wrap32};

verus! {

/// Number of bytes in a block.
pub const BLOCK_LEN: usize = 64;

/// The five working variables of the round function.
#[derive(Clone, Copy)]
pub struct Registers {
    pub a: u32,
    pub b: u32,
    pub c: u32,
    pub d: u32,
    pub e: u32,
}

/// Word `t` of a block, `0 <= t < 16`: bytes `4t .. 4t + 3` read as a
/// big-endian integer.
pub open spec fn block_word(block: Seq<u8>, t: int) -> u32 {
    word_from_be(block[4 * t], block[4 * t + 1], block[4 * t + 2], block[4 * t + 3])
}

/// Word `t` of the message schedule of a block, `0 <= t < 80`: the first
/// sixteen are the block's own words, each later one is the exclusive or of
/// four earlier words rotated left by one.
pub open spec fn schedule(block: Seq<u8>, t: int) -> u32
    decreases t,
{
    if t < 16 {
        block_word(block, t)
    } else {
        rotl(
            schedule(block, t - 3) ^ schedule(block, t - 8) ^ schedule(block, t - 14) ^ schedule(
                block,
                t - 16,
            ),
            1,
        )
    }
}

/// The nonlinear function of round `t`: choice in rounds 0 to 19, parity in
/// rounds 20 to 39 and 60 to 79, majority in rounds 40 to 59.
pub open spec fn round_fn(t: int, b: u32, c: u32, d: u32) -> u32 {
    if t < 20 {
        (b & c) | (!b & d)
    } else if t < 40 {
        b ^ c ^ d
    } else if t < 60 {
        (b & c) | (b & d) | (c & d)
    } else {
        b ^ c ^ d
    }
}

/// The additive constant of round `t`.
pub open spec fn round_const(t: int) -> u32 {
    if t < 20 {
        0x5A827999
    } else if t < 40 {
        0x6ED9EBA1
    } else if t < 60 {
        0x8F1BBCDC
    } else {
        0xCA62C1D6
    }
}

/// One mixing round: round `t` applied to the registers `r` with schedule
/// word `w`.
pub open spec fn round(r: Registers, t: int, w: u32) -> Registers {
    Registers {
        a: wrap32(rotl(r.a, 5) + round_fn(t, r.b, r.c, r.d) + r.e + w + round_const(t)),
        b: r.a,
        c: rotl(r.b, 30),
        d: r.c,
        e: r.d,
    }
}

/// The registers after rounds `0 .. n` of a block, starting from `init`.
pub open spec fn rounds(init: Registers, block: Seq<u8>, n: int) -> Registers
    decreases n,
{
    if n <= 0 {
        init
    } else {
        round(rounds(init, block, n - 1), n - 1, schedule(block, n - 1))
    }
}

/// The state that results from compressing one 64-byte block into the
/// five-word state `h`: the registers start as `h`, go through all 80
/// rounds, and are added back to `h` word by word modulo 2^32.
pub open spec fn compress(h: Seq<u32>, block: Seq<u8>) -> Seq<u32> {
    let r = rounds(Registers { a: h[0], b: h[1], c: h[2], d: h[3], e: h[4] }, block, 80);
    seq![
        wrap32(h[0] + r.a),
        wrap32(h[1] + r.b),
        wrap32(h[2] + r.c),
        wrap32(h[3] + r.d),
        wrap32(h[4] + r.e),
    ]
}

/// The nonlinear function of round `t`, applied.
fn nonlinear(t: usize, b: u32, c: u32, d: u32) -> (f: u32)
    ensures
        f == round_fn(t as int, b, c, d),
{
    if t < 20 {
        (b & c) | (!b & d)
    } else if t < 40 {
        b ^ c ^ d
    } else if t < 60 {
        (b & c) | (b & d) | (c & d)
    } else {
        b ^ c ^ d
    }
}

/// The additive constant of round `t`.
fn additive(t: usize) -> (k: u32)
    ensures
        k == round_const(t as int),
{
    if t < 20 {
        0x5A827999
    } else if t < 40 {
        0x6ED9EBA1
    } else if t < 60 {
        0x8F1BBCDC
    } else {
        0xCA62C1D6
    }
}

/// Runs round `t` on the registers.
fn mix(r: Registers, t: usize, w: u32) -> (out: Registers)
    ensures
        out == round(r, t as int, w),
{
    Registers {
        a: add5(rotate_left(r.a, 5), nonlinear(t, r.b, r.c, r.d), r.e, w, additive(t)),
        b: r.a,
        c: rotate_left(r.b, 30),
        d: r.c,
        e: r.d,
    }
}

/// Compresses one 64-byte block into the running state.
pub fn update_hash(hash: &mut [u32; 5], block: &[u8])
    requires
        block@.len() == BLOCK_LEN,
    ensures
        final(hash)@ == compress(old(hash)@, block@),
{
    let mut w = [0u32; 80];
    let mut t: usize = 0;
    while t < 16
        invariant
            t <= 16,
            block@.len() == 64,
            forall|j: int| 0 <= j < t ==> w@[j] == schedule(block@, j),
        decreases 16 - t,
    {
        w[t] = pack_be(block[4 * t], block[4 * t + 1], block[4 * t + 2], block[4 * t + 3]);
        t += 1;
    }
    while t < 80
        invariant
            16 <= t <= 80,
            forall|j: int| 0 <= j < t ==> w@[j] == schedule(block@, j),
        decreases 80 - t,
    {
        w[t] = rotate_left(w[t - 3] ^ w[t - 8] ^ w[t - 14] ^ w[t - 16], 1);
        t += 1;
    }
    let init = Registers { a: hash[0], b: hash[1], c: hash[2], d: hash[3], e: hash[4] };
    let mut r = init;
    t = 0;
    while t < 80
        invariant
            t <= 80,
            forall|j: int| 0 <= j < 80 ==> w@[j] == schedule(block@, j),
            r == rounds(init, block@, t as int),
        decreases 80 - t,
    {
        r = mix(r, t, w[t]);
        t += 1;
    }
    hash[0] = hash[0].wrapping_add(r.a);
    hash[1] = hash[1].wrapping_add(r.b);
    hash[2] = hash[2].wrapping_add(r.c);
    hash[3] = hash[3].wrapping_add(r.d);
    hash[4] = hash[4].wrapping_add(r.e);
    assert(hash@ =~= compress(old(hash)@, block@));
}

} // verus!
