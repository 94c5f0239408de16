//! A 32-bit MurmurHash3-style hash, reseedable by a small index.
use vstd::prelude::*;

verus! {

/// Base seed; the seed index of a call is added to it.
pub const SEED: u32 = 0x1234ABCD;

pub const C1: u32 = 0xcc9e2d51;

pub const C2: u32 = 0x1b873593;

pub const R1: u32 = 15;

pub const R2: u32 = 13;

pub const M: u32 = 5;

pub const N: u32 = 0xe6546b64;

/// `x` rotated left by `r` bits (`0 < r < 32`).
pub open spec fn rotl(x: u32, r: u32) -> u32 {
    (x << r) | (x >> ((32 - r) as u32))
}

/// The 32-bit word whose little-endian bytes are `b0, b1, b2, b3`.
pub open spec fn le_word(b0: u8, b1: u8, b2: u8, b3: u8) -> u32 {
    ((b3 as u32) << 24u32) | ((b2 as u32) << 16u32) | ((b1 as u32) << 8u32) | (b0 as u32)
}

/// The multiply-rotate-multiply step applied to each block.
pub open spec fn calc_k_spec(k: u32) -> u32 {
    rotl(k.wrapping_mul(C1), R1).wrapping_mul(C2)
}

/// The state after one full block `k` has been mixed in.
pub open spec fn mix_block_spec(state: u32, k: u32) -> u32 {
    rotl(state ^ calc_k_spec(k), R2).wrapping_mul(M).wrapping_add(N)
}

/// The final avalanche over the state and the number of bytes processed.
pub open spec fn finish_spec(state: u32, processed: u32) -> u32 {
    let h0 = state ^ processed;
    let h1 = h0 ^ (h0 >> R1);
    let h2 = h1.wrapping_mul(C1);
    let h3 = h2 ^ (h2 >> R2);
    let h4 = h3.wrapping_mul(C2);
    h4 ^ (h4 >> R1)
}

/// The full block that starts at byte `4 * n` of `data`.
pub open spec fn block_word(data: Seq<u8>, n: int) -> u32 {
    le_word(data[4 * n], data[4 * n + 1], data[4 * n + 2], data[4 * n + 3])
}

/// The state after the first `n` full blocks of `data`.
pub open spec fn body_state(data: Seq<u8>, seed: u32, n: nat) -> u32
    decreases n,
{
    if n == 0 {
        seed.wrapping_add(SEED)
    } else {
        mix_block_spec(body_state(data, seed, (n - 1) as nat), block_word(data, n - 1))
    }
}

/// The trailing partial block (the last `len % 4` bytes) as a little-endian word.
pub open spec fn tail_word(data: Seq<u8>) -> u32 {
    let t = data.len() % 4;
    let b = data.len() - t;
    if t == 1 {
        data[b] as u32
    } else if t == 2 {
        le_word(data[b], data[b + 1], 0, 0)
    } else if t == 3 {
        le_word(data[b], data[b + 1], data[b + 2], 0)
    } else {
        0
    }
}

/// The hash of `data` under seed index `seed`.
pub open spec fn murmur3_spec(data: Seq<u8>, seed: u32) -> u32 {
    let s = body_state(data, seed, data.len() / 4);
    let s2 = if data.len() % 4 == 0 {
        s
    } else {
        s ^ calc_k_spec(tail_word(data))
    };
    finish_spec(s2, data.len() as u32)
}

fn rotate_left(x: u32, r: u32) -> (res: u32)
    requires
        0 < r < 32,
    ensures
        res == rotl(x, r),
{
    (x << r) | (x >> (32 - r))
}

pub(crate) fn word(b0: u8, b1: u8, b2: u8, b3: u8) -> (res: u32)
    ensures
        res == le_word(b0, b1, b2, b3),
{
    ((b3 as u32) << 24) | ((b2 as u32) << 16) | ((b1 as u32) << 8) | (b0 as u32)
}

fn calc_k(k: u32) -> (res: u32)
    ensures
        res == calc_k_spec(k),
{
    rotate_left(k.wrapping_mul(C1), R1).wrapping_mul(C2)
}

fn finish(state: u32, processed: u32) -> (res: u32)
    ensures
        res == finish_spec(state, processed),
{
    let mut hash = state;
    hash ^= processed;
    hash ^= hash >> R1;
    hash = hash.wrapping_mul(C1);
    hash ^= hash >> R2;
    hash = hash.wrapping_mul(C2);
    hash ^= hash >> R1;
    hash
}

/// Hashes `data` with the base seed advanced by `seed`: full 4-byte blocks are
/// mixed into the state, a 1-3 byte tail is mixed in without the rotate step,
/// and the byte count goes into the final avalanche.
pub fn murmurhash3_32(data: &[u8], seed: u32) -> (r: u32)
    ensures
        r == murmur3_spec(data@, seed),
{
    let len = data.len();
    let mut state: u32 = seed.wrapping_add(SEED);
    let mut pos: usize = 0;
    let ghost mut n: nat = 0;
    while len - pos >= 4
        invariant
            len == data@.len(),
            pos <= len,
            pos == 4 * n,
            state == body_state(data@, seed, n),
        decreases len - pos,
    {
        let k = word(data[pos], data[pos + 1], data[pos + 2], data[pos + 3]);
        state = rotate_left(state ^ calc_k(k), R2).wrapping_mul(M).wrapping_add(N);
        pos = pos + 4;
        proof {
            n = n + 1;
        }
    }
    assert(n == data@.len() / 4 && len - pos == data@.len() % 4);
    let rest = len - pos;
    if rest == 1 {
        state ^= calc_k(data[pos] as u32);
    } else if rest == 2 {
        state ^= calc_k(word(data[pos], data[pos + 1], 0, 0));
    } else if rest == 3 {
        state ^= calc_k(word(data[pos], data[pos + 1], data[pos + 2], 0));
    }
    finish(state, len as u32)
}

} // verus!
