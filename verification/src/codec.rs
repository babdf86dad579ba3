//! Zigzag coordinate codec and chunk/local decomposition.
//!
//! World coordinates are signed and unbounded in both directions, but the
//! chunk grids are dense arrays that need non-negative indices. Every axis
//! is therefore passed through a zigzag transform that interleaves the
//! signs: 0, -1, 1, -2, 2, ... map to 0, 1, 2, 3, 4, ... The transform is
//! a bijection onto the naturals that preserves closeness to zero, so
//! growing the arrays outward in index order grows the world outward from
//! the origin on both sides.

use vstd::arithmetic::div_mod::lemma_fundamental_div_mod;
use vstd::arithmetic::div_mod::lemma_fundamental_div_mod_converse;
use vstd::prelude::*;

verus! {

/// Edge length of a chunk, shared by every chunk and by every
/// coordinate-to-chunk decomposition.
pub const CHUNKSIZE: usize = 32;

/// Zigzag encoding of a signed coordinate: non-negative `i` maps to `2 * i`,
/// negative `i` maps to `-2 * i - 1`.
pub open spec fn encode(i: int) -> int {
    if i < 0 {
        -2 * i - 1
    } else {
        2 * i
    }
}

/// Inverse of `encode`: even indices are non-negative coordinates, odd
/// indices are negative ones.
pub open spec fn decode(n: int) -> int {
    if n % 2 == 0 {
        n / 2
    } else {
        -(n / 2) - 1
    }
}

/// World coordinate reconstructed from a zigzag-encoded chunk index and a
/// local offset inside that chunk.
pub open spec fn world_pos(chunk_index: int, local: int) -> int {
    decode(chunk_index) * (CHUNKSIZE as int) + local
}

/// Zigzag-encode a signed coordinate to an array index.
pub fn i_to_u(idx: i32) -> (n: usize)
    ensures
        n == encode(idx as int),
{
    if idx < 0 {
        let m: i64 = -(idx as i64);
        assert(m * 2 - 1 <= usize::MAX) by {
            assert(m <= 0x8000_0000);
        }
        (m * 2 - 1) as usize
    } else {
        (idx as i64 * 2) as usize
    }
}

/// Decode a zigzag array index back to the signed coordinate.
pub fn u_to_i(n: usize) -> (i: i32)
    requires
        i32::MIN <= decode(n as int) <= i32::MAX,
    ensures
        i as int == decode(n as int),
{
    if n % 2 == 0 {
        (n / 2) as i32
    } else {
        let h: i64 = (n / 2) as i64;
        (-h - 1) as i32
    }
}

/// Encoding then decoding returns the original coordinate; with
/// `lemma_encode_injective` this makes the codec a bijection.
pub proof fn lemma_decode_encode(i: int)
    ensures
        decode(encode(i)) == i,
        encode(i) >= 0,
{
    if i < 0 {
        lemma_fundamental_div_mod_converse(-2 * i - 1, 2, -i - 1, 1);
    } else {
        lemma_fundamental_div_mod_converse(2 * i, 2, i, 0);
    }
}

/// Decoding then encoding returns the original index: the codec is onto
/// the naturals.
pub proof fn lemma_encode_decode(n: int)
    requires
        n >= 0,
    ensures
        encode(decode(n)) == n,
{
    lemma_fundamental_div_mod(n, 2);
}

/// A decoded index within the unsigned 32-bit range fits a signed 32-bit
/// coordinate.
pub proof fn lemma_decode_range(n: int)
    requires
        0 <= n <= 0xffff_ffff,
    ensures
        -0x8000_0000 <= decode(n) <= 0x7fff_ffff,
{
}

/// No two distinct coordinates share an encoding.
pub proof fn lemma_encode_injective(i: int, j: int)
    requires
        encode(i) == encode(j),
    ensures
        i == j,
{
    lemma_decode_encode(i);
    lemma_decode_encode(j);
}

/// Split a world coordinate into a zigzag-encoded chunk index and a local
/// offset in `[0, CHUNKSIZE)`, using true floor division so that negative
/// coordinates fall into the chunk just below zero instead of wrapping
/// into chunk 0.
pub fn chunkify(i: i32) -> (r: (usize, usize))
    ensures
        r.0 == encode(i as int / (CHUNKSIZE as int)),
        r.1 == i as int % (CHUNKSIZE as int),
        0 <= r.1 < CHUNKSIZE,
{
    let cs: u64 = CHUNKSIZE as u64;
    if i >= 0 {
        let q: u64 = (i as u64) / cs;
        let rest: u64 = (i as u64) % cs;
        (i_to_u(q as i32), rest as usize)
    } else {
        let m: u64 = (-(i as i64)) as u64;
        let qm: u64 = (m + cs - 1) / cs;
        proof {
            lemma_fundamental_div_mod((m + cs - 1) as int, cs as int);
        }
        let rest: u64 = qm * cs - m;
        let chunk: i64 = -(qm as i64);
        proof {
            lemma_fundamental_div_mod_converse(
                i as int,
                cs as int,
                chunk as int,
                rest as int,
            );
        }
        (i_to_u(chunk as i32), rest as usize)
    }
}

/// Chunkify consistency: reconstructing the world position from the chunk
/// index and local offset that `chunkify` produces returns the original
/// coordinate exactly, negative coordinates included.
pub proof fn lemma_chunkify_round_trip(i: int)
    ensures
        world_pos(encode(i / (CHUNKSIZE as int)), i % (CHUNKSIZE as int)) == i,
{
    lemma_decode_encode(i / (CHUNKSIZE as int));
    lemma_fundamental_div_mod(i, CHUNKSIZE as int);
}

} // verus!
