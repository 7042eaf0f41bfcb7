//! The xxHash32 algorithm: a one-shot function over a byte slice and a
//! streaming digester whose result is bit-identical to the one-shot digest
//! of the concatenation of everything written, for every split of the input.
//!
//! All arithmetic is wrapping 32-bit arithmetic; rotations are bitwise left
//! rotations. The functions below are specified against `spec_xxh32`, the
//! mathematical definition of the algorithm over a byte sequence.

use vstd::prelude::*;

use crate::le_bytes::{le_u32, read_u32_le};

verus! {

pub const PRIME32_1: u32 = 2654435761;

pub const PRIME32_2: u32 = 2246822519;

pub const PRIME32_3: u32 = 3266489917;

pub const PRIME32_4: u32 = 668265263;

pub const PRIME32_5: u32 = 374761393;

/// Left rotation of a 32-bit word.
pub open spec fn spec_rotl32(x: u32, n: u32) -> u32
    recommends
        0 < n < 32,
{
    (x << n) | (x >> (32 - n) as u32)
}

#[verifier::when_used_as_spec(spec_rotl32)]
fn rotl32(x: u32, n: u32) -> (r: u32)
    requires
        0 < n < 32,
    ensures
        r == spec_rotl32(x, n),
{
    (x << n) | (x >> (32 - n))
}

/// The truncation of a byte count to the 32 bits that the algorithm folds in.
pub open spec fn spec_len32(n: nat) -> u32 {
    (n % 0x1_0000_0000) as u32
}

/// Truncating a 64-bit count to 32 bits is reduction modulo 2^32.
proof fn lemma_u64_low32(x: u64)
    ensures
        x as u32 == spec_len32(x as nat),
{
    assert(x as u32 == (x % 0x1_0000_0000) as u32) by (bit_vector);
}

/// The convolution each lane undergoes when it absorbs a 32-bit word.
#[verifier::opaque]
pub open spec fn spec_xxh32_round(acc: u32, input: u32) -> u32 {
    spec_rotl32(acc.wrapping_add(input.wrapping_mul(PRIME32_2)), 13).wrapping_mul(PRIME32_1)
}

#[verifier::when_used_as_spec(spec_xxh32_round)]
fn xxh32_round(acc: u32, input: u32) -> (r: u32)
    ensures
        r == spec_xxh32_round(acc, input),
{
    proof {
        reveal(spec_xxh32_round);
    }
    rotl32(acc.wrapping_add(input.wrapping_mul(PRIME32_2)), 13).wrapping_mul(PRIME32_1)
}

/// The finalizer mixing function applied to the pre-output hash.
#[verifier::opaque]
pub open spec fn spec_avalanche32(h: u32) -> u32 {
    let a = (h ^ (h >> 15)).wrapping_mul(PRIME32_2);
    let b = (a ^ (a >> 13)).wrapping_mul(PRIME32_3);
    b ^ (b >> 16)
}

#[verifier::when_used_as_spec(spec_avalanche32)]
fn xxh32_avalanche(h: u32) -> (r: u32)
    ensures
        r == spec_avalanche32(h),
{
    proof {
        reveal(spec_avalanche32);
    }
    let a = (h ^ (h >> 15)).wrapping_mul(PRIME32_2);
    let b = (a ^ (a >> 13)).wrapping_mul(PRIME32_3);
    b ^ (b >> 16)
}

/// The four lane accumulators at construction.
pub open spec fn spec_lanes32_init(seed: u32) -> (u32, u32, u32, u32) {
    (
        seed.wrapping_add(PRIME32_1).wrapping_add(PRIME32_2),
        seed.wrapping_add(PRIME32_2),
        seed,
        seed.wrapping_sub(PRIME32_1),
    )
}

/// One 16-byte block absorbed into the four lanes.
pub open spec fn spec_lanes32_block(l: (u32, u32, u32, u32), b: Seq<u8>) -> (u32, u32, u32, u32)
    recommends
        b.len() == 16,
{
    (
        spec_xxh32_round(l.0, le_u32(b.subrange(0, 4))),
        spec_xxh32_round(l.1, le_u32(b.subrange(4, 8))),
        spec_xxh32_round(l.2, le_u32(b.subrange(8, 12))),
        spec_xxh32_round(l.3, le_u32(b.subrange(12, 16))),
    )
}

/// The four lanes after absorbing every complete 16-byte block of `data`,
/// left to right; a trailing fragment shorter than a block is ignored.
pub open spec fn spec_lanes32_fold(l: (u32, u32, u32, u32), data: Seq<u8>) -> (u32, u32, u32, u32)
    decreases data.len(),
{
    if data.len() < 16 {
        l
    } else {
        spec_lanes32_fold(spec_lanes32_block(l, data.take(16)), data.skip(16))
    }
}

/// A single trailing byte folded into the hash.
#[verifier::opaque]
pub open spec fn spec_tail32_byte(h: u32, b: u8) -> u32 {
    spec_rotl32(h.wrapping_add((b as u32).wrapping_mul(PRIME32_5)), 11).wrapping_mul(PRIME32_1)
}

/// The trailing bytes (fewer than four) folded in one by one.
pub open spec fn spec_tail32_bytes(h: u32, s: Seq<u8>) -> u32
    decreases s.len(),
{
    if s.len() == 0 {
        h
    } else {
        spec_tail32_bytes(spec_tail32_byte(h, s[0]), s.skip(1))
    }
}

/// A full 4-byte trailing chunk folded into the hash.
#[verifier::opaque]
pub open spec fn spec_tail32_chunk(h: u32, c: u32) -> u32 {
    spec_rotl32(h.wrapping_add(c.wrapping_mul(PRIME32_3)), 17).wrapping_mul(PRIME32_4)
}

/// The whole tail (fewer than 16 bytes) folded in: 4-byte chunks first,
/// then the remaining bytes.
pub open spec fn spec_tail32(h: u32, s: Seq<u8>) -> u32
    decreases s.len(),
{
    if s.len() >= 4 {
        spec_tail32(spec_tail32_chunk(h, le_u32(s.take(4))), s.skip(4))
    } else {
        spec_tail32_bytes(h, s)
    }
}

/// The xxHash32 digest of `data` under `seed`.
pub open spec fn spec_xxh32(seed: u32, data: Seq<u8>) -> u32 {
    let bl = data.len() - (data.len() % 16);
    let h0 = if data.len() >= 16 {
        let l = spec_lanes32_fold(spec_lanes32_init(seed), data.take(bl as int));
        spec_rotl32(l.0, 1).wrapping_add(spec_rotl32(l.1, 7)).wrapping_add(
            spec_rotl32(l.2, 12),
        ).wrapping_add(spec_rotl32(l.3, 18))
    } else {
        seed.wrapping_add(PRIME32_5)
    };
    let h1 = h0.wrapping_add(spec_len32(data.len()));
    spec_avalanche32(spec_tail32(h1, data.skip(bl as int)))
}

/// One full 4-byte trailing chunk absorbed into the hash.
fn xxh32_tail_chunk(h: u32, c: u32) -> (r: u32)
    ensures
        r == spec_tail32_chunk(h, c),
{
    proof {
        reveal(spec_tail32_chunk);
    }
    rotl32(h.wrapping_add(c.wrapping_mul(PRIME32_3)), 17).wrapping_mul(PRIME32_4)
}

/// One trailing byte absorbed into the hash.
fn xxh32_tail_byte(h: u32, b: u8) -> (r: u32)
    ensures
        r == spec_tail32_byte(h, b),
{
    proof {
        reveal(spec_tail32_byte);
    }
    rotl32(h.wrapping_add((b as u32).wrapping_mul(PRIME32_5)), 11).wrapping_mul(PRIME32_1)
}

/// Folds the tail `buffer` (the bytes after the last complete block) and
/// applies the avalanche; `h` already has the total length folded in.
fn xxh32_finalize(h: u32, buffer: &[u8]) -> (r: u32)
    ensures
        r == spec_avalanche32(spec_tail32(h, buffer@)),
{
    let len = buffer.len();
    let mut acc = h;
    let mut j: usize = 0;
    proof {
        assert(buffer@.skip(0) =~= buffer@);
    }
    while len - j >= 4
        invariant
            j <= len,
            len == buffer@.len(),
            spec_tail32(acc, buffer@.skip(j as int)) == spec_tail32(h, buffer@),
        decreases len - j,
    {
        let c = read_u32_le(buffer, j);
        proof {
            let s = buffer@.skip(j as int);
            assert(s.take(4) =~= buffer@.subrange(j as int, j as int + 4));
            assert(s.skip(4) =~= buffer@.skip(j as int + 4));
            assert(spec_tail32(acc, s) == spec_tail32(
                spec_tail32_chunk(acc, le_u32(s.take(4))),
                s.skip(4),
            ));
        }
        acc = xxh32_tail_chunk(acc, c);
        j += 4;
    }
    while j < len
        invariant
            j <= len,
            len == buffer@.len(),
            len - j < 4,
            spec_tail32(acc, buffer@.skip(j as int)) == spec_tail32(h, buffer@),
        decreases len - j,
    {
        let b = buffer[j];
        proof {
            let s = buffer@.skip(j as int);
            assert(s.skip(1) =~= buffer@.skip(j as int + 1));
            assert(s[0] == buffer@[j as int]);
            assert(spec_tail32(acc, s) == spec_tail32_bytes(acc, s));
            assert(spec_tail32_bytes(acc, s) == spec_tail32_bytes(
                spec_tail32_byte(acc, s[0]),
                s.skip(1),
            ));
            assert(spec_tail32(spec_tail32_byte(acc, s[0]), s.skip(1)) == spec_tail32_bytes(
                spec_tail32_byte(acc, s[0]),
                s.skip(1),
            ));
        }
        acc = xxh32_tail_byte(acc, b);
        j += 1;
    }
    proof {
        let s = buffer@.skip(len as int);
        assert(s =~= Seq::<u8>::empty());
        assert(spec_tail32(acc, s) == spec_tail32_bytes(acc, s));
        assert(spec_tail32_bytes(acc, s) == acc);
    }
    xxh32_avalanche(acc)
}

/// Unfolding of `spec_lanes32_fold` by one block.
proof fn lemma_lanes32_fold_step(l: (u32, u32, u32, u32), data: Seq<u8>)
    requires
        data.len() >= 16,
    ensures
        spec_lanes32_fold(l, data) == spec_lanes32_fold(
            spec_lanes32_block(l, data.take(16)),
            data.skip(16),
        ),
{
}

/// A block taken out of the middle of a buffer, split into its four words.
proof fn lemma_block32_words(l: (u32, u32, u32, u32), buf: Seq<u8>, i: int)
    requires
        0 <= i,
        i + 16 <= buf.len(),
    ensures
        spec_lanes32_block(l, buf.subrange(i, i + 16)) == (
            spec_xxh32_round(l.0, le_u32(buf.subrange(i, i + 4))),
            spec_xxh32_round(l.1, le_u32(buf.subrange(i + 4, i + 8))),
            spec_xxh32_round(l.2, le_u32(buf.subrange(i + 8, i + 12))),
            spec_xxh32_round(l.3, le_u32(buf.subrange(i + 12, i + 16))),
        ),
{
    let blk = buf.subrange(i, i + 16);
    assert(blk.subrange(0, 4) =~= buf.subrange(i, i + 4));
    assert(blk.subrange(4, 8) =~= buf.subrange(i + 4, i + 8));
    assert(blk.subrange(8, 12) =~= buf.subrange(i + 8, i + 12));
    assert(blk.subrange(12, 16) =~= buf.subrange(i + 12, i + 16));
}

/// The one-shot xxHash32 computation over a full buffer.
fn xxh32_reference(seed: u32, buffer: &[u8]) -> (r: u32)
    ensures
        r == spec_xxh32(seed, buffer@),
{
    let len = buffer.len();
    let bl = len - (len % 16);
    let h0: u32;
    if len >= 16 {
        let mut v1 = seed.wrapping_add(PRIME32_1).wrapping_add(PRIME32_2);
        let mut v2 = seed.wrapping_add(PRIME32_2);
        let mut v3 = seed;
        let mut v4 = seed.wrapping_sub(PRIME32_1);
        let mut i: usize = 0;
        let ghost target = spec_lanes32_fold(spec_lanes32_init(seed), buffer@.take(bl as int));
        proof {
            assert(buffer@.subrange(0, bl as int) =~= buffer@.take(bl as int));
        }
        while i < bl
            invariant
                i <= bl <= len,
                i % 16 == 0,
                bl % 16 == 0,
                bl == len - (len % 16),
                len == buffer@.len(),
                spec_lanes32_fold((v1, v2, v3, v4), buffer@.subrange(i as int, bl as int))
                    == target,
            decreases bl - i,
        {
            proof {
                lemma_sub_mod_16(bl as int, i as int);
                assert(i + 16 <= bl);
            }
            let x1 = read_u32_le(buffer, i);
            let x2 = read_u32_le(buffer, i + 4);
            let x3 = read_u32_le(buffer, i + 8);
            let x4 = read_u32_le(buffer, i + 12);
            proof {
                let rest = buffer@.subrange(i as int, bl as int);
                assert(rest.take(16) =~= buffer@.subrange(i as int, i as int + 16));
                assert(rest.skip(16) =~= buffer@.subrange(i as int + 16, bl as int));
                lemma_lanes32_fold_step((v1, v2, v3, v4), rest);
                lemma_block32_words((v1, v2, v3, v4), buffer@, i as int);
            }
            v1 = xxh32_round(v1, x1);
            v2 = xxh32_round(v2, x2);
            v3 = xxh32_round(v3, x3);
            v4 = xxh32_round(v4, x4);
            i += 16;
        }
        proof {
            assert(buffer@.subrange(bl as int, bl as int) =~= Seq::<u8>::empty());
        }
        h0 = rotl32(v1, 1).wrapping_add(rotl32(v2, 7)).wrapping_add(rotl32(v3, 12)).wrapping_add(
            rotl32(v4, 18),
        );
    } else {
        h0 = seed.wrapping_add(PRIME32_5);
    }
    let total = len as u64;
    let h1 = h0.wrapping_add(total as u32);
    proof {
        lemma_u64_low32(total);
    }
    let tail = vstd::slice::slice_subrange(buffer, bl, len);
    xxh32_finalize(h1, tail)
}

/// If both operands are multiples of 16, so is their difference.
proof fn lemma_sub_mod_16(a: int, b: int)
    requires
        a % 16 == 0,
        b % 16 == 0,
        0 <= b <= a,
    ensures
        (a - b) % 16 == 0,
{
    assert((a - b) % 16 == 0) by (nonlinear_arith)
        requires
            a % 16 == 0,
            b % 16 == 0,
    ;
}

/// One-shot xxHash32 digest of `buffer` under `seed`.
pub fn xxhash32_reference(seed: u32, buffer: &[u8]) -> (r: u32)
    ensures
        r == spec_xxh32(seed, buffer@),
{
    xxh32_reference(seed, buffer)
}

/// The streaming concatenation law for the lane state: absorbing `a + b`
/// block by block equals absorbing `a`, then `b`, whenever `a` ends on a
/// block boundary. This is what lets the streaming digester agree with the
/// one-shot digest on every split of the input.
pub proof fn lemma_lanes32_fold_append(l: (u32, u32, u32, u32), a: Seq<u8>, b: Seq<u8>)
    requires
        a.len() % 16 == 0,
    ensures
        spec_lanes32_fold(l, a + b) == spec_lanes32_fold(spec_lanes32_fold(l, a), b),
    decreases a.len(),
{
    if a.len() == 0 {
        assert(a + b =~= b);
    } else {
        assert(a.len() >= 16);
        assert((a + b).len() >= 16);
        assert((a + b).take(16) =~= a.take(16));
        assert((a + b).skip(16) =~= a.skip(16) + b);
        assert(a.skip(16).len() % 16 == 0);
        lemma_lanes32_fold_append(spec_lanes32_block(l, a.take(16)), a.skip(16), b);
    }
}

/// The streaming xxHash32 digester.
///
/// Bytes handed to `write` accumulate exactly as if the concatenation of all
/// writes had been hashed in one shot: `finish` returns
/// `spec_xxh32(seed, written)` where `written` is everything written so far,
/// however the input was split. `finish` does not mutate the digester, so it
/// is idempotent, and the digester may keep absorbing bytes afterwards.
pub struct XXHash32 {
    interior_length: usize,
    total_length: u64,
    seed: u32,
    state: [u32; 4],
    interior_buffer: [u8; 16],
    history: Ghost<Seq<u8>>,
}

impl View for XXHash32 {
    type V = Seq<u8>;

    /// The abstract state: every byte accepted so far, in order.
    closed spec fn view(&self) -> Seq<u8> {
        self.history@
    }
}

impl XXHash32 {
    /// The seed the digester was constructed with; never mutated.
    pub closed spec fn seed(self) -> u32 {
        self.seed
    }

    /// The representation invariant: the concrete fields agree with the
    /// abstract byte history.
    pub closed spec fn wf(self) -> bool {
        let n = self@.len();
        &&& self.total_length == n
        &&& self.interior_length < 16
        &&& self.interior_length as int == n % 16
        &&& self.interior_buffer@.subrange(0, self.interior_length as int) == self@.skip(
            n - (n % 16),
        )
        &&& (self.state[0], self.state[1], self.state[2], self.state[3]) == spec_lanes32_fold(
            spec_lanes32_init(self.seed),
            self@.take(n - (n % 16)),
        )
    }

    /// Builds an XXHash32 with a seed of `0`, identical to `Default`.
    pub fn new() -> (r: XXHash32)
        ensures
            r.wf(),
            r@ == Seq::<u8>::empty(),
            r.seed() == 0,
    {
        XXHash32::with_seed(0)
    }

    /// Constructs a digester with a caller-chosen seed.
    pub fn with_seed(seed: u32) -> (r: XXHash32)
        ensures
            r.wf(),
            r@ == Seq::<u8>::empty(),
            r.seed() == seed,
    {
        let r = XXHash32 {
            interior_length: 0,
            total_length: 0,
            seed,
            state: [
                seed.wrapping_add(PRIME32_1).wrapping_add(PRIME32_2),
                seed.wrapping_add(PRIME32_2),
                seed,
                seed.wrapping_sub(PRIME32_1),
            ],
            interior_buffer: [0u8; 16],
            history: Ghost(Seq::empty()),
        };
        proof {
            assert(r@.len() == 0);
            assert(r.interior_buffer@.subrange(0, 0) =~= r@.skip(0));
            assert(r@.take(0) =~= Seq::<u8>::empty());
            assert(spec_lanes32_fold(spec_lanes32_init(seed), r@.take(0))
                == spec_lanes32_init(seed));
        }
        r
    }

    /// How many bytes the internal buffer still accepts before it flushes.
    fn avaliable(&self) -> (r: usize)
        requires
            self.wf(),
        ensures
            r == 16 - self.interior_length,
            1 <= r <= 16,
    {
        16 - self.interior_length
    }

    /// Whether the internal buffer holds no pending tail bytes.
    fn is_empty(&self) -> (r: bool)
        ensures
            r == (self.interior_length == 0),
    {
        self.interior_length == 0
    }

    /// Appends `slice` to the internal buffer, consuming the buffer into the
    /// lane state the moment it holds a complete block.
    fn copy_into_internal(&mut self, slice: &[u8])
        requires
            old(self).wf(),
            old(self).interior_length + slice@.len() <= 16,
            old(self)@.len() + slice@.len() <= u64::MAX,
        ensures
            final(self).wf(),
            final(self)@ == old(self)@ + slice@,
            final(self).seed() == old(self).seed(),
            final(self).interior_length as int == old(self).interior_length + slice@.len()
                || final(self).interior_length == 0,
    {
        let n = slice.len();
        if n == 0 {
            proof {
                assert(old(self)@ + slice@ =~= old(self)@);
            }
            return ;
        }
        let start = self.interior_length;
        let mut j: usize = 0;
        while j < n
            invariant
                j <= n,
                n == slice@.len(),
                start + n <= 16,
                self.interior_length == start,
                self.total_length == old(self).total_length,
                self.seed == old(self).seed,
                self.state == old(self).state,
                self.history == old(self).history,
                self.interior_buffer@.len() == 16,
                self.interior_buffer@.subrange(start as int, start as int + j as int)
                    == slice@.take(j as int),
                self.interior_buffer@.subrange(0, start as int)
                    == old(self).interior_buffer@.subrange(0, start as int),
            decreases n - j,
        {
            let ghost prev = self.interior_buffer@;
            self.interior_buffer[start + j] = slice[j];
            proof {
                assert(self.interior_buffer@.subrange(start as int, start as int + j as int + 1)
                    =~= slice@.take(j as int + 1));
                assert(self.interior_buffer@.subrange(0, start as int)
                    =~= prev.subrange(0, start as int));
            }
            j += 1;
        }
        self.interior_length = start + n;
        self.total_length = self.total_length + n as u64;
        self.history = Ghost(self.history@ + slice@);
        proof {
            let h0 = old(self)@;
            let n0 = h0.len();
            let t = n0 % 16;
            assert(start as int == t);
            assert(self@.len() == n0 + n);
            // The buffer now holds the old tail followed by the new bytes.
            assert(self.interior_buffer@.subrange(0, start as int + n as int)
                =~= old(self).interior_buffer@.subrange(0, start as int) + slice@.take(n as int));
            assert(slice@.take(n as int) =~= slice@);
            lemma_mod16_add(n0 as int, n as int);
        }
        if self.interior_length == 16 {
            let x1 = read_u32_le(self.interior_buffer.as_slice(), 0);
            let x2 = read_u32_le(self.interior_buffer.as_slice(), 4);
            let x3 = read_u32_le(self.interior_buffer.as_slice(), 8);
            let x4 = read_u32_le(self.interior_buffer.as_slice(), 12);
            proof {
                let h0 = old(self)@;
                let n0 = h0.len();
                let t = n0 % 16;
                let blocks = h0.take(n0 - t);
                let blk = self.interior_buffer@;
                // The new history ends exactly on a block boundary.
                assert(self@.len() % 16 == 0);
                assert(self@.take(self@.len() as int) =~= self@);
                assert(blk.subrange(0, 16) =~= blk);
                assert(blk =~= h0.skip(n0 - t) + slice@);
                assert(self@ =~= blocks + blk);
                lemma_lanes32_fold_append(spec_lanes32_init(self.seed), blocks, blk);
                lemma_lanes32_fold_step(
                    (self.state[0], self.state[1], self.state[2], self.state[3]),
                    blk,
                );
                assert(blk.take(16) =~= blk);
                assert(blk.skip(16) =~= Seq::<u8>::empty());
                lemma_block32_words(
                    (self.state[0], self.state[1], self.state[2], self.state[3]),
                    blk,
                    0,
                );
                assert(blk.subrange(0, 4) =~= self.interior_buffer@.subrange(0, 4));
            }
            let s0 = self.state[0];
            let s1 = self.state[1];
            let s2 = self.state[2];
            let s3 = self.state[3];
            self.state[0] = xxh32_round(s0, x1);
            self.state[1] = xxh32_round(s1, x2);
            self.state[2] = xxh32_round(s2, x3);
            self.state[3] = xxh32_round(s3, x4);
            self.interior_length = 0;
            proof {
                assert(self.interior_buffer@.subrange(0, 0) =~= self@.skip(self@.len() as int));
            }
        } else {
            proof {
                let h0 = old(self)@;
                let n0 = h0.len();
                let t = n0 % 16;
                assert(self@.len() % 16 == t + n);
                assert(self@.take(self@.len() - (t + n)) =~= h0.take(n0 - t));
                assert(self.interior_buffer@.subrange(0, start as int + n as int)
                    =~= self@.skip(self@.len() - (t + n)));
            }
        }
    }

    /// Feeds the leading bytes of `data` to the internal buffer until the
    /// buffer is empty again (or `data` is exhausted); returns how many bytes
    /// were taken.
    fn maybe_consume(&mut self, data: &[u8]) -> (consumed: usize)
        requires
            old(self).wf(),
            old(self)@.len() + data@.len() <= u64::MAX,
        ensures
            final(self).wf(),
            consumed <= data@.len(),
            final(self)@ == old(self)@ + data@.take(consumed as int),
            final(self).seed() == old(self).seed(),
            consumed == data@.len() || final(self).interior_length == 0,
    {
        if self.is_empty() {
            proof {
                assert(old(self)@ + data@.take(0) =~= old(self)@);
            }
            return 0;
        }
        let avail = self.avaliable();
        if data.len() < avail {
            self.copy_into_internal(data);
            proof {
                assert(data@.take(data@.len() as int) =~= data@);
            }
            data.len()
        } else {
            let prefix = vstd::slice::slice_subrange(data, 0, avail);
            self.copy_into_internal(prefix);
            avail
        }
    }

    /// Absorbs `data`: tops up the internal buffer, consumes every complete
    /// block straight from `data`, and keeps the rest as the new tail.
    fn consume(&mut self, data: &[u8])
        requires
            old(self).wf(),
            old(self)@.len() + data@.len() <= u64::MAX,
        ensures
            final(self).wf(),
            final(self)@ == old(self)@ + data@,
            final(self).seed() == old(self).seed(),
    {
        let len = data.len();
        let consumed = self.maybe_consume(data);
        if consumed == len {
            proof {
                assert(data@.take(len as int) =~= data@);
            }
            return ;
        }
        let mut i = consumed;
        while len - i >= 16
            invariant
                i <= len,
                len == data@.len(),
                self.wf(),
                self.interior_length == 0,
                self@ == old(self)@ + data@.take(i as int),
                self.seed() == old(self).seed(),
                old(self)@.len() + data@.len() <= u64::MAX,
            decreases len - i,
        {
            let x1 = read_u32_le(data, i);
            let x2 = read_u32_le(data, i + 4);
            let x3 = read_u32_le(data, i + 8);
            let x4 = read_u32_le(data, i + 12);
            let ghost pre = *self;
            let s0 = self.state[0];
            let s1 = self.state[1];
            let s2 = self.state[2];
            let s3 = self.state[3];
            self.state[0] = xxh32_round(s0, x1);
            self.state[1] = xxh32_round(s1, x2);
            self.state[2] = xxh32_round(s2, x3);
            self.state[3] = xxh32_round(s3, x4);
            self.total_length = self.total_length + 16;
            self.history = Ghost(self.history@ + data@.subrange(i as int, i as int + 16));
            proof {
                let blk = data@.subrange(i as int, i as int + 16);
                assert(pre@.len() % 16 == 0);
                assert(self@.len() % 16 == 0);
                assert(pre@.take(pre@.len() as int) =~= pre@);
                assert(self@.take(self@.len() as int) =~= self@);
                lemma_lanes32_fold_append(spec_lanes32_init(self.seed), pre@, blk);
                lemma_lanes32_fold_step((pre.state[0], pre.state[1], pre.state[2], pre.state[3]), blk);
                assert(blk.take(16) =~= blk);
                assert(blk.skip(16) =~= Seq::<u8>::empty());
                lemma_block32_words(
                    (pre.state[0], pre.state[1], pre.state[2], pre.state[3]),
                    data@,
                    i as int,
                );
                assert(self@ =~= old(self)@ + data@.take(i as int + 16));
                assert(self.interior_buffer@.subrange(0, 0) =~= self@.skip(self@.len() as int));
            }
            i += 16;
        }
        let rest = vstd::slice::slice_subrange(data, i, len);
        self.copy_into_internal(rest);
        proof {
            assert((old(self)@ + data@.take(i as int)) + data@.subrange(i as int, len as int)
                =~= old(self)@ + data@);
        }
    }

    /// Computes the digest of everything written so far without mutating the
    /// digester: the lane state is combined (or the seed is used for short
    /// streams), the total length is folded in, and the pending tail bytes
    /// are folded through the finalizer.
    fn perform_finish(&self) -> (r: u32)
        requires
            self.wf(),
        ensures
            r == spec_xxh32(self.seed(), self@),
    {
        let h0: u32;
        if self.total_length >= 16 {
            h0 = rotl32(self.state[0], 1).wrapping_add(rotl32(self.state[1], 7)).wrapping_add(
                rotl32(self.state[2], 12),
            ).wrapping_add(rotl32(self.state[3], 18));
        } else {
            h0 = self.seed.wrapping_add(PRIME32_5);
        }
        let h1 = h0.wrapping_add(self.total_length as u32);
        proof {
            lemma_u64_low32(self.total_length);
        }
        let tail = vstd::slice::slice_subrange(
            self.interior_buffer.as_slice(),
            0,
            self.interior_length,
        );
        proof {
            let n = self@.len();
            assert(tail@ == self@.skip(n - (n % 16)));
        }
        xxh32_finalize(h1, tail)
    }

    /// Absorbs another fragment of the stream.
    pub fn write(&mut self, data: &[u8])
        requires
            old(self).wf(),
            old(self)@.len() + data@.len() <= u64::MAX,
        ensures
            final(self).wf(),
            final(self)@ == old(self)@ + data@,
            final(self).seed() == old(self).seed(),
    {
        self.consume(data);
    }

    /// The digest of everything written so far; leaves the digester intact.
    pub fn finish(&self) -> (r: u32)
        requires
            self.wf(),
        ensures
            r == spec_xxh32(self.seed(), self@),
    {
        self.perform_finish()
    }
}

impl Clone for XXHash32 {
    /// An exact copy: the clone carries the same seed and the same written
    /// history, so it digests independently from the same point.
    fn clone(&self) -> (r: XXHash32)
        ensures
            r == *self,
    {
        XXHash32 {
            interior_length: self.interior_length,
            total_length: self.total_length,
            seed: self.seed,
            state: self.state,
            interior_buffer: self.interior_buffer,
            history: self.history,
        }
    }
}

impl Default for XXHash32 {
    /// A digester with seed 0 and nothing written.
    fn default() -> (r: XXHash32)
        ensures
            r.wf(),
            r@ == Seq::<u8>::empty(),
            r.seed() == 0,
    {
        XXHash32::new()
    }
}

/// Adding bytes to a byte count moves its remainder modulo the block size
/// by exactly those bytes, flushing at the boundary.
proof fn lemma_mod16_add(n0: int, n: int)
    requires
        0 <= n0,
        0 < n,
        (n0 % 16) + n <= 16,
    ensures
        (n0 % 16) + n == 16 ==> (n0 + n) % 16 == 0,
        (n0 % 16) + n < 16 ==> (n0 + n) % 16 == (n0 % 16) + n,
{
    assert((n0 + n) % 16 == ((n0 % 16) + n) % 16) by (nonlinear_arith)
        requires
            0 <= n0,
            0 < n,
    ;
}

} // verus!
