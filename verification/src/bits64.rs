//! The xxHash64 algorithm: a one-shot function over a byte slice and a
//! streaming digester whose result is bit-identical to the one-shot digest
//! of the concatenation of everything written, for every split of the input.
//!
//! All arithmetic is wrapping 64-bit arithmetic; rotations are bitwise left
//! rotations. The functions below are specified against `spec_xxh64`, the
//! mathematical definition of the algorithm over a byte sequence.

use vstd::prelude::*;

use crate::le_bytes::{le_u32, le_u64, read_u32_le, read_u64_le};

verus! {

pub const PRIME64_1: u64 = 11400714785074694791;

pub const PRIME64_2: u64 = 14029467366897019727;

pub const PRIME64_3: u64 = 1609587929392839161;

pub const PRIME64_4: u64 = 9650029242287828579;

pub const PRIME64_5: u64 = 2870177450012600261;

/// Left rotation of a 64-bit word.
pub open spec fn spec_rotl64(x: u64, n: u64) -> u64
    recommends
        0 < n < 64,
{
    (x << n) | (x >> (64 - n) as u64)
}

#[verifier::when_used_as_spec(spec_rotl64)]
fn rotl64(x: u64, n: u64) -> (r: u64)
    requires
        0 < n < 64,
    ensures
        r == spec_rotl64(x, n),
{
    (x << n) | (x >> (64 - n))
}

/// The truncation of a byte count to the 64 bits that the algorithm folds in.
pub open spec fn spec_len64(n: nat) -> u64 {
    (n % 0x1_0000_0000_0000_0000) as u64
}

/// The convolution each lane undergoes when it absorbs a 64-bit word.
#[verifier::opaque]
pub open spec fn spec_xxh64_round(acc: u64, input: u64) -> u64 {
    spec_rotl64(acc.wrapping_add(input.wrapping_mul(PRIME64_2)), 31).wrapping_mul(PRIME64_1)
}

#[verifier::when_used_as_spec(spec_xxh64_round)]
fn xxh64_round(acc: u64, input: u64) -> (r: u64)
    ensures
        r == spec_xxh64_round(acc, input),
{
    proof {
        reveal(spec_xxh64_round);
    }
    rotl64(acc.wrapping_add(input.wrapping_mul(PRIME64_2)), 31).wrapping_mul(PRIME64_1)
}

/// The lane-merging step applied when a long stream is finished.
#[verifier::opaque]
pub open spec fn spec_xxh64_merge(acc: u64, input: u64) -> u64 {
    (acc ^ spec_xxh64_round(0, input)).wrapping_mul(PRIME64_1).wrapping_add(PRIME64_4)
}

#[verifier::when_used_as_spec(spec_xxh64_merge)]
fn xxh64_merge_round(acc: u64, input: u64) -> (r: u64)
    ensures
        r == spec_xxh64_merge(acc, input),
{
    proof {
        reveal(spec_xxh64_merge);
    }
    (acc ^ xxh64_round(0, input)).wrapping_mul(PRIME64_1).wrapping_add(PRIME64_4)
}

/// The finalizer mixing function applied to the pre-output hash.
#[verifier::opaque]
pub open spec fn spec_avalanche64(h: u64) -> u64 {
    let a = (h ^ (h >> 33)).wrapping_mul(PRIME64_2);
    let b = (a ^ (a >> 29)).wrapping_mul(PRIME64_3);
    b ^ (b >> 32)
}

#[verifier::when_used_as_spec(spec_avalanche64)]
fn xxh64_avalanche(h: u64) -> (r: u64)
    ensures
        r == spec_avalanche64(h),
{
    proof {
        reveal(spec_avalanche64);
    }
    let a = (h ^ (h >> 33)).wrapping_mul(PRIME64_2);
    let b = (a ^ (a >> 29)).wrapping_mul(PRIME64_3);
    b ^ (b >> 32)
}

/// The four lane accumulators at construction.
pub open spec fn spec_lanes64_init(seed: u64) -> (u64, u64, u64, u64) {
    (
        seed.wrapping_add(PRIME64_1).wrapping_add(PRIME64_2),
        seed.wrapping_add(PRIME64_2),
        seed,
        seed.wrapping_sub(PRIME64_1),
    )
}

/// One 32-byte block absorbed into the four lanes.
pub open spec fn spec_lanes64_block(l: (u64, u64, u64, u64), b: Seq<u8>) -> (u64, u64, u64, u64)
    recommends
        b.len() == 32,
{
    (
        spec_xxh64_round(l.0, le_u64(b.subrange(0, 8))),
        spec_xxh64_round(l.1, le_u64(b.subrange(8, 16))),
        spec_xxh64_round(l.2, le_u64(b.subrange(16, 24))),
        spec_xxh64_round(l.3, le_u64(b.subrange(24, 32))),
    )
}

/// The four lanes after absorbing every complete 32-byte block of `data`,
/// left to right; a trailing fragment shorter than a block is ignored.
pub open spec fn spec_lanes64_fold(l: (u64, u64, u64, u64), data: Seq<u8>) -> (u64, u64, u64, u64)
    decreases data.len(),
{
    if data.len() < 32 {
        l
    } else {
        spec_lanes64_fold(spec_lanes64_block(l, data.take(32)), data.skip(32))
    }
}

/// A single trailing byte folded into the hash.
#[verifier::opaque]
pub open spec fn spec_tail64_byte(h: u64, b: u8) -> u64 {
    spec_rotl64(h ^ (b as u64).wrapping_mul(PRIME64_5), 11).wrapping_mul(PRIME64_1)
}

/// The trailing bytes (fewer than four) folded in one by one.
pub open spec fn spec_tail64_bytes(h: u64, s: Seq<u8>) -> u64
    decreases s.len(),
{
    if s.len() == 0 {
        h
    } else {
        spec_tail64_bytes(spec_tail64_byte(h, s[0]), s.skip(1))
    }
}

/// A full 4-byte trailing chunk folded into the hash.
#[verifier::opaque]
pub open spec fn spec_tail64_chunk4(h: u64, c: u32) -> u64 {
    spec_rotl64(h ^ (c as u64).wrapping_mul(PRIME64_1), 23).wrapping_mul(PRIME64_2).wrapping_add(
        PRIME64_3,
    )
}

/// A full 8-byte trailing chunk folded into the hash.
#[verifier::opaque]
pub open spec fn spec_tail64_chunk8(h: u64, c: u64) -> u64 {
    spec_rotl64(h ^ spec_xxh64_round(0, c), 27).wrapping_mul(PRIME64_1).wrapping_add(PRIME64_4)
}

/// The whole tail (fewer than 32 bytes) folded in: 8-byte chunks, then at
/// most one 4-byte chunk, then the remaining bytes.
pub open spec fn spec_tail64(h: u64, s: Seq<u8>) -> u64
    decreases s.len(),
{
    if s.len() >= 8 {
        spec_tail64(spec_tail64_chunk8(h, le_u64(s.take(8))), s.skip(8))
    } else if s.len() >= 4 {
        spec_tail64(spec_tail64_chunk4(h, le_u32(s.take(4))), s.skip(4))
    } else {
        spec_tail64_bytes(h, s)
    }
}

/// The xxHash64 digest of `data` under `seed`.
pub open spec fn spec_xxh64(seed: u64, data: Seq<u8>) -> u64 {
    let bl = data.len() - (data.len() % 32);
    let h0 = if data.len() >= 32 {
        let l = spec_lanes64_fold(spec_lanes64_init(seed), data.take(bl as int));
        let h = spec_rotl64(l.0, 1).wrapping_add(spec_rotl64(l.1, 7)).wrapping_add(
            spec_rotl64(l.2, 12),
        ).wrapping_add(spec_rotl64(l.3, 18));
        spec_xxh64_merge(spec_xxh64_merge(spec_xxh64_merge(spec_xxh64_merge(h, l.0), l.1), l.2), l.3)
    } else {
        seed.wrapping_add(PRIME64_5)
    };
    let h1 = h0.wrapping_add(spec_len64(data.len()));
    spec_avalanche64(spec_tail64(h1, data.skip(bl as int)))
}

/// One full 8-byte trailing chunk absorbed into the hash.
fn xxh64_tail_chunk8(h: u64, c: u64) -> (r: u64)
    ensures
        r == spec_tail64_chunk8(h, c),
{
    proof {
        reveal(spec_tail64_chunk8);
    }
    rotl64(h ^ xxh64_round(0, c), 27).wrapping_mul(PRIME64_1).wrapping_add(PRIME64_4)
}

/// One full 4-byte trailing chunk absorbed into the hash.
fn xxh64_tail_chunk4(h: u64, c: u32) -> (r: u64)
    ensures
        r == spec_tail64_chunk4(h, c),
{
    proof {
        reveal(spec_tail64_chunk4);
    }
    rotl64(h ^ (c as u64).wrapping_mul(PRIME64_1), 23).wrapping_mul(PRIME64_2).wrapping_add(
        PRIME64_3,
    )
}

/// One trailing byte absorbed into the hash.
fn xxh64_tail_byte(h: u64, b: u8) -> (r: u64)
    ensures
        r == spec_tail64_byte(h, b),
{
    proof {
        reveal(spec_tail64_byte);
    }
    rotl64(h ^ (b as u64).wrapping_mul(PRIME64_5), 11).wrapping_mul(PRIME64_1)
}

/// Folds the tail `buffer` (the bytes after the last complete block) and
/// applies the avalanche; `h` already has the total length folded in.
fn xxh64_finalize(h: u64, buffer: &[u8]) -> (r: u64)
    ensures
        r == spec_avalanche64(spec_tail64(h, buffer@)),
{
    let len = buffer.len();
    let mut acc = h;
    let mut j: usize = 0;
    proof {
        assert(buffer@.skip(0) =~= buffer@);
    }
    while len - j >= 8
        invariant
            j <= len,
            len == buffer@.len(),
            spec_tail64(acc, buffer@.skip(j as int)) == spec_tail64(h, buffer@),
        decreases len - j,
    {
        let c = read_u64_le(buffer, j);
        proof {
            let s = buffer@.skip(j as int);
            assert(s.take(8) =~= buffer@.subrange(j as int, j as int + 8));
            assert(s.skip(8) =~= buffer@.skip(j as int + 8));
            assert(spec_tail64(acc, s) == spec_tail64(
                spec_tail64_chunk8(acc, le_u64(s.take(8))),
                s.skip(8),
            ));
        }
        acc = xxh64_tail_chunk8(acc, c);
        j += 8;
    }
    while len - j >= 4
        invariant
            j <= len,
            len == buffer@.len(),
            len - j < 8,
            spec_tail64(acc, buffer@.skip(j as int)) == spec_tail64(h, buffer@),
        decreases len - j,
    {
        let c = read_u32_le(buffer, j);
        proof {
            let s = buffer@.skip(j as int);
            assert(s.take(4) =~= buffer@.subrange(j as int, j as int + 4));
            assert(s.skip(4) =~= buffer@.skip(j as int + 4));
            assert(spec_tail64(acc, s) == spec_tail64(
                spec_tail64_chunk4(acc, le_u32(s.take(4))),
                s.skip(4),
            ));
        }
        acc = xxh64_tail_chunk4(acc, c);
        j += 4;
    }
    while j < len
        invariant
            j <= len,
            len == buffer@.len(),
            len - j < 4,
            spec_tail64(acc, buffer@.skip(j as int)) == spec_tail64(h, buffer@),
        decreases len - j,
    {
        let b = buffer[j];
        proof {
            let s = buffer@.skip(j as int);
            assert(s.skip(1) =~= buffer@.skip(j as int + 1));
            assert(s[0] == buffer@[j as int]);
            assert(spec_tail64(acc, s) == spec_tail64_bytes(acc, s));
            assert(spec_tail64_bytes(acc, s) == spec_tail64_bytes(
                spec_tail64_byte(acc, s[0]),
                s.skip(1),
            ));
            assert(spec_tail64(spec_tail64_byte(acc, s[0]), s.skip(1)) == spec_tail64_bytes(
                spec_tail64_byte(acc, s[0]),
                s.skip(1),
            ));
        }
        acc = xxh64_tail_byte(acc, b);
        j += 1;
    }
    proof {
        let s = buffer@.skip(len as int);
        assert(s =~= Seq::<u8>::empty());
        assert(spec_tail64(acc, s) == spec_tail64_bytes(acc, s));
        assert(spec_tail64_bytes(acc, s) == acc);
    }
    xxh64_avalanche(acc)
}

/// Unfolding of `spec_lanes64_fold` by one block.
proof fn lemma_lanes64_fold_step(l: (u64, u64, u64, u64), data: Seq<u8>)
    requires
        data.len() >= 32,
    ensures
        spec_lanes64_fold(l, data) == spec_lanes64_fold(
            spec_lanes64_block(l, data.take(32)),
            data.skip(32),
        ),
{
}

/// A block taken out of the middle of a buffer, split into its four words.
proof fn lemma_block64_words(l: (u64, u64, u64, u64), buf: Seq<u8>, i: int)
    requires
        0 <= i,
        i + 32 <= buf.len(),
    ensures
        spec_lanes64_block(l, buf.subrange(i, i + 32)) == (
            spec_xxh64_round(l.0, le_u64(buf.subrange(i, i + 8))),
            spec_xxh64_round(l.1, le_u64(buf.subrange(i + 8, i + 16))),
            spec_xxh64_round(l.2, le_u64(buf.subrange(i + 16, i + 24))),
            spec_xxh64_round(l.3, le_u64(buf.subrange(i + 24, i + 32))),
        ),
{
    let blk = buf.subrange(i, i + 32);
    assert(blk.subrange(0, 8) =~= buf.subrange(i, i + 8));
    assert(blk.subrange(8, 16) =~= buf.subrange(i + 8, i + 16));
    assert(blk.subrange(16, 24) =~= buf.subrange(i + 16, i + 24));
    assert(blk.subrange(24, 32) =~= buf.subrange(i + 24, i + 32));
}

/// The streaming concatenation law for the lane state: absorbing `a + b`
/// block by block equals absorbing `a`, then `b`, whenever `a` ends on a
/// block boundary. This is what lets the streaming digester agree with the
/// one-shot digest on every split of the input.
pub proof fn lemma_lanes64_fold_append(l: (u64, u64, u64, u64), a: Seq<u8>, b: Seq<u8>)
    requires
        a.len() % 32 == 0,
    ensures
        spec_lanes64_fold(l, a + b) == spec_lanes64_fold(spec_lanes64_fold(l, a), b),
    decreases a.len(),
{
    if a.len() == 0 {
        assert(a + b =~= b);
    } else {
        assert(a.len() >= 32);
        assert((a + b).len() >= 32);
        assert((a + b).take(32) =~= a.take(32));
        assert((a + b).skip(32) =~= a.skip(32) + b);
        assert(a.skip(32).len() % 32 == 0);
        lemma_lanes64_fold_append(spec_lanes64_block(l, a.take(32)), a.skip(32), b);
    }
}

/// If both operands are multiples of 32, so is their difference.
proof fn lemma_sub_mod_32(a: int, b: int)
    requires
        a % 32 == 0,
        b % 32 == 0,
        0 <= b <= a,
    ensures
        (a - b) % 32 == 0,
{
    assert((a - b) % 32 == 0) by (nonlinear_arith)
        requires
            a % 32 == 0,
            b % 32 == 0,
    ;
}

/// Adding bytes to a byte count moves its remainder modulo the block size
/// by exactly those bytes, flushing at the boundary.
proof fn lemma_mod32_add(n0: int, n: int)
    requires
        0 <= n0,
        0 < n,
        (n0 % 32) + n <= 32,
    ensures
        (n0 % 32) + n == 32 ==> (n0 + n) % 32 == 0,
        (n0 % 32) + n < 32 ==> (n0 + n) % 32 == (n0 % 32) + n,
{
    assert((n0 + n) % 32 == ((n0 % 32) + n) % 32) by (nonlinear_arith)
        requires
            0 <= n0,
            0 < n,
    ;
}

/// The four little-endian words of the 32-byte block at `off`.
fn dereference_32(arg: &[u8], off: usize) -> (r: [u64; 4])
    requires
        off + 32 <= arg@.len(),
    ensures
        r[0] == le_u64(arg@.subrange(off as int, off as int + 8)),
        r[1] == le_u64(arg@.subrange(off as int + 8, off as int + 16)),
        r[2] == le_u64(arg@.subrange(off as int + 16, off as int + 24)),
        r[3] == le_u64(arg@.subrange(off as int + 24, off as int + 32)),
{
    let len = arg.len();
    let x1 = read_u64_le(arg, off);
    let x2 = read_u64_le(arg, off + 8);
    let x3 = read_u64_le(arg, off + 16);
    let x4 = read_u64_le(arg, off + 24);
    [x1, x2, x3, x4]
}

/// The one-shot xxHash64 computation over a full buffer.
fn xxh64_reference(seed: u64, buffer: &[u8]) -> (r: u64)
    ensures
        r == spec_xxh64(seed, buffer@),
{
    let len = buffer.len();
    let bl = len - (len % 32);
    let h0: u64;
    if len >= 32 {
        let mut v1 = seed.wrapping_add(PRIME64_1).wrapping_add(PRIME64_2);
        let mut v2 = seed.wrapping_add(PRIME64_2);
        let mut v3 = seed;
        let mut v4 = seed.wrapping_sub(PRIME64_1);
        let mut i: usize = 0;
        let ghost target = spec_lanes64_fold(spec_lanes64_init(seed), buffer@.take(bl as int));
        proof {
            assert(buffer@.subrange(0, bl as int) =~= buffer@.take(bl as int));
        }
        while i < bl
            invariant
                i <= bl <= len,
                i % 32 == 0,
                bl % 32 == 0,
                bl == len - (len % 32),
                len == buffer@.len(),
                spec_lanes64_fold((v1, v2, v3, v4), buffer@.subrange(i as int, bl as int))
                    == target,
            decreases bl - i,
        {
            proof {
                lemma_sub_mod_32(bl as int, i as int);
                assert(i + 32 <= bl);
            }
            let n = dereference_32(buffer, i);
            proof {
                let rest = buffer@.subrange(i as int, bl as int);
                assert(rest.take(32) =~= buffer@.subrange(i as int, i as int + 32));
                assert(rest.skip(32) =~= buffer@.subrange(i as int + 32, bl as int));
                lemma_lanes64_fold_step((v1, v2, v3, v4), rest);
                lemma_block64_words((v1, v2, v3, v4), buffer@, i as int);
            }
            v1 = xxh64_round(v1, n[0]);
            v2 = xxh64_round(v2, n[1]);
            v3 = xxh64_round(v3, n[2]);
            v4 = xxh64_round(v4, n[3]);
            i += 32;
        }
        proof {
            assert(buffer@.subrange(bl as int, bl as int) =~= Seq::<u8>::empty());
        }
        let h = rotl64(v1, 1).wrapping_add(rotl64(v2, 7)).wrapping_add(rotl64(v3, 12)).wrapping_add(
            rotl64(v4, 18),
        );
        let a = xxh64_merge_round(h, v1);
        let b = xxh64_merge_round(a, v2);
        let c = xxh64_merge_round(b, v3);
        h0 = xxh64_merge_round(c, v4);
    } else {
        h0 = seed.wrapping_add(PRIME64_5);
    }
    let h1 = h0.wrapping_add(len as u64);
    let tail = vstd::slice::slice_subrange(buffer, bl, len);
    xxh64_finalize(h1, tail)
}

/// One-shot xxHash64 digest of `buffer` under `seed`.
pub fn xxhash64_reference(seed: u64, buffer: &[u8]) -> (r: u64)
    ensures
        r == spec_xxh64(seed, buffer@),
{
    xxh64_reference(seed, buffer)
}

/// The streaming xxHash64 digester.
///
/// Bytes handed to `write` accumulate exactly as if the concatenation of all
/// writes had been hashed in one shot: `finish` returns
/// `spec_xxh64(seed, written)` where `written` is everything written so far,
/// however the input was split. `finish` does not mutate the digester, so it
/// is idempotent, and the digester may keep absorbing bytes afterwards.
pub struct XXHash64 {
    interior_buffer: [u8; 32],
    state: [u64; 4],
    seed: u64,
    interior_length: usize,
    total_length: u64,
    history: Ghost<Seq<u8>>,
}

impl View for XXHash64 {
    type V = Seq<u8>;

    /// The abstract state: every byte accepted so far, in order.
    closed spec fn view(&self) -> Seq<u8> {
        self.history@
    }
}

impl XXHash64 {
    /// The seed the digester was constructed with; never mutated.
    pub closed spec fn seed(self) -> u64 {
        self.seed
    }

    /// The representation invariant: the concrete fields agree with the
    /// abstract byte history.
    pub closed spec fn wf(self) -> bool {
        let n = self@.len();
        &&& self.total_length == n
        &&& self.interior_length < 32
        &&& self.interior_length as int == n % 32
        &&& self.interior_buffer@.subrange(0, self.interior_length as int) == self@.skip(
            n - (n % 32),
        )
        &&& (self.state[0], self.state[1], self.state[2], self.state[3]) == spec_lanes64_fold(
            spec_lanes64_init(self.seed),
            self@.take(n - (n % 32)),
        )
    }

    /// Builds an XXHash64 with a seed of `0`, identical to `Default`.
    pub fn new() -> (r: XXHash64)
        ensures
            r.wf(),
            r@ == Seq::<u8>::empty(),
            r.seed() == 0,
    {
        XXHash64::with_seed(0)
    }

    /// Constructs a digester with a caller-chosen seed.
    pub fn with_seed(seed: u64) -> (r: XXHash64)
        ensures
            r.wf(),
            r@ == Seq::<u8>::empty(),
            r.seed() == seed,
    {
        let r = XXHash64 {
            interior_length: 0,
            total_length: 0,
            seed,
            state: [
                seed.wrapping_add(PRIME64_1).wrapping_add(PRIME64_2),
                seed.wrapping_add(PRIME64_2),
                seed,
                seed.wrapping_sub(PRIME64_1),
            ],
            interior_buffer: [0u8; 32],
            history: Ghost(Seq::empty()),
        };
        proof {
            assert(r@.len() == 0);
            assert(r.interior_buffer@.subrange(0, 0) =~= r@.skip(0));
            assert(r@.take(0) =~= Seq::<u8>::empty());
            assert(spec_lanes64_fold(spec_lanes64_init(seed), r@.take(0))
                == spec_lanes64_init(seed));
        }
        r
    }

    /// How many bytes the internal buffer still accepts before it flushes.
    fn avaliable(&self) -> (r: usize)
        requires
            self.wf(),
        ensures
            r == 32 - self.interior_length,
            1 <= r <= 32,
    {
        32 - self.interior_length
    }

    /// Whether the internal buffer holds no pending tail bytes.
    fn is_empty(&self) -> (r: bool)
        ensures
            r == (self.interior_length == 0),
    {
        self.interior_length == 0
    }

    /// Appends `slice` to the internal buffer, consuming the buffer into the
    /// lane state the moment it holds a complete block.
    #[verifier::rlimit(60)]
    fn copy_into_internal(&mut self, slice: &[u8])
        requires
            old(self).wf(),
            old(self).interior_length + slice@.len() <= 32,
            old(self)@.len() + slice@.len() <= u64::MAX,
        ensures
            final(self).wf(),
            final(self)@ == old(self)@ + slice@,
            final(self).seed() == old(self).seed(),
            final(self).interior_length as int == old(self).interior_length + slice@.len()
                || final(self).interior_length == 0,
    {
        let n = slice.len();
        if n == 0 {
            proof {
                assert(old(self)@ + slice@ =~= old(self)@);
            }
            return ;
        }
        let start = self.interior_length;
        let mut j: usize = 0;
        while j < n
            invariant
                j <= n,
                n == slice@.len(),
                start + n <= 32,
                self.interior_length == start,
                self.total_length == old(self).total_length,
                self.seed == old(self).seed,
                self.state == old(self).state,
                self.history == old(self).history,
                self.interior_buffer@.len() == 32,
                self.interior_buffer@.subrange(start as int, start as int + j as int)
                    == slice@.take(j as int),
                self.interior_buffer@.subrange(0, start as int)
                    == old(self).interior_buffer@.subrange(0, start as int),
            decreases n - j,
        {
            let ghost prev = self.interior_buffer@;
            self.interior_buffer[start + j] = slice[j];
            proof {
                assert(self.interior_buffer@.subrange(start as int, start as int + j as int + 1)
                    =~= slice@.take(j as int + 1));
                assert(self.interior_buffer@.subrange(0, start as int)
                    =~= prev.subrange(0, start as int));
            }
            j += 1;
        }
        self.interior_length = start + n;
        self.total_length = self.total_length + n as u64;
        self.history = Ghost(self.history@ + slice@);
        proof {
            let h0 = old(self)@;
            let n0 = h0.len();
            let t = n0 % 32;
            assert(start as int == t);
            assert(self@.len() == n0 + n);
            // The buffer now holds the old tail followed by the new bytes.
            assert(self.interior_buffer@.subrange(0, start as int + n as int)
                =~= old(self).interior_buffer@.subrange(0, start as int) + slice@.take(n as int));
            assert(slice@.take(n as int) =~= slice@);
            lemma_mod32_add(n0 as int, n as int);
        }
        if self.interior_length == 32 {
            let words = dereference_32(self.interior_buffer.as_slice(), 0);
            proof {
                let h0 = old(self)@;
                let n0 = h0.len();
                let t = n0 % 32;
                let blocks = h0.take(n0 - t);
                let blk = self.interior_buffer@;
                // The new history ends exactly on a block boundary.
                assert(self@.len() % 32 == 0);
                assert(self@.take(self@.len() as int) =~= self@);
                assert(blk.subrange(0, 32) =~= blk);
                assert(blk =~= h0.skip(n0 - t) + slice@);
                assert(self@ =~= blocks + blk);
                lemma_lanes64_fold_append(spec_lanes64_init(self.seed), blocks, blk);
                lemma_lanes64_fold_step(
                    (self.state[0], self.state[1], self.state[2], self.state[3]),
                    blk,
                );
                assert(blk.take(32) =~= blk);
                assert(blk.skip(32) =~= Seq::<u8>::empty());
                lemma_block64_words(
                    (self.state[0], self.state[1], self.state[2], self.state[3]),
                    blk,
                    0,
                );
                assert(blk.subrange(0, 8) =~= self.interior_buffer@.subrange(0, 8));
            }
            let s0 = self.state[0];
            let s1 = self.state[1];
            let s2 = self.state[2];
            let s3 = self.state[3];
            self.state[0] = xxh64_round(s0, words[0]);
            self.state[1] = xxh64_round(s1, words[1]);
            self.state[2] = xxh64_round(s2, words[2]);
            self.state[3] = xxh64_round(s3, words[3]);
            self.interior_length = 0;
            proof {
                assert(self.interior_buffer@.subrange(0, 0) =~= self@.skip(self@.len() as int));
            }
        } else {
            proof {
                let h0 = old(self)@;
                let n0 = h0.len();
                let t = n0 % 32;
                assert(self@.len() % 32 == t + n);
                assert(self@.take(self@.len() - (t + n)) =~= h0.take(n0 - t));
                assert(self.interior_buffer@.subrange(0, start as int + n as int)
                    =~= self@.skip(self@.len() - (t + n)));
            }
        }
    }

    /// Feeds the leading bytes of `data` to the internal buffer until the
    /// buffer is empty again (or `data` is exhausted); returns how many bytes
    /// were taken.
    fn maybe_consume(&mut self, data: &[u8]) -> (consumed: usize)
        requires
            old(self).wf(),
            old(self)@.len() + data@.len() <= u64::MAX,
        ensures
            final(self).wf(),
            consumed <= data@.len(),
            final(self)@ == old(self)@ + data@.take(consumed as int),
            final(self).seed() == old(self).seed(),
            consumed == data@.len() || final(self).interior_length == 0,
    {
        if self.is_empty() {
            proof {
                assert(old(self)@ + data@.take(0) =~= old(self)@);
            }
            return 0;
        }
        let avail = self.avaliable();
        if data.len() < avail {
            self.copy_into_internal(data);
            proof {
                assert(data@.take(data@.len() as int) =~= data@);
            }
            data.len()
        } else {
            let prefix = vstd::slice::slice_subrange(data, 0, avail);
            self.copy_into_internal(prefix);
            avail
        }
    }

    /// Absorbs `data`: tops up the internal buffer, consumes every complete
    /// block straight from `data`, and keeps the rest as the new tail.
    fn consume(&mut self, data: &[u8])
        requires
            old(self).wf(),
            old(self)@.len() + data@.len() <= u64::MAX,
        ensures
            final(self).wf(),
            final(self)@ == old(self)@ + data@,
            final(self).seed() == old(self).seed(),
    {
        let len = data.len();
        let consumed = self.maybe_consume(data);
        if consumed == len {
            proof {
                assert(data@.take(len as int) =~= data@);
            }
            return ;
        }
        let mut i = consumed;
        while len - i >= 32
            invariant
                i <= len,
                len == data@.len(),
                self.wf(),
                self.interior_length == 0,
                self@ == old(self)@ + data@.take(i as int),
                self.seed() == old(self).seed(),
                old(self)@.len() + data@.len() <= u64::MAX,
            decreases len - i,
        {
            let words = dereference_32(data, i);
            let ghost pre = *self;
            let s0 = self.state[0];
            let s1 = self.state[1];
            let s2 = self.state[2];
            let s3 = self.state[3];
            self.state[0] = xxh64_round(s0, words[0]);
            self.state[1] = xxh64_round(s1, words[1]);
            self.state[2] = xxh64_round(s2, words[2]);
            self.state[3] = xxh64_round(s3, words[3]);
            self.total_length = self.total_length + 32;
            self.history = Ghost(self.history@ + data@.subrange(i as int, i as int + 32));
            proof {
                let blk = data@.subrange(i as int, i as int + 32);
                assert(pre@.len() % 32 == 0);
                assert(self@.len() % 32 == 0);
                assert(pre@.take(pre@.len() as int) =~= pre@);
                assert(self@.take(self@.len() as int) =~= self@);
                lemma_lanes64_fold_append(spec_lanes64_init(self.seed), pre@, blk);
                lemma_lanes64_fold_step(
                    (pre.state[0], pre.state[1], pre.state[2], pre.state[3]),
                    blk,
                );
                assert(blk.take(32) =~= blk);
                assert(blk.skip(32) =~= Seq::<u8>::empty());
                lemma_block64_words(
                    (pre.state[0], pre.state[1], pre.state[2], pre.state[3]),
                    data@,
                    i as int,
                );
                assert(self@ =~= old(self)@ + data@.take(i as int + 32));
                assert(self.interior_buffer@.subrange(0, 0) =~= self@.skip(self@.len() as int));
            }
            i += 32;
        }
        let rest = vstd::slice::slice_subrange(data, i, len);
        self.copy_into_internal(rest);
        proof {
            assert((old(self)@ + data@.take(i as int)) + data@.subrange(i as int, len as int)
                =~= old(self)@ + data@);
        }
    }

    /// Computes the digest of everything written so far without mutating the
    /// digester: the lane state is combined and merged (or the seed is used
    /// for short streams), the total length is folded in, and the pending
    /// tail bytes are folded through the finalizer.
    fn perform_finish(&self) -> (r: u64)
        requires
            self.wf(),
        ensures
            r == spec_xxh64(self.seed(), self@),
    {
        let h0: u64;
        if self.total_length >= 32 {
            let h = rotl64(self.state[0], 1).wrapping_add(rotl64(self.state[1], 7)).wrapping_add(
                rotl64(self.state[2], 12),
            ).wrapping_add(rotl64(self.state[3], 18));
            let a = xxh64_merge_round(h, self.state[0]);
            let b = xxh64_merge_round(a, self.state[1]);
            let c = xxh64_merge_round(b, self.state[2]);
            h0 = xxh64_merge_round(c, self.state[3]);
        } else {
            h0 = self.seed.wrapping_add(PRIME64_5);
        }
        let h1 = h0.wrapping_add(self.total_length);
        let tail = vstd::slice::slice_subrange(
            self.interior_buffer.as_slice(),
            0,
            self.interior_length,
        );
        proof {
            let n = self@.len();
            assert(tail@ == self@.skip(n - (n % 32)));
        }
        xxh64_finalize(h1, tail)
    }

    /// Absorbs another fragment of the stream.
    pub fn write(&mut self, data: &[u8])
        requires
            old(self).wf(),
            old(self)@.len() + data@.len() <= u64::MAX,
        ensures
            final(self).wf(),
            final(self)@ == old(self)@ + data@,
            final(self).seed() == old(self).seed(),
    {
        self.consume(data);
    }

    /// The digest of everything written so far; leaves the digester intact.
    pub fn finish(&self) -> (r: u64)
        requires
            self.wf(),
        ensures
            r == spec_xxh64(self.seed(), self@),
    {
        self.perform_finish()
    }
}

impl Clone for XXHash64 {
    /// An exact copy: the clone carries the same seed and the same written
    /// history, so it digests independently from the same point.
    fn clone(&self) -> (r: XXHash64)
        ensures
            r == *self,
    {
        XXHash64 {
            interior_buffer: self.interior_buffer,
            state: self.state,
            seed: self.seed,
            interior_length: self.interior_length,
            total_length: self.total_length,
            history: self.history,
        }
    }
}

impl Default for XXHash64 {
    /// A digester with seed 0 and nothing written.
    fn default() -> (r: XXHash64)
        ensures
            r.wf(),
            r@ == Seq::<u8>::empty(),
            r.seed() == 0,
    {
        XXHash64::new()
    }
}

} // verus!
