//! A table-driven 64-bit cyclic-redundancy-code engine.
//!
//! A parameter set `(poly, init, refin, refout, xorout)` fixes one CRC
//! algorithm. The specification `spec_crc64` is the classical bit-by-bit
//! definition, with no table: each byte (reflected first when `refin` is
//! set) is folded into the high end of the accumulator and the polynomial is
//! applied once per bit; the final accumulator is reflected when `refout` is
//! set and xored with `xorout`. The runtime engine consumes a 256-entry
//! table instead, one entry per byte, and is proved to return exactly the
//! bit-by-bit result on every input.

use vstd::prelude::*;

use crate::reflect::{lemma_reflect8_xor, reflect8, spec_reflect8};

verus! {

/// Bit reversal of a 64-bit word, by the classical swap-and-mask cascade.
pub open spec fn spec_reflect64(x: u64) -> u64 {
    let a = ((x & 0xFFFFFFFF00000000) >> 32) | ((x & 0x00000000FFFFFFFF) << 32);
    let b = ((a & 0xFFFF0000FFFF0000) >> 16) | ((a & 0x0000FFFF0000FFFF) << 16);
    let c = ((b & 0xFF00FF00FF00FF00) >> 8) | ((b & 0x00FF00FF00FF00FF) << 8);
    let d = ((c & 0xF0F0F0F0F0F0F0F0) >> 4) | ((c & 0x0F0F0F0F0F0F0F0F) << 4);
    let e = ((d & 0xCCCCCCCCCCCCCCCC) >> 2) | ((d & 0x3333333333333333) << 2);
    ((e & 0xAAAAAAAAAAAAAAAA) >> 1) | ((e & 0x5555555555555555) << 1)
}

#[verifier::when_used_as_spec(spec_reflect64)]
fn reflect64(x: u64) -> (r: u64)
    ensures
        r == spec_reflect64(x),
{
    let a = ((x & 0xFFFFFFFF00000000) >> 32) | ((x & 0x00000000FFFFFFFF) << 32);
    let b = ((a & 0xFFFF0000FFFF0000) >> 16) | ((a & 0x0000FFFF0000FFFF) << 16);
    let c = ((b & 0xFF00FF00FF00FF00) >> 8) | ((b & 0x00FF00FF00FF00FF) << 8);
    let d = ((c & 0xF0F0F0F0F0F0F0F0) >> 4) | ((c & 0x0F0F0F0F0F0F0F0F) << 4);
    let e = ((d & 0xCCCCCCCCCCCCCCCC) >> 2) | ((d & 0x3333333333333333) << 2);
    ((e & 0xAAAAAAAAAAAAAAAA) >> 1) | ((e & 0x5555555555555555) << 1)
}

/// One polynomial step: shift the register left one bit and fold the
/// polynomial in when the bit that fell out was set.
pub open spec fn spec_crc64_step(poly: u64, v: u64) -> u64 {
    if (v >> 63) == 1 {
        (v << 1) ^ poly
    } else {
        (v << 1)
    }
}

/// `n` polynomial steps applied to the register.
pub open spec fn spec_crc64_steps(poly: u64, v: u64, n: nat) -> u64
    decreases n,
{
    if n == 0 {
        v
    } else {
        spec_crc64_step(poly, spec_crc64_steps(poly, v, (n - 1) as nat))
    }
}

/// Entry `i` of the 256-entry table: the CRC register after the single byte
/// `i` (reflected first when `refin` is set) is processed against a zero
/// register, reflected back for reflected algorithms.
pub open spec fn spec_crc64_table_entry(poly: u64, refin: bool, i: u8) -> u64 {
    let b = if refin {
        spec_reflect8(i)
    } else {
        i
    };
    let v = spec_crc64_steps(poly, (b as u64) << 56, 8);
    if refin {
        spec_reflect64(v)
    } else {
        v
    }
}

/// One byte absorbed into the accumulator, bit by bit.
pub open spec fn spec_crc64_feed_byte(poly: u64, refin: bool, acc: u64, b: u8) -> u64 {
    let x = if refin {
        spec_reflect8(b)
    } else {
        b
    };
    spec_crc64_steps(poly, acc ^ ((x as u64) << 56), 8)
}

/// A byte string absorbed into the accumulator, bit by bit, left to right.
pub open spec fn spec_crc64_feed(poly: u64, refin: bool, acc: u64, s: Seq<u8>) -> u64
    decreases s.len(),
{
    if s.len() == 0 {
        acc
    } else {
        spec_crc64_feed(poly, refin, spec_crc64_feed_byte(poly, refin, acc, s[0]), s.skip(1))
    }
}

/// A complete CRC parameter set.
#[derive(Clone, Copy, PartialEq, Eq, Structural)]
pub struct Crc64Params {
    pub poly: u64,
    pub init: u64,
    pub refin: bool,
    pub refout: bool,
    pub xorout: u64,
}

/// The CRC of `data` under the parameter set, by the bit-by-bit definition.
pub open spec fn spec_crc64(params: Crc64Params, data: Seq<u8>) -> u64 {
    let f = spec_crc64_feed(params.poly, params.refin, params.init, data);
    (if params.refout {
        spec_reflect64(f)
    } else {
        f
    }) ^ params.xorout
}

/// The parameter set of CRC-64/XZ.
pub open spec fn spec_crc64_xz_params() -> Crc64Params {
    Crc64Params {
        poly: 0x42F0E1EBA9EA3693,
        init: 0xFFFFFFFFFFFFFFFF,
        refin: true,
        refout: true,
        xorout: 0xFFFFFFFFFFFFFFFF,
    }
}

/// The CRC of the empty string needs no byte steps: it is the initial
/// register pushed through the output reflection and the final xor alone.
pub proof fn lemma_crc64_empty(params: Crc64Params)
    ensures
        spec_crc64(params, Seq::<u8>::empty()) == (if params.refout {
            spec_reflect64(params.init)
        } else {
            params.init
        }) ^ params.xorout,
{
}

/// Bit reversal of a 64-bit word is an involution.
proof fn lemma_reflect64_involution(x: u64)
    ensures
        spec_reflect64(spec_reflect64(x)) == x,
{
    assert(spec_reflect64(spec_reflect64(x)) == x) by (bit_vector);
}

/// Bit reversal of a 64-bit word distributes over xor.
proof fn lemma_reflect64_xor(x: u64, y: u64)
    ensures
        spec_reflect64(x ^ y) == spec_reflect64(x) ^ spec_reflect64(y),
{
    assert(spec_reflect64(x ^ y) == spec_reflect64(x) ^ spec_reflect64(y)) by (bit_vector);
}

/// The high byte of a reflected word is the reflected low byte.
proof fn lemma_reflect64_high(r: u64)
    ensures
        (spec_reflect64(r) >> 56) as u8 == spec_reflect8(r as u8),
{
    assert((spec_reflect64(r) >> 56) as u8 == spec_reflect8(r as u8)) by (bit_vector);
}

/// Reflecting a reflected word shifted up by a byte drops its low byte.
proof fn lemma_reflect64_shift(r: u64)
    ensures
        spec_reflect64(spec_reflect64(r) << 8) == (r >> 8),
{
    assert(spec_reflect64(spec_reflect64(r) << 8) == (r >> 8)) by (bit_vector);
}

/// One polynomial step distributes over xor: the shifts do, and the two
/// polynomial terms cancel exactly when both high bits were set.
proof fn lemma_step_linear(p: u64, u: u64, v: u64)
    ensures
        spec_crc64_step(p, u ^ v) == spec_crc64_step(p, u) ^ spec_crc64_step(p, v),
{
    assert(spec_crc64_step(p, u ^ v) == spec_crc64_step(p, u) ^ spec_crc64_step(p, v))
        by (bit_vector);
}

/// Any number of polynomial steps distributes over xor.
proof fn lemma_steps_linear(p: u64, u: u64, v: u64, n: nat)
    ensures
        spec_crc64_steps(p, u ^ v, n) == spec_crc64_steps(p, u, n) ^ spec_crc64_steps(p, v, n),
    decreases n,
{
    if n > 0 {
        lemma_steps_linear(p, u, v, (n - 1) as nat);
        lemma_step_linear(
            p,
            spec_crc64_steps(p, u, (n - 1) as nat),
            spec_crc64_steps(p, v, (n - 1) as nat),
        );
    }
}

/// A register confined to its low 56 bits never sees the polynomial during
/// eight steps: they amount to one byte-wide shift.
proof fn lemma_steps_low8(p: u64, l: u64)
    requires
        l < 0x100_0000_0000_0000,
    ensures
        spec_crc64_steps(p, l, 8) == (l << 8),
{
    assert(l >> 63 == 0 && (l << 1) >> 63 == 0 && (l << 2) >> 63 == 0 && (l << 3) >> 63 == 0 && (l
        << 4) >> 63 == 0 && (l << 5) >> 63 == 0 && (l << 6) >> 63 == 0 && (l << 7) >> 63 == 0 && (l
        << 1) << 1 == l << 2 && (l << 2) << 1 == l << 3 && (l << 3) << 1 == l << 4 && (l << 4) << 1
        == l << 5 && (l << 5) << 1 == l << 6 && (l << 6) << 1 == l << 7 && (l << 7) << 1 == l << 8)
        by (bit_vector)
        requires
            l < 0x100_0000_0000_0000,
    ;
    assert(spec_crc64_steps(p, l, 1) == spec_crc64_step(p, spec_crc64_steps(p, l, 0)));
    assert(spec_crc64_steps(p, l, 1) == l << 1);
    assert(spec_crc64_steps(p, l, 2) == spec_crc64_step(p, spec_crc64_steps(p, l, 1)));
    assert(spec_crc64_steps(p, l, 2) == l << 2);
    assert(spec_crc64_steps(p, l, 3) == spec_crc64_step(p, spec_crc64_steps(p, l, 2)));
    assert(spec_crc64_steps(p, l, 3) == l << 3);
    assert(spec_crc64_steps(p, l, 4) == spec_crc64_step(p, spec_crc64_steps(p, l, 3)));
    assert(spec_crc64_steps(p, l, 4) == l << 4);
    assert(spec_crc64_steps(p, l, 5) == spec_crc64_step(p, spec_crc64_steps(p, l, 4)));
    assert(spec_crc64_steps(p, l, 5) == l << 5);
    assert(spec_crc64_steps(p, l, 6) == spec_crc64_step(p, spec_crc64_steps(p, l, 5)));
    assert(spec_crc64_steps(p, l, 6) == l << 6);
    assert(spec_crc64_steps(p, l, 7) == spec_crc64_step(p, spec_crc64_steps(p, l, 6)));
    assert(spec_crc64_steps(p, l, 7) == l << 7);
    assert(spec_crc64_steps(p, l, 8) == spec_crc64_step(p, spec_crc64_steps(p, l, 7)));
    assert(spec_crc64_steps(p, l, 8) == l << 8);
}

/// The table step of a normal-form (unreflected) kernel performs exactly
/// the eight bit-by-bit polynomial steps of one input byte.
proof fn lemma_crc64_byte_normal(p: u64, acc: u64, b: u8)
    ensures
        spec_crc64_feed_byte(p, false, acc, b) == ((acc << 8) ^ spec_crc64_table_entry(
            p,
            false,
            ((acc >> 56) as u8) ^ b,
        )),
{
    let h: u8 = ((acc >> 56) as u8) ^ b;
    let lo: u64 = acc & 0xFF_FFFF_FFFF_FFFF;
    assert(acc ^ ((b as u64) << 56) == (((h as u64) << 56) ^ lo) && lo < 0x100_0000_0000_0000 && (acc << 8) == (lo
        << 8)) by (bit_vector)
        requires
            h == ((acc >> 56) as u8) ^ b,
            lo == acc & 0xFF_FFFF_FFFF_FFFF,
    ;
    lemma_steps_linear(p, (h as u64) << 56, lo, 8);
    lemma_steps_low8(p, lo);
    let e = spec_crc64_table_entry(p, false, h);
    let sh = acc << 8;
    assert(e ^ sh == sh ^ e) by (bit_vector);
}

/// The table step of a reflected kernel performs exactly the eight
/// bit-by-bit polynomial steps of one input byte, on the bit-reversed
/// accumulator.
proof fn lemma_crc64_byte_reflected(p: u64, racc: u64, b: u8)
    ensures
        spec_reflect64(spec_crc64_feed_byte(p, true, spec_reflect64(racc), b)) == ((racc >> 8)
            ^ spec_crc64_table_entry(p, true, (racc as u8) ^ b)),
{
    let acc = spec_reflect64(racc);
    let rb: u8 = spec_reflect8(b);
    let h: u8 = ((acc >> 56) as u8) ^ rb;
    let lo: u64 = acc & 0xFF_FFFF_FFFF_FFFF;
    assert(acc ^ ((rb as u64) << 56) == (((h as u64) << 56) ^ lo) && lo < 0x100_0000_0000_0000 && (acc << 8) == (lo
        << 8)) by (bit_vector)
        requires
            h == ((acc >> 56) as u8) ^ rb,
            lo == acc & 0xFF_FFFF_FFFF_FFFF,
    ;
    lemma_steps_linear(p, (h as u64) << 56, lo, 8);
    lemma_steps_low8(p, lo);
    assert(spec_crc64_feed_byte(p, true, acc, b) == spec_crc64_steps(
        p,
        acc ^ ((rb as u64) << 56),
        8,
    ));
    assert(spec_crc64_feed_byte(p, true, acc, b) == spec_crc64_steps(p, (h as u64) << 56, 8) ^ (acc
        << 8));
    // feed_byte == steps((h << 8), 8) ^ (acc << 8); reflect both sides.
    lemma_reflect64_xor(spec_crc64_steps(p, (h as u64) << 56, 8), acc << 8);
    lemma_reflect64_shift(racc);
    assert(spec_reflect64(acc << 8) == racc >> 8);
    // The reflected table is indexed by the reflection of the same byte.
    let idx: u8 = (racc as u8) ^ b;
    lemma_reflect8_xor(racc as u8, b);
    lemma_reflect64_high(racc);
    assert(spec_reflect8(idx) == h);
    assert(spec_crc64_table_entry(p, true, idx) == spec_reflect64(
        spec_crc64_steps(p, (h as u64) << 56, 8),
    ));
    assert(spec_reflect64(spec_crc64_feed_byte(p, true, acc, b)) == spec_reflect64(
        spec_crc64_steps(p, (h as u64) << 56, 8),
    ) ^ (racc >> 8));
    let e = spec_crc64_table_entry(p, true, idx);
    let sh = racc >> 8;
    assert(e ^ sh == sh ^ e) by (bit_vector);
}

/// The streaming concatenation law for the CRC accumulator: feeding `a + b`
/// equals feeding `a`, then `b`, so the streaming engine agrees with the
/// one-shot result on every split of the input.
pub proof fn lemma_crc64_feed_append(poly: u64, refin: bool, acc: u64, a: Seq<u8>, b: Seq<u8>)
    ensures
        spec_crc64_feed(poly, refin, acc, a + b) == spec_crc64_feed(
            poly,
            refin,
            spec_crc64_feed(poly, refin, acc, a),
            b,
        ),
    decreases a.len(),
{
    if a.len() == 0 {
        assert(a + b =~= b);
    } else {
        assert((a + b)[0] == a[0]);
        assert((a + b).skip(1) =~= a.skip(1) + b);
        lemma_crc64_feed_append(
            poly,
            refin,
            spec_crc64_feed_byte(poly, refin, acc, a[0]),
            a.skip(1),
            b,
        );
    }
}

/// The accumulator as the engine stores it: bit-reversed for reflected
/// algorithms, plain otherwise.
pub open spec fn spec_crc64_acc_of(params: Crc64Params, acc: u64) -> u64 {
    if params.refin {
        spec_reflect64(acc)
    } else {
        acc
    }
}

/// An immutable 256-entry lookup table derived from a polynomial and an
/// input-reflection flag; entry `i` is `spec_crc64_table_entry(poly, refin, i)`.
pub struct Crc64Table {
    poly: u64,
    refin: bool,
    data: Vec<u64>,
}

impl Crc64Table {
    /// The polynomial the table was generated from.
    pub closed spec fn poly(self) -> u64 {
        self.poly
    }

    /// Whether the table is in reflected form.
    pub closed spec fn refin(self) -> bool {
        self.refin
    }

    /// The table holds all 256 entries of the generating recurrence.
    pub closed spec fn wf(self) -> bool {
        &&& self.data@.len() == 256
        &&& forall|i: int|
            0 <= i < 256 ==> self.data@[i] == spec_crc64_table_entry(
                self.poly,
                self.refin,
                i as u8,
            )
    }

    /// Derives the 256-entry table from the polynomial and reflection flag.
    pub fn new(poly: u64, refin: bool) -> (r: Crc64Table)
        ensures
            r.wf(),
            r.poly() == poly,
            r.refin() == refin,
    {
        let mut data: Vec<u64> = Vec::new();
        let mut i: usize = 0;
        while i < 256
            invariant
                i <= 256,
                data@.len() == i,
                forall|k: int|
                    0 <= k < i ==> data@[k] == spec_crc64_table_entry(poly, refin, k as u8),
            decreases 256 - i,
        {
            let byte: u8 = if refin {
                reflect8(i as u8)
            } else {
                (i as u8)
            };
            let start: u64 = (byte as u64) << 56;
            let mut v: u64 = start;
            let mut k: usize = 0;
            while k < 8
                invariant
                    k <= 8,
                    v == spec_crc64_steps(poly, start, k as nat),
                decreases 8 - k,
            {
                v = if (v >> 63) == 1 {
                    (v << 1) ^ poly
                } else {
                    (v << 1)
                };
                k += 1;
            }
            let entry: u64 = if refin {
                reflect64(v)
            } else {
                v
            };
            data.push(entry);
            i += 1;
        }
        Crc64Table { poly, refin, data }
    }

    /// Looks an entry up by byte index.
    pub fn index(&self, idx: u8) -> (r: u64)
        requires
            self.wf(),
        ensures
            r == spec_crc64_table_entry(self.poly(), self.refin(), idx),
    {
        self.data[idx as usize]
    }
}

/// A table-driven CRC engine for one parameter set: a one-shot `process`
/// and a streaming accumulator with `update` and `finalize`.
///
/// `finalize` never consumes the accumulator, so repeated calls return the
/// same value, and the engine may keep absorbing bytes afterwards.
pub struct Crc64 {
    params: Crc64Params,
    table: Crc64Table,
    accumulator: u64,
    history: Ghost<Seq<u8>>,
}

impl View for Crc64 {
    type V = Seq<u8>;

    /// The abstract state: every byte absorbed so far, in order.
    closed spec fn view(&self) -> Seq<u8> {
        self.history@
    }
}

impl Crc64 {
    /// The parameter set the engine was constructed with.
    pub closed spec fn params(self) -> Crc64Params {
        self.params
    }

    /// The table matches the parameters and the stored accumulator is the
    /// bit-by-bit accumulator over the absorbed bytes, in engine
    /// representation.
    pub closed spec fn wf(self) -> bool {
        &&& self.table.wf()
        &&& self.table.poly() == self.params.poly
        &&& self.table.refin() == self.params.refin
        &&& self.params.poly != 0
        &&& self.accumulator == spec_crc64_acc_of(
            self.params,
            spec_crc64_feed(self.params.poly, self.params.refin, self.params.init, self@),
        )
    }

    /// Builds an engine for `params`, deriving its table; a zero polynomial
    /// is rejected, every other parameter set is accepted.
    pub fn new(params: Crc64Params) -> (r: Option<Crc64>)
        ensures
            r is Some <==> params.poly != 0,
            params.poly != 0 ==> {
                &&& r.unwrap().wf()
                &&& r.unwrap().params() == params
                &&& r.unwrap()@ == Seq::<u8>::empty()
            },
    {
        if params.poly == 0 {
            return None;
        }
        let table = Crc64Table::new(params.poly, params.refin);
        let accumulator: u64 = if params.refin {
            reflect64(params.init)
        } else {
            params.init
        };
        Some(Crc64 { params, table, accumulator, history: Ghost(Seq::empty()) })
    }

    /// The CRC-64/XZ engine: polynomial 0x42F0E1EBA9EA3693, all-ones
    /// initial register, reflected input and output, all-ones final xor.
    pub fn xz() -> (r: Crc64)
        ensures
            r.wf(),
            r.params() == spec_crc64_xz_params(),
            r@ == Seq::<u8>::empty(),
    {
        let params = Crc64Params {
            poly: 0x42F0E1EBA9EA3693,
            init: 0xFFFFFFFFFFFFFFFF,
            refin: true,
            refout: true,
            xorout: 0xFFFFFFFFFFFFFFFF,
        };
        let table = Crc64Table::new(params.poly, params.refin);
        let accumulator = reflect64(params.init);
        Crc64 { params, table, accumulator, history: Ghost(Seq::empty()) }
    }

    /// Absorbs `bytes` into an accumulator through the table, one entry per
    /// byte; pure with respect to the engine's own stream state.
    fn absorb(&self, acc: u64, bytes: &[u8]) -> (r: u64)
        requires
            self.wf(),
        ensures
            spec_crc64_acc_of(self.params(), r) == spec_crc64_feed(
                self.params().poly,
                self.params().refin,
                spec_crc64_acc_of(self.params(), acc),
                bytes@,
            ),
    {
        let poly = self.params.poly;
        let refin = self.params.refin;
        let ghost start = spec_crc64_acc_of(self.params, acc);
        let len = bytes.len();
        let mut cur = acc;
        let mut i: usize = 0;
        proof {
            assert(bytes@.skip(0) =~= bytes@);
            if refin {
                lemma_reflect64_involution(cur);
            }
        }
        while i < len
            invariant
                i <= len,
                len == bytes@.len(),
                self.wf(),
                poly == self.params().poly,
                refin == self.params().refin,
                spec_crc64_feed(poly, refin, spec_crc64_acc_of(self.params(), cur), bytes@.skip(i as int))
                    == spec_crc64_feed(poly, refin, start, bytes@),
            decreases len - i,
        {
            let b = bytes[i];
            let next: u64;
            proof {
                let s = bytes@.skip(i as int);
                assert(s[0] == bytes@[i as int]);
                assert(s.skip(1) =~= bytes@.skip(i as int + 1));
            }
            if refin {
                proof {
                    lemma_crc64_byte_reflected(poly, cur, b);
                    lemma_reflect64_involution(cur);
                    lemma_reflect64_involution(
                        spec_crc64_feed_byte(poly, true, spec_reflect64(cur), b),
                    );
                }
                next = (cur >> 8) ^ self.table.index((cur as u8) ^ b);
            } else {
                proof {
                    lemma_crc64_byte_normal(poly, cur, b);
                }
                next = (cur << 8) ^ self.table.index(((cur >> 56) as u8) ^ b);
            }
            cur = next;
            i += 1;
        }
        proof {
            assert(bytes@.skip(len as int) =~= Seq::<u8>::empty());
        }
        cur
    }

    /// Absorbs another fragment of the stream.
    pub fn update(&mut self, bytes: &[u8])
        requires
            old(self).wf(),
        ensures
            final(self).wf(),
            final(self)@ == old(self)@ + bytes@,
            final(self).params() == old(self).params(),
    {
        let next = self.absorb(self.accumulator, bytes);
        proof {
            if self.params.refin {
                lemma_reflect64_involution(
                    spec_crc64_feed(self.params.poly, true, self.params.init, self@),
                );
            }
            lemma_crc64_feed_append(
                self.params.poly,
                self.params.refin,
                self.params.init,
                self@,
                bytes@,
            );
            if self.params.refin {
                lemma_reflect64_involution(next);
            }
        }
        self.accumulator = next;
        self.history = Ghost(self.history@ + bytes@);
    }

    /// The CRC of everything absorbed so far; leaves the engine intact, so
    /// repeated calls return the same value.
    pub fn finalize(&self) -> (r: u64)
        requires
            self.wf(),
        ensures
            r == spec_crc64(self.params(), self@),
    {
        let pre: u64 = if self.params.refin == self.params.refout {
            self.accumulator
        } else {
            reflect64(self.accumulator)
        };
        proof {
            if self.params.refin {
                lemma_reflect64_involution(
                    spec_crc64_feed(self.params.poly, true, self.params.init, self@),
                );
            }
        }
        pre ^ self.params.xorout
    }

    /// The CRC of `bytes` in one shot, independent of the stream state:
    /// exactly the bit-by-bit reference result for this parameter set.
    pub fn process(&self, bytes: &[u8]) -> (r: u64)
        requires
            self.wf(),
        ensures
            r == spec_crc64(self.params(), bytes@),
    {
        let start: u64 = if self.params.refin {
            reflect64(self.params.init)
        } else {
            self.params.init
        };
        proof {
            if self.params.refin {
                lemma_reflect64_involution(self.params.init);
            }
        }
        let acc = self.absorb(start, bytes);
        let pre: u64 = if self.params.refin == self.params.refout {
            acc
        } else {
            reflect64(acc)
        };
        proof {
            if self.params.refin {
                lemma_reflect64_involution(acc);
                lemma_reflect64_involution(
                    spec_crc64_feed(self.params.poly, true, self.params.init, bytes@),
                );
            }
        }
        pre ^ self.params.xorout
    }
}

} // verus!
