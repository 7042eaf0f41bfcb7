//! A table-driven 32-bit cyclic-redundancy-code engine.
//!
//! A parameter set `(poly, init, refin, refout, xorout)` fixes one CRC
//! algorithm. The specification `spec_crc32` is the classical bit-by-bit
//! definition, with no table: each byte (reflected first when `refin` is
//! set) is folded into the high end of the accumulator and the polynomial is
//! applied once per bit; the final accumulator is reflected when `refout` is
//! set and xored with `xorout`. The runtime engine consumes a 256-entry
//! table instead, one entry per byte, and is proved to return exactly the
//! bit-by-bit result on every input.

use vstd::prelude::*;

use crate::reflect::{lemma_reflect8_xor, reflect8, spec_reflect8};

verus! {

/// Bit reversal of a 32-bit word, by the classical swap-and-mask cascade.
pub open spec fn spec_reflect32(x: u32) -> u32 {
    let a = ((x & 0xFFFF0000) >> 16) | ((x & 0x0000FFFF) << 16);
    let b = ((a & 0xFF00FF00) >> 8) | ((a & 0x00FF00FF) << 8);
    let c = ((b & 0xF0F0F0F0) >> 4) | ((b & 0x0F0F0F0F) << 4);
    let d = ((c & 0xCCCCCCCC) >> 2) | ((c & 0x33333333) << 2);
    ((d & 0xAAAAAAAA) >> 1) | ((d & 0x55555555) << 1)
}

#[verifier::when_used_as_spec(spec_reflect32)]
fn reflect32(x: u32) -> (r: u32)
    ensures
        r == spec_reflect32(x),
{
    let a = ((x & 0xFFFF0000) >> 16) | ((x & 0x0000FFFF) << 16);
    let b = ((a & 0xFF00FF00) >> 8) | ((a & 0x00FF00FF) << 8);
    let c = ((b & 0xF0F0F0F0) >> 4) | ((b & 0x0F0F0F0F) << 4);
    let d = ((c & 0xCCCCCCCC) >> 2) | ((c & 0x33333333) << 2);
    ((d & 0xAAAAAAAA) >> 1) | ((d & 0x55555555) << 1)
}

/// One polynomial step: shift the register left one bit and fold the
/// polynomial in when the bit that fell out was set.
pub open spec fn spec_crc32_step(poly: u32, v: u32) -> u32 {
    if (v >> 31) == 1 {
        (v << 1) ^ poly
    } else {
        (v << 1)
    }
}

/// `n` polynomial steps applied to the register.
pub open spec fn spec_crc32_steps(poly: u32, v: u32, n: nat) -> u32
    decreases n,
{
    if n == 0 {
        v
    } else {
        spec_crc32_step(poly, spec_crc32_steps(poly, v, (n - 1) as nat))
    }
}

/// Entry `i` of the 256-entry table: the CRC register after the single byte
/// `i` (reflected first when `refin` is set) is processed against a zero
/// register, reflected back for reflected algorithms.
pub open spec fn spec_crc32_table_entry(poly: u32, refin: bool, i: u8) -> u32 {
    let b = if refin {
        spec_reflect8(i)
    } else {
        i
    };
    let v = spec_crc32_steps(poly, (b as u32) << 24, 8);
    if refin {
        spec_reflect32(v)
    } else {
        v
    }
}

/// One byte absorbed into the accumulator, bit by bit.
pub open spec fn spec_crc32_feed_byte(poly: u32, refin: bool, acc: u32, b: u8) -> u32 {
    let x = if refin {
        spec_reflect8(b)
    } else {
        b
    };
    spec_crc32_steps(poly, acc ^ ((x as u32) << 24), 8)
}

/// A byte string absorbed into the accumulator, bit by bit, left to right.
pub open spec fn spec_crc32_feed(poly: u32, refin: bool, acc: u32, s: Seq<u8>) -> u32
    decreases s.len(),
{
    if s.len() == 0 {
        acc
    } else {
        spec_crc32_feed(poly, refin, spec_crc32_feed_byte(poly, refin, acc, s[0]), s.skip(1))
    }
}

/// A complete CRC parameter set.
#[derive(Clone, Copy, PartialEq, Eq, Structural)]
pub struct Crc32Params {
    pub poly: u32,
    pub init: u32,
    pub refin: bool,
    pub refout: bool,
    pub xorout: u32,
}

/// The CRC of `data` under the parameter set, by the bit-by-bit definition.
pub open spec fn spec_crc32(params: Crc32Params, data: Seq<u8>) -> u32 {
    let f = spec_crc32_feed(params.poly, params.refin, params.init, data);
    (if params.refout {
        spec_reflect32(f)
    } else {
        f
    }) ^ params.xorout
}

/// The parameter set of the IEEE 802.3 CRC-32.
pub open spec fn spec_crc32_ieee_params() -> Crc32Params {
    Crc32Params {
        poly: 0x04C11DB7,
        init: 0xFFFFFFFF,
        refin: true,
        refout: true,
        xorout: 0xFFFFFFFF,
    }
}

/// The CRC of the empty string needs no byte steps: it is the initial
/// register pushed through the output reflection and the final xor alone.
pub proof fn lemma_crc32_empty(params: Crc32Params)
    ensures
        spec_crc32(params, Seq::<u8>::empty()) == (if params.refout {
            spec_reflect32(params.init)
        } else {
            params.init
        }) ^ params.xorout,
{
}

/// Bit reversal of a 32-bit word is an involution.
proof fn lemma_reflect32_involution(x: u32)
    ensures
        spec_reflect32(spec_reflect32(x)) == x,
{
    assert(spec_reflect32(spec_reflect32(x)) == x) by (bit_vector);
}

/// Bit reversal of a 32-bit word distributes over xor.
proof fn lemma_reflect32_xor(x: u32, y: u32)
    ensures
        spec_reflect32(x ^ y) == spec_reflect32(x) ^ spec_reflect32(y),
{
    assert(spec_reflect32(x ^ y) == spec_reflect32(x) ^ spec_reflect32(y)) by (bit_vector);
}

/// The high byte of a reflected word is the reflected low byte.
proof fn lemma_reflect32_high(r: u32)
    ensures
        (spec_reflect32(r) >> 24) as u8 == spec_reflect8(r as u8),
{
    assert((spec_reflect32(r) >> 24) as u8 == spec_reflect8(r as u8)) by (bit_vector);
}

/// Reflecting a reflected word shifted up by a byte drops its low byte.
proof fn lemma_reflect32_shift(r: u32)
    ensures
        spec_reflect32(spec_reflect32(r) << 8) == (r >> 8),
{
    assert(spec_reflect32(spec_reflect32(r) << 8) == (r >> 8)) by (bit_vector);
}

/// One polynomial step distributes over xor: the shifts do, and the two
/// polynomial terms cancel exactly when both high bits were set.
proof fn lemma_step_linear(p: u32, u: u32, v: u32)
    ensures
        spec_crc32_step(p, u ^ v) == spec_crc32_step(p, u) ^ spec_crc32_step(p, v),
{
    assert(spec_crc32_step(p, u ^ v) == spec_crc32_step(p, u) ^ spec_crc32_step(p, v))
        by (bit_vector);
}

/// Any number of polynomial steps distributes over xor.
proof fn lemma_steps_linear(p: u32, u: u32, v: u32, n: nat)
    ensures
        spec_crc32_steps(p, u ^ v, n) == spec_crc32_steps(p, u, n) ^ spec_crc32_steps(p, v, n),
    decreases n,
{
    if n > 0 {
        lemma_steps_linear(p, u, v, (n - 1) as nat);
        lemma_step_linear(
            p,
            spec_crc32_steps(p, u, (n - 1) as nat),
            spec_crc32_steps(p, v, (n - 1) as nat),
        );
    }
}

/// A register confined to its low 24 bits never sees the polynomial during
/// eight steps: they amount to one byte-wide shift.
proof fn lemma_steps_low8(p: u32, l: u32)
    requires
        l < 0x100_0000,
    ensures
        spec_crc32_steps(p, l, 8) == (l << 8),
{
    assert(l >> 31 == 0 && (l << 1) >> 31 == 0 && (l << 2) >> 31 == 0 && (l << 3) >> 31 == 0 && (l
        << 4) >> 31 == 0 && (l << 5) >> 31 == 0 && (l << 6) >> 31 == 0 && (l << 7) >> 31 == 0 && (l
        << 1) << 1 == l << 2 && (l << 2) << 1 == l << 3 && (l << 3) << 1 == l << 4 && (l << 4) << 1
        == l << 5 && (l << 5) << 1 == l << 6 && (l << 6) << 1 == l << 7 && (l << 7) << 1 == l << 8)
        by (bit_vector)
        requires
            l < 0x100_0000,
    ;
    assert(spec_crc32_steps(p, l, 1) == spec_crc32_step(p, spec_crc32_steps(p, l, 0)));
    assert(spec_crc32_steps(p, l, 1) == l << 1);
    assert(spec_crc32_steps(p, l, 2) == spec_crc32_step(p, spec_crc32_steps(p, l, 1)));
    assert(spec_crc32_steps(p, l, 2) == l << 2);
    assert(spec_crc32_steps(p, l, 3) == spec_crc32_step(p, spec_crc32_steps(p, l, 2)));
    assert(spec_crc32_steps(p, l, 3) == l << 3);
    assert(spec_crc32_steps(p, l, 4) == spec_crc32_step(p, spec_crc32_steps(p, l, 3)));
    assert(spec_crc32_steps(p, l, 4) == l << 4);
    assert(spec_crc32_steps(p, l, 5) == spec_crc32_step(p, spec_crc32_steps(p, l, 4)));
    assert(spec_crc32_steps(p, l, 5) == l << 5);
    assert(spec_crc32_steps(p, l, 6) == spec_crc32_step(p, spec_crc32_steps(p, l, 5)));
    assert(spec_crc32_steps(p, l, 6) == l << 6);
    assert(spec_crc32_steps(p, l, 7) == spec_crc32_step(p, spec_crc32_steps(p, l, 6)));
    assert(spec_crc32_steps(p, l, 7) == l << 7);
    assert(spec_crc32_steps(p, l, 8) == spec_crc32_step(p, spec_crc32_steps(p, l, 7)));
    assert(spec_crc32_steps(p, l, 8) == l << 8);
}

/// The table step of a normal-form (unreflected) kernel performs exactly
/// the eight bit-by-bit polynomial steps of one input byte.
proof fn lemma_crc32_byte_normal(p: u32, acc: u32, b: u8)
    ensures
        spec_crc32_feed_byte(p, false, acc, b) == ((acc << 8) ^ spec_crc32_table_entry(
            p,
            false,
            ((acc >> 24) as u8) ^ b,
        )),
{
    let h: u8 = ((acc >> 24) as u8) ^ b;
    let lo: u32 = acc & 0xFF_FFFF;
    assert(acc ^ ((b as u32) << 24) == (((h as u32) << 24) ^ lo) && lo < 0x100_0000 && (acc << 8) == (lo
        << 8)) by (bit_vector)
        requires
            h == ((acc >> 24) as u8) ^ b,
            lo == acc & 0xFF_FFFF,
    ;
    lemma_steps_linear(p, (h as u32) << 24, lo, 8);
    lemma_steps_low8(p, lo);
    let e = spec_crc32_table_entry(p, false, h);
    let sh = acc << 8;
    assert(e ^ sh == sh ^ e) by (bit_vector);
}

/// The table step of a reflected kernel performs exactly the eight
/// bit-by-bit polynomial steps of one input byte, on the bit-reversed
/// accumulator.
proof fn lemma_crc32_byte_reflected(p: u32, racc: u32, b: u8)
    ensures
        spec_reflect32(spec_crc32_feed_byte(p, true, spec_reflect32(racc), b)) == ((racc >> 8)
            ^ spec_crc32_table_entry(p, true, (racc as u8) ^ b)),
{
    let acc = spec_reflect32(racc);
    let rb: u8 = spec_reflect8(b);
    let h: u8 = ((acc >> 24) as u8) ^ rb;
    let lo: u32 = acc & 0xFF_FFFF;
    assert(acc ^ ((rb as u32) << 24) == (((h as u32) << 24) ^ lo) && lo < 0x100_0000 && (acc << 8) == (lo
        << 8)) by (bit_vector)
        requires
            h == ((acc >> 24) as u8) ^ rb,
            lo == acc & 0xFF_FFFF,
    ;
    lemma_steps_linear(p, (h as u32) << 24, lo, 8);
    lemma_steps_low8(p, lo);
    assert(spec_crc32_feed_byte(p, true, acc, b) == spec_crc32_steps(
        p,
        acc ^ ((rb as u32) << 24),
        8,
    ));
    assert(spec_crc32_feed_byte(p, true, acc, b) == spec_crc32_steps(p, (h as u32) << 24, 8) ^ (acc
        << 8));
    // feed_byte == steps((h << 8), 8) ^ (acc << 8); reflect both sides.
    lemma_reflect32_xor(spec_crc32_steps(p, (h as u32) << 24, 8), acc << 8);
    lemma_reflect32_shift(racc);
    assert(spec_reflect32(acc << 8) == racc >> 8);
    // The reflected table is indexed by the reflection of the same byte.
    let idx: u8 = (racc as u8) ^ b;
    lemma_reflect8_xor(racc as u8, b);
    lemma_reflect32_high(racc);
    assert(spec_reflect8(idx) == h);
    assert(spec_crc32_table_entry(p, true, idx) == spec_reflect32(
        spec_crc32_steps(p, (h as u32) << 24, 8),
    ));
    assert(spec_reflect32(spec_crc32_feed_byte(p, true, acc, b)) == spec_reflect32(
        spec_crc32_steps(p, (h as u32) << 24, 8),
    ) ^ (racc >> 8));
    let e = spec_crc32_table_entry(p, true, idx);
    let sh = racc >> 8;
    assert(e ^ sh == sh ^ e) by (bit_vector);
}

/// The streaming concatenation law for the CRC accumulator: feeding `a + b`
/// equals feeding `a`, then `b`, so the streaming engine agrees with the
/// one-shot result on every split of the input.
pub proof fn lemma_crc32_feed_append(poly: u32, refin: bool, acc: u32, a: Seq<u8>, b: Seq<u8>)
    ensures
        spec_crc32_feed(poly, refin, acc, a + b) == spec_crc32_feed(
            poly,
            refin,
            spec_crc32_feed(poly, refin, acc, a),
            b,
        ),
    decreases a.len(),
{
    if a.len() == 0 {
        assert(a + b =~= b);
    } else {
        assert((a + b)[0] == a[0]);
        assert((a + b).skip(1) =~= a.skip(1) + b);
        lemma_crc32_feed_append(
            poly,
            refin,
            spec_crc32_feed_byte(poly, refin, acc, a[0]),
            a.skip(1),
            b,
        );
    }
}

/// The accumulator as the engine stores it: bit-reversed for reflected
/// algorithms, plain otherwise.
pub open spec fn spec_crc32_acc_of(params: Crc32Params, acc: u32) -> u32 {
    if params.refin {
        spec_reflect32(acc)
    } else {
        acc
    }
}

/// An immutable 256-entry lookup table derived from a polynomial and an
/// input-reflection flag; entry `i` is `spec_crc32_table_entry(poly, refin, i)`.
pub struct Crc32Table {
    poly: u32,
    refin: bool,
    data: Vec<u32>,
}

impl Crc32Table {
    /// The polynomial the table was generated from.
    pub closed spec fn poly(self) -> u32 {
        self.poly
    }

    /// Whether the table is in reflected form.
    pub closed spec fn refin(self) -> bool {
        self.refin
    }

    /// The table holds all 256 entries of the generating recurrence.
    pub closed spec fn wf(self) -> bool {
        &&& self.data@.len() == 256
        &&& forall|i: int|
            0 <= i < 256 ==> self.data@[i] == spec_crc32_table_entry(
                self.poly,
                self.refin,
                i as u8,
            )
    }

    /// Derives the 256-entry table from the polynomial and reflection flag.
    pub fn new(poly: u32, refin: bool) -> (r: Crc32Table)
        ensures
            r.wf(),
            r.poly() == poly,
            r.refin() == refin,
    {
        let mut data: Vec<u32> = Vec::new();
        let mut i: usize = 0;
        while i < 256
            invariant
                i <= 256,
                data@.len() == i,
                forall|k: int|
                    0 <= k < i ==> data@[k] == spec_crc32_table_entry(poly, refin, k as u8),
            decreases 256 - i,
        {
            let byte: u8 = if refin {
                reflect8(i as u8)
            } else {
                (i as u8)
            };
            let start: u32 = (byte as u32) << 24;
            let mut v: u32 = start;
            let mut k: usize = 0;
            while k < 8
                invariant
                    k <= 8,
                    v == spec_crc32_steps(poly, start, k as nat),
                decreases 8 - k,
            {
                v = if (v >> 31) == 1 {
                    (v << 1) ^ poly
                } else {
                    (v << 1)
                };
                k += 1;
            }
            let entry: u32 = if refin {
                reflect32(v)
            } else {
                v
            };
            data.push(entry);
            i += 1;
        }
        Crc32Table { poly, refin, data }
    }

    /// Looks an entry up by byte index.
    pub fn index(&self, idx: u8) -> (r: u32)
        requires
            self.wf(),
        ensures
            r == spec_crc32_table_entry(self.poly(), self.refin(), idx),
    {
        self.data[idx as usize]
    }
}

/// A table-driven CRC engine for one parameter set: a one-shot `process`
/// and a streaming accumulator with `update` and `finalize`.
///
/// `finalize` never consumes the accumulator, so repeated calls return the
/// same value, and the engine may keep absorbing bytes afterwards.
pub struct Crc32 {
    params: Crc32Params,
    table: Crc32Table,
    accumulator: u32,
    history: Ghost<Seq<u8>>,
}

impl View for Crc32 {
    type V = Seq<u8>;

    /// The abstract state: every byte absorbed so far, in order.
    closed spec fn view(&self) -> Seq<u8> {
        self.history@
    }
}

impl Crc32 {
    /// The parameter set the engine was constructed with.
    pub closed spec fn params(self) -> Crc32Params {
        self.params
    }

    /// The table matches the parameters and the stored accumulator is the
    /// bit-by-bit accumulator over the absorbed bytes, in engine
    /// representation.
    pub closed spec fn wf(self) -> bool {
        &&& self.table.wf()
        &&& self.table.poly() == self.params.poly
        &&& self.table.refin() == self.params.refin
        &&& self.params.poly != 0
        &&& self.accumulator == spec_crc32_acc_of(
            self.params,
            spec_crc32_feed(self.params.poly, self.params.refin, self.params.init, self@),
        )
    }

    /// Builds an engine for `params`, deriving its table; a zero polynomial
    /// is rejected, every other parameter set is accepted.
    pub fn new(params: Crc32Params) -> (r: Option<Crc32>)
        ensures
            r is Some <==> params.poly != 0,
            params.poly != 0 ==> {
                &&& r.unwrap().wf()
                &&& r.unwrap().params() == params
                &&& r.unwrap()@ == Seq::<u8>::empty()
            },
    {
        if params.poly == 0 {
            return None;
        }
        let table = Crc32Table::new(params.poly, params.refin);
        let accumulator: u32 = if params.refin {
            reflect32(params.init)
        } else {
            params.init
        };
        Some(Crc32 { params, table, accumulator, history: Ghost(Seq::empty()) })
    }

    /// The IEEE 802.3 CRC-32 engine: polynomial 0x04C11DB7, all-ones
    /// initial register, reflected input and output, all-ones final xor.
    pub fn ieee() -> (r: Crc32)
        ensures
            r.wf(),
            r.params() == spec_crc32_ieee_params(),
            r@ == Seq::<u8>::empty(),
    {
        let params = Crc32Params {
            poly: 0x04C11DB7,
            init: 0xFFFFFFFF,
            refin: true,
            refout: true,
            xorout: 0xFFFFFFFF,
        };
        let table = Crc32Table::new(params.poly, params.refin);
        let accumulator = reflect32(params.init);
        Crc32 { params, table, accumulator, history: Ghost(Seq::empty()) }
    }

    /// Absorbs `bytes` into an accumulator through the table, one entry per
    /// byte; pure with respect to the engine's own stream state.
    fn absorb(&self, acc: u32, bytes: &[u8]) -> (r: u32)
        requires
            self.wf(),
        ensures
            spec_crc32_acc_of(self.params(), r) == spec_crc32_feed(
                self.params().poly,
                self.params().refin,
                spec_crc32_acc_of(self.params(), acc),
                bytes@,
            ),
    {
        let poly = self.params.poly;
        let refin = self.params.refin;
        let ghost start = spec_crc32_acc_of(self.params, acc);
        let len = bytes.len();
        let mut cur = acc;
        let mut i: usize = 0;
        proof {
            assert(bytes@.skip(0) =~= bytes@);
            if refin {
                lemma_reflect32_involution(cur);
            }
        }
        while i < len
            invariant
                i <= len,
                len == bytes@.len(),
                self.wf(),
                poly == self.params().poly,
                refin == self.params().refin,
                spec_crc32_feed(poly, refin, spec_crc32_acc_of(self.params(), cur), bytes@.skip(i as int))
                    == spec_crc32_feed(poly, refin, start, bytes@),
            decreases len - i,
        {
            let b = bytes[i];
            let next: u32;
            proof {
                let s = bytes@.skip(i as int);
                assert(s[0] == bytes@[i as int]);
                assert(s.skip(1) =~= bytes@.skip(i as int + 1));
            }
            if refin {
                proof {
                    lemma_crc32_byte_reflected(poly, cur, b);
                    lemma_reflect32_involution(cur);
                    lemma_reflect32_involution(
                        spec_crc32_feed_byte(poly, true, spec_reflect32(cur), b),
                    );
                }
                next = (cur >> 8) ^ self.table.index((cur as u8) ^ b);
            } else {
                proof {
                    lemma_crc32_byte_normal(poly, cur, b);
                }
                next = (cur << 8) ^ self.table.index(((cur >> 24) as u8) ^ b);
            }
            cur = next;
            i += 1;
        }
        proof {
            assert(bytes@.skip(len as int) =~= Seq::<u8>::empty());
        }
        cur
    }

    /// Absorbs another fragment of the stream.
    pub fn update(&mut self, bytes: &[u8])
        requires
            old(self).wf(),
        ensures
            final(self).wf(),
            final(self)@ == old(self)@ + bytes@,
            final(self).params() == old(self).params(),
    {
        let next = self.absorb(self.accumulator, bytes);
        proof {
            if self.params.refin {
                lemma_reflect32_involution(
                    spec_crc32_feed(self.params.poly, true, self.params.init, self@),
                );
            }
            lemma_crc32_feed_append(
                self.params.poly,
                self.params.refin,
                self.params.init,
                self@,
                bytes@,
            );
            if self.params.refin {
                lemma_reflect32_involution(next);
            }
        }
        self.accumulator = next;
        self.history = Ghost(self.history@ + bytes@);
    }

    /// The CRC of everything absorbed so far; leaves the engine intact, so
    /// repeated calls return the same value.
    pub fn finalize(&self) -> (r: u32)
        requires
            self.wf(),
        ensures
            r == spec_crc32(self.params(), self@),
    {
        let pre: u32 = if self.params.refin == self.params.refout {
            self.accumulator
        } else {
            reflect32(self.accumulator)
        };
        proof {
            if self.params.refin {
                lemma_reflect32_involution(
                    spec_crc32_feed(self.params.poly, true, self.params.init, self@),
                );
            }
        }
        pre ^ self.params.xorout
    }

    /// The CRC of `bytes` in one shot, independent of the stream state:
    /// exactly the bit-by-bit reference result for this parameter set.
    pub fn process(&self, bytes: &[u8]) -> (r: u32)
        requires
            self.wf(),
        ensures
            r == spec_crc32(self.params(), bytes@),
    {
        let start: u32 = if self.params.refin {
            reflect32(self.params.init)
        } else {
            self.params.init
        };
        proof {
            if self.params.refin {
                lemma_reflect32_involution(self.params.init);
            }
        }
        let acc = self.absorb(start, bytes);
        let pre: u32 = if self.params.refin == self.params.refout {
            acc
        } else {
            reflect32(acc)
        };
        proof {
            if self.params.refin {
                lemma_reflect32_involution(acc);
                lemma_reflect32_involution(
                    spec_crc32_feed(self.params.poly, true, self.params.init, bytes@),
                );
            }
        }
        pre ^ self.params.xorout
    }
}

} // verus!
