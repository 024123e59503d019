//! The boolean (arithmetic-coded) bit reader.
//!
//! The reader wraps a byte buffer and a cursor and extracts
//! probability-weighted bits for the range coder, one byte of input at a
//! time.  On buffer exhaustion it feeds zero bytes forever — it never
//! errors and never reads past the buffer — and raises the `eof_` flag so
//! higher layers can detect truncated streams after the fact.
//!
//! Every operation is specified against a pure model (`BitReaderModel`):
//! the executable code is proved to implement the model transitions
//! exactly.

use vstd::prelude::*;

use vstd::arithmetic::div_mod::lemma_fundamental_div_mod;
use vstd::arithmetic::power2::lemma2_to64;
use vstd::arithmetic::power2::lemma_pow2_pos;
use vstd::arithmetic::power2::pow2;
use vstd::bits::lemma_u32_shl_is_mul;
use vstd::bits::lemma_u64_shl_is_mul;
use vstd::bits::lemma_u64_shr_is_div;

verus! {

/// Boolean decoder state over a byte buffer.
pub struct VP8BitReader {
    /// Current value window; wraps modulo 2^64 on adversarial input.
    pub value_: u64,
    /// Current range minus 1, in the [127, 254] interval.
    pub range_: u32,
    /// Number of valid bits left below the 8-bit compare window.
    pub bits_: i32,
    /// The read buffer.
    pub data_: Vec<u8>,
    /// Next byte to be read.
    pub pos_: usize,
    /// True once the input is exhausted; all further reads consume zeros.
    pub eof_: bool,
}

/// The reader as specifications see it.
pub ghost struct BitReaderModel {
    pub value: int,
    pub range: int,
    pub bits: int,
    pub data: Seq<u8>,
    pub pos: int,
    pub eof: bool,
}

impl View for VP8BitReader {
    type V = BitReaderModel;

    open spec fn view(&self) -> BitReaderModel {
        BitReaderModel {
            value: self.value_ as int,
            range: self.range_ as int,
            bits: self.bits_ as int,
            data: self.data_@,
            pos: self.pos_ as int,
            eof: self.eof_,
        }
    }
}

/// A consistent reader: cursor inside the buffer, range in [127, 254],
/// bit count in [-8, 7], value a 64-bit quantity.
pub open spec fn br_wf(m: BitReaderModel) -> bool {
    &&& 0 <= m.pos <= m.data.len()
    &&& 127 <= m.range <= 254
    &&& -8 <= m.bits <= 7
    &&& 0 <= m.value < 0x1_0000_0000_0000_0000
}

/// Loading one more byte: a buffer byte while any are left, then one
/// zero-extension marking end of stream, then the bit count merely clamps
/// to zero.
pub open spec fn br_load(m: BitReaderModel) -> BitReaderModel {
    if m.pos < m.data.len() {
        BitReaderModel {
            value: (m.value * 256) % 0x1_0000_0000_0000_0000 + m.data[m.pos],
            bits: m.bits + 8,
            pos: m.pos + 1,
            ..m
        }
    } else if !m.eof {
        BitReaderModel {
            value: (m.value * 256) % 0x1_0000_0000_0000_0000,
            bits: m.bits + 8,
            eof: true,
            ..m
        }
    } else {
        BitReaderModel { bits: 0, ..m }
    }
}

/// How far a range must be doubled to land in [128, 255].
pub open spec fn norm_shift(r: int) -> int
    decreases (if 1 <= r < 128 { 128 - r } else { 0int }),
{
    if r < 1 || r >= 128 {
        0
    } else {
        1 + norm_shift(2 * r)
    }
}

/// Renormalizing lands the range in [128, 255] and shifts at most 7.
pub proof fn lemma_norm_shift(r: int)
    requires
        1 <= r <= 254,
    ensures
        0 <= norm_shift(r) <= 7,
        128 <= r * pow2(norm_shift(r) as nat) <= 255,
    decreases (if 1 <= r < 128 { 128 - r } else { 0int }),
{
    if r >= 128 {
        assert(pow2(0) == 1) by {
            lemma2_to64();
        }
        assert(r * pow2(norm_shift(r) as nat) == r) by (nonlinear_arith)
            requires
                norm_shift(r) == 0,
                pow2(0) == 1,
        ;
    } else {
        lemma_norm_shift(2 * r);
        assert(pow2((1 + norm_shift(2 * r)) as nat) == 2 * pow2(norm_shift(2 * r) as nat)) by {
            vstd::arithmetic::power2::lemma_pow2_unfold((1 + norm_shift(2 * r)) as nat);
        }
        assert(r * (2 * pow2(norm_shift(2 * r) as nat)) == (2 * r) * pow2(
            norm_shift(2 * r) as nat,
        )) by (nonlinear_arith);
        assert(norm_shift(r) <= 7) by {
            if norm_shift(2 * r) == 7 {
                assert(pow2(7) == 128) by {
                    lemma2_to64();
                }
                assert((2 * r) * 128 >= 2 * 128) by (nonlinear_arith)
                    requires
                        r >= 1,
                ;
            }
        }
    }
}

/// One boolean read with probability `prob`: load when the window ran
/// empty, split the range, pick the branch the value falls in, then
/// renormalize.
pub open spec fn br_get_bit_s(m0: BitReaderModel, prob: int) -> (BitReaderModel, bool) {
    let m = if m0.bits < 0 {
        br_load(m0)
    } else {
        m0
    };
    let pos = m.bits;
    let split = (m.range * prob) / 256;
    let window = m.value / pow2(pos as nat) as int;
    let bit = window > split;
    let value1 = if bit {
        m.value - (split + 1) * pow2(pos as nat) as int
    } else {
        m.value
    };
    let range1 = if bit {
        m.range - split
    } else {
        split + 1
    };
    let s = norm_shift(range1);
    (
        BitReaderModel {
            value: value1,
            range: range1 * pow2(s as nat) - 1,
            bits: pos - s,
            pos: m.pos,
            eof: m.eof,
            data: m.data,
        },
        bit,
    )
}

/// `num_bits` uniform bits read most-significant first.
pub open spec fn br_get_value_s(m: BitReaderModel, n: int) -> (BitReaderModel, int)
    decreases n,
{
    if n <= 0 {
        (m, 0)
    } else {
        let head = br_get_bit_s(m, 0x80);
        let rest = br_get_value_s(head.0, n - 1);
        (rest.0, (if head.1 {
            pow2((n - 1) as nat) as int
        } else {
            0int
        }) + rest.1)
    }
}

impl VP8BitReader {
    /// A fresh reader over a byte buffer.
    #[allow(non_snake_case)]
    pub fn VP8InitBitReader(data: Vec<u8>) -> (br: Self)
        ensures
            br_wf(br@),
            br@.data == data@,
            br@.pos == 0,
            br@.value == 0,
            br@.range == 254,
            br@.bits == -8,
            !br@.eof,
    {
        VP8BitReader { value_: 0, range_: 254, bits_: -8, data_: data, pos_: 0, eof_: false }
    }

    /// Loads the next 8 bits: a buffer byte, or zeros once the buffer is
    /// exhausted (setting the end-of-stream flag).
    fn load_final_bytes(&mut self)
        requires
            br_wf(old(self)@),
            old(self)@.bits < 0,
        ensures
            final(self)@ == br_load(old(self)@),
            0 <= final(self)@.bits <= 7,
            br_wf(final(self)@),
    {
        proof {
            lemma2_to64();
        }
        if self.pos_ < self.data_.len() {
            let byte = self.data_[self.pos_];
            let v0: u64 = self.value_;
            let shifted = v0 << 8u64;
            proof {
                assert(shifted == (v0 as int * 256) % 0x1_0000_0000_0000_0000 && shifted % 256
                    == 0) by (bit_vector)
                    requires
                        shifted == v0 << 8u64,
                ;
            }
            self.value_ = shifted | (byte as u64);
            proof {
                assert(shifted | (byte as u64) == shifted + byte) by (bit_vector)
                    requires
                        shifted % 256 == 0,
                        byte < 256,
                ;
            }
            self.bits_ = self.bits_ + 8;
            self.pos_ = self.pos_ + 1;
        } else if !self.eof_ {
            let v0: u64 = self.value_;
            let shifted = v0 << 8u64;
            proof {
                assert(shifted == (v0 as int * 256) % 0x1_0000_0000_0000_0000) by (bit_vector)
                    requires
                        shifted == v0 << 8u64,
                ;
            }
            self.value_ = shifted;
            self.bits_ = self.bits_ + 8;
            self.eof_ = true;
        } else {
            self.bits_ = 0;
        }
    }

    /// Reads one boolean with probability `prob` (out of 256).
    #[allow(non_snake_case)]
    pub fn VP8GetBit(&mut self, prob: u8) -> (bit: bool)
        requires
            br_wf(old(self)@),
        ensures
            br_wf(final(self)@),
            final(self)@ == br_get_bit_s(old(self)@, prob as int).0,
            bit == br_get_bit_s(old(self)@, prob as int).1,
            final(self)@.data == old(self)@.data,
            old(self)@.eof ==> final(self)@.eof,
    {
        if self.bits_ < 0 {
            self.load_final_bytes();
        }
        let ghost m = self@;
        let pos: u64 = self.bits_ as u64;
        let rg: u32 = self.range_;
        proof {
            assert((rg as int) * (prob as int) <= 254 * 255) by (nonlinear_arith)
                requires
                    rg <= 254,
                    prob <= 255,
            ;
        }
        let rp: u32 = rg * (prob as u32);
        let split: u32 = rp >> 8;
        proof {
            assert(rp >> 8 == rp / 256) by (bit_vector);
            lemma_u64_shr_is_div(self.value_, pos);
            lemma_pow2_pos(pos as nat);
            assert(pow2(pos as nat) <= pow2(7) && pow2(7) == 128 && pow2(8) == 256) by {
                lemma2_to64();
                if (pos as nat) < 7 {
                    vstd::arithmetic::power2::lemma_pow2_strictly_increases(pos as nat, 7);
                }
            }
            assert(split < self.range_) by (nonlinear_arith)
                requires
                    split == (self.range_ as int * prob) / 256,
                    127 <= self.range_ <= 254,
                    0 <= prob <= 255,
            ;
        }
        let window: u64 = self.value_ >> pos;
        let bit = window > split as u64;
        let mut range: u32 = self.range_;
        if bit {
            range = range - split;
            let sub: u64 = ((split + 1) as u64) << pos;
            proof {
                assert(((split + 1) as u64) * pow2(pos as nat) <= 255 * 128) by (nonlinear_arith)
                    requires
                        split + 1 <= 255,
                        pow2(pos as nat) <= 128,
                ;
                lemma_u64_shl_is_mul((split + 1) as u64, pos);
                lemma_fundamental_div_mod(self.value_ as int, pow2(pos as nat) as int);
                assert(self.value_ >= (split + 1) * pow2(pos as nat)) by (nonlinear_arith)
                    requires
                        self.value_ as int == pow2(pos as nat) as int * (self.value_ as int / pow2(
                            pos as nat,
                        ) as int) + self.value_ as int % pow2(pos as nat) as int,
                        self.value_ as int % pow2(pos as nat) as int >= 0,
                        self.value_ as int / pow2(pos as nat) as int >= split + 1,
                        pow2(pos as nat) >= 1,
                ;
            }
            self.value_ = self.value_ - sub;
        } else {
            range = split + 1;
        }
        // renormalize the range into [128, 255]
        let ghost range1 = range as int;
        proof {
            lemma_norm_shift(range1);
        }
        proof {
            assert(pow2(0) == 1) by {
                lemma2_to64();
            }
        }
        let mut shift: u32 = 0;
        while range < 128
            invariant
                1 <= range1 <= 254,
                1 <= range <= 255,
                shift <= 7,
                range == range1 * pow2(shift as nat),
                norm_shift(range1) == shift + norm_shift(range as int),
                0 <= norm_shift(range1) <= 7,
                128 <= range1 * pow2(norm_shift(range1) as nat) <= 255,
            decreases (if range < 128 { 128 - range as int } else { 0int }),
        {
            proof {
                assert(norm_shift(range as int) == 1 + norm_shift(2 * (range as int)));
                assert(pow2((shift + 1) as nat) == 2 * pow2(shift as nat)) by {
                    vstd::arithmetic::power2::lemma_pow2_unfold((shift + 1) as nat);
                }
                assert(range1 * (2 * pow2(shift as nat)) == 2 * (range1 * pow2(shift as nat)))
                    by (nonlinear_arith);
                assert(norm_shift(2 * (range as int)) >= 0) by {
                    lemma_norm_shift_nonneg(2 * (range as int));
                }
            }
            range = range * 2;
            shift = shift + 1;
        }
        proof {
            assert(norm_shift(range as int) == 0);
            assert(range == range1 * pow2(norm_shift(range1) as nat));
        }
        self.bits_ = self.bits_ - (shift as i32);
        self.range_ = range - 1;
        bit
    }

    /// Reads one uniform bit.
    #[allow(non_snake_case)]
    pub fn VP8Get(&mut self) -> (v: u32)
        requires
            br_wf(old(self)@),
        ensures
            br_wf(final(self)@),
            final(self)@ == br_get_value_s(old(self)@, 1).0,
            v == br_get_value_s(old(self)@, 1).1,
    {
        proof {
            lemma2_to64();
        }
        let ghost m0 = self@;
        let bit = self.VP8GetBit(0x80);
        proof {
            let head = br_get_bit_s(m0, 0x80);
            assert(br_get_value_s(head.0, 0) == (head.0, 0int));
            assert(br_get_value_s(m0, 1).0 == head.0);
        }
        if bit {
            1
        } else {
            0
        }
    }

    /// Reads `num_bits` uniform bits, most-significant first.
    #[allow(non_snake_case)]
    pub fn VP8GetValue(&mut self, num_bits: u32) -> (v: u32)
        requires
            br_wf(old(self)@),
            num_bits <= 31,
        ensures
            br_wf(final(self)@),
            final(self)@ == br_get_value_s(old(self)@, num_bits as int).0,
            v == br_get_value_s(old(self)@, num_bits as int).1,
            v < 0x8000_0000,
    {
        let ghost m0 = self@;
        let n = num_bits;
        let mut v: u32 = 0;
        let mut i: u32 = 0;
        proof {
            lemma_bounded_value(m0, n as int);
            lemma2_to64();
            if n < 31 {
                vstd::arithmetic::power2::lemma_pow2_strictly_increases(n as nat, 31);
            }
        }
        while i < n
            invariant
                br_wf(self@),
                i <= n <= 31,
                br_get_value_s(m0, n as int).0 == br_get_value_s(self@, (n - i) as int).0,
                br_get_value_s(m0, n as int).1 == v + br_get_value_s(self@, (n - i) as int).1,
                v + pow2((n - i) as nat) <= pow2(n as nat),
                pow2(n as nat) <= 0x8000_0000,
            decreases n - i,
        {
            let ghost cur = self@;
            let bit = self.VP8GetBit(0x80);
            proof {
                let head = br_get_bit_s(cur, 0x80);
                assert(br_get_value_s(cur, (n - i) as int) == (
                    br_get_value_s(head.0, (n - i - 1) as int).0,
                    (if head.1 { pow2((n - i - 1) as nat) as int } else { 0int })
                        + br_get_value_s(head.0, (n - i - 1) as int).1,
                ));
                lemma_bounded_value(self@, (n - i - 1) as int);
                assert(pow2((n - i) as nat) == 2 * pow2((n - i - 1) as nat)) by {
                    vstd::arithmetic::power2::lemma_pow2_unfold((n - i) as nat);
                }
            }
            if bit {
                proof {
                    assert(pow2((n - 1 - i) as nat) <= pow2(31)) by {
                        lemma2_to64();
                        if (n - 1 - i) < 31 {
                            vstd::arithmetic::power2::lemma_pow2_strictly_increases(
                                (n - 1 - i) as nat,
                                31,
                            );
                        }
                    }
                    lemma_u32_shl_is_mul(1u32, (n - 1 - i) as u32);
                }
                let add_bit: u32 = 1u32 << (n - 1 - i);
                v = v + add_bit;
            }
            i = i + 1;
        }
        proof {
            assert(br_get_value_s(self@, 0) == (self@, 0int));
        }
        v
    }

    /// Reads a sign-and-magnitude value: `num_bits` magnitude bits, then a
    /// sign bit.
    #[allow(non_snake_case)]
    pub fn VP8GetSignedValue(&mut self, num_bits: u32) -> (v: i32)
        requires
            br_wf(old(self)@),
            num_bits <= 31,
        ensures
            br_wf(final(self)@),
            ({
                let mag = br_get_value_s(old(self)@, num_bits as int);
                let sign = br_get_bit_s(mag.0, 0x80);
                final(self)@ == sign.0 && v == if sign.1 {
                    -mag.1
                } else {
                    mag.1
                }
            }),
    {
        let value = self.VP8GetValue(num_bits);
        if self.VP8GetBit(0x80) {
            -(value as i32)
        } else {
            value as i32
        }
    }
}

/// Saturating end of stream: once the buffer is exhausted and the
/// buffered value has drained to zero, every further read yields the 0
/// bit and leaves the reader in the same drained state, whatever the
/// probability.  Higher layers rely on this to detect truncated streams
/// after the fact instead of threading errors through every read.
pub proof fn lemma_exhausted_reads_zero(m: BitReaderModel, prob: int)
    requires
        br_wf(m),
        m.value == 0,
        m.eof,
        m.pos == m.data.len(),
        0 <= prob <= 255,
    ensures
        !br_get_bit_s(m, prob).1,
        br_wf(br_get_bit_s(m, prob).0),
        br_get_bit_s(m, prob).0.value == 0,
        br_get_bit_s(m, prob).0.eof,
        br_get_bit_s(m, prob).0.pos == m.data.len(),
{
    let loaded = if m.bits < 0 {
        br_load(m)
    } else {
        m
    };
    let split = (loaded.range * prob) / 256;
    assert(0 <= loaded.range * prob <= 254 * 255) by (nonlinear_arith)
        requires
            127 <= loaded.range <= 254,
            0 <= prob <= 255,
    ;
    assert(split >= 0) by {
        vstd::arithmetic::div_mod::lemma_div_is_ordered(0, loaded.range * prob, 256);
    }
    assert(split < loaded.range) by (nonlinear_arith)
        requires
            split == (loaded.range * prob) / 256,
            256 * split <= loaded.range * prob < 256 * (split + 1),
            127 <= loaded.range <= 254,
            0 <= prob <= 255,
    ;
    lemma_pow2_pos(loaded.bits as nat);
    assert(0int / (pow2(loaded.bits as nat) as int) == 0) by {
        vstd::arithmetic::div_mod::lemma_div_is_ordered(0, 0, pow2(loaded.bits as nat) as int);
    }
    // the zero window never exceeds the split, so the range becomes
    // split + 1 and renormalizes as usual
    lemma_norm_shift(split + 1);
}

/// `norm_shift` never goes negative.
pub proof fn lemma_norm_shift_nonneg(r: int)
    ensures
        norm_shift(r) >= 0,
    decreases (if 1 <= r < 128 { 128 - r } else { 0int }),
{
    if !(r < 1 || r >= 128) {
        lemma_norm_shift_nonneg(2 * r);
    }
}

/// The value of an `n`-bit read is below `2^n`.
pub proof fn lemma_bounded_value(m: BitReaderModel, n: int)
    ensures
        0 <= br_get_value_s(m, n).1,
        n >= 0 ==> br_get_value_s(m, n).1 < pow2(n as nat),
    decreases n,
{
    if n <= 0 {
        assert(pow2(0) == 1) by {
            lemma2_to64();
        }
    } else {
        let head = br_get_bit_s(m, 0x80);
        lemma_bounded_value(head.0, n - 1);
        assert(pow2(n as nat) == 2 * pow2((n - 1) as nat)) by {
            vstd::arithmetic::power2::lemma_pow2_unfold(n as nat);
        }
    }
}

} // verus!
