//! Pseudo-random utilities: D. Knuth's difference-based generator,
//! used by the dithering post-processor.

use vstd::prelude::*;

use vstd::arithmetic::div_mod::lemma_div_is_ordered;
use vstd::arithmetic::div_mod::lemma_div_multiples_vanish;
use vstd::arithmetic::power2::lemma2_to64;
use vstd::arithmetic::power2::lemma_pow2_adds;
use vstd::arithmetic::power2::lemma_pow2_pos;
use vstd::arithmetic::power2::pow2;
use vstd::bits::lemma_u32_shl_is_mul;

verus! {

/// Fixed-point precision of dithering amplitudes.
pub const VP8_RANDOM_DITHER_FIX: i32 = 8;

/// Number of entries of the generator's lag table.
pub const VP8_RANDOM_TABLE_SIZE: usize = 55;

/// Difference-based pseudo-random generator with a 55-entry lag table.
pub struct VP8Random {
    pub index1_: usize,
    pub index2_: usize,
    pub tab_: Vec<u32>,
    pub amp_: i32,
}

/// The generator as specifications see it.
pub ghost struct RandomModel {
    pub index1: int,
    pub index2: int,
    pub tab: Seq<u32>,
    pub amp: int,
}

impl View for VP8Random {
    type V = RandomModel;

    open spec fn view(&self) -> RandomModel {
        RandomModel {
            index1: self.index1_ as int,
            index2: self.index2_ as int,
            tab: self.tab_@,
            amp: self.amp_ as int,
        }
    }
}

/// A consistent generator: indices inside the table, every entry a 31-bit
/// value, amplitude in fixed-point range.
pub open spec fn rnd_wf(m: RandomModel) -> bool {
    &&& m.tab.len() == 55
    &&& 0 <= m.index1 < 55
    &&& 0 <= m.index2 < 55
    &&& 0 <= m.amp <= 256
    &&& forall|i: int| 0 <= i < 55 ==> m.tab[i] < 0x8000_0000u32
}

/// The lagged difference, reduced modulo 2^31.
pub open spec fn rnd_diff(a: u32, b: u32) -> u32 {
    if a >= b {
        (a - b) as u32
    } else {
        ((a - b + 0x8000_0000) as u32)
    }
}

/// One step of the generator: the difference replaces the first lag entry
/// and both indices advance cyclically.
pub open spec fn rnd_next(m: RandomModel) -> RandomModel {
    RandomModel {
        index1: if m.index1 + 1 == 55 { 0 } else { m.index1 + 1 },
        index2: if m.index2 + 1 == 55 { 0 } else { m.index2 + 1 },
        tab: m.tab.update(m.index1, rnd_diff(m.tab[m.index1], m.tab[m.index2])),
        amp: m.amp,
    }
}

/// The value drawn by one step: the difference read as a signed 31-bit
/// number, kept to its top `num_bits` bits, scaled by `amp` in
/// `VP8_RANDOM_DITHER_FIX` fixed point, and re-centered at
/// `2^(num_bits-1)`.
pub open spec fn rnd_value(m: RandomModel, num_bits: int, amp: int) -> int {
    let d = rnd_diff(m.tab[m.index1], m.tab[m.index2]) as int;
    let s = if d >= 0x4000_0000 {
        d - 0x8000_0000
    } else {
        d
    };
    let t = s / (pow2((31 - num_bits) as nat) as int);
    let u = (t * amp) / 256;
    u + pow2((num_bits - 1) as nat) as int
}

/// The generator's fixed seed table (31-bit values).
pub open spec fn random_table() -> Seq<u32> {
    seq![
        0x0de15230u32, 0x03b31886u32, 0x775faccbu32, 0x1c88626au32, 0x68385c55u32, 0x14b3b828u32,
        0x4a85fef8u32, 0x49ddb84bu32, 0x64fcf397u32, 0x5c550289u32, 0x4a290000u32, 0x0d7ec1dau32,
        0x5940b7abu32, 0x5492577du32, 0x4e19ca72u32, 0x38d38c69u32, 0x0c01ee65u32, 0x32a1755fu32,
        0x5437f652u32, 0x5abb2c32u32, 0x0faa57b1u32, 0x73f533e7u32, 0x685feedau32, 0x7563cce2u32,
        0x6e990e83u32, 0x4730a7edu32, 0x4fc0d9c6u32, 0x496b153cu32, 0x4f1403fau32, 0x541afb0cu32,
        0x73990b32u32, 0x26d7cb1cu32, 0x6fcc3706u32, 0x2cbb77d8u32, 0x75762f2au32, 0x6425ccddu32,
        0x24b35461u32, 0x0a7d8715u32, 0x220414a8u32, 0x141ebf67u32, 0x56b41583u32, 0x73e502e3u32,
        0x44cab16fu32, 0x28264d42u32, 0x73baaefbu32, 0x0a50ebedu32, 0x1d6ab6fbu32, 0x0d3ad40bu32,
        0x35db3b68u32, 0x2b081e83u32, 0x77ce6b95u32, 0x5181e5f0u32, 0x78853bbcu32, 0x009f9494u32,
        0x27e5ed3cu32,
    ]
}

/// Seeds `rg` with the fixed table and an amplitude derived from
/// `dithering`, a strength in percent clamped to `[0, 100]` (full strength
/// maps to the fixed-point unit `2^VP8_RANDOM_DITHER_FIX`).
#[allow(non_snake_case)]
pub fn VP8InitRandom(rg: &mut VP8Random, dithering: i32)
    ensures
        rnd_wf(final(rg)@),
        final(rg)@.tab == random_table(),
        final(rg)@.index1 == 0,
        final(rg)@.index2 == 31,
        final(rg)@.amp == if dithering < 0 {
            0int
        } else if dithering > 100 {
            256int
        } else {
            (256 * dithering) / 100int
        },
{
    let tab: Vec<u32> = vec![
        0x0de15230u32, 0x03b31886u32, 0x775faccbu32, 0x1c88626au32, 0x68385c55u32, 0x14b3b828u32,
        0x4a85fef8u32, 0x49ddb84bu32, 0x64fcf397u32, 0x5c550289u32, 0x4a290000u32, 0x0d7ec1dau32,
        0x5940b7abu32, 0x5492577du32, 0x4e19ca72u32, 0x38d38c69u32, 0x0c01ee65u32, 0x32a1755fu32,
        0x5437f652u32, 0x5abb2c32u32, 0x0faa57b1u32, 0x73f533e7u32, 0x685feedau32, 0x7563cce2u32,
        0x6e990e83u32, 0x4730a7edu32, 0x4fc0d9c6u32, 0x496b153cu32, 0x4f1403fau32, 0x541afb0cu32,
        0x73990b32u32, 0x26d7cb1cu32, 0x6fcc3706u32, 0x2cbb77d8u32, 0x75762f2au32, 0x6425ccddu32,
        0x24b35461u32, 0x0a7d8715u32, 0x220414a8u32, 0x141ebf67u32, 0x56b41583u32, 0x73e502e3u32,
        0x44cab16fu32, 0x28264d42u32, 0x73baaefbu32, 0x0a50ebedu32, 0x1d6ab6fbu32, 0x0d3ad40bu32,
        0x35db3b68u32, 0x2b081e83u32, 0x77ce6b95u32, 0x5181e5f0u32, 0x78853bbcu32, 0x009f9494u32,
        0x27e5ed3cu32,
    ];
    proof {
        assert(tab@ =~= random_table());
    }
    rg.tab_ = tab;
    rg.index1_ = 0;
    rg.index2_ = 31;
    rg.amp_ = if dithering < 0 {
        0
    } else if dithering > 100 {
        256
    } else {
        (256 * dithering) / 100
    };
}

/// Draws a centered pseudo-random number with `num_bits` amplitude, scaled
/// by the fixed-point amplitude `amp`.
#[allow(non_snake_case)]
#[verifier::rlimit(40)]
pub fn VP8RandomBits2(rg: &mut VP8Random, num_bits: i32, amp: i32) -> (r: i32)
    requires
        rnd_wf(old(rg)@),
        1 <= num_bits <= 23,
        0 <= amp <= 256,
    ensures
        rnd_wf(final(rg)@),
        final(rg)@ == rnd_next(old(rg)@),
        r == rnd_value(old(rg)@, num_bits as int, amp as int),
        -0x0080_0000 <= r <= 0x00C0_0000,
{
    let ghost m = rg@;
    let a = rg.tab_[rg.index1_];
    let b = rg.tab_[rg.index2_];
    let d: u32 = if a >= b {
        a - b
    } else {
        0x8000_0000u32 - (b - a)
    };
    assert(d == rnd_diff(a, b));
    assert(d < 0x8000_0000u32);

    // store the reduced difference and advance both indices
    rg.tab_.set(rg.index1_, d);
    rg.index1_ = if rg.index1_ + 1 == 55 { 0 } else { rg.index1_ + 1 };
    rg.index2_ = if rg.index2_ + 1 == 55 { 0 } else { rg.index2_ + 1 };
    assert(rg@ == rnd_next(m));

    // interpret d as a signed 31-bit value and keep its top num_bits bits
    let shift: u32 = (31 - num_bits) as u32;
    let d_pow: u32 = 1u32 << shift;
    proof {
        lemma2_to64();
        assert(pow2(shift as nat) <= pow2(31)) by {
            if (shift as nat) < 31 {
                vstd::arithmetic::power2::lemma_pow2_strictly_increases(shift as nat, 31);
            }
        }
        lemma_u32_shl_is_mul(1u32, shift);
        lemma_pow2_pos(shift as nat);
    }
    assert(d_pow == pow2(shift as nat));
    assert(d_pow >= 256) by {
        lemma_pow2_adds(8, (shift - 8) as nat);
        lemma_pow2_pos((shift - 8) as nat);
        assert(pow2(8) == 256);
    }
    let ghost s: int = if d >= 0x4000_0000 { d - 0x8000_0000 } else { d as int };
    let half_range: u32 = 0x8000_0000u32 / d_pow;
    proof {
        assert(0x8000_0000u32 == pow2(31));
        lemma_pow2_adds(shift as nat, (31 - shift) as nat);
        vstd::arithmetic::div_mod::lemma_div_multiples_vanish(
            pow2((31 - shift) as nat) as int,
            pow2(shift as nat) as int,
        );
        assert(half_range == pow2((31 - shift) as nat));
    }
    let t: i64 = if d >= 0x4000_0000u32 {
        (d / d_pow) as i64 - half_range as i64
    } else {
        (d / d_pow) as i64
    };
    proof {
        if d >= 0x4000_0000u32 {
            // floor((d - 2^31) / 2^shift) == d / 2^shift - 2^(31-shift)
            assert((pow2((31 - shift) as nat) as int) * (d_pow as int) == 0x8000_0000)
                by (nonlinear_arith)
                requires
                    d_pow == pow2(shift as nat),
                    pow2(31nat) == pow2(shift as nat) * pow2((31 - shift) as nat),
                    pow2(31nat) == 0x8000_0000,
            ;
            lemma_div_multiples_vanish_general(
                d as int,
                pow2((31 - shift) as nat) as int,
                d_pow as int,
            );
        }
        assert(t == s / (d_pow as int));
        // |t| is at most 2^22: |s| <= 2^30 while d_pow >= 2^8
        assert(0x40_0000 * (d_pow as int) >= 0x4000_0000) by (nonlinear_arith)
            requires
                d_pow >= 256,
        ;
        lemma_div_bound_sym(s, d_pow as int, 0x40_0000);
    }
    assert(-0x40_0000i64 <= t <= 0x40_0000i64);

    // scale by amp (fixed point) and re-center
    proof {
        assert((t as int) * (amp as int) <= 0x8000_0000 && -0x8000_0000 <= (t as int) * (
        amp as int)) by (nonlinear_arith)
            requires
                -0x40_0000i64 <= t <= 0x40_0000i64,
                0 <= amp <= 256,
        ;
    }
    let prod: i64 = t * amp as i64;
    assert(-0x8000_0000i64 <= prod <= 0x8000_0000i64);
    let u: i64 = ((prod + 0x8000_0000i64) as u64 / 256) as i64 - 0x0080_0000i64;
    proof {
        // floor(prod / 256) == (prod + 2^31) / 256 - 2^23
        lemma_div_is_ordered(0, prod + 0x8000_0000, 256);
        lemma_div_is_ordered(prod + 0x8000_0000, 0x1_0000_0000, 256);
        lemma_div_multiples_vanish_general(prod + 0x8000_0000, 0x0080_0000, 256);
        assert(u == (t * (amp as int)) / 256);
    }
    let center: i64 = (1u32 << ((num_bits - 1) as u32)) as i64;
    proof {
        lemma_u32_shl_is_mul(1u32, (num_bits - 1) as u32);
        assert(center == pow2((num_bits - 1) as nat));
        assert(pow2((num_bits - 1) as nat) <= pow2(22)) by {
            if (num_bits - 1) < 22 {
                vstd::arithmetic::power2::lemma_pow2_strictly_increases(
                    (num_bits - 1) as nat,
                    22,
                );
            }
        }
    }
    let r64: i64 = u + center;
    assert(r64 == rnd_value(m, num_bits as int, amp as int));
    assert(-0x0080_0000i64 <= r64 <= 0x00C0_0000i64);
    r64 as i32
}

/// As `VP8RandomBits2`, with the generator's own stored amplitude.
#[allow(non_snake_case)]
pub fn VP8RandomBits(rg: &mut VP8Random, num_bits: i32) -> (r: i32)
    requires
        rnd_wf(old(rg)@),
        1 <= num_bits <= 23,
    ensures
        rnd_wf(final(rg)@),
        final(rg)@ == rnd_next(old(rg)@),
        r == rnd_value(old(rg)@, num_bits as int, old(rg)@.amp),
        -0x0080_0000 <= r <= 0x00C0_0000,
{
    let amp = rg.amp_;
    VP8RandomBits2(rg, num_bits, amp)
}

/// A symmetric bound on a quotient from a symmetric bound on the dividend.
proof fn lemma_div_bound_sym(s: int, d: int, k: int)
    requires
        0 < d,
        0 <= k,
        -(k * d) <= s <= k * d,
    ensures
        -k <= s / d <= k,
{
    lemma_div_multiples_vanish(k, d);
    lemma_div_multiples_vanish(-k, d);
    assert(d * k == k * d) by (nonlinear_arith);
    assert(d * (-k) == -(k * d)) by (nonlinear_arith);
    lemma_div_is_ordered(s, k * d, d);
    lemma_div_is_ordered(-(k * d), s, d);
}

/// `(k * b + x) / b == k + x / b` for positive `b`, stated in the direction
/// used above: subtracting a multiple of the divisor before dividing.
proof fn lemma_div_multiples_vanish_general(x: int, k: int, b: int)
    requires
        0 < b,
    ensures
        (x - k * b) / b == x / b - k,
{
    vstd::arithmetic::div_mod::lemma_fundamental_div_mod(x, b);
    assert(x - k * b == b * (x / b - k) + x % b) by (nonlinear_arith)
        requires
            x == b * (x / b) + x % b,
    ;
    vstd::arithmetic::div_mod::lemma_div_multiples_vanish_fancy(x / b - k, x % b, b);
}

} // verus!
