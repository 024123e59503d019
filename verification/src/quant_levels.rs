//! Dequantization post-processor: a bounded pseudo-random smoothing pass
//! applied once to the finished alpha plane when the header requested
//! preprocessing.
//!
//! The pass walks the cropped sub-rectangle in row-major order and perturbs
//! every sample by a centered pseudo-random amount scaled by the dithering
//! strength, clamping back to the byte range.  Strength 0 leaves the plane
//! unchanged.

use vstd::prelude::*;

use crate::random_utils::RandomModel;
use crate::random_utils::VP8InitRandom;
use crate::random_utils::VP8Random;
use crate::random_utils::VP8RandomBits;
use crate::random_utils::random_table;
use crate::random_utils::rnd_next;
use crate::random_utils::rnd_value;
use crate::random_utils::rnd_wf;

verus! {

/// Clamps a perturbed sample back to the byte range.
pub open spec fn clamp_byte(v: int) -> u8 {
    if v < 0 {
        0u8
    } else if v > 255 {
        255u8
    } else {
        v as u8
    }
}

/// The generator as `VP8InitRandom` seeds it for a strength in percent.
pub open spec fn init_random_model(dithering: int) -> RandomModel {
    RandomModel {
        index1: 0,
        index2: 31,
        tab: random_table(),
        amp: if dithering < 0 {
            0int
        } else if dithering > 100 {
            256int
        } else {
            (256 * dithering) / 100int
        },
    }
}

/// One dithering step: the sample at `idx` moves by the centered draw and
/// the generator advances.
pub open spec fn dither_step(plane: Seq<u8>, rg: RandomModel, idx: int) -> (Seq<u8>, RandomModel) {
    let delta = rnd_value(rg, 8, rg.amp) - 128;
    (plane.update(idx, clamp_byte(plane[idx] + delta)), rnd_next(rg))
}

/// The plane and generator after the first `k` samples of the rectangle
/// (row-major, rows `stride` apart, starting at `off`) have been dithered.
pub open spec fn dither_prefix(
    plane: Seq<u8>,
    rg: RandomModel,
    off: int,
    w: int,
    stride: int,
    k: nat,
) -> (Seq<u8>, RandomModel)
    decreases k,
{
    if k == 0 {
        (plane, rg)
    } else {
        let prev = dither_prefix(plane, rg, off, w, stride, (k - 1) as nat);
        let i = k - 1;
        dither_step(prev.0, prev.1, off + (i / w) * stride + (i % w))
    }
}

/// The whole dithered plane for a `w` by `h` rectangle and a seeding
/// strength in percent.
pub open spec fn dither_plane(
    plane: Seq<u8>,
    off: int,
    w: int,
    h: int,
    stride: int,
    strength: int,
) -> Seq<u8> {
    dither_prefix(plane, init_random_model(strength), off, w, stride, (w * h) as nat).0
}

/// The parameter validation of the post-processor: positive rectangle, a
/// row stride no smaller than the row width, a strength in percent, and a
/// rectangle that lies inside the plane.
pub open spec fn dequantize_args_ok(
    len: int,
    off: int,
    width: int,
    height: int,
    stride: int,
    strength: int,
) -> bool {
    &&& 0 < width
    &&& 0 < height
    &&& width <= stride
    &&& 0 <= strength <= 100
    &&& off + (height - 1) * stride + width <= len
}

/// Applies the dithering pass to the `width` by `height` rectangle of
/// `data` that starts at `off`, with rows `stride` apart.  `strength` is
/// the dithering amplitude in percent (0 = off, 100 = full).  Returns false
/// on invalid parameters, leaving the plane untouched.
#[allow(non_snake_case)]
pub fn WebPDequantizeLevels(
    data: &mut Vec<u8>,
    off: usize,
    width: i32,
    height: i32,
    stride: i32,
    strength: i32,
) -> (ok: bool)
    ensures
        ok == dequantize_args_ok(
            old(data)@.len() as int,
            off as int,
            width as int,
            height as int,
            stride as int,
            strength as int,
        ),
        final(data)@.len() == old(data)@.len(),
        !ok ==> final(data)@ == old(data)@,
        ok ==> final(data)@ == dither_plane(
            old(data)@,
            off as int,
            width as int,
            height as int,
            stride as int,
            strength as int,
        ),
{
    if width <= 0 || height <= 0 || stride < width || strength < 0 || strength > 100 {
        return false;
    }
    let cur_len: usize = data.len();
    let w64 = width as u64;
    let h64 = height as u64;
    let st64 = stride as u64;
    proof {
        assert((h64 - 1) * st64 + w64 < 0x4000_0000_0000_0000) by (nonlinear_arith)
            requires
                0 < h64 < 0x8000_0000,
                0 < st64 < 0x8000_0000,
                0 < w64 < 0x8000_0000,
        ;
    }
    if off as u64 > u64::MAX - ((h64 - 1) * st64 + w64) {
        assert(off + (height - 1) * (stride as int) + width > cur_len);
        return false;
    }
    if off as u64 + ((h64 - 1) * st64 + w64) > cur_len as u64 {
        return false;
    }
    let ghost plane0 = data@;
    let ghost rm0 = init_random_model(strength as int);

    let mut rg = VP8Random { index1_: 0, index2_: 31, tab_: Vec::new(), amp_: 0 };
    VP8InitRandom(&mut rg, strength);
    assert(rg@ == rm0);

    let w: usize = width as usize;
    let st: usize = stride as usize;
    let h: usize = height as usize;
    let n: usize = data.len();
    proof {
        assert(w * h <= off + (h - 1) * st + w) by (nonlinear_arith)
            requires
                0 < w <= st,
                0 < h,
                0 <= off,
        ;
    }
    let total: usize = w * h;
    let mut k: usize = 0;
    while k < total
        invariant
            0 < w <= st,
            0 < h,
            total == w * h,
            k <= total,
            off + (h - 1) * st + w <= n,
            plane0.len() == n,
            data@.len() == n,
            rnd_wf(rg@),
            (data@, rg@) == dither_prefix(plane0, rm0, off as int, w as int, st as int, k as nat),
        decreases total - k,
    {
        let r: usize = k / w;
        let c: usize = k % w;
        proof {
            assert(k / w <= h - 1 && k % w < w && (k / w) * st <= (h - 1) * st)
                by (nonlinear_arith)
                requires
                    0 < w,
                    0 < h,
                    k < w * h,
                    0 < st,
            ;
        }
        let idx: usize = off + r * st + c;
        let delta: i32 = VP8RandomBits(&mut rg, 8) - 128;
        let v: i32 = data[idx] as i32 + delta;
        let nv: u8 = if v < 0 {
            0u8
        } else if v > 255 {
            255u8
        } else {
            v as u8
        };
        data.set(idx, nv);
        k = k + 1;
        proof {
            assert((data@, rg@) == dither_prefix(
                plane0,
                rm0,
                off as int,
                w as int,
                st as int,
                k as nat,
            ));
        }
    }
    true
}

} // verus!
