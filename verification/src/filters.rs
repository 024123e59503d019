//! The prediction filter bank: row-oriented inverse transforms.
//!
//! Each alpha row is stored as a row of deltas against a per-pixel
//! prediction.  Unfiltering reconstructs the row from its deltas and the
//! previously reconstructed row (absent for the topmost decoded row).  All
//! additions are modulo 256; only the gradient predictor itself is clamped
//! to `[0, 255]`.

use vstd::prelude::*;

use crate::dsp::WEBP_FILTER_TYPE;

verus! {

/// Clamps a predictor value to the byte range.
pub open spec fn clip_255(v: int) -> int {
    if v < 0 {
        0
    } else if v > 255 {
        255
    } else {
        v
    }
}

/// The pixel directly above position `i`, or 0 when there is no row above.
pub open spec fn above(prev: Option<Seq<u8>>, i: int) -> int {
    match prev {
        Option::Some(p) => p[i] as int,
        Option::None => 0,
    }
}

/// The prediction for pixel `i` of a row whose pixels left of `i` hold the
/// values `row[..]` (for the inverse transform these are the already
/// reconstructed pixels; for the forward transform the original ones).
pub open spec fn predictor(
    f: WEBP_FILTER_TYPE,
    prev: Option<Seq<u8>>,
    row: Seq<u8>,
    i: int,
) -> int {
    match f {
        WEBP_FILTER_TYPE::WEBP_FILTER_HORIZONTAL => if i == 0 {
            above(prev, 0)
        } else {
            row[i - 1] as int
        },
        WEBP_FILTER_TYPE::WEBP_FILTER_VERTICAL => above(prev, i),
        WEBP_FILTER_TYPE::WEBP_FILTER_GRADIENT => if i == 0 {
            above(prev, 0)
        } else {
            clip_255(row[i - 1] + above(prev, i) - above(prev, i - 1))
        },
        _ => 0,
    }
}

/// Pixel `i` of the reconstructed row: the stored delta plus the prediction
/// computed from the pixels already reconstructed, modulo 256.
pub open spec fn unfiltered_pixel(
    f: WEBP_FILTER_TYPE,
    prev: Option<Seq<u8>>,
    enc: Seq<u8>,
    i: int,
) -> u8
    decreases i,
{
    let row = Seq::new(enc.len(), |j: int| if 0 <= j < i { unfiltered_pixel(f, prev, enc, j) } else { 0u8 });
    (((enc[i] + predictor(f, prev, row, i)) % 256) as u8)
}

/// The whole reconstructed row.
pub open spec fn unfilter_row_spec(
    f: WEBP_FILTER_TYPE,
    prev: Option<Seq<u8>>,
    enc: Seq<u8>,
) -> Seq<u8> {
    Seq::new(enc.len(), |i: int| unfiltered_pixel(f, prev, enc, i))
}

/// Pixel `i` of the forward-filtered row: the original pixel minus its
/// prediction, modulo 256.  Encoders apply this; it exists here to state
/// that unfiltering inverts it.
pub open spec fn filtered_pixel(
    f: WEBP_FILTER_TYPE,
    prev: Option<Seq<u8>>,
    raw: Seq<u8>,
    i: int,
) -> u8 {
    (((raw[i] - predictor(f, prev, raw, i)) % 256) as u8)
}

/// The whole forward-filtered row.
pub open spec fn filter_row_spec(
    f: WEBP_FILTER_TYPE,
    prev: Option<Seq<u8>>,
    raw: Seq<u8>,
) -> Seq<u8> {
    Seq::new(raw.len(), |i: int| filtered_pixel(f, prev, raw, i))
}

proof fn lemma_mod_roundtrip(r: int, p: int)
    requires
        0 <= r < 256,
    ensures
        ((r - p) % 256 + p) % 256 == r,
{
    let e = (r - p) % 256;
    assert(e == (r - p) - 256 * ((r - p) / 256));
    assert((e + p) % 256 == r) by {
        let k = (r - p) / 256;
        assert(e + p == r - 256 * k);
        assert((r - 256 * k) % 256 == r % 256) by {
            vstd::arithmetic::div_mod::lemma_mod_multiples_vanish(-k, r, 256);
        }
        assert(r % 256 == r);
    }
}

proof fn lemma_unfiltered_pixel_roundtrip(
    f: WEBP_FILTER_TYPE,
    prev: Option<Seq<u8>>,
    raw: Seq<u8>,
    i: int,
)
    requires
        0 <= i < raw.len(),
    ensures
        unfiltered_pixel(f, prev, filter_row_spec(f, prev, raw), i) == raw[i],
    decreases i,
{
    let enc = filter_row_spec(f, prev, raw);
    let row = Seq::new(enc.len(), |j: int| if 0 <= j < i { unfiltered_pixel(f, prev, enc, j) } else { 0u8 });
    if i > 0 {
        lemma_unfiltered_pixel_roundtrip(f, prev, raw, i - 1);
        assert(row[i - 1] == raw[i - 1]);
    }
    assert(predictor(f, prev, row, i) == predictor(f, prev, raw, i));
    let p = predictor(f, prev, raw, i);
    assert(enc[i] == filtered_pixel(f, prev, raw, i));
    lemma_mod_roundtrip(raw[i] as int, p);
    assert(unfiltered_pixel(f, prev, enc, i) == (((enc[i] + p) % 256) as u8));
}

/// Round trip: forward-filtering a row and then unfiltering it with the
/// same filter and the same previous-row context recovers the row exactly.
pub proof fn lemma_unfilter_inverts_filter(
    f: WEBP_FILTER_TYPE,
    prev: Option<Seq<u8>>,
    raw: Seq<u8>,
)
    ensures
        unfilter_row_spec(f, prev, filter_row_spec(f, prev, raw)) =~= raw,
{
    let enc = filter_row_spec(f, prev, raw);
    assert forall|i: int| 0 <= i < raw.len() implies unfilter_row_spec(f, prev, enc)[i] == raw[i] by {
        lemma_unfiltered_pixel_roundtrip(f, prev, raw, i);
    }
}

/// Reconstructs one row from its stored deltas.
///
/// `prev` is the previously reconstructed row, absent for the topmost
/// decoded row; when present it must be as long as the encoded row.
pub fn unfilter_row(f: WEBP_FILTER_TYPE, prev: Option<&Vec<u8>>, enc: &Vec<u8>) -> (out: Vec<u8>)
    requires
        prev is Some ==> prev.unwrap()@.len() == enc@.len(),
    ensures
        out@ == unfilter_row_spec(f, spec_prev(prev), enc@),
{
    let ghost gprev = spec_prev(prev);
    let width = enc.len();
    let mut out: Vec<u8> = Vec::new();
    let mut i: usize = 0;
    while i < width
        invariant
            i <= width,
            width == enc@.len(),
            out@.len() == i,
            prev is Some ==> prev.unwrap()@.len() == enc@.len(),
            gprev == spec_prev(prev),
            forall|j: int| 0 <= j < i ==> out@[j] == unfiltered_pixel(f, gprev, enc@, j),
        decreases width - i,
    {
        let pred: i32 = match f {
            WEBP_FILTER_TYPE::WEBP_FILTER_HORIZONTAL => {
                if i == 0 {
                    match prev {
                        Option::Some(p) => p[0] as i32,
                        Option::None => 0,
                    }
                } else {
                    out[i - 1] as i32
                }
            },
            WEBP_FILTER_TYPE::WEBP_FILTER_VERTICAL => {
                match prev {
                    Option::Some(p) => p[i] as i32,
                    Option::None => 0,
                }
            },
            WEBP_FILTER_TYPE::WEBP_FILTER_GRADIENT => {
                if i == 0 {
                    match prev {
                        Option::Some(p) => p[0] as i32,
                        Option::None => 0,
                    }
                } else {
                    let left = out[i - 1] as i32;
                    let (top, top_left) = match prev {
                        Option::Some(p) => (p[i] as i32, p[i - 1] as i32),
                        Option::None => (0, 0),
                    };
                    let g = left + top - top_left;
                    if g < 0 {
                        0
                    } else if g > 255 {
                        255
                    } else {
                        g
                    }
                }
            },
            _ => 0,
        };
        let ghost row = Seq::new(enc@.len(), |j: int| if 0 <= j < i { unfiltered_pixel(f, gprev, enc@, j) } else { 0u8 });
        assert(pred as int == predictor(f, gprev, row, i as int));
        let v: i32 = (enc[i] as i32 + pred) % 256;
        assert(v as u8 == unfiltered_pixel(f, gprev, enc@, i as int));
        out.push(v as u8);
        i = i + 1;
    }
    out
}

/// The previous-row argument as it appears in specifications.
pub open spec fn spec_prev(prev: Option<&Vec<u8>>) -> Option<Seq<u8>> {
    match prev {
        Option::Some(p) => Option::Some(p@),
        Option::None => Option::None,
    }
}

} // verus!
