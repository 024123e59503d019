use libwebp::dsp::WEBP_FILTER_TYPE;
use libwebp::filters::unfilter_row;

fn clip(v: i32) -> i32 {
    if v < 0 {
        0
    } else if v > 255 {
        255
    } else {
        v
    }
}

/// The forward (encoding) transform, pixel by pixel, as the format defines
/// it: each output is the raw pixel minus its prediction, modulo 256.
fn filter_row(f: WEBP_FILTER_TYPE, prev: Option<&[u8]>, raw: &[u8]) -> Vec<u8> {
    let mut out = Vec::new();
    for i in 0..raw.len() {
        let above = |j: usize| prev.map(|p| p[j] as i32).unwrap_or(0);
        let pred: i32 = match f {
            WEBP_FILTER_TYPE::WEBP_FILTER_HORIZONTAL => {
                if i == 0 {
                    above(0)
                } else {
                    raw[i - 1] as i32
                }
            }
            WEBP_FILTER_TYPE::WEBP_FILTER_VERTICAL => above(i),
            WEBP_FILTER_TYPE::WEBP_FILTER_GRADIENT => {
                if i == 0 {
                    above(0)
                } else {
                    clip(raw[i - 1] as i32 + above(i) - above(i - 1))
                }
            }
            _ => 0,
        };
        out.push((raw[i] as i32 - pred).rem_euclid(256) as u8);
    }
    out
}

fn roundtrip(f: WEBP_FILTER_TYPE, prev: Option<&[u8]>, raw: &[u8]) {
    let enc = filter_row(f, prev, raw);
    let prev_vec = prev.map(|p| p.to_vec());
    let enc_vec = enc.clone();
    let dec = unfilter_row(f, prev_vec.as_ref(), &enc_vec);
    assert_eq!(dec, raw.to_vec(), "filter {:?} prev {:?}", f, prev);
}

#[test]
fn filtering_then_unfiltering_is_identity() {
    let raw = [3u8, 200, 50, 255, 0, 128, 1];
    let prev = [7u8, 100, 255, 0, 42, 9, 250];
    let filters = [
        WEBP_FILTER_TYPE::WEBP_FILTER_NONE,
        WEBP_FILTER_TYPE::WEBP_FILTER_HORIZONTAL,
        WEBP_FILTER_TYPE::WEBP_FILTER_VERTICAL,
        WEBP_FILTER_TYPE::WEBP_FILTER_GRADIENT,
    ];
    for f in filters {
        roundtrip(f, None, &raw);
        roundtrip(f, Some(&prev), &raw);
    }
}

#[test]
fn horizontal_unfilter_accumulates() {
    let enc = vec![10u8, 0, 0, 0];
    let out = unfilter_row(WEBP_FILTER_TYPE::WEBP_FILTER_HORIZONTAL, None, &enc);
    assert_eq!(out, vec![10, 10, 10, 10]);
    let prev = vec![5u8, 1, 1, 1];
    let out2 = unfilter_row(WEBP_FILTER_TYPE::WEBP_FILTER_HORIZONTAL, Some(&prev), &enc);
    // the first pixel adds the pixel directly above it
    assert_eq!(out2, vec![15, 15, 15, 15]);
}

#[test]
fn vertical_unfilter_adds_the_row_above() {
    let enc = vec![1u8, 2, 3, 250];
    let prev = vec![10u8, 20, 30, 40];
    let out = unfilter_row(WEBP_FILTER_TYPE::WEBP_FILTER_VERTICAL, Some(&prev), &enc);
    assert_eq!(out, vec![11, 22, 33, (250u32 + 40) as u8]);
    // without a row above, the deltas pass through unchanged
    let out0 = unfilter_row(WEBP_FILTER_TYPE::WEBP_FILTER_VERTICAL, None, &enc);
    assert_eq!(out0, enc);
}

#[test]
fn gradient_unfilter_clamps_its_predictor() {
    let prev = vec![200u8, 10];
    // pixel 1: predictor clamp(out[0] + prev[1] - prev[0]) with a negative
    // unclamped value
    let enc = vec![0u8, 5];
    let out = unfilter_row(WEBP_FILTER_TYPE::WEBP_FILTER_GRADIENT, Some(&prev), &enc);
    // out[0] = 0 + 200 = 200; predictor = clamp(200 + 10 - 200) = 10
    assert_eq!(out, vec![200, 15]);
    let prev_hi = vec![10u8, 250];
    let enc_hi = vec![245u8, 3];
    let out_hi = unfilter_row(WEBP_FILTER_TYPE::WEBP_FILTER_GRADIENT, Some(&prev_hi), &enc_hi);
    // out[0] = 245 + 10 = 255; predictor = clamp(255 + 250 - 10) = 255
    assert_eq!(out_hi, vec![255, 2]);
}

#[test]
fn filter_type_tags_decode_in_order() {
    assert_eq!(WEBP_FILTER_TYPE::new(0), WEBP_FILTER_TYPE::WEBP_FILTER_NONE);
    assert_eq!(WEBP_FILTER_TYPE::new(1), WEBP_FILTER_TYPE::WEBP_FILTER_HORIZONTAL);
    assert_eq!(WEBP_FILTER_TYPE::new(2), WEBP_FILTER_TYPE::WEBP_FILTER_VERTICAL);
    assert_eq!(WEBP_FILTER_TYPE::new(3), WEBP_FILTER_TYPE::WEBP_FILTER_GRADIENT);
    assert_eq!(WEBP_FILTER_TYPE::default(), WEBP_FILTER_TYPE::WEBP_FILTER_NONE);
}
