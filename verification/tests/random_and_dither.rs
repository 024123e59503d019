use libwebp::quant_levels::WebPDequantizeLevels;
use libwebp::random_utils::VP8InitRandom;
use libwebp::random_utils::VP8Random;
use libwebp::random_utils::VP8RandomBits;
use libwebp::random_utils::VP8RandomBits2;

fn fresh(dithering: i32) -> VP8Random {
    let mut rg = VP8Random { index1_: 0, index2_: 0, tab_: Vec::new(), amp_: 0 };
    VP8InitRandom(&mut rg, dithering);
    rg
}

#[test]
fn init_seeds_the_fixed_table() {
    let rg = fresh(100);
    assert_eq!(rg.tab_.len(), 55);
    assert_eq!(rg.tab_[0], 0x0de15230);
    assert_eq!(rg.tab_[54], 0x27e5ed3c);
    assert_eq!(rg.index1_, 0);
    assert_eq!(rg.index2_, 31);
    assert_eq!(rg.amp_, 256);
}

#[test]
fn init_clamps_the_amplitude() {
    assert_eq!(fresh(-5).amp_, 0);
    assert_eq!(fresh(0).amp_, 0);
    assert_eq!(fresh(50).amp_, 128);
    assert_eq!(fresh(101).amp_, 256);
}

#[test]
fn first_draws_at_full_amplitude() {
    let mut rg = fresh(100);
    let draws: Vec<i32> = (0..4).map(|_| VP8RandomBits2(&mut rg, 8, 256)).collect();
    assert_eq!(draws, vec![78, 167, 21, 206]);
}

#[test]
fn stored_amplitude_scales_the_draw() {
    let mut rg = fresh(50);
    assert_eq!(VP8RandomBits(&mut rg, 8), 103);
    let mut rg0 = fresh(0);
    // zero amplitude always yields the centering constant
    assert_eq!(VP8RandomBits(&mut rg0, 8), 128);
    assert_eq!(VP8RandomBits(&mut rg0, 8), 128);
}

#[test]
fn dequantize_at_zero_strength_is_identity() {
    let mut data = vec![10u8, 20, 30, 40];
    assert!(WebPDequantizeLevels(&mut data, 0, 2, 2, 2, 0));
    assert_eq!(data, vec![10, 20, 30, 40]);
}

#[test]
fn dequantize_at_full_strength_matches_the_generator() {
    let mut data = vec![10u8, 20, 30, 40];
    assert!(WebPDequantizeLevels(&mut data, 0, 2, 2, 2, 100));
    assert_eq!(data, vec![0, 59, 0, 118]);
}

#[test]
fn dequantize_touches_only_the_rectangle() {
    let mut data: Vec<u8> = (0..16).map(|i| i * 10).collect();
    // 2x2 rectangle at (1, 1) of a 4-wide plane
    assert!(WebPDequantizeLevels(&mut data, 5, 2, 2, 4, 100));
    assert_eq!(
        data,
        vec![0, 10, 20, 30, 40, 0, 99, 70, 80, 0, 178, 110, 120, 130, 140, 150]
    );
}

#[test]
fn dequantize_rejects_invalid_parameters() {
    let mut data = vec![10u8, 20, 30, 40];
    let orig = data.clone();
    assert!(!WebPDequantizeLevels(&mut data, 0, 0, 2, 2, 100));
    assert!(!WebPDequantizeLevels(&mut data, 0, 2, 0, 2, 100));
    assert!(!WebPDequantizeLevels(&mut data, 0, 3, 1, 2, 100));
    assert!(!WebPDequantizeLevels(&mut data, 0, 2, 2, 2, 101));
    assert!(!WebPDequantizeLevels(&mut data, 0, 2, 2, 2, -1));
    assert!(!WebPDequantizeLevels(&mut data, 2, 2, 2, 2, 100));
    assert_eq!(data, orig);
}
