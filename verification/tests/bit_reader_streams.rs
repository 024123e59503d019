use libwebp::bit_reader::VP8BitReader;

#[test]
fn uniform_bits_of_a_two_byte_stream() {
    let mut br = VP8BitReader::VP8InitBitReader(vec![0xAB, 0xCD]);
    assert_eq!(br.VP8GetValue(8), 172);
    assert_eq!(br.VP8GetValue(8), 37);
    // reading 16 bits of a 2-byte buffer consumes the zero extension
    assert!(br.eof_);
}

#[test]
fn exhausted_reader_returns_zero_bits_forever() {
    let mut br = VP8BitReader::VP8InitBitReader(Vec::new());
    for _ in 0..5 {
        assert_eq!(br.VP8Get(), 0);
    }
    assert!(br.eof_);
}

#[test]
fn high_nibble_bits_come_out_first() {
    let mut br = VP8BitReader::VP8InitBitReader(vec![0xF0]);
    let bits: Vec<u32> = (0..8).map(|_| br.VP8Get()).collect();
    assert_eq!(bits, vec![1, 1, 1, 1, 0, 0, 0, 0]);
    assert!(br.eof_);
}

#[test]
fn signed_values_read_magnitude_then_sign() {
    let mut br = VP8BitReader::VP8InitBitReader(vec![0x55, 0xAA]);
    assert_eq!(br.VP8GetSignedValue(4), 5);
    assert_eq!(br.VP8GetSignedValue(4), 11);
}

#[test]
fn reader_state_starts_fresh() {
    let br = VP8BitReader::VP8InitBitReader(vec![1, 2, 3]);
    assert_eq!(br.range_, 254);
    assert_eq!(br.value_, 0);
    assert_eq!(br.bits_, -8);
    assert_eq!(br.pos_, 0);
    assert!(!br.eof_);
}

#[test]
fn range_stays_in_bounds_on_adversarial_input() {
    let data: Vec<u8> = (0..64).map(|i| (i * 37 + 11) as u8).collect();
    let mut br = VP8BitReader::VP8InitBitReader(data);
    for i in 0..600 {
        let prob = ((i * 13) % 256) as u8;
        br.VP8GetBit(prob);
        assert!((127..=254).contains(&br.range_), "step {}", i);
        assert!((-8..=7).contains(&br.bits_));
    }
    assert!(br.pos_ <= 64);
}
