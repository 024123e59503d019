use libwebp::alpha_dec::AlphaOutcome;
use libwebp::alpha_dec::VP8Decoder;
use libwebp::alpha_dec::WebPDeallocateAlphaMemory;
use libwebp::alpha_dec::alpha_entropy_header_done;
use libwebp::alpha_dec::alpha_entropy_rows_done;
use libwebp::alpha_dec::parse_alpha_header;
use libwebp::alpha_dec::VP8DecompressAlphaRows;
use libwebp::vp8_io::VP8Io;

fn plane(dec: &VP8Decoder) -> Vec<u8> {
    dec.alpha_plane_.clone().expect("plane should be allocated")
}

#[test]
fn parse_accepts_exactly_valid_headers() {
    for b in 0u16..256 {
        let b = b as u8;
        let method = b & 0x03;
        let filter = (b >> 2) & 0x03;
        let pre = (b >> 4) & 0x03;
        let reserved = (b >> 6) & 0x03;
        let expected = method <= 1 && filter < 4 && pre <= 2 && reserved == 0;
        let got = parse_alpha_header(b);
        assert_eq!(got.is_some(), expected, "header byte {:#04x}", b);
        if let Some(h) = got {
            assert_eq!(h.method, method as i32);
            assert_eq!(h.pre_processing, pre as i32);
        }
    }
}

#[test]
fn full_decode_of_small_raw_image() {
    // 2x2, method = raw, filter = NONE, no preprocessing
    let data = vec![0x00u8, 1, 2, 3, 4];
    let io = VP8Io::new(2, 2);
    let mut dec = VP8Decoder::new(data, 0);
    let r = VP8DecompressAlphaRows(&mut dec, &io, 0, 2);
    assert_eq!(r, AlphaOutcome::Rows { start: 0 });
    assert!(dec.is_alpha_decoded_);
    assert_eq!(plane(&dec), vec![1, 2, 3, 4]);
}

#[test]
fn truncated_raw_input_fails_cleanly() {
    // 2x2 needs 4 payload bytes; only 3 are present
    let data = vec![0x00u8, 1, 2, 3];
    let io = VP8Io::new(2, 2);
    let mut dec = VP8Decoder::new(data, 0);
    let r = VP8DecompressAlphaRows(&mut dec, &io, 0, 2);
    assert_eq!(r, AlphaOutcome::Failure);
    assert!(dec.alpha_failed_);
    assert!(dec.alpha_plane_.is_none());
    // terminal: a later request still fails
    let r2 = VP8DecompressAlphaRows(&mut dec, &io, 0, 1);
    assert_eq!(r2, AlphaOutcome::Failure);
}

#[test]
fn end_to_end_horizontal_4x4() {
    // method = raw, filter = HORIZONTAL, preprocessing = 0
    let mut data = vec![0x04u8];
    data.extend_from_slice(&[10, 0, 0, 0]); // row 0 decodes to [10, 10, 10, 10]
    data.extend_from_slice(&[0, 0, 0, 0]); // each later row copies the row above
    data.extend_from_slice(&[0, 0, 0, 0]);
    data.extend_from_slice(&[0, 0, 0, 0]);
    let io = VP8Io::new(4, 4);
    let mut dec = VP8Decoder::new(data, 0);
    let r = VP8DecompressAlphaRows(&mut dec, &io, 0, 4);
    assert_eq!(r, AlphaOutcome::Rows { start: 0 });
    assert_eq!(plane(&dec), vec![10u8; 16]);
}

#[test]
fn chunked_requests_give_identical_planes() {
    let mut data = vec![0x04u8];
    data.extend_from_slice(&[7, 3, 250, 1]);
    data.extend_from_slice(&[1, 0, 255, 2]);
    data.extend_from_slice(&[9, 9, 9, 9]);
    data.extend_from_slice(&[0, 128, 64, 32]);
    let io = VP8Io::new(4, 4);

    let mut one = VP8Decoder::new(data.clone(), 0);
    assert!(matches!(
        VP8DecompressAlphaRows(&mut one, &io, 0, 4),
        AlphaOutcome::Rows { .. }
    ));

    let mut by_row = VP8Decoder::new(data.clone(), 0);
    for row in 0..4 {
        let r = VP8DecompressAlphaRows(&mut by_row, &io, row, 1);
        assert_eq!(r, AlphaOutcome::Rows { start: row * 4 });
    }

    let mut by_two = VP8Decoder::new(data, 0);
    assert!(matches!(
        VP8DecompressAlphaRows(&mut by_two, &io, 0, 2),
        AlphaOutcome::Rows { .. }
    ));
    assert!(matches!(
        VP8DecompressAlphaRows(&mut by_two, &io, 2, 2),
        AlphaOutcome::Rows { .. }
    ));

    assert_eq!(plane(&one), plane(&by_row));
    assert_eq!(plane(&one), plane(&by_two));
}

#[test]
fn out_of_range_requests_are_rejected() {
    let data = vec![0x00u8, 1, 2, 3, 4];
    let io = VP8Io::new(2, 2);
    let mut dec = VP8Decoder::new(data, 0);
    assert_eq!(VP8DecompressAlphaRows(&mut dec, &io, 0, 0), AlphaOutcome::Failure);
    assert_eq!(VP8DecompressAlphaRows(&mut dec, &io, 2, 1), AlphaOutcome::Failure);
    assert_eq!(VP8DecompressAlphaRows(&mut dec, &io, 1, 2), AlphaOutcome::Failure);
    // the rejections did not start a decode
    assert!(dec.alph_dec_.is_none());
    assert!(!dec.alpha_failed_);
}

#[test]
fn non_contiguous_request_is_rejected_mid_decode() {
    let data = vec![0x00u8, 1, 2, 3, 4, 5, 6, 7, 8, 9];
    let io = VP8Io::new(3, 3);
    let mut dec = VP8Decoder::new(data, 0);
    assert_eq!(VP8DecompressAlphaRows(&mut dec, &io, 0, 1), AlphaOutcome::Rows { start: 0 });
    // skipping a row does not resume at the cursor
    assert_eq!(VP8DecompressAlphaRows(&mut dec, &io, 2, 1), AlphaOutcome::Failure);
    assert!(!dec.alpha_failed_);
    // the contiguous request still works
    assert_eq!(VP8DecompressAlphaRows(&mut dec, &io, 1, 2), AlphaOutcome::Rows { start: 3 });
    assert_eq!(plane(&dec), vec![1, 2, 3, 4, 5, 6, 7, 8, 9]);
}

#[test]
fn rows_can_be_reread_after_completion() {
    let data = vec![0x00u8, 1, 2, 3, 4];
    let io = VP8Io::new(2, 2);
    let mut dec = VP8Decoder::new(data, 0);
    assert_eq!(VP8DecompressAlphaRows(&mut dec, &io, 0, 2), AlphaOutcome::Rows { start: 0 });
    assert_eq!(VP8DecompressAlphaRows(&mut dec, &io, 1, 1), AlphaOutcome::Rows { start: 2 });
}

#[test]
fn deallocate_twice_is_safe() {
    let data = vec![0x00u8, 1, 2, 3, 4];
    let io = VP8Io::new(2, 2);
    let mut dec = VP8Decoder::new(data, 0);
    VP8DecompressAlphaRows(&mut dec, &io, 0, 2);
    WebPDeallocateAlphaMemory(&mut dec);
    assert!(dec.alpha_plane_.is_none());
    assert!(dec.alph_dec_.is_none());
    WebPDeallocateAlphaMemory(&mut dec);
    assert!(dec.alpha_plane_.is_none());
    assert!(dec.alph_dec_.is_none());
}

#[test]
fn entropy_path_requests_and_completes() {
    // method = entropy-compressed; the payload is opaque to the decoder
    let data = vec![0x01u8, 0xFF];
    let io = VP8Io::new(2, 2);
    let mut dec = VP8Decoder::new(data, 0);
    assert_eq!(VP8DecompressAlphaRows(&mut dec, &io, 0, 2), AlphaOutcome::NeedEntropyHeader);
    assert!(alpha_entropy_header_done(&mut dec, &io, true));
    assert_eq!(
        VP8DecompressAlphaRows(&mut dec, &io, 0, 2),
        AlphaOutcome::NeedEntropyRows { last_row: 2 }
    );
    let rows = vec![9u8, 8, 7, 6];
    assert!(alpha_entropy_rows_done(&mut dec, &io, true, &rows));
    assert_eq!(VP8DecompressAlphaRows(&mut dec, &io, 0, 2), AlphaOutcome::Rows { start: 0 });
    assert!(dec.is_alpha_decoded_);
    assert_eq!(plane(&dec), vec![9, 8, 7, 6]);
}

#[test]
fn entropy_header_failure_is_terminal() {
    let data = vec![0x01u8, 0xFF];
    let io = VP8Io::new(2, 2);
    let mut dec = VP8Decoder::new(data, 0);
    assert_eq!(VP8DecompressAlphaRows(&mut dec, &io, 0, 1), AlphaOutcome::NeedEntropyHeader);
    assert!(alpha_entropy_header_done(&mut dec, &io, false));
    assert!(dec.alpha_failed_);
    assert!(dec.alpha_plane_.is_none());
    assert_eq!(VP8DecompressAlphaRows(&mut dec, &io, 0, 1), AlphaOutcome::Failure);
}

#[test]
fn preprocessing_forces_full_decode_in_one_pass() {
    // method = raw, filter = NONE, preprocessing = 2 (dithering grade)
    let data = vec![0x20u8, 10, 20, 30, 40];
    let io = VP8Io::new(2, 2);
    // dithering disabled by the caller: the plane stays exact
    let mut dec = VP8Decoder::new(data, 0);
    let r = VP8DecompressAlphaRows(&mut dec, &io, 0, 1);
    assert_eq!(r, AlphaOutcome::Rows { start: 0 });
    // only one row was requested, yet the whole image is decoded
    assert!(dec.is_alpha_decoded_);
    assert_eq!(plane(&dec), vec![10, 20, 30, 40]);
}

#[test]
fn dithering_runs_once_on_completion() {
    let data = vec![0x20u8, 10, 20, 30, 40];
    let io = VP8Io::new(2, 2);
    let mut dec = VP8Decoder::new(data, 100);
    let r = VP8DecompressAlphaRows(&mut dec, &io, 0, 1);
    assert_eq!(r, AlphaOutcome::Rows { start: 0 });
    assert!(dec.is_alpha_decoded_);
    // full-strength dithering of [10, 20, 30, 40] with the fixed generator
    assert_eq!(plane(&dec), vec![0, 59, 0, 118]);
}

#[test]
fn preprocessing_below_dither_grade_disables_dithering() {
    let data = vec![0x00u8, 10, 20, 30, 40];
    let io = VP8Io::new(2, 2);
    let mut dec = VP8Decoder::new(data, 100);
    VP8DecompressAlphaRows(&mut dec, &io, 0, 2);
    assert_eq!(dec.alpha_dithering_, 0);
    assert_eq!(plane(&dec), vec![10, 20, 30, 40]);
}

#[test]
fn cropped_frame_decodes_to_crop_bottom() {
    // 2 wide, 3 high, delivered rows stop at crop_bottom = 2
    let data = vec![0x00u8, 1, 2, 3, 4, 5, 6];
    let mut io = VP8Io::new(2, 3);
    io.use_cropping = 1;
    io.crop_bottom = 2;
    let mut dec = VP8Decoder::new(data, 0);
    assert_eq!(VP8DecompressAlphaRows(&mut dec, &io, 0, 2), AlphaOutcome::Rows { start: 0 });
    assert!(dec.is_alpha_decoded_);
    // the plane holds only the delivered rows
    assert_eq!(plane(&dec), vec![1, 2, 3, 4]);
    // a request past the delivered height is out of range
    assert_eq!(VP8DecompressAlphaRows(&mut dec, &io, 2, 1), AlphaOutcome::Failure);
}

#[test]
fn reserved_bits_reject_the_frame() {
    let data = vec![0x40u8, 1, 2, 3, 4];
    let io = VP8Io::new(2, 2);
    let mut dec = VP8Decoder::new(data, 0);
    assert_eq!(VP8DecompressAlphaRows(&mut dec, &io, 0, 2), AlphaOutcome::Failure);
    assert!(dec.alpha_failed_);
}

#[test]
fn method_out_of_range_rejects_the_frame() {
    let data = vec![0x02u8, 1, 2, 3, 4];
    let io = VP8Io::new(2, 2);
    let mut dec = VP8Decoder::new(data, 0);
    assert_eq!(VP8DecompressAlphaRows(&mut dec, &io, 0, 2), AlphaOutcome::Failure);
    assert!(dec.alpha_failed_);
}

#[test]
fn empty_alpha_chunk_rejects_the_frame() {
    let data = vec![0x00u8];
    let io = VP8Io::new(2, 2);
    let mut dec = VP8Decoder::new(data, 0);
    assert_eq!(VP8DecompressAlphaRows(&mut dec, &io, 0, 2), AlphaOutcome::Failure);
    assert!(dec.alpha_failed_);
}
