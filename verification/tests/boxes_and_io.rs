use libwebp::VP8StatusCode;
use libwebp::alpha_dec::VP8Decoder;
use libwebp::vp8_io::VP8Io;
use libwebp::vp8_io::alpha_io_from;
use libwebp::webpbox::WebpBox;

#[test]
fn webpbox_round_trips_its_storage() {
    let b = WebpBox::from_raw(vec![1u8, 2, 3]);
    assert_eq!(b.len(), 3);
    assert_eq!(b.get(0), 1);
    assert_eq!(b.get(2), 3);
    assert_eq!(b.as_vec(), &vec![1u8, 2, 3]);
    let v = WebpBox::into_raw(b);
    assert_eq!(v, vec![1, 2, 3]);
}

#[test]
fn webpbox_set_overwrites_in_place() {
    let mut b = WebpBox::from_raw(vec![0u8; 4]);
    b.set(2, 9);
    assert_eq!(WebpBox::into_raw(b), vec![0, 0, 9, 0]);
}

#[test]
fn io_descriptor_defaults_to_uncropped() {
    let io = VP8Io::new(640, 480);
    assert_eq!(io.width, 640);
    assert_eq!(io.height, 480);
    assert_eq!((io.crop_left, io.crop_right), (0, 640));
    assert_eq!((io.crop_top, io.crop_bottom), (0, 480));
    assert_eq!(io.use_scaling, 0);
}

#[test]
fn alpha_io_copy_drops_scaling() {
    let mut io = VP8Io::new(8, 8);
    io.use_scaling = 1;
    io.scaled_width = 4;
    io.scaled_height = 4;
    io.crop_top = 2;
    let aio = alpha_io_from(&io);
    assert_eq!(aio.use_scaling, 0);
    assert_eq!(aio.scaled_width, 0);
    assert_eq!(aio.crop_top, 2);
    assert_eq!(aio.width, 8);
}

#[test]
fn fresh_decoder_reports_ok_status() {
    let dec = VP8Decoder::new(vec![0x00, 1], 0);
    assert_eq!(dec.status_, VP8StatusCode::VP8_STATUS_OK);
    assert!(!dec.is_alpha_decoded_);
    assert!(dec.alpha_plane_.is_none());
}
