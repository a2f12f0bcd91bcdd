use tango::backend::{MelonDs, SCREEN_HEIGHT, SCREEN_WIDTH};

#[test]
fn bgra_words_paint_as_opaque_rgba_bytes() {
    let out = MelonDs::frame_rgba(&[0x11223344], &[0xAABBCCDD, 0x00000000]);
    assert_eq!(out, vec![0x22, 0x33, 0x44, 0xff, 0xBB, 0xCC, 0xDD, 0xff, 0, 0, 0, 0xff]);
}

#[test]
fn a_full_frame_is_four_bytes_a_pixel_of_both_screens() {
    let screen = vec![0u32; SCREEN_WIDTH * SCREEN_HEIGHT];
    let out = MelonDs::frame_rgba(&screen, &screen);
    assert_eq!(out.len(), 2 * 4 * 256 * 192);
    assert!(out.chunks(4).all(|p| p == [0, 0, 0, 0xff]));
}
