use wesfu::{
    frames_side_by_side_to_string, luma_to_nibble, pack_gray, render_frames_to_string,
    sender_datagram, unpack_nibbles, AsciiConverter, HEIGHT, WIDTH,
};

#[test]
fn nibble_pack_top_left_pixels() {
    let packed = pack_gray(&[0, 17, 255, 255], 4, 1);
    assert_eq!(packed, vec![0xFF, 0x10]);
}

#[test]
fn luma_rounds_to_nearest_nibble() {
    assert_eq!(luma_to_nibble(0), 0);
    assert_eq!(luma_to_nibble(8), 0);
    assert_eq!(luma_to_nibble(9), 1);
    assert_eq!(luma_to_nibble(17), 1);
    assert_eq!(luma_to_nibble(128), 8);
    assert_eq!(luma_to_nibble(255), 15);
}

#[test]
fn odd_width_pads_low_nibble() {
    let packed = pack_gray(&[255, 0, 34, 17, 17, 17], 3, 2);
    assert_eq!(packed, vec![0x20, 0xF0, 0x11, 0x10]);
}

#[test]
fn full_frame_size() {
    let pixels = vec![200u8; WIDTH * HEIGHT];
    let packed = pack_gray(&pixels, WIDTH, HEIGHT);
    assert_eq!(packed.len(), 1288);
    assert!(packed.iter().all(|b| *b == 0xCC));
}

#[test]
fn unpack_pack_is_mirrored_quantized() {
    let w = 6;
    let h = 3;
    let pixels: Vec<u8> = (0..w * h).map(|i| (i * 13 % 256) as u8).collect();
    let unpacked = unpack_nibbles(&pack_gray(&pixels, w, h));
    assert_eq!(unpacked.len(), w * h);
    for y in 0..h {
        for x in 0..w {
            assert_eq!(unpacked[y * w + x], luma_to_nibble(pixels[y * w + (w - 1 - x)]));
        }
    }
}

#[test]
fn unpack_splits_high_then_low() {
    assert_eq!(unpack_nibbles(&[0xA5, 0x0F]), vec![0x0A, 0x05, 0x00, 0x0F]);
    assert_eq!(unpack_nibbles(&[]), Vec::<u8>::new());
}

#[test]
fn nibbles_to_ascii_full_size_uses_ramp() {
    let mut packed = vec![0u8; WIDTH * HEIGHT / 2];
    packed[0] = 0xF9;
    let art = AsciiConverter::nibbles_to_ascii(&packed, 2, 1);
    // x = 0 samples column 0; x = 1 samples round(1 * 92 / 2) = 46.
    assert_eq!(art, "@ \n");
    let art2 = AsciiConverter::nibbles_to_ascii(&packed, 92, 1);
    assert!(art2.starts_with("@+ "));
    assert_eq!(art2.chars().count(), 93);
}

#[test]
fn nibbles_to_ascii_short_buffer_reads_zero() {
    let art = AsciiConverter::nibbles_to_ascii(&[], 3, 2);
    assert_eq!(art, "   \n   \n");
}

#[test]
fn nibbles_to_ascii_empty_view() {
    assert_eq!(AsciiConverter::nibbles_to_ascii(&[0xFF], 0, 0), "");
    assert_eq!(AsciiConverter::nibbles_to_ascii(&[0xFF], 0, 2), "\n\n");
}

#[test]
fn side_by_side_pads_shorter() {
    assert_eq!(frames_side_by_side_to_string("ab\ncd\n", "x\n"), "ab  x\ncd  ");
    assert_eq!(frames_side_by_side_to_string("", ""), "");
    assert_eq!(frames_side_by_side_to_string("a\r\nb", "c"), "a  c\nb  ");
    assert_eq!(frames_side_by_side_to_string("a\r", ""), "a\r  ");
    assert_eq!(frames_side_by_side_to_string("x\n\r\ny\r", "z\n"), "x  z\n  \ny\r  ");
}

#[test]
fn render_single_frame_fills_view() {
    let frame = vec![0xFFu8; WIDTH * HEIGHT / 2];
    assert_eq!(render_frames_to_string(vec![frame], 3, 2), "@@@\n@@@\n");
}

#[test]
fn render_two_frames_wide_is_side_by_side() {
    let a = vec![0xFFu8; WIDTH * HEIGHT / 2];
    let b = vec![0x00u8; WIDTH * HEIGHT / 2];
    // width 7 * 0.38 >= 2: side by side, each (7 - 1) / 2 = 3 wide.
    assert_eq!(render_frames_to_string(vec![a, b], 7, 2), "@@@     \n@@@     ");
}

#[test]
fn render_two_frames_narrow_is_stacked() {
    let a = vec![0xFFu8; WIDTH * HEIGHT / 2];
    let b = vec![0x00u8; WIDTH * HEIGHT / 2];
    // width 2 * 0.38 < 5: stacked, each (5 - 1) / 2 = 2 high.
    assert_eq!(render_frames_to_string(vec![a, b], 2, 5), "@@\n@@\n\n  \n  \n");
}

#[test]
fn render_three_frames_is_grid() {
    let a = vec![0xFFu8; WIDTH * HEIGHT / 2];
    let b = vec![0x00u8; WIDTH * HEIGHT / 2];
    let c = vec![0x11u8; WIDTH * HEIGHT / 2];
    // two rows; each frame (6 - 2) / 2 = 2 wide and (3 - 2 + 1) / 2 = 1 high.
    assert_eq!(render_frames_to_string(vec![a, b, c], 6, 3), "@@    \n\n..\n");
}

#[test]
fn render_nothing() {
    assert_eq!(render_frames_to_string(vec![], 10, 10), "");
}

#[test]
fn sender_datagram_prefixes_sid() {
    assert_eq!(sender_datagram(9, &[1, 2, 3]), vec![9, 1, 2, 3]);
}
