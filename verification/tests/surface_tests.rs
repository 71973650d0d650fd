use raycaster::bmp::{bmp_height, bmp_pixel, bmp_width};
use raycaster::framebuffer::{pack_argb, Framebuffer};

#[test]
fn new_surface_is_black() {
    let fb = Framebuffer::new(4, 3);
    assert_eq!(fb.width, 4);
    assert_eq!(fb.height, 3);
    assert_eq!(fb.pixels.len(), 12);
    assert!(fb.pixels.iter().all(|&p| p == 0));
}

#[test]
fn clear_paints_white() {
    let mut fb = Framebuffer::new(3, 3);
    fb.clear();
    assert!(fb.pixels.iter().all(|&p| p == 0xFFFFFFFF));
}

#[test]
fn background_and_foreground_flood_the_surface() {
    let mut fb = Framebuffer::new(2, 2);
    fb.set_background_color(0x0C0B38);
    assert!(fb.pixels.iter().all(|&p| p == 0x0C0B38));
    fb.set_foreground_color(0xEBDC7F);
    assert!(fb.pixels.iter().all(|&p| p == 0xEBDC7F));
}

#[test]
fn point_writes_inside_the_surface() {
    let mut fb = Framebuffer::new(4, 3);
    fb.point(2, 1, 0xAB);
    assert_eq!(fb.pixels[1 * 4 + 2], 0xAB);
    // Only that pixel changed.
    let changed = fb.pixels.iter().filter(|&&p| p != 0).count();
    assert_eq!(changed, 1);
}

#[test]
fn point_outside_the_surface_changes_nothing() {
    let mut fb = Framebuffer::new(4, 3);
    let before = fb.pixels.clone();
    fb.point(4, 0, 0xAB);
    fb.point(0, 3, 0xAB);
    fb.point(1000, 1000, 0xAB);
    assert_eq!(fb.pixels, before);
}

#[test]
fn draw_rect_fills_and_clips() {
    let mut fb = Framebuffer::new(4, 4);
    fb.draw_rect(2, 2, 5, 5, 0x11);
    for y in 0..4usize {
        for x in 0..4usize {
            let expect = if x >= 2 && y >= 2 { 0x11 } else { 0 };
            assert_eq!(fb.pixels[y * 4 + x], expect, "at {} {}", x, y);
        }
    }
}

#[test]
fn flip_vertical_swaps_rows() {
    let mut fb = Framebuffer::new(2, 3);
    for y in 0..3usize {
        for x in 0..2usize {
            fb.point(x, y, (y * 10 + x) as u32);
        }
    }
    fb.flip_vertical();
    for y in 0..3usize {
        for x in 0..2usize {
            assert_eq!(fb.pixels[y * 2 + x], ((2 - y) * 10 + x) as u32);
        }
    }
}

#[test]
fn polygon_fill_needs_three_vertices() {
    let mut fb = Framebuffer::new(4, 4);
    let before = fb.pixels.clone();
    fb.fill_polygon(&vec![(0, 0), (3, 3)], 0x77);
    assert_eq!(fb.pixels, before);
}

#[test]
fn polygon_fill_square_even_odd() {
    let mut fb = Framebuffer::new(8, 8);
    // An axis-aligned square from (2,2) to (6,6).
    let vs = vec![(2i64, 2i64), (6, 2), (6, 6), (2, 6)];
    fb.fill_polygon(&vs, 0x55);
    // A point well inside.
    assert_eq!(fb.pixels[4 * 8 + 4], 0x55);
    assert_eq!(fb.pixels[3 * 8 + 2], 0x55);
    // Points outside.
    assert_eq!(fb.pixels[0], 0);
    assert_eq!(fb.pixels[1 * 8 + 7], 0);
    assert_eq!(fb.pixels[7 * 8 + 4], 0);
}

#[test]
fn pack_argb_lays_out_channels() {
    assert_eq!(pack_argb(0x12, 0x34, 0x56, 0xFF), 0xFF123456);
    assert_eq!(pack_argb(0, 0, 0, 0), 0);
}

#[test]
fn bmp_round_trips_header_and_pixels() {
    let mut fb = Framebuffer::new(4, 3);
    fb.point(0, 0, 0xFF102030);
    fb.point(3, 2, 0xFFAABBCC);
    fb.point(1, 1, 0x00778899);
    let bytes = fb.bmp_bytes();
    // 54 header bytes plus three rows of 4 * 3 bytes, already a multiple
    // of four.
    assert_eq!(bytes.len(), 54 + 12 * 3);
    assert_eq!(bytes[0], 0x42);
    assert_eq!(bytes[1], 0x4D);
    assert_eq!(bmp_width(&bytes), Some(4));
    assert_eq!(bmp_height(&bytes), Some(3));
    assert_eq!(bmp_pixel(&bytes, 4, 3, 0, 0), Some(0x102030));
    assert_eq!(bmp_pixel(&bytes, 4, 3, 3, 2), Some(0xAABBCC));
    // The alpha byte is dropped by the 24-bit format.
    assert_eq!(bmp_pixel(&bytes, 4, 3, 1, 1), Some(0x778899));
    assert_eq!(bmp_pixel(&bytes, 4, 3, 2, 2), Some(0));
}

#[test]
fn bmp_rows_are_padded_and_bottom_up() {
    let mut fb = Framebuffer::new(3, 2);
    fb.point(0, 0, 0xFF0000FF);
    let bytes = fb.bmp_bytes();
    // Row size pads 9 bytes to 12.
    assert_eq!(bytes.len(), 54 + 12 * 2);
    // The top-left pixel sits in the second stored row (bottom-up):
    // blue, green, red order.
    assert_eq!(bytes[54 + 12 + 0], 0xFF);
    assert_eq!(bytes[54 + 12 + 1], 0x00);
    assert_eq!(bytes[54 + 12 + 2], 0x00);
    // Padding bytes are zero.
    assert_eq!(bytes[54 + 9], 0);
    assert_eq!(bytes[54 + 10], 0);
    assert_eq!(bytes[54 + 11], 0);
}

#[test]
fn bmp_parsers_reject_short_input() {
    let short = vec![0u8; 10];
    assert_eq!(bmp_width(&short), None);
    assert_eq!(bmp_height(&short), None);
}
