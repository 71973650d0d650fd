use raycaster::button::Button;
use raycaster::font::draw_char;
use raycaster::framebuffer::Framebuffer;
use raycaster::grid::parse_maze;
use raycaster::player::Player;
use raycaster::render::{render_frame, render_image, render_maze, wall_height};
use raycaster::sprite::Point3;

fn grid(lines: &[&str]) -> raycaster::grid::Grid {
    let rows: Vec<Vec<char>> = lines.iter().map(|l| l.chars().collect()).collect();
    parse_maze(&rows).unwrap()
}

#[test]
fn wall_height_exact_values() {
    // Surface height over distance in cells.
    assert_eq!(wall_height(600, 3_000_000), 200);
    assert_eq!(wall_height(600, 30_000_000), 20);
    // The distance floor keeps a touching wall at full height.
    assert_eq!(wall_height(600, 0), 600);
    assert_eq!(wall_height(600, 50_000), 600);
    // Far hits clamp up to one pixel.
    assert_eq!(wall_height(10, 30_000_000), 1);
}

#[test]
fn wall_height_never_grows_with_distance() {
    let mut prev = wall_height(600, 100_000);
    let mut d: i64 = 100_000;
    while d <= 30_000_000 {
        let h = wall_height(600, d);
        assert!(h <= prev, "height grew at distance {}", d);
        prev = h;
        d += 70_001;
    }
}

#[test]
fn render_image_copies_and_clips() {
    let mut fb = Framebuffer::new(4, 4);
    let img = vec![1u32, 2, 3, 4];
    render_image(&mut fb, &img, 2, 2, 3, 3);
    // Only the overlapping top-left source pixel lands.
    assert_eq!(fb.pixels[3 * 4 + 3], 1);
    let changed = fb.pixels.iter().filter(|&&p| p != 0).count();
    assert_eq!(changed, 1);
}

#[test]
fn render_image_ignores_missing_source_pixels() {
    let mut fb = Framebuffer::new(4, 4);
    // The source claims 2x2 but holds only three pixels.
    let img = vec![7u32, 8, 9];
    render_image(&mut fb, &img, 2, 2, 0, 0);
    assert_eq!(fb.pixels[0], 7);
    assert_eq!(fb.pixels[1], 8);
    assert_eq!(fb.pixels[4], 9);
    assert_eq!(fb.pixels[5], 0);
}

#[test]
fn render_fov_draws_a_centered_textured_slice() {
    let g = grid(&["+++", "+ +", "+++"]);
    let p = Player::new(1_500_000, 1_500_000, 0, 10922);
    let mut fb = Framebuffer::new(4, 10);
    fb.set_background_color(0x1111);
    let tex = vec![0xFFABCDEF];
    fb.render_fov(&g, &p, &tex, 1, 1);
    // Every column hits at about half a cell, so the clamped slice covers
    // the whole column height; the center row must show the texel.
    for x in 0..4usize {
        assert_eq!(fb.pixels[5 * 4 + x], 0xFFABCDEF, "column {}", x);
    }
}

#[test]
fn render_fov_leaves_misses_untouched() {
    let g = grid(&["   ", "   ", "   "]);
    let p = Player::new(1_500_000, 1_500_000, 0, 10922);
    let mut fb = Framebuffer::new(4, 10);
    fb.set_background_color(0x2222);
    let tex = vec![0xFFABCDEF];
    fb.render_fov(&g, &p, &tex, 1, 1);
    assert!(fb.pixels.iter().all(|&p| p == 0x2222));
}

#[test]
fn render_maze_draws_cell_blocks_and_markers() {
    let g = grid(&["+g", " p"]);
    let mut fb = Framebuffer::new(8, 8);
    let cats: Vec<Point3> = Vec::new();
    let img: Vec<u32> = Vec::new();
    render_maze(&mut fb, &g, 2, &cats, &img, 1, 1);
    // Wall cell block.
    assert_eq!(fb.pixels[0], 0xFF000000);
    assert_eq!(fb.pixels[1 * 8 + 1], 0xFF000000);
    // Goal block.
    assert_eq!(fb.pixels[0 * 8 + 2], 0xFFFF0000);
    // Open block.
    assert_eq!(fb.pixels[2 * 8 + 0], 0xFFFFFFFF);
    // Spawn block.
    assert_eq!(fb.pixels[3 * 8 + 3], 0xFF00FF00);
    // Outside the map region nothing changed.
    assert_eq!(fb.pixels[5 * 8 + 5], 0);
}

#[test]
fn full_frame_has_sky_walls_ground_and_minimap() {
    let g = grid(&["+++++", "+   +", "+   +", "+   +", "+++++"]);
    let p = Player::new(2_500_000, 2_500_000, 0, 10922);
    let mut fb = Framebuffer::new(60, 60);
    let tex = vec![0xFFABCDEF];
    let cats = vec![Point3::new(1_200_000, 1_200_000, 0)];
    let img = vec![0xFF0000FFu32];
    render_frame(&mut fb, &g, &p, 4, &cats, &tex, 1, 1, &img, 1, 1);
    // Hits land at 1.5 to a little over 2 cells, so slices span at most
    // rows 10 to 50: above them the sky band shows, below them, from row
    // 60/2 + 27 = 57 on, the ground band.
    assert_eq!(fb.pixels[2 * 60 + 5], 0xFF8ECAE6);
    assert_eq!(fb.pixels[58 * 60 + 5], 0xFF606C38);
    // Every slice covers the middle row with the wall texel.
    assert_eq!(fb.pixels[30 * 60 + 5], 0xFFABCDEF);
    // The minimap sits in the top-right corner: its top-left cell is a
    // wall, drawn black.  The map is 20 wide with a 10 pixel margin.
    let ox = 60 - 20 - 10;
    assert_eq!(fb.pixels[10 * 60 + ox], 0xFF000000);
    // The player marker at the scaled camera position.
    assert_eq!(fb.pixels[(10 + 10) * 60 + ox + 10], 0xFF00FF00);
    // The anchor dot: one quarter-cell block at its scaled position.
    assert_eq!(fb.pixels[(10 + 4) * 60 + ox + 4], 0xFFFF00FF);
}

#[test]
fn draw_char_renders_the_font_and_skips_others() {
    let mut fb = Framebuffer::new(8, 8);
    draw_char(&mut fb, 1, 1, 'A', 0x99);
    // Top row of 'A' is 00100: only the middle column is set.
    assert_eq!(fb.pixels[1 * 8 + 3], 0x99);
    assert_eq!(fb.pixels[1 * 8 + 2], 0);
    // Bottom row of 'A' is 10001.
    assert_eq!(fb.pixels[5 * 8 + 1], 0x99);
    assert_eq!(fb.pixels[5 * 8 + 5], 0x99);
    assert_eq!(fb.pixels[5 * 8 + 3], 0);
    let before = fb.pixels.clone();
    draw_char(&mut fb, 1, 1, 'C', 0x99);
    assert_eq!(fb.pixels, before);
}

#[test]
fn button_draws_background_and_centered_label() {
    let mut fb = Framebuffer::new(30, 20);
    let b = Button::new(2, 2, 20, 9, "A");
    b.draw(&mut fb);
    assert_eq!(b.is_selected, false);
    assert_eq!(b.text, "A");
    // Unselected: gray background, white text.
    assert_eq!(fb.pixels[3 * 30 + 3], 0xFF808080);
    // Label origin: x + (20 - 6)/2 = 9, y + (9 - 7)/2 = 3; the top row
    // of 'A' sets only its middle column.
    assert_eq!(fb.pixels[3 * 30 + 11], 0xFFFFFFFF);
    // Outside the button nothing changed.
    assert_eq!(fb.pixels[0], 0);
    // Selected: white background, black text.
    let mut sel = Button::new(2, 2, 20, 9, "B");
    sel.is_selected = true;
    let mut fb2 = Framebuffer::new(30, 20);
    sel.draw(&mut fb2);
    assert_eq!(fb2.pixels[3 * 30 + 3], 0xFFFFFFFF);
    // Top row of 'B' is 11110: its first column is set.
    assert_eq!(fb2.pixels[3 * 30 + 9], 0xFF000000);
}
