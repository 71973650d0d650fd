use raycaster::framebuffer::Framebuffer;
use raycaster::grid::parse_maze;
use raycaster::player::Player;
use raycaster::sprite::{check_cat_collisions, project_to_2d, render_cat_in_3d, Point3};

fn grid(lines: &[&str]) -> raycaster::grid::Grid {
    let rows: Vec<Vec<char>> = lines.iter().map(|l| l.chars().collect()).collect();
    parse_maze(&rows).unwrap()
}

#[test]
fn projection_rejects_anchors_outside_the_field_of_view() {
    let p = Player::new(0, 0, 0, 10922);
    // Directly behind the camera.
    assert_eq!(project_to_2d(&Point3::new(-1_000_000, 0, 0), &p, 600, 600), None);
    // Well off to the side: bearing a quarter turn from the facing angle.
    assert_eq!(project_to_2d(&Point3::new(0, 2_000_000, 0), &p, 600, 600), None);
}

#[test]
fn projection_centers_an_anchor_straight_ahead() {
    let p = Player::new(0, 0, 0, 10922);
    let r = project_to_2d(&Point3::new(1_000_000, 0, 0), &p, 600, 400);
    let (sx, sy, scale) = r.unwrap();
    assert_eq!(sx, 300);
    assert_eq!(sy, 200);
    // One cell away: the raw inverse scale is clamped at 2.0.
    assert_eq!(scale, 2000);
}

#[test]
fn projection_scale_falls_with_distance() {
    let p = Player::new(0, 0, 0, 10922);
    let near = project_to_2d(&Point3::new(400_000_000, 0, 0), &p, 600, 400).unwrap();
    // 400 cells away: scale is exactly 1.0 in thousandths.
    assert_eq!(near.2, 1000);
    let far = project_to_2d(&Point3::new(800_000_000, 0, 0), &p, 600, 400).unwrap();
    assert_eq!(far.2, 500);
}

#[test]
fn occluded_sprite_never_touches_the_surface() {
    // A wall stands between the camera and the anchor along its bearing.
    let g = grid(&["++++++", "+ +  +", "++++++"]);
    let p = Player::new(1_500_000, 1_500_000, 0, 10922);
    let cat = Point3::new(4_500_000, 1_500_000, 0);
    let mut fb = Framebuffer::new(40, 40);
    fb.set_background_color(0x1234);
    let before = fb.pixels.clone();
    let img = vec![0xFF00FF00u32; 4];
    render_cat_in_3d(&mut fb, &img, 2, 2, &cat, &p, &g);
    assert_eq!(fb.pixels, before);
}

#[test]
fn visible_sprite_is_blitted_centered() {
    let g = grid(&["++++++", "+    +", "++++++"]);
    let p = Player::new(1_500_000, 1_500_000, 0, 10922);
    let cat = Point3::new(3_500_000, 1_500_000, 0);
    let mut fb = Framebuffer::new(40, 40);
    let img = vec![0xFF00FF00u32; 4];
    render_cat_in_3d(&mut fb, &img, 2, 2, &cat, &p, &g);
    // Two cells away: scale = min(400/2, 2) = 2, halved to 1, so the 2x2
    // bitmap lands as 2x2 centered at (20, 20).
    assert_eq!(fb.pixels[20 * 40 + 20], 0xFF00FF00);
    let changed = fb.pixels.iter().filter(|&&c| c != 0).count();
    assert_eq!(changed, 4);
}

#[test]
fn transparent_texels_are_skipped() {
    let g = grid(&["++++++", "+    +", "++++++"]);
    let p = Player::new(1_500_000, 1_500_000, 0, 10922);
    let cat = Point3::new(3_500_000, 1_500_000, 0);
    let mut fb = Framebuffer::new(40, 40);
    // Alpha zero everywhere: nothing may change.
    let before = fb.pixels.clone();
    let img = vec![0x0000FF00u32; 4];
    render_cat_in_3d(&mut fb, &img, 2, 2, &cat, &p, &g);
    assert_eq!(fb.pixels, before);
}

#[test]
fn cat_collisions_use_half_a_cell_on_both_axes() {
    let p = Player::new(1_500_000, 1_500_000, 0, 10922);
    let near = vec![Point3::new(1_900_000, 1_200_000, 0)];
    assert!(check_cat_collisions(&p, &near));
    let far_x = vec![Point3::new(2_100_000, 1_500_000, 0)];
    assert!(!check_cat_collisions(&p, &far_x));
    let none: Vec<Point3> = Vec::new();
    assert!(!check_cat_collisions(&p, &none));
}
