use raycaster::grid::{parse_maze, Cell, Grid};
use raycaster::raycaster::{cast_dir, cast_ray, Intersect, MAX_DEPTH};

fn grid(lines: &[&str]) -> Grid {
    let rows: Vec<Vec<char>> = lines.iter().map(|l| l.chars().collect()).collect();
    parse_maze(&rows).unwrap()
}

/// A 5x5 grid with a walled border and a 3x3 open interior.
fn bordered() -> Grid {
    grid(&["+++++", "+   +", "+   +", "+   +", "+++++"])
}

#[test]
fn all_open_grid_reports_no_hit_at_max_depth() {
    let g = grid(&["   ", "   ", "   "]);
    // Rays in many directions from a point strictly inside.
    let mut a: i64 = 0;
    while a < 65536 {
        let it = cast_ray(&g, 1_500_000, 1_500_000, a);
        assert_eq!(it.distance, MAX_DEPTH);
        assert_eq!(it.wall_type, Cell::Open);
        assert_eq!(it.hit_x, 0);
        a += 1024;
    }
}

#[test]
fn ray_into_adjacent_wall_is_within_one_step() {
    let g = grid(&["+++", "+ +", "+++"]);
    // From the center of the single open cell, due east: the wall boundary
    // is half a cell away.
    let east = cast_dir(&g, 1_500_000, 1_500_000, 1000, 0);
    assert_eq!(east.wall_type, Cell::WallCorner);
    assert!(500_000 <= east.distance && east.distance < 510_000);
    // Due west.
    let west = cast_dir(&g, 1_500_000, 1_500_000, -1000, 0);
    assert_eq!(west.wall_type, Cell::WallCorner);
    assert!(500_000 < west.distance && west.distance <= 510_000);
    // Due south (larger row index).
    let south = cast_dir(&g, 1_500_000, 1_500_000, 0, 1000);
    assert!(500_000 <= south.distance && south.distance < 510_000);
    // Due north.
    let north = cast_dir(&g, 1_500_000, 1_500_000, 0, -1000);
    assert!(500_000 < north.distance && north.distance <= 510_000);
}

#[test]
fn ray_reports_hit_offset_within_cell() {
    let g = grid(&["+++", "+ +", "+++"]);
    let it = cast_dir(&g, 1_250_000, 1_500_000, 1000, 0);
    assert_eq!(it.wall_type, Cell::WallCorner);
    assert!(0 <= it.hit_x && it.hit_x < 1_000_000);
}

#[test]
fn origin_inside_wall_hits_at_distance_zero() {
    let g = bordered();
    let it = cast_ray(&g, 500_000, 500_000, 0);
    assert_eq!(it.distance, 0);
    assert_eq!(it.wall_type, Cell::WallCorner);
    assert_eq!(it.hit_x, 500_000);
}

#[test]
fn origin_outside_grid_misses_immediately() {
    let g = bordered();
    let it = cast_ray(&g, -1_000_000, 500_000, 0);
    assert_eq!(it.distance, MAX_DEPTH);
    assert_eq!(it.wall_type, Cell::Open);
    let it2 = cast_ray(&g, 500_000, 99_000_000, 0);
    assert_eq!(it2.wall_type, Cell::Open);
}

#[test]
fn intersect_is_a_plain_value() {
    let a = Intersect { distance: 7, wall_type: Cell::WallVertical, hit_x: 3 };
    let b = a;
    assert_eq!(a, b);
}

#[test]
fn bordered_room_columns_hit_near_analytic_distance() {
    // A 3x3 open room with a walled border, the camera at its center
    // facing angle zero with a 60-degree field of view over 90 columns:
    // every column must hit, at roughly the analytic distance to the
    // nearest bordering wall along its ray.
    let g = bordered();
    let width: i64 = 90;
    let fov: i64 = 10922;
    let px: i64 = 2_500_000;
    let py: i64 = 2_500_000;
    for i in 0..width {
        let mut a = 0 - fov / 2 + (i * fov) / width;
        if a < 0 {
            a += 65536;
        }
        let it = cast_ray(&g, px, py, a);
        assert_ne!(it.wall_type, Cell::Open, "column {} missed", i);
        // Analytic distance from the room center to the wall boundary.
        let t = (a as f64) / 65536.0 * std::f64::consts::TAU;
        let denom = t.cos().abs().max(t.sin().abs());
        let analytic = 1.5e6 / denom;
        let measured = it.distance as f64;
        let err = (measured - analytic).abs();
        assert!(
            err <= analytic * 0.2 + 20_000.0,
            "column {}: measured {} analytic {}",
            i,
            measured,
            analytic
        );
    }
}
