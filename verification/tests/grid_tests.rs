use raycaster::grid::{
    count_collectibles, is_colliding_with_wall, is_wall, is_within_wall, parse_maze, Cell,
    MazeError,
};

fn rows(lines: &[&str]) -> Vec<Vec<char>> {
    lines.iter().map(|l| l.chars().collect()).collect()
}

#[test]
fn parse_maze_classifies_symbols() {
    let g = parse_maze(&rows(&["+-+", "|pb", "+g+"])).unwrap();
    assert_eq!(g.height(), 3);
    assert_eq!(g.width(), 3);
    assert_eq!(g.at(0, 0), Cell::WallCorner);
    assert_eq!(g.at(0, 1), Cell::WallHorizontal);
    assert_eq!(g.at(1, 0), Cell::WallVertical);
    assert_eq!(g.at(1, 1), Cell::Spawn);
    assert_eq!(g.at(1, 2), Cell::Collectible);
    assert_eq!(g.at(2, 1), Cell::Goal);
    assert_eq!(g.at(2, 2), Cell::WallCorner);
}

#[test]
fn parse_maze_open_for_unknown_symbols() {
    let g = parse_maze(&rows(&["x ?"])).unwrap();
    assert_eq!(g.at(0, 0), Cell::Open);
    assert_eq!(g.at(0, 1), Cell::Open);
    assert_eq!(g.at(0, 2), Cell::Open);
}

#[test]
fn parse_maze_rejects_empty() {
    assert_eq!(parse_maze(&Vec::new()).unwrap_err(), MazeError::Empty);
    assert_eq!(parse_maze(&rows(&[""])).unwrap_err(), MazeError::Empty);
}

#[test]
fn parse_maze_rejects_non_rectangular() {
    assert_eq!(
        parse_maze(&rows(&["+++", "++"])).unwrap_err(),
        MazeError::NonRectangular
    );
}

#[test]
fn parse_maze_rejects_oversized() {
    let row: Vec<char> = std::iter::repeat('+').take(1001).collect();
    assert_eq!(parse_maze(&vec![row]).unwrap_err(), MazeError::TooLarge);
    let tall: Vec<Vec<char>> = std::iter::repeat(vec!['+']).take(1001).collect();
    assert_eq!(parse_maze(&tall).unwrap_err(), MazeError::TooLarge);
}

#[test]
fn count_collectibles_counts_markers() {
    let g = parse_maze(&rows(&["b b", " b ", "+++"])).unwrap();
    assert_eq!(count_collectibles(&g), 3);
    let none = parse_maze(&rows(&["+ +"])).unwrap();
    assert_eq!(count_collectibles(&none), 0);
}

#[test]
fn within_wall_counts_markers_and_outside() {
    let g = parse_maze(&rows(&["+g ", "   "])).unwrap();
    // Inside the corner-wall cell.
    assert!(is_within_wall(&g, 500_000, 500_000));
    // The goal marker is not open floor either.
    assert!(is_within_wall(&g, 1_500_000, 500_000));
    // Open floor.
    assert!(!is_within_wall(&g, 2_500_000, 500_000));
    // Out of the grid on every side.
    assert!(is_within_wall(&g, -1, 500_000));
    assert!(is_within_wall(&g, 500_000, 2_000_000));
}

#[test]
fn is_wall_only_matches_corner_walls() {
    let g = parse_maze(&rows(&["+-"])).unwrap();
    assert!(is_wall(&g, 500_000, 500_000));
    assert!(!is_wall(&g, 1_500_000, 500_000));
    assert!(is_wall(&g, 500_000, 1_500_000));
}

#[test]
fn box_collision_touches_neighbouring_cells() {
    let g = parse_maze(&rows(&["+  ", "   "])).unwrap();
    // A one-cell box centered slightly left of the middle of cell (1, 0)
    // reaches back into the wall at cell (0, 0).
    assert!(is_colliding_with_wall(&g, 1_400_000, 500_000, 1_000_000));
    // A tiny box in the middle of an open cell touches nothing.
    assert!(!is_colliding_with_wall(&g, 1_500_000, 500_000, 100_000));
    // Far from the wall.
    assert!(!is_colliding_with_wall(&g, 2_500_000, 1_500_000, 1_000_000));
}
