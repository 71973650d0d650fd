//! The maze as a rectangular occupancy grid of cell symbols.
//!
//! Positions inside the grid are fixed-point `i64` values in millionths of a
//! cell (`POS_SCALE`), so a point `(x, y)` lies in the cell with column
//! `x / POS_SCALE` and row `y / POS_SCALE`.

use vstd::prelude::*;

verus! {

/// Fixed-point scale of positions: one grid cell is `POS_SCALE` units.
pub const POS_SCALE: i64 = 1000000;

/// Classification of one grid cell.
///
/// The three wall variants keep the distinction the map symbols `+`, `-` and
/// `|` draw; `Spawn`, `Goal` and `Collectible` are the markers `p`, `g` and
/// `b`; every other symbol is open floor.
#[derive(Clone, Copy, Debug, PartialEq, Eq, Structural)]
pub enum Cell {
    WallCorner,
    WallHorizontal,
    WallVertical,
    Spawn,
    Goal,
    Collectible,
    Open,
}

/// The cell a raw map symbol denotes.
pub open spec fn spec_cell_of_symbol(c: char) -> Cell {
    if c == '+' {
        Cell::WallCorner
    } else if c == '-' {
        Cell::WallHorizontal
    } else if c == '|' {
        Cell::WallVertical
    } else if c == 'p' {
        Cell::Spawn
    } else if c == 'g' {
        Cell::Goal
    } else if c == 'b' {
        Cell::Collectible
    } else {
        Cell::Open
    }
}

impl Cell {
    /// Maps a raw map symbol to its cell classification.
    pub fn of_symbol(c: char) -> (r: Cell)
        ensures
            r == spec_cell_of_symbol(c),
    {
        if c == '+' {
            Cell::WallCorner
        } else if c == '-' {
            Cell::WallHorizontal
        } else if c == '|' {
            Cell::WallVertical
        } else if c == 'p' {
            Cell::Spawn
        } else if c == 'g' {
            Cell::Goal
        } else if c == 'b' {
            Cell::Collectible
        } else {
            Cell::Open
        }
    }

    /// Whether the cell blocks rays (any of the three wall variants).
    pub open spec fn spec_is_wall(self) -> bool {
        self == Cell::WallCorner || self == Cell::WallHorizontal || self == Cell::WallVertical
    }

    /// Whether the cell blocks rays (any of the three wall variants).
    pub fn is_wall(self) -> (r: bool)
        ensures
            r == self.spec_is_wall(),
    {
        match self {
            Cell::WallCorner => true,
            Cell::WallHorizontal => true,
            Cell::WallVertical => true,
            _ => false,
        }
    }
}

/// The maze: a non-empty rectangular grid of cells, at most 1000 by 1000 so
/// that every fixed-point coordinate and squared distance stays well inside
/// `i64`.  Immutable after a successful load.
#[derive(Debug)]
pub struct Grid {
    pub rows: Vec<Vec<Cell>>,
}

impl Grid {
    /// Well-formedness: non-empty, rectangular, and within the size bound.
    pub open spec fn wf(&self) -> bool {
        &&& 1 <= self.rows@.len() <= 1000
        &&& 1 <= self.rows@[0]@.len() <= 1000
        &&& forall|i: int|
            0 <= i < self.rows@.len() ==> (#[trigger] self.rows@[i])@.len()
                == self.rows@[0]@.len()
    }

    /// Number of rows.
    pub open spec fn spec_height(&self) -> int {
        self.rows@.len() as int
    }

    /// Number of columns.
    pub open spec fn spec_width(&self) -> int {
        self.rows@[0]@.len() as int
    }

    /// The cell in a given row and column.
    pub open spec fn cell(&self, row: int, col: int) -> Cell {
        self.rows@[row]@[col]
    }

    /// Whether a fixed-point point lies inside the grid.
    pub open spec fn pos_in_bounds(&self, x: int, y: int) -> bool {
        0 <= x < self.spec_width() * 1000000 && 0 <= y < self.spec_height() * 1000000
    }

    /// The cell containing a fixed-point point.
    pub open spec fn cell_at_pos(&self, x: int, y: int) -> Cell {
        self.cell(y / 1000000, x / 1000000)
    }

    /// Number of rows.
    pub fn height(&self) -> (r: usize)
        requires
            self.wf(),
        ensures
            r == self.spec_height(),
    {
        self.rows.len()
    }

    /// Number of columns.
    pub fn width(&self) -> (r: usize)
        requires
            self.wf(),
        ensures
            r == self.spec_width(),
    {
        self.rows[0].len()
    }

    /// The cell in a given row and column.
    pub fn at(&self, row: usize, col: usize) -> (r: Cell)
        requires
            self.wf(),
            row < self.spec_height(),
            col < self.spec_width(),
        ensures
            r == self.cell(row as int, col as int),
    {
        self.rows[row][col]
    }

    /// The cell containing an in-bounds fixed-point point.
    pub fn at_pos(&self, x: i64, y: i64) -> (r: Cell)
        requires
            self.wf(),
            self.pos_in_bounds(x as int, y as int),
        ensures
            r == self.cell_at_pos(x as int, y as int),
    {
        let row = (y / 1000000) as usize;
        let col = (x / 1000000) as usize;
        self.rows[row][col]
    }

    /// Whether an in-bounds fixed-point point lies in the grid, as run-time
    /// test.
    pub fn contains_pos(&self, x: i64, y: i64) -> (r: bool)
        requires
            self.wf(),
        ensures
            r == self.pos_in_bounds(x as int, y as int),
    {
        let w = self.width() as i64;
        let h = self.height() as i64;
        0 <= x && 0 <= y && x < w * 1000000 && y < h * 1000000
    }
}

/// Why a raw character grid was rejected at load time.
#[derive(Clone, Copy, Debug, PartialEq, Eq, Structural)]
pub enum MazeError {
    /// No rows, or a first row without any symbol.
    Empty,
    /// Some row differs in length from the first.
    NonRectangular,
    /// More than 1000 rows or columns.
    TooLarge,
}

/// Whether a raw character grid is acceptable as a maze.
pub open spec fn spec_maze_ok(lines: Seq<Seq<char>>) -> bool {
    &&& 1 <= lines.len() <= 1000
    &&& 1 <= lines[0].len() <= 1000
    &&& forall|i: int| 0 <= i < lines.len() ==> (#[trigger] lines[i]).len() == lines[0].len()
}

/// Builds the maze from one sequence of symbols per row.
///
/// Succeeds exactly on non-empty rectangular input within the size bound; the
/// grid then classifies every symbol by `spec_cell_of_symbol`.
pub fn parse_maze(lines: &Vec<Vec<char>>) -> (r: Result<Grid, MazeError>)
    ensures
        r is Ok <==> spec_maze_ok(lines@.map_values(|v: Vec<char>| v@)),
        r matches Ok(g) ==> {
            &&& g.wf()
            &&& g.spec_height() == lines@.len()
            &&& g.spec_width() == lines@[0]@.len()
            &&& forall|i: int, j: int|
                0 <= i < g.spec_height() && 0 <= j < g.spec_width() ==> g.cell(i, j)
                    == spec_cell_of_symbol(lines@[i]@[j])
        },
        r matches Err(e) ==> {
            &&& e == MazeError::Empty <==> (lines@.len() == 0 || (lines@.len() >= 1
                && lines@[0]@.len() == 0))
            &&& e == MazeError::TooLarge <==> (lines@.len() >= 1 && lines@[0]@.len() >= 1 && (
            lines@.len() > 1000 || lines@[0]@.len() > 1000))
            &&& e == MazeError::NonRectangular <==> (1 <= lines@.len() <= 1000 && 1
                <= lines@[0]@.len() <= 1000 && !spec_maze_ok(
                lines@.map_values(|v: Vec<char>| v@),
            ))
        },
{
    let ghost view = lines@.map_values(|v: Vec<char>| v@);
    if lines.len() == 0 {
        return Err(MazeError::Empty);
    }
    let width = lines[0].len();
    if width == 0 {
        return Err(MazeError::Empty);
    }
    if lines.len() > 1000 || width > 1000 {
        return Err(MazeError::TooLarge);
    }
    let mut rows: Vec<Vec<Cell>> = Vec::new();
    let mut i: usize = 0;
    while i < lines.len()
        invariant
            0 <= i <= lines@.len(),
            1 <= lines@.len() <= 1000,
            1 <= width <= 1000,
            width == lines@[0]@.len(),
            view == lines@.map_values(|v: Vec<char>| v@),
            rows@.len() == i,
            forall|k: int| 0 <= k < i ==> (#[trigger] rows@[k])@.len() == width,
            forall|k: int, j: int|
                0 <= k < i && 0 <= j < width ==> (#[trigger] rows@[k]@[j])
                    == spec_cell_of_symbol(lines@[k]@[j]),
            forall|k: int| 0 <= k < i ==> (#[trigger] lines@[k])@.len() == width,
        decreases lines@.len() - i,
    {
        if lines[i].len() != width {
            proof {
                assert(view[i as int] == lines@[i as int]@);
                assert(view[0] == lines@[0]@);
                assert(!spec_maze_ok(view));
            }
            return Err(MazeError::NonRectangular);
        }
        let mut row: Vec<Cell> = Vec::new();
        let mut j: usize = 0;
        while j < width
            invariant
                0 <= j <= width,
                i < lines@.len(),
                width == lines@[i as int]@.len(),
                row@.len() == j,
                forall|t: int|
                    0 <= t < j ==> (#[trigger] row@[t]) == spec_cell_of_symbol(
                        lines@[i as int]@[t],
                    ),
            decreases width - j,
        {
            row.push(Cell::of_symbol(lines[i][j]));
            j = j + 1;
        }
        rows.push(row);
        i = i + 1;
    }
    let g = Grid { rows };
    proof {
        assert(forall|i: int|
            0 <= i < view.len() ==> (#[trigger] view[i]).len() == lines@[i]@.len());
        assert(spec_maze_ok(view));
    }
    Ok(g)
}

/// Whether a point lies inside a non-open cell: out-of-grid points count
/// as walls, and so does every marker symbol, not only the wall variants.
pub open spec fn spec_within_wall(g: &Grid, x: int, y: int) -> bool {
    !g.pos_in_bounds(x, y) || g.cell_at_pos(x, y) != Cell::Open
}

/// Whether the point `(x, y)` lies inside a non-open cell; anything
/// outside the grid counts as a wall.
pub fn is_within_wall(maze: &Grid, x: i64, y: i64) -> (r: bool)
    requires
        maze.wf(),
    ensures
        r == spec_within_wall(maze, x as int, y as int),
{
    if !maze.contains_pos(x, y) {
        return true;
    }
    !(maze.at_pos(x, y) == Cell::Open)
}

/// Whether the point `(x, y)` lies inside a corner-wall cell; anything
/// outside the grid counts as a wall.
pub fn is_wall(maze: &Grid, x: i64, y: i64) -> (r: bool)
    requires
        maze.wf(),
    ensures
        r == (!maze.pos_in_bounds(x as int, y as int) || maze.cell_at_pos(x as int, y as int)
            == Cell::WallCorner),
{
    if !maze.contains_pos(x, y) {
        return true;
    }
    maze.at_pos(x, y) == Cell::WallCorner
}

/// First cell index covered by a box edge at the fixed-point coordinate
/// `v`: coordinates left of the grid clamp to column or row zero.
pub open spec fn spec_box_cell(v: int) -> int {
    if v < 0 {
        0
    } else {
        v / 1000000
    }
}

/// Whether a square box of the given side length centered on `(x, y)`
/// touches any non-open cell of the grid.
pub open spec fn spec_colliding(g: &Grid, x: int, y: int, size: int) -> bool {
    exists|r: int, c: int|
        spec_box_cell(y - size / 2) <= r <= spec_box_cell(y + size / 2) && spec_box_cell(
            x - size / 2,
        ) <= c <= spec_box_cell(x + size / 2) && r < g.spec_height() && c < g.spec_width()
            && #[trigger] g.cell(r, c) != Cell::Open
}

/// A box edge further right or down never maps to an earlier cell.
proof fn lemma_box_cell_mono(v1: int, v2: int)
    requires
        v1 <= v2,
    ensures
        spec_box_cell(v1) <= spec_box_cell(v2),
{
    if v1 >= 0 {
        assert(v1 / 1000000 <= v2 / 1000000) by (nonlinear_arith)
            requires
                0 <= v1 <= v2,
        ;
    } else if v2 >= 0 {
        assert(0 <= v2 / 1000000) by (nonlinear_arith)
            requires
                0 <= v2,
        ;
    }
}

/// First cell index covered by a box edge at the fixed-point coordinate.
fn box_cell(v: i64) -> (r: i64)
    requires
        -4000000000 <= v <= 4000000000,
    ensures
        r == spec_box_cell(v as int),
        0 <= r <= 4000,
{
    if v < 0 {
        0
    } else {
        v / 1000000
    }
}

/// Whether a square box of side `size` centered on `(x, y)` touches any
/// non-open cell: the collision test movement uses before committing a
/// step.
pub fn is_colliding_with_wall(maze: &Grid, x: i64, y: i64, size: i64) -> (res: bool)
    requires
        maze.wf(),
        -2000000000 <= x <= 2000000000,
        -2000000000 <= y <= 2000000000,
        0 <= size <= 2000000000,
    ensures
        res == spec_colliding(maze, x as int, y as int, size as int),
{
    let cell_x_start = box_cell(x - size / 2);
    let cell_x_end = box_cell(x + size / 2);
    let cell_y_start = box_cell(y - size / 2);
    let cell_y_end = box_cell(y + size / 2);
    proof {
        lemma_box_cell_mono(x as int - (size as int) / 2, x as int + (size as int) / 2);
        lemma_box_cell_mono(y as int - (size as int) / 2, y as int + (size as int) / 2);
    }
    let w = maze.width() as i64;
    let h = maze.height() as i64;
    let mut r = cell_y_start;
    while r <= cell_y_end
        invariant
            maze.wf(),
            w == maze.spec_width(),
            h == maze.spec_height(),
            cell_x_start == spec_box_cell(x as int - (size as int) / 2),
            cell_x_end == spec_box_cell(x as int + (size as int) / 2),
            cell_y_start == spec_box_cell(y as int - (size as int) / 2),
            cell_y_end == spec_box_cell(y as int + (size as int) / 2),
            0 <= cell_x_start <= 4000,
            0 <= cell_x_end <= 4000,
            0 <= cell_y_start <= 4000,
            0 <= cell_y_end <= 4001,
            cell_x_start <= cell_x_end,
            cell_y_start <= r <= cell_y_end + 1,
            forall|rr: int, cc: int|
                cell_y_start <= rr < r && cell_x_start <= cc <= cell_x_end && rr < h && cc < w
                    ==> #[trigger] maze.cell(rr, cc) == Cell::Open,
        decreases cell_y_end + 1 - r,
    {
        let mut c = cell_x_start;
        while c <= cell_x_end
            invariant
                maze.wf(),
                w == maze.spec_width(),
                h == maze.spec_height(),
                cell_x_start == spec_box_cell(x as int - (size as int) / 2),
                cell_x_end == spec_box_cell(x as int + (size as int) / 2),
                cell_y_start == spec_box_cell(y as int - (size as int) / 2),
                cell_y_end == spec_box_cell(y as int + (size as int) / 2),
                0 <= cell_x_start <= 4000,
                0 <= cell_x_end <= 4000,
                cell_y_start <= r <= cell_y_end,
                cell_x_start <= c <= cell_x_end + 1,
                forall|rr: int, cc: int|
                    cell_y_start <= rr < r && cell_x_start <= cc <= cell_x_end && rr < h && cc
                        < w ==> #[trigger] maze.cell(rr, cc) == Cell::Open,
                forall|cc: int|
                    cell_x_start <= cc < c && r < h && cc < w ==> #[trigger] maze.cell(
                        r as int,
                        cc,
                    ) == Cell::Open,
            decreases cell_x_end + 1 - c,
        {
            if c < w && r < h {
                if !(maze.at(r as usize, c as usize) == Cell::Open) {
                    return true;
                }
            }
            c = c + 1;
        }
        r = r + 1;
    }
    false
}

/// Number of collectible cells in one row, up to column `j`.
pub open spec fn spec_row_collectibles(row: Seq<Cell>, j: int) -> int
    decreases j,
{
    if j <= 0 {
        0
    } else {
        spec_row_collectibles(row, j - 1) + if row[j - 1] == Cell::Collectible {
            1int
        } else {
            0int
        }
    }
}

/// Number of collectible cells in the first `i` rows of the grid.
pub open spec fn spec_collectibles(g: &Grid, i: int) -> int
    decreases i,
{
    if i <= 0 {
        0
    } else {
        spec_collectibles(g, i - 1) + spec_row_collectibles(g.rows@[i - 1]@, g.spec_width())
    }
}

proof fn lemma_row_collectibles_bound(row: Seq<Cell>, j: int)
    requires
        0 <= j,
    ensures
        0 <= spec_row_collectibles(row, j) <= j,
    decreases j,
{
    if j > 0 {
        lemma_row_collectibles_bound(row, j - 1);
    }
}

proof fn lemma_collectibles_bound(g: &Grid, i: int)
    requires
        g.wf(),
        0 <= i <= g.spec_height(),
    ensures
        0 <= spec_collectibles(g, i) <= i * 1000,
    decreases i,
{
    if i > 0 {
        lemma_collectibles_bound(g, i - 1);
        lemma_row_collectibles_bound(g.rows@[i - 1]@, g.spec_width());
        assert((i - 1) * 1000 + 1000 == i * 1000) by (nonlinear_arith);
    }
}

/// Counts the collectible markers in the maze, the number a session of the
/// collecting level must gather.
pub fn count_collectibles(g: &Grid) -> (r: usize)
    requires
        g.wf(),
    ensures
        r == spec_collectibles(g, g.spec_height()),
{
    let mut total: usize = 0;
    let mut i: usize = 0;
    let h = g.height();
    let w = g.width();
    proof {
        lemma_collectibles_bound(g, 0);
    }
    while i < h
        invariant
            g.wf(),
            h == g.spec_height(),
            w == g.spec_width(),
            0 <= i <= h,
            total == spec_collectibles(g, i as int),
            total <= i * 1000,
        decreases h - i,
    {
        let mut j: usize = 0;
        let ghost row = g.rows@[i as int]@;
        while j < w
            invariant
                g.wf(),
                h == g.spec_height(),
                w == g.spec_width(),
                0 <= i < h,
                0 <= j <= w,
                row == g.rows@[i as int]@,
                total == spec_collectibles(g, i as int) + spec_row_collectibles(row, j as int),
                total <= i * 1000 + j,
            decreases w - j,
        {
            if g.at(i, j) == Cell::Collectible {
                total = total + 1;
            }
            j = j + 1;
        }
        proof {
            lemma_collectibles_bound(g, i as int);
            lemma_row_collectibles_bound(row, w as int);
            assert((i as int) * 1000 + 1000 == (i as int + 1) * 1000) by (nonlinear_arith);
        }
        i = i + 1;
    }
    total
}

} // verus!
