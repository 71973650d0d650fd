//! The ray intersector: marches a point along a fixed-point direction in
//! small steps until it leaves the grid, exceeds the maximum depth, or lands
//! in a wall cell.
//!
//! One step advances the point by `dir * 10` position units, a hundredth of
//! a cell for a unit direction, and adds `STEP_DIST` to the travelled
//! distance; the depth cap is `MAX_DEPTH`, thirty cells.  The whole march is
//! mirrored by `spec_cast`, and the executable caster returns exactly that
//! value.

use vstd::prelude::*;

verus! {

use crate::grid::{Cell, Grid};
use crate::trig::{cos_fx, sin_fx, spec_cos, spec_sin};
use vstd::arithmetic::div_mod::lemma_fundamental_div_mod_converse;

/// Distance travelled in one march step, in position units.
pub const STEP_DIST: i64 = 10000;
/// The depth cap: a ray that travels this far reports no hit.
pub const MAX_DEPTH: i64 = 30000000;
/// Number of march steps until the depth cap is reached.
pub const MAX_STEPS: i64 = 3000;

/// The first wall met by a ray: distance travelled in position units,
/// identity of the wall cell (`Open` when nothing was hit), and the
/// horizontal offset within the hit cell in `[0, POS_SCALE)`, used to place
/// the texture band.
#[derive(Clone, Copy, Debug, PartialEq, Eq, Structural)]
pub struct Intersect {
    pub distance: i64,
    pub wall_type: Cell,
    pub hit_x: i64,
}

/// The result of a ray that reached the depth cap or left the grid.
pub open spec fn spec_miss() -> Intersect {
    Intersect { distance: 30000000i64, wall_type: Cell::Open, hit_x: 0i64 }
}

/// X coordinate of the marching point after `k` steps.
pub open spec fn ray_x(px: int, dx: int, k: int) -> int {
    px + k * (dx * 10)
}

/// Y coordinate of the marching point after `k` steps.
pub open spec fn ray_y(py: int, dy: int, k: int) -> int {
    py + k * (dy * 10)
}

/// The march from step `k` on: the first of leaving the grid, hitting a wall
/// cell, or reaching the depth cap decides the result.
pub open spec fn spec_cast_step(g: &Grid, px: int, py: int, dx: int, dy: int, k: int) -> Intersect
    decreases 3000 - k,
{
    if k >= 3000 {
        spec_miss()
    } else {
        let x = ray_x(px, dx, k);
        let y = ray_y(py, dy, k);
        if !g.pos_in_bounds(x, y) {
            spec_miss()
        } else if g.cell_at_pos(x, y).spec_is_wall() {
            Intersect {
                distance: (k * 10000) as i64,
                wall_type: g.cell_at_pos(x, y),
                hit_x: (x % 1000000) as i64,
            }
        } else {
            spec_cast_step(g, px, py, dx, dy, k + 1)
        }
    }
}

/// The whole cast: an origin outside the grid misses at once, an origin
/// already inside a wall hits at distance zero, and otherwise the march
/// from the first step decides.
pub open spec fn spec_cast(g: &Grid, px: int, py: int, dx: int, dy: int) -> Intersect {
    if !g.pos_in_bounds(px, py) {
        spec_miss()
    } else if g.cell_at_pos(px, py).spec_is_wall() {
        Intersect {
            distance: 0i64,
            wall_type: g.cell_at_pos(px, py),
            hit_x: (px % 1000000) as i64,
        }
    } else {
        spec_cast_step(g, px, py, dx, dy, 1)
    }
}

/// Casts a ray from `(px, py)` along the fixed-point direction `(dx, dy)`,
/// in thousandths of a unit vector, and returns the first wall hit.
pub fn cast_dir(g: &Grid, px: i64, py: i64, dx: i64, dy: i64) -> (r: Intersect)
    requires
        g.wf(),
        -1000 <= dx <= 1000,
        -1000 <= dy <= 1000,
        -2000000000 <= px <= 2000000000,
        -2000000000 <= py <= 2000000000,
    ensures
        r == spec_cast(g, px as int, py as int, dx as int, dy as int),
{
    if !g.contains_pos(px, py) {
        return Intersect { distance: 30000000, wall_type: Cell::Open, hit_x: 0 };
    }
    let c0 = g.at_pos(px, py);
    if c0.is_wall() {
        return Intersect { distance: 0, wall_type: c0, hit_x: px % 1000000 };
    }
    let sx = dx * 10;
    let sy = dy * 10;
    let mut x = px;
    let mut y = py;
    let mut k: i64 = 0;
    while k < 2999
        invariant
            g.wf(),
            -10000 <= sx <= 10000,
            -10000 <= sy <= 10000,
            sx == dx * 10,
            sy == dy * 10,
            -2000000000 <= px <= 2000000000,
            -2000000000 <= py <= 2000000000,
            0 <= k <= 2999,
            g.pos_in_bounds(px as int, py as int),
            !g.cell_at_pos(px as int, py as int).spec_is_wall(),
            x == ray_x(px as int, dx as int, k as int),
            y == ray_y(py as int, dy as int, k as int),
            -2100000000 <= x <= 2100000000,
            -2100000000 <= y <= 2100000000,
            spec_cast_step(g, px as int, py as int, dx as int, dy as int, 1)
                == spec_cast_step(g, px as int, py as int, dx as int, dy as int, k as int + 1),
        decreases 2999 - k,
    {
        proof {
            assert((k as int + 1) * (dx as int * 10) == k as int * (dx as int * 10) + dx as int
                * 10) by (nonlinear_arith);
            assert((k as int + 1) * (dy as int * 10) == k as int * (dy as int * 10) + dy as int
                * 10) by (nonlinear_arith);
            assert(-30000000 <= (k as int + 1) * (dx as int * 10) <= 30000000)
                by (nonlinear_arith)
                requires
                    0 <= k as int + 1 <= 3000,
                    -1000 <= dx as int <= 1000,
            ;
            assert(-30000000 <= (k as int + 1) * (dy as int * 10) <= 30000000)
                by (nonlinear_arith)
                requires
                    0 <= k as int + 1 <= 3000,
                    -1000 <= dy as int <= 1000,
            ;
        }
        x = x + sx;
        y = y + sy;
        k = k + 1;
        if !g.contains_pos(x, y) {
            proof {
                assert(spec_cast_step(g, px as int, py as int, dx as int, dy as int, k as int)
                    == spec_miss());
            }
            return Intersect { distance: 30000000, wall_type: Cell::Open, hit_x: 0 };
        }
        let c = g.at_pos(x, y);
        if c.is_wall() {
            proof {
                assert(spec_cast_step(g, px as int, py as int, dx as int, dy as int, k as int)
                    == Intersect {
                    distance: (k as int * 10000) as i64,
                    wall_type: g.cell_at_pos(x as int, y as int),
                    hit_x: (x as int % 1000000) as i64,
                });
            }
            return Intersect { distance: k * 10000, wall_type: c, hit_x: x % 1000000 };
        }
    }
    Intersect { distance: 30000000, wall_type: Cell::Open, hit_x: 0 }
}

/// Casts a ray at a normalized angle: the direction is the fixed-point
/// cosine and sine of the angle.
pub fn cast_ray(g: &Grid, px: i64, py: i64, angle: i64) -> (r: Intersect)
    requires
        g.wf(),
        0 <= angle < 65536,
        -2000000000 <= px <= 2000000000,
        -2000000000 <= py <= 2000000000,
    ensures
        r == spec_cast(g, px as int, py as int, spec_cos(angle as int), spec_sin(angle as int)),
{
    let dx = cos_fx(angle);
    let dy = sin_fx(angle);
    cast_dir(g, px, py, dx, dy)
}

proof fn lemma_cast_step_bounds(g: &Grid, px: int, py: int, dx: int, dy: int, k: int)
    requires
        1 <= k <= 3000,
    ensures
        0 <= spec_cast_step(g, px, py, dx, dy, k).distance <= 30000000,
        0 <= spec_cast_step(g, px, py, dx, dy, k).hit_x < 1000000,
        spec_cast_step(g, px, py, dx, dy, k).wall_type != Cell::Open ==> spec_cast_step(
            g,
            px,
            py,
            dx,
            dy,
            k,
        ).wall_type.spec_is_wall(),
    decreases 3000 - k,
{
    if k < 3000 {
        let x = ray_x(px, dx, k);
        let y = ray_y(py, dy, k);
        if g.pos_in_bounds(x, y) && g.cell_at_pos(x, y).spec_is_wall() {
            vstd::arithmetic::div_mod::lemma_mod_bound(x, 1000000);
        } else if g.pos_in_bounds(x, y) {
            lemma_cast_step_bounds(g, px, py, dx, dy, k + 1);
        }
    }
}

/// Every cast result carries a distance within the depth cap, a hit offset
/// within one cell, and a wall identity that is `Open` exactly on a miss.
pub proof fn lemma_cast_bounds(g: &Grid, px: int, py: int, dx: int, dy: int)
    ensures
        0 <= spec_cast(g, px, py, dx, dy).distance <= 30000000,
        0 <= spec_cast(g, px, py, dx, dy).hit_x < 1000000,
        spec_cast(g, px, py, dx, dy).wall_type != Cell::Open ==> spec_cast(
            g,
            px,
            py,
            dx,
            dy,
        ).wall_type.spec_is_wall(),
{
    if g.pos_in_bounds(px, py) {
        vstd::arithmetic::div_mod::lemma_mod_bound(px, 1000000);
        if !g.cell_at_pos(px, py).spec_is_wall() {
            lemma_cast_step_bounds(g, px, py, dx, dy, 1);
        }
    }
}

/// A grid without a single wall cell.
pub open spec fn all_open(g: &Grid) -> bool {
    forall|r: int, c: int|
        0 <= r < g.spec_height() && 0 <= c < g.spec_width() ==> !(#[trigger] g.cell(
            r,
            c,
        )).spec_is_wall()
}

/// The row and column of an in-bounds point index into the grid.
pub proof fn lemma_pos_cell_in_bounds(g: &Grid, x: int, y: int)
    requires
        g.wf(),
        g.pos_in_bounds(x, y),
    ensures
        0 <= x / 1000000 < g.spec_width(),
        0 <= y / 1000000 < g.spec_height(),
{
    assert(0 <= x / 1000000 && x / 1000000 < g.spec_width()) by (nonlinear_arith)
        requires
            0 <= x < g.spec_width() * 1000000,
    ;
    assert(0 <= y / 1000000 && y / 1000000 < g.spec_height()) by (nonlinear_arith)
        requires
            0 <= y < g.spec_height() * 1000000,
    ;
}

proof fn lemma_all_open_steps(g: &Grid, px: int, py: int, dx: int, dy: int, k: int)
    requires
        g.wf(),
        all_open(g),
        1 <= k <= 3000,
    ensures
        spec_cast_step(g, px, py, dx, dy, k) == spec_miss(),
    decreases 3000 - k,
{
    if k < 3000 {
        let x = ray_x(px, dx, k);
        let y = ray_y(py, dy, k);
        if g.pos_in_bounds(x, y) {
            lemma_pos_cell_in_bounds(g, x, y);
            lemma_all_open_steps(g, px, py, dx, dy, k + 1);
        }
    }
}

proof fn lemma_east_walk(g: &Grid, px: int, py: int, k: int)
    requires
        g.wf(),
        g.pos_in_bounds(px, py),
        !g.cell_at_pos(px, py).spec_is_wall(),
        px / 1000000 + 1 < g.spec_width(),
        g.cell(py / 1000000, px / 1000000 + 1).spec_is_wall(),
        1 <= k,
        ray_x(px, 1000, k - 1) < (px / 1000000 + 1) * 1000000,
    ensures
        spec_cast_step(g, px, py, 1000, 0, k).wall_type == g.cell(
            py / 1000000,
            px / 1000000 + 1,
        ),
        (px / 1000000 + 1) * 1000000 - px <= spec_cast_step(g, px, py, 1000, 0, k).distance < (
        px / 1000000 + 1) * 1000000 - px + 10000,
    decreases 3000 - k,
{
    let cx = px / 1000000;
    let cy = py / 1000000;
    let b = (cx + 1) * 1000000;
    vstd::arithmetic::div_mod::lemma_fundamental_div_mod(px, 1000000);
    lemma_pos_cell_in_bounds(g, px, py);
    let x = ray_x(px, 1000, k);
    assert(x == px + k * 10000);
    assert(ray_x(px, 1000, k - 1) == px + (k - 1) * 10000);
    assert(b - px == 1000000 - px % 1000000);
    assert((k - 1) * 10000 < 1000000);
    assert(k <= 100);
    if x < b {
        lemma_fundamental_div_mod_converse(x, 1000000, cx, x - cx * 1000000);
        assert(g.cell_at_pos(x, py) == g.cell_at_pos(px, py));
        lemma_east_walk(g, px, py, k + 1);
    } else {
        lemma_fundamental_div_mod_converse(x, 1000000, cx + 1, x - b);
        assert(x / 1000000 == cx + 1);
        assert(g.pos_in_bounds(x, py)) by {
            assert((cx + 2) * 1000000 <= g.spec_width() * 1000000) by (nonlinear_arith)
                requires
                    cx + 2 <= g.spec_width(),
            ;
        }
        assert(g.cell_at_pos(x, py) == g.cell(cy, cx + 1));
        assert(spec_cast_step(g, px, py, 1000, 0, k).distance == k * 10000);
    }
}

/// A ray cast from inside an open cell straight at the wall cell to its
/// east reports that wall, at a distance within one step of the true
/// distance to the shared cell boundary.
pub proof fn lemma_facing_wall_hit_east(g: &Grid, px: int, py: int)
    requires
        g.wf(),
        g.pos_in_bounds(px, py),
        !g.cell_at_pos(px, py).spec_is_wall(),
        px / 1000000 + 1 < g.spec_width(),
        g.cell(py / 1000000, px / 1000000 + 1).spec_is_wall(),
    ensures
        spec_cast(g, px, py, 1000, 0).wall_type == g.cell(py / 1000000, px / 1000000 + 1),
        (px / 1000000 + 1) * 1000000 - px <= spec_cast(g, px, py, 1000, 0).distance < (px
            / 1000000 + 1) * 1000000 - px + 10000,
{
    vstd::arithmetic::div_mod::lemma_fundamental_div_mod(px, 1000000);
    lemma_east_walk(g, px, py, 1);
}

proof fn lemma_west_walk(g: &Grid, px: int, py: int, k: int)
    requires
        g.wf(),
        g.pos_in_bounds(px, py),
        !g.cell_at_pos(px, py).spec_is_wall(),
        1 <= px / 1000000,
        g.cell(py / 1000000, px / 1000000 - 1).spec_is_wall(),
        1 <= k,
        ray_x(px, -1000, k - 1) >= (px / 1000000) * 1000000,
    ensures
        spec_cast_step(g, px, py, -1000, 0, k).wall_type == g.cell(
            py / 1000000,
            px / 1000000 - 1,
        ),
        px - (px / 1000000) * 1000000 < spec_cast_step(g, px, py, -1000, 0, k).distance <= px - (
        px / 1000000) * 1000000 + 10000,
    decreases 3000 - k,
{
    let cx = px / 1000000;
    let cy = py / 1000000;
    let b = cx * 1000000;
    vstd::arithmetic::div_mod::lemma_fundamental_div_mod(px, 1000000);
    lemma_pos_cell_in_bounds(g, px, py);
    let x = ray_x(px, -1000, k);
    assert(x == px - k * 10000);
    assert(ray_x(px, -1000, k - 1) == px - (k - 1) * 10000);
    assert((k - 1) * 10000 <= px % 1000000);
    assert(k <= 100);
    if x >= b {
        lemma_fundamental_div_mod_converse(x, 1000000, cx, x - b);
        assert(g.cell_at_pos(x, py) == g.cell_at_pos(px, py));
        lemma_west_walk(g, px, py, k + 1);
    } else {
        lemma_fundamental_div_mod_converse(x, 1000000, cx - 1, x - (cx - 1) * 1000000);
        assert(x / 1000000 == cx - 1);
        assert(g.pos_in_bounds(x, py)) by {
            assert(cx * 1000000 <= g.spec_width() * 1000000) by (nonlinear_arith)
                requires
                    cx <= g.spec_width(),
            ;
        }
        assert(g.cell_at_pos(x, py) == g.cell(cy, cx - 1));
        assert(spec_cast_step(g, px, py, -1000, 0, k).distance == k * 10000);
    }
}

/// A ray cast from inside an open cell straight at the wall cell to its
/// west reports that wall, at a distance within one step of the true
/// distance to the shared cell boundary.
pub proof fn lemma_facing_wall_hit_west(g: &Grid, px: int, py: int)
    requires
        g.wf(),
        g.pos_in_bounds(px, py),
        !g.cell_at_pos(px, py).spec_is_wall(),
        1 <= px / 1000000,
        g.cell(py / 1000000, px / 1000000 - 1).spec_is_wall(),
    ensures
        spec_cast(g, px, py, -1000, 0).wall_type == g.cell(py / 1000000, px / 1000000 - 1),
        px - (px / 1000000) * 1000000 < spec_cast(g, px, py, -1000, 0).distance <= px - (px
            / 1000000) * 1000000 + 10000,
{
    vstd::arithmetic::div_mod::lemma_fundamental_div_mod(px, 1000000);
    lemma_west_walk(g, px, py, 1);
}

proof fn lemma_south_walk(g: &Grid, px: int, py: int, k: int)
    requires
        g.wf(),
        g.pos_in_bounds(px, py),
        !g.cell_at_pos(px, py).spec_is_wall(),
        py / 1000000 + 1 < g.spec_height(),
        g.cell(py / 1000000 + 1, px / 1000000).spec_is_wall(),
        1 <= k,
        ray_y(py, 1000, k - 1) < (py / 1000000 + 1) * 1000000,
    ensures
        spec_cast_step(g, px, py, 0, 1000, k).wall_type == g.cell(
            py / 1000000 + 1,
            px / 1000000,
        ),
        (py / 1000000 + 1) * 1000000 - py <= spec_cast_step(g, px, py, 0, 1000, k).distance < (
        py / 1000000 + 1) * 1000000 - py + 10000,
    decreases 3000 - k,
{
    let cx = px / 1000000;
    let cy = py / 1000000;
    let b = (cy + 1) * 1000000;
    vstd::arithmetic::div_mod::lemma_fundamental_div_mod(py, 1000000);
    lemma_pos_cell_in_bounds(g, px, py);
    let y = ray_y(py, 1000, k);
    assert(y == py + k * 10000);
    assert(ray_y(py, 1000, k - 1) == py + (k - 1) * 10000);
    assert(b - py == 1000000 - py % 1000000);
    assert((k - 1) * 10000 < 1000000);
    assert(k <= 100);
    if y < b {
        lemma_fundamental_div_mod_converse(y, 1000000, cy, y - cy * 1000000);
        assert(g.cell_at_pos(px, y) == g.cell_at_pos(px, py));
        lemma_south_walk(g, px, py, k + 1);
    } else {
        lemma_fundamental_div_mod_converse(y, 1000000, cy + 1, y - b);
        assert(y / 1000000 == cy + 1);
        assert(g.pos_in_bounds(px, y)) by {
            assert((cy + 2) * 1000000 <= g.spec_height() * 1000000) by (nonlinear_arith)
                requires
                    cy + 2 <= g.spec_height(),
            ;
        }
        assert(g.cell_at_pos(px, y) == g.cell(cy + 1, cx));
        assert(spec_cast_step(g, px, py, 0, 1000, k).distance == k * 10000);
    }
}

/// A ray cast from inside an open cell straight at the wall cell below it
/// (larger row index) reports that wall, at a distance within one step of
/// the true distance to the shared cell boundary.
pub proof fn lemma_facing_wall_hit_south(g: &Grid, px: int, py: int)
    requires
        g.wf(),
        g.pos_in_bounds(px, py),
        !g.cell_at_pos(px, py).spec_is_wall(),
        py / 1000000 + 1 < g.spec_height(),
        g.cell(py / 1000000 + 1, px / 1000000).spec_is_wall(),
    ensures
        spec_cast(g, px, py, 0, 1000).wall_type == g.cell(py / 1000000 + 1, px / 1000000),
        (py / 1000000 + 1) * 1000000 - py <= spec_cast(g, px, py, 0, 1000).distance < (py
            / 1000000 + 1) * 1000000 - py + 10000,
{
    vstd::arithmetic::div_mod::lemma_fundamental_div_mod(py, 1000000);
    lemma_south_walk(g, px, py, 1);
}

proof fn lemma_north_walk(g: &Grid, px: int, py: int, k: int)
    requires
        g.wf(),
        g.pos_in_bounds(px, py),
        !g.cell_at_pos(px, py).spec_is_wall(),
        1 <= py / 1000000,
        g.cell(py / 1000000 - 1, px / 1000000).spec_is_wall(),
        1 <= k,
        ray_y(py, -1000, k - 1) >= (py / 1000000) * 1000000,
    ensures
        spec_cast_step(g, px, py, 0, -1000, k).wall_type == g.cell(
            py / 1000000 - 1,
            px / 1000000,
        ),
        py - (py / 1000000) * 1000000 < spec_cast_step(g, px, py, 0, -1000, k).distance <= py - (
        py / 1000000) * 1000000 + 10000,
    decreases 3000 - k,
{
    let cx = px / 1000000;
    let cy = py / 1000000;
    let b = cy * 1000000;
    vstd::arithmetic::div_mod::lemma_fundamental_div_mod(py, 1000000);
    lemma_pos_cell_in_bounds(g, px, py);
    let y = ray_y(py, -1000, k);
    assert(y == py - k * 10000);
    assert(ray_y(py, -1000, k - 1) == py - (k - 1) * 10000);
    assert((k - 1) * 10000 <= py % 1000000);
    assert(k <= 100);
    if y >= b {
        lemma_fundamental_div_mod_converse(y, 1000000, cy, y - b);
        assert(g.cell_at_pos(px, y) == g.cell_at_pos(px, py));
        lemma_north_walk(g, px, py, k + 1);
    } else {
        lemma_fundamental_div_mod_converse(y, 1000000, cy - 1, y - (cy - 1) * 1000000);
        assert(y / 1000000 == cy - 1);
        assert(g.pos_in_bounds(px, y)) by {
            assert(cy * 1000000 <= g.spec_height() * 1000000) by (nonlinear_arith)
                requires
                    cy <= g.spec_height(),
            ;
        }
        assert(g.cell_at_pos(px, y) == g.cell(cy - 1, cx));
        assert(spec_cast_step(g, px, py, 0, -1000, k).distance == k * 10000);
    }
}

/// A ray cast from inside an open cell straight at the wall cell above it
/// (smaller row index) reports that wall, at a distance within one step of
/// the true distance to the shared cell boundary.
pub proof fn lemma_facing_wall_hit_north(g: &Grid, px: int, py: int)
    requires
        g.wf(),
        g.pos_in_bounds(px, py),
        !g.cell_at_pos(px, py).spec_is_wall(),
        1 <= py / 1000000,
        g.cell(py / 1000000 - 1, px / 1000000).spec_is_wall(),
    ensures
        spec_cast(g, px, py, 0, -1000).wall_type == g.cell(py / 1000000 - 1, px / 1000000),
        py - (py / 1000000) * 1000000 < spec_cast(g, px, py, 0, -1000).distance <= py - (py
            / 1000000) * 1000000 + 10000,
{
    vstd::arithmetic::div_mod::lemma_fundamental_div_mod(py, 1000000);
    lemma_north_walk(g, px, py, 1);
}

/// In a grid without walls, every ray cast from an inside point, whatever
/// its direction, reports no hit at exactly the maximum depth.
pub proof fn lemma_all_open_ray_misses(g: &Grid, px: int, py: int, dx: int, dy: int)
    requires
        g.wf(),
        all_open(g),
        g.pos_in_bounds(px, py),
    ensures
        spec_cast(g, px, py, dx, dy) == spec_miss(),
        spec_cast(g, px, py, dx, dy).distance == MAX_DEPTH,
        spec_cast(g, px, py, dx, dy).wall_type == Cell::Open,
{
    lemma_pos_cell_in_bounds(g, px, py);
    lemma_all_open_steps(g, px, py, dx, dy, 1);
}

} // verus!
