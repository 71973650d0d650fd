//! The camera: position in fixed-point cell units, facing angle and field
//! of view in angle units.
//!
//! Movement commits only when the target point lies in an open cell; a
//! blocked or out-of-grid target leaves the position unchanged, which keeps
//! the camera inside the maze for the whole session.

use vstd::prelude::*;

verus! {

use crate::grid::Grid;
use crate::trig::{cos_fx, sin_fx, spec_cos, spec_sin};

/// The viewer: position `(x, y, z)` in position units (millionths of a
/// cell; `z` is carried but unused by projection), facing `angle` and field
/// of view `fov` in angle units.
pub struct Player {
    pub x: i64,
    pub y: i64,
    pub z: i64,
    pub angle: i64,
    pub fov: i64,
}

impl Player {
    /// Well-formedness: a normalized facing angle, a positive field of view
    /// of at most a half turn, and coordinates small enough for the ray and
    /// projection arithmetic.
    pub open spec fn wf(&self) -> bool {
        &&& 0 <= self.angle < 65536
        &&& 1 <= self.fov <= 32768
        &&& -2000000000 <= self.x <= 2000000000
        &&& -2000000000 <= self.y <= 2000000000
        &&& -2000000000 <= self.z <= 2000000000
    }

    /// A new player at the given position, facing angle zero.
    pub fn new(x: i64, y: i64, z: i64, fov: i64) -> (r: Player)
        requires
            1 <= fov <= 32768,
            -2000000000 <= x <= 2000000000,
            -2000000000 <= y <= 2000000000,
            -2000000000 <= z <= 2000000000,
        ensures
            r.wf(),
            r.x == x,
            r.y == y,
            r.z == z,
            r.angle == 0,
            r.fov == fov,
    {
        Player { x, y, z, angle: 0, fov }
    }

    /// Whether the point `(x, y)` is blocked: outside the grid or inside a
    /// wall cell.
    pub open spec fn spec_blocked(g: &Grid, x: int, y: int) -> bool {
        !g.pos_in_bounds(x, y) || g.cell_at_pos(x, y).spec_is_wall()
    }

    /// Collision test against the maze: out-of-grid points and wall cells
    /// block movement.
    pub fn check_collision(&self, x: i64, y: i64, maze: &Grid) -> (r: bool)
        requires
            maze.wf(),
        ensures
            r == Self::spec_blocked(maze, x as int, y as int),
    {
        if !maze.contains_pos(x, y) {
            return true;
        }
        maze.at_pos(x, y).is_wall()
    }

    /// The player after a forward step of `d` position units, or unchanged
    /// if the target point is blocked.
    pub open spec fn spec_moved(p: Player, g: &Grid, d: int) -> Player {
        let nx = p.x + spec_step_component(d, spec_cos(p.angle as int));
        let ny = p.y + spec_step_component(d, spec_sin(p.angle as int));
        if Self::spec_blocked(g, nx, ny) {
            p
        } else {
            Player { x: nx as i64, y: ny as i64, ..p }
        }
    }

    /// Walks `distance` position units along the facing angle unless the
    /// target point is blocked.
    pub fn move_forward(&mut self, distance: i64, maze: &Grid)
        requires
            old(self).wf(),
            maze.wf(),
            0 <= distance <= 1000000,
        ensures
            final(self).wf(),
            *final(self) == Self::spec_moved(*old(self), maze, distance as int),
    {
        let dx = cos_fx(self.angle);
        let dy = sin_fx(self.angle);
        let nx = self.x + step_component(distance, dx);
        let ny = self.y + step_component(distance, dy);
        if !self.check_collision(nx, ny, maze) {
            proof {
                assert(maze.spec_width() * 1000000 <= 1000000000) by (nonlinear_arith)
                    requires
                        maze.spec_width() <= 1000,
                ;
                assert(maze.spec_height() * 1000000 <= 1000000000) by (nonlinear_arith)
                    requires
                        maze.spec_height() <= 1000,
                ;
            }
            self.x = nx;
            self.y = ny;
        }
    }

    /// Walks `distance` position units against the facing angle unless the
    /// target point is blocked.
    pub fn move_backward(&mut self, distance: i64, maze: &Grid)
        requires
            old(self).wf(),
            maze.wf(),
            0 <= distance <= 1000000,
        ensures
            final(self).wf(),
            *final(self) == Self::spec_moved(*old(self), maze, -(distance as int)),
    {
        let dx = cos_fx(self.angle);
        let dy = sin_fx(self.angle);
        let nx = self.x - step_component(distance, dx);
        let ny = self.y - step_component(distance, dy);
        proof {
            lemma_step_component_neg(distance as int, spec_cos(self.angle as int));
            lemma_step_component_neg(distance as int, spec_sin(self.angle as int));
        }
        if !self.check_collision(nx, ny, maze) {
            proof {
                assert(maze.spec_width() * 1000000 <= 1000000000) by (nonlinear_arith)
                    requires
                        maze.spec_width() <= 1000,
                ;
                assert(maze.spec_height() * 1000000 <= 1000000000) by (nonlinear_arith)
                    requires
                        maze.spec_height() <= 1000,
                ;
            }
            self.x = nx;
            self.y = ny;
        }
    }

    /// Turns left (counter-clockwise) by `delta` angle units, keeping the
    /// angle normalized.
    pub fn turn_left(&mut self, delta: i64)
        requires
            old(self).wf(),
            0 <= delta < 65536,
        ensures
            final(self).wf(),
            final(self).angle == (old(self).angle - delta + 65536) % 65536,
            final(self).x == old(self).x,
            final(self).y == old(self).y,
            final(self).z == old(self).z,
            final(self).fov == old(self).fov,
    {
        if self.angle >= delta {
            self.angle = self.angle - delta;
            proof {
                vstd::arithmetic::div_mod::lemma_mod_add_multiples_vanish(
                    self.angle as int,
                    65536,
                );
            }
        } else {
            self.angle = self.angle - delta + 65536;
        }
        proof {
            vstd::arithmetic::div_mod::lemma_small_mod(self.angle as nat, 65536);
        }
    }

    /// Turns right (clockwise) by `delta` angle units, keeping the angle
    /// normalized.
    pub fn turn_right(&mut self, delta: i64)
        requires
            old(self).wf(),
            0 <= delta < 65536,
        ensures
            final(self).wf(),
            final(self).angle == (old(self).angle + delta) % 65536,
            final(self).x == old(self).x,
            final(self).y == old(self).y,
            final(self).z == old(self).z,
            final(self).fov == old(self).fov,
    {
        if self.angle + delta < 65536 {
            self.angle = self.angle + delta;
        } else {
            proof {
                vstd::arithmetic::div_mod::lemma_mod_add_multiples_vanish(
                    (self.angle + delta - 65536) as int,
                    65536,
                );
            }
            self.angle = self.angle + delta - 65536;
        }
        proof {
            vstd::arithmetic::div_mod::lemma_small_mod(self.angle as nat, 65536);
        }
    }
}

/// `d * c / 1000` with the sign handled so that both executable divisions
/// run on non-negative operands.
pub open spec fn spec_step_component(d: int, c: int) -> int {
    if d >= 0 && c >= 0 {
        (d * c) / 1000
    } else if d >= 0 {
        -((d * (-c)) / 1000)
    } else if c >= 0 {
        -(((-d) * c) / 1000)
    } else {
        ((-d) * (-c)) / 1000
    }
}

/// Negating the distance negates the step contribution.
proof fn lemma_step_component_neg(d: int, c: int)
    ensures
        spec_step_component(-d, c) == -spec_step_component(d, c),
{
    assert(0 * c == 0) by (nonlinear_arith);
    assert(0 * (-c) == 0) by (nonlinear_arith);
    assert((-d) * (-c) == d * c) by (nonlinear_arith);
    assert((-d) * c == d * (-c)) by (nonlinear_arith);
}

/// One movement step's contribution along an axis: the distance scaled by a
/// fixed-point direction component.
pub fn step_component(d: i64, c: i64) -> (r: i64)
    requires
        0 <= d <= 1000000,
        -1000 <= c <= 1000,
    ensures
        r == spec_step_component(d as int, c as int),
        -1000000 <= r <= 1000000,
{
    if c >= 0 {
        proof {
            assert(0 <= d * c <= 1000000000) by (nonlinear_arith)
                requires
                    0 <= d <= 1000000,
                    0 <= c <= 1000,
            ;
        }
        (d * c) / 1000
    } else {
        proof {
            assert(0 <= d * (-c) <= 1000000000) by (nonlinear_arith)
                requires
                    0 <= d <= 1000000,
                    0 < -c <= 1000,
            ;
        }
        -((d * (-c)) / 1000)
    }
}

/// One frame of movement keys and mouse turn, applied in the order the
/// original event loop used: forward, backward, turn left, turn right, then
/// the mouse turn.  `mouse_turn` is the horizontal mouse movement already
/// scaled to angle units; a negative value turns left.
pub fn process_events(
    player: &mut Player,
    maze: &Grid,
    forward: bool,
    backward: bool,
    left: bool,
    right: bool,
    mouse_turn: i64,
)
    requires
        old(player).wf(),
        maze.wf(),
        -65535 <= mouse_turn <= 65535,
    ensures
        final(player).wf(),
        *final(player) == spec_process_events(
            *old(player),
            maze,
            forward,
            backward,
            left,
            right,
            mouse_turn as int,
        ),
{
    if forward {
        player.move_forward(100000, maze);
    }
    if backward {
        player.move_backward(100000, maze);
    }
    if left {
        player.turn_left(522);
    }
    if right {
        player.turn_right(522);
    }
    if mouse_turn >= 0 {
        player.turn_right(mouse_turn);
    } else {
        player.turn_left(-mouse_turn);
    }
}

/// The player state after one frame of inputs, mirroring `process_events`.
pub open spec fn spec_process_events(
    p: Player,
    maze: &Grid,
    forward: bool,
    backward: bool,
    left: bool,
    right: bool,
    mouse_turn: int,
) -> Player {
    let p1 = if forward {
        Player::spec_moved(p, maze, 100000)
    } else {
        p
    };
    let p2 = if backward {
        Player::spec_moved(p1, maze, -100000)
    } else {
        p1
    };
    let p3 = if left {
        Player { angle: ((p2.angle - 522 + 65536) % 65536) as i64, ..p2 }
    } else {
        p2
    };
    let p4 = if right {
        Player { angle: ((p3.angle + 522) % 65536) as i64, ..p3 }
    } else {
        p3
    };
    if mouse_turn >= 0 {
        Player { angle: ((p4.angle + mouse_turn) % 65536) as i64, ..p4 }
    } else {
        Player { angle: ((p4.angle + mouse_turn + 65536) % 65536) as i64, ..p4 }
    }
}

/// One frame of start-screen input: a pressed down or up key moves the
/// selection between the two buttons, and a pressed confirm key starts the
/// selected level.
pub fn process_start_screen_input(selected: &mut usize, up: bool, down: bool, confirm: bool) -> (r:
    Option<usize>)
    requires
        *old(selected) < 2,
    ensures
        *final(selected) < 2,
        *final(selected) == spec_start_screen_selection(*old(selected) as int, up, down),
        r == if confirm {
            Some(*final(selected))
        } else {
            None::<usize>
        },
{
    if down {
        *selected = (*selected + 1) % 2;
    }
    if up {
        *selected = (*selected + 1 + 2 - 1) % 2;
    }
    if confirm {
        Some(*selected)
    } else {
        None
    }
}

/// The button selection after one frame of up/down keys, mirroring the
/// original order: down first, then up, each stepping by one with
/// wrap-around.
pub open spec fn spec_start_screen_selection(selected: int, up: bool, down: bool) -> int {
    let s1 = if down {
        (selected + 1) % 2
    } else {
        selected
    };
    if up {
        (s1 + 2) % 2
    } else {
        s1
    }
}

} // verus!
