//! The column renderer: one ray per screen column, each hit turned into a
//! vertically centered, texture-mapped wall slice.
//!
//! Column angles are spaced evenly across the field of view, the original
//! behaviour of the renderer; this is not a planar (tangent-based)
//! projection and shows a mild fisheye curvature near the view edges.
//! Apparent slice height is the surface height divided by the hit distance,
//! clamped to the surface, with a floor on the distance so a touching wall
//! cannot blow the division up.

use vstd::prelude::*;

verus! {

use crate::framebuffer::{lemma_idx_bound, Framebuffer};
use crate::grid::{Cell, Grid};
use crate::player::Player;
use crate::raycaster::{cast_ray, lemma_cast_bounds, spec_cast, Intersect};
use crate::trig::{normalize_angle, spec_cos, spec_sin};

/// The ray angle of screen column `i` out of `w`: the left edge of the
/// field of view plus `i/w` of it, normalized.
pub open spec fn spec_column_angle(angle: int, fov: int, i: int, w: int) -> int {
    (angle - fov / 2 + (i * fov) / w) % 65536
}

/// The cast of screen column `i` out of `w` from the player's position.
pub open spec fn spec_column_cast(g: &Grid, p: &Player, i: int, w: int) -> Intersect {
    let a = spec_column_angle(p.angle as int, p.fov as int, i, w);
    spec_cast(g, p.x as int, p.y as int, spec_cos(a), spec_sin(a))
}

/// Apparent wall-slice height in pixels for a hit at `distance`: surface
/// height over distance in cells, the distance floored at a tenth of a cell
/// and the result clamped to `[1, surface_height]`.
pub open spec fn spec_wall_height(sh: int, distance: int) -> int {
    let d = if distance < 100000 {
        100000int
    } else {
        distance
    };
    let h = (sh * 1000000) / d;
    if h < 1 {
        1int
    } else if h > sh {
        sh
    } else {
        h
    }
}

/// Top row of a centered slice of height `h` on a surface of height `sh`.
pub open spec fn spec_wall_top(sh: int, h: int) -> int {
    (sh - h) / 2
}

/// The texture color of a wall slice: the horizontal band is picked by the
/// hit offset within the cell, the vertical coordinate by the row's
/// position inside the slice.
pub open spec fn spec_tex_color(
    tex: Seq<u32>,
    tw: int,
    th: int,
    hit_x: int,
    yrel: int,
    h: int,
) -> u32 {
    let tx = (hit_x * tw) / 1000000;
    let ty = (yrel * th) / h;
    tex[ty * tw + tx]
}

/// What one surface pixel shows after the wall pass: the slice texel where
/// the column's cast hit a wall and the row lies inside the slice, and the
/// pixel's previous color everywhere else.
pub open spec fn spec_fov_pixel(
    g: &Grid,
    p: &Player,
    tex: Seq<u32>,
    tw: int,
    th: int,
    base: u32,
    sh: int,
    w: int,
    x: int,
    y: int,
) -> u32 {
    let it = spec_column_cast(g, p, x, w);
    if it.wall_type != Cell::Open {
        let h = spec_wall_height(sh, it.distance as int);
        let top = spec_wall_top(sh, h);
        if top <= y < top + h {
            spec_tex_color(tex, tw, th, it.hit_x as int, y - top, h)
        } else {
            base
        }
    } else {
        base
    }
}

/// Wall-slice height is inverse in the distance.  The rendered pixel
/// height never grows as the distance grows; the exact rational heights
/// `sh/d1` and `sh/d2` compare strictly, stated by cross multiplication
/// since the pixel height floors them; and away from the one-pixel floor
/// and the full-height clamp, at least doubling the distance strictly
/// shrinks even the rendered pixel height.
pub proof fn lemma_height_antitone(sh: int, d1: int, d2: int)
    requires
        1 <= sh,
        0 < d1 < d2,
    ensures
        spec_wall_height(sh, d2) <= spec_wall_height(sh, d1),
        (sh * 1000000) * d2 > (sh * 1000000) * d1,
        (100000 <= d1 && 2 * d1 <= d2 && 2 <= spec_wall_height(sh, d1) && (sh * 1000000) / d1
            <= sh) ==> spec_wall_height(sh, d2) < spec_wall_height(sh, d1),
{
    let g1 = if d1 < 100000 {
        100000int
    } else {
        d1
    };
    let g2 = if d2 < 100000 {
        100000int
    } else {
        d2
    };
    assert(g1 <= g2);
    vstd::arithmetic::div_mod::lemma_div_is_ordered_by_denominator(sh * 1000000, g1, g2);
    assert((sh * 1000000) * d2 > (sh * 1000000) * d1) by (nonlinear_arith)
        requires
            1 <= sh,
            0 < d1 < d2,
    ;
    if 100000 <= d1 && 2 * d1 <= d2 && 2 <= spec_wall_height(sh, d1) && (sh * 1000000) / d1
        <= sh {
        let h1 = (sh * 1000000) / d1;
        assert(spec_wall_height(sh, d1) == h1);
        vstd::arithmetic::div_mod::lemma_div_is_ordered_by_denominator(sh * 1000000, 2 * d1, d2);
        vstd::arithmetic::div_mod::lemma_div_denominator(sh * 1000000, d1, 2);
        assert(d1 * 2 == 2 * d1) by (nonlinear_arith);
        assert((sh * 1000000) / d2 <= h1 / 2);
    }
}

/// Wall-slice height in pixels for a hit at the given distance.
pub fn wall_height(sh: usize, distance: i64) -> (r: usize)
    requires
        1 <= sh <= 16384,
        0 <= distance,
    ensures
        r == spec_wall_height(sh as int, distance as int),
        1 <= r <= sh,
{
    let d = if distance < 100000 {
        100000
    } else {
        distance
    };
    let h = (sh as i64 * 1000000) / d;
    if h < 1 {
        1
    } else if h > sh as i64 {
        sh
    } else {
        h as usize
    }
}

/// One texel of the wall texture, sampled for a slice row.
fn tex_sample(tex: &Vec<u32>, tw: usize, th: usize, hit_x: i64, yrel: i64, h: i64) -> (c: u32)
    requires
        tex@.len() == tw * th,
        1 <= tw <= 16384,
        1 <= th <= 16384,
        0 <= hit_x < 1000000,
        1 <= h <= 16384,
        0 <= yrel < h,
    ensures
        c == spec_tex_color(tex@, tw as int, th as int, hit_x as int, yrel as int, h as int),
{
    proof {
        assert(0 <= hit_x * tw < 1000000 * (tw as int)) by (nonlinear_arith)
            requires
                0 <= hit_x < 1000000,
                1 <= tw,
        ;
        assert((hit_x as int) * (tw as int) / 1000000 < tw as int) by (nonlinear_arith)
            requires
                0 <= (hit_x as int) * (tw as int) < 1000000 * (tw as int),
        ;
        assert(0 <= yrel * th < (h as int) * (th as int)) by (nonlinear_arith)
            requires
                0 <= yrel < h,
                1 <= th,
        ;
        assert((yrel as int) * (th as int) / (h as int) < th as int) by (nonlinear_arith)
            requires
                0 <= (yrel as int) * (th as int) < (h as int) * (th as int),
                1 <= h,
        ;
    }
    proof {
        assert((yrel as int) * (th as int) <= 268435456) by (nonlinear_arith)
            requires
                0 <= yrel <= 16384,
                0 <= th <= 16384,
        ;
        crate::framebuffer::lemma_area_bound(tw as int, th as int);
    }
    let tx = (hit_x * tw as i64) / 1000000;
    let ty = (yrel * th as i64) / h;
    proof {
        lemma_idx_bound(tw as int, th as int, tx as int, ty as int);
    }
    let idx = (ty as usize) * tw + (tx as usize);
    tex[idx]
}

/// What one surface pixel shows after a plain image blit: the source pixel
/// where the destination lies in the image rectangle and the source index
/// exists, and the previous color everywhere else.
pub open spec fn spec_image_pixel(
    img: Seq<u32>,
    iw: int,
    ih: int,
    xo: int,
    yo: int,
    base: u32,
    x: int,
    y: int,
) -> u32 {
    if xo <= x < xo + iw && yo <= y < yo + ih && (y - yo) * iw + (x - xo) < img.len() {
        img[(y - yo) * iw + (x - xo)]
    } else {
        base
    }
}

/// Copies a decoded image onto the surface with its top-left corner at
/// `(x_offset, y_offset)`, clipping to the surface and skipping source
/// indices past the end of the pixel data.
pub fn render_image(
    framebuffer: &mut Framebuffer,
    image: &Vec<u32>,
    image_width: usize,
    image_height: usize,
    x_offset: usize,
    y_offset: usize,
)
    requires
        old(framebuffer).wf(),
        image_width <= 16384,
        image_height <= 16384,
        x_offset <= 20000000,
        y_offset <= 20000000,
    ensures
        final(framebuffer).wf(),
        final(framebuffer).same_dims(old(framebuffer)),
        forall|a: int, b: int|
            0 <= a < final(framebuffer).width && 0 <= b < final(framebuffer).height
                ==> #[trigger] final(framebuffer).pixel(a, b) == spec_image_pixel(
                image@,
                image_width as int,
                image_height as int,
                x_offset as int,
                y_offset as int,
                old(framebuffer).pixel(a, b),
                a,
                b,
            ),
{
    let mut y: usize = 0;
    while y < image_height
        invariant
            framebuffer.wf(),
            framebuffer.same_dims(old(framebuffer)),
            image_width <= 16384,
            image_height <= 16384,
            x_offset <= 20000000,
            y_offset <= 20000000,
            0 <= y <= image_height,
            forall|a: int, b: int|
                0 <= a < framebuffer.width && 0 <= b < framebuffer.height
                    ==> #[trigger] framebuffer.pixel(a, b) == (if b < y_offset + y {
                    spec_image_pixel(
                        image@,
                        image_width as int,
                        image_height as int,
                        x_offset as int,
                        y_offset as int,
                        old(framebuffer).pixel(a, b),
                        a,
                        b,
                    )
                } else {
                    old(framebuffer).pixel(a, b)
                }),
        decreases image_height - y,
    {
        let mut x: usize = 0;
        while x < image_width
            invariant
                framebuffer.wf(),
                framebuffer.same_dims(old(framebuffer)),
                image_width <= 16384,
                image_height <= 16384,
                x_offset <= 20000000,
                y_offset <= 20000000,
                0 <= y < image_height,
                0 <= x <= image_width,
                forall|a: int, b: int|
                    0 <= a < framebuffer.width && 0 <= b < framebuffer.height
                        ==> #[trigger] framebuffer.pixel(a, b) == (if b < y_offset + y || (b
                        == y_offset + y && a < x_offset + x) {
                        spec_image_pixel(
                            image@,
                            image_width as int,
                            image_height as int,
                            x_offset as int,
                            y_offset as int,
                            old(framebuffer).pixel(a, b),
                            a,
                            b,
                        )
                    } else {
                        old(framebuffer).pixel(a, b)
                    }),
            decreases image_width - x,
        {
            proof {
                assert(0 <= (y as int) * (image_width as int) <= 268435456) by (nonlinear_arith)
                    requires
                        0 <= y <= 16384,
                        0 <= image_width <= 16384,
                ;
            }
            let pixel_index = y * image_width + x;
            let ghost pre = *framebuffer;
            if pixel_index < image.len() {
                framebuffer.point(x_offset + x, y_offset + y, image[pixel_index]);
            }
            proof {
                assert forall|a: int, b: int|
                    0 <= a < framebuffer.width && 0 <= b < framebuffer.height
                        implies #[trigger] framebuffer.pixel(a, b) == (if b < y_offset + y || (b
                    == y_offset + y && a < x_offset + x + 1) {
                    spec_image_pixel(
                        image@,
                        image_width as int,
                        image_height as int,
                        x_offset as int,
                        y_offset as int,
                        old(framebuffer).pixel(a, b),
                        a,
                        b,
                    )
                } else {
                    old(framebuffer).pixel(a, b)
                }) by {
                    if a == x_offset + x && b == y_offset + y {
                        assert((b - y_offset) * (image_width as int) + (a - x_offset) == (
                        y as int) * (image_width as int) + x as int);
                    } else {
                        assert(framebuffer.pixel(a, b) == pre.pixel(a, b));
                    }
                }
            }
            x = x + 1;
        }
        y = y + 1;
    }
}

/// Color of one grid cell on the top-down map: walls black, the spawn
/// marker green, the goal red, everything else the caller's floor color.
pub open spec fn spec_minimap_color(c: Cell, open_color: u32) -> u32 {
    if c.spec_is_wall() {
        0xFF000000u32
    } else if c == Cell::Spawn {
        0xFF00FF00u32
    } else if c == Cell::Goal {
        0xFFFF0000u32
    } else {
        open_color
    }
}

impl Framebuffer {
    /// Draws the grid as colored `cell_size` blocks with the map's
    /// top-left corner at `(ox, oy)`, clipped to the surface.
    pub fn draw_grid_cells(&mut self, maze: &Grid, cell_size: usize, ox: usize, oy: usize, open_color: u32)
        requires
            old(self).wf(),
            maze.wf(),
            1 <= cell_size <= 10000,
            ox <= 1000000,
            oy <= 1000000,
        ensures
            final(self).wf(),
            final(self).same_dims(old(self)),
            forall|a: int, b: int|
                0 <= a < final(self).width && 0 <= b < final(self).height
                    ==> #[trigger] final(self).pixel(a, b) == (if ox <= a < ox
                    + maze.spec_width() * cell_size && oy <= b < oy
                    + maze.spec_height() * cell_size {
                    spec_minimap_color(
                        maze.cell((b - oy) / (cell_size as int), (a - ox) / (cell_size as int)),
                        open_color,
                    )
                } else {
                    old(self).pixel(a, b)
                }),
    {
        let h = maze.height();
        let w = maze.width();
        proof {
            assert((w as int) * (cell_size as int) <= 10000000 && (h as int) * (cell_size as int)
                <= 10000000) by (nonlinear_arith)
                requires
                    0 <= w <= 1000,
                    0 <= h <= 1000,
                    0 <= cell_size <= 10000,
            ;
        }
        let mut row: usize = 0;
        while row < h
            invariant
                self.wf(),
                self.same_dims(old(self)),
                maze.wf(),
                w == maze.spec_width(),
                h == maze.spec_height(),
                1 <= cell_size <= 10000,
                ox <= 1000000,
                oy <= 1000000,
                (w as int) * (cell_size as int) <= 10000000,
                (h as int) * (cell_size as int) <= 10000000,
                0 <= row <= h,
                forall|a: int, b: int|
                    0 <= a < self.width && 0 <= b < self.height ==> #[trigger] self.pixel(a, b)
                        == (if ox <= a < ox + w * cell_size && oy <= b < oy + (row as int)
                        * cell_size {
                        spec_minimap_color(
                            maze.cell(
                                (b - oy) / (cell_size as int),
                                (a - ox) / (cell_size as int),
                            ),
                            open_color,
                        )
                    } else {
                        old(self).pixel(a, b)
                    }),
            decreases h - row,
        {
            let mut col: usize = 0;
            while col < w
                invariant
                    self.wf(),
                    self.same_dims(old(self)),
                    maze.wf(),
                    w == maze.spec_width(),
                    h == maze.spec_height(),
                    1 <= cell_size <= 10000,
                    ox <= 1000000,
                    oy <= 1000000,
                    (w as int) * (cell_size as int) <= 10000000,
                    (h as int) * (cell_size as int) <= 10000000,
                    0 <= row < h,
                    0 <= col <= w,
                    forall|a: int, b: int|
                        0 <= a < self.width && 0 <= b < self.height ==> #[trigger] self.pixel(
                            a,
                            b,
                        ) == (if ox <= a < ox + w * cell_size && (oy <= b < oy + (row as int)
                            * cell_size || (oy + (row as int) * cell_size <= b < oy + (row as int)
                            * cell_size + cell_size && a < ox + (col as int) * cell_size)) {
                            spec_minimap_color(
                                maze.cell(
                                    (b - oy) / (cell_size as int),
                                    (a - ox) / (cell_size as int),
                                ),
                                open_color,
                            )
                        } else {
                            old(self).pixel(a, b)
                        }),
                decreases w - col,
            {
                let cell = maze.at(row, col);
                let color = if cell.is_wall() {
                    0xFF000000
                } else if cell == Cell::Spawn {
                    0xFF00FF00
                } else if cell == Cell::Goal {
                    0xFFFF0000
                } else {
                    open_color
                };
                proof {
                    assert(0 <= (col as int) * (cell_size as int) && (col as int + 1) * (
                    cell_size as int) <= (w as int) * (cell_size as int) && (col as int + 1) * (
                    cell_size as int) == (col as int) * (cell_size as int) + cell_size as int)
                        by (nonlinear_arith)
                        requires
                            0 <= col < w as int,
                            1 <= cell_size,
                    ;
                    assert(0 <= (row as int) * (cell_size as int) && (row as int + 1) * (
                    cell_size as int) <= (h as int) * (cell_size as int) && (row as int + 1) * (
                    cell_size as int) == (row as int) * (cell_size as int) + cell_size as int)
                        by (nonlinear_arith)
                        requires
                            0 <= row < h as int,
                            1 <= cell_size,
                    ;
                }
                let ghost pre = *self;
                self.draw_rect(
                    ox + col * cell_size,
                    oy + row * cell_size,
                    cell_size,
                    cell_size,
                    color,
                );
                proof {
                    assert forall|a: int, b: int|
                        0 <= a < self.width && 0 <= b < self.height implies #[trigger] self.pixel(
                        a,
                        b,
                    ) == (if ox <= a < ox + w * cell_size && (oy <= b < oy + (row as int)
                        * cell_size || (oy + (row as int) * cell_size <= b < oy + (row as int)
                        * cell_size + cell_size && a < ox + (col as int + 1) * cell_size)) {
                        spec_minimap_color(
                            maze.cell(
                                (b - oy) / (cell_size as int),
                                (a - ox) / (cell_size as int),
                            ),
                            open_color,
                        )
                    } else {
                        old(self).pixel(a, b)
                    }) by {
                        let cs = cell_size as int;
                        if Framebuffer::in_rect(
                            ox as int + (col as int) * cs,
                            oy as int + (row as int) * cs,
                            cs,
                            cs,
                            a,
                            b,
                        ) {
                            vstd::arithmetic::div_mod::lemma_fundamental_div_mod_converse(
                                a - ox,
                                cs,
                                col as int,
                                a - ox - (col as int) * cs,
                            );
                            vstd::arithmetic::div_mod::lemma_fundamental_div_mod_converse(
                                b - oy,
                                cs,
                                row as int,
                                b - oy - (row as int) * cs,
                            );
                        } else {
                            assert(self.pixel(a, b) == pre.pixel(a, b));
                            if ox <= a < ox + w * cell_size && oy + (row as int) * cs <= b < oy + (
                            row as int) * cs + cs && a < ox + (col as int + 1) * cs {
                                if a >= ox + (col as int) * cs {
                                    assert(Framebuffer::in_rect(
                                        ox as int + (col as int) * cs,
                                        oy as int + (row as int) * cs,
                                        cs,
                                        cs,
                                        a,
                                        b,
                                    ));
                                } else {
                                    vstd::arithmetic::div_mod::lemma_fundamental_div_mod(
                                        b - oy,
                                        cs,
                                    );
                                }
                            }
                        }
                    }
                }
                col = col + 1;
            }
            proof {
                assert forall|a: int, b: int|
                    0 <= a < self.width && 0 <= b < self.height implies #[trigger] self.pixel(
                    a,
                    b,
                ) == (if ox <= a < ox + w * cell_size && oy <= b < oy + (row as int + 1)
                    * cell_size {
                    spec_minimap_color(
                        maze.cell((b - oy) / (cell_size as int), (a - ox) / (cell_size as int)),
                        open_color,
                    )
                } else {
                    old(self).pixel(a, b)
                }) by {
                    let cs = cell_size as int;
                    assert((row as int + 1) * cs == (row as int) * cs + cs) by (nonlinear_arith);
                    assert(col as int == w as int);
                }
            }
            row = row + 1;
        }
    }

    /// Draws the player's position as a filled block on the top-down map.
    pub fn render_player(&mut self, player: &Player, cell_size: usize)
        requires
            old(self).wf(),
            player.wf(),
            1 <= cell_size <= 10000,
        ensures
            final(self).wf(),
            final(self).same_dims(old(self)),
            forall|a: int, b: int|
                0 <= a < final(self).width && 0 <= b < final(self).height
                    ==> #[trigger] final(self).pixel(a, b) == (if Self::in_rect(
                    crate::grid::spec_box_cell(player.x as int) * cell_size,
                    crate::grid::spec_box_cell(player.y as int) * cell_size,
                    cell_size as int,
                    cell_size as int,
                    a,
                    b,
                ) {
                    0xFF00FF00u32
                } else {
                    old(self).pixel(a, b)
                }),
    {
        let cx = if player.x < 0 {
            0
        } else {
            (player.x / 1000000) as usize
        };
        let cy = if player.y < 0 {
            0
        } else {
            (player.y / 1000000) as usize
        };
        proof {
            assert(0 <= (cx as int) * (cell_size as int) <= 20000000 && 0 <= (cy as int) * (
            cell_size as int) <= 20000000) by (nonlinear_arith)
                requires
                    0 <= cx <= 2000,
                    0 <= cy <= 2000,
                    1 <= cell_size <= 10000,
            ;
        }
        self.draw_rect(cx * cell_size, cy * cell_size, cell_size, cell_size, 0xFF00FF00);
    }
}

impl Framebuffer {
    /// The wall pass: casts one ray per screen column and draws each hit as
    /// a centered, clamped, texture-mapped vertical slice; rows outside a
    /// slice and columns whose ray misses keep their previous color.
    pub fn render_fov(
        &mut self,
        maze: &Grid,
        player: &Player,
        wall_texture: &Vec<u32>,
        texture_width: usize,
        texture_height: usize,
    )
        requires
            old(self).wf(),
            1 <= old(self).width,
            1 <= old(self).height,
            maze.wf(),
            player.wf(),
            wall_texture@.len() == texture_width * texture_height,
            1 <= texture_width <= 16384,
            1 <= texture_height <= 16384,
        ensures
            final(self).wf(),
            final(self).same_dims(old(self)),
            forall|x: int, y: int|
                0 <= x < final(self).width && 0 <= y < final(self).height
                    ==> #[trigger] final(self).pixel(x, y) == spec_fov_pixel(
                    maze,
                    player,
                    wall_texture@,
                    texture_width as int,
                    texture_height as int,
                    old(self).pixel(x, y),
                    old(self).height as int,
                    old(self).width as int,
                    x,
                    y,
                ),
    {
        let w = self.width;
        let sh = self.height;
        let mut x: usize = 0;
        while x < w
            invariant
                self.wf(),
                self.same_dims(old(self)),
                w == self.width,
                sh == self.height,
                1 <= w,
                1 <= sh <= 16384,
                maze.wf(),
                player.wf(),
                wall_texture@.len() == texture_width * texture_height,
                1 <= texture_width <= 16384,
                1 <= texture_height <= 16384,
                0 <= x <= w,
                forall|a: int, b: int|
                    0 <= a < w && 0 <= b < sh ==> #[trigger] self.pixel(a, b) == (if a < x {
                        spec_fov_pixel(
                            maze,
                            player,
                            wall_texture@,
                            texture_width as int,
                            texture_height as int,
                            old(self).pixel(a, b),
                            sh as int,
                            w as int,
                            a,
                            b,
                        )
                    } else {
                        old(self).pixel(a, b)
                    }),
            decreases w - x,
        {
            proof {
                assert(0 <= (x as int) * (player.fov as int) <= 536870912) by (nonlinear_arith)
                    requires
                        0 <= x <= 16384,
                        0 <= player.fov <= 32768,
                ;
            }
            let a = normalize_angle(
                player.angle - player.fov / 2 + ((x as i64) * player.fov) / (w as i64),
            );
            let it = cast_ray(maze, player.x, player.y, a);
            proof {
                assert(a as int == spec_column_angle(
                    player.angle as int,
                    player.fov as int,
                    x as int,
                    w as int,
                ));
                assert(it == spec_column_cast(maze, player, x as int, w as int));
                lemma_cast_bounds(
                    maze,
                    player.x as int,
                    player.y as int,
                    spec_cos(a as int),
                    spec_sin(a as int),
                );
            }
            if !(it.wall_type == Cell::Open) {
                let h = wall_height(sh, it.distance);
                let top = (sh - h) / 2;
                let bottom = top + h;
                let mut y = top;
                while y < bottom
                    invariant
                        self.wf(),
                        self.same_dims(old(self)),
                        w == self.width,
                        sh == self.height,
                        1 <= w,
                        1 <= sh <= 16384,
                        maze.wf(),
                        player.wf(),
                        wall_texture@.len() == texture_width * texture_height,
                        1 <= texture_width <= 16384,
                        1 <= texture_height <= 16384,
                        0 <= x < w,
                        it == spec_column_cast(maze, player, x as int, w as int),
                        it.wall_type != Cell::Open,
                        0 <= it.hit_x < 1000000,
                        h == spec_wall_height(sh as int, it.distance as int),
                        1 <= h <= sh,
                        top == spec_wall_top(sh as int, h as int),
                        bottom == top + h,
                        top <= y <= bottom,
                        forall|a2: int, b: int|
                            0 <= a2 < w && 0 <= b < sh ==> #[trigger] self.pixel(a2, b) == (if a2
                                < x || (a2 == x && top <= b < y) {
                                spec_fov_pixel(
                                    maze,
                                    player,
                                    wall_texture@,
                                    texture_width as int,
                                    texture_height as int,
                                    old(self).pixel(a2, b),
                                    sh as int,
                                    w as int,
                                    a2,
                                    b,
                                )
                            } else {
                                old(self).pixel(a2, b)
                            }),
                    decreases bottom - y,
                {
                    let c = tex_sample(
                        wall_texture,
                        texture_width,
                        texture_height,
                        it.hit_x,
                        (y - top) as i64,
                        h as i64,
                    );
                    self.point(x, y, c);
                    y = y + 1;
                }
            }
            x = x + 1;
        }
    }
}

} // verus!

verus! {

use crate::grid::spec_box_cell;
use crate::sprite::{
    render_cat_in_3d,
    spec_corner,
    spec_occluded,
    spec_project,
    spec_scaled_len,
    spec_sprite_pixel,
    Point3,
};

/// A world coordinate scaled onto the top-down map: cells times the map's
/// cell size, floored at zero as the original's float-to-index cast did.
pub open spec fn spec_map_coord(v: int, cs: int) -> int {
    if v < 0 {
        0
    } else {
        (v * cs) / 1000000
    }
}

/// A world coordinate scaled onto the top-down map.
fn map_coord(v: i64, cs: usize) -> (r: usize)
    requires
        -1000000000 <= v <= 1000000000,
        1 <= cs <= 10000,
    ensures
        r == spec_map_coord(v as int, cs as int),
        r <= 10000000,
{
    if v < 0 {
        0
    } else {
        proof {
            assert(0 <= (v as int) * (cs as int) <= 10000000000000) by (nonlinear_arith)
                requires
                    0 <= (v as int) <= 1000000000,
                    1 <= (cs as int) <= 10000,
            ;
            assert((v as int) * (cs as int) / 1000000 <= 10000000) by (nonlinear_arith)
                requires
                    0 <= (v as int) * (cs as int) <= 10000000000000,
            ;
        }
        ((v * cs as i64) / 1000000) as usize
    }
}

/// Whether any of the first `n` anchors' map dots covers the point
/// `(a, b)`: each dot is a quarter-cell block at the anchor's scaled map
/// position.
pub open spec fn spec_any_cat_dot(
    cats: Seq<Point3>,
    n: int,
    cs: int,
    ox: int,
    oy: int,
    a: int,
    b: int,
) -> bool
    decreases n,
{
    if n <= 0 {
        false
    } else {
        Framebuffer::in_rect(
            ox + spec_map_coord(cats[n - 1].x as int, cs),
            oy + spec_map_coord(cats[n - 1].y as int, cs),
            cs / 4,
            cs / 4,
            a,
            b,
        ) || spec_any_cat_dot(cats, n - 1, cs, ox, oy, a, b)
    }
}

impl Framebuffer {
    /// Draws one quarter-cell dot per anchor onto the top-down map.
    fn render_cat_dots(&mut self, cats: &Vec<Point3>, cs: usize, ox: usize, oy: usize)
        requires
            old(self).wf(),
            1 <= cs <= 10000,
            ox <= 1000000,
            oy <= 1000000,
            forall|i: int| 0 <= i < cats@.len() ==> (#[trigger] cats@[i]).wf(),
        ensures
            final(self).wf(),
            final(self).same_dims(old(self)),
            forall|a: int, b: int|
                0 <= a < final(self).width && 0 <= b < final(self).height
                    ==> #[trigger] final(self).pixel(a, b) == (if spec_any_cat_dot(
                    cats@,
                    cats@.len() as int,
                    cs as int,
                    ox as int,
                    oy as int,
                    a,
                    b,
                ) {
                    0xFFFF00FFu32
                } else {
                    old(self).pixel(a, b)
                }),
    {
        let mut i: usize = 0;
        while i < cats.len()
            invariant
                self.wf(),
                self.same_dims(old(self)),
                1 <= cs <= 10000,
                ox <= 1000000,
                oy <= 1000000,
                forall|j: int| 0 <= j < cats@.len() ==> (#[trigger] cats@[j]).wf(),
                0 <= i <= cats@.len(),
                forall|a: int, b: int|
                    0 <= a < self.width && 0 <= b < self.height ==> #[trigger] self.pixel(a, b)
                        == (if spec_any_cat_dot(
                        cats@,
                        i as int,
                        cs as int,
                        ox as int,
                        oy as int,
                        a,
                        b,
                    ) {
                        0xFFFF00FFu32
                    } else {
                        old(self).pixel(a, b)
                    }),
            decreases cats@.len() - i,
        {
            let c = cats[i];
            let dot_x = ox + map_coord(c.x, cs);
            let dot_y = oy + map_coord(c.y, cs);
            let ghost pre = *self;
            self.draw_rect(dot_x, dot_y, cs / 4, cs / 4, 0xFFFF00FF);
            proof {
                assert forall|a: int, b: int|
                    0 <= a < self.width && 0 <= b < self.height implies #[trigger] self.pixel(
                    a,
                    b,
                ) == (if spec_any_cat_dot(
                    cats@,
                    i as int + 1,
                    cs as int,
                    ox as int,
                    oy as int,
                    a,
                    b,
                ) {
                    0xFFFF00FFu32
                } else {
                    old(self).pixel(a, b)
                }) by {
                    assert(spec_any_cat_dot(
                        cats@,
                        i as int + 1,
                        cs as int,
                        ox as int,
                        oy as int,
                        a,
                        b,
                    ) == (Framebuffer::in_rect(
                        ox as int + spec_map_coord(cats@[i as int].x as int, cs as int),
                        oy as int + spec_map_coord(cats@[i as int].y as int, cs as int),
                        (cs as int) / 4,
                        (cs as int) / 4,
                        a,
                        b,
                    ) || spec_any_cat_dot(cats@, i as int, cs as int, ox as int, oy as int, a, b)));
                }
            }
            i = i + 1;
        }
    }
}

/// The top-down map pixel after the maze view with its per-anchor image
/// overlays: the first `n` anchor images drawn in order, later ones over
/// earlier ones, above the colored cell blocks.
pub open spec fn spec_maze_view_pixel(
    g: &Grid,
    cats: Seq<Point3>,
    n: int,
    img: Seq<u32>,
    iw: int,
    ih: int,
    cs: int,
    base: u32,
    x: int,
    y: int,
) -> u32
    decreases n,
{
    if n <= 0 {
        if 0 <= x < g.spec_width() * cs && 0 <= y < g.spec_height() * cs {
            spec_minimap_color(g.cell(y / cs, x / cs), 0xFFFFFFFFu32)
        } else {
            base
        }
    } else {
        spec_image_pixel(
            img,
            iw,
            ih,
            spec_map_coord(cats[n - 1].x as int, cs),
            spec_map_coord(cats[n - 1].y as int, cs),
            spec_maze_view_pixel(g, cats, n - 1, img, iw, ih, cs, base, x, y),
            x,
            y,
        )
    }
}

/// Draws the whole maze as a top-down map at the surface origin: colored
/// cell blocks with one anchor image drawn at each anchor's scaled
/// position.
pub fn render_maze(
    framebuffer: &mut Framebuffer,
    maze: &Grid,
    cell_size: usize,
    cat_positions: &Vec<Point3>,
    cat_img: &Vec<u32>,
    cat_width: usize,
    cat_height: usize,
)
    requires
        old(framebuffer).wf(),
        maze.wf(),
        1 <= cell_size <= 10000,
        cat_width <= 16384,
        cat_height <= 16384,
        forall|i: int| 0 <= i < cat_positions@.len() ==> (#[trigger] cat_positions@[i]).wf(),
    ensures
        final(framebuffer).wf(),
        final(framebuffer).same_dims(old(framebuffer)),
        forall|a: int, b: int|
            0 <= a < final(framebuffer).width && 0 <= b < final(framebuffer).height
                ==> #[trigger] final(framebuffer).pixel(a, b) == spec_maze_view_pixel(
                maze,
                cat_positions@,
                cat_positions@.len() as int,
                cat_img@,
                cat_width as int,
                cat_height as int,
                cell_size as int,
                old(framebuffer).pixel(a, b),
                a,
                b,
            ),
{
    framebuffer.draw_grid_cells(maze, cell_size, 0, 0, 0xFFFFFFFF);
    let mut i: usize = 0;
    while i < cat_positions.len()
        invariant
            framebuffer.wf(),
            framebuffer.same_dims(old(framebuffer)),
            maze.wf(),
            1 <= cell_size <= 10000,
            cat_width <= 16384,
            cat_height <= 16384,
            forall|j: int| 0 <= j < cat_positions@.len() ==> (#[trigger] cat_positions@[j]).wf(),
            0 <= i <= cat_positions@.len(),
            forall|a: int, b: int|
                0 <= a < framebuffer.width && 0 <= b < framebuffer.height
                    ==> #[trigger] framebuffer.pixel(a, b) == spec_maze_view_pixel(
                    maze,
                    cat_positions@,
                    i as int,
                    cat_img@,
                    cat_width as int,
                    cat_height as int,
                    cell_size as int,
                    old(framebuffer).pixel(a, b),
                    a,
                    b,
                ),
        decreases cat_positions@.len() - i,
    {
        let c = cat_positions[i];
        let x = map_coord(c.x, cell_size);
        let y = map_coord(c.y, cell_size);
        render_image(framebuffer, cat_img, cat_width, cat_height, x, y);
        i = i + 1;
    }
}

} // verus!

verus! {

/// What one surface pixel shows after the whole 2D-overlaid frame: the
/// anchors' map dots above the player's map marker, above the top-right
/// minimap cells, above the ground band below the horizon, above the wall
/// slices over the sky background.
pub open spec fn spec_frame2d_pixel(
    g: &Grid,
    p: &Player,
    cats: Seq<Point3>,
    cs: int,
    tex: Seq<u32>,
    tw: int,
    th: int,
    w: int,
    h: int,
    x: int,
    y: int,
) -> u32 {
    let ox = w - g.spec_width() * cs - 10;
    if spec_any_cat_dot(cats, cats.len() as int, cs, ox, 10, x, y) {
        0xFFFF00FFu32
    } else if Framebuffer::in_rect(
        ox + spec_map_coord(p.x as int, cs),
        10 + spec_map_coord(p.y as int, cs),
        cs,
        cs,
        x,
        y,
    ) {
        0xFF00FF00u32
    } else if ox <= x < ox + g.spec_width() * cs && 10 <= y < 10 + g.spec_height() * cs {
        spec_minimap_color(g.cell((y - 10) / cs, (x - ox) / cs), 0xFF819349u32)
    } else {
        spec_fov_pixel(
            g,
            p,
            tex,
            tw,
            th,
            if y >= h / 2 + 27 {
                0xFF606C38u32
            } else {
                0xFF8ECAE6u32
            },
            h,
            w,
            x,
            y,
        )
    }
}

impl Framebuffer {
    /// Renders one full frame with its 2D overlay: the flat sky and
    /// ground bands split at the horizon, the textured wall pass over
    /// them, and a top-right minimap with the player marker and one dot
    /// per anchor.
    pub fn render_fov_with_2d(
        &mut self,
        maze: &Grid,
        player: &Player,
        cell_size: usize,
        cat_positions: &Vec<Point3>,
        wall_texture: &Vec<u32>,
        texture_width: usize,
        texture_height: usize,
    )
        requires
            old(self).wf(),
            1 <= old(self).width,
            1 <= old(self).height,
            maze.wf(),
            player.wf(),
            -1000000000 <= player.x <= 1000000000,
            -1000000000 <= player.y <= 1000000000,
            1 <= cell_size <= 10000,
            wall_texture@.len() == texture_width * texture_height,
            1 <= texture_width <= 16384,
            1 <= texture_height <= 16384,
            forall|i: int|
                0 <= i < cat_positions@.len() ==> (#[trigger] cat_positions@[i]).wf(),
            maze.spec_width() * cell_size + 10 <= old(self).width,
        ensures
            final(self).wf(),
            final(self).same_dims(old(self)),
            forall|a: int, b: int|
                0 <= a < final(self).width && 0 <= b < final(self).height
                    ==> #[trigger] final(self).pixel(a, b) == spec_frame2d_pixel(
                    maze,
                    player,
                    cat_positions@,
                    cell_size as int,
                    wall_texture@,
                    texture_width as int,
                    texture_height as int,
                    old(self).width as int,
                    old(self).height as int,
                    a,
                    b,
                ),
    {
        let w = self.width;
        let h = self.height;
        proof {
            assert((maze.spec_width()) * (cell_size as int) <= 10000000
                && 0 <= (maze.spec_width()) * (cell_size as int)) by (nonlinear_arith)
                requires
                    0 <= maze.spec_width() <= 1000,
                    0 <= cell_size <= 10000,
            ;
        }
        self.clear();
        self.set_background_color(0xFF8ECAE6);
        let ghost g1 = *self;
        let ground_start = h / 2 + 27;
        let ground_rows = if ground_start < h {
            h - ground_start
        } else {
            0
        };
        self.draw_rect(0, ground_start, w, ground_rows, 0xFF606C38);
        let ghost g2 = *self;
        self.render_fov(maze, player, wall_texture, texture_width, texture_height);
        let ghost g3 = *self;
        let map_width = maze.width() * cell_size;
        let offset_x = w - map_width - 10;
        self.draw_grid_cells(maze, cell_size, offset_x, 10, 0xFF819349);
        let ghost g4 = *self;
        let player_x = offset_x + map_coord(player.x, cell_size);
        let player_y = 10 + map_coord(player.y, cell_size);
        self.draw_rect(player_x, player_y, cell_size, cell_size, 0xFF00FF00);
        let ghost g5 = *self;
        self.render_cat_dots(cat_positions, cell_size, offset_x, 10);
        proof {
            assert forall|a: int, b: int|
                0 <= a < self.width && 0 <= b < self.height implies #[trigger] self.pixel(a, b)
                == spec_frame2d_pixel(
                maze,
                player,
                cat_positions@,
                cell_size as int,
                wall_texture@,
                texture_width as int,
                texture_height as int,
                old(self).width as int,
                old(self).height as int,
                a,
                b,
            ) by {
                assert(g1.pixel(a, b) == 0xFF8ECAE6u32);
                assert(g2.pixel(a, b) == (if Framebuffer::in_rect(
                    0,
                    ground_start as int,
                    w as int,
                    ground_rows as int,
                    a,
                    b,
                ) {
                    0xFF606C38u32
                } else {
                    g1.pixel(a, b)
                }));
                assert(g3.pixel(a, b) == spec_fov_pixel(
                    maze,
                    player,
                    wall_texture@,
                    texture_width as int,
                    texture_height as int,
                    g2.pixel(a, b),
                    h as int,
                    w as int,
                    a,
                    b,
                ));
                assert(g4.pixel(a, b) == (if offset_x <= a < offset_x + maze.spec_width()
                    * cell_size && 10 <= b < 10 + maze.spec_height() * cell_size {
                    spec_minimap_color(
                        maze.cell((b - 10) / (cell_size as int), (a - offset_x) / (
                        cell_size as int)),
                        0xFF819349u32,
                    )
                } else {
                    g3.pixel(a, b)
                }));
                assert(g5.pixel(a, b) == (if Framebuffer::in_rect(
                    player_x as int,
                    player_y as int,
                    cell_size as int,
                    cell_size as int,
                    a,
                    b,
                ) {
                    0xFF00FF00u32
                } else {
                    g4.pixel(a, b)
                }));
                assert(self.pixel(a, b) == (if spec_any_cat_dot(
                    cat_positions@,
                    cat_positions@.len() as int,
                    cell_size as int,
                    offset_x as int,
                    10,
                    a,
                    b,
                ) {
                    0xFFFF00FFu32
                } else {
                    g5.pixel(a, b)
                }));
            }
        }
    }
}

/// What one surface pixel shows after the first `n` sprites are composited
/// over the frame, each projected, gated on the field of view and on wall
/// occlusion, and blitted in order.
pub open spec fn spec_sprites_over(
    img: Seq<u32>,
    iw: int,
    ih: int,
    cats: Seq<Point3>,
    n: int,
    g: &Grid,
    p: &Player,
    w: int,
    h: int,
    base: u32,
    x: int,
    y: int,
) -> u32
    decreases n,
{
    if n <= 0 {
        base
    } else {
        let prev = spec_sprites_over(img, iw, ih, cats, n - 1, g, p, w, h, base, x, y);
        match spec_project(&cats[n - 1], p, w, h) {
            Some((px, py, scale)) => {
                if spec_occluded(g, &cats[n - 1], p) {
                    prev
                } else {
                    let sw = spec_scaled_len(iw, scale, w);
                    let sh = spec_scaled_len(ih, scale, h);
                    spec_sprite_pixel(
                        img,
                        iw,
                        ih,
                        spec_corner(px, sw),
                        spec_corner(py, sh),
                        sw,
                        sh,
                        prev,
                        x,
                        y,
                    )
                }
            },
            None => prev,
        }
    }
}

/// The per-frame entry point: renders the 2D-overlaid scene and then
/// composites every sprite into it in order.
pub fn render_frame(
    framebuffer: &mut Framebuffer,
    maze: &Grid,
    player: &Player,
    cell_size: usize,
    cat_positions: &Vec<Point3>,
    wall_texture: &Vec<u32>,
    texture_width: usize,
    texture_height: usize,
    cat_img: &Vec<u32>,
    cat_width: usize,
    cat_height: usize,
)
    requires
        old(framebuffer).wf(),
        1 <= old(framebuffer).width,
        1 <= old(framebuffer).height,
        maze.wf(),
        player.wf(),
        -1000000000 <= player.x <= 1000000000,
        -1000000000 <= player.y <= 1000000000,
        1 <= cell_size <= 10000,
        wall_texture@.len() == texture_width * texture_height,
        1 <= texture_width <= 16384,
        1 <= texture_height <= 16384,
        cat_img@.len() == cat_width * cat_height,
        1 <= cat_width <= 16384,
        1 <= cat_height <= 16384,
        forall|i: int| 0 <= i < cat_positions@.len() ==> (#[trigger] cat_positions@[i]).wf(),
        maze.spec_width() * cell_size + 10 <= old(framebuffer).width,
    ensures
        final(framebuffer).wf(),
        final(framebuffer).same_dims(old(framebuffer)),
        forall|a: int, b: int|
            0 <= a < final(framebuffer).width && 0 <= b < final(framebuffer).height
                ==> #[trigger] final(framebuffer).pixel(a, b) == spec_sprites_over(
                cat_img@,
                cat_width as int,
                cat_height as int,
                cat_positions@,
                cat_positions@.len() as int,
                maze,
                player,
                old(framebuffer).width as int,
                old(framebuffer).height as int,
                spec_frame2d_pixel(
                    maze,
                    player,
                    cat_positions@,
                    cell_size as int,
                    wall_texture@,
                    texture_width as int,
                    texture_height as int,
                    old(framebuffer).width as int,
                    old(framebuffer).height as int,
                    a,
                    b,
                ),
                a,
                b,
            ),
{
    framebuffer.render_fov_with_2d(
        maze,
        player,
        cell_size,
        cat_positions,
        wall_texture,
        texture_width,
        texture_height,
    );
    let mut i: usize = 0;
    while i < cat_positions.len()
        invariant
            framebuffer.wf(),
            framebuffer.same_dims(old(framebuffer)),
            maze.wf(),
            player.wf(),
            -1000000000 <= player.x <= 1000000000,
            -1000000000 <= player.y <= 1000000000,
            1 <= cell_size <= 10000,
            wall_texture@.len() == texture_width * texture_height,
            1 <= texture_width <= 16384,
            1 <= texture_height <= 16384,
            cat_img@.len() == cat_width * cat_height,
            1 <= cat_width <= 16384,
            1 <= cat_height <= 16384,
            forall|j: int| 0 <= j < cat_positions@.len() ==> (#[trigger] cat_positions@[j]).wf(),
            1 <= framebuffer.width <= 16384,
            1 <= framebuffer.height <= 16384,
            0 <= i <= cat_positions@.len(),
            forall|a: int, b: int|
                0 <= a < framebuffer.width && 0 <= b < framebuffer.height
                    ==> #[trigger] framebuffer.pixel(a, b) == spec_sprites_over(
                    cat_img@,
                    cat_width as int,
                    cat_height as int,
                    cat_positions@,
                    i as int,
                    maze,
                    player,
                    old(framebuffer).width as int,
                    old(framebuffer).height as int,
                    spec_frame2d_pixel(
                        maze,
                        player,
                        cat_positions@,
                        cell_size as int,
                        wall_texture@,
                        texture_width as int,
                        texture_height as int,
                        old(framebuffer).width as int,
                        old(framebuffer).height as int,
                        a,
                        b,
                    ),
                    a,
                    b,
                ),
        decreases cat_positions@.len() - i,
    {
        let c = cat_positions[i];
        let ghost pre = *framebuffer;
        render_cat_in_3d(
            framebuffer,
            cat_img,
            cat_width,
            cat_height,
            &c,
            player,
            maze,
        );
        proof {
            let ghost fw = old(framebuffer).width as int;
            let ghost fh = old(framebuffer).height as int;
            assert forall|a: int, b: int|
                0 <= a < framebuffer.width && 0 <= b < framebuffer.height
                    implies #[trigger] framebuffer.pixel(a, b) == spec_sprites_over(
                cat_img@,
                cat_width as int,
                cat_height as int,
                cat_positions@,
                i as int + 1,
                maze,
                player,
                fw,
                fh,
                spec_frame2d_pixel(
                    maze,
                    player,
                    cat_positions@,
                    cell_size as int,
                    wall_texture@,
                    texture_width as int,
                    texture_height as int,
                    fw,
                    fh,
                    a,
                    b,
                ),
                a,
                b,
            ) by {
                assert(cat_positions@[i as int] == c);
                assert(pre.pixel(a, b) == spec_sprites_over(
                    cat_img@,
                    cat_width as int,
                    cat_height as int,
                    cat_positions@,
                    i as int,
                    maze,
                    player,
                    fw,
                    fh,
                    spec_frame2d_pixel(
                        maze,
                        player,
                        cat_positions@,
                        cell_size as int,
                        wall_texture@,
                        texture_width as int,
                        texture_height as int,
                        fw,
                        fh,
                        a,
                        b,
                    ),
                    a,
                    b,
                ));
                match spec_project(&c, player, fw, fh) {
                    Some((px, py, scale)) => {
                        if !spec_occluded(maze, &c, player) {
                            let sw = spec_scaled_len(cat_width as int, scale, fw);
                            let sh = spec_scaled_len(cat_height as int, scale, fh);
                            assert(framebuffer.pixel(a, b) == spec_sprite_pixel(
                                cat_img@,
                                cat_width as int,
                                cat_height as int,
                                spec_corner(px, sw),
                                spec_corner(py, sh),
                                sw,
                                sh,
                                pre.pixel(a, b),
                                a,
                                b,
                            ));
                        } else {
                            assert(framebuffer.pixel(a, b) == pre.pixel(a, b));
                        }
                    },
                    None => {
                        assert(framebuffer.pixel(a, b) == pre.pixel(a, b));
                    },
                }
            }
        }
        i = i + 1;
    }
}

} // verus!
