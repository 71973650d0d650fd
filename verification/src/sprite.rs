//! The sprite projector: projects a world anchor into camera space, gates
//! it on the field of view and on wall occlusion, and composites a scaled,
//! alpha-tested bitmap.
//!
//! A sprite whose bearing leaves the field of view is never projected, and
//! one whose camera bearing meets a wall nearer than the sprite itself is
//! never drawn: in both cases the surface is left exactly as it was.

use vstd::prelude::*;

verus! {

use crate::framebuffer::Framebuffer;
use crate::grid::Grid;
use crate::player::Player;
use crate::raycaster::{cast_dir, spec_cast};
use crate::trig::{
    angle_diff_fx,
    atan2_fx,
    cos_fx,
    isqrt,
    sin_fx,
    spec_angle_diff,
    spec_atan2,
    spec_cos,
    spec_isqrt,
    spec_sin,
};

/// A world-space anchor in position units; `z` is carried for parity with
/// the session state but unused by the projection.
#[derive(Clone, Copy, Debug, PartialEq, Eq, Structural)]
pub struct Point3 {
    pub x: i64,
    pub y: i64,
    pub z: i64,
}

impl Point3 {
    /// A new anchor point.
    pub fn new(x: i64, y: i64, z: i64) -> (r: Point3)
        ensures
            r == (Point3 { x, y, z }),
    {
        Point3 { x, y, z }
    }

    /// Coordinates small enough for the projection arithmetic.
    pub open spec fn wf(&self) -> bool {
        &&& -1000000000 <= self.x <= 1000000000
        &&& -1000000000 <= self.y <= 1000000000
        &&& -1000000000 <= self.z <= 1000000000
    }
}

/// Bearing from the player to the anchor, in angle units.
pub open spec fn spec_bearing(anchor: &Point3, p: &Player) -> int {
    spec_atan2(anchor.y - p.y, anchor.x - p.x)
}

/// Signed offset of the bearing from the player's facing angle.
pub open spec fn spec_bearing_offset(anchor: &Point3, p: &Player) -> int {
    spec_angle_diff(spec_bearing(anchor, p), p.angle as int)
}

/// Euclidean distance from the player to the anchor, in position units.
pub open spec fn spec_anchor_distance(anchor: &Point3, p: &Player) -> int {
    let dx = anchor.x - p.x;
    let dy = anchor.y - p.y;
    spec_isqrt(dx * dx + dy * dy)
}

/// Sprite scale for a given distance, in thousandths: inversely
/// proportional to the distance and clamped at 2.0.
pub open spec fn spec_scale(dist: int) -> int {
    if dist <= 0 {
        2000
    } else {
        let s = 400000000000int / dist;
        if s > 2000 {
            2000int
        } else {
            s
        }
    }
}

/// Division truncating toward zero, the rounding the projection uses for
/// the signed screen offset.
pub open spec fn spec_trunc_div(a: int, b: int) -> int {
    if a >= 0 {
        a / b
    } else {
        -((-a) / b)
    }
}

/// The projection of an anchor: `None` when its bearing offset leaves the
/// field of view, otherwise screen x from the offset's linear share of the
/// width, screen y at the vertical center, and the distance-derived scale.
pub open spec fn spec_project(anchor: &Point3, p: &Player, fw: int, fh: int) -> Option<
    (int, int, int),
> {
    let off = spec_bearing_offset(anchor, p);
    let a = if off >= 0 {
        off
    } else {
        -off
    };
    if a > p.fov / 2 {
        None
    } else {
        let sx = spec_trunc_div(off * fw, p.fov as int) + fw / 2;
        let scale = spec_scale(spec_anchor_distance(anchor, p));
        Some((sx, fh / 2, scale))
    }
}

/// Whether a wall stands between the player and the anchor along the
/// anchor's bearing: the cast along that bearing stops short of the anchor.
pub open spec fn spec_occluded(g: &Grid, anchor: &Point3, p: &Player) -> bool {
    let b = spec_bearing(anchor, p);
    spec_cast(g, p.x as int, p.y as int, spec_cos(b), spec_sin(b)).distance
        < spec_anchor_distance(anchor, p)
}

/// Projects an anchor into screen space: `None` exactly when the absolute
/// bearing offset exceeds half the field of view.
pub fn project_to_2d(anchor: &Point3, player: &Player, fb_width: usize, fb_height: usize) -> (r:
    Option<(usize, usize, i64)>)
    requires
        anchor.wf(),
        player.wf(),
        -1000000000 <= player.x <= 1000000000,
        -1000000000 <= player.y <= 1000000000,
        1 <= fb_width <= 16384,
        fb_height <= 16384,
    ensures
        r matches Some((sx, sy, scale)) ==> spec_project(
            anchor,
            player,
            fb_width as int,
            fb_height as int,
        ) == Some((sx as int, sy as int, scale as int)),
        r is None <==> spec_project(anchor, player, fb_width as int, fb_height as int) is None,
        (if spec_bearing_offset(anchor, player) >= 0 {
            spec_bearing_offset(anchor, player)
        } else {
            -spec_bearing_offset(anchor, player)
        }) > player.fov / 2 ==> r is None,
        r matches Some((sx, sy, scale)) ==> sx <= fb_width && sy <= fb_height && 0 <= scale
            <= 2000,
{
    let dx = anchor.x - player.x;
    let dy = anchor.y - player.y;
    let bearing = atan2_fx(dy, dx);
    let off = angle_diff_fx(bearing, player.angle);
    let a = if off >= 0 {
        off
    } else {
        -off
    };
    if a > player.fov / 2 {
        return None;
    }
    let fw = fb_width as i64;
    proof {
        assert(-536870912 <= (off as int) * (fw as int) <= 536870912) by (nonlinear_arith)
            requires
                -32768 <= (off as int) <= 32768,
                1 <= (fw as int) <= 16384,
        ;
        if off >= 0 {
            assert((off as int) * (fw as int) >= 0) by (nonlinear_arith)
                requires
                    (off as int) >= 0,
                    (fw as int) >= 1,
            ;
        } else {
            assert((-(off as int)) * (fw as int) == -((off as int) * (fw as int)))
                by (nonlinear_arith);
            assert((-(off as int)) * (fw as int) >= 0) by (nonlinear_arith)
                requires
                    (off as int) < 0,
                    (fw as int) >= 1,
            ;
        }
    }
    let q = if off >= 0 {
        (off * fw) / player.fov
    } else {
        -(((-off) * fw) / player.fov)
    };
    proof {
        assert(0 <= a * (fw as int) <= (player.fov as int) / 2 * (fw as int)) by (nonlinear_arith)
            requires
                0 <= a <= (player.fov as int) / 2,
                1 <= fw,
        ;
        assert((player.fov as int) / 2 * (fw as int) / (player.fov as int) <= (fw as int) / 2)
            by (nonlinear_arith)
            requires
                1 <= player.fov,
                1 <= fw,
        ;
        vstd::arithmetic::div_mod::lemma_div_is_ordered(
            a as int * (fw as int),
            (player.fov as int) / 2 * (fw as int),
            player.fov as int,
        );
    }
    let sx = q + fw / 2;
    proof {
        assert((dx as int) * (dx as int) + (dy as int) * (dy as int) <= 8000000000000000000
            && (dx as int) * (dx as int) >= 0 && (dy as int) * (dy as int) >= 0)
            by (nonlinear_arith)
            requires
                -2000000000 <= dx as int <= 2000000000,
                -2000000000 <= dy as int <= 2000000000,
        ;
    }
    let dist = isqrt(dx * dx + dy * dy);
    let scale = if dist <= 0 {
        2000
    } else {
        let s = 400000000000 / dist;
        if s > 2000 {
            2000
        } else {
            s
        }
    };
    Some((sx as usize, fb_height / 2, scale))
}

/// Width or height of the sprite on screen: the bitmap size scaled by half
/// the projection scale, clamped to the surface size.
pub open spec fn spec_scaled_len(len: int, scale: int, cap: int) -> int {
    let s = (len * scale) / 2000;
    if s > cap {
        cap
    } else {
        s
    }
}

/// Top-left corner of the sprite rectangle: the projected point minus half
/// the scaled size, floored at the surface edge.
pub open spec fn spec_corner(center: int, len: int) -> int {
    if center >= len / 2 {
        center - len / 2
    } else {
        0
    }
}

/// The nearest-neighbor source texel of a sprite pixel.
pub open spec fn spec_sprite_sample(
    img: Seq<u32>,
    iw: int,
    ih: int,
    sw: int,
    sh: int,
    dx: int,
    dy: int,
) -> u32 {
    img[((dy * ih) / sh) * iw + (dx * iw) / sw]
}

/// What one surface pixel shows after the sprite blit: the scaled source
/// texel where the pixel lies in the sprite rectangle and the texel is not
/// fully transparent, and the pixel's previous color everywhere else.
pub open spec fn spec_sprite_pixel(
    img: Seq<u32>,
    iw: int,
    ih: int,
    sx: int,
    sy: int,
    sw: int,
    sh: int,
    base: u32,
    x: int,
    y: int,
) -> u32 {
    if sx <= x < sx + sw && sy <= y < sy + sh {
        let c = spec_sprite_sample(img, iw, ih, sw, sh, x - sx, y - sy);
        if (c >> 24) & 0xFF != 0 {
            c
        } else {
            base
        }
    } else {
        base
    }
}

impl Framebuffer {
    /// Blits a sprite bitmap, nearest-neighbor scaled to `sw` by `sh`, with
    /// its top-left corner at `(sx, sy)`, skipping fully transparent texels
    /// and clipping to the surface.
    #[verifier::rlimit(60)]
    fn blit_sprite(
        &mut self,
        img: &Vec<u32>,
        iw: usize,
        ih: usize,
        sx: usize,
        sy: usize,
        sw: usize,
        sh: usize,
    )
        requires
            old(self).wf(),
            img@.len() == iw * ih,
            1 <= iw <= 16384,
            1 <= ih <= 16384,
            sw <= 16384,
            sh <= 16384,
            sx <= 100000,
            sy <= 100000,
        ensures
            final(self).wf(),
            final(self).same_dims(old(self)),
            forall|x: int, y: int|
                0 <= x < final(self).width && 0 <= y < final(self).height
                    ==> #[trigger] final(self).pixel(x, y) == spec_sprite_pixel(
                    img@,
                    iw as int,
                    ih as int,
                    sx as int,
                    sy as int,
                    sw as int,
                    sh as int,
                    old(self).pixel(x, y),
                    x,
                    y,
                ),
    {
        let mut dy: usize = 0;
        while dy < sh
            invariant
                self.wf(),
                self.same_dims(old(self)),
                img@.len() == iw * ih,
                1 <= iw <= 16384,
                1 <= ih <= 16384,
                sw <= 16384,
                sh <= 16384,
                sx <= 100000,
                sy <= 100000,
                0 <= dy <= sh,
                forall|a: int, b: int|
                    0 <= a < self.width && 0 <= b < self.height ==> #[trigger] self.pixel(a, b)
                        == (if b < sy + dy {
                        spec_sprite_pixel(
                            img@,
                            iw as int,
                            ih as int,
                            sx as int,
                            sy as int,
                            sw as int,
                            sh as int,
                            old(self).pixel(a, b),
                            a,
                            b,
                        )
                    } else {
                        old(self).pixel(a, b)
                    }),
            decreases sh - dy,
        {
            let mut dx: usize = 0;
            while dx < sw
                invariant
                    self.wf(),
                    self.same_dims(old(self)),
                    img@.len() == iw * ih,
                    1 <= iw <= 16384,
                    1 <= ih <= 16384,
                    sw <= 16384,
                    sh <= 16384,
                    sx <= 100000,
                    sy <= 100000,
                    0 <= dy < sh,
                    0 <= dx <= sw,
                    forall|a: int, b: int|
                        0 <= a < self.width && 0 <= b < self.height ==> #[trigger] self.pixel(
                            a,
                            b,
                        ) == (if b < sy + dy || (b == sy + dy && a < sx + dx) {
                            spec_sprite_pixel(
                                img@,
                                iw as int,
                                ih as int,
                                sx as int,
                                sy as int,
                                sw as int,
                                sh as int,
                                old(self).pixel(a, b),
                                a,
                                b,
                            )
                        } else {
                            old(self).pixel(a, b)
                        }),
                decreases sw - dx,
            {
                proof {
                    assert((dy as int) * (ih as int) < (sh as int) * (ih as int))
                        by (nonlinear_arith)
                        requires
                            0 <= dy < sh as int,
                            1 <= ih,
                    ;
                    assert((dy as int) * (ih as int) / (sh as int) < ih as int)
                        by (nonlinear_arith)
                        requires
                            0 <= (dy as int) * (ih as int) < (sh as int) * (ih as int),
                            1 <= sh as int,
                    ;
                    assert((dx as int) * (iw as int) < (sw as int) * (iw as int))
                        by (nonlinear_arith)
                        requires
                            0 <= dx < sw as int,
                            1 <= iw,
                    ;
                    assert((dx as int) * (iw as int) / (sw as int) < iw as int)
                        by (nonlinear_arith)
                        requires
                            0 <= (dx as int) * (iw as int) < (sw as int) * (iw as int),
                            1 <= sw as int,
                    ;
                    assert((dy as int) * (ih as int) <= 268435456) by (nonlinear_arith)
                        requires
                            0 <= dy <= 16384,
                            0 <= ih <= 16384,
                    ;
                    assert((dx as int) * (iw as int) <= 268435456) by (nonlinear_arith)
                        requires
                            0 <= dx <= 16384,
                            0 <= iw <= 16384,
                    ;
                    crate::framebuffer::lemma_area_bound(iw as int, ih as int);
                    crate::framebuffer::lemma_idx_bound(
                        iw as int,
                        ih as int,
                        (dx as int) * (iw as int) / (sw as int),
                        (dy as int) * (ih as int) / (sh as int),
                    );
                }
                let ty = (dy * ih) / sh;
                let tx = (dx * iw) / sw;
                let pixel_index = ty * iw + tx;
                let ghost pre = *self;
                let c = img[pixel_index];
                if (c >> 24) & 0xFF != 0 {
                    self.point(sx + dx, sy + dy, c);
                }
                proof {
                    assert(c == spec_sprite_sample(
                        img@,
                        iw as int,
                        ih as int,
                        sw as int,
                        sh as int,
                        dx as int,
                        dy as int,
                    ));
                    assert forall|a: int, b: int|
                        0 <= a < self.width && 0 <= b < self.height implies #[trigger] self.pixel(
                        a,
                        b,
                    ) == (if b < sy + dy || (b == sy + dy && a < sx + dx + 1) {
                        spec_sprite_pixel(
                            img@,
                            iw as int,
                            ih as int,
                            sx as int,
                            sy as int,
                            sw as int,
                            sh as int,
                            old(self).pixel(a, b),
                            a,
                            b,
                        )
                    } else {
                        old(self).pixel(a, b)
                    }) by {
                        if a == sx + dx && b == sy + dy {
                            if (c >> 24) & 0xFF != 0 {
                                assert(self.pixel(a, b) == c);
                            } else {
                                assert(self.pixel(a, b) == pre.pixel(a, b));
                            }
                        } else {
                            assert(self.pixel(a, b) == pre.pixel(a, b));
                        }
                    }
                }
                dx = dx + 1;
            }
            dy = dy + 1;
        }
    }
}

/// Draws one sprite into the scene: projects its anchor, rejects it when
/// outside the field of view, re-casts a ray along its bearing and rejects
/// it when a wall stands nearer than the sprite, and otherwise blits the
/// scaled, alpha-tested bitmap centered on the projected point.
pub fn render_cat_in_3d(
    framebuffer: &mut Framebuffer,
    cat_img: &Vec<u32>,
    cat_width: usize,
    cat_height: usize,
    cat_position: &Point3,
    player: &Player,
    maze: &Grid,
)
    requires
        old(framebuffer).wf(),
        1 <= old(framebuffer).width <= 16384,
        1 <= old(framebuffer).height <= 16384,
        cat_img@.len() == cat_width * cat_height,
        1 <= cat_width <= 16384,
        1 <= cat_height <= 16384,
        cat_position.wf(),
        player.wf(),
        -1000000000 <= player.x <= 1000000000,
        -1000000000 <= player.y <= 1000000000,
        maze.wf(),
    ensures
        final(framebuffer).wf(),
        final(framebuffer).same_dims(old(framebuffer)),
        spec_project(
            cat_position,
            player,
            old(framebuffer).width as int,
            old(framebuffer).height as int,
        ) is None ==> final(framebuffer).pixels@ == old(framebuffer).pixels@,
        spec_occluded(maze, cat_position, player) ==> final(framebuffer).pixels@ == old(
            framebuffer,
        ).pixels@,
        spec_project(
            cat_position,
            player,
            old(framebuffer).width as int,
            old(framebuffer).height as int,
        ) matches Some((px, py, scale)) ==> (!spec_occluded(maze, cat_position, player) ==> {
            let sw = spec_scaled_len(cat_width as int, scale, old(framebuffer).width as int);
            let sh = spec_scaled_len(cat_height as int, scale, old(framebuffer).height as int);
            forall|x: int, y: int|
                0 <= x < final(framebuffer).width && 0 <= y < final(framebuffer).height
                    ==> #[trigger] final(framebuffer).pixel(x, y) == spec_sprite_pixel(
                    cat_img@,
                    cat_width as int,
                    cat_height as int,
                    spec_corner(px, sw),
                    spec_corner(py, sh),
                    sw,
                    sh,
                    old(framebuffer).pixel(x, y),
                    x,
                    y,
                )
        }),
{
    let fw = framebuffer.width;
    let fh = framebuffer.height;
    let projection = project_to_2d(cat_position, player, fw, fh);
    match projection {
        None => {},
        Some((x, y, scale)) => {
            let dx = cat_position.x - player.x;
            let dy = cat_position.y - player.y;
            let bearing = atan2_fx(dy, dx);
            let bx = cos_fx(bearing);
            let by = sin_fx(bearing);
            let intersection = cast_dir(maze, player.x, player.y, bx, by);
            proof {
                assert((dx as int) * (dx as int) + (dy as int) * (dy as int)
                    <= 8000000000000000000 && (dx as int) * (dx as int) >= 0 && (dy as int) * (
                dy as int) >= 0) by (nonlinear_arith)
                    requires
                        -2000000000 <= dx as int <= 2000000000,
                        -2000000000 <= dy as int <= 2000000000,
                ;
            }
            let distance_to_cat = isqrt(dx * dx + dy * dy);
            if intersection.distance < distance_to_cat {
                return ;
            }
            proof {
                assert(0 <= (cat_width as int) * (scale as int) <= 32768000) by (nonlinear_arith)
                    requires
                        0 <= cat_width <= 16384,
                        0 <= scale as int <= 2000,
                ;
                assert(0 <= (cat_height as int) * (scale as int) <= 32768000) by (nonlinear_arith)
                    requires
                        0 <= cat_height <= 16384,
                        0 <= scale as int <= 2000,
                ;
            }
            let sw_raw = (cat_width as i64 * scale) / 2000;
            let sh_raw = (cat_height as i64 * scale) / 2000;
            let scaled_w = if sw_raw > fw as i64 {
                fw
            } else {
                sw_raw as usize
            };
            let scaled_h = if sh_raw > fh as i64 {
                fh
            } else {
                sh_raw as usize
            };
            let start_x = if x >= scaled_w / 2 {
                x - scaled_w / 2
            } else {
                0
            };
            let start_y = if y >= scaled_h / 2 {
                y - scaled_h / 2
            } else {
                0
            };
            framebuffer.blit_sprite(
                cat_img,
                cat_width,
                cat_height,
                start_x,
                start_y,
                scaled_w,
                scaled_h,
            );
        },
    }
}

/// Whether the player stands within half a cell, on both axes, of any of
/// the listed anchors.
pub open spec fn spec_near_cat(p: &Player, cats: Seq<Point3>, i: int) -> bool {
    let dx = p.x - cats[i].x;
    let dy = p.y - cats[i].y;
    -500000 < dx < 500000 && -500000 < dy < 500000
}

/// Collision test against the sprite anchors: true exactly when some
/// anchor lies within half a cell of the player on both axes.
pub fn check_cat_collisions(player: &Player, cat_positions: &Vec<Point3>) -> (r: bool)
    requires
        player.wf(),
        forall|i: int| 0 <= i < cat_positions@.len() ==> (#[trigger] cat_positions@[i]).wf(),
    ensures
        r == exists|i: int|
            0 <= i < cat_positions@.len() && #[trigger] spec_near_cat(player, cat_positions@, i),
{
    let mut i: usize = 0;
    while i < cat_positions.len()
        invariant
            player.wf(),
            forall|j: int| 0 <= j < cat_positions@.len() ==> (#[trigger] cat_positions@[j]).wf(),
            0 <= i <= cat_positions@.len(),
            forall|j: int| 0 <= j < i ==> !#[trigger] spec_near_cat(player, cat_positions@, j),
        decreases cat_positions@.len() - i,
    {
        let c = cat_positions[i];
        let dx = player.x - c.x;
        let dy = player.y - c.y;
        if -500000 < dx && dx < 500000 && -500000 < dy && dy < 500000 {
            proof {
                assert(spec_near_cat(player, cat_positions@, i as int));
            }
            return true;
        }
        i = i + 1;
    }
    false
}

} // verus!
