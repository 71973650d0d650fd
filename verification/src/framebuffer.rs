//! The owned pixel surface: a width by height buffer of 32-bit ARGB colors,
//! row-major with the origin at the top left.
//!
//! Every write is bounds-checked; a write outside the surface changes
//! nothing and never faults.  That policy lets the renderers aim freely and
//! lets this module promise, pixel for pixel, what each drawing operation
//! leaves behind.

use vstd::prelude::*;

verus! {

/// A row-major index stays inside the buffer.
pub proof fn lemma_idx_bound(w: int, h: int, x: int, y: int)
    requires
        0 <= x < w,
        0 <= y < h,
    ensures
        0 <= y * w + x < w * h,
{
    assert(0 <= y * w + x < w * h) by (nonlinear_arith)
        requires
            0 <= x < w,
            0 <= y < h,
    ;
}

/// A surface within the size bound has at most `16384 * 16384` pixels.
pub proof fn lemma_area_bound(w: int, h: int)
    requires
        0 <= w <= 16384,
        0 <= h <= 16384,
    ensures
        w * h <= 268435456,
{
    assert(w * h <= 268435456) by (nonlinear_arith)
        requires
            0 <= w <= 16384,
            0 <= h <= 16384,
    ;
}

/// Two distinct in-range coordinates give two distinct row-major indices.
pub proof fn lemma_idx_inj(w: int, x1: int, y1: int, x2: int, y2: int)
    requires
        0 <= x1 < w,
        0 <= x2 < w,
        0 <= y1,
        0 <= y2,
        y1 * w + x1 == y2 * w + x2,
    ensures
        x1 == x2,
        y1 == y2,
{
    assert(x1 == x2 && y1 == y2) by (nonlinear_arith)
        requires
            0 <= x1 < w,
            0 <= x2 < w,
            0 <= y1,
            0 <= y2,
            y1 * w + x1 == y2 * w + x2,
    ;
}

/// The owned color buffer the renderers draw into.
pub struct Framebuffer {
    pub width: usize,
    pub height: usize,
    pub pixels: Vec<u32>,
}

impl Framebuffer {
    /// Well-formedness: the buffer holds exactly one color per coordinate
    /// and the surface stays small enough for all index arithmetic.
    pub open spec fn wf(&self) -> bool {
        &&& self.width <= 16384
        &&& self.height <= 16384
        &&& self.pixels@.len() == self.width * self.height
    }

    /// The color at an in-bounds coordinate.
    pub open spec fn pixel(&self, x: int, y: int) -> u32 {
        self.pixels@[y * self.width + x]
    }

    /// Shorthand: same width, height and buffer length as another surface.
    pub open spec fn same_dims(&self, other: &Framebuffer) -> bool {
        &&& self.width == other.width
        &&& self.height == other.height
        &&& self.pixels@.len() == other.pixels@.len()
    }

    /// Allocates a surface of the given size, all pixels black (zero).
    pub fn new(width: usize, height: usize) -> (r: Framebuffer)
        requires
            width <= 16384,
            height <= 16384,
        ensures
            r.wf(),
            r.width == width,
            r.height == height,
            forall|x: int, y: int|
                0 <= x < width && 0 <= y < height ==> #[trigger] r.pixel(x, y) == 0u32,
    {
        proof {
            lemma_area_bound(width as int, height as int);
        }
        let n = width * height;
        let mut pixels: Vec<u32> = Vec::new();
        let mut i: usize = 0;
        while i < n
            invariant
                0 <= i <= n,
                pixels@.len() == i,
                forall|j: int| 0 <= j < i ==> pixels@[j] == 0u32,
            decreases n - i,
        {
            pixels.push(0);
            i = i + 1;
        }
        let r = Framebuffer { width, height, pixels };
        proof {
            assert forall|x: int, y: int|
                0 <= x < width && 0 <= y < height implies #[trigger] r.pixel(x, y) == 0u32 by {
                lemma_idx_bound(width as int, height as int, x, y);
            }
        }
        r
    }

    /// Fills the whole surface with one color.
    fn fill(&mut self, color: u32)
        requires
            old(self).wf(),
        ensures
            final(self).wf(),
            final(self).same_dims(old(self)),
            forall|x: int, y: int|
                0 <= x < final(self).width && 0 <= y < final(self).height ==> #[trigger] final(self).pixel(x, y) == color,
    {
        let n = self.pixels.len();
        let mut i: usize = 0;
        while i < n
            invariant
                0 <= i <= n,
                self.wf(),
                self.pixels@.len() == n,
                self.width == old(self).width,
                self.height == old(self).height,
                forall|j: int| 0 <= j < i ==> self.pixels@[j] == color,
            decreases n - i,
        {
            self.pixels.set(i, color);
            i = i + 1;
        }
        proof {
            assert forall|x: int, y: int|
                0 <= x < self.width && 0 <= y < self.height implies #[trigger] self.pixel(x, y)
                == color by {
                lemma_idx_bound(self.width as int, self.height as int, x, y);
            }
        }
    }

    /// Clears the surface to the white background.
    pub fn clear(&mut self)
        requires
            old(self).wf(),
        ensures
            final(self).wf(),
            final(self).same_dims(old(self)),
            forall|x: int, y: int|
                0 <= x < final(self).width && 0 <= y < final(self).height ==> #[trigger] final(self).pixel(x, y) == 0xFFFFFFFFu32,
    {
        self.fill(0xFFFFFFFF);
    }

    /// Floods the surface with a background color.
    pub fn set_background_color(&mut self, color: u32)
        requires
            old(self).wf(),
        ensures
            final(self).wf(),
            final(self).same_dims(old(self)),
            forall|x: int, y: int|
                0 <= x < final(self).width && 0 <= y < final(self).height ==> #[trigger] final(self).pixel(x, y) == color,
    {
        self.fill(color);
    }

    /// Floods the surface with a foreground color.
    pub fn set_foreground_color(&mut self, color: u32)
        requires
            old(self).wf(),
        ensures
            final(self).wf(),
            final(self).same_dims(old(self)),
            forall|x: int, y: int|
                0 <= x < final(self).width && 0 <= y < final(self).height ==> #[trigger] final(self).pixel(x, y) == color,
    {
        self.fill(color);
    }

    /// Writes one pixel.  A coordinate at or past the surface edge changes
    /// nothing: out-of-range writes are deliberately dropped.
    pub fn point(&mut self, x: usize, y: usize, color: u32)
        requires
            old(self).wf(),
        ensures
            final(self).wf(),
            final(self).same_dims(old(self)),
            x < old(self).width && y < old(self).height ==> forall|xx: int, yy: int|
                0 <= xx < final(self).width && 0 <= yy < final(self).height
                    ==> #[trigger] final(self).pixel(xx, yy) == (if xx == x && yy == y {
                    color
                } else {
                    old(self).pixel(xx, yy)
                }),
            !(x < old(self).width && y < old(self).height) ==> final(self).pixels@ == old(self).pixels@,
    {
        if x < self.width && y < self.height {
            proof {
                lemma_area_bound(self.width as int, self.height as int);
                lemma_idx_bound(self.width as int, self.height as int, x as int, y as int);
            }
            let i = y * self.width + x;
            self.pixels.set(i, color);
            proof {
                assert forall|xx: int, yy: int|
                    0 <= xx < self.width && 0 <= yy < self.height implies #[trigger] self.pixel(
                    xx,
                    yy,
                ) == (if xx == x && yy == y {
                    color
                } else {
                    old(self).pixel(xx, yy)
                }) by {
                    lemma_idx_bound(self.width as int, self.height as int, xx, yy);
                    if yy * self.width + xx == y * self.width + x {
                        lemma_idx_inj(self.width as int, xx, yy, x as int, y as int);
                    }
                }
            }
        }
    }

    /// Whether a coordinate lies in the axis-aligned rectangle of the given
    /// origin and size.
    pub open spec fn in_rect(x0: int, y0: int, rw: int, rh: int, x: int, y: int) -> bool {
        x0 <= x < x0 + rw && y0 <= y < y0 + rh
    }

    /// Fills a rectangle with one color, clipped to the surface.
    pub fn draw_rect(&mut self, x0: usize, y0: usize, rw: usize, rh: usize, color: u32)
        requires
            old(self).wf(),
            x0 <= 20000000,
            y0 <= 20000000,
            rw <= 20000000,
            rh <= 20000000,
        ensures
            final(self).wf(),
            final(self).same_dims(old(self)),
            forall|xx: int, yy: int|
                0 <= xx < final(self).width && 0 <= yy < final(self).height
                    ==> #[trigger] final(self).pixel(xx, yy) == (if Self::in_rect(
                    x0 as int,
                    y0 as int,
                    rw as int,
                    rh as int,
                    xx,
                    yy,
                ) {
                    color
                } else {
                    old(self).pixel(xx, yy)
                }),
    {
        let mut yy = y0;
        let y_end = if y0 + rh < self.height {
            y0 + rh
        } else {
            self.height
        };
        let x_end = if x0 + rw < self.width {
            x0 + rw
        } else {
            self.width
        };
        while yy < y_end
            invariant
                self.wf(),
                self.same_dims(old(self)),
                y0 <= yy <= y_end || yy == y0,
                y_end <= self.height,
                y_end == if y0 + rh < self.height {
                    y0 + rh as int
                } else {
                    self.height as int
                },
                x_end <= self.width,
                x_end == if x0 + rw < self.width {
                    x0 + rw as int
                } else {
                    self.width as int
                },
                forall|a: int, b: int|
                    0 <= a < self.width && 0 <= b < self.height ==> #[trigger] self.pixel(a, b)
                        == (if Self::in_rect(x0 as int, y0 as int, rw as int, rh as int, a, b)
                        && b < yy {
                        color
                    } else {
                        old(self).pixel(a, b)
                    }),
            decreases y_end - yy,
        {
            let mut xx = x0;
            while xx < x_end
                invariant
                    self.wf(),
                    self.same_dims(old(self)),
                    y0 <= yy < y_end,
                    y_end <= self.height,
                    y_end <= y0 + rh,
                    x_end <= self.width,
                    x_end == if x0 + rw < self.width {
                        x0 + rw as int
                    } else {
                        self.width as int
                    },
                    x0 <= xx <= x_end || xx == x0,
                    forall|a: int, b: int|
                        0 <= a < self.width && 0 <= b < self.height ==> #[trigger] self.pixel(
                            a,
                            b,
                        ) == (if Self::in_rect(x0 as int, y0 as int, rw as int, rh as int, a, b)
                            && (b < yy || (b == yy && a < xx)) {
                            color
                        } else {
                            old(self).pixel(a, b)
                        }),
                decreases x_end - xx,
            {
                self.point(xx, yy, color);
                xx = xx + 1;
            }
            yy = yy + 1;
        }
    }

    /// Flips the surface upside down: afterwards row `y` holds what row
    /// `height - 1 - y` held, used to correct the row order before export.
    pub fn flip_vertical(&mut self)
        requires
            old(self).wf(),
        ensures
            final(self).wf(),
            final(self).same_dims(old(self)),
            forall|xx: int, yy: int|
                0 <= xx < final(self).width && 0 <= yy < final(self).height
                    ==> #[trigger] final(self).pixel(xx, yy) == old(self).pixel(
                    xx,
                    final(self).height - 1 - yy,
                ),
    {
        let h = self.height;
        let w = self.width;
        let mut yy: usize = 0;
        while yy < h / 2
            invariant
                self.wf(),
                self.same_dims(old(self)),
                w == self.width,
                h == self.height,
                0 <= yy <= h / 2,
                forall|a: int, b: int|
                    0 <= a < w && 0 <= b < h && (b < yy || b >= h - yy) ==> #[trigger] self.pixel(
                        a,
                        b,
                    ) == old(self).pixel(a, h - 1 - b),
                forall|a: int, b: int|
                    0 <= a < w && yy <= b < h - yy ==> #[trigger] self.pixel(a, b) == old(
                        self,
                    ).pixel(a, b),
            decreases h / 2 - yy,
        {
            let mut xx: usize = 0;
            let y2 = h - 1 - yy;
            while xx < w
                invariant
                    self.wf(),
                    self.same_dims(old(self)),
                    w == self.width,
                    h == self.height,
                    0 <= yy < h / 2,
                    y2 == h - 1 - yy,
                    0 <= xx <= w,
                    forall|a: int, b: int|
                        0 <= a < w && 0 <= b < h && (b < yy || b > y2) ==> #[trigger] self.pixel(
                            a,
                            b,
                        ) == old(self).pixel(a, h - 1 - b),
                    forall|a: int|
                        0 <= a < xx ==> #[trigger] self.pixel(a, yy as int) == old(self).pixel(
                            a,
                            y2 as int,
                        ) && self.pixel(a, y2 as int) == old(self).pixel(a, yy as int),
                    forall|a: int|
                        xx <= a < w ==> #[trigger] self.pixel(a, yy as int) == old(self).pixel(
                            a,
                            yy as int,
                        ) && self.pixel(a, y2 as int) == old(self).pixel(a, y2 as int),
                    forall|a: int, b: int|
                        0 <= a < w && yy < b < y2 ==> #[trigger] self.pixel(a, b) == old(
                            self,
                        ).pixel(a, b),
                decreases w - xx,
            {
                proof {
                    lemma_area_bound(w as int, h as int);
                    lemma_idx_bound(w as int, h as int, xx as int, yy as int);
                    lemma_idx_bound(w as int, h as int, xx as int, y2 as int);
                }
                let ghost before = *self;
                let i_top = yy * w + xx;
                let i_bot = y2 * w + xx;
                let top = self.pixels[i_top];
                let bot = self.pixels[i_bot];
                self.pixels.set(i_top, bot);
                self.pixels.set(i_bot, top);
                proof {
                    assert forall|a: int, b: int|
                        0 <= a < w && 0 <= b < h && !(a == xx && (b == yy || b == y2)) implies
                        #[trigger] self.pixel(a, b) == before.pixel(a, b) by {
                        lemma_idx_bound(w as int, h as int, a, b);
                        if b * w + a == yy * w + xx {
                            lemma_idx_inj(w as int, a, b, xx as int, yy as int);
                        }
                        if b * w + a == y2 * w + xx {
                            lemma_idx_inj(w as int, a, b, xx as int, y2 as int);
                        }
                    }
                    assert(yy * w + xx != y2 * w + xx) by {
                        if yy * w + xx == y2 * w + xx {
                            lemma_idx_inj(w as int, xx as int, yy as int, xx as int, y2 as int);
                        }
                    }
                    assert(self.pixel(xx as int, yy as int) == before.pixel(xx as int, y2 as int));
                    assert(self.pixel(xx as int, y2 as int) == before.pixel(xx as int, yy as int));
                }
                xx = xx + 1;
            }
            proof {
                assert forall|a: int, b: int|
                    0 <= a < w && 0 <= b < h && (b < yy + 1 || b >= h - (yy + 1)) implies
                    #[trigger] self.pixel(a, b) == old(self).pixel(a, h - 1 - b) by {
                    if b == yy {
                        assert(self.pixel(a, yy as int) == old(self).pixel(a, y2 as int));
                    } else if b == y2 {
                        assert(self.pixel(a, yy as int) == old(self).pixel(a, y2 as int));
                        assert(self.pixel(a, y2 as int) == old(self).pixel(a, yy as int));
                    }
                }
            }
            yy = yy + 1;
        }
        proof {
            assert forall|xx: int, yy2: int|
                0 <= xx < self.width && 0 <= yy2 < self.height implies #[trigger] self.pixel(
                xx,
                yy2,
            ) == old(self).pixel(xx, self.height - 1 - yy2) by {
                if h % 2 == 1 && yy2 == h / 2 {
                    assert(h - 1 - yy2 == yy2);
                }
            }
        }
    }
}

} // verus!

verus! {

/// Division truncating toward zero on either sign, the rounding the edge
/// interpolation uses.
pub open spec fn spec_div_trunc(a: int, b: int) -> int {
    let q = (if a >= 0 {
        a
    } else {
        -a
    }) / (if b >= 0 {
        b
    } else {
        -b
    });
    if (a >= 0) == (b >= 0) {
        q
    } else {
        -q
    }
}

/// Division truncating toward zero.
fn div_trunc(a: i64, b: i64) -> (r: i64)
    requires
        b != 0,
        -1000000000000 <= a <= 1000000000000,
        -1000000000000 <= b <= 1000000000000,
    ensures
        r == spec_div_trunc(a as int, b as int),
{
    let aa = if a >= 0 {
        a
    } else {
        -a
    };
    let bb = if b >= 0 {
        b
    } else {
        -b
    };
    let q = aa / bb;
    if (a >= 0) == (b >= 0) {
        q
    } else {
        -q
    }
}

/// Whether an edge between two vertices crosses the scanline `y`: it does
/// when `y` lies in the half-open vertical span of the edge, which counts
/// each shared vertex of two edges exactly once.
pub open spec fn spec_edge_crosses(y1: int, y2: int, y: int) -> bool {
    (y1 <= y < y2) || (y2 <= y < y1)
}

/// The x coordinate where an edge meets the scanline `y`, by linear
/// interpolation truncated toward zero.
pub open spec fn spec_cross_x(x1: int, y1: int, x2: int, y2: int, y: int) -> int {
    x1 + spec_div_trunc((y - y1) * (x2 - x1), y2 - y1)
}

/// Number of the first `k` polygon edges that cross scanline `y` at an x
/// coordinate of at most `x`; edge `i` joins vertex `i` to the following
/// vertex, wrapping around.
pub open spec fn spec_crossings_le(vs: Seq<(i64, i64)>, k: int, x: int, y: int) -> int
    decreases k,
{
    if k <= 0 {
        0
    } else {
        let i = k - 1;
        let j = if k == vs.len() {
            0int
        } else {
            k
        };
        spec_crossings_le(vs, k - 1, x, y) + if spec_edge_crosses(
            vs[i].1 as int,
            vs[j].1 as int,
            y,
        ) && spec_cross_x(vs[i].0 as int, vs[i].1 as int, vs[j].0 as int, vs[j].1 as int, y)
            <= x {
            1int
        } else {
            0int
        }
    }
}

/// The even-odd rule: a point is inside the polygon exactly when an odd
/// number of edges cross its scanline at or left of it.
pub open spec fn spec_poly_covers(vs: Seq<(i64, i64)>, x: int, y: int) -> bool {
    vs.len() >= 3 && spec_crossings_le(vs, vs.len() as int, x, y) % 2 == 1
}

/// Counts the polygon edges crossing scanline `y` at or left of `x`.
fn count_crossings_le(vs: &Vec<(i64, i64)>, x: i64, y: i64) -> (r: usize)
    requires
        forall|i: int|
            0 <= i < vs@.len() ==> -100000 <= (#[trigger] vs@[i]).0 <= 100000 && -100000
                <= vs@[i].1 <= 100000,
        -100000 <= x <= 100000,
        -100000 <= y <= 100000,
    ensures
        r == spec_crossings_le(vs@, vs@.len() as int, x as int, y as int),
{
    let n = vs.len();
    let mut cnt: usize = 0;
    let mut k: usize = 0;
    while k < n
        invariant
            n == vs@.len(),
            forall|i: int|
                0 <= i < vs@.len() ==> -100000 <= (#[trigger] vs@[i]).0 <= 100000 && -100000
                    <= vs@[i].1 <= 100000,
            -100000 <= x <= 100000,
            -100000 <= y <= 100000,
            0 <= k <= n,
            cnt == spec_crossings_le(vs@, k as int, x as int, y as int),
            cnt <= k,
        decreases n - k,
    {
        let (x1, y1) = vs[k];
        let j = if k + 1 == n {
            0
        } else {
            k + 1
        };
        let (x2, y2) = vs[j];
        proof {
            assert(j as int == (if k as int + 1 == vs@.len() {
                0int
            } else {
                k as int + 1
            }));
        }
        if (y1 <= y && y < y2) || (y2 <= y && y < y1) {
            proof {
                assert(-200000 <= (y as int) - (y1 as int) <= 200000);
                assert(-40000000000 <= ((y as int) - (y1 as int)) * ((x2 as int) - (x1 as int))
                    <= 40000000000) by (nonlinear_arith)
                    requires
                        -200000 <= (y as int) - (y1 as int) <= 200000,
                        -200000 <= (x2 as int) - (x1 as int) <= 200000,
                ;
            }
            let cx = x1 + div_trunc((y - y1) * (x2 - x1), y2 - y1);
            if cx <= x {
                cnt = cnt + 1;
            }
        }
        k = k + 1;
    }
    cnt
}

impl Framebuffer {
    /// Fills a polygon given by its vertices, in pixel coordinates, with
    /// one color by the even-odd scanline rule; fewer than three vertices
    /// fill nothing.
    pub fn fill_polygon(&mut self, vertices: &Vec<(i64, i64)>, color: u32)
        requires
            old(self).wf(),
            forall|i: int|
                0 <= i < vertices@.len() ==> -100000 <= (#[trigger] vertices@[i]).0 <= 100000
                    && -100000 <= vertices@[i].1 <= 100000,
        ensures
            final(self).wf(),
            final(self).same_dims(old(self)),
            vertices@.len() < 3 ==> final(self).pixels@ == old(self).pixels@,
            forall|a: int, b: int|
                0 <= a < final(self).width && 0 <= b < final(self).height
                    ==> #[trigger] final(self).pixel(a, b) == (if spec_poly_covers(
                    vertices@,
                    a,
                    b,
                ) {
                    color
                } else {
                    old(self).pixel(a, b)
                }),
    {
        if vertices.len() < 3 {
            return ;
        }
        let w = self.width;
        let h = self.height;
        let mut y: usize = 0;
        while y < h
            invariant
                self.wf(),
                self.same_dims(old(self)),
                w == self.width,
                h == self.height,
                w <= 16384,
                h <= 16384,
                vertices@.len() >= 3,
                forall|i: int|
                    0 <= i < vertices@.len() ==> -100000 <= (#[trigger] vertices@[i]).0 <= 100000
                        && -100000 <= vertices@[i].1 <= 100000,
                0 <= y <= h,
                forall|a: int, b: int|
                    0 <= a < w && 0 <= b < h ==> #[trigger] self.pixel(a, b) == (if b < y
                        && spec_poly_covers(vertices@, a, b) {
                        color
                    } else {
                        old(self).pixel(a, b)
                    }),
            decreases h - y,
        {
            let mut x: usize = 0;
            while x < w
                invariant
                    self.wf(),
                    self.same_dims(old(self)),
                    w == self.width,
                    h == self.height,
                    w <= 16384,
                    h <= 16384,
                    vertices@.len() >= 3,
                    forall|i: int|
                        0 <= i < vertices@.len() ==> -100000 <= (#[trigger] vertices@[i]).0
                            <= 100000 && -100000 <= vertices@[i].1 <= 100000,
                    0 <= y < h,
                    0 <= x <= w,
                    forall|a: int, b: int|
                        0 <= a < w && 0 <= b < h ==> #[trigger] self.pixel(a, b) == (if (b < y
                            || (b == y && a < x)) && spec_poly_covers(vertices@, a, b) {
                            color
                        } else {
                            old(self).pixel(a, b)
                        }),
                decreases w - x,
            {
                let crossings = count_crossings_le(vertices, x as i64, y as i64);
                let ghost pre = *self;
                if crossings % 2 == 1 {
                    self.point(x, y, color);
                }
                proof {
                    assert((crossings as int) % 2 == 1 <==> spec_poly_covers(
                        vertices@,
                        x as int,
                        y as int,
                    ));
                    assert forall|a: int, b: int|
                        0 <= a < w && 0 <= b < h implies #[trigger] self.pixel(a, b) == (if (b
                        < y || (b == y && a < x + 1)) && spec_poly_covers(vertices@, a, b) {
                        color
                    } else {
                        old(self).pixel(a, b)
                    }) by {
                        if !(a == x && b == y) {
                            assert(self.pixel(a, b) == pre.pixel(a, b));
                        }
                    }
                }
                x = x + 1;
            }
            y = y + 1;
        }
    }
}

} // verus!

verus! {

/// Packs four 8-bit channels into the surface's ARGB color layout, the
/// form decoded images are converted to at the session boundary.
pub fn pack_argb(r: u8, g: u8, b: u8, a: u8) -> (c: u32)
    ensures
        c == (a as u32) * 16777216 + (r as u32) * 65536 + (g as u32) * 256 + (b as u32),
{
    let rv = r as u32;
    let gv = g as u32;
    let bv = b as u32;
    let av = a as u32;
    proof {
        assert((rv << 16u32) | (gv << 8u32) | bv | (av << 24u32) == av * 16777216 + rv * 65536
            + gv * 256 + bv) by (bit_vector)
            requires
                rv < 256,
                gv < 256,
                bv < 256,
                av < 256,
        ;
    }
    (rv << 16) | (gv << 8) | bv | (av << 24)
}

} // verus!
