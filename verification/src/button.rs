//! The start-screen button: a filled rectangle with a centered level name,
//! highlighted while selected.

use vstd::prelude::*;

verus! {

use crate::font::{draw_char, spec_char_index, spec_glyph_covers};
use crate::framebuffer::Framebuffer;

/// One clickable start-screen button.
pub struct Button {
    pub x: usize,
    pub y: usize,
    pub width: usize,
    pub height: usize,
    pub text: String,
    pub is_selected: bool,
}

/// Whether any of the first `n` characters of the text, laid out left to
/// right with a six-pixel pitch from `(tx, ty)`, covers the point `(a, b)`
/// with a set glyph bit.
pub open spec fn spec_text_covers(
    text: Seq<char>,
    tx: int,
    ty: int,
    n: int,
    a: int,
    b: int,
) -> bool
    decreases n,
{
    if n <= 0 {
        false
    } else {
        spec_glyph_covers(text[n - 1], tx + 6 * (n - 1), ty, a, b) || spec_text_covers(
            text,
            tx,
            ty,
            n - 1,
            a,
            b,
        )
    }
}

impl Button {
    /// Geometry small enough for the drawing arithmetic, with room for the
    /// centered label.
    pub open spec fn wf(&self) -> bool {
        &&& self.x <= 1000000
        &&& self.y <= 1000000
        &&& self.width <= 16384
        &&& 7 <= self.height <= 16384
        &&& 6 * self.text@.len() <= self.width
    }

    /// Left edge of the centered label.
    pub open spec fn spec_text_x(&self) -> int {
        self.x + (self.width - 6 * self.text@.len()) / 2
    }

    /// Top edge of the centered label.
    pub open spec fn spec_text_y(&self) -> int {
        self.y + (self.height - 7) / 2
    }

    /// A new, unselected button with the given geometry and label.
    pub fn new(x: usize, y: usize, width: usize, height: usize, text: &str) -> (r: Button)
        requires
            x <= 1000000,
            y <= 1000000,
            width <= 16384,
            7 <= height <= 16384,
            6 * text@.len() <= width,
        ensures
            r.wf(),
            r.x == x,
            r.y == y,
            r.width == width,
            r.height == height,
            r.text@ == text@,
            r.is_selected == false,
    {
        Button { x, y, width, height, text: text.to_owned(), is_selected: false }
    }

    /// Draws the button: a filled background rectangle, white while
    /// selected and gray otherwise, under the centered label in the
    /// opposite color, all clipped to the surface.
    pub fn draw(&self, framebuffer: &mut Framebuffer)
        requires
            old(framebuffer).wf(),
            self.wf(),
        ensures
            final(framebuffer).wf(),
            final(framebuffer).same_dims(old(framebuffer)),
            forall|a: int, b: int|
                0 <= a < final(framebuffer).width && 0 <= b < final(framebuffer).height
                    ==> #[trigger] final(framebuffer).pixel(a, b) == (if spec_text_covers(
                    self.text@,
                    self.spec_text_x(),
                    self.spec_text_y(),
                    self.text@.len() as int,
                    a,
                    b,
                ) {
                    if self.is_selected {
                        0xFF000000u32
                    } else {
                        0xFFFFFFFFu32
                    }
                } else if Framebuffer::in_rect(
                    self.x as int,
                    self.y as int,
                    self.width as int,
                    self.height as int,
                    a,
                    b,
                ) {
                    if self.is_selected {
                        0xFFFFFFFFu32
                    } else {
                        0xFF808080u32
                    }
                } else {
                    old(framebuffer).pixel(a, b)
                }),
    {
        let color: u32 = if self.is_selected {
            0xFFFFFFFF
        } else {
            0xFF808080
        };
        let text_color: u32 = if self.is_selected {
            0xFF000000
        } else {
            0xFFFFFFFF
        };
        framebuffer.draw_rect(self.x, self.y, self.width, self.height, color);
        let len = self.text.as_str().unicode_len();
        let text_x = self.x + (self.width - len * 6) / 2;
        let text_y = self.y + (self.height - 7) / 2;
        let ghost mid = *framebuffer;
        let mut i: usize = 0;
        while i < len
            invariant
                framebuffer.wf(),
                framebuffer.same_dims(old(framebuffer)),
                self.wf(),
                len == self.text@.len(),
                text_x == self.spec_text_x(),
                text_y == self.spec_text_y(),
                text_x <= 1100000,
                text_y <= 1100000,
                text_color == (if self.is_selected {
                    0xFF000000u32
                } else {
                    0xFFFFFFFFu32
                }),
                0 <= i <= len,
                forall|a: int, b: int|
                    0 <= a < framebuffer.width && 0 <= b < framebuffer.height
                        ==> #[trigger] framebuffer.pixel(a, b) == (if spec_text_covers(
                        self.text@,
                        text_x as int,
                        text_y as int,
                        i as int,
                        a,
                        b,
                    ) {
                        if self.is_selected {
                            0xFF000000u32
                        } else {
                            0xFFFFFFFFu32
                        }
                    } else {
                        mid.pixel(a, b)
                    }),
                forall|a: int, b: int|
                    0 <= a < mid.width && 0 <= b < mid.height ==> #[trigger] mid.pixel(a, b) == (
                    if Framebuffer::in_rect(
                        self.x as int,
                        self.y as int,
                        self.width as int,
                        self.height as int,
                        a,
                        b,
                    ) {
                        if self.is_selected {
                            0xFFFFFFFFu32
                        } else {
                            0xFF808080u32
                        }
                    } else {
                        old(framebuffer).pixel(a, b)
                    }),
                mid.width == framebuffer.width,
                mid.height == framebuffer.height,
            decreases len - i,
        {
            let ch = self.text.as_str().get_char(i);
            let ghost pre = *framebuffer;
            draw_char(framebuffer, text_x + i * 6, text_y, ch, text_color);
            proof {
                assert forall|a: int, b: int|
                    0 <= a < framebuffer.width && 0 <= b < framebuffer.height
                        implies #[trigger] framebuffer.pixel(a, b) == (if spec_text_covers(
                    self.text@,
                    text_x as int,
                    text_y as int,
                    i as int + 1,
                    a,
                    b,
                ) {
                    if self.is_selected {
                        0xFF000000u32
                    } else {
                        0xFFFFFFFFu32
                    }
                } else {
                    mid.pixel(a, b)
                }) by {
                    assert(spec_text_covers(
                        self.text@,
                        text_x as int,
                        text_y as int,
                        i as int + 1,
                        a,
                        b,
                    ) == (spec_glyph_covers(
                        self.text@[i as int],
                        text_x as int + 6 * (i as int),
                        text_y as int,
                        a,
                        b,
                    ) || spec_text_covers(
                        self.text@,
                        text_x as int,
                        text_y as int,
                        i as int,
                        a,
                        b,
                    )));
                    assert(ch == self.text@[i as int]);
                    if spec_char_index(ch) is None {
                        assert(framebuffer.pixel(a, b) == pre.pixel(a, b));
                    }
                }
            }
            i = i + 1;
        }
    }
}

} // verus!
