//! A tiny 5-by-5 bitmap font holding the two level names drawn on the
//! start-screen buttons.

use vstd::prelude::*;

verus! {

use crate::framebuffer::Framebuffer;

/// Row `i` of the packed font bitmap: rows 0 to 4 draw `A`, rows 5 to 9
/// draw `B`; bit 4 is the leftmost column.
pub open spec fn spec_font_row(i: int) -> u8 {
    if i == 0 {
        0b00100u8
    } else if i == 1 {
        0b01010u8
    } else if i == 2 {
        0b10001u8
    } else if i == 3 {
        0b11111u8
    } else if i == 4 {
        0b10001u8
    } else if i == 5 {
        0b11110u8
    } else if i == 6 {
        0b10001u8
    } else if i == 7 {
        0b11110u8
    } else if i == 8 {
        0b10001u8
    } else {
        0b11110u8
    }
}

/// Row `i` of the packed font bitmap.
pub fn font_row(i: usize) -> (r: u8)
    requires
        i < 10,
    ensures
        r == spec_font_row(i as int),
{
    if i == 0 {
        0b00100
    } else if i == 1 {
        0b01010
    } else if i == 2 {
        0b10001
    } else if i == 3 {
        0b11111
    } else if i == 4 {
        0b10001
    } else if i == 5 {
        0b11110
    } else if i == 6 {
        0b10001
    } else if i == 7 {
        0b11110
    } else if i == 8 {
        0b10001
    } else {
        0b11110
    }
}

/// The font index of a drawable character; characters outside the font are
/// skipped.
pub open spec fn spec_char_index(ch: char) -> Option<int> {
    if ch == 'A' {
        Some(0int)
    } else if ch == 'B' {
        Some(5int)
    } else {
        None
    }
}

/// Whether the glyph starting at font row `idx` has its bit set at glyph
/// row `row` and column `col`.
pub open spec fn spec_glyph_bit(idx: int, row: int, col: int) -> bool {
    (spec_font_row(idx + row) >> ((4 - col) as u8)) & 1 == 1
}

/// Whether the glyph of `ch` drawn with its top-left corner at `(gx, gy)`
/// covers the point `(a, b)` with a set bit.
pub open spec fn spec_glyph_covers(ch: char, gx: int, gy: int, a: int, b: int) -> bool {
    match spec_char_index(ch) {
        Some(idx) => gx <= a < gx + 5 && gy <= b < gy + 5 && spec_glyph_bit(idx, b - gy, a - gx),
        None => false,
    }
}

/// Draws one character of the font with its top-left corner at `(x, y)`:
/// every set glyph bit becomes a pixel of `color`, clipped to the surface;
/// a character outside the font draws nothing.
pub fn draw_char(framebuffer: &mut Framebuffer, x: usize, y: usize, ch: char, color: u32)
    requires
        old(framebuffer).wf(),
        x <= 2000000,
        y <= 2000000,
    ensures
        final(framebuffer).wf(),
        final(framebuffer).same_dims(old(framebuffer)),
        spec_char_index(ch) is None ==> final(framebuffer).pixels@ == old(framebuffer).pixels@,
        spec_char_index(ch) is Some ==> forall|a: int, b: int|
            0 <= a < final(framebuffer).width && 0 <= b < final(framebuffer).height
                ==> #[trigger] final(framebuffer).pixel(a, b) == (if spec_glyph_covers(
                ch,
                x as int,
                y as int,
                a,
                b,
            ) {
                color
            } else {
                old(framebuffer).pixel(a, b)
            }),
{
    let idx: usize = if ch == 'A' {
        0
    } else if ch == 'B' {
        5
    } else {
        return ;
    };
    let mut row: usize = 0;
    while row < 5
        invariant
            framebuffer.wf(),
            framebuffer.same_dims(old(framebuffer)),
            x <= 2000000,
            y <= 2000000,
            idx == 0 || idx == 5,
            spec_char_index(ch) == Some(idx as int),
            0 <= row <= 5,
            forall|a: int, b: int|
                0 <= a < framebuffer.width && 0 <= b < framebuffer.height
                    ==> #[trigger] framebuffer.pixel(a, b) == (if spec_glyph_covers(
                    ch,
                    x as int,
                    y as int,
                    a,
                    b,
                ) && b < y + row {
                    color
                } else {
                    old(framebuffer).pixel(a, b)
                }),
        decreases 5 - row,
    {
        let bitmap = font_row(idx + row);
        let mut col: usize = 0;
        while col < 5
            invariant
                framebuffer.wf(),
                framebuffer.same_dims(old(framebuffer)),
                x <= 2000000,
                y <= 2000000,
                idx == 0 || idx == 5,
                spec_char_index(ch) == Some(idx as int),
                0 <= row < 5,
                0 <= col <= 5,
                bitmap == spec_font_row(idx + row),
                forall|a: int, b: int|
                    0 <= a < framebuffer.width && 0 <= b < framebuffer.height
                        ==> #[trigger] framebuffer.pixel(a, b) == (if spec_glyph_covers(
                        ch,
                        x as int,
                        y as int,
                        a,
                        b,
                    ) && (b < y + row || (b == y + row && a < x + col)) {
                        color
                    } else {
                        old(framebuffer).pixel(a, b)
                    }),
            decreases 5 - col,
        {
            let ghost pre = *framebuffer;
            if (bitmap >> ((4 - col) as u8)) & 1 == 1 {
                framebuffer.point(x + col, y + row, color);
            }
            proof {
                assert forall|a: int, b: int|
                    0 <= a < framebuffer.width && 0 <= b < framebuffer.height
                        implies #[trigger] framebuffer.pixel(a, b) == (if spec_glyph_covers(
                    ch,
                    x as int,
                    y as int,
                    a,
                    b,
                ) && (b < y + row || (b == y + row && a < x + col + 1)) {
                    color
                } else {
                    old(framebuffer).pixel(a, b)
                }) by {
                    if a == x + col && b == y + row {
                        assert(spec_glyph_covers(ch, x as int, y as int, a, b)
                            == ((spec_font_row(idx + row) >> ((4 - col) as u8)) & 1 == 1));
                    } else {
                        assert(framebuffer.pixel(a, b) == pre.pixel(a, b));
                    }
                }
            }
            col = col + 1;
        }
        row = row + 1;
    }
}

} // verus!
