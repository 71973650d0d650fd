//! Serialization of the pixel surface as an uncompressed 24-bit bitmap:
//! a 14-byte file header, a 40-byte info header, then bottom-to-top rows of
//! blue-green-red bytes, each row padded to a multiple of four bytes.
//!
//! The encoder is mirrored byte for byte by `spec_bmp`, and the header and
//! pixel readers recover the surface's width, height and 24-bit colors from
//! the encoded bytes: the round trip is proved in `lemma_bmp_round_trip`.

use vstd::prelude::*;

verus! {

use crate::framebuffer::Framebuffer;
use vstd::arithmetic::div_mod::{
    lemma_fundamental_div_mod,
    lemma_fundamental_div_mod_converse,
    lemma_small_mod,
};

/// Bytes of one stored pixel row, padded to a multiple of four.
pub open spec fn spec_row_size(w: int) -> int {
    ((3 * w + 3) / 4) * 4
}

/// Total length of the encoding: 54 header bytes plus the padded rows.
pub open spec fn spec_bmp_len(w: int, h: int) -> int {
    54 + spec_row_size(w) * h
}

/// Byte `j` of the four-byte little-endian encoding of `v`.
pub open spec fn spec_le32_byte(v: int, j: int) -> u8 {
    if j == 0 {
        (v % 256) as u8
    } else if j == 1 {
        ((v / 256) % 256) as u8
    } else if j == 2 {
        ((v / 65536) % 256) as u8
    } else {
        ((v / 16777216) % 256) as u8
    }
}

/// Byte `i` of the 54-byte header for a surface of the given size.
pub open spec fn spec_bmp_header_byte(w: int, h: int, i: int) -> u8 {
    if i == 0 {
        66u8  // 'B'
    } else if i == 1 {
        77u8  // 'M'
    } else if i < 6 {
        spec_le32_byte(spec_bmp_len(w, h), i - 2)
    } else if i < 10 {
        0u8
    } else if i < 14 {
        spec_le32_byte(54, i - 10)
    } else if i < 18 {
        spec_le32_byte(40, i - 14)
    } else if i < 22 {
        spec_le32_byte(w, i - 18)
    } else if i < 26 {
        spec_le32_byte(h, i - 22)
    } else if i == 26 {
        1u8
    } else if i == 27 {
        0u8
    } else if i == 28 {
        24u8
    } else if i == 29 {
        0u8
    } else if i < 34 {
        0u8
    } else if i < 38 {
        spec_le32_byte(spec_row_size(w) * h, i - 34)
    } else {
        0u8
    }
}

/// Byte `i` of the whole encoding: header, then bottom-up rows of
/// blue-green-red bytes with zero padding.
pub open spec fn spec_bmp_byte(w: int, h: int, pix: Seq<u32>, i: int) -> u8 {
    if i < 54 {
        spec_bmp_header_byte(w, h, i)
    } else {
        let o = i - 54;
        let row = o / spec_row_size(w);
        let off = o % spec_row_size(w);
        if off < 3 * w {
            let x = off / 3;
            let ch = off % 3;
            let c = pix[(h - 1 - row) * w + x] as int;
            if ch == 0 {
                (c % 256) as u8
            } else if ch == 1 {
                ((c / 256) % 256) as u8
            } else {
                ((c / 65536) % 256) as u8
            }
        } else {
            0u8
        }
    }
}

/// The whole encoding of a surface as a byte sequence.
pub open spec fn spec_bmp(w: int, h: int, pix: Seq<u32>) -> Seq<u8> {
    Seq::new(spec_bmp_len(w, h) as nat, |i: int| spec_bmp_byte(w, h, pix, i))
}

/// The 32-bit little-endian value stored at `off`.
pub open spec fn spec_le32_read(b: Seq<u8>, off: int) -> int {
    b[off] + 256 * (b[off + 1] + 256 * (b[off + 2] + 256 * b[off + 3]))
}

/// The width field of an encoded bitmap.
pub open spec fn spec_bmp_width(b: Seq<u8>) -> int {
    spec_le32_read(b, 18)
}

/// The height field of an encoded bitmap.
pub open spec fn spec_bmp_height(b: Seq<u8>) -> int {
    spec_le32_read(b, 22)
}

/// The 24-bit color of pixel `(x, y)` of an encoded bitmap, read back from
/// its blue, green and red bytes.
pub open spec fn spec_bmp_pixel(b: Seq<u8>, w: int, h: int, x: int, y: int) -> int {
    let base = 54 + (h - 1 - y) * spec_row_size(w) + 3 * x;
    b[base] + 256 * (b[base + 1] as int) + 65536 * (b[base + 2] as int)
}

/// Reassembling a color's low three bytes gives its low 24 bits.
proof fn lemma_rgb24(c: u32)
    ensures
        ((c as int) % 256) + 256 * (((c as int) / 256) % 256) + 65536 * (((c as int) / 65536)
            % 256) == (c as int) % 16777216,
{
    assert(c % 256 + 256 * ((c / 256) % 256) + 65536 * ((c / 65536) % 256) == c % 16777216u32)
        by (bit_vector);
}

/// A 32-bit little-endian round trip recovers any value below `2^16`.
proof fn lemma_le32_round_trip(v: int)
    requires
        0 <= v < 65536,
    ensures
        (spec_le32_byte(v, 0) as int) + 256 * ((spec_le32_byte(v, 1) as int) + 256 * ((
        spec_le32_byte(v, 2) as int) + 256 * (spec_le32_byte(v, 3) as int))) == v,
{
    lemma_fundamental_div_mod(v, 256);
    lemma_small_mod((v / 256) as nat, 256);
    assert(v / 65536 == 0);
    assert(v / 16777216 == 0);
}

/// The bounds that make a surface encodable.
pub open spec fn spec_bmp_dims_ok(w: int, h: int) -> bool {
    1 <= w <= 16384 && 1 <= h <= 16384
}

/// Rendering a surface to bitmap bytes and reading the header and a pixel
/// back recovers the width, the height, and the pixel's color up to the
/// dropped alpha byte: the read color is the original's low 24 bits.
pub proof fn lemma_bmp_round_trip(w: int, h: int, pix: Seq<u32>, x: int, y: int)
    requires
        spec_bmp_dims_ok(w, h),
        pix.len() == w * h,
        0 <= x < w,
        0 <= y < h,
    ensures
        spec_bmp_width(spec_bmp(w, h, pix)) == w,
        spec_bmp_height(spec_bmp(w, h, pix)) == h,
        spec_bmp_pixel(spec_bmp(w, h, pix), w, h, x, y) == (pix[y * w + x] as int) % 16777216,
{
    let rs = spec_row_size(w);
    let b = spec_bmp(w, h, pix);
    assert(rs * h >= 0) by (nonlinear_arith)
        requires
            rs >= 0,
            h >= 0,
    ;
    lemma_le32_round_trip(w);
    lemma_le32_round_trip(h);
    assert(spec_bmp_width(b) == w);
    assert(spec_bmp_height(b) == h);

    let row = h - 1 - y;
    let o = row * rs + 3 * x;
    assert(3 * w <= rs) by {
        lemma_fundamental_div_mod(3 * w + 3, 4);
    }
    assert(o + 2 < rs * h) by (nonlinear_arith)
        requires
            o == row * rs + 3 * x,
            0 <= row < h,
            0 <= 3 * x,
            3 * x + 3 <= rs,
    ;
    assert(0 <= o) by (nonlinear_arith)
        requires
            o == row * rs + 3 * x,
            0 <= row,
            0 <= 3 * x,
            rs >= 0,
    ;
    let c = pix[y * w + x];
    lemma_fundamental_div_mod_converse(o, rs, row, 3 * x);
    lemma_fundamental_div_mod_converse(o + 1, rs, row, 3 * x + 1);
    lemma_fundamental_div_mod_converse(o + 2, rs, row, 3 * x + 2);
    assert((3 * x) / 3 == x && (3 * x) % 3 == 0) by {
        lemma_fundamental_div_mod_converse(3 * x, 3, x, 0);
    }
    assert((3 * x + 1) / 3 == x && (3 * x + 1) % 3 == 1) by {
        lemma_fundamental_div_mod_converse(3 * x + 1, 3, x, 1);
    }
    assert((3 * x + 2) / 3 == x && (3 * x + 2) % 3 == 2) by {
        lemma_fundamental_div_mod_converse(3 * x + 2, 3, x, 2);
    }
    assert(h - 1 - row == y);
    assert(b[54 + o] as int == (c as int) % 256);
    assert(b[54 + o + 1] as int == ((c as int) / 256) % 256);
    assert(b[54 + o + 2] as int == ((c as int) / 65536) % 256);
    lemma_rgb24(c);
}

/// Byte `j` of the little-endian encoding of `v`.
fn le32_byte(v: u64, j: usize) -> (r: u8)
    requires
        j < 4,
    ensures
        r == spec_le32_byte(v as int, j as int),
{
    if j == 0 {
        (v % 256) as u8
    } else if j == 1 {
        ((v / 256) % 256) as u8
    } else if j == 2 {
        ((v / 65536) % 256) as u8
    } else {
        ((v / 16777216) % 256) as u8
    }
}

impl Framebuffer {
    /// One byte of the surface's bitmap encoding.
    fn bmp_byte_at(&self, i: usize) -> (r: u8)
        requires
            self.wf(),
            spec_bmp_dims_ok(self.width as int, self.height as int),
            i < spec_bmp_len(self.width as int, self.height as int),
        ensures
            r == spec_bmp_byte(self.width as int, self.height as int, self.pixels@, i as int),
    {
        let w = self.width;
        let h = self.height;
        let row_size = ((3 * w + 3) / 4) * 4;
        proof {
            assert(0 <= spec_row_size(w as int) * (h as int) <= 49156 * 16384)
                by (nonlinear_arith)
                requires
                    0 <= spec_row_size(w as int) <= 49156,
                    0 <= h <= 16384,
            ;
        }
        if i < 54 {
            let file_size = 54 + (row_size as u64) * (h as u64);
            let image_size = (row_size as u64) * (h as u64);
            if i == 0 {
                66
            } else if i == 1 {
                77
            } else if i < 6 {
                le32_byte(file_size, i - 2)
            } else if i < 10 {
                0
            } else if i < 14 {
                le32_byte(54, i - 10)
            } else if i < 18 {
                le32_byte(40, i - 14)
            } else if i < 22 {
                le32_byte(w as u64, i - 18)
            } else if i < 26 {
                le32_byte(h as u64, i - 22)
            } else if i == 26 {
                1
            } else if i == 27 {
                0
            } else if i == 28 {
                24
            } else if i == 29 {
                0
            } else if i < 34 {
                0
            } else if i < 38 {
                le32_byte(image_size, i - 34)
            } else {
                0
            }
        } else {
            let o = i - 54;
            let row = o / row_size;
            let off = o % row_size;
            proof {
                assert((o as int) / spec_row_size(w as int) < h as int) by (nonlinear_arith)
                    requires
                        0 <= (o as int) < spec_row_size(w as int) * (h as int),
                        1 <= spec_row_size(w as int),
                ;
            }
            if off < 3 * w {
                let x = off / 3;
                let ch = off % 3;
                proof {
                    assert((off as int) / 3 < w as int) by (nonlinear_arith)
                        requires
                            0 <= (off as int) < 3 * (w as int),
                    ;
                    crate::framebuffer::lemma_idx_bound(
                        w as int,
                        h as int,
                        x as int,
                        (h - 1 - row) as int,
                    );
                    crate::framebuffer::lemma_area_bound(w as int, h as int);
                }
                let c = self.pixels[(h - 1 - row) * w + x];
                if ch == 0 {
                    (c % 256) as u8
                } else if ch == 1 {
                    ((c / 256) % 256) as u8
                } else {
                    ((c / 65536) % 256) as u8
                }
            } else {
                0
            }
        }
    }

    /// Serializes the surface as an uncompressed 24-bit bitmap: 54 header
    /// bytes, then the rows bottom to top in blue-green-red order, padded
    /// to four-byte boundaries.
    pub fn bmp_bytes(&self) -> (r: Vec<u8>)
        requires
            self.wf(),
            spec_bmp_dims_ok(self.width as int, self.height as int),
        ensures
            r@ == spec_bmp(self.width as int, self.height as int, self.pixels@),
    {
        let w = self.width;
        let h = self.height;
        let row_size = ((3 * w + 3) / 4) * 4;
        proof {
            assert(0 <= spec_row_size(w as int) * (h as int) <= 49156 * 16384)
                by (nonlinear_arith)
                requires
                    0 <= spec_row_size(w as int) <= 49156,
                    0 <= h <= 16384,
            ;
        }
        let total = 54 + row_size * h;
        let mut out: Vec<u8> = Vec::new();
        let mut i: usize = 0;
        while i < total
            invariant
                self.wf(),
                spec_bmp_dims_ok(self.width as int, self.height as int),
                w == self.width,
                h == self.height,
                total == spec_bmp_len(w as int, h as int),
                0 <= i <= total,
                out@.len() == i,
                forall|j: int|
                    0 <= j < i ==> out@[j] == spec_bmp_byte(w as int, h as int, self.pixels@, j),
            decreases total - i,
        {
            let byte = self.bmp_byte_at(i);
            out.push(byte);
            i = i + 1;
        }
        proof {
            assert(out@ =~= spec_bmp(w as int, h as int, self.pixels@));
        }
        out
    }
}

/// Reads the width field back from an encoded bitmap, `None` when the
/// bytes are too short to hold the header.
pub fn bmp_width(bytes: &Vec<u8>) -> (r: Option<u64>)
    ensures
        bytes@.len() >= 54 ==> r == Some(spec_bmp_width(bytes@) as u64),
        bytes@.len() < 54 ==> r is None,
{
    if bytes.len() < 54 {
        return None;
    }
    let v = bytes[18] as u64 + 256 * (bytes[19] as u64 + 256 * (bytes[20] as u64 + 256 * (
    bytes[21] as u64)));
    Some(v)
}

/// Reads the height field back from an encoded bitmap, `None` when the
/// bytes are too short to hold the header.
pub fn bmp_height(bytes: &Vec<u8>) -> (r: Option<u64>)
    ensures
        bytes@.len() >= 54 ==> r == Some(spec_bmp_height(bytes@) as u64),
        bytes@.len() < 54 ==> r is None,
{
    if bytes.len() < 54 {
        return None;
    }
    let v = bytes[22] as u64 + 256 * (bytes[23] as u64 + 256 * (bytes[24] as u64 + 256 * (
    bytes[25] as u64)));
    Some(v)
}

/// Reads one pixel's 24-bit color back from an encoded bitmap.
pub fn bmp_pixel(bytes: &Vec<u8>, w: usize, h: usize, x: usize, y: usize) -> (r: Option<u32>)
    requires
        spec_bmp_dims_ok(w as int, h as int),
        x < w,
        y < h,
    ensures
        bytes@.len() >= spec_bmp_len(w as int, h as int) ==> r == Some(
            spec_bmp_pixel(bytes@, w as int, h as int, x as int, y as int) as u32,
        ),
{
    let row_size = ((3 * w + 3) / 4) * 4;
    proof {
        assert(0 <= spec_row_size(w as int) * (h as int) <= 49156 * 16384) by (nonlinear_arith)
            requires
                0 <= spec_row_size(w as int) <= 49156,
                0 <= h <= 16384,
        ;
        assert((h as int - 1 - y as int) * spec_row_size(w as int) + 3 * (x as int) + 2
            < spec_row_size(w as int) * (h as int)) by (nonlinear_arith)
            requires
                0 <= (h as int) - 1 - (y as int) < (h as int),
                0 <= 3 * (x as int),
                3 * (x as int) + 3 <= spec_row_size(w as int),
        ;
        assert(0 <= (h as int - 1 - y as int) * spec_row_size(w as int)) by (nonlinear_arith)
            requires
                0 <= (h as int) - 1 - (y as int),
                0 <= spec_row_size(w as int),
        ;
        assert(3 * (w as int) <= spec_row_size(w as int)) by {
            lemma_fundamental_div_mod(3 * (w as int) + 3, 4);
        }
    }
    let base = 54 + (h - 1 - y) * row_size + 3 * x;
    if bytes.len() < 54 + row_size * h {
        return None;
    }
    let v = bytes[base] as u32 + 256 * (bytes[base + 1] as u32) + 65536 * (bytes[base + 2] as u32);
    Some(v)
}

} // verus!
