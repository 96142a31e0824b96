//! The double-buffered display.
//!
//! A `Display` owns two pixel buffers of identical dimensions: `offscreen`,
//! the ordinary backing copy every operation renders into first, and
//! `onscreen`, the buffer that stands for the hardware surface and receives
//! a copy of exactly the region an operation changed. Pixels are 32-bit
//! colors in row-major order, row `r` and column `c` at flat index
//! `r * width + c`.
//!
//! Every operation clips against the buffer bounds and never touches a pixel
//! outside the requested region; the exact effect of each is stated as a
//! sequence transform (`rect_px`, `char_px`, `scroll_px`, `move_px`).

use vstd::arithmetic::div_mod::{
    lemma_fundamental_div_mod, lemma_fundamental_div_mod_converse_div,
    lemma_fundamental_div_mod_converse_mod,
};
use vstd::prelude::*;

use crate::font::{glyph_px, glyph_row};
use crate::primitive::{fill_range, filled};

verus! {

pub struct Display {
    pub width: usize,
    pub height: usize,
    pub onscreen: Vec<u32>,
    pub offscreen: Vec<u32>,
}

// --- The row-major grid -----------------------------------------------

/// Row and column of a flat index are its quotient and remainder by the width.
pub proof fn lemma_grid(width: int, height: int, i: int)
    requires
        0 < width,
        0 <= i < width * height,
    ensures
        0 <= i % width < width,
        0 <= i / width < height,
        i == (i / width) * width + i % width,
{
    lemma_fundamental_div_mod(i, width);
    assert(width * (i / width) == (i / width) * width) by (nonlinear_arith);
    assert(0 <= i % width < width) by (nonlinear_arith)
        requires
            0 < width,
            0 <= i,
    ;
    assert(i / width < height) by (nonlinear_arith)
        requires
            0 < width,
            i < width * height,
            i == width * (i / width) + i % width,
            0 <= i % width < width,
    ;
    assert(0 <= i / width) by (nonlinear_arith)
        requires
            0 < width,
            0 <= i,
            i == width * (i / width) + i % width,
            i % width < width,
    ;
}

/// The flat index of row `r`, column `c` has that row and column back.
pub proof fn lemma_flat(width: int, r: int, c: int)
    requires
        0 < width,
        0 <= r,
        0 <= c < width,
    ensures
        (r * width + c) / width == r,
        (r * width + c) % width == c,
{
    lemma_fundamental_div_mod_converse_div(r * width + c, width, r, c);
    lemma_fundamental_div_mod_converse_mod(r * width + c, width, r, c);
}

/// The flat index of an in-bounds row and column is in bounds.
pub proof fn lemma_flat_bound(width: int, height: int, r: int, c: int)
    requires
        0 <= c < width,
        0 <= r < height,
    ensures
        0 <= r * width + c < width * height,
{
    assert(0 <= r * width + c < width * height) by (nonlinear_arith)
        requires
            0 <= c < width,
            0 <= r < height,
    ;
}

/// A flat index lies under row `k` exactly when it is under `k * width`.
pub proof fn lemma_row_lt(width: int, k: int, j: int)
    requires
        0 < width,
        0 <= j,
        0 <= k,
    ensures
        j / width < k <==> j < k * width,
{
    lemma_fundamental_div_mod(j, width);
    assert((j / width < k <==> j < k * width)) by (nonlinear_arith)
        requires
            0 < width,
            0 <= j,
            0 <= k,
            j == width * (j / width) + j % width,
            0 <= j % width < width,
    ;
}

// --- The operations as sequence transforms ----------------------------

/// Fill of the rectangle `[x, x+w) x [y, y+h)`, clipped to the buffer.
pub open spec fn rect_px(s: Seq<u32>, width: int, x: int, y: int, w: int, h: int, color: u32) -> Seq<
    u32,
> {
    Seq::new(
        s.len(),
        |i: int|
            if x <= i % width < x + w && y <= i / width < y + h {
                color
            } else {
                s[i]
            },
    )
}

/// Rendering of the glyph for `c` with its top-left pixel at `(x, y)`:
/// set glyph pixels take `color`, the rest of the cell is untouched.
pub open spec fn char_px(s: Seq<u32>, width: int, x: int, y: int, c: char, color: u32) -> Seq<u32> {
    Seq::new(
        s.len(),
        |i: int|
            if x <= i % width < x + 8 && y <= i / width < y + 16 && glyph_px(
                c,
                i / width - y,
                i % width - x,
            ) {
                color
            } else {
                s[i]
            },
    )
}

/// `dst` with the rectangle `[x, x+w) x [y, y+h)` replaced by `src`.
pub open spec fn copy_region_px(
    dst: Seq<u32>,
    src: Seq<u32>,
    width: int,
    x: int,
    y: int,
    w: int,
    h: int,
) -> Seq<u32> {
    Seq::new(
        dst.len(),
        |i: int|
            if x <= i % width < x + w && y <= i / width < y + h {
                src[i]
            } else {
                dst[i]
            },
    )
}

/// Shift of all rows up by `off`: row `r` takes the content formerly at row
/// `r + off` where that row exists, the bottom `off` rows take `color`.
pub open spec fn scroll_px(s: Seq<u32>, width: int, height: int, off: int, color: u32) -> Seq<
    u32,
> {
    Seq::new(
        s.len(),
        |i: int|
            if i / width + off < height {
                s[i + off * width]
            } else {
                color
            },
    )
}

/// Copy of the `w x h` block at `(fx, fy)` to `(tx, ty)`, reading the value
/// each source pixel had before the move; pixels whose source or target
/// falls outside the buffer are untouched.
pub open spec fn move_px(
    s: Seq<u32>,
    width: int,
    height: int,
    fx: int,
    fy: int,
    tx: int,
    ty: int,
    w: int,
    h: int,
) -> Seq<u32> {
    Seq::new(
        s.len(),
        |i: int|
            if tx <= i % width < tx + w && ty <= i / width < ty + h && i % width - tx + fx < width
                && i / width - ty + fy < height {
                s[(i / width - ty + fy) * width + (i % width - tx + fx)]
            } else {
                s[i]
            },
    )
}

// --- Region helpers over a flat buffer --------------------------------

/// Fill the already-clipped rectangle `[x, x+w) x [y, y+h)` of `v`.
fn fill_region(v: &mut Vec<u32>, width: usize, height: usize, x: usize, y: usize, w: usize, h: usize, color: u32)
    requires
        old(v)@.len() == width * height,
        width * height <= usize::MAX,
        0 < width,
        0 < height,
        x + w <= width,
        y + h <= height,
    ensures
        final(v)@.len() == old(v)@.len(),
        forall|i: int|
            0 <= i < old(v)@.len() ==> final(v)@[i] == if x <= i % (width as int) < x + w && y <= i
                / (width as int) < y + h {
                color
            } else {
                old(v)@[i]
            },
{
    let mut r: usize = y;
    while r < y + h
        invariant
            v@.len() == width * height,
            width * height <= usize::MAX,
            0 < width,
            0 < height,
            x + w <= width,
            y <= r <= y + h,
            y + h <= height,
            forall|i: int|
                0 <= i < v@.len() ==> v@[i] == if x <= i % (width as int) < x + w && y <= i / (
                width as int) < r {
                    color
                } else {
                    old(v)@[i]
                },
        decreases y + h - r,
    {
        proof {
            assert(r * width + width <= width * height) by (nonlinear_arith)
                requires
                    r + 1 <= height,
                    0 <= width,
            ;
        }
        let base: usize = r * width;
        let ghost before = v@;
        fill_range(v, base + x, base + x + w, color);
        proof {
            assert forall|i: int| 0 <= i < v@.len() implies v@[i] == (if x <= i % (width as int) < x
                + w && y <= i / (width as int) < r + 1 {
                color
            } else {
                old(v)@[i]
            }) by {
                lemma_grid(width as int, height as int, i);
                if base + x <= i < base + x + w {
                    lemma_flat(width as int, r as int, i - base);
                } else {
                    if i / (width as int) == r && x <= i % (width as int) < x + w {
                        lemma_flat(width as int, r as int, i % (width as int));
                    }
                }
            }
        }
        r = r + 1;
    }
}

/// Copy the already-clipped rectangle `[x, x+w) x [y, y+h)` from `src` into `dst`.
fn copy_region(dst: &mut Vec<u32>, src: &Vec<u32>, width: usize, height: usize, x: usize, y: usize, w: usize, h: usize)
    requires
        old(dst)@.len() == width * height,
        src@.len() == width * height,
        width * height <= usize::MAX,
        0 < width,
        0 < height,
        x + w <= width,
        y + h <= height,
    ensures
        final(dst)@.len() == old(dst)@.len(),
        forall|i: int|
            0 <= i < old(dst)@.len() ==> final(dst)@[i] == if x <= i % (width as int) < x + w && y
                <= i / (width as int) < y + h {
                src@[i]
            } else {
                old(dst)@[i]
            },
{
    let mut r: usize = y;
    while r < y + h
        invariant
            dst@.len() == width * height,
            src@.len() == width * height,
            width * height <= usize::MAX,
            0 < width,
            0 < height,
            x + w <= width,
            y <= r <= y + h,
            y + h <= height,
            forall|i: int|
                0 <= i < dst@.len() ==> dst@[i] == if x <= i % (width as int) < x + w && y <= i / (
                width as int) < r {
                    src@[i]
                } else {
                    old(dst)@[i]
                },
        decreases y + h - r,
    {
        proof {
            assert(r * width + width <= width * height) by (nonlinear_arith)
                requires
                    r + 1 <= height,
                    0 <= width,
            ;
        }
        let base: usize = r * width;
        let mut cc: usize = 0;
        while cc < w
            invariant
                dst@.len() == width * height,
                src@.len() == width * height,
                width * height <= usize::MAX,
                0 < width,
                0 < height,
                x + w <= width,
                y <= r < y + h,
                y + h <= height,
                cc <= w,
                base == r * width,
                base + x + w <= width * height,
                forall|i: int|
                    0 <= i < dst@.len() ==> dst@[i] == if (x <= i % (width as int) < x + w && y <= i
                        / (width as int) < r) || (base + x <= i < base + x + cc) {
                        src@[i]
                    } else {
                        old(dst)@[i]
                    },
            decreases w - cc,
        {
            dst[base + x + cc] = src[base + x + cc];
            cc = cc + 1;
        }
        proof {
            assert forall|i: int| 0 <= i < dst@.len() implies dst@[i] == (if x <= i % (width as int)
                < x + w && y <= i / (width as int) < r + 1 {
                src@[i]
            } else {
                old(dst)@[i]
            }) by {
                lemma_grid(width as int, height as int, i);
                if base + x <= i < base + x + w {
                    lemma_flat(width as int, r as int, i - base);
                } else {
                    if i / (width as int) == r && x <= i % (width as int) < x + w {
                        lemma_flat(width as int, r as int, i % (width as int));
                    }
                }
            }
        }
        r = r + 1;
    }
}

// --- The display ------------------------------------------------------

impl Display {
    /// Both buffers exist and have exactly `width * height` pixels.
    pub open spec fn wf(self) -> bool {
        self.onscreen@.len() == self.width * self.height && self.offscreen@.len() == self.width
            * self.height
    }

    /// A display of the given dimensions with both buffers cleared to zero.
    pub fn new(width: usize, height: usize) -> (d: Display)
        requires
            width * height <= usize::MAX,
        ensures
            d.wf(),
            d.width == width,
            d.height == height,
            forall|i: int| 0 <= i < width * height ==> d.offscreen@[i] == 0u32,
            forall|i: int| 0 <= i < width * height ==> d.onscreen@[i] == 0u32,
    {
        let size: usize = width * height;
        Display { width, height, onscreen: filled(size, 0), offscreen: filled(size, 0) }
    }

    /// Fill the rectangle with `color` in both buffers; everything outside
    /// the (clipped) rectangle keeps its value.
    pub fn rect(&mut self, x: usize, y: usize, w: usize, h: usize, color: u32)
        requires
            old(self).wf(),
        ensures
            final(self).wf(),
            final(self).width == old(self).width,
            final(self).height == old(self).height,
            final(self).offscreen@ == rect_px(
                old(self).offscreen@,
                old(self).width as int,
                x as int,
                y as int,
                w as int,
                h as int,
                color,
            ),
            final(self).onscreen@ == rect_px(
                old(self).onscreen@,
                old(self).width as int,
                x as int,
                y as int,
                w as int,
                h as int,
                color,
            ),
    {
        let width = self.width;
        let height = self.height;
        let ghost off0 = self.offscreen@;
        let ghost on0 = self.onscreen@;
        if x >= width || y >= height || w == 0 || h == 0 {
            proof {
                lemma_rect_px_empty(off0, width as int, height as int, x as int, y as int, w as int, h as int, color);
                lemma_rect_px_empty(on0, width as int, height as int, x as int, y as int, w as int, h as int, color);
            }
            return ;
        }
        // witnesses that width * height fits the machine range
        let _total: usize = self.offscreen.len();
        let cw: usize = if width - x < w {
            width - x
        } else {
            w
        };
        let ch: usize = if height - y < h {
            height - y
        } else {
            h
        };
        fill_region(&mut self.offscreen, width, height, x, y, cw, ch, color);
        fill_region(&mut self.onscreen, width, height, x, y, cw, ch, color);
        proof {
            lemma_region_cond(off0, self.offscreen@, off0, width as int, height as int, x as int, y as int, w as int, h as int, cw as int, ch as int, color);
            lemma_region_cond(on0, self.onscreen@, on0, width as int, height as int, x as int, y as int, w as int, h as int, cw as int, ch as int, color);
            assert(self.offscreen@ =~= rect_px(off0, width as int, x as int, y as int, w as int, h as int, color));
            assert(self.onscreen@ =~= rect_px(on0, width as int, x as int, y as int, w as int, h as int, color));
        }
    }

    /// Render the glyph for `c` with its top-left pixel at `(x, y)` into the
    /// offscreen buffer, then copy the whole (clipped) 8x16 cell onscreen.
    pub fn char(&mut self, x: usize, y: usize, c: char, color: u32)
        requires
            old(self).wf(),
        ensures
            final(self).wf(),
            final(self).width == old(self).width,
            final(self).height == old(self).height,
            final(self).offscreen@ == char_px(
                old(self).offscreen@,
                old(self).width as int,
                x as int,
                y as int,
                c,
                color,
            ),
            final(self).onscreen@ == copy_region_px(
                old(self).onscreen@,
                final(self).offscreen@,
                old(self).width as int,
                x as int,
                y as int,
                8,
                16,
            ),
    {
        let width = self.width;
        let height = self.height;
        let ghost off0 = self.offscreen@;
        let ghost on0 = self.onscreen@;
        if x >= width || y >= height {
            proof {
                lemma_char_px_empty(off0, width as int, height as int, x as int, y as int, c, color);
                lemma_copy_region_px_empty(on0, self.offscreen@, width as int, height as int, x as int, y as int, 8, 16);
            }
            return ;
        }
        // witnesses that width * height fits the machine range
        let _total: usize = self.offscreen.len();
        let cols: usize = if width - x < 8 {
            width - x
        } else {
            8
        };
        let rows: usize = if height - y < 16 {
            height - y
        } else {
            16
        };
        let mut row: usize = 0;
        while row < rows
            invariant
                self.width == width,
                self.height == height,
                self.onscreen@ == on0,
                self.offscreen@.len() == width * height,
                on0.len() == width * height,
                off0.len() == width * height,
                width * height <= usize::MAX,
                x < width,
                y < height,
                cols == (if width - x < 8 { (width - x) as usize } else { 8usize }),
                rows == (if height - y < 16 { (height - y) as usize } else { 16usize }),
                row <= rows,
                forall|i: int|
                    0 <= i < width * height ==> self.offscreen@[i] == if x <= i % (width as int) < x
                        + cols && y <= i / (width as int) < y + row && glyph_px(
                        c,
                        i / (width as int) - y,
                        i % (width as int) - x,
                    ) {
                        color
                    } else {
                        off0[i]
                    },
            decreases rows - row,
        {
            let rb = glyph_row(c, row);
            proof {
                assert((y + row) * width + width <= width * height) by (nonlinear_arith)
                    requires
                        y + row + 1 <= height,
                        0 <= width,
                ;
            }
            let base: usize = (y + row) * width;
            let ghost row_start = self.offscreen@;
            let mut col: usize = 0;
            while col < cols
                invariant
                    self.width == width,
                    self.height == height,
                    self.onscreen@ == on0,
                    self.offscreen@.len() == width * height,
                    off0.len() == width * height,
                    width * height <= usize::MAX,
                    x < width,
                    y < height,
                    cols == (if width - x < 8 { (width - x) as usize } else { 8usize }),
                    y + row < height,
                    row < 16,
                    col <= cols,
                    base == (y + row) * width,
                    base + width <= width * height,
                    rb == crate::font::spec_glyph_row(c, row as int),
                    forall|i: int|
                        0 <= i < width * height ==> self.offscreen@[i] == if base + x <= i < base + x
                            + col && glyph_px(c, row as int, i - (base + x)) {
                            color
                        } else {
                            row_start[i]
                        },
                decreases cols - col,
            {
                if (rb >> ((7 - col) as u8)) & 1 == 1 {
                    proof {
                        assert(glyph_px(c, row as int, col as int));
                    }
                    self.offscreen[base + x + col] = color;
                } else {
                    proof {
                        assert(!glyph_px(c, row as int, col as int));
                    }
                }
                col = col + 1;
            }
            proof {
                assert forall|i: int| 0 <= i < width * height implies self.offscreen@[i] == (if x <= i
                    % (width as int) < x + cols && y <= i / (width as int) < y + row + 1 && glyph_px(
                    c,
                    i / (width as int) - y,
                    i % (width as int) - x,
                ) {
                    color
                } else {
                    off0[i]
                }) by {
                    lemma_grid(width as int, height as int, i);
                    if base + x <= i < base + x + cols {
                        lemma_flat(width as int, (y + row) as int, i - base);
                    } else {
                        if i / (width as int) == y + row && x <= i % (width as int) < x + cols {
                            lemma_flat(width as int, (y + row) as int, i % (width as int));
                        }
                    }
                }
            }
            row = row + 1;
        }
        proof {
            assert forall|i: int| 0 <= i < width * height implies self.offscreen@[i] == (if x <= i % (
            width as int) < x + 8 && y <= i / (width as int) < y + 16 && glyph_px(
                c,
                i / (width as int) - y,
                i % (width as int) - x,
            ) {
                color
            } else {
                off0[i]
            }) by {
                lemma_grid(width as int, height as int, i);
            }
            assert(self.offscreen@ =~= char_px(off0, width as int, x as int, y as int, c, color));
        }
        copy_region(&mut self.onscreen, &self.offscreen, width, height, x, y, cols, rows);
        proof {
            assert forall|i: int| 0 <= i < width * height implies self.onscreen@[i] == (if x <= i % (
            width as int) < x + 8 && y <= i / (width as int) < y + 16 {
                self.offscreen@[i]
            } else {
                on0[i]
            }) by {
                lemma_grid(width as int, height as int, i);
            }
            assert(self.onscreen@ =~= copy_region_px(on0, self.offscreen@, width as int, x as int, y as int, 8, 16));
        }
    }

    /// Shift all rows of both buffers up by `offset` pixel rows, filling the
    /// exposed bottom rows with `color`; afterwards the onscreen buffer
    /// equals the offscreen one.
    pub fn scroll(&mut self, offset: usize, color: u32)
        requires
            old(self).wf(),
        ensures
            final(self).wf(),
            final(self).width == old(self).width,
            final(self).height == old(self).height,
            final(self).offscreen@ == scroll_px(
                old(self).offscreen@,
                old(self).width as int,
                old(self).height as int,
                offset as int,
                color,
            ),
            final(self).onscreen@ == final(self).offscreen@,
    {
        let width = self.width;
        let height = self.height;
        let ghost off0 = self.offscreen@;
        let total: usize = self.offscreen.len();
        if total == 0 {
            proof {
                assert(self.offscreen@ =~= scroll_px(off0, width as int, height as int, offset as int, color));
                assert(self.onscreen@ =~= self.offscreen@);
            }
            return ;
        }
        proof {
            assert(0 < width && 0 < height) by (nonlinear_arith)
                requires
                    0 <= width,
                    0 <= height,
                    0 < width * height,
            ;
        }
        let off: usize = if offset > height {
            height
        } else {
            offset
        };
        let keep: usize = height - off;
        proof {
            assert(keep * width <= width * height && off * width <= width * height && keep * width
                + off * width == width * height) by (nonlinear_arith)
                requires
                    keep + off == height,
                    0 <= keep,
                    0 <= off,
                    0 <= width,
            ;
        }
        let keep_px: usize = keep * width;
        let shift: usize = off * width;
        let mut i: usize = 0;
        while i < keep_px
            invariant
                self.width == width,
                self.height == height,
                self.offscreen@.len() == width * height,
                self.onscreen@.len() == width * height,
                off0.len() == width * height,
                width * height <= usize::MAX,
                keep_px == keep * width,
                shift == off * width,
                keep_px + shift == width * height,
                i <= keep_px,
                forall|j: int| 0 <= j < i ==> self.offscreen@[j] == off0[j + shift],
                forall|j: int| i <= j < width * height ==> self.offscreen@[j] == off0[j],
            decreases keep_px - i,
        {
            let v = self.offscreen[i + shift];
            self.offscreen[i] = v;
            i = i + 1;
        }
        fill_range(&mut self.offscreen, keep_px, total, color);
        proof {
            assert forall|j: int| 0 <= j < width * height implies self.offscreen@[j] == (if j / (
            width as int) + offset < height {
                off0[j + offset * (width as int)]
            } else {
                color
            }) by {
                lemma_grid(width as int, height as int, j);
                lemma_row_lt(width as int, keep as int, j);
                if j < keep_px {
                    assert(off == offset);
                }
            }
            assert(self.offscreen@ =~= scroll_px(off0, width as int, height as int, offset as int, color));
        }
        copy_region(&mut self.onscreen, &self.offscreen, width, height, 0, 0, width, height);
        proof {
            assert forall|j: int| 0 <= j < width * height implies self.onscreen@[j]
                == self.offscreen@[j] by {
                lemma_grid(width as int, height as int, j);
            }
            assert(self.onscreen@ =~= self.offscreen@);
        }
    }

    /// Copy the `w x h` pixel block at `(from_x, from_y)` of the offscreen
    /// buffer to `(to_x, to_y)` as if in one step, then copy the (clipped)
    /// target rectangle onscreen.
    pub fn move_rect(&mut self, from_x: usize, from_y: usize, to_x: usize, to_y: usize, w: usize, h: usize)
        requires
            old(self).wf(),
        ensures
            final(self).wf(),
            final(self).width == old(self).width,
            final(self).height == old(self).height,
            final(self).offscreen@ == move_px(
                old(self).offscreen@,
                old(self).width as int,
                old(self).height as int,
                from_x as int,
                from_y as int,
                to_x as int,
                to_y as int,
                w as int,
                h as int,
            ),
            final(self).onscreen@ == copy_region_px(
                old(self).onscreen@,
                final(self).offscreen@,
                old(self).width as int,
                to_x as int,
                to_y as int,
                w as int,
                h as int,
            ),
    {
        let width = self.width;
        let height = self.height;
        let ghost off0 = self.offscreen@;
        let ghost on0 = self.onscreen@;
        if to_x >= width || to_y >= height || w == 0 || h == 0 {
            proof {
                lemma_move_px_empty(off0, width as int, height as int, from_x as int, from_y as int, to_x as int, to_y as int, w as int, h as int);
                lemma_copy_region_px_empty(on0, self.offscreen@, width as int, height as int, to_x as int, to_y as int, w as int, h as int);
            }
            return ;
        }
        // witnesses that width * height fits the machine range
        let _total: usize = self.offscreen.len();
        let cwt: usize = if width - to_x < w {
            width - to_x
        } else {
            w
        };
        let cht: usize = if height - to_y < h {
            height - to_y
        } else {
            h
        };
        let cw: usize = if from_x >= width {
            0
        } else if width - from_x < cwt {
            width - from_x
        } else {
            cwt
        };
        let ch: usize = if from_y >= height {
            0
        } else if height - from_y < cht {
            height - from_y
        } else {
            cht
        };
        proof {
            assert(ch * cw <= width * height) by (nonlinear_arith)
                requires
                    0 <= cw <= width,
                    0 <= ch <= height,
            ;
        }
        let mut tmp: Vec<u32> = Vec::new();
        let mut rr: usize = 0;
        while rr < ch
            invariant
                self.offscreen@ == off0,
                off0.len() == width * height,
                width * height <= usize::MAX,
                rr <= ch,
                cw <= width,
                ch <= height,
                cw == 0 || from_x + cw <= width,
                ch == 0 || from_y + ch <= height,
                tmp@.len() == rr * cw,
                ch * cw <= width * height,
                forall|a: int, b: int|
                    0 <= a < rr && 0 <= b < cw ==> #[trigger] tmp@[a * cw + b] == off0[(from_y + a) * width
                        + from_x + b],
            decreases ch - rr,
        {
            proof {
                assert(rr * cw + cw <= ch * cw) by (nonlinear_arith)
                    requires
                        rr + 1 <= ch,
                        0 <= cw,
                ;
                assert((from_y + rr) * width + width <= width * height) by (nonlinear_arith)
                    requires
                        from_y + rr + 1 <= height,
                        0 <= width,
                ;
            }
            let base: usize = (from_y + rr) * width;
            let mut cc: usize = 0;
            while cc < cw
                invariant
                    self.offscreen@ == off0,
                    off0.len() == width * height,
                    width * height <= usize::MAX,
                    rr < ch,
                    cc <= cw,
                    cw <= width,
                    ch <= height,
                    cw == 0 || from_x + cw <= width,
                    ch == 0 || from_y + ch <= height,
                    base == (from_y + rr) * width,
                    base + width <= width * height,
                    tmp@.len() == rr * cw + cc,
                    rr * cw + cw <= ch * cw,
                    ch * cw <= width * height,
                    forall|a: int, b: int|
                        0 <= a < rr && 0 <= b < cw ==> #[trigger] tmp@[a * cw + b] == off0[(from_y + a) * width
                            + from_x + b],
                    forall|b: int|
                        0 <= b < cc ==> #[trigger] tmp@[rr * cw + b] == off0[(from_y + rr) * width + from_x
                            + b],
                decreases cw - cc,
            {
                let v = self.offscreen[base + from_x + cc];
                tmp.push(v);
                proof {
                    assert forall|a: int, b: int| 0 <= a < rr && 0 <= b < cw implies #[trigger] tmp@[a * cw + b]
                        == off0[(from_y + a) * width + from_x + b] by {
                        assert(a * cw + b < rr * cw) by (nonlinear_arith)
                            requires
                                0 <= a < rr,
                                0 <= b < cw,
                        ;
                    }
                }
                cc = cc + 1;
            }
            proof {
                assert((rr + 1) * cw == rr * cw + cw) by (nonlinear_arith);
            }
            rr = rr + 1;
        }
        let ghost tmp_snap = tmp@;
        let mut rr: usize = 0;
        while rr < ch
            invariant
                self.width == width,
                self.height == height,
                self.onscreen@ == on0,
                self.offscreen@.len() == width * height,
                on0.len() == width * height,
                off0.len() == width * height,
                width * height <= usize::MAX,
                rr <= ch,
                cw <= width,
                ch <= height,
                to_x < width,
                to_y < height,
                to_x + cw <= width,
                to_y + ch <= height,
                tmp@ == tmp_snap,
                tmp@.len() == ch * cw,
                ch * cw <= width * height,
                forall|a: int, b: int|
                    0 <= a < ch && 0 <= b < cw ==> #[trigger] tmp@[a * cw + b] == off0[(from_y + a) * width
                        + from_x + b],
                forall|i: int|
                    0 <= i < width * height ==> self.offscreen@[i] == if to_x <= i % (width as int)
                        < to_x + cw && to_y <= i / (width as int) < to_y + rr {
                        off0[(i / (width as int) - to_y + from_y) * width + (i % (width as int)
                            - to_x + from_x)]
                    } else {
                        off0[i]
                    },
            decreases ch - rr,
        {
            proof {
                assert((to_y + rr) * width + width <= width * height) by (nonlinear_arith)
                    requires
                        to_y + rr + 1 <= height,
                        0 <= width,
                ;
                assert(rr * cw + cw <= ch * cw) by (nonlinear_arith)
                    requires
                        rr + 1 <= ch,
                        0 <= cw,
                ;
            }
            let base: usize = (to_y + rr) * width;
            let ghost row_start = self.offscreen@;
            let mut cc: usize = 0;
            while cc < cw
                invariant
                    self.width == width,
                    self.height == height,
                    self.onscreen@ == on0,
                    self.offscreen@.len() == width * height,
                    off0.len() == width * height,
                    width * height <= usize::MAX,
                    rr < ch,
                    cc <= cw,
                    cw <= width,
                    ch <= height,
                    to_x + cw <= width,
                    to_y + ch <= height,
                    base == (to_y + rr) * width,
                    base + width <= width * height,
                    tmp@ == tmp_snap,
                    tmp@.len() == ch * cw,
                    ch * cw <= width * height,
                    rr * cw + cw <= ch * cw,
                    forall|a: int, b: int|
                        0 <= a < ch && 0 <= b < cw ==> #[trigger] tmp@[a * cw + b] == off0[(from_y + a) * width
                            + from_x + b],
                    forall|i: int|
                        0 <= i < width * height ==> self.offscreen@[i] == if base + to_x <= i < base
                            + to_x + cc {
                            off0[(from_y + rr) * width + from_x + (i - (base + to_x))]
                        } else {
                            row_start[i]
                        },
                decreases cw - cc,
            {
                let v = tmp[rr * cw + cc];
                self.offscreen[base + to_x + cc] = v;
                cc = cc + 1;
            }
            proof {
                assert forall|i: int| 0 <= i < width * height implies self.offscreen@[i] == (if to_x
                    <= i % (width as int) < to_x + cw && to_y <= i / (width as int) < to_y + rr + 1 {
                    off0[(i / (width as int) - to_y + from_y) * width + (i % (width as int) - to_x
                        + from_x)]
                } else {
                    off0[i]
                }) by {
                    lemma_grid(width as int, height as int, i);
                    if base + to_x <= i < base + to_x + cw {
                        lemma_flat(width as int, (to_y + rr) as int, i - base);
                    } else {
                        if i / (width as int) == to_y + rr && to_x <= i % (width as int) < to_x
                            + cw {
                            lemma_flat(width as int, (to_y + rr) as int, i % (width as int));
                        }
                    }
                }
            }
            rr = rr + 1;
        }
        proof {
            assert forall|i: int| 0 <= i < width * height implies self.offscreen@[i] == (if to_x <= i
                % (width as int) < to_x + w && to_y <= i / (width as int) < to_y + h && i % (
            width as int) - to_x + from_x < width && i / (width as int) - to_y + from_y < height {
                off0[(i / (width as int) - to_y + from_y) * width + (i % (width as int) - to_x
                    + from_x)]
            } else {
                off0[i]
            }) by {
                lemma_grid(width as int, height as int, i);
            }
            assert(self.offscreen@ =~= move_px(off0, width as int, height as int, from_x as int, from_y as int, to_x as int, to_y as int, w as int, h as int));
        }
        copy_region(&mut self.onscreen, &self.offscreen, width, height, to_x, to_y, cwt, cht);
        proof {
            assert forall|i: int| 0 <= i < width * height implies self.onscreen@[i] == (if to_x <= i
                % (width as int) < to_x + w && to_y <= i / (width as int) < to_y + h {
                self.offscreen@[i]
            } else {
                on0[i]
            }) by {
                lemma_grid(width as int, height as int, i);
            }
            assert(self.onscreen@ =~= copy_region_px(on0, self.offscreen@, width as int, to_x as int, to_y as int, w as int, h as int));
        }
    }
}

/// With its top-left corner off screen, `char_px` changes nothing.
pub proof fn lemma_char_px_empty(s: Seq<u32>, width: int, height: int, x: int, y: int, c: char, color: u32)
    requires
        s.len() == width * height,
        0 <= width,
        0 <= height,
        x >= width || y >= height,
    ensures
        char_px(s, width, x, y, c, color) == s,
{
    assert forall|i: int| 0 <= i < s.len() implies char_px(s, width, x, y, c, color)[i] == s[i] by {
        assert(0 < width && 0 < height) by (nonlinear_arith)
            requires
                0 <= width,
                0 <= height,
                0 <= i < width * height,
        ;
        lemma_grid(width, height, i);
    }
    assert(char_px(s, width, x, y, c, color) =~= s);
}

/// With an empty or fully off-screen rectangle, `copy_region_px` changes nothing.
pub proof fn lemma_copy_region_px_empty(dst: Seq<u32>, src: Seq<u32>, width: int, height: int, x: int, y: int, w: int, h: int)
    requires
        dst.len() == width * height,
        0 <= width,
        0 <= height,
        x >= width || y >= height || w <= 0 || h <= 0,
    ensures
        copy_region_px(dst, src, width, x, y, w, h) == dst,
{
    assert forall|i: int| 0 <= i < dst.len() implies copy_region_px(dst, src, width, x, y, w, h)[i]
        == dst[i] by {
        assert(0 < width && 0 < height) by (nonlinear_arith)
            requires
                0 <= width,
                0 <= height,
                0 <= i < width * height,
        ;
        lemma_grid(width, height, i);
    }
    assert(copy_region_px(dst, src, width, x, y, w, h) =~= dst);
}

/// With an empty or fully off-screen target, `move_px` changes nothing.
proof fn lemma_move_px_empty(s: Seq<u32>, width: int, height: int, fx: int, fy: int, tx: int, ty: int, w: int, h: int)
    requires
        s.len() == width * height,
        0 <= width,
        0 <= height,
        tx >= width || ty >= height || w <= 0 || h <= 0,
    ensures
        move_px(s, width, height, fx, fy, tx, ty, w, h) == s,
{
    assert forall|i: int| 0 <= i < s.len() implies move_px(s, width, height, fx, fy, tx, ty, w, h)[i]
        == s[i] by {
        assert(0 < width && 0 < height) by (nonlinear_arith)
            requires
                0 <= width,
                0 <= height,
                0 <= i < width * height,
        ;
        lemma_grid(width, height, i);
    }
    assert(move_px(s, width, height, fx, fy, tx, ty, w, h) =~= s);
}

/// With an empty or fully off-screen rectangle, `rect_px` changes nothing.
proof fn lemma_rect_px_empty(s: Seq<u32>, width: int, height: int, x: int, y: int, w: int, h: int, color: u32)
    requires
        s.len() == width * height,
        0 <= width,
        0 <= height,
        x >= width || y >= height || w <= 0 || h <= 0,
    ensures
        rect_px(s, width, x, y, w, h, color) == s,
{
    assert forall|i: int| 0 <= i < s.len() implies rect_px(s, width, x, y, w, h, color)[i] == s[i] by {
        assert(0 < width && 0 < height) by (nonlinear_arith)
            requires
                0 <= width,
                0 <= height,
                0 <= i < width * height,
        ;
        lemma_grid(width, height, i);
    }
    assert(rect_px(s, width, x, y, w, h, color) =~= s);
}

/// A pointwise fill of the clipped rectangle `[x, x+cw) x [y, y+ch)` equals
/// `rect_px` of the unclipped one, when `cw`, `ch` are the clipped extents.
proof fn lemma_region_cond(
    s0: Seq<u32>,
    s1: Seq<u32>,
    base: Seq<u32>,
    width: int,
    height: int,
    x: int,
    y: int,
    w: int,
    h: int,
    cw: int,
    ch: int,
    color: u32,
)
    requires
        s0.len() == width * height,
        s1.len() == width * height,
        base.len() == width * height,
        0 <= x < width,
        0 <= y < height,
        0 < w,
        0 < h,
        cw == if w <= width - x { w } else { width - x },
        ch == if h <= height - y { h } else { height - y },
        forall|i: int|
            0 <= i < s1.len() ==> s1[i] == if x <= i % width < x + cw && y <= i / width < y + ch {
                color
            } else {
                base[i]
            },
    ensures
        forall|i: int|
            0 <= i < s1.len() ==> s1[i] == if x <= i % width < x + w && y <= i / width < y + h {
                color
            } else {
                base[i]
            },
{
    assert forall|i: int| 0 <= i < s1.len() implies s1[i] == (if x <= i % width < x + w && y <= i
        / width < y + h {
        color
    } else {
        base[i]
    }) by {
        lemma_grid(width, height, i);
    }
}

} // verus!
